//! The call payloads the executor understands. A payload is opaque bytes
//! on the wire; this module is the destination-side decoder, the encoder
//! test scenarios use to build payloads, and the weight formula that
//! admission-controls execution.

use vstd::arithmetic::div_mod::lemma_div_denominator;
use vstd::prelude::*;

verus! {

/// A decoded remote call.
#[derive(Debug, PartialEq, Eq)]
pub enum Call {
    /// Record a remark event under the derived origin.
    Remark(Vec<u8>),
    /// Move `amount` of the native asset from the derived origin to `to`.
    Transfer { to: u64, amount: u64 },
}

/// The mathematical value of a call.
pub ghost enum CallV {
    /// Record a remark event under the derived origin.
    Remark { data: Seq<u8> },
    /// Move `amount` of the native asset from the derived origin to `to`.
    Transfer { to: u64, amount: u64 },
}

impl View for Call {
    type V = CallV;

    open spec fn view(&self) -> CallV {
        match self {
            Call::Remark(d) => CallV::Remark { data: d@ },
            Call::Transfer { to, amount } => CallV::Transfer { to: *to, amount: *amount },
        }
    }
}

/// 256 to the `n`-th power: the number of values `n` bytes can carry.
pub open spec fn pow256(n: nat) -> nat
    decreases n,
{
    if n == 0 {
        1
    } else {
        256 * pow256((n - 1) as nat)
    }
}

/// Every power of 256 is positive.
pub proof fn lemma_pow256_pos(n: nat)
    ensures
        pow256(n) >= 1,
    decreases n,
{
    if n > 0 {
        lemma_pow256_pos((n - 1) as nat);
    }
}

/// Powers of 256 grow with the exponent.
pub proof fn lemma_pow256_mono(a: nat, b: nat)
    requires
        a <= b,
    ensures
        pow256(a) <= pow256(b),
    decreases b,
{
    if a < b {
        lemma_pow256_mono(a, (b - 1) as nat);
        lemma_pow256_pos((b - 1) as nat);
    }
}

/// The powers of 256 the eight-byte codec reaches.
pub proof fn lemma_pow256_values()
    ensures
        pow256(0) == 1,
        pow256(7) == 0x100_0000_0000_0000,
        pow256(8) == 0x1_0000_0000_0000_0000,
{
    assert(pow256(1) == 256 * pow256(0));
    assert(pow256(2) == 256 * pow256(1));
    assert(pow256(3) == 256 * pow256(2));
    assert(pow256(4) == 256 * pow256(3));
    assert(pow256(5) == 256 * pow256(4));
    assert(pow256(6) == 256 * pow256(5));
    assert(pow256(7) == 256 * pow256(6));
    assert(pow256(8) == 256 * pow256(7));
}

/// The value little-endian bytes carry: the first byte is least
/// significant.
pub open spec fn le_val(s: Seq<u8>) -> nat
    decreases s.len(),
{
    if s.len() == 0 {
        0
    } else {
        s[0] as nat + 256 * le_val(s.skip(1))
    }
}

/// The `n` little-endian bytes of `x`, least significant first.
pub open spec fn le_bytes(x: nat, n: nat) -> Seq<u8>
    decreases n,
{
    if n == 0 {
        Seq::empty()
    } else {
        seq![(x % 256) as u8] + le_bytes(x / 256, (n - 1) as nat)
    }
}

/// An `n`-byte encoding has `n` bytes.
pub proof fn lemma_le_bytes_len(x: nat, n: nat)
    ensures
        le_bytes(x, n).len() == n,
    decreases n,
{
    if n > 0 {
        lemma_le_bytes_len(x / 256, (n - 1) as nat);
    }
}

/// `n` bytes carry less than 256 to the `n`-th.
pub proof fn lemma_le_val_bound(s: Seq<u8>)
    ensures
        le_val(s) < pow256(s.len()),
    decreases s.len(),
{
    if s.len() > 0 {
        lemma_le_val_bound(s.skip(1));
        assert(pow256(s.len()) == 256 * pow256((s.len() - 1) as nat));
    }
}

/// Reading back the little-endian bytes of a value in range returns it.
pub proof fn lemma_le_round_trip(x: nat, n: nat)
    requires
        x < pow256(n),
    ensures
        le_val(le_bytes(x, n)) == x,
    decreases n,
{
    if n == 0 {
    } else {
        assert(x == 256 * (x / 256) + x % 256);
        lemma_le_round_trip(x / 256, (n - 1) as nat);
        let t = seq![(x % 256) as u8] + le_bytes(x / 256, (n - 1) as nat);
        assert(t[0] == (x % 256) as u8);
        assert(t.skip(1) =~= le_bytes(x / 256, (n - 1) as nat));
    }
}

/// One more little-endian byte appends the next 256-ary digit.
pub proof fn lemma_le_bytes_snoc(x: nat, k: nat)
    ensures
        le_bytes(x, k + 1) == le_bytes(x, k).push(((x / pow256(k)) % 256) as u8),
    decreases k,
{
    if k == 0 {
        assert(pow256(0) == 1);
        assert(x / 1 == x);
        assert(le_bytes(x / 256, 0) =~= Seq::<u8>::empty());
        assert(seq![(x % 256) as u8] + Seq::<u8>::empty() =~= Seq::<u8>::empty().push(
            ((x / pow256(0)) % 256) as u8,
        ));
    } else {
        lemma_le_bytes_snoc(x / 256, (k - 1) as nat);
        lemma_pow256_pos((k - 1) as nat);
        lemma_div_denominator(x as int, 256, pow256((k - 1) as nat) as int);
        assert(pow256(k) == 256 * pow256((k - 1) as nat));
        assert((x / 256) / pow256((k - 1) as nat) == x / pow256(k));
        let b = ((x / pow256(k)) % 256) as u8;
        assert(seq![(x % 256) as u8] + le_bytes(x / 256, (k - 1) as nat).push(b) =~= (seq![
            (x % 256) as u8,
        ] + le_bytes(x / 256, (k - 1) as nat)).push(b));
    }
}

/// The encoding of a call: a one-byte tag followed by its fields; a
/// transfer carries its two fields as eight little-endian bytes each.
pub open spec fn encode_v(c: CallV) -> Seq<u8> {
    match c {
        CallV::Remark { data } => seq![0u8] + data,
        CallV::Transfer { to, amount } => seq![1u8] + le_bytes(to as nat, 8) + le_bytes(
            amount as nat,
            8,
        ),
    }
}

/// What a payload decodes to: tag zero introduces a remark whose data is
/// the rest of the payload; tag one a transfer of exactly seventeen
/// bytes; anything else is a decode failure.
pub open spec fn decode_v(b: Seq<u8>) -> Option<CallV> {
    if b.len() >= 1 && b[0] == 0u8 {
        Some(CallV::Remark { data: b.skip(1) })
    } else if b.len() == 17 && b[0] == 1u8 {
        Some(
            CallV::Transfer {
                to: le_val(b.subrange(1, 9)) as u64,
                amount: le_val(b.subrange(9, 17)) as u64,
            },
        )
    } else {
        None
    }
}

/// The abstract cost of executing a call: a remark costs a base plus one
/// unit per payload byte, the byte share capped so the weight fits its
/// unit; a transfer has a flat cost.
pub open spec fn weight_v(c: CallV) -> u64 {
    match c {
        CallV::Remark { data } => (1000 + (if data.len() > 1000000 {
            1000000int
        } else {
            data.len() as int
        })) as u64,
        CallV::Transfer { .. } => 50000,
    }
}

/// Decoding undoes encoding: every call survives the byte round trip.
pub proof fn lemma_codec_round_trip(c: CallV)
    ensures
        decode_v(encode_v(c)) == Some(c),
{
    match c {
        CallV::Remark { data } => {
            assert((seq![0u8] + data).skip(1) =~= data);
            assert(c =~= CallV::Remark { data: (seq![0u8] + data).skip(1) });
        },
        CallV::Transfer { to, amount } => {
            let e = encode_v(c);
            lemma_le_bytes_len(to as nat, 8);
            lemma_le_bytes_len(amount as nat, 8);
            assert(e.len() == 17 && e[0] == 1u8);
            assert(e.subrange(1, 9) =~= le_bytes(to as nat, 8));
            assert(e.subrange(9, 17) =~= le_bytes(amount as nat, 8));
            lemma_pow256_values();
            lemma_le_round_trip(to as nat, 8);
            lemma_le_round_trip(amount as nat, 8);
        },
    }
}

/// Read the eight little-endian bytes starting at `off` as one value.
fn read_le8(bytes: &Vec<u8>, off: usize) -> (r: u64)
    requires
        off + 8 <= bytes@.len(),
    ensures
        r as nat == le_val(bytes@.subrange(off as int, off as int + 8)),
{
    let n = bytes.len();
    let mut acc: u64 = 0;
    let mut j: usize = 8;
    proof {
        assert(bytes@.subrange(off as int + 8, off as int + 8) =~= Seq::<u8>::empty());
        assert(le_val(Seq::<u8>::empty()) == 0);
        assert(pow256(0) == 1);
    }
    while j > 0
        invariant
            j <= 8,
            n == bytes@.len(),
            off + 8 <= n,
            acc as nat == le_val(bytes@.subrange(off as int + j, off as int + 8)),
            acc < pow256((8 - j) as nat),
        decreases j,
    {
        proof {
            lemma_pow256_values();
            lemma_pow256_mono((8 - j) as nat, 7);
        }
        j = j - 1;
        let b = bytes[off + j];
        proof {
            let s = bytes@.subrange(off as int + j, off as int + 8);
            assert(s[0] == bytes@[off as int + j]);
            assert(s.skip(1) =~= bytes@.subrange(off as int + j + 1, off as int + 8));
            lemma_le_val_bound(s);
            lemma_pow256_mono(s.len(), (8 - j) as nat);
        }
        acc = acc * 256 + b as u64;
    }
    proof {
        assert(bytes@.subrange(off as int, off as int + 8) == bytes@.subrange(
            off as int + 0,
            off as int + 8,
        ));
    }
    acc
}

/// Append the eight little-endian bytes of `x`.
fn push_le8(out: &mut Vec<u8>, x: u64)
    ensures
        final(out)@ == old(out)@ + le_bytes(x as nat, 8),
{
    let ghost base = out@;
    let mut v = x;
    let mut k: usize = 0;
    proof {
        assert(le_bytes(x as nat, 0) =~= Seq::<u8>::empty());
        assert(base + Seq::<u8>::empty() =~= base);
        assert(pow256(0) == 1);
    }
    while k < 8
        invariant
            k <= 8,
            out@ == base + le_bytes(x as nat, k as nat),
            v as nat == x as nat / pow256(k as nat),
        decreases 8 - k,
    {
        proof {
            lemma_le_bytes_snoc(x as nat, k as nat);
            lemma_pow256_pos(k as nat);
            lemma_div_denominator(x as int, pow256(k as nat) as int, 256);
            assert(pow256((k + 1) as nat) == 256 * pow256(k as nat));
            assert((x as nat / pow256(k as nat)) / 256 == x as nat / pow256((k + 1) as nat));
            assert((base + le_bytes(x as nat, k as nat)).push((v % 256) as u8) =~= base
                + le_bytes(x as nat, k as nat).push((v % 256) as u8));
        }
        out.push((v % 256) as u8);
        v = v / 256;
        k = k + 1;
    }
}

/// Decode a payload; `None` exactly when no call is encoded in it.
pub fn decode_call(bytes: &Vec<u8>) -> (r: Option<Call>)
    ensures
        match r {
            Some(c) => decode_v(bytes@) == Some(c@),
            None => decode_v(bytes@) is None,
        },
{
    if bytes.len() == 0 {
        return None;
    }
    if bytes[0] == 0u8 {
        let mut data: Vec<u8> = Vec::new();
        let mut i: usize = 1;
        while i < bytes.len()
            invariant
                1 <= i <= bytes@.len(),
                data@ == bytes@.subrange(1, i as int),
            decreases bytes@.len() - i,
        {
            data.push(bytes[i]);
            proof {
                assert(bytes@.subrange(1, i as int + 1) =~= bytes@.subrange(1, i as int).push(
                    bytes@[i as int],
                ));
            }
            i += 1;
        }
        proof {
            assert(bytes@.subrange(1, bytes@.len() as int) =~= bytes@.skip(1));
        }
        Some(Call::Remark(data))
    } else if bytes[0] == 1u8 && bytes.len() == 17 {
        let to = read_le8(bytes, 1);
        let amount = read_le8(bytes, 9);
        proof {
            lemma_le_val_bound(bytes@.subrange(1, 9));
            lemma_le_val_bound(bytes@.subrange(9, 17));
            lemma_pow256_values();
        }
        Some(Call::Transfer { to, amount })
    } else {
        None
    }
}

/// Encode a call into the payload bytes `decode_call` reads back.
pub fn encode_call(c: &Call) -> (r: Vec<u8>)
    ensures
        r@ == encode_v(c@),
        decode_v(r@) == Some(c@),
{
    proof {
        lemma_codec_round_trip(c@);
    }
    match c {
        Call::Remark(d) => {
            let mut out: Vec<u8> = Vec::new();
            out.push(0u8);
            let mut i: usize = 0;
            while i < d.len()
                invariant
                    i <= d@.len(),
                    out@ == seq![0u8] + d@.take(i as int),
                decreases d@.len() - i,
            {
                out.push(d[i]);
                proof {
                    assert(seq![0u8] + d@.take(i as int + 1) =~= (seq![0u8] + d@.take(
                        i as int,
                    )).push(d@[i as int]));
                }
                i += 1;
            }
            proof {
                assert(d@.take(d@.len() as int) =~= d@);
            }
            out
        },
        Call::Transfer { to, amount } => {
            let mut out: Vec<u8> = Vec::new();
            out.push(1u8);
            proof {
                assert(out@ =~= seq![1u8]);
            }
            push_le8(&mut out, *to);
            push_le8(&mut out, *amount);
            proof {
                assert((seq![1u8] + le_bytes(*to as nat, 8)) + le_bytes(*amount as nat, 8)
                    =~= encode_v(c@));
            }
            out
        },
    }
}

/// The weight of a decoded call, matching the admission formula.
pub fn weight_of(c: &Call) -> (r: u64)
    ensures
        r == weight_v(c@),
{
    match c {
        Call::Remark(d) => {
            let n: usize = if d.len() > 1000000 {
                1000000
            } else {
                d.len()
            };
            1000u64 + n as u64
        },
        Call::Transfer { .. } => 50000,
    }
}

} // verus!

//! The canonical cross-chain scenarios: a reserve transfer and one
//! transacted remark per channel kind, on a topology of one coordinator
//! and two dependent chains.

use chain_sim::builder::TopologyBuilder;
use chain_sim::codec::{encode_call, weight_of, Call};
use chain_sim::network::Network;
use chain_sim::types::{Event, HostConfig, OriginKind, NATIVE_ASSET};

const ALICE: u64 = 1;
const INITIAL_BALANCE: u128 = 100_000_000_000;
const KUSAMA: u32 = 0;
const STATEMINE: u32 = 1000;
const KARURA: u32 = 2000;

fn mock_net() -> Network {
    let mut b = TopologyBuilder::new(HostConfig::unbounded());
    b.set_coordinator(KUSAMA, vec![(ALICE, INITIAL_BALANCE)]).unwrap();
    b.add_dependent(STATEMINE, KUSAMA, vec![(ALICE, INITIAL_BALANCE)]).unwrap();
    b.add_dependent(KARURA, KUSAMA, vec![(ALICE, INITIAL_BALANCE)]).unwrap();
    b.build().unwrap()
}

fn remark_call() -> Call {
    Call::Remark(vec![1, 2, 3])
}

fn has_dispatch_success(events: &[Event]) -> bool {
    events.iter().any(|e| matches!(e, Event::DispatchSucceeded { .. }))
}

#[test]
fn reserve_transfer() {
    let mut net = mock_net();
    net.reset();

    net.enter(KUSAMA).unwrap();
    assert!(net.reserve_transfer(ALICE, STATEMINE, ALICE, NATIVE_ASSET, 123).is_ok());

    net.enter(STATEMINE).unwrap();
    // free execution, full amount received
    assert_eq!(net.balance_of(STATEMINE, ALICE).unwrap(), INITIAL_BALANCE + 123);
}

#[test]
fn dmp() {
    let mut net = mock_net();
    net.reset();

    let remark = remark_call();
    let weight = weight_of(&remark);

    net.enter(KUSAMA).unwrap();
    assert!(net
        .send_transact(STATEMINE, OriginKind::SovereignAccount, weight, encode_call(&remark))
        .is_ok());

    net.enter(STATEMINE).unwrap();
    let events = net.events_of(STATEMINE).unwrap();
    assert!(has_dispatch_success(&events));
}

#[test]
fn ump() {
    let mut net = mock_net();
    net.reset();

    let remark = remark_call();

    net.enter(STATEMINE).unwrap();
    assert!(net
        .send_transact(
            KUSAMA,
            OriginKind::SovereignAccount,
            INITIAL_BALANCE as u64,
            encode_call(&remark),
        )
        .is_ok());

    net.enter(KUSAMA).unwrap();
    let events = net.events_of(KUSAMA).unwrap();
    assert!(has_dispatch_success(&events));
}

#[test]
fn xcmp() {
    let mut net = mock_net();
    net.reset();

    let remark = remark_call();

    net.enter(STATEMINE).unwrap();
    assert!(net
        .send_transact(
            KARURA,
            OriginKind::SovereignAccount,
            INITIAL_BALANCE as u64,
            encode_call(&remark),
        )
        .is_ok());

    // the horizontal route is two-staged: the coordinator relays first
    net.enter(KUSAMA).unwrap();
    net.enter(KARURA).unwrap();
    let events = net.events_of(KARURA).unwrap();
    assert!(has_dispatch_success(&events));

    // the sender's own log is unaffected
    let sender_events = net.events_of(STATEMINE).unwrap();
    assert!(sender_events.is_empty());
}

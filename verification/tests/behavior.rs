//! Behavioural checks: reset idempotence, delivery ordering, the weight
//! ceiling, error reporting at every rejection point, queue ceilings and
//! the staging of horizontal traffic.

use chain_sim::builder::TopologyBuilder;
use chain_sim::codec::{decode_call, encode_call, weight_of, Call};
use chain_sim::executor::sovereign_account_of;
use chain_sim::network::Network;
use chain_sim::types::{
    ConfigError, Event, FailReason, HostConfig, NetError, OriginKind, NATIVE_ASSET,
};

const ALICE: u64 = 1;
const INITIAL_BALANCE: u128 = 100_000_000_000;
const COORD: u32 = 0;
const DEP_A: u32 = 1000;
const DEP_B: u32 = 2000;

fn mock_net() -> Network {
    net_with_config(HostConfig::unbounded())
}

fn net_with_config(config: HostConfig) -> Network {
    let mut b = TopologyBuilder::new(config);
    b.set_coordinator(COORD, vec![(ALICE, INITIAL_BALANCE)]).unwrap();
    b.add_dependent(DEP_A, COORD, vec![(ALICE, INITIAL_BALANCE)]).unwrap();
    b.add_dependent(DEP_B, COORD, vec![(ALICE, INITIAL_BALANCE)]).unwrap();
    b.build().unwrap()
}

fn run_scenario(net: &mut Network) -> (u128, Vec<Event>) {
    net.enter(COORD).unwrap();
    net.reserve_transfer(ALICE, DEP_A, ALICE, NATIVE_ASSET, 77).unwrap();
    net.enter(DEP_A).unwrap();
    (net.balance_of(DEP_A, ALICE).unwrap(), net.events_of(DEP_A).unwrap())
}

#[test]
fn reset_idempotence() {
    let mut once = mock_net();
    once.reset();
    let (balance_once, events_once) = run_scenario(&mut once);

    let mut thrice = mock_net();
    thrice.reset();
    thrice.reset();
    thrice.reset();
    let (balance_thrice, events_thrice) = run_scenario(&mut thrice);

    assert_eq!(balance_once, balance_thrice);
    assert_eq!(events_once, events_thrice);
}

#[test]
fn reset_clears_residue() {
    let mut net = mock_net();
    net.enter(COORD).unwrap();
    net.reserve_transfer(ALICE, DEP_A, ALICE, NATIVE_ASSET, 500).unwrap();
    net.reset();
    // the queued credit is gone and the coordinator's ledger is fresh
    net.enter(DEP_A).unwrap();
    assert_eq!(net.balance_of(DEP_A, ALICE).unwrap(), INITIAL_BALANCE);
    assert!(net.events_of(DEP_A).unwrap().is_empty());
    assert_eq!(net.balance_of(COORD, ALICE).unwrap(), INITIAL_BALANCE);
    assert_eq!(net.block_of(COORD).unwrap(), 1);
}

#[test]
fn downward_delivery_order() {
    let mut net = mock_net();
    let remark = Call::Remark(vec![5]);
    let weight = weight_of(&remark);

    net.enter(COORD).unwrap();
    net.send_transact(DEP_A, OriginKind::SovereignAccount, weight, encode_call(&remark))
        .unwrap();
    net.send_transact(DEP_A, OriginKind::SovereignAccount, weight, vec![9, 9])
        .unwrap();

    net.enter(DEP_A).unwrap();
    let origin = sovereign_account_of(COORD);
    let events = net.events_of(DEP_A).unwrap();
    assert_eq!(
        events,
        vec![
            Event::Remarked { origin },
            Event::DispatchSucceeded { origin },
            Event::ExecutionFailed { reason: FailReason::Decode },
        ]
    );
}

#[test]
fn weight_ceiling_enforced() {
    let mut net = mock_net();
    let remark = Call::Remark(vec![1, 2, 3]);
    let weight = weight_of(&remark);

    net.enter(COORD).unwrap();
    net.send_transact(DEP_A, OriginKind::SovereignAccount, weight - 1, encode_call(&remark))
        .unwrap();

    net.enter(DEP_A).unwrap();
    let events = net.events_of(DEP_A).unwrap();
    assert_eq!(
        events,
        vec![Event::ExecutionFailed { reason: FailReason::WeightLimitExceeded }]
    );
    assert_eq!(net.balance_of(DEP_A, ALICE).unwrap(), INITIAL_BALANCE);
}

#[test]
fn unsupported_origin_kind_fails() {
    let mut net = mock_net();
    let remark = Call::Remark(vec![1]);
    let weight = weight_of(&remark);

    net.enter(COORD).unwrap();
    net.send_transact(DEP_A, OriginKind::Native, weight, encode_call(&remark)).unwrap();
    net.send_transact(DEP_A, OriginKind::Superuser, weight, encode_call(&remark)).unwrap();

    net.enter(DEP_A).unwrap();
    let events = net.events_of(DEP_A).unwrap();
    assert_eq!(
        events,
        vec![
            Event::ExecutionFailed { reason: FailReason::BadOrigin },
            Event::ExecutionFailed { reason: FailReason::BadOrigin },
        ]
    );
}

#[test]
fn reserve_transfer_conservation() {
    let mut net = mock_net();
    net.enter(COORD).unwrap();
    net.reserve_transfer(ALICE, DEP_A, ALICE, NATIVE_ASSET, 123).unwrap();

    let sov = sovereign_account_of(DEP_A);
    assert_eq!(net.balance_of(COORD, ALICE).unwrap(), INITIAL_BALANCE - 123);
    assert_eq!(net.balance_of(COORD, sov).unwrap(), 123);
    assert_eq!(
        net.events_of(COORD).unwrap(),
        vec![
            Event::Withdrawn { account: ALICE, amount: 123 },
            Event::Deposited { account: sov, amount: 123 },
        ]
    );

    net.enter(DEP_A).unwrap();
    assert_eq!(net.balance_of(DEP_A, ALICE).unwrap(), INITIAL_BALANCE + 123);
    assert_eq!(
        net.events_of(DEP_A).unwrap(),
        vec![Event::Deposited { account: ALICE, amount: 123 }]
    );
}

#[test]
fn insufficient_balance_rejected_at_enqueue() {
    let mut net = mock_net();
    net.enter(COORD).unwrap();
    let r = net.reserve_transfer(ALICE, DEP_A, ALICE, NATIVE_ASSET, INITIAL_BALANCE + 1);
    assert_eq!(r, Err(NetError::InsufficientBalance));
    // nothing was withdrawn and nothing was queued
    assert_eq!(net.balance_of(COORD, ALICE).unwrap(), INITIAL_BALANCE);
    assert!(net.events_of(COORD).unwrap().is_empty());
    net.enter(DEP_A).unwrap();
    assert_eq!(net.balance_of(DEP_A, ALICE).unwrap(), INITIAL_BALANCE);
    assert!(net.events_of(DEP_A).unwrap().is_empty());
}

#[test]
fn non_native_asset_rejected() {
    let mut net = mock_net();
    net.enter(COORD).unwrap();
    let r = net.reserve_transfer(ALICE, DEP_A, ALICE, 7, 10);
    assert_eq!(r, Err(NetError::UnsupportedAsset));
}

#[test]
fn send_rejections() {
    let mut net = mock_net();
    let payload = encode_call(&Call::Remark(vec![1]));

    // no scope is open yet
    assert_eq!(
        net.send_transact(DEP_A, OriginKind::SovereignAccount, 9999, payload.clone()),
        Err(NetError::NotEntered)
    );

    net.enter(COORD).unwrap();
    assert_eq!(
        net.send_transact(4242, OriginKind::SovereignAccount, 9999, payload.clone()),
        Err(NetError::UnknownChain)
    );
    assert_eq!(
        net.send_transact(COORD, OriginKind::SovereignAccount, 9999, payload),
        Err(NetError::SelfDestination)
    );
    assert_eq!(net.enter(4242), Err(NetError::UnknownChain));
}

#[test]
fn queue_depth_ceiling() {
    let mut net = net_with_config(HostConfig {
        max_queue_len: Some(1),
        max_message_size: None,
    });
    let payload = encode_call(&Call::Remark(vec![1]));
    net.enter(COORD).unwrap();
    assert!(net
        .send_transact(DEP_A, OriginKind::SovereignAccount, 9999, payload.clone())
        .is_ok());
    assert_eq!(
        net.send_transact(DEP_B, OriginKind::SovereignAccount, 9999, payload),
        Err(NetError::CapacityExceeded)
    );
}

#[test]
fn message_size_ceiling() {
    let mut net = net_with_config(HostConfig {
        max_queue_len: None,
        max_message_size: Some(3),
    });
    net.enter(COORD).unwrap();
    let small = encode_call(&Call::Remark(vec![1, 2]));
    assert!(net.send_transact(DEP_A, OriginKind::SovereignAccount, 9999, small).is_ok());
    let big = encode_call(&Call::Remark(vec![1, 2, 3]));
    assert_eq!(
        net.send_transact(DEP_B, OriginKind::SovereignAccount, 9999, big),
        Err(NetError::MessageTooLarge)
    );
}

#[test]
fn horizontal_needs_the_coordinator() {
    let mut net = mock_net();
    let remark = Call::Remark(vec![8]);
    let weight = weight_of(&remark);

    net.enter(DEP_A).unwrap();
    net.send_transact(DEP_B, OriginKind::SovereignAccount, weight, encode_call(&remark))
        .unwrap();

    // the destination sees nothing until the coordinator has relayed
    net.enter(DEP_B).unwrap();
    assert!(net.events_of(DEP_B).unwrap().is_empty());

    net.enter(COORD).unwrap();
    net.enter(DEP_B).unwrap();
    let origin = sovereign_account_of(DEP_A);
    assert_eq!(
        net.events_of(DEP_B).unwrap(),
        vec![Event::Remarked { origin }, Event::DispatchSucceeded { origin }]
    );
}

#[test]
fn entering_one_chain_leaves_others_alone() {
    let mut net = mock_net();
    net.enter(COORD).unwrap();
    net.reserve_transfer(ALICE, DEP_A, ALICE, NATIVE_ASSET, 9).unwrap();
    let coord_events = net.events_of(COORD).unwrap();
    let dep_b_block = net.block_of(DEP_B).unwrap();

    net.enter(DEP_A).unwrap();
    assert_eq!(net.events_of(COORD).unwrap(), coord_events);
    assert_eq!(net.balance_of(COORD, ALICE).unwrap(), INITIAL_BALANCE - 9);
    assert_eq!(net.block_of(DEP_B).unwrap(), dep_b_block);
    assert!(net.events_of(DEP_B).unwrap().is_empty());
}

#[test]
fn blocks_advance_per_entry() {
    let mut net = mock_net();
    assert_eq!(net.block_of(COORD).unwrap(), 1);
    net.enter(COORD).unwrap();
    assert_eq!(net.block_of(COORD).unwrap(), 2);
    net.enter(DEP_A).unwrap();
    net.enter(COORD).unwrap();
    assert_eq!(net.block_of(COORD).unwrap(), 3);
    assert_eq!(net.block_of(DEP_A).unwrap(), 2);
}

#[test]
fn codec_round_trip() {
    let call = Call::Remark(vec![0, 1, 254, 255]);
    let bytes = encode_call(&call);
    assert_eq!(bytes, vec![0, 0, 1, 254, 255]);
    assert_eq!(decode_call(&bytes), Some(call));
    assert_eq!(decode_call(&vec![]), None);
    assert_eq!(decode_call(&vec![3, 1, 2]), None);

    let transfer = Call::Transfer { to: 0x0102_0304_0506_0708, amount: 42 };
    let bytes = encode_call(&transfer);
    assert_eq!(
        bytes,
        vec![1, 8, 7, 6, 5, 4, 3, 2, 1, 42, 0, 0, 0, 0, 0, 0, 0]
    );
    assert_eq!(decode_call(&bytes), Some(transfer));
    // a transfer must be exactly seventeen bytes
    assert_eq!(decode_call(&vec![1, 1, 2]), None);
}

#[test]
fn weight_formula() {
    assert_eq!(weight_of(&Call::Remark(vec![])), 1000);
    assert_eq!(weight_of(&Call::Remark(vec![1, 2, 3])), 1003);
    assert_eq!(weight_of(&Call::Transfer { to: 2, amount: 3 }), 50000);
}

#[test]
fn transacted_transfer_moves_funds() {
    let sov = sovereign_account_of(COORD);
    let bob: u64 = 2;
    let mut b = TopologyBuilder::new(HostConfig::unbounded());
    b.set_coordinator(COORD, vec![(ALICE, INITIAL_BALANCE)]).unwrap();
    // the coordinator's sovereign account is funded on the dependent
    b.add_dependent(DEP_A, COORD, vec![(ALICE, INITIAL_BALANCE), (sov, 500)]).unwrap();
    b.add_dependent(DEP_B, COORD, vec![(ALICE, INITIAL_BALANCE)]).unwrap();
    let mut net = b.build().unwrap();

    let call = Call::Transfer { to: bob, amount: 40 };
    net.enter(COORD).unwrap();
    net.send_transact(DEP_A, OriginKind::SovereignAccount, weight_of(&call), encode_call(&call))
        .unwrap();

    net.enter(DEP_A).unwrap();
    assert_eq!(net.balance_of(DEP_A, sov).unwrap(), 460);
    assert_eq!(net.balance_of(DEP_A, bob).unwrap(), 40);
    assert_eq!(
        net.events_of(DEP_A).unwrap(),
        vec![
            Event::Withdrawn { account: sov, amount: 40 },
            Event::Deposited { account: bob, amount: 40 },
            Event::DispatchSucceeded { origin: sov },
        ]
    );
}

#[test]
fn transacted_transfer_without_funds_fails_dispatch() {
    let mut net = mock_net();
    let call = Call::Transfer { to: 2, amount: 40 };

    net.enter(COORD).unwrap();
    net.send_transact(DEP_A, OriginKind::SovereignAccount, weight_of(&call), encode_call(&call))
        .unwrap();

    net.enter(DEP_A).unwrap();
    // the coordinator's sovereign account holds nothing on the dependent
    assert_eq!(
        net.events_of(DEP_A).unwrap(),
        vec![Event::ExecutionFailed { reason: FailReason::Dispatch }]
    );
    assert_eq!(net.balance_of(DEP_A, 2).unwrap(), 0);
}

#[test]
fn builder_rejections() {
    let mut b = TopologyBuilder::new(HostConfig::unbounded());
    assert_eq!(
        b.add_dependent(DEP_A, COORD, vec![]),
        Err(ConfigError::MissingCoordinator)
    );
    assert!(b.set_coordinator(COORD, vec![]).is_ok());
    assert_eq!(
        b.set_coordinator(9, vec![]),
        Err(ConfigError::DuplicateCoordinator)
    );
    assert_eq!(b.add_dependent(DEP_A, DEP_A, vec![]), Err(ConfigError::SelfParent));
    assert_eq!(
        b.add_dependent(DEP_A, 9, vec![]),
        Err(ConfigError::ParentNotCoordinator)
    );
    assert!(b.add_dependent(DEP_A, COORD, vec![]).is_ok());
    assert_eq!(
        b.add_dependent(DEP_A, COORD, vec![]),
        Err(ConfigError::DuplicateChainId)
    );
    // naming the coordinator itself as a dependent is caught as well,
    // by the self-parent check, since its parent must be itself
    assert_eq!(b.add_dependent(COORD, COORD, vec![]), Err(ConfigError::SelfParent));

    let empty = TopologyBuilder::new(HostConfig::unbounded());
    assert!(matches!(empty.build(), Err(ConfigError::MissingCoordinator)));

    let mut no_deps = TopologyBuilder::new(HostConfig::unbounded());
    no_deps.set_coordinator(COORD, vec![]).unwrap();
    assert!(matches!(no_deps.build(), Err(ConfigError::NoDependents)));
}

#[test]
fn reserve_rejected_when_sovereign_account_would_overflow() {
    let sov = sovereign_account_of(DEP_A);
    let mut b = TopologyBuilder::new(HostConfig::unbounded());
    // the destination's sovereign account is already saturated on the source
    b.set_coordinator(COORD, vec![(ALICE, INITIAL_BALANCE), (sov, u128::MAX)]).unwrap();
    b.add_dependent(DEP_A, COORD, vec![(ALICE, INITIAL_BALANCE)]).unwrap();
    let mut net = b.build().unwrap();

    net.enter(COORD).unwrap();
    let r = net.reserve_transfer(ALICE, DEP_A, ALICE, NATIVE_ASSET, 5);
    assert_eq!(r, Err(NetError::BalanceOverflow));
    assert_eq!(net.balance_of(COORD, ALICE).unwrap(), INITIAL_BALANCE);
    assert!(net.events_of(COORD).unwrap().is_empty());
}

#[test]
fn beneficiary_balance_overflow_on_delivery() {
    let mut b = TopologyBuilder::new(HostConfig::unbounded());
    b.set_coordinator(COORD, vec![(ALICE, INITIAL_BALANCE)]).unwrap();
    b.add_dependent(DEP_A, COORD, vec![(ALICE, u128::MAX)]).unwrap();
    let mut net = b.build().unwrap();

    net.enter(COORD).unwrap();
    net.reserve_transfer(ALICE, DEP_A, ALICE, NATIVE_ASSET, 5).unwrap();
    net.enter(DEP_A).unwrap();
    // the credit cannot be applied: one failure event, balance unchanged
    assert_eq!(
        net.events_of(DEP_A).unwrap(),
        vec![Event::ExecutionFailed { reason: FailReason::Overflow }]
    );
    assert_eq!(net.balance_of(DEP_A, ALICE).unwrap(), u128::MAX);
}

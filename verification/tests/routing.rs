use dg::elements::{converger_round, distribute, distributor_outputs, Convergence, DistributionStrategy};
use dg::graph::element::{Delivery, EosState, Received};
use dg::graph::error::GraphError;

fn names(list: &[&str]) -> Vec<String> {
    list.iter().map(|name| name.to_string()).collect()
}

#[test]
fn distributor_branches_come_from_numbered_output_ports() {
    assert_eq!(distributor_outputs(&names(&["out2", "out0", "stats", "out+1", "outx"])), Ok(vec![2, 0, 1]));
    assert_eq!(
        distributor_outputs(&names(&["stats"])),
        Err(GraphError::Config("distributor requires at least one output".to_string()))
    );
}

#[test]
fn round_robin_takes_branches_in_turn_and_broadcast_takes_all() {
    let branches = vec![3, 5, 7];
    let mut next = 0;
    let mut sent = Vec::new();
    for _ in 0..4 {
        let (targets, after) = distribute(DistributionStrategy::RoundRobin, &branches, next);
        sent.extend(targets);
        next = after;
    }
    assert_eq!(sent, vec![3, 5, 7, 3]);
    assert_eq!(next, 4);
    assert_eq!(distribute(DistributionStrategy::RoundRobin, &branches, usize::MAX).1, 0);
    assert_eq!(distribute(DistributionStrategy::Broadcast, &branches, 9), (vec![3, 5, 7], 9));
}

#[test]
fn converger_polls_open_ports_in_name_order_until_all_end() {
    let mut state = Convergence::new(&names(&["in1", "in0", "in2"])).ok().expect("inputs");
    assert_eq!(state.open_ports(), names(&["in0", "in1", "in2"]));
    assert!(!state.is_done());
    state.port_ended("in1");
    assert_eq!(state.open_ports(), names(&["in0", "in2"]));
    state.port_ended("in0");
    state.port_ended("in2");
    assert!(state.open_ports().is_empty());
    assert!(state.is_done());
    assert!(Convergence::new(&Vec::new()).is_err());
}

#[test]
fn a_quiet_round_ends_the_converger_only_when_stopping() {
    assert_eq!(converger_round(false, true), Err(GraphError::NotRunning));
    assert_eq!(converger_round(false, false), Ok(()));
    assert_eq!(converger_round(true, true), Ok(()));
}

#[test]
fn end_of_stream_is_forwarded_by_the_last_instance_only() {
    let mut state = EosState::new(3);
    assert_eq!(state.on_receive(Received::TimedOut), Delivery::Nothing);
    assert_eq!(state.on_receive(Received::Disconnected), Delivery::Failed);
    assert_eq!(state.on_receive(Received::Packet { eos: false }), Delivery::Packet);
    assert!(!state.seen);
    assert_eq!(state.on_receive(Received::Packet { eos: true }), Delivery::Packet);
    assert!(state.seen);
    assert_eq!(state.on_receive(Received::TimedOut), Delivery::EndOfStream);
    assert_eq!(state.on_receive(Received::Disconnected), Delivery::EndOfStream);
    let forwarded: Vec<bool> = (0..3).map(|_| state.on_broadcast()).collect();
    assert_eq!(forwarded, vec![false, false, true]);
}

#[test]
fn sink_batches_are_reported_in_one_list() {
    let batches = vec![vec![1, 2], vec![], vec![3]];
    assert_eq!(dg::graph::engine::flatten_batches(&batches), vec![1, 2, 3]);
    assert!(dg::graph::engine::flatten_batches::<u8>(&Vec::new()).is_empty());
}

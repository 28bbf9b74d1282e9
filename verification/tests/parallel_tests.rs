use sgxtuner::annealing::{termination, Termination, PRSA_REJECT_LIMIT, SPISA_REJECT_LIMIT};
use sgxtuner::keyed::KeyedVec;
use sgxtuner::parallel_v1::energy_eval::{args_accepted, EnergyEval};
use sgxtuner::parallel_v1::meter_proxy::{Meter, SharedCounter, SharedTimeVec};
use sgxtuner::parallel_v1::shared::{AcceptedStates, ElapsedSteps, NeighborhoodsPool, State, SubsequentRejStates};
use sgxtuner::sequential::{StageCounters, StageLimits, StepOutcome, TerminationCriteria};

#[test]
fn parse_args_reads_address_and_port() {
    let e = EnergyEval::new();
    assert_eq!(e.num_iter, 1);
    assert_eq!(e.parse_args("-l 10.0.0.1 -p 8080 -t 4".to_string()), ("10.0.0.1".to_string(), 8080));
    assert_eq!(e.parse_args("--port 11211".to_string()), ("127.0.0.1".to_string(), 11211));
    assert_eq!(e.parse_args("--server 1.2.3.4 -h x --port 1".to_string()), ("1.2.3.4".to_string(), 1));
}

#[test]
fn args_without_port_are_not_accepted() {
    assert!(args_accepted("-l 1.2.3.4 -p 80"));
    assert!(!args_accepted("-l 1.2.3.4"));
    assert!(!args_accepted("-p"));
    assert!(!args_accepted("-p 70000"));
    assert!(!args_accepted("-p 80 -l"));
}

#[test]
fn change_port_arg_rewrites_the_port() {
    let e = EnergyEval::new();
    assert_eq!(e.change_port_arg("-l 1.2.3.4 -p 80 -t 4".to_string(), 12300, 2), " -l 1.2.3.4 -p 12302 -t 4");
    assert_eq!(e.change_port_arg("-p -p 5".to_string(), 100, 1), " -p 101 101");
    assert_eq!(e.change_port_arg("".to_string(), 1, 1), "");
}

#[test]
fn changed_port_is_read_back() {
    let e = EnergyEval::new();
    for id in 0..4usize {
        let args = e.change_port_arg("-l 1.2.3.4 -p 80".to_string(), 12400, id);
        assert_eq!(e.parse_args(args).1 as usize, 12400 + id);
    }
}

#[test]
fn meter_counts_and_resets() {
    let mut m = Meter::new("1.2.3.4".to_string(), 80, "0.0.0.0".to_string(), 12349);
    assert_eq!(m.get_num_bytes_rcvd(), 0);
    m.record_received(100);
    m.record_received(24);
    m.record_time(5);
    assert_eq!(m.get_num_bytes_rcvd(), 124);
    assert_eq!(m.time_table.get_size(), 1);
    m.stop_and_reset();
    assert!(m.reset_lock_flag);
    assert_eq!(m.get_num_bytes_rcvd(), 0);
    assert_eq!(m.time_table.get_size(), 0);
}

#[test]
fn shared_counter_and_time_vec() {
    let mut c = SharedCounter::new();
    c.increment(3);
    assert_eq!(c.get(), 3);
    c.reset();
    assert_eq!(c.get(), 0);
    let mut t = SharedTimeVec::new();
    t.insert(7);
    t.insert(9);
    assert_eq!(t.values(), &vec![7, 9]);
    t.reset();
    assert_eq!(t.get_size(), 0);
}

#[test]
fn counters_of_the_parallel_solver() {
    let mut s = ElapsedSteps::new();
    s.increment();
    s.increment();
    assert_eq!(s.get(), 2);
    let mut a = AcceptedStates::new();
    a.increment();
    assert_eq!(a.get(), 1);
    let mut r = SubsequentRejStates::new();
    r.increment();
    r.reset();
    assert_eq!(r.get(), 0);
}

#[test]
fn neighbourhood_pool_hands_out_each_state_once() {
    let mut states = Vec::new();
    for v in 0..5u32 {
        let mut st: State = KeyedVec::new();
        st.insert("p".to_string(), v);
        states.push(st);
    }
    let mut pool = NeighborhoodsPool::new(states);
    let mut got = Vec::new();
    while let Some(s) = pool.remove_one() {
        got.push(*s.get("p").unwrap());
    }
    got.sort();
    assert_eq!(got, vec![0, 1, 2, 3, 4]);
}

#[test]
fn termination_of_the_parallel_solvers() {
    assert!(matches!(termination(11, 10, 0, PRSA_REJECT_LIMIT), Some(Termination::MaxSteps)));
    assert!(matches!(termination(10, 10, 301, SPISA_REJECT_LIMIT), Some(Termination::Converged)));
    assert!(termination(10, 10, 300, SPISA_REJECT_LIMIT).is_none());
}

#[test]
fn stage_counters_close_stages() {
    let limits = StageLimits::new();
    let mut c = StageCounters::new();
    // nine acceptances, the tenth closes the stage
    for _ in 0..9 {
        assert!(!c.after_step(StepOutcome::Accepted { improved: true }, &limits));
    }
    assert_eq!((c.attempted, c.accepted, c.total_improves), (9, 9, 9));
    assert!(!c.after_step(StepOutcome::Accepted { improved: false }, &limits));
    assert_eq!((c.attempted, c.accepted, c.rejected), (0, 0, 0));
    assert_eq!(c.subsequent_improves, 9);
    // a rejection resets the run of improvements
    assert!(!c.after_step(StepOutcome::Rejected, &limits));
    assert_eq!(c.subsequent_improves, 0);
    // a skipped step changes nothing
    let before = c;
    assert!(!c.after_step(StepOutcome::Skipped, &limits));
    assert_eq!(c.attempted, before.attempted);
}

#[test]
fn stage_counters_stop_after_fruitless_stages() {
    let limits = StageLimits { max_attempts: 2, max_accepts: 10, max_rejects: 2 };
    let mut c = StageCounters::new();
    assert!(!c.after_step(StepOutcome::Rejected, &limits));
    assert!(!c.after_step(StepOutcome::Rejected, &limits));
    assert_eq!(c.rejected, 1);
    assert!(!c.after_step(StepOutcome::Rejected, &limits));
    assert!(c.after_step(StepOutcome::Rejected, &limits));
    assert!(matches!(TerminationCriteria::Max_Steps(3), TerminationCriteria::Max_Steps(3)));
}

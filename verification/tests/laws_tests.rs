use sgxtuner::annealing::MipsWorker;
use sgxtuner::keyed::KeyedVec;
use sgxtuner::sequential::StepOutcome;
use sgxtuner::parallel_v1::meter_proxy::Meter;
use sgxtuner::tuner::common::{AcceptedStates, NeighborhoodsPool, StatesPool};
use sgxtuner::tuner::prsa::split_into_chunks;
use sgxtuner::tuner::states_gen::State;
use sgxtuner::tuner::SolverVersion;

fn st(v: usize) -> State {
    let mut s = KeyedVec::new();
    s.insert("A".to_string(), v);
    s
}

#[test]
fn draining_a_pool_hands_out_every_neighbour_once() {
    let mut pool = NeighborhoodsPool::new(vec![st(1), st(2), st(3)]);
    let mut out: Vec<usize> = Vec::new();
    for k in 0..3u64 {
        assert_eq!(pool.size(), 3 - k);
        out.push(*pool.remove_one().expect("an item").get("A").unwrap());
    }
    assert_eq!(pool.size(), 0);
    assert!(pool.remove_one().is_none());
    out.sort();
    assert_eq!(out, vec![1, 2, 3]);
}

#[test]
fn accepted_counts_never_decrease() {
    let mut a = AcceptedStates::new();
    let mut seen = vec![a.get()];
    for inc in [true, false, true, true, false] {
        if inc {
            a.increment();
        }
        seen.push(a.get());
    }
    assert_eq!(seen, vec![0, 1, 1, 2, 3, 3]);
}

#[test]
fn meter_bytes_are_the_sum_of_the_chunks() {
    let mut m = Meter::new("10.0.0.1".to_string(), 80, "127.0.0.1".to_string(), 8080);
    for n in [10, 0, 32, 7] {
        m.record_received(n);
    }
    assert_eq!(m.get_num_bytes_rcvd(), 49);
    m.stop_and_reset();
    m.record_received(5);
    assert_eq!(m.get_num_bytes_rcvd(), 5);
}

#[test]
fn population_is_dealt_out_from_its_end() {
    let mut pool = StatesPool::new_with_val((1..=7).map(st).collect());
    let chunks = split_into_chunks(&mut pool, 3, 2);
    let values: Vec<Vec<usize>> =
        chunks.iter().map(|c| c.iter().map(|s| *s.get("A").unwrap()).collect()).collect();
    assert_eq!(values, vec![vec![7, 6], vec![5, 4], vec![3, 2]]);
    assert_eq!(pool.size(), 1);
    let chunks = split_into_chunks(&mut pool, 2, 3);
    assert_eq!(chunks[0].len(), 1);
    assert!(chunks[1].is_empty());
    assert_eq!(pool.size(), 0);
}

#[test]
fn documented_solver_names_are_accepted() {
    assert!(matches!(SolverVersion::from_name("seqsa"), Some(SolverVersion::seqsea)));
    assert!(matches!(SolverVersion::from_name("spisa"), Some(SolverVersion::spis)));
    assert!(matches!(SolverVersion::from_name("mir"), Some(SolverVersion::mips)));
    assert!(matches!(SolverVersion::from_name("prsa"), Some(SolverVersion::prsa)));
    assert!(matches!(SolverVersion::from_name("spis"), Some(SolverVersion::spis)));
    assert!(SolverVersion::from_name("annealing").is_none());
}

#[test]
fn mips_worker_stops_on_the_hundredth_rejection() {
    let mut w = MipsWorker::new();
    assert!(!w.after_step(StepOutcome::Accepted { improved: true }));
    assert!(!w.after_step(StepOutcome::Skipped));
    assert_eq!((w.steps, w.accepted, w.rejected, w.total_improves), (2, 1, 0, 1));
    for _ in 0..99 {
        assert!(!w.after_step(StepOutcome::Rejected));
    }
    assert_eq!((w.steps, w.rejected), (101, 99));
    assert!(w.after_step(StepOutcome::Rejected));
    assert_eq!((w.steps, w.rejected), (101, 100));
    assert!(!w.budget_spent(404, 4));
    assert!(w.budget_spent(400, 4));
}

use sgxtuner::keyed::KeyedVec;
use sgxtuner::pool::{Counter, Pool};
use sgxtuner::core_tuner::shared::ProcessPool;

#[test]
fn keyed_insert_then_get() {
    let mut m: KeyedVec<u32> = KeyedVec::new();
    m.insert("a".to_string(), 1);
    m.insert("b".to_string(), 2);
    m.insert("a".to_string(), 3);
    assert_eq!(m.len(), 2);
    assert_eq!(m.get("a"), Some(&3));
    assert_eq!(m.get("b"), Some(&2));
    assert_eq!(m.get("c"), None);
    let (k0, v0) = m.entry_at(0);
    assert_eq!((k0.as_str(), *v0), ("a", 3));
}

#[test]
fn keyed_remove_and_copy() {
    let mut m: KeyedVec<u32> = KeyedVec::new();
    m.insert("a".to_string(), 1);
    m.insert("b".to_string(), 2);
    let c = m.duplicate();
    assert_eq!(m.remove("a"), Some(1));
    assert_eq!(m.remove("a"), None);
    assert!(!m.contains_key("a"));
    assert_eq!(c.get("a"), Some(&1));
    assert_eq!(c.len(), 2);
}

#[test]
fn pool_push_then_pop_gives_back_the_item() {
    let mut p: Pool<u32> = Pool::new();
    p.push(1);
    p.push(2);
    assert_eq!(p.pop(), Some(2));
    assert_eq!(p.size(), 1);
    assert_eq!(p.pop(), Some(1));
    assert_eq!(p.pop(), None);
}

#[test]
fn pool_remove_one_keeps_the_other_items() {
    let mut p: Pool<u32> = Pool::from_vec(vec![1, 2, 3, 4]);
    let mut seen = Vec::new();
    while let Some(x) = p.remove_one() {
        seen.push(x);
    }
    seen.sort();
    assert_eq!(seen, vec![1, 2, 3, 4]);
    assert_eq!(p.size(), 0);
}

#[test]
fn pool_shuffle_is_a_permutation() {
    let mut p: Pool<u32> = Pool::from_vec((0..20).collect());
    p.shuffle();
    let mut out = Vec::new();
    while let Some(x) = p.pop() {
        out.push(x);
    }
    out.sort();
    assert_eq!(out, (0..20).collect::<Vec<u32>>());
}

#[test]
fn counter_adds_and_resets() {
    let mut c = Counter::new();
    c.add(3);
    c.add(4);
    assert_eq!(c.get(), 7);
    c.reset();
    assert_eq!(c.get(), 0);
}

#[test]
fn process_pool_is_last_in_first_out() {
    let mut p = ProcessPool::new();
    p.push("10.0.0.1:1".to_string());
    p.push("10.0.0.2:2".to_string());
    assert_eq!(p.size(), 2);
    assert_eq!(p.pop(), "10.0.0.2:2");
    assert_eq!(p.pop(), "10.0.0.1:1");
    assert_eq!(p.size(), 0);
}

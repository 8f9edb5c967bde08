use linearf::cache_chunks::new_cache_chunks;
use linearf::chunks::{Chunks, Fuse};
use linearf::sorted::{merge, sort_chunk, Sorted};
use linearf::value::{Score, Value};
use std::cmp::Ordering;
use std::sync::Arc;

fn sc(id: u32, v: Value) -> Arc<Score> {
    Arc::new(Score::value(id, v))
}

fn names<'a>(xs: &'a [(&'a str, Arc<Score>)]) -> Vec<&'a str> {
    xs.iter().map(|(n, _)| *n).collect()
}

#[test]
fn values_compare() {
    // the larger value goes first
    assert_eq!(Value::I64(1).partial_cmp(&Value::I64(2)), Some(Ordering::Greater));
    assert_eq!(Value::I64(5).partial_cmp(&Value::I64(3)), Some(Ordering::Less));
    // at the first differing entry the larger entry goes first
    assert_eq!(Value::Vi64(vec![1, 5]).partial_cmp(&Value::Vi64(vec![1, 3])), Some(Ordering::Less));
    // where one vector is a proper start of the other they do not compare
    assert_eq!(Value::Vi16(vec![2]).partial_cmp(&Value::Vi16(vec![2, 9])), None);
    assert_eq!(Value::I64(4).partial_cmp(&Value::Vi64(vec![4, 1])), None);
    assert_eq!(Value::Vi16(vec![2, 9]).partial_cmp(&Value::Vi16(vec![2, 9])), Some(Ordering::Equal));
    assert_eq!(Value::I64(4).partial_cmp(&Value::Vi64(vec![4])), Some(Ordering::Equal));
    assert_eq!(Value::I64(4).partial_cmp(&Value::Vi64(vec![3, 1])), Some(Ordering::Less));
    assert_eq!(Value::I64(4).partial_cmp(&Value::Vi16(vec![4])), None);
    assert_eq!(Value::Excluded.partial_cmp(&Value::Excluded), None);
    assert!(Value::I64(3) == Value::I64(3));
    assert!(Value::Vi64(vec![3]) == Value::Vi64(vec![3]));
}

#[test]
fn scores_compare_by_value_then_id() {
    let a = Score::value(1, Value::I64(5));
    let b = Score::value(2, Value::I64(5));
    let c = Score::value(0, Value::I64(9));
    assert_eq!(a.partial_cmp(&b), Some(Ordering::Less));
    assert_eq!(c.partial_cmp(&a), Some(Ordering::Less));
    assert_eq!(Score::value(1, Value::I64(5)).partial_cmp(&Score::value(2, Value::I64(3))), Some(Ordering::Less));
    let v = Score::value(1, Value::Vi64(vec![5]));
    assert_eq!(v.partial_cmp(&Score::value(2, Value::Vi64(vec![5]))), Some(Ordering::Less));
    assert!(a == Score::value(1, Value::I64(5)));
    assert!(Score::new_excluded().should_be_excluded());
    assert!(Score::value(1, Value::Vi16(vec![])).should_be_excluded());
    assert!(!a.should_be_excluded());
}

#[test]
fn sort_chunk_drops_rejected_and_sorts() {
    let chunk = vec![
        ("a", sc(1, Value::I64(3))),
        ("b", Arc::new(Score::new_excluded())),
        ("c", sc(2, Value::I64(1))),
        ("d", sc(3, Value::I64(3))),
    ];
    let r = sort_chunk(chunk);
    assert_eq!(names(&r), vec!["a", "d", "c"]);
}

#[test]
fn merge_keeps_both_runs_in_order() {
    let mut a = vec![("a3", sc(3, Value::I64(3))), ("a1", sc(1, Value::I64(1)))];
    let mut b = vec![("b4", sc(4, Value::I64(4))), ("b2", sc(2, Value::I64(2)))];
    merge(&mut a, &mut b);
    assert!(b.is_empty());
    assert_eq!(names(&a), vec!["b4", "a3", "b2", "a1"]);
}

#[test]
fn sorted_absorbs_chunks() {
    let mut s: Sorted<&str> = Sorted::new();
    s.absorb(vec![("x", sc(1, Value::I64(2))), ("y", Arc::new(Score::new_excluded()))]);
    s.absorb(vec![("z", sc(3, Value::I64(1)))]);
    assert_eq!(s.source_count, 3);
    assert_eq!(names(&s.items), vec!["x", "z"]);
    assert!(!s.done);
    s.finish();
    assert!(s.done);
}

#[test]
fn chunks_first_then_capacity() {
    let mut c: Chunks<u8> = Chunks::new(2, 3);
    assert_eq!(c.push(1), None);
    assert_eq!(c.push(2), Some(vec![1, 2]));
    assert_eq!(c.push(3), None);
    assert_eq!(c.push(4), None);
    assert_eq!(c.push(5), Some(vec![3, 4, 5]));
    assert_eq!(c.push(6), None);
    assert_eq!(c.size_hint((0, Some(0))), (1, Some(1)));
    assert!(!c.is_terminated(true));
    assert_eq!(c.end(), Some(vec![6]));
    assert!(c.is_terminated(true));
    assert_eq!(c.size_hint((usize::MAX, None)), (usize::MAX / 3, None));
}

#[test]
fn chunks_size_hint_counts_chunks() {
    let mut c: Chunks<u8> = Chunks::new(1, 10);
    assert_eq!(c.push(0), Some(vec![0]));
    // ten items still to come fill one chunk of ten
    assert_eq!(c.size_hint((10, Some(10))), (1, Some(10)));
    assert_eq!(c.push(1), None);
    assert_eq!(c.size_hint((25, Some(25))), (3, Some(26)));
    let fresh: Chunks<u8> = Chunks::new(0, 4);
    assert_eq!(fresh.size_hint((9, None)), (2, None));
}

#[test]
fn fuse_stays_done() {
    let mut f = Fuse::new(0u8);
    assert!(!f.is_terminated());
    assert_eq!(f.record(Some(1)), Some(1));
    assert_eq!(f.size_hint((3, Some(4))), (3, Some(4)));
    assert_eq!(f.record::<u8>(None), None);
    assert!(f.is_terminated());
    assert_eq!(f.record(Some(2)), None);
    assert_eq!(f.size_hint((3, Some(4))), (0, Some(0)));
    *f.stream_mut() = 7;
}

#[test]
fn cache_chunks_load_and_read() {
    let (mut load, mut reader) = new_cache_chunks::<u8>(2, 3);
    let mut cached = Vec::new();
    assert!(!load.fetched_item(Some(1)));
    assert!(load.fetched_item(Some(2)));
    assert!(load.waits_write());
    assert!(!load.write(&mut cached));
    assert_eq!(reader.fetch(&cached), Some(Some(vec![1, 2])));
    assert_eq!(reader.fetch(&cached), None);
    assert!(!load.fetched_item(Some(3)));
    assert!(load.fetched_item(None));
    assert!(load.last_chunk());
    assert!(load.write(&mut cached));
    assert_eq!(reader.fetch(&cached), Some(Some(vec![3])));
    assert_eq!(reader.fetch(&cached), Some(None));
    assert_eq!(reader.fetch(&cached), Some(None));
    let mut again = reader.renew();
    assert_eq!(again.fetch(&cached), Some(Some(vec![1, 2])));
}

use linearf::bench_cache::{Cached, CacheStream as Reader, Load, Outcome, Plan};
use linearf::cache_stream::{CacheStream, Polled, SharedCache, WriteStart};

fn ready<T>(p: Polled<T>) -> Option<T> {
    match p {
        Polled::Ready(x) => Some(x),
        Polled::Pending => None,
    }
}

#[test]
fn cache_stream_reader_writes_then_reads() {
    let mut cache: SharedCache<i32> = SharedCache::new(None);
    let mut a = CacheStream::new();
    // nothing cached yet: the reader has to write
    assert!(ready(a.read(&cache)).is_none());
    assert!(a.need_write());
    assert!(matches!(a.write_start(&cache), WriteStart::PollStream));
    assert_eq!(ready(a.write_end(&mut cache, Some(10))), Some(Some(10)));
    assert!(!a.need_write());
    // a second reader sees the same item from the cache
    let mut b = a.reload();
    assert_eq!(ready(b.read(&cache)), Some(Some(10)));
    // the end of the stream is cached for all
    assert!(ready(b.read(&cache)).is_none());
    assert_eq!(ready(b.write_end(&mut cache, None)), Some(None));
    assert!(cache.is_done());
    assert_eq!(ready(a.read(&cache)), Some(None));
    // after the end, writing answers not yet without asking the stream
    assert!(ready(a.read(&cache)).is_none());
    assert!(matches!(a.write_start(&cache), WriteStart::Answer(Polled::Pending)));
    assert!(!a.need_write());
}

#[test]
fn loader_writes_in_order_and_finishes_on_end() {
    let mut cached: Cached<u8> = Cached::new(Some(4));
    let mut load: Load<u8> = Load::new();
    assert!(matches!(load.plan(), Plan::PollStream));
    assert!(matches!(load.item_locked(Some(1), &mut cached), Outcome::Pending { wake: true }));
    assert_eq!(cached.len(), 1);
    // the lock is busy: the item waits
    assert!(matches!(load.item_unlocked(Some(2)), Outcome::Pending { wake: true }));
    assert!(matches!(load.plan(), Plan::Both));
    assert!(matches!(load.both_unlocked(Polled::Ready(Some(3))), Outcome::Pending { wake: true }));
    assert!(matches!(load.both_locked(Polled::Pending, &mut cached), Outcome::Pending { wake: true }));
    assert_eq!(cached.len(), 3);
    assert!(matches!(load.plan(), Plan::PollStream));
    assert!(matches!(load.item_unlocked(None), Outcome::Pending { wake: true }));
    assert!(matches!(load.plan(), Plan::LockOnly));
    assert!(matches!(load.flush_locked(&mut cached), Outcome::Done));
    assert_eq!(cached.len(), 4);
    let mut r = Reader::new();
    let mut got = vec![];
    loop {
        match r.read(&cached) {
            Polled::Ready(Some(x)) => got.push(x),
            Polled::Ready(None) => break,
            Polled::Pending => panic!("the cache is done"),
        }
    }
    assert_eq!(got, vec![1, 2, 3]);
}

#[test]
fn loader_finishes_when_the_end_is_written_directly() {
    let mut cached: Cached<u8> = Cached::new(None);
    let mut load: Load<u8> = Load::new();
    assert!(matches!(load.item_locked(None, &mut cached), Outcome::Done));
    let mut r = Reader::new();
    assert!(!r.ahead(1));
    assert!(matches!(r.read(&cached), Polled::Ready(None)));
    assert!(matches!(r.read(&cached), Polled::Ready(None)));
}

#[test]
fn reader_waits_until_items_come() {
    let cached: Cached<u8> = Cached::new(None);
    let mut r = Reader::new();
    assert!(matches!(r.read(&cached), Polled::Pending));
    let r2 = r.new_reload_only();
    assert!(r2.ahead(0) == false);
}

#[test]
fn both_locked_with_end_finishes() {
    let mut cached: Cached<u8> = Cached::new(None);
    let mut load: Load<u8> = Load::new();
    load.item_unlocked(Some(5));
    assert!(matches!(load.both_locked(Polled::Ready(None), &mut cached), Outcome::Done));
    assert_eq!(cached.len(), 2);
}

use vstd::prelude::*;
use crate::cache_stream::Polled;

verus! {

/// What the readers of a stream share: what the stream handed out so far,
/// `None` last once it ran out, and whether it did.
pub struct Cached<I> {
    buf: Vec<Option<I>>,
    done: bool,
}

impl<I> Cached<I> {
    pub closed spec fn spec_buf(&self) -> Seq<Option<I>> {
        self.buf@
    }

    pub closed spec fn spec_done(&self) -> bool {
        self.done
    }

    /// Nothing cached yet, with room for `size_hint` entries when the stream
    /// tells how many it will hand out, else for 1024.
    pub fn new(size_hint: Option<usize>) -> (r: Self)
        ensures
            r.spec_buf() == Seq::<Option<I>>::empty(),
            !r.spec_done(),
    {
        let cap = match size_hint {
            Some(x) => x,
            None => 1024,
        };
        Cached { buf: Vec::with_capacity(cap), done: false }
    }

    /// How many entries are cached.
    pub fn len(&self) -> (r: usize)
        ensures
            r == self.spec_buf().len(),
    {
        self.buf.len()
    }
}

/// How a poll of the loader ended: loading is complete, or not yet, in which
/// case the task is to be woken again at once when `wake`.
pub enum Outcome {
    Done,
    Pending { wake: bool },
}

/// What a poll of the loader looks at first.
pub enum Plan {
    /// Nothing waits to be written: ask the stream, then lock the cache.
    PollStream,
    /// The end of the stream waits to be written: only lock the cache.
    LockOnly,
    /// Items wait to be written: ask the stream and try the lock, both.
    Both,
}

/// Fills the cache from the stream. What it could not write because the
/// cache was locked waits in `write`, in order.
pub struct Load<I> {
    write: Vec<Option<I>>,
    yielded: Ghost<Seq<Option<I>>>,
    appended: Ghost<Seq<Option<I>>>,
}

/// Whether `s` holds the end mark.
pub open spec fn has_end<I>(s: Seq<Option<I>>) -> bool {
    exists|i: int| 0 <= i < s.len() && (#[trigger] s[i]) is None
}

/// Whether a step from `a` (with the cache `ca`) to `b` (with `cb`) appends
/// to the cache exactly what the loader appended, and yields at most one
/// item more.
pub open spec fn appends_alike<I>(a: Load<I>, ca: Cached<I>, b: Load<I>, cb: Cached<I>) -> bool {
    let d = b.appended().skip(a.appended().len() as int);
    &&& b.wf()
    &&& a.appended().len() <= b.appended().len()
    &&& b.appended() == a.appended() + d
    &&& cb.spec_buf() == ca.spec_buf() + d
}

/// A whole run of the loader fills the cache with each item the stream
/// handed out, once and in order: when every step appends to the cache
/// what the loader appends, the cache holds, at every point of the run,
/// what the loader appended, which is what the stream handed out less what
/// still waits; once nothing waits, it is all the stream handed out.
pub proof fn law_load_run<I>(loads: Seq<Load<I>>, caches: Seq<Cached<I>>)
    requires
        loads.len() == caches.len(),
        loads.len() > 0,
        loads[0].wf(),
        caches[0].spec_buf() == loads[0].appended(),
        forall|k: int| #![trigger loads[k]] 0 <= k < loads.len() - 1 ==> appends_alike(
            loads[k],
            caches[k],
            loads[k + 1],
            caches[k + 1],
        ),
    ensures
        forall|k: int|
            0 <= k < loads.len() ==> #[trigger] caches[k].spec_buf() == loads[k].appended() && loads[k].appended()
                + loads[k].waiting() == loads[k].yielded(),
        forall|k: int|
            0 <= k < loads.len() && #[trigger] loads[k].waiting().len() == 0 ==> caches[k].spec_buf()
                == loads[k].yielded(),
{
    assert forall|k: int| 0 <= k < loads.len() implies #[trigger] caches[k].spec_buf() == loads[k].appended()
        && loads[k].appended() + loads[k].waiting() == loads[k].yielded() by {
        lemma_load_run(loads, caches, k);
    }
    assert forall|k: int| 0 <= k < loads.len() && #[trigger] loads[k].waiting().len() == 0 implies caches[k].spec_buf()
        == loads[k].yielded() by {
        lemma_load_run(loads, caches, k);
        assert(loads[k].appended() + loads[k].waiting() =~= loads[k].appended());
    }
}

proof fn lemma_load_run<I>(loads: Seq<Load<I>>, caches: Seq<Cached<I>>, k: int)
    requires
        loads.len() == caches.len(),
        0 <= k < loads.len(),
        loads[0].wf(),
        caches[0].spec_buf() == loads[0].appended(),
        forall|j: int| #![trigger loads[j]] 0 <= j < loads.len() - 1 ==> appends_alike(
            loads[j],
            caches[j],
            loads[j + 1],
            caches[j + 1],
        ),
    ensures
        caches[k].spec_buf() == loads[k].appended(),
        loads[k].wf(),
    decreases k,
{
    if k > 0 {
        lemma_load_run(loads, caches, k - 1);
        assert(appends_alike(loads[k - 1], caches[k - 1], loads[k], caches[k]));
    }
}

impl<I> Load<I> {
    /// Everything the stream handed out to the loader, in order.
    pub closed spec fn yielded(&self) -> Seq<Option<I>> {
        self.yielded@
    }

    /// Everything the loader appended to the cache, in order.
    pub closed spec fn appended(&self) -> Seq<Option<I>> {
        self.appended@
    }

    /// What waits to be written.
    pub closed spec fn waiting(&self) -> Seq<Option<I>> {
        self.write@
    }

    /// Nothing is lost or reordered: what was appended, followed by what
    /// waits, is what the stream handed out.
    pub open spec fn wf(&self) -> bool {
        self.appended() + self.waiting() == self.yielded()
    }

    /// A loader that has nothing yet.
    pub fn new() -> (r: Self)
        ensures
            r.wf(),
            r.yielded() == Seq::<Option<I>>::empty(),
            r.appended() == Seq::<Option<I>>::empty(),
            r.waiting() == Seq::<Option<I>>::empty(),
    {
        let r = Load { write: Vec::with_capacity(100), yielded: Ghost(Seq::empty()), appended: Ghost(Seq::empty()) };
        assert(r.appended() + r.waiting() =~= r.yielded());
        r
    }

    /// What to poll first.
    pub fn plan(&self) -> (r: Plan)
        ensures
            self.waiting().len() == 0 ==> r is PollStream,
            self.waiting().len() > 0 && has_end(self.waiting()) ==> r is LockOnly,
            self.waiting().len() > 0 && !has_end(self.waiting()) ==> r is Both,
    {
        if self.write.len() == 0 {
            return Plan::PollStream;
        }
        let mut i: usize = 0;
        while i < self.write.len()
            invariant
                i <= self.write@.len(),
                forall|k: int| 0 <= k < i ==> (#[trigger] self.write@[k]) is Some,
            decreases self.write@.len() - i,
        {
            if self.write[i].is_none() {
                return Plan::LockOnly;
            }
            i = i + 1;
        }
        Plan::Both
    }

    /// Appends what waits to the cache, and `done` is set when the last of
    /// it is the end mark.
    fn flush(&mut self, cached: &mut Cached<I>)
        requires
            old(self).wf(),
        ensures
            final(self).wf(),
            final(self).waiting() == Seq::<Option<I>>::empty(),
            final(self).yielded() == old(self).yielded(),
            final(self).appended() == old(self).appended() + old(self).waiting(),
            final(cached).spec_buf() == old(cached).spec_buf() + old(self).waiting(),
            final(cached).spec_done() == (old(cached).spec_done() || (old(self).waiting().len() > 0
                && old(self).waiting().last() is None)),
    {
        if self.write.len() > 0 && self.write[self.write.len() - 1].is_none() {
            cached.done = true;
        }
        let ghost w = self.write@;
        cached.buf.append(&mut self.write);
        proof {
            self.appended = Ghost(self.appended@ + w);
        }
        assert(self.appended() + self.waiting() =~= self.yielded());
    }

    /// The stream answered `x` after nothing waited, and the lock was not
    /// had: it waits.
    pub fn item_unlocked(&mut self, x: Option<I>) -> (r: Outcome)
        requires
            old(self).wf(),
        ensures
            final(self).wf(),
            final(self).yielded() == old(self).yielded().push(x),
            final(self).appended() == old(self).appended(),
            final(self).waiting() == old(self).waiting().push(x),
            r == (Outcome::Pending { wake: true }),
    {
        self.write.push(x);
        proof {
            self.yielded = Ghost(self.yielded@.push(x));
        }
        assert(self.appended() + self.waiting() =~= self.yielded());
        Outcome::Pending { wake: true }
    }

    /// The stream answered `x` after nothing waited, and the cache is
    /// locked: it is appended; loading is complete if it is the end mark.
    pub fn item_locked(&mut self, x: Option<I>, cached: &mut Cached<I>) -> (r: Outcome)
        requires
            old(self).wf(),
            old(self).waiting().len() == 0,
        ensures
            final(self).wf(),
            final(self).yielded() == old(self).yielded().push(x),
            final(self).appended() == old(self).appended().push(x),
            final(self).waiting() == Seq::<Option<I>>::empty(),
            final(cached).spec_buf() == old(cached).spec_buf().push(x),
            final(cached).spec_done() == (old(cached).spec_done() || x is None),
            appends_alike(*old(self), *old(cached), *final(self), *final(cached)),
            r == (if final(cached).spec_done() {
                Outcome::Done
            } else {
                Outcome::Pending { wake: true }
            }),
    {
        if x.is_none() {
            cached.done = true;
        }
        let ghost y = x;
        cached.buf.push(x);
        proof {
            self.yielded = Ghost(self.yielded@.push(y));
            self.appended = Ghost(self.appended@.push(y));
        }
        assert(self.appended() + self.waiting() =~= self.yielded());
        proof {
            let d = self.appended().skip(old(self).appended().len() as int);
            assert(d =~= self.appended().subrange(old(self).appended().len() as int, self.appended().len() as int));
            assert(self.appended() =~= old(self).appended() + d);
            assert(cached.spec_buf() =~= old(cached).spec_buf() + d);
        }
        if cached.done {
            Outcome::Done
        } else {
            Outcome::Pending { wake: true }
        }
    }

    /// The end waits to be written and the cache is locked: all that waits
    /// is appended, and loading is complete.
    pub fn flush_locked(&mut self, cached: &mut Cached<I>) -> (r: Outcome)
        requires
            old(self).wf(),
        ensures
            final(self).wf(),
            final(self).yielded() == old(self).yielded(),
            final(self).appended() == old(self).appended() + old(self).waiting(),
            final(self).waiting() == Seq::<Option<I>>::empty(),
            final(cached).spec_buf() == old(cached).spec_buf() + old(self).waiting(),
            final(cached).spec_done(),
            appends_alike(*old(self), *old(cached), *final(self), *final(cached)),
            r == Outcome::Done,
    {
        let ghost w = self.write@;
        cached.buf.append(&mut self.write);
        cached.done = true;
        proof {
            self.appended = Ghost(self.appended@ + w);
        }
        assert(self.appended() + self.waiting() =~= self.yielded());
        proof {
            let d = self.appended().skip(old(self).appended().len() as int);
            assert(d =~= self.appended().subrange(old(self).appended().len() as int, self.appended().len() as int));
            assert(self.appended() =~= old(self).appended() + d);
            assert(cached.spec_buf() =~= old(cached).spec_buf() + d);
        }
        Outcome::Done
    }

    /// Items wait and the stream was asked too, and the lock was not had:
    /// what the stream answered, if anything, waits after them.
    pub fn both_unlocked(&mut self, x: Polled<Option<I>>) -> (r: Outcome)
        requires
            old(self).wf(),
        ensures
            final(self).wf(),
            final(self).appended() == old(self).appended(),
            x matches Polled::Ready(v) ==> final(self).waiting() == old(self).waiting().push(v)
                && final(self).yielded() == old(self).yielded().push(v),
            x is Pending ==> final(self).waiting() == old(self).waiting() && final(self).yielded()
                == old(self).yielded(),
            r == (Outcome::Pending { wake: true }),
    {
        if let Polled::Ready(v) = x {
            self.write.push(v);
            proof {
                self.yielded = Ghost(self.yielded@.push(v));
            }
            assert(self.appended() + self.waiting() =~= self.yielded());
        }
        Outcome::Pending { wake: true }
    }

    /// Items wait, the stream was asked too, and the cache is locked: what
    /// the stream answered, if anything, goes after them, all of it is
    /// appended, and loading is complete if the last of it is the end mark.
    pub fn both_locked(&mut self, x: Polled<Option<I>>, cached: &mut Cached<I>) -> (r: Outcome)
        requires
            old(self).wf(),
        ensures
            final(self).wf(),
            appends_alike(*old(self), *old(cached), *final(self), *final(cached)),
            ({
                let w = match x {
                    Polled::Ready(v) => old(self).waiting().push(v),
                    Polled::Pending => old(self).waiting(),
                };
                &&& final(self).yielded() == old(self).appended() + w
                &&& final(self).waiting() == Seq::<Option<I>>::empty()
                &&& final(self).appended() == old(self).appended() + w
                &&& final(cached).spec_buf() == old(cached).spec_buf() + w
                &&& final(cached).spec_done() == (old(cached).spec_done() || (w.len() > 0 && w.last() is None))
                &&& r == (if final(cached).spec_done() {
                    Outcome::Done
                } else {
                    Outcome::Pending { wake: true }
                })
            }),
    {
        if let Polled::Ready(v) = x {
            self.write.push(v);
            proof {
                self.yielded = Ghost(self.yielded@.push(v));
            }
            assert(self.appended() + self.waiting() =~= self.yielded());
        }
        self.flush(cached);
        proof {
            let d = self.appended().skip(old(self).appended().len() as int);
            assert(d =~= self.appended().subrange(old(self).appended().len() as int, self.appended().len() as int));
            assert(self.appended() =~= old(self).appended() + d);
            assert(cached.spec_buf() =~= old(cached).spec_buf() + d);
        }
        if cached.done {
            Outcome::Done
        } else {
            Outcome::Pending { wake: true }
        }
    }
}

/// A reader of the cache that a loader fills.
#[derive(Clone, Copy)]
pub struct CacheStream {
    idx: usize,
}

impl CacheStream {
    pub closed spec fn spec_idx(&self) -> usize {
        self.idx
    }

    /// A reader from the start of the cache.
    pub fn new() -> (r: Self)
        ensures
            r.spec_idx() == 0,
    {
        CacheStream { idx: 0 }
    }

    /// Another reader of the same cache, from its start.
    pub fn new_reload_only(&self) -> (r: Self)
        ensures
            r.spec_idx() == 0,
    {
        CacheStream { idx: 0 }
    }

    /// Whether the reader is ahead of what the loader last said it cached,
    /// so that it waits without locking.
    pub fn ahead(&self, len: usize) -> (r: bool)
        ensures
            r == (self.spec_idx() > len),
    {
        self.idx > len
    }

    /// With the cache locked for reading: the next entry if it is there,
    /// and the reader moves past it; the end of the stream when the cache is
    /// done; else not yet.
    pub fn read<I: Clone>(&mut self, cached: &Cached<I>) -> (r: Polled<Option<I>>)
        ensures
            old(self).spec_idx() < cached.spec_buf().len() ==> {
                &&& r matches Polled::Ready(x) && cloned::<Option<I>>(
                    cached.spec_buf()[old(self).spec_idx() as int],
                    x,
                )
                &&& final(self).spec_idx() == old(self).spec_idx() + 1
            },
            old(self).spec_idx() >= cached.spec_buf().len() ==> {
                &&& final(self).spec_idx() == old(self).spec_idx()
                &&& r == (if cached.spec_done() {
                    Polled::Ready(None)
                } else {
                    Polled::<Option<I>>::Pending
                })
            },
    {
        if self.idx < cached.buf.len() {
            let x = cached.buf[self.idx].clone();
            self.idx = self.idx + 1;
            return Polled::Ready(x);
        }
        if cached.done {
            return Polled::Ready(None);
        }
        Polled::Pending
    }
}

} // verus!

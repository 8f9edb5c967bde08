use vstd::prelude::*;

verus! {

/// The answer of one poll of a stream: a value, or not yet.
pub enum Polled<T> {
    Ready(T),
    Pending,
}

/// What the readers of a stream share: what the stream has handed out so
/// far, `None` last once it has run out, and whether it has.
pub struct SharedCache<I> {
    buf: Vec<Option<I>>,
    done: bool,
}

/// The shared cache is consistent: it is done exactly when its last entry
/// is the end mark, and the end mark is nowhere else.
pub open spec fn cache_wf<I>(buf: Seq<Option<I>>, done: bool) -> bool {
    &&& done <==> (buf.len() > 0 && buf.last() is None)
    &&& forall|i: int| 0 <= i < buf.len() - 1 ==> (#[trigger] buf[i]) is Some
}

impl<I> SharedCache<I> {
    pub closed spec fn spec_buf(&self) -> Seq<Option<I>> {
        self.buf@
    }

    pub closed spec fn spec_done(&self) -> bool {
        self.done
    }

    pub open spec fn wf(&self) -> bool {
        cache_wf(self.spec_buf(), self.spec_done())
    }

    /// An empty cache, with room for `size_hint` entries when the stream
    /// tells how many it will hand out, else for 1024.
    pub fn new(size_hint: Option<usize>) -> (r: Self)
        ensures
            r.wf(),
            r.spec_buf() == Seq::<Option<I>>::empty(),
            !r.spec_done(),
    {
        let cap = match size_hint {
            Some(x) => x,
            None => 1024,
        };
        SharedCache { buf: Vec::with_capacity(cap), done: false }
    }

    /// Whether the stream has run out.
    pub fn is_done(&self) -> (r: bool)
        ensures
            r == self.spec_done(),
    {
        self.done
    }
}

/// What a reader is to do to write: ask the stream for its next item, or
/// answer at once.
pub enum WriteStart<I> {
    PollStream,
    Answer(Polled<Option<I>>),
}

/// A reader of a cached stream; a reader that finds nothing new asks the
/// stream itself and writes what it gets for all readers.
#[derive(Clone, Copy)]
pub struct CacheStream {
    idx: usize,
    need_write: bool,
}

impl CacheStream {
    pub closed spec fn spec_idx(&self) -> usize {
        self.idx
    }

    pub closed spec fn spec_need_write(&self) -> bool {
        self.need_write
    }

    /// A reader at the start of the cache.
    pub fn new() -> (r: Self)
        ensures
            r.spec_idx() == 0,
            !r.spec_need_write(),
    {
        CacheStream { idx: 0, need_write: false }
    }

    /// Another reader of the same cache, from its start.
    pub fn reload(&self) -> (r: Self)
        ensures
            r.spec_idx() == 0,
            !r.spec_need_write(),
    {
        CacheStream { idx: 0, need_write: false }
    }

    /// Whether the next poll writes (asks the stream) rather than reads.
    pub fn need_write(&self) -> (r: bool)
        ensures
            r == self.spec_need_write(),
    {
        self.need_write
    }

    /// With the cache locked for reading: the next entry if the cache has
    /// it, and the reader moves past it; else nothing yet, and the next poll
    /// writes.
    pub fn read<I: Clone>(&mut self, cache: &SharedCache<I>) -> (r: Polled<Option<I>>)
        requires
            old(self).spec_idx() <= cache.spec_buf().len(),
        ensures
            final(self).spec_idx() <= cache.spec_buf().len(),
            old(self).spec_idx() < cache.spec_buf().len() ==> {
                &&& r matches Polled::Ready(x) && cloned::<Option<I>>(
                    cache.spec_buf()[old(self).spec_idx() as int],
                    x,
                )
                &&& final(self).spec_idx() == old(self).spec_idx() + 1
                &&& !final(self).spec_need_write()
            },
            old(self).spec_idx() == cache.spec_buf().len() ==> {
                &&& r is Pending
                &&& final(self).spec_idx() == old(self).spec_idx()
                &&& final(self).spec_need_write()
            },
    {
        if self.idx < cache.buf.len() {
            let x = cache.buf[self.idx].clone();
            self.idx = self.idx + 1;
            self.need_write = false;
            Polled::Ready(x)
        } else {
            self.need_write = true;
            Polled::Pending
        }
    }

    /// With the cache locked for writing: ask the stream, unless it has run
    /// out already; then the reader goes back to reading.
    pub fn write_start<I>(&mut self, cache: &SharedCache<I>) -> (r: WriteStart<I>)
        ensures
            final(self).spec_idx() == old(self).spec_idx(),
            cache.spec_done() ==> (r matches WriteStart::Answer(Polled::Pending) && !final(self).spec_need_write()),
            !cache.spec_done() ==> (r is PollStream && final(self).spec_need_write() == old(self).spec_need_write()),
    {
        if cache.done {
            self.need_write = false;
            WriteStart::Answer(Polled::Pending)
        } else {
            WriteStart::PollStream
        }
    }

    /// With the cache locked for writing and the stream's answer `x`:
    /// appends it (the end mark when the stream ran out), then reads on.
    pub fn write_end<I: Clone>(&mut self, cache: &mut SharedCache<I>, x: Option<I>) -> (r: Polled<
        Option<I>,
    >)
        requires
            old(cache).wf(),
            !old(cache).spec_done(),
            old(self).spec_idx() <= old(cache).spec_buf().len(),
        ensures
            final(cache).wf(),
            final(cache).spec_buf() == old(cache).spec_buf().push(x),
            final(cache).spec_done() == (x is None),
            final(self).spec_idx() <= final(cache).spec_buf().len(),
            r matches Polled::Ready(y) && cloned::<Option<I>>(
                final(cache).spec_buf()[old(self).spec_idx() as int],
                y,
            ),
            final(self).spec_idx() == old(self).spec_idx() + 1,
            !final(self).spec_need_write(),
    {
        let is_end = x.is_none();
        if is_end {
            cache.done = true;
        }
        let ghost b0 = cache.buf@;
        cache.buf.push(x);
        proof {
            assert forall|i: int| 0 <= i < cache.buf@.len() - 1 implies (#[trigger] cache.buf@[i]) is Some by {
                assert(cache.buf@[i] == b0[i]);
                assert(!(b0.len() > 0 && b0.last() is None));
                if i < b0.len() - 1 {
                } else {
                    assert(i == b0.len() - 1);
                }
            }
        }
        let n = cache.buf.len();
        assert(self.idx < n);
        let y = cache.buf[self.idx].clone();
        self.idx = self.idx + 1;
        self.need_write = false;
        Polled::Ready(y)
    }
}

/// The values among a reader's answers, in order: what its `Ready`
/// answers held (an answer of `None` stands for `Pending`).
pub open spec fn readies<I>(outs: Seq<Option<Option<I>>>) -> Seq<Option<I>>
    decreases outs.len(),
{
    if outs.len() == 0 {
        Seq::empty()
    } else {
        let r = readies(outs.drop_last());
        match outs.last() {
            Some(y) => r.push(y),
            None => r,
        }
    }
}

/// One step of a reader: the shared cache goes from `b0` to `b1`, only ever
/// growing at its end (`write_end` appends one answer of the stream, other
/// steps leave it), and the reader at `i0` either answers `Pending` and
/// stays, or answers a clone of the entry at `i0` and moves past it. Each
/// of `read`, `write_start` and `write_end` makes such a step.
pub open spec fn reader_step<I: Clone>(
    b0: Seq<Option<I>>,
    i0: int,
    out: Option<Option<I>>,
    b1: Seq<Option<I>>,
    i1: int,
) -> bool {
    &&& b0.len() <= b1.len()
    &&& b1.take(b0.len() as int) == b0
    &&& 0 <= i0 <= b0.len()
    &&& match out {
        None => i1 == i0,
        Some(y) => i0 < b1.len() && cloned::<Option<I>>(b1[i0], y) && i1 == i0 + 1,
    }
}

/// Whether a reader at `idx` of the cache `buf` has answered `seen`: one
/// value per entry it moved past, each a clone of that entry.
pub open spec fn seen_in_order<I: Clone>(buf: Seq<Option<I>>, idx: int, seen: Seq<Option<I>>) -> bool {
    &&& seen.len() == idx
    &&& idx <= buf.len()
    &&& forall|m: int| 0 <= m < idx ==> cloned::<Option<I>>(buf[m], #[trigger] seen[m])
}

/// Every reader yields the whole stream, in order: however the steps of
/// several readers interleave, a reader that starts at the first entry has
/// at every point answered, in order, clones of the first entries of the
/// shared cache, as many as it moved past; and the cache only ever grows
/// at its end, by one answer of the stream per write, so what a reader has
/// seen stays as it was.
pub proof fn law_reader_yields_in_order<I: Clone>(
    bufs: Seq<Seq<Option<I>>>,
    idxs: Seq<int>,
    outs: Seq<Option<Option<I>>>,
)
    requires
        bufs.len() == outs.len() + 1,
        idxs.len() == outs.len() + 1,
        idxs[0] == 0,
        forall|k: int| #![trigger outs[k]] 0 <= k < outs.len() ==> reader_step(
            bufs[k],
            idxs[k],
            outs[k],
            bufs[k + 1],
            idxs[k + 1],
        ),
    ensures
        forall|k: int| 0 <= k <= outs.len() ==> #[trigger] seen_in_order(bufs[k], idxs[k], readies(outs.take(k))),
{
    assert forall|k: int| 0 <= k <= outs.len() implies #[trigger] seen_in_order(
        bufs[k],
        idxs[k],
        readies(outs.take(k)),
    ) by {
        lemma_reader_run(bufs, idxs, outs, k);
    }
}

proof fn lemma_reader_run<I: Clone>(bufs: Seq<Seq<Option<I>>>, idxs: Seq<int>, outs: Seq<Option<Option<I>>>, k: int)
    requires
        bufs.len() == outs.len() + 1,
        idxs.len() == outs.len() + 1,
        idxs[0] == 0,
        forall|j: int| #![trigger outs[j]] 0 <= j < outs.len() ==> reader_step(
            bufs[j],
            idxs[j],
            outs[j],
            bufs[j + 1],
            idxs[j + 1],
        ),
        0 <= k <= outs.len(),
    ensures
        readies(outs.take(k)).len() == idxs[k],
        idxs[k] <= bufs[k].len(),
        forall|m: int| 0 <= m < idxs[k] ==> cloned::<Option<I>>(bufs[k][m], readies(outs.take(k))[m]),
    decreases k,
{
    if k == 0 {
        assert(outs.take(0) =~= Seq::<Option<Option<I>>>::empty());
    } else {
        lemma_reader_run(bufs, idxs, outs, k - 1);
        let p = k - 1;
        assert(reader_step(bufs[p], idxs[p], outs[p], bufs[k], idxs[k]));
        assert(outs.take(k).drop_last() =~= outs.take(p));
        assert(outs.take(k).last() == outs[p]);
        let r0 = readies(outs.take(p));
        let r1 = readies(outs.take(k));
        assert forall|m: int| 0 <= m < idxs[k] implies cloned::<Option<I>>(bufs[k][m], r1[m]) by {
            if m < idxs[p] {
                assert(bufs[k][m] == bufs[k].take(bufs[p].len() as int)[m]);
                assert(bufs[k][m] == bufs[p][m]);
                assert(r1[m] == r0[m]);
            }
        }
    }
}

} // verus!

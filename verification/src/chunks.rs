use vstd::prelude::*;

verus! {

/// A stream that, once it has run out, stays out: `done` is set when the
/// inner stream first hands out nothing, and from then on the inner stream
/// is not asked again.
pub struct Fuse<St> {
    stream: St,
    done: bool,
}

impl<St> Fuse<St> {
    pub closed spec fn spec_done(&self) -> bool {
        self.done
    }

    pub closed spec fn spec_stream(&self) -> St {
        self.stream
    }

    /// A fresh fuse over `stream`.
    pub fn new(stream: St) -> (f: Self)
        ensures
            !f.spec_done(),
            f.spec_stream() == stream,
    {
        Fuse { stream, done: false }
    }

    /// Whether the inner stream has run out.
    pub fn is_terminated(&self) -> (r: bool)
        ensures
            r == self.spec_done(),
    {
        self.done
    }

    /// The inner stream, to be polled while the fuse is not done.
    pub fn stream_mut(&mut self) -> (r: &mut St)
        ensures
            *r == old(self).spec_stream(),
            final(self).spec_stream() == *final(r),
            final(self).spec_done() == old(self).spec_done(),
    {
        &mut self.stream
    }

    /// Records what the inner stream handed out, and hands it on: nothing,
    /// once the inner stream has run out.
    pub fn record<T>(&mut self, item: Option<T>) -> (r: Option<T>)
        ensures
            final(self).spec_done() == (old(self).spec_done() || item is None),
            final(self).spec_stream() == old(self).spec_stream(),
            r == (if old(self).spec_done() { None } else { item }),
    {
        if self.done {
            return None;
        }
        if item.is_none() {
            self.done = true;
        }
        item
    }

    /// The bounds on how many items are still to come: none once done,
    /// else those of the inner stream.
    pub fn size_hint(&self, inner: (usize, Option<usize>)) -> (r: (usize, Option<usize>))
        ensures
            r == (if self.spec_done() { (0usize, Some(0usize)) } else { inner }),
    {
        if self.done {
            (0, Some(0))
        } else {
            inner
        }
    }
}

/// Groups the items of a stream into chunks: the first chunk holds
/// `first_cap` items (at least one), each later one `cap`, and the last one
/// what is left when the stream runs out.
pub struct Chunks<T> {
    items: Vec<T>,
    is_first: bool,
    first_cap: usize,
    cap: usize,
    pushed: Ghost<Seq<T>>,
    emitted: Ghost<Seq<Seq<T>>>,
    finished: Ghost<bool>,
}

impl<T> Chunks<T> {
    /// Every item that went in, in order.
    pub closed spec fn pushed(&self) -> Seq<T> {
        self.pushed@
    }

    /// Every chunk that came out, in order.
    pub closed spec fn emitted(&self) -> Seq<Seq<T>> {
        self.emitted@
    }

    /// The items that went in and are not yet in a chunk.
    pub closed spec fn buffered(&self) -> Seq<T> {
        self.items@
    }

    /// Whether the stream has run out.
    pub closed spec fn finished(&self) -> bool {
        self.finished@
    }

    pub closed spec fn spec_first_cap(&self) -> usize {
        self.first_cap
    }

    pub closed spec fn spec_cap(&self) -> usize {
        self.cap
    }

    /// How many items the chunk at `i` holds unless it is the last one.
    pub open spec fn chunk_limit(&self, i: int) -> int {
        if i == 0 {
            if self.spec_first_cap() == 0 {
                1
            } else {
                self.spec_first_cap() as int
            }
        } else {
            self.spec_cap() as int
        }
    }

    /// Nothing is lost or reordered: the chunks handed out, followed by the
    /// items buffered, are exactly the items that went in; each chunk but
    /// the last holds its limit, and the last one between one item and its
    /// limit.
    pub open spec fn wf(&self) -> bool {
        &&& self.spec_cap() > 0
        &&& self.emitted().flatten() + self.buffered() == self.pushed()
        &&& forall|i: int|
            0 <= i < self.emitted().len() - 1 ==> (#[trigger] self.emitted()[i]).len()
                == self.chunk_limit(i)
        &&& self.emitted().len() > 0 ==> 1 <= self.emitted().last().len() <= self.chunk_limit(
            self.emitted().len() - 1,
        )
        &&& !self.finished() ==> self.buffered().len() < self.chunk_limit(self.emitted().len() as int)
        &&& !self.finished() && self.emitted().len() > 0 ==> self.emitted().last().len()
            == self.chunk_limit(self.emitted().len() - 1)
        &&& self.finished() ==> self.buffered().len() == 0
    }

    spec fn inv_first(&self) -> bool {
        !self.finished@ ==> (self.is_first == (self.emitted@.len() == 0))
    }

    pub closed spec fn good(&self) -> bool {
        self.wf() && self.inv_first()
    }

    /// Chunks of `first` items first, then of `capacity` items.
    pub fn new(first: usize, capacity: usize) -> (c: Self)
        requires
            capacity > 0,
        ensures
            c.good(),
            c.wf(),
            c.pushed() == Seq::<T>::empty(),
            c.emitted() == Seq::<Seq<T>>::empty(),
            c.buffered() == Seq::<T>::empty(),
            !c.finished(),
            c.spec_first_cap() == first,
            c.spec_cap() == capacity,
    {
        let c = Chunks {
            items: Vec::with_capacity(capacity),
            is_first: true,
            first_cap: first,
            cap: capacity,
            pushed: Ghost(Seq::empty()),
            emitted: Ghost(Seq::empty()),
            finished: Ghost(false),
        };
        assert(c.emitted().flatten() =~= Seq::<T>::empty());
        assert(c.emitted().flatten() + c.buffered() =~= c.pushed());
        c
    }

    /// Hands out the buffered items, leaving room for `cap` new ones.
    fn take(&mut self, cap: usize) -> (r: Vec<T>)
        ensures
            r@ == old(self).items@,
            final(self).items@ == Seq::<T>::empty(),
            final(self).is_first == old(self).is_first,
            final(self).first_cap == old(self).first_cap,
            final(self).cap == old(self).cap,
            final(self).pushed == old(self).pushed,
            final(self).emitted == old(self).emitted,
            final(self).finished == old(self).finished,
    {
        let mut fresh = Vec::with_capacity(cap);
        std::mem::swap(&mut self.items, &mut fresh);
        fresh
    }

    /// Takes in the next item of the stream; hands out a chunk when the
    /// buffer reaches the limit of the chunk being filled.
    pub fn push(&mut self, item: T) -> (r: Option<Vec<T>>)
        requires
            old(self).good(),
            !old(self).finished(),
        ensures
            final(self).good(),
            final(self).wf(),
            !final(self).finished(),
            final(self).pushed() == old(self).pushed().push(item),
            final(self).spec_first_cap() == old(self).spec_first_cap(),
            final(self).spec_cap() == old(self).spec_cap(),
            match r {
                Some(c) => {
                    &&& c@ == old(self).buffered().push(item)
                    &&& c@.len() == old(self).chunk_limit(old(self).emitted().len() as int)
                    &&& final(self).emitted() == old(self).emitted().push(c@)
                    &&& final(self).buffered() == Seq::<T>::empty()
                },
                None => {
                    &&& final(self).emitted() == old(self).emitted()
                    &&& final(self).buffered() == old(self).buffered().push(item)
                    &&& old(self).buffered().len() + 1 < old(self).chunk_limit(
                        old(self).emitted().len() as int,
                    )
                },
            },
    {
        broadcast use Seq::lemma_flatten_push;

        let ghost old_self = *self;
        self.items.push(item);
        proof {
            self.pushed = Ghost(self.pushed@.push(item));
            assert(old_self.emitted@.flatten() + self.items@ =~= self.pushed@);
        }
        let cap = if self.is_first {
            self.first_cap
        } else {
            self.cap
        };
        if self.items.len() >= cap {
            self.is_first = false;
            let c = self.take(cap);
            proof {
                self.emitted = Ghost(self.emitted@.push(c@));
                assert(self.emitted@.flatten() =~= old_self.emitted@.flatten() + c@);
                assert(self.emitted().flatten() + self.buffered() =~= self.pushed());
                assert forall|i: int| 0 <= i < self.emitted().len() - 1 implies (
                #[trigger] self.emitted()[i]).len() == self.chunk_limit(i) by {
                    assert(self.emitted()[i] == old_self.emitted()[i]);
                }
            }
            Some(c)
        } else {
            None
        }
    }

    /// The stream has run out: hands out what is buffered, if anything.
    pub fn end(&mut self) -> (r: Option<Vec<T>>)
        requires
            old(self).good(),
        ensures
            final(self).good(),
            final(self).wf(),
            final(self).finished(),
            final(self).pushed() == old(self).pushed(),
            final(self).buffered() == Seq::<T>::empty(),
            final(self).spec_first_cap() == old(self).spec_first_cap(),
            final(self).spec_cap() == old(self).spec_cap(),
            match r {
                Some(c) => {
                    &&& c@ == old(self).buffered()
                    &&& c@.len() > 0
                    &&& final(self).emitted() == old(self).emitted().push(c@)
                },
                None => {
                    &&& old(self).buffered().len() == 0
                    &&& final(self).emitted() == old(self).emitted()
                },
            },
    {
        broadcast use Seq::lemma_flatten_push;

        let ghost old_self = *self;
        if self.items.len() == 0 {
            proof {
                self.finished = Ghost(true);
                assert(self.emitted().flatten() + self.buffered() =~= self.pushed());
            }
            None
        } else {
            let c = self.take(0);
            proof {
                self.finished = Ghost(true);
                self.emitted = Ghost(self.emitted@.push(c@));
                assert(self.emitted@.flatten() =~= old_self.emitted@.flatten() + c@);
                assert(self.emitted().flatten() + self.buffered() =~= self.pushed());
                assert forall|i: int| 0 <= i < self.emitted().len() - 1 implies (
                #[trigger] self.emitted()[i]).len() == self.chunk_limit(i) by {
                    assert(self.emitted()[i] == old_self.emitted()[i]);
                }
            }
            Some(c)
        }
    }

    /// Whether nothing more will come: the stream has run out and nothing
    /// is buffered.
    pub fn is_terminated(&self, stream_terminated: bool) -> (r: bool)
        ensures
            r == (stream_terminated && self.buffered().len() == 0),
    {
        stream_terminated && self.items.len() == 0
    }

    /// The most items that any chunk still to come can hold: the limit of
    /// the chunk being filled, or the capacity where that is larger.
    pub closed spec fn filling_limit(&self) -> int {
        let l: int = if self.is_first {
            if self.first_cap == 0 {
                1
            } else {
                self.first_cap as int
            }
        } else {
            self.cap as int
        };
        if l < self.cap {
            self.cap as int
        } else {
            l
        }
    }

    /// While the stream runs, no chunk from the one being filled on holds
    /// more than `filling_limit` items, and that limit is one of theirs.
    pub proof fn law_filling_limit_bounds_chunks(&self)
        requires
            self.good(),
            !self.finished(),
        ensures
            self.filling_limit() >= 1,
            forall|i: int| i >= self.emitted().len() ==> #[trigger] self.chunk_limit(i)
                <= self.filling_limit(),
            self.filling_limit() == self.chunk_limit(self.emitted().len() as int)
                || self.filling_limit() == self.spec_cap(),
    {
    }

    /// The bounds on how many chunks are still to come, from those on the
    /// items of the stream: at least as many full chunks of the largest size
    /// as the items still to come fill, and at most one per item; one more
    /// either way while something is buffered.
    pub fn size_hint(&self, inner: (usize, Option<usize>)) -> (r: (usize, Option<usize>))
        requires
            self.good(),
        ensures
            ({
                let extra: int = if self.buffered().len() == 0 { 0 } else { 1 };
                let full: int = inner.0 as int / self.filling_limit();
                &&& r.0 == (if full + extra > usize::MAX { usize::MAX as int } else { full
                    + extra })
                &&& r.1 == (match inner.1 {
                    Some(u) => if u + extra > usize::MAX { None } else { Some((u + extra) as usize) },
                    None => None,
                })
            }),
    {
        let chunk_len: usize = if self.items.len() == 0 { 0 } else { 1 };
        let limit: usize = if self.is_first {
            if self.first_cap == 0 {
                1
            } else {
                self.first_cap
            }
        } else {
            self.cap
        };
        let largest: usize = if limit < self.cap {
            self.cap
        } else {
            limit
        };
        let lower = (inner.0 / largest).saturating_add(chunk_len);
        let upper = match inner.1 {
            Some(x) => x.checked_add(chunk_len),
            None => None,
        };
        (lower, upper)
    }
}

} // verus!

use vstd::prelude::*;

verus! {

/// Room kept in each chunk beyond its size.
pub const SPARE: usize = 10;

/// The chunks of a stream as they are cached: `Some` for a chunk, and one
/// `None` after the last chunk once the stream has run out.
pub type Cached<I> = Vec<Option<Vec<I>>>;

/// The items that the chunks in `c` hold, in order.
pub open spec fn cached_items<I>(c: Seq<Option<Vec<I>>>) -> Seq<I>
    decreases c.len(),
{
    if c.len() == 0 {
        Seq::empty()
    } else {
        cached_items(c.drop_last()) + match c.last() {
            Some(v) => v@,
            None => Seq::empty(),
        }
    }
}

/// Fills the cache from a stream: gathers items into a chunk until it holds
/// `size` items (the first size for the first chunk, `cap` after it) or the
/// stream runs out, then writes the chunk when the cache can be locked.
pub struct Load<I> {
    chunk: Vec<I>,
    waits_write: bool,
    last_chunk: bool,
    cap: usize,
    size: usize,
    fetched: Ghost<Seq<I>>,
    written: Ghost<Seq<Option<Vec<I>>>>,
}

/// Reads the cached chunks in order, from the first one.
pub struct CacheChunks {
    idx: usize,
}

/// A loader and a reader for the chunks of one stream: the first chunk of
/// `first_size` items, each later one of `cap`.
pub fn new_cache_chunks<I>(first_size: usize, cap: usize) -> (r: (Load<I>, CacheChunks))
    requires
        first_size > 0,
        cap > 0,
        first_size + SPARE <= usize::MAX,
        cap + SPARE <= usize::MAX,
    ensures
        r.0.wf(),
        r.0.fetched() == Seq::<I>::empty(),
        r.0.written() == Seq::<Option<Vec<I>>>::empty(),
        r.0.spec_size() == first_size,
        r.0.spec_cap() == cap,
        !r.0.spec_last_chunk(),
        !r.0.spec_waits_write(),
        r.1.spec_idx() == 0,
{
    (
        Load {
            chunk: Vec::with_capacity(first_size + SPARE),
            waits_write: false,
            last_chunk: false,
            cap,
            size: first_size,
            fetched: Ghost(Seq::empty()),
            written: Ghost(Seq::empty()),
        },
        CacheChunks { idx: 0 },
    )
}

impl<I> Load<I> {
    /// Every item that the stream handed out, in order.
    pub closed spec fn fetched(&self) -> Seq<I> {
        self.fetched@
    }

    /// Every entry that this loader wrote to the cache, in order.
    pub closed spec fn written(&self) -> Seq<Option<Vec<I>>> {
        self.written@
    }

    /// The items gathered and not yet written.
    pub closed spec fn gathered(&self) -> Seq<I> {
        self.chunk@
    }

    pub closed spec fn spec_size(&self) -> usize {
        self.size
    }

    pub closed spec fn spec_cap(&self) -> usize {
        self.cap
    }

    pub closed spec fn spec_last_chunk(&self) -> bool {
        self.last_chunk
    }

    pub closed spec fn spec_waits_write(&self) -> bool {
        self.waits_write
    }

    /// Nothing is lost or reordered: what was written, followed by what is
    /// gathered, is what the stream handed out.
    pub open spec fn wf(&self) -> bool {
        &&& cached_items(self.written()) + self.gathered() == self.fetched()
        &&& self.spec_cap() + SPARE <= usize::MAX
        &&& self.spec_cap() > 0
    }

    /// Whether the stream has run out.
    pub fn last_chunk(&self) -> (r: bool)
        ensures
            r == self.spec_last_chunk(),
    {
        self.last_chunk
    }

    /// Whether a chunk is ready to be written.
    pub fn waits_write(&self) -> (r: bool)
        ensures
            r == self.spec_waits_write(),
    {
        self.waits_write
    }

    /// Takes in what the stream handed out; says whether to stop asking it
    /// for now, because a chunk is full or the stream has run out.
    pub fn fetched_item(&mut self, x: Option<I>) -> (stop: bool)
        requires
            old(self).wf(),
            !old(self).spec_last_chunk(),
        ensures
            final(self).wf(),
            final(self).written() == old(self).written(),
            final(self).spec_cap() == old(self).spec_cap(),
            final(self).spec_size() == old(self).spec_size(),
            match x {
                Some(v) => {
                    &&& final(self).fetched() == old(self).fetched().push(v)
                    &&& final(self).gathered() == old(self).gathered().push(v)
                    &&& !final(self).spec_last_chunk()
                    &&& stop == (old(self).spec_size() <= old(self).gathered().len() + 1)
                    &&& final(self).spec_waits_write() == (stop || old(self).spec_waits_write())
                },
                None => {
                    &&& final(self).fetched() == old(self).fetched()
                    &&& final(self).gathered() == old(self).gathered()
                    &&& final(self).spec_last_chunk()
                    &&& final(self).spec_waits_write()
                    &&& stop
                },
            },
    {
        match x {
            Some(v) => {
                let ghost old_self = *self;
                self.chunk.push(v);
                proof {
                    self.fetched = Ghost(self.fetched@.push(v));
                    assert(cached_items(old_self.written@) + self.chunk@ =~= self.fetched@);
                }
                if self.size <= self.chunk.len() {
                    self.waits_write = true;
                    true
                } else {
                    false
                }
            },
            None => {
                self.last_chunk = true;
                self.waits_write = true;
                true
            },
        }
    }

    /// Writes the gathered chunk to the cache, with the end mark after it
    /// once the stream has run out; says whether loading is complete.
    pub fn write(&mut self, cached: &mut Cached<I>) -> (done: bool)
        requires
            old(self).wf(),
            old(self).spec_waits_write(),
        ensures
            final(self).wf(),
            done == old(self).spec_last_chunk(),
            final(self).spec_last_chunk() == old(self).spec_last_chunk(),
            !final(self).spec_waits_write(),
            final(self).spec_size() == old(self).spec_cap(),
            final(self).spec_cap() == old(self).spec_cap(),
            final(self).fetched() == old(self).fetched(),
            final(self).gathered() == Seq::<I>::empty(),
            ({
                let entries = if old(self).spec_last_chunk() {
                    seq![Some(old(self).gathered_vec()), None]
                } else {
                    seq![Some(old(self).gathered_vec())]
                };
                &&& final(cached)@ == old(cached)@ + entries
                &&& final(self).written() == old(self).written() + entries
            }),
    {
        let ghost old_self = *self;
        self.waits_write = false;
        self.size = self.cap;
        let mut fresh = Vec::with_capacity(self.size + SPARE);
        std::mem::swap(&mut self.chunk, &mut fresh);
        let ghost w1 = self.written@.push(Some(fresh));
        assert(w1.drop_last() =~= self.written@);
        assert(cached_items(w1) =~= cached_items(old_self.written@) + fresh@);
        cached.push(Some(fresh));
        proof {
            self.written = Ghost(w1);
        }
        if self.last_chunk {
            let ghost w2 = self.written@.push(None);
            assert(w2.drop_last() =~= self.written@);
            assert(cached_items(w2) =~= cached_items(self.written@));
            cached.push(None);
            proof {
                self.written = Ghost(w2);
            }
        }
        assert(cached_items(self.written@) =~= self.fetched@);
        assert(cached_items(self.written@) + self.chunk@ =~= self.fetched@);
        self.last_chunk
    }

    pub closed spec fn gathered_vec(&self) -> Vec<I> {
        self.chunk
    }
}

impl CacheChunks {
    pub closed spec fn spec_idx(&self) -> usize {
        self.idx
    }

    /// A reader of the same cache that starts again from the first chunk.
    pub fn renew(&self) -> (r: Self)
        ensures
            r.spec_idx() == 0,
    {
        CacheChunks { idx: 0 }
    }

    /// The next entry of the cache, when it is there: a chunk (and the
    /// reader moves on), or the end mark (and the reader stays at it).
    /// Nothing while the loader has not written the next entry yet.
    pub fn fetch<I: Clone>(&mut self, cached: &Cached<I>) -> (r: Option<Option<Vec<I>>>)
        ensures
            old(self).spec_idx() < cached@.len() ==> r is Some,
            old(self).spec_idx() >= cached@.len() ==> r is None && final(self).spec_idx()
                == old(self).spec_idx(),
            r matches Some(e) ==> match e {
                Some(c) => {
                    &&& cached@[old(self).spec_idx() as int] matches Some(o) && c@.len()
                        == o@.len() && forall|k: int|
                        0 <= k < c@.len() ==> cloned::<I>(o@[k], #[trigger] c@[k])
                    &&& final(self).spec_idx() == old(self).spec_idx() + 1
                },
                None => {
                    &&& cached@[old(self).spec_idx() as int] is None
                    &&& final(self).spec_idx() == old(self).spec_idx()
                },
            },
    {
        if self.idx < cached.len() {
            match &cached[self.idx] {
                Some(c) => {
                    self.idx = self.idx + 1;
                    Some(Some(c.clone()))
                },
                None => Some(None),
            }
        } else {
            None
        }
    }
}

} // verus!

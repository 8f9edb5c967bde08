use vstd::prelude::*;
use std::cmp::Ordering;
use std::sync::Arc;
use vstd::multiset::Multiset;
use crate::value::{Score, value_excluded};
use crate::score::{score_le_order, score_order};
use crate::item::{Item, with_ids};
use crate::flow::arc_clone;
use std::collections::HashSet;

verus! {

/// An item with its score, as the matcher handed it out.
pub type Scored<I> = (I, Arc<Score>);

/// Whether `x` goes after `y` in the shown order.
pub open spec fn goes_after<I>(x: Scored<I>, y: Scored<I>) -> bool {
    score_le_order(*x.1, *y.1) == Ordering::Greater
}

/// A sequence read from its end to its start.
pub open spec fn rev<A>(s: Seq<A>) -> Seq<A>
    decreases s.len(),
{
    if s.len() == 0 {
        Seq::empty()
    } else {
        seq![s.last()] + rev(s.drop_last())
    }
}

/// Two sorted runs merged from their ends: the later of the two last items
/// goes last; between items that order as equal, the one of `b` goes last.
pub open spec fn merged<I>(a: Seq<Scored<I>>, b: Seq<Scored<I>>) -> Seq<Scored<I>>
    decreases a.len() + b.len(),
{
    if b.len() == 0 {
        a
    } else if a.len() == 0 {
        b
    } else if goes_after(a.last(), b.last()) {
        merged(a.drop_last(), b).push(a.last())
    } else {
        merged(a, b.drop_last()).push(b.last())
    }
}

/// `x` put into `s` behind every item that it does not go before, counting
/// from the end.
pub open spec fn inserted<I>(s: Seq<Scored<I>>, x: Scored<I>) -> Seq<Scored<I>>
    decreases s.len(),
{
    if s.len() == 0 || !goes_after(s.last(), x) {
        s.push(x)
    } else {
        inserted(s.drop_last(), x).push(s.last())
    }
}

/// The items of `s` sorted by inserting them one after the other.
pub open spec fn sorted_chunk<I>(s: Seq<Scored<I>>) -> Seq<Scored<I>>
    decreases s.len(),
{
    if s.len() == 0 {
        Seq::empty()
    } else {
        inserted(sorted_chunk(s.drop_last()), s.last())
    }
}

/// The items of `s` that are to be shown, in their order.
pub open spec fn shown<I>(s: Seq<Scored<I>>) -> Seq<Scored<I>>
    decreases s.len(),
{
    if s.len() == 0 {
        Seq::empty()
    } else if value_excluded((*s.last().1).spec_value()) {
        shown(s.drop_last())
    } else {
        shown(s.drop_last()).push(s.last())
    }
}

/// No item of `s` goes after an item behind it.
pub open spec fn is_sorted<I>(s: Seq<Scored<I>>) -> bool {
    forall|i: int, j: int| 0 <= i < j < s.len() ==> !goes_after(#[trigger] s[i], #[trigger] s[j])
}

/// Every score in `s` is a whole number.
pub open spec fn whole_scores<I>(s: Seq<Scored<I>>) -> bool {
    forall|i: int| 0 <= i < s.len() ==> (*(#[trigger] s[i]).1).spec_value() is I64
}

/// The items that a flow shows, in their order, and how many items its
/// source has produced so far.
pub struct Sorted<I> {
    pub done: bool,
    pub items: Vec<Scored<I>>,
    pub source_count: usize,
}

fn goes_after_exec(a: &Score, b: &Score) -> (r: bool)
    ensures
        r == (score_le_order(*a, *b) == Ordering::Greater),
{
    match a.partial_cmp(b) {
        Some(Ordering::Greater) => true,
        _ => false,
    }
}

proof fn lemma_rev_len<A>(s: Seq<A>)
    ensures
        rev(s).len() == s.len(),
    decreases s.len(),
{
    if s.len() > 0 {
        lemma_rev_len(s.drop_last());
    }
}

proof fn lemma_rev_push<A>(s: Seq<A>, x: A)
    ensures
        rev(s.push(x)) == seq![x] + rev(s),
{
    assert(s.push(x).drop_last() =~= s);
}

/// Merges the sorted run `b` into the sorted run `a`, emptying `b`.
pub fn merge<I>(a: &mut Vec<Scored<I>>, b: &mut Vec<Scored<I>>)
    ensures
        final(a)@ == merged(old(a)@, old(b)@),
        final(b)@.len() == 0,
{
    let ghost target = merged(a@, b@);
    let mut out: Vec<Scored<I>> = Vec::new();
    while b.len() > 0
        invariant
            target == merged(a@, b@) + rev(out@),
        decreases a.len() + b.len(),
    {
        let ghost (a0, b0, o0) = (a@, b@, out@);
        let take_a = if a.len() > 0 {
            goes_after_exec(&a[a.len() - 1].1, &b[b.len() - 1].1)
        } else {
            false
        };
        if take_a {
            let x = a.pop().unwrap();
            proof {
                lemma_rev_push(o0, x);
                assert(a0.drop_last() =~= a@);
                assert(merged(a0, b0) == merged(a@, b0).push(x));
                assert(merged(a0, b0) + rev(o0) =~= merged(a@, b@) + rev(out@.push(x)));
            }
            out.push(x);
        } else {
            let y = b.pop().unwrap();
            proof {
                lemma_rev_push(o0, y);
                assert(b0.drop_last() =~= b@);
                assert(merged(a0, b0) == merged(a0, b@).push(y));
                assert(merged(a0, b0) + rev(o0) =~= merged(a@, b@) + rev(out@.push(y)));
            }
            out.push(y);
        }
    }
    assert(merged(a@, b@) == a@);
    while out.len() > 0
        invariant
            target == a@ + rev(out@),
        decreases out.len(),
    {
        let ghost (a0, o0) = (a@, out@);
        let x = out.pop().unwrap();
        proof {
            lemma_rev_push(out@, x);
            assert(o0 =~= out@.push(x));
            assert(a0 + rev(o0) =~= a0.push(x) + rev(out@));
        }
        a.push(x);
    }
    assert(rev(out@) =~= Seq::<Scored<I>>::empty());
    assert(target =~= a@);
}

fn insert_scored<I>(s: &mut Vec<Scored<I>>, x: Scored<I>)
    ensures
        final(s)@ == inserted(old(s)@, x),
{
    let ghost target = inserted(s@, x);
    let mut out: Vec<Scored<I>> = Vec::new();
    loop
        invariant_except_break
            target == inserted(s@, x) + rev(out@),
        ensures
            target == s@.push(x) + rev(out@),
        decreases s.len(),
    {
        let later = if s.len() > 0 {
            goes_after_exec(&s[s.len() - 1].1, &x.1)
        } else {
            false
        };
        if !later {
            break;
        }
        let ghost (s0, o0) = (s@, out@);
        let y = s.pop().unwrap();
        proof {
            lemma_rev_push(o0, y);
            assert(s0.drop_last() =~= s@);
            assert(target =~= inserted(s@, x) + rev(out@.push(y)));
        }
        out.push(y);
    }
    s.push(x);
    while out.len() > 0
        invariant
            target == s@ + rev(out@),
        decreases out.len(),
    {
        let ghost (s0, o0) = (s@, out@);
        let y = out.pop().unwrap();
        proof {
            lemma_rev_push(out@, y);
            assert(o0 =~= out@.push(y));
            assert(s0 + rev(o0) =~= s0.push(y) + rev(out@));
        }
        s.push(y);
    }
    assert(rev(out@) =~= Seq::<Scored<I>>::empty());
    assert(target =~= s@);
}

/// The items of a chunk that are to be shown, sorted: what a flow adds to
/// what it shows for each chunk that its source hands over.
pub fn sort_chunk<I>(chunk: Vec<Scored<I>>) -> (r: Vec<Scored<I>>)
    ensures
        r@ == sorted_chunk(shown(chunk@)),
{
    let ghost whole = chunk@;
    let mut chunk = chunk;
    let mut rest: Vec<Scored<I>> = Vec::new();
    while chunk.len() > 0
        invariant
            shown(whole) == shown(chunk@) + rev(rest@),
        decreases chunk.len(),
    {
        let ghost (c0, r0) = (chunk@, rest@);
        let x = chunk.pop().unwrap();
        assert(c0.drop_last() =~= chunk@);
        if !x.1.should_be_excluded() {
            proof {
                lemma_rev_push(r0, x);
                assert(shown(c0) + rev(r0) =~= shown(chunk@) + rev(r0.push(x)));
            }
            rest.push(x);
        }
    }
    let ghost keep = shown(whole);
    assert(shown(chunk@) =~= Seq::<Scored<I>>::empty());
    assert(keep =~= rev(rest@));
    let mut out: Vec<Scored<I>> = Vec::new();
    let ghost mut k: int = 0;
    assert(keep.take(0) =~= Seq::<Scored<I>>::empty());
    assert(keep.skip(0) =~= keep);
    while rest.len() > 0
        invariant
            0 <= k <= keep.len(),
            out@ == sorted_chunk(keep.take(k)),
            rev(rest@) == keep.skip(k),
        decreases rest.len(),
    {
        let ghost r0 = rest@;
        let x = rest.pop().unwrap();
        proof {
            lemma_rev_push(rest@, x);
            lemma_rev_len(r0);
            assert(r0 =~= rest@.push(x));
            assert(k < keep.len());
            assert(keep.skip(k)[0] == x);
            assert(keep.take(k + 1).drop_last() =~= keep.take(k));
            assert(keep.take(k + 1).last() == x);
            assert(keep.skip(k + 1) =~= keep.skip(k).drop_first());
            assert(rev(rest@) =~= (seq![x] + rev(rest@)).drop_first());
        }
        insert_scored(&mut out, x);
        proof {
            k = k + 1;
        }
    }
    assert(rev(rest@) =~= Seq::<Scored<I>>::empty());
    assert(keep.take(k) =~= keep);
    out
}

impl<I> Sorted<I> {
    /// Nothing shown yet, and the source not yet done.
    pub fn new() -> (s: Self)
        ensures
            !s.done,
            s.items@.len() == 0,
            s.source_count == 0,
    {
        Sorted { done: false, items: Vec::new(), source_count: 0 }
    }

    /// Takes in a chunk from the source: counts all its items, and merges
    /// those to be shown, sorted, into what is shown.
    pub fn absorb(&mut self, chunk: Vec<Scored<I>>)
        requires
            old(self).source_count + chunk@.len() <= usize::MAX,
        ensures
            final(self).source_count == old(self).source_count + chunk@.len(),
            final(self).items@ == merged(old(self).items@, sorted_chunk(shown(chunk@))),
            final(self).done == old(self).done,
    {
        let orig_size = chunk.len();
        let mut sorted = sort_chunk(chunk);
        self.source_count = self.source_count + orig_size;
        merge(&mut self.items, &mut sorted);
    }

    /// The source has run out: what is shown is complete.
    pub fn finish(&mut self)
        ensures
            final(self).done,
            final(self).items@ == old(self).items@,
            final(self).source_count == old(self).source_count,
    {
        self.done = true;
    }
}

/// Whether the matcher rejected the item of `x`.
pub open spec fn rejected<I>(x: Scored<I>) -> bool {
    value_excluded((*x.1).spec_value())
}

proof fn lemma_whole_order<I>(x: Scored<I>, y: Scored<I>, z: Scored<I>)
    requires
        (*x.1).spec_value() is I64,
        (*y.1).spec_value() is I64,
        (*z.1).spec_value() is I64,
    ensures
        goes_after(x, y) ==> !goes_after(y, x),
        !goes_after(x, y) ==> goes_after(y, x) || score_order(*x.1, *y.1) == Some(
            Ordering::Equal,
        ),
        !goes_after(x, y) && !goes_after(y, z) ==> !goes_after(x, z),
        goes_after(x, y) && !goes_after(z, y) ==> !goes_after(z, x),
{
}

/// Merging loses no item and adds none.
pub proof fn law_merged_keeps_items<I>(a: Seq<Scored<I>>, b: Seq<Scored<I>>)
    ensures
        merged(a, b).to_multiset() =~= a.to_multiset().add(b.to_multiset()),
        merged(a, b).len() == a.len() + b.len(),
    decreases a.len() + b.len(),
{
    broadcast use vstd::seq_lib::group_to_multiset_ensures;
    broadcast use vstd::multiset::group_multiset_axioms;

    if b.len() == 0 {
        assert(b.to_multiset() =~= Multiset::empty());
    } else if a.len() == 0 {
        assert(a.to_multiset() =~= Multiset::empty());
    } else if goes_after(a.last(), b.last()) {
        law_merged_keeps_items(a.drop_last(), b);
        assert(a.drop_last().push(a.last()) =~= a);
    } else {
        law_merged_keeps_items(a, b.drop_last());
        assert(b.drop_last().push(b.last()) =~= b);
    }
}

proof fn lemma_in_one_of<I>(m: Seq<Scored<I>>, a: Seq<Scored<I>>, b: Seq<Scored<I>>, k: int)
    requires
        m.to_multiset() =~= a.to_multiset().add(b.to_multiset()),
        0 <= k < m.len(),
    ensures
        a.contains(m[k]) || b.contains(m[k]),
{
    broadcast use vstd::seq_lib::group_to_multiset_ensures;
    broadcast use vstd::multiset::group_multiset_axioms;

    assert(m.contains(m[k]));
    assert(m.to_multiset().count(m[k]) > 0);
}

/// Merging two sorted runs whose scores are whole numbers gives a sorted run.
pub proof fn law_merged_sorted<I>(a: Seq<Scored<I>>, b: Seq<Scored<I>>)
    requires
        is_sorted(a),
        is_sorted(b),
        whole_scores(a),
        whole_scores(b),
    ensures
        is_sorted(merged(a, b)),
        whole_scores(merged(a, b)),
    decreases a.len() + b.len(),
{
    if b.len() == 0 || a.len() == 0 {
    } else if goes_after(a.last(), b.last()) {
        let a2 = a.drop_last();
        let x = a.last();
        law_merged_sorted(a2, b);
        law_merged_keeps_items(a2, b);
        let m = merged(a2, b);
        assert forall|k: int| 0 <= k < m.len() implies !goes_after(m[k], x)
            && (*m[k].1).spec_value() is I64 by {
            lemma_in_one_of(m, a2, b, k);
            if a2.contains(m[k]) {
                let i = choose|i: int| 0 <= i < a2.len() && a2[i] == m[k];
                assert(a[i] == m[k]);
                assert(!goes_after(a[i], a[a.len() - 1]));
            } else {
                let j = choose|j: int| 0 <= j < b.len() && b[j] == m[k];
                if j < b.len() - 1 {
                    assert(!goes_after(b[j], b[b.len() - 1]));
                }
                lemma_whole_order(b.last(), x, m[k]);
                lemma_whole_order(x, b.last(), m[k]);
                lemma_whole_order(m[k], b.last(), x);
            }
        }
        assert(merged(a, b) == m.push(x));
        assert forall|i: int, j: int| 0 <= i < j < m.len() + 1 implies !goes_after(
            #[trigger] m.push(x)[i],
            #[trigger] m.push(x)[j],
        ) by {
            if j < m.len() {
                assert(m.push(x)[i] == m[i] && m.push(x)[j] == m[j]);
            } else {
                assert(m.push(x)[i] == m[i]);
            }
        }
    } else {
        let b2 = b.drop_last();
        let y = b.last();
        law_merged_sorted(a, b2);
        law_merged_keeps_items(a, b2);
        let m = merged(a, b2);
        assert forall|k: int| 0 <= k < m.len() implies !goes_after(m[k], y)
            && (*m[k].1).spec_value() is I64 by {
            lemma_in_one_of(m, a, b2, k);
            if b2.contains(m[k]) {
                let j = choose|j: int| 0 <= j < b2.len() && b2[j] == m[k];
                assert(b[j] == m[k]);
                assert(!goes_after(b[j], b[b.len() - 1]));
            } else {
                let i = choose|i: int| 0 <= i < a.len() && a[i] == m[k];
                if i < a.len() - 1 {
                    assert(!goes_after(a[i], a[a.len() - 1]));
                }
                lemma_whole_order(m[k], a.last(), y);
            }
        }
        assert(merged(a, b) == m.push(y));
        assert forall|i: int, j: int| 0 <= i < j < m.len() + 1 implies !goes_after(
            #[trigger] m.push(y)[i],
            #[trigger] m.push(y)[j],
        ) by {
            if j < m.len() {
                assert(m.push(y)[i] == m[i] && m.push(y)[j] == m[j]);
            } else {
                assert(m.push(y)[i] == m[i]);
            }
        }
    }
}

/// Inserting loses no item and adds only the one inserted.
pub proof fn law_inserted_keeps_items<I>(s: Seq<Scored<I>>, x: Scored<I>)
    ensures
        inserted(s, x).to_multiset() =~= s.to_multiset().insert(x),
        inserted(s, x).len() == s.len() + 1,
    decreases s.len(),
{
    broadcast use vstd::seq_lib::group_to_multiset_ensures;
    broadcast use vstd::multiset::group_multiset_axioms;

    if s.len() == 0 || !goes_after(s.last(), x) {
    } else {
        law_inserted_keeps_items(s.drop_last(), x);
        assert(s.drop_last().push(s.last()) =~= s);
    }
}

/// Inserting a whole-number score into a sorted run of them keeps it sorted.
pub proof fn law_inserted_sorted<I>(s: Seq<Scored<I>>, x: Scored<I>)
    requires
        is_sorted(s),
        whole_scores(s),
        (*x.1).spec_value() is I64,
    ensures
        is_sorted(inserted(s, x)),
        whole_scores(inserted(s, x)),
    decreases s.len(),
{
    broadcast use vstd::seq_lib::group_to_multiset_ensures;
    broadcast use vstd::multiset::group_multiset_axioms;

    if s.len() == 0 {
        assert(inserted(s, x) =~= seq![x]);
    } else if !goes_after(s.last(), x) {
        let r = s.push(x);
        assert forall|i: int, j: int| 0 <= i < j < r.len() implies !goes_after(
            #[trigger] r[i],
            #[trigger] r[j],
        ) by {
            if j == s.len() {
                if i < s.len() - 1 {
                    assert(!goes_after(s[i], s[s.len() - 1]));
                }
                lemma_whole_order(s[i], s.last(), x);
            } else {
                assert(r[i] == s[i] && r[j] == s[j]);
            }
        }
    } else {
        let s2 = s.drop_last();
        let y = s.last();
        law_inserted_sorted(s2, x);
        law_inserted_keeps_items(s2, x);
        let m = inserted(s2, x);
        assert forall|k: int| 0 <= k < m.len() implies !goes_after(m[k], y)
            && (*m[k].1).spec_value() is I64 by {
            assert(m.contains(m[k]));
            assert(m.to_multiset().count(m[k]) > 0);
            if m[k] == x {
                lemma_whole_order(y, x, x);
            } else {
                assert(s2.to_multiset().count(m[k]) > 0);
                let i = choose|i: int| 0 <= i < s2.len() && s2[i] == m[k];
                assert(s[i] == m[k]);
                assert(!goes_after(s[i], s[s.len() - 1]));
            }
        }
        let r = m.push(y);
        assert forall|i: int, j: int| 0 <= i < j < r.len() implies !goes_after(
            #[trigger] r[i],
            #[trigger] r[j],
        ) by {
            if j < m.len() {
                assert(r[i] == m[i] && r[j] == m[j]);
            } else {
                assert(r[i] == m[i]);
            }
        }
    }
}

/// Sorting a chunk loses no item and adds none.
pub proof fn law_sorted_chunk_keeps_items<I>(s: Seq<Scored<I>>)
    ensures
        sorted_chunk(s).to_multiset() =~= s.to_multiset(),
        sorted_chunk(s).len() == s.len(),
    decreases s.len(),
{
    broadcast use vstd::seq_lib::group_to_multiset_ensures;
    broadcast use vstd::multiset::group_multiset_axioms;

    if s.len() == 0 {
        assert(s.to_multiset() =~= Multiset::empty());
        assert(sorted_chunk(s).to_multiset() =~= Multiset::empty());
    } else {
        law_sorted_chunk_keeps_items(s.drop_last());
        law_inserted_keeps_items(sorted_chunk(s.drop_last()), s.last());
        assert(s.drop_last().push(s.last()) =~= s);
    }
}

/// A chunk whose scores are whole numbers comes out sorted.
pub proof fn law_sorted_chunk_sorted<I>(s: Seq<Scored<I>>)
    requires
        whole_scores(s),
    ensures
        is_sorted(sorted_chunk(s)),
        whole_scores(sorted_chunk(s)),
    decreases s.len(),
{
    if s.len() > 0 {
        assert(whole_scores(s.drop_last()));
        law_sorted_chunk_sorted(s.drop_last());
        law_inserted_sorted(sorted_chunk(s.drop_last()), s.last());
    }
}

/// What a chunk shows is its items that the matcher did not reject, in order.
pub proof fn law_shown_is_not_rejected<I>(s: Seq<Scored<I>>)
    ensures
        shown(s) == s.filter(|x: Scored<I>| !rejected(x)),
    decreases s.len(),
{
    reveal_with_fuel(Seq::filter, 1);
    if s.len() > 0 {
        law_shown_is_not_rejected(s.drop_last());
    }
}

proof fn lemma_shown_whole<I>(s: Seq<Scored<I>>)
    requires
        whole_scores(s),
    ensures
        whole_scores(shown(s)),
    decreases s.len(),
{
    if s.len() > 0 {
        assert(whole_scores(s.drop_last()));
        lemma_shown_whole(s.drop_last());
        let t = shown(s.drop_last());
        assert(forall|i: int| 0 <= i < t.len() ==> t.push(s.last())[i] == t[i]);
    }
}

/// What a flow shows stays sorted as chunks of whole-number scores come in,
/// and holds exactly what it held and the shown items of the chunk.
pub proof fn law_absorb_keeps_sorted<I>(items: Seq<Scored<I>>, chunk: Seq<Scored<I>>)
    requires
        is_sorted(items),
        whole_scores(items),
        whole_scores(chunk),
    ensures
        is_sorted(merged(items, sorted_chunk(shown(chunk)))),
        merged(items, sorted_chunk(shown(chunk))).to_multiset() =~= items.to_multiset().add(
            shown(chunk).to_multiset(),
        ),
{
    lemma_shown_whole(chunk);
    law_sorted_chunk_sorted(shown(chunk));
    law_sorted_chunk_keeps_items(shown(chunk));
    law_merged_sorted(items, sorted_chunk(shown(chunk)));
    law_merged_keeps_items(items, sorted_chunk(shown(chunk)));
}

impl Sorted<Arc<Item>> {
    /// The sorted entries whose items have their ids in `ids`, in order.
    pub fn id_items(&self, ids: &HashSet<u32>) -> (r: Vec<Scored<Arc<Item>>>)
        ensures
            r@ == with_ids(self.items@, ids@),
    {
        broadcast use vstd::std_specs::hash::group_hash_axioms;

        let mut r: Vec<Scored<Arc<Item>>> = Vec::new();
        let mut i: usize = 0;
        while i < self.items.len()
            invariant
                i <= self.items@.len(),
                r@ == with_ids(self.items@.take(i as int), ids@),
            decreases self.items@.len() - i,
        {
            let x = &self.items[i];
            proof {
                let t = self.items@.take(i + 1);
                assert(t.drop_last() =~= self.items@.take(i as int));
                assert(t.last() == *x);
            }
            if ids.contains(&x.0.id) {
                r.push((arc_clone(&x.0), arc_clone(&x.1)));
            }
            i = i + 1;
        }
        assert(self.items@.take(i as int) =~= self.items@);
        r
    }
}

} // verus!

use vstd::prelude::*;
use std::cmp::Ordering;
use crate::value::{Value, Score, whole, id_num, pos, ints16, ints64, value_entries, proper_start, lemma_proper_start_rest, lemma_proper_start_ints};

verus! {

/// The order of two whole numbers.
pub open spec fn int_order(a: int, b: int) -> Ordering {
    if a < b {
        Ordering::Less
    } else if a == b {
        Ordering::Equal
    } else {
        Ordering::Greater
    }
}

/// Two sequences compared entry by entry over their common length: at the
/// first differing entry the one with the larger entry is the lesser, since
/// larger values are shown first. With no differing entry they are equal
/// when they are as long, and do not compare when one is a proper start of
/// the other.
pub open spec fn lex_order(a: Seq<int>, b: Seq<int>) -> Option<Ordering>
    decreases a.len(),
{
    if a.len() == 0 && b.len() == 0 {
        Some(Ordering::Equal)
    } else if a.len() == 0 || b.len() == 0 {
        None
    } else if a[0] == b[0] {
        lex_order(a.drop_first(), b.drop_first())
    } else {
        Some(int_order(b[0], a[0]))
    }
}

/// The order of two values. Values of different kinds do not compare, except
/// a whole number with a vector of `i64`.
pub open spec fn value_order(a: Value, b: Value) -> Option<Ordering> {
    match (a, b) {
        (Value::I64(x), Value::I64(y)) => Some(int_order(whole(y), whole(x))),
        (Value::Vi16(_), Value::Vi16(_)) => lex_order(value_entries(a), value_entries(b)),
        (Value::Vi64(_), Value::Vi64(_)) => lex_order(value_entries(a), value_entries(b)),
        (Value::I64(_), Value::Vi64(_)) => lex_order(value_entries(a), value_entries(b)),
        (Value::Vi64(_), Value::I64(_)) => lex_order(value_entries(a), value_entries(b)),
        _ => None,
    }
}

/// The order of two scores: by value, and between equal values by item id.
pub open spec fn score_order(a: Score, b: Score) -> Option<Ordering> {
    match value_order(a.spec_value(), b.spec_value()) {
        Some(Ordering::Equal) => Some(int_order(id_num(a.spec_item_id()), id_num(b.spec_item_id()))),
        o => o,
    }
}

/// The order that sorting and merging use: unordered pairs count as equal.
pub open spec fn score_le_order(a: Score, b: Score) -> Ordering {
    match score_order(a, b) {
        Some(o) => o,
        None => Ordering::Equal,
    }
}

pub open spec fn reverse_order(o: Option<Ordering>) -> Option<Ordering> {
    match o {
        Some(Ordering::Less) => Some(Ordering::Greater),
        Some(Ordering::Greater) => Some(Ordering::Less),
        o => o,
    }
}

proof fn lemma_lex_order_reverse(a: Seq<int>, b: Seq<int>)
    ensures
        lex_order(a, b) == reverse_order(lex_order(b, a)),
    decreases a.len(),
{
    if a.len() != 0 && b.len() != 0 && a[0] == b[0] {
        lemma_lex_order_reverse(a.drop_first(), b.drop_first());
    }
}

/// Comparing two values the other way round gives the reverse order, or
/// again none.
pub proof fn law_value_order_antisymmetric(a: Value, b: Value)
    ensures
        value_order(a, b) == reverse_order(value_order(b, a)),
{
    lemma_lex_order_reverse(value_entries(a), value_entries(b));
}

/// Comparing two scores the other way round gives the reverse order, or
/// again none.
pub proof fn law_score_order_antisymmetric(a: Score, b: Score)
    ensures
        score_order(a, b) == reverse_order(score_order(b, a)),
{
    law_value_order_antisymmetric(a.spec_value(), b.spec_value());
}

/// The value of a rejected item orders with no value.
pub proof fn law_excluded_orders_with_nothing(a: Value, b: Value)
    requires
        a is Excluded,
    ensures
        value_order(a, b) is None,
        value_order(b, a) is None,
{
    law_value_order_antisymmetric(a, b);
}

/// Items are shown by value descending, then by item id ascending: a score
/// with a larger whole number goes first, and between equal values the
/// smaller item id goes first.
pub proof fn law_larger_value_then_smaller_id_first(a: Score, b: Score)
    ensures
        (a.spec_value() matches Value::I64(x) && b.spec_value() matches Value::I64(y) && x > y)
            ==> score_order(a, b) == Some(Ordering::Less),
        value_order(a.spec_value(), b.spec_value()) == Some(Ordering::Equal) && a.spec_item_id()
            < b.spec_item_id() ==> score_order(a, b) == Some(Ordering::Less),
{
}

proof fn lemma_lex_at_first_difference(a: Seq<int>, b: Seq<int>, i: int)
    requires
        0 <= i < a.len(),
        i < b.len(),
        forall|k: int| 0 <= k < i ==> a[k] == b[k],
        a[i] != b[i],
    ensures
        a[i] > b[i] ==> lex_order(a, b) == Some(Ordering::Less),
        a[i] < b[i] ==> lex_order(a, b) == Some(Ordering::Greater),
    decreases i,
{
    if i > 0 {
        assert(a[0] == b[0]);
        assert forall|k: int| 0 <= k < i - 1 implies a.drop_first()[k] == b.drop_first()[k] by {
            assert(a[k + 1] == b[k + 1]);
        }
        lemma_lex_at_first_difference(a.drop_first(), b.drop_first(), i - 1);
    }
}

proof fn lemma_lex_same(a: Seq<int>, b: Seq<int>)
    requires
        a == b,
    ensures
        lex_order(a, b) == Some(Ordering::Equal),
    decreases a.len(),
{
    if a.len() > 0 {
        lemma_lex_same(a.drop_first(), b.drop_first());
    }
}

/// Vectors of `i16` show the larger value first: at their first differing
/// entry the vector with the larger entry comes first; vectors equal entry
/// by entry are equal.
pub proof fn law_i16_vectors_larger_first(xs: Vec<i16>, ys: Vec<i16>, i: int)
    requires
        0 <= i < xs@.len(),
        i < ys@.len(),
        forall|k: int| 0 <= k < i ==> xs@[k] == ys@[k],
    ensures
        xs@[i] > ys@[i] ==> value_order(Value::Vi16(xs), Value::Vi16(ys)) == Some(Ordering::Less),
        xs@[i] < ys@[i] ==> value_order(Value::Vi16(xs), Value::Vi16(ys)) == Some(Ordering::Greater),
        xs@ == ys@ ==> value_order(Value::Vi16(xs), Value::Vi16(ys)) == Some(Ordering::Equal),
{
    let a = ints16(xs@);
    let b = ints16(ys@);
    if xs@[i] != ys@[i] {
        assert forall|k: int| 0 <= k < i implies a[k] == b[k] by {
            assert(xs@[k] == ys@[k]);
        }
        lemma_lex_at_first_difference(a, b, i);
    }
    if xs@ == ys@ {
        lemma_lex_same(a, b);
    }
}

/// Vectors of `i64` show the larger value first: at their first differing
/// entry the vector with the larger entry comes first; vectors equal entry
/// by entry are equal.
pub proof fn law_i64_vectors_larger_first(xs: Vec<i64>, ys: Vec<i64>, i: int)
    requires
        0 <= i < xs@.len(),
        i < ys@.len(),
        forall|k: int| 0 <= k < i ==> xs@[k] == ys@[k],
    ensures
        xs@[i] > ys@[i] ==> value_order(Value::Vi64(xs), Value::Vi64(ys)) == Some(Ordering::Less),
        xs@[i] < ys@[i] ==> value_order(Value::Vi64(xs), Value::Vi64(ys)) == Some(Ordering::Greater),
        xs@ == ys@ ==> value_order(Value::Vi64(xs), Value::Vi64(ys)) == Some(Ordering::Equal),
{
    let a = ints64(xs@);
    let b = ints64(ys@);
    if xs@[i] != ys@[i] {
        assert forall|k: int| 0 <= k < i implies a[k] == b[k] by {
            assert(xs@[k] == ys@[k]);
        }
        lemma_lex_at_first_difference(a, b, i);
    }
    if xs@ == ys@ {
        lemma_lex_same(a, b);
    }
}

proof fn lemma_lex_proper_start(a: Seq<int>, b: Seq<int>)
    requires
        proper_start(a, b),
    ensures
        lex_order(a, b) is None,
        lex_order(b, a) is None,
    decreases a.len(),
{
    if a.len() > 0 {
        lemma_proper_start_rest(a, b);
        lemma_lex_proper_start(a.drop_first(), b.drop_first());
    }
}

/// A vector that is a proper start of another does not compare with it,
/// either way round.
pub proof fn law_proper_start_does_not_compare(xs: Vec<i16>, ys: Vec<i16>, us: Vec<i64>, vs: Vec<i64>)
    ensures
        proper_start(xs@, ys@) ==> value_order(Value::Vi16(xs), Value::Vi16(ys)) is None && value_order(
            Value::Vi16(ys),
            Value::Vi16(xs),
        ) is None,
        proper_start(us@, vs@) ==> value_order(Value::Vi64(us), Value::Vi64(vs)) is None && value_order(
            Value::Vi64(vs),
            Value::Vi64(us),
        ) is None,
{
    lemma_proper_start_ints(xs@, ys@, us@, vs@);
    if proper_start(xs@, ys@) {
        lemma_lex_proper_start(ints16(xs@), ints16(ys@));
    }
    if proper_start(us@, vs@) {
        lemma_lex_proper_start(ints64(us@), ints64(vs@));
    }
}

/// A whole number beside a vector of `i64` counts as a vector of length one:
/// the larger first entry comes first, and `[x]` equals `x`.
pub proof fn law_whole_number_beside_vector(x: i64, ys: Vec<i64>)
    requires
        ys@.len() > 0,
    ensures
        x > ys@[0] ==> value_order(Value::I64(x), Value::Vi64(ys)) == Some(Ordering::Less),
        x < ys@[0] ==> value_order(Value::I64(x), Value::Vi64(ys)) == Some(Ordering::Greater),
        ys@ == seq![x] ==> value_order(Value::I64(x), Value::Vi64(ys)) == Some(Ordering::Equal),
{
    let a = value_entries(Value::I64(x));
    let b = ints64(ys@);
    if x != ys@[0] {
        lemma_lex_at_first_difference(a, b, 0);
    }
    if ys@ == seq![x] {
        assert(a =~= b);
        lemma_lex_same(a, b);
    }
}

/// Scores with whole-number values order totally: by value, then by item id.
pub proof fn law_whole_scores_order_totally(a: Score, b: Score)
    requires
        a.spec_value() is I64,
        b.spec_value() is I64,
    ensures
        score_order(a, b) is Some,
        score_order(a, b) == Some(Ordering::Equal) <==> (a.spec_value() == b.spec_value()
            && a.spec_item_id() == b.spec_item_id()),
{
}

fn int_cmp(a: i64, b: i64) -> (r: Ordering)
    ensures
        r == int_order(whole(a), whole(b)),
{
    if a < b {
        Ordering::Less
    } else if a == b {
        Ordering::Equal
    } else {
        Ordering::Greater
    }
}

fn lex_cmp16(a: &Vec<i16>, b: &Vec<i16>) -> (r: Option<Ordering>)
    ensures
        r == lex_order(ints16(a@), ints16(b@)),
{
    let n = if a.len() < b.len() { a.len() } else { b.len() };
    let ghost sa = ints16(a@);
    let ghost sb = ints16(b@);
    let mut i: usize = 0;
    assert(sa.skip(0) =~= sa);
    assert(sb.skip(0) =~= sb);
    while i < n
        invariant
            i <= n,
            n <= a.len(),
            n <= b.len(),
            n == a.len() || n == b.len(),
            sa == ints16(a@),
            sb == ints16(b@),
            lex_order(sa, sb) == lex_order(sa.skip(pos(i)), sb.skip(pos(i))),
        decreases n - i,
    {
        assert(sa.skip(pos(i)).drop_first() =~= sa.skip(pos(i) + 1));
        assert(sb.skip(pos(i)).drop_first() =~= sb.skip(pos(i) + 1));
        if a[i] != b[i] {
            if b[i] < a[i] {
                return Some(Ordering::Less);
            } else {
                return Some(Ordering::Greater);
            }
        }
        i = i + 1;
    }
    assert(sa.skip(pos(i)).len() == 0 || sb.skip(pos(i)).len() == 0);
    if a.len() == b.len() {
        Some(Ordering::Equal)
    } else {
        None
    }
}

fn lex_cmp64(a: &Vec<i64>, b: &Vec<i64>) -> (r: Option<Ordering>)
    ensures
        r == lex_order(ints64(a@), ints64(b@)),
{
    let n = if a.len() < b.len() { a.len() } else { b.len() };
    let ghost sa = ints64(a@);
    let ghost sb = ints64(b@);
    let mut i: usize = 0;
    assert(sa.skip(0) =~= sa);
    assert(sb.skip(0) =~= sb);
    while i < n
        invariant
            i <= n,
            n <= a.len(),
            n <= b.len(),
            n == a.len() || n == b.len(),
            sa == ints64(a@),
            sb == ints64(b@),
            lex_order(sa, sb) == lex_order(sa.skip(pos(i)), sb.skip(pos(i))),
        decreases n - i,
    {
        assert(sa.skip(pos(i)).drop_first() =~= sa.skip(pos(i) + 1));
        assert(sb.skip(pos(i)).drop_first() =~= sb.skip(pos(i) + 1));
        if a[i] != b[i] {
            if b[i] < a[i] {
                return Some(Ordering::Less);
            } else {
                return Some(Ordering::Greater);
            }
        }
        i = i + 1;
    }
    assert(sa.skip(pos(i)).len() == 0 || sb.skip(pos(i)).len() == 0);
    if a.len() == b.len() {
        Some(Ordering::Equal)
    } else {
        None
    }
}

impl PartialEq for Value {
    /// Two values are equal where they order as equal: they are as long and
    /// no entry differs.
    fn eq(&self, other: &Self) -> (r: bool) {
        match self.partial_cmp(other) {
            Some(Ordering::Equal) => true,
            _ => false,
        }
    }
}

impl vstd::std_specs::cmp::PartialEqSpecImpl for Value {
    open spec fn obeys_eq_spec() -> bool {
        true
    }

    open spec fn eq_spec(&self, other: &Self) -> bool {
        value_order(*self, *other) == Some(Ordering::Equal)
    }
}

impl PartialOrd for Value {
    /// Handles i64 as length 1; does not compare if the kinds differ.
    fn partial_cmp(&self, other: &Self) -> (r: Option<Ordering>) {
        value_compare(self, other)
    }
}

fn value_compare(this: &Value, other: &Value) -> (r: Option<Ordering>)
    ensures
        r == value_order(*this, *other),
{
    {
        match (this, other) {
            (Value::I64(a), Value::I64(b)) => Some(int_cmp(*b, *a)),
            (Value::Vi16(a), Value::Vi16(b)) => lex_cmp16(a, b),
            (Value::Vi64(a), Value::Vi64(b)) => lex_cmp64(a, b),
            (Value::I64(a), Value::Vi64(b)) => {
                let ghost sa = value_entries(*this);
                let ghost sb = value_entries(*other);
                assert(sa.len() == 1 && sa[0] == whole(*a));
                assert(sb.len() == b@.len());
                if b.len() == 0 {
                    None
                } else if *a == b[0] {
                    assert(sb[0] == whole(b[0]));
                    assert(sa.drop_first() =~= Seq::<int>::empty());
                    if b.len() == 1 {
                        assert(sb.drop_first() =~= Seq::<int>::empty());
                        assert(lex_order(sa.drop_first(), sb.drop_first()) == Some(Ordering::Equal));
                        Some(Ordering::Equal)
                    } else {
                        assert(sb.drop_first().len() > 0);
                        assert(lex_order(sa.drop_first(), sb.drop_first()) is None);
                        None
                    }
                } else if b[0] < *a {
                    assert(sb[0] == whole(b[0]));
                    Some(Ordering::Less)
                } else {
                    assert(sb[0] == whole(b[0]));
                    Some(Ordering::Greater)
                }
            },
            (Value::Vi64(a), Value::I64(b)) => {
                let ghost sa = value_entries(*this);
                let ghost sb = value_entries(*other);
                assert(sb.len() == 1 && sb[0] == whole(*b));
                assert(sa.len() == a@.len());
                if a.len() == 0 {
                    None
                } else if a[0] == *b {
                    assert(sa[0] == whole(a[0]));
                    assert(sb.drop_first() =~= Seq::<int>::empty());
                    if a.len() == 1 {
                        assert(sa.drop_first() =~= Seq::<int>::empty());
                        assert(lex_order(sa.drop_first(), sb.drop_first()) == Some(Ordering::Equal));
                        Some(Ordering::Equal)
                    } else {
                        assert(sa.drop_first().len() > 0);
                        assert(lex_order(sa.drop_first(), sb.drop_first()) is None);
                        None
                    }
                } else if *b < a[0] {
                    assert(sa[0] == whole(a[0]));
                    Some(Ordering::Less)
                } else {
                    assert(sa[0] == whole(a[0]));
                    Some(Ordering::Greater)
                }
            },
            _ => None,
        }
    }
}

impl vstd::std_specs::cmp::PartialOrdSpecImpl for Value {
    open spec fn obeys_partial_cmp_spec() -> bool {
        true
    }

    open spec fn partial_cmp_spec(&self, other: &Self) -> Option<Ordering> {
        value_order(*self, *other)
    }
}

impl PartialEq for Score {
    fn eq(&self, other: &Self) -> (r: bool) {
        match self.partial_cmp(other) {
            Some(Ordering::Equal) => true,
            _ => false,
        }
    }
}

impl vstd::std_specs::cmp::PartialEqSpecImpl for Score {
    open spec fn obeys_eq_spec() -> bool {
        true
    }

    open spec fn eq_spec(&self, other: &Self) -> bool {
        score_order(*self, *other) == Some(Ordering::Equal)
    }
}

impl PartialOrd for Score {
    /// By value, and between equal values by item id.
    fn partial_cmp(&self, other: &Self) -> (r: Option<Ordering>) {
        match self.value_ref().partial_cmp(other.value_ref()) {
            Some(Ordering::Equal) => {
                let a = self.item_id();
                let b = other.item_id();
                if a < b {
                    Some(Ordering::Less)
                } else if a == b {
                    Some(Ordering::Equal)
                } else {
                    Some(Ordering::Greater)
                }
            },
            o => o,
        }
    }
}

impl vstd::std_specs::cmp::PartialOrdSpecImpl for Score {
    open spec fn obeys_partial_cmp_spec() -> bool {
        true
    }

    open spec fn partial_cmp_spec(&self, other: &Self) -> Option<Ordering> {
        score_order(*self, *other)
    }
}

} // verus!

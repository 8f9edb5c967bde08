use vstd::prelude::*;

verus! {

/// What a matcher gives an item. Larger values come first: a whole number
/// before a smaller one, a vector by its first differing entry, the larger
/// entry first; two vectors equal entry by entry are equal, and where one is
/// a proper start of the other they do not compare. A whole number beside a
/// vector of `i64` counts as a vector of length one.
/// `Excluded` is the score of an item that the matcher rejected: it orders
/// with nothing.
pub enum Value {
    I64(i64),
    Vi16(Vec<i16>),
    Vi64(Vec<i64>),
    Excluded,
}

/// Items are shown in the order of their scores: the larger value first, and
/// between equal values the smaller item id first.
pub struct Score {
    item_id: u32,
    value: Value,
}

/// A machine integer read as a whole number.
pub open spec fn whole(x: i64) -> int {
    x as int
}

/// An item id read as a whole number.
pub open spec fn id_num(x: u32) -> int {
    x as int
}

/// An index read as a whole number.
pub open spec fn pos(i: usize) -> int {
    i as int
}

pub open spec fn ints16(s: Seq<i16>) -> Seq<int> {
    s.map_values(|x: i16| x as int)
}

pub open spec fn ints64(s: Seq<i64>) -> Seq<int> {
    s.map_values(|x: i64| x as int)
}

/// The entries of a value as whole numbers, where it has any.
pub open spec fn value_entries(v: Value) -> Seq<int> {
    match v {
        Value::I64(x) => seq![x as int],
        Value::Vi16(xs) => ints16(xs@),
        Value::Vi64(xs) => ints64(xs@),
        Value::Excluded => Seq::empty(),
    }
}

/// Whether a value marks its item as not to be shown.
pub open spec fn value_excluded(v: Value) -> bool {
    match v {
        Value::I64(_) => false,
        Value::Vi16(xs) => xs@.len() == 0,
        Value::Vi64(xs) => xs@.len() == 0,
        Value::Excluded => true,
    }
}

impl Score {
    /// The id of the item that the score belongs to.
    pub closed spec fn spec_item_id(&self) -> u32 {
        self.item_id
    }

    /// The value that the matcher gave the item.
    pub closed spec fn spec_value(&self) -> Value {
        self.value
    }

    /// The id of the item that the score belongs to.
    pub fn item_id(&self) -> (r: u32)
        ensures
            r == self.spec_item_id(),
    {
        self.item_id
    }

    /// The value that the matcher gave the item.
    pub fn value_ref(&self) -> (r: &Value)
        ensures
            *r == self.spec_value(),
    {
        &self.value
    }

    /// The score of an item that is not to be shown.
    pub fn new_excluded() -> (s: Self)
        ensures
            s.spec_item_id() == 0,
            s.spec_value() == Value::Excluded,
    {
        Score { item_id: 0, value: Value::Excluded }
    }

    /// The score `v` of the item `item_id`.
    pub fn value(item_id: u32, v: Value) -> (s: Self)
        ensures
            s.spec_item_id() == item_id,
            s.spec_value() == v,
    {
        Score { item_id, value: v }
    }

    /// If true, the item will not be displayed.
    pub fn should_be_excluded(&self) -> (r: bool)
        ensures
            r == value_excluded(self.spec_value()),
    {
        match &self.value {
            Value::I64(_) => false,
            Value::Vi16(xs) => xs.len() == 0,
            Value::Vi64(xs) => xs.len() == 0,
            Value::Excluded => true,
        }
    }
}

/// Whether `t` is a proper start of `s`: shorter, and equal to as much of
/// `s` as it is long.
pub open spec fn proper_start<T>(t: Seq<T>, s: Seq<T>) -> bool {
    t.len() < s.len() && t == s.take(t.len() as int)
}

/// A proper start agrees with the sequence at its first entry, and what
/// follows it is a proper start of what follows.
pub proof fn lemma_proper_start_rest<T>(t: Seq<T>, s: Seq<T>)
    requires
        proper_start(t, s),
        t.len() > 0,
    ensures
        t[0] == s[0],
        proper_start(t.drop_first(), s.drop_first()),
{
    assert(t[0] == s.take(t.len() as int)[0]);
    assert(t.drop_first() =~= s.drop_first().take(t.drop_first().len() as int));
}

/// Reading entries as whole numbers keeps proper starts.
pub proof fn lemma_proper_start_ints(xs: Seq<i16>, ys: Seq<i16>, us: Seq<i64>, vs: Seq<i64>)
    ensures
        proper_start(xs, ys) ==> proper_start(ints16(xs), ints16(ys)),
        proper_start(us, vs) ==> proper_start(ints64(us), ints64(vs)),
{
    if proper_start(xs, ys) {
        assert(ints16(xs) =~= ints16(ys).take(xs.len() as int));
    }
    if proper_start(us, vs) {
        assert(ints64(us) =~= ints64(vs).take(us.len() as int));
    }
}

} // verus!

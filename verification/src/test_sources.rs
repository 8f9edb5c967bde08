use vstd::prelude::*;
use crate::item::{Item, MaybeUtf8, lossy};
use crate::value::{Score, Value};
use crate::interface::{Vars, Reusable};
use crate::decimal::{dec, dec_int, parse_i32, parse_i32_spec, u64_to_decimal, i32_to_decimal};

verus! {

/// Whether `needle` occurs in `hay`.
pub open spec fn occurs(hay: Seq<char>, needle: Seq<char>) -> bool {
    exists|i: int| 0 <= i <= hay.len() - needle.len() && #[trigger] hay.subrange(i, i + needle.len()) == needle
}

/// Whether `needle` occurs in `hay` at `i`.
fn occurs_at(hay: &str, needle: &str, i: usize) -> (r: bool)
    requires
        i + needle@.len() <= hay@.len(),
    ensures
        r == (hay@.subrange(i as int, i + needle@.len()) == needle@),
{
    let m = needle.unicode_len();
    let n = hay.unicode_len();
    let mut k: usize = 0;
    while k < m
        invariant
            m == needle@.len(),
            n == hay@.len(),
            i + m <= hay@.len(),
            k <= m,
            forall|j: int| 0 <= j < k ==> hay@[i + j] == needle@[j],
        decreases m - k,
    {
        if hay.get_char(i + k) != needle.get_char(k) {
            assert(hay@.subrange(i as int, i + m)[k as int] != needle@[k as int]);
            return false;
        }
        k = k + 1;
    }
    assert(hay@.subrange(i as int, i + m) =~= needle@);
    true
}

/// Whether `needle` occurs in `hay`, as `str::find` finds it.
pub fn find(hay: &str, needle: &str) -> (r: bool)
    ensures
        r == occurs(hay@, needle@),
{
    let n = hay.unicode_len();
    let m = needle.unicode_len();
    if m > n {
        return false;
    }
    let mut i: usize = 0;
    loop
        invariant
            n == hay@.len(),
            m == needle@.len(),
            m <= n,
            i <= n - m,
            forall|j: int| 0 <= j < i ==> #[trigger] hay@.subrange(j, j + m) != needle@,
        decreases n - m - i,
    {
        if occurs_at(hay, needle, i) {
            return true;
        }
        if i == n - m {
            return false;
        }
        i = i + 1;
    }
}

/// The source that hands out the numbers from 0 on, one item each.
pub struct Simple;

impl Simple {
    /// The `i`-th item: id `i + 1`, value `i` written in decimal.
    pub fn item(&self, i: u32) -> (r: Item)
        requires
            i < u32::MAX,
        ensures
            r.id == i + 1,
            r.value matches MaybeUtf8::Utf8(s) && s@ == dec(i as nat),
            r.info is None,
            r.view is None,
            r.view_for_matcing is None,
    {
        Item::new(i + 1, MaybeUtf8::Utf8(u64_to_decimal(i as u64)))
    }
}

/// The matcher that keeps the items whose text contains the query.
pub struct Substring;

impl Substring {
    /// Score 1 for an item whose text for matching contains the query; the
    /// item is left out otherwise.
    pub fn score(&self, vars: &Vars, item: &Item) -> (r: Score)
        ensures
            ({
                let text = match item.view_for_matcing {
                    Some(v) => v@,
                    None => lossy(item.value),
                };
                if occurs(text, vars.query@) {
                    r.spec_item_id() == item.id && r.spec_value() == Value::I64(1)
                } else {
                    r.spec_item_id() == 0 && r.spec_value() == Value::Excluded
                }
            }),
    {
        let text = item.view_for_matcing();
        if find(text.as_str(), vars.query.as_str()) {
            Score::value(item.id, Value::I64(1))
        } else {
            Score::new_excluded()
        }
    }

    /// The scores of a flow serve another with the same query.
    pub fn reusable(&self, prev: &Vars, senario: &Vars) -> (r: Reusable)
        ensures
            r == (if prev.query@ == senario.query@ {
                Reusable::Same
            } else {
                Reusable::NoReuse
            }),
    {
        if prev.query == senario.query {
            Reusable::Same
        } else {
            Reusable::NoReuse
        }
    }
}

/// The converter that marks numbers as odd or even.
pub struct OddEven;

/// What is shown of an item.
pub open spec fn shown(item: Item) -> Seq<char> {
    match item.view {
        Some(v) => v@,
        None => lossy(item.value),
    }
}

impl OddEven {
    /// An item shown as a number is shown as `e` or `o` and the number,
    /// for even and odd; any other item stays as it is.
    pub fn convert(&self, item: Item) -> (r: Item)
        ensures
            match parse_i32_spec(shown(item)) {
                Some(x) => {
                    &&& r.id == item.id
                    &&& r.value == item.value
                    &&& r.info == item.info
                    &&& r.view_for_matcing == item.view_for_matcing
                    &&& r.view matches Some(v) && v@ == seq![if x % 2 == 0 { 'e' } else { 'o' }]
                        + dec_int(x as int)
                },
                None => r == item,
            },
    {
        let text = item.view();
        match parse_i32(text.as_str()) {
            Some(x) => {
                let digits = i32_to_decimal(x);
                let even = x % 2 == 0;
                let mut v = String::new();
                proof {
                    reveal_strlit("e");
                    reveal_strlit("o");
                }
                if even {
                    v.append("e");
                } else {
                    v.append("o");
                }
                v.append(digits.as_str());
                assert(v@ =~= seq![if x % 2 == 0 { 'e' } else { 'o' }] + dec_int(x as int));
                Item { view: Some(v), ..item }
            },
            None => item,
        }
    }
}

} // verus!

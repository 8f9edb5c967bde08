use vstd::prelude::*;
use std::sync::Arc;
use crate::item::{Item, lossy};
use crate::sorted::Scored;
use crate::decimal::{dec, u64_to_decimal};

verus! {

/// The greeting the editor's bridge answers with.
pub fn hello_world() -> (r: String)
    ensures
        r@ == "Hello World!"@,
{
    "Hello World!".to_owned()
}

/// The numbers 1 to 500, written in decimal, in order.
pub fn arr() -> (r: Vec<String>)
    ensures
        r@.len() == 500,
        forall|i: int| 0 <= i < 500 ==> #[trigger] r@[i]@ == dec((i + 1) as nat),
{
    let mut r: Vec<String> = Vec::new();
    let mut i: u64 = 1;
    while i <= 500
        invariant
            1 <= i <= 501,
            r@.len() == i - 1,
            forall|k: int| 0 <= k < i - 1 ==> #[trigger] r@[k]@ == dec((k + 1) as nat),
        decreases 501 - i,
    {
        r.push(u64_to_decimal(i));
        i = i + 1;
    }
    r
}

/// What is shown of an item: its view if it has one, else its value.
pub open spec fn item_view(item: Item) -> Seq<char> {
    match item.view {
        Some(v) => v@,
        None => lossy(item.value),
    }
}

/// The lines of `items`, each followed by a line break.
pub open spec fn view_lines(items: Seq<Scored<Arc<Item>>>) -> Seq<char>
    decreases items.len(),
{
    if items.len() == 0 {
        Seq::empty()
    } else {
        view_lines(items.drop_last()) + item_view(*items.last().0) + seq!['\n']
    }
}

/// The name of the file that holds the view of a flow: its query, `_`,
/// the count of its items, and `+` while more may come.
pub open spec fn view_file_name_spec(query: Seq<char>, len: nat, done: bool) -> Seq<char> {
    query + seq!['_'] + dec(len) + if done {
        Seq::empty()
    } else {
        seq!['+']
    }
}

/// The name of the file that holds the view of a flow.
pub fn view_file_name(query: &str, len: usize, done: bool) -> (r: String)
    ensures
        r@ == view_file_name_spec(query@, len as nat, done),
{
    proof {
        reveal_strlit("_");
        reveal_strlit("+");
    }
    let mut r = query.to_owned();
    r.append("_");
    let n = u64_to_decimal(len as u64);
    r.append(n.as_str());
    if !done {
        r.append("+");
    }
    assert(r@ =~= view_file_name_spec(query@, len as nat, done));
    r
}

/// The text of the first `size` sorted items, or all of them when there
/// are fewer: what each shows, each ended by a line break; a lone line
/// break when no item is shown.
pub fn view_text(items: &Vec<Scored<Arc<Item>>>, size: usize) -> (r: String)
    ensures
        ({
            let k = if size < items@.len() {
                size as int
            } else {
                items@.len() as int
            };
            r@ == (if k == 0 {
                seq!['\n']
            } else {
                view_lines(items@.take(k))
            })
        }),
{
    proof {
        reveal_strlit("\n");
    }
    let k = if size < items.len() {
        size
    } else {
        items.len()
    };
    let mut r = String::new();
    let mut i: usize = 0;
    assert(items@.take(0) =~= Seq::<Scored<Arc<Item>>>::empty());
    while i < k
        invariant
            k <= items@.len(),
            i <= k,
            r@ == view_lines(items@.take(i as int)),
        decreases k - i,
    {
        let v = items[i].0.view();
        assert(v@ == item_view(*items@[i as int].0));
        let ghost r0 = r@;
        r.append(v.as_str());
        let ghost r1 = r@;
        assert(r1 == r0 + v@);
        r.append("\n");
        proof {
            reveal_strlit("\n");
            let t = items@.take(i + 1);
            assert(t.drop_last() =~= items@.take(i as int));
            assert(t.last() == items@[i as int]);
            assert(r@ =~= r0 + item_view(*items@[i as int].0) + seq!['\n']);
        }
        i = i + 1;
    }
    if k == 0 {
        r.append("\n");
        proof {
            reveal_strlit("\n");
        }
        assert(r@ =~= seq!['\n']);
    }
    r
}

} // verus!

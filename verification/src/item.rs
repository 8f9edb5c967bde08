use vstd::prelude::*;
use vstd::utf8::{valid_utf8, decode_utf8};

verus! {

/// The text of an item: UTF-8, the bytes of a path of the system, or bytes.
#[derive(Debug, Clone, PartialEq, Eq)]
pub enum MaybeUtf8 {
    Utf8(String),
    Os(Vec<u8>),
    Bytes(Vec<u8>),
}

/// One thing to find among others.
#[derive(Debug, PartialEq)]
pub struct Item {
    /// id must not be 0
    pub id: u32,
    pub value: MaybeUtf8,
    /// More about the item, a JSON object written out as text; json value
    /// cannot represent luastring
    pub info: Option<String>,
    pub view: Option<String>,
    pub view_for_matcing: Option<String>,
}

/// What `String::from_utf8_lossy` makes of `bytes`.
pub uninterp spec fn utf8_lossy(bytes: Seq<u8>) -> Seq<char>;

/// Calls `String::from_utf8_lossy`: the bytes read as UTF-8, each invalid
/// sequence in them replaced by U+FFFD. Its result is named `utf8_lossy`;
/// what is stated of it is what the documentation says: bytes that are valid
/// UTF-8 come back as the text they encode.
#[verifier::external_body]
fn lossy_string(bytes: &[u8]) -> (r: String)
    ensures
        r@ == utf8_lossy(bytes@),
        valid_utf8(bytes@) ==> r@ == decode_utf8(bytes@),
{
    String::from_utf8_lossy(bytes).into_owned()
}

/// The text of a value, with what is not UTF-8 replaced.
pub open spec fn lossy(v: MaybeUtf8) -> Seq<char> {
    match v {
        MaybeUtf8::Utf8(s) => s@,
        MaybeUtf8::Os(b) => utf8_lossy(b@),
        MaybeUtf8::Bytes(b) => utf8_lossy(b@),
    }
}

impl Item {
    /// An item with nothing but its id and value.
    pub fn new(id: u32, value: MaybeUtf8) -> (r: Self)
        ensures
            r.id == id,
            r.value == value,
            r.info is None,
            r.view is None,
            r.view_for_matcing is None,
    {
        Item { id, value, info: None, view: None, view_for_matcing: None }
    }

    /// The item's value as text, with what is not UTF-8 replaced.
    pub fn value_lossy(&self) -> (r: String)
        ensures
            r@ == lossy(self.value),
    {
        match &self.value {
            MaybeUtf8::Utf8(s) => s.clone(),
            MaybeUtf8::Os(b) => lossy_string(b.as_slice()),
            MaybeUtf8::Bytes(b) => lossy_string(b.as_slice()),
        }
    }

    /// What is shown of the item: its view if it has one, else its value.
    pub fn view(&self) -> (r: String)
        ensures
            r@ == match self.view {
                Some(v) => v@,
                None => lossy(self.value),
            },
    {
        match &self.view {
            Some(v) => v.clone(),
            None => self.value_lossy(),
        }
    }

    /// What a matcher looks at: the item's text for matching if it has one,
    /// else its value.
    pub fn view_for_matcing(&self) -> (r: String)
        ensures
            r@ == match self.view_for_matcing {
                Some(v) => v@,
                None => lossy(self.value),
            },
    {
        match &self.view_for_matcing {
            Some(v) => v.clone(),
            None => self.value_lossy(),
        }
    }
}

} // verus!

verus! {

/// The entries of `items` whose item has its id in `ids`, in order.
pub open spec fn with_ids<S>(items: Seq<(std::sync::Arc<Item>, S)>, ids: Set<u32>) -> Seq<(std::sync::Arc<Item>, S)>
    decreases items.len(),
{
    if items.len() == 0 {
        Seq::empty()
    } else {
        let rest = with_ids(items.drop_last(), ids);
        if ids.contains(items.last().0.id) {
            rest.push(items.last())
        } else {
            rest
        }
    }
}

} // verus!

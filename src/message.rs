use std::collections::HashMap;
use vstd::prelude::*;

verus! {

/// A message: a stable 64-bit id, an opaque body, and optional string attributes.
#[derive(Debug, PartialEq)]
pub struct Message<T> {
    pub id: u64,
    pub body: T,
    pub attributes: Option<HashMap<String, String>>,
}

/// The attributes of a message as a mathematical map, if it has any.
pub open spec fn attributes_view(a: Option<HashMap<String, String>>) -> Option<
    Map<String, String>,
> {
    match a {
        Some(m) => Some(m@),
        None => None,
    }
}

/// `b` is a copy of `a`: same id, same attributes, and a body produced by
/// cloning (or equal to) the body of `a`.
pub open spec fn copy_of<T: Clone>(a: Message<T>, b: Message<T>) -> bool {
    &&& b.id == a.id
    &&& attributes_view(b.attributes) == attributes_view(a.attributes)
    &&& cloned(a.body, b.body)
}

/// Every element of `r` is a copy of the element of `s` at the same position.
pub open spec fn copies_of<T: Clone>(s: Seq<Message<T>>, r: Seq<Message<T>>) -> bool {
    &&& r.len() == s.len()
    &&& forall|i: int| 0 <= i < s.len() ==> #[trigger] copy_of(s[i], r[i])
}

/// The message carries attribute `key` with exactly the value `value`.
/// A message without attributes carries none.
pub open spec fn has_attribute<T>(m: Message<T>, key: Seq<char>, value: Seq<char>) -> bool {
    match m.attributes {
        Some(a) => exists|k: String|
            k@ == key && #[trigger] a@.contains_key(k) && a@[k]@ == value,
        None => false,
    }
}

impl<T: Clone> Clone for Message<T> {
    fn clone(&self) -> (r: Self)
        ensures
            copy_of(*self, r),
    {
        let attributes = match &self.attributes {
            Some(a) => Some(a.clone()),
            None => None,
        };
        Message { id: self.id, body: self.body.clone(), attributes }
    }
}

} // verus!

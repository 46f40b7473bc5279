//! Views of optional and repeated values.
use vstd::prelude::*;

verus! {

/// The view of an optional value: the view of what it holds, if it holds anything.
pub open spec fn optional<T: View>(value: Option<T>) -> Option<T::V> {
    match value {
        Some(inner) => Some(inner@),
        None => None,
    }
}

/// The views of the items of a sequence, in the same order.
pub open spec fn each<T: View>(items: Seq<T>) -> Seq<T::V> {
    Seq::new(items.len(), |i: int| items[i]@)
}

} // verus!

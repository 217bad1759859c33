//! The short list of memory types that suit a request, kept in a
//! `SmallVec` so that the usual handful of types costs no allocation.

use vstd::prelude::*;
use smallvec::SmallVec;

verus! {

/// Memory types that suit a request: index and fitness of each.
///
/// The verifier does not look inside a `SmallVec`. What the list holds is
/// known to it as `entries`, and only through the four functions below,
/// each of which makes one call into `smallvec` and is believed, not
/// proved.
#[verifier::external_body]
pub struct Shortlist {
    items: SmallVec<[(u32, u8); 64]>,
}

/// The pairs of index and fitness that a short list holds, in the order
/// they were put in.
pub uninterp spec fn entries(list: Shortlist) -> Seq<(u32, u8)>;

/// `SmallVec::new`: a list that holds nothing.
#[verifier::external_body]
pub(crate) fn shortlist_new() -> (list: Shortlist)
    ensures
        entries(list) == Seq::<(u32, u8)>::empty(),
{
    Shortlist { items: SmallVec::new() }
}

/// `SmallVec::push`: the pair goes to the end of the list, and what was
/// there stays as it was. Asked for only while the list has room inline,
/// where `push` neither allocates nor fails.
#[verifier::external_body]
pub(crate) fn shortlist_push(list: &mut Shortlist, index: u32, fitness: u8)
    requires
        entries(*old(list)).len() < 64,
    ensures
        entries(*final(list)) == entries(*old(list)).push((index, fitness)),
{
    list.items.push((index, fitness))
}

/// `SmallVec::len`: the number of pairs in the list.
#[verifier::external_body]
pub(crate) fn shortlist_len(list: &Shortlist) -> (n: usize)
    ensures
        n == entries(*list).len(),
{
    list.items.len()
}

/// Indexing a `SmallVec`, which is indexing the slice of its items: the
/// pair at position `at`.
#[verifier::external_body]
pub(crate) fn shortlist_get(list: &Shortlist, at: usize) -> (pair: (u32, u8))
    requires
        at < entries(*list).len(),
    ensures
        pair == entries(*list)[at as int],
{
    list.items[at]
}

} // verus!

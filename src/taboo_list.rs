use vstd::prelude::*;
use linked_hash_set::LinkedHashSet;

verus! {

#[verifier::external_type_specification]
#[verifier::external_body]
#[verifier::reject_recursive_types(T)]
#[verifier::reject_recursive_types(S)]
pub struct ExLinkedHashSet<T, S>(LinkedHashSet<T, S>);

/// The moves held by a taboo list, oldest first.
pub uninterp spec fn taboo_contents(s: LinkedHashSet<(usize, usize)>) -> Seq<(usize, usize)>;

/// Relies on `LinkedHashSet::new`: the new set is empty.
#[verifier::external_body]
pub(crate) fn taboo_new() -> (r: LinkedHashSet<(usize, usize)>)
    ensures
        taboo_contents(r) == Seq::<(usize, usize)>::empty(),
{
    LinkedHashSet::new()
}

/// Relies on `LinkedHashSet::len`: the number of values held.
#[verifier::external_body]
pub(crate) fn taboo_len(s: &LinkedHashSet<(usize, usize)>) -> (r: usize)
    ensures
        r == taboo_contents(*s).len(),
{
    s.len()
}

/// Relies on `LinkedHashSet::contains`: whether the value is held.
#[verifier::external_body]
pub(crate) fn taboo_contains(s: &LinkedHashSet<(usize, usize)>, m: (usize, usize)) -> (r: bool)
    ensures
        r == taboo_contents(*s).contains(m),
{
    s.contains(&m)
}

/// Relies on `LinkedHashSet::insert`: the value goes to the back of the
/// order, moved there if it was held already; the result tells whether it was
/// new.
#[verifier::external_body]
pub(crate) fn taboo_insert(s: &mut LinkedHashSet<(usize, usize)>, m: (usize, usize)) -> (r: bool)
    ensures
        r == !taboo_contents(*old(s)).contains(m),
        r ==> taboo_contents(*final(s)) == taboo_contents(*old(s)).push(m),
        !r ==> exists|k: int|
            0 <= k < taboo_contents(*old(s)).len() && taboo_contents(*old(s))[k] == m
                && taboo_contents(*final(s)) == #[trigger] taboo_contents(*old(s)).remove(k).push(m),
{
    s.insert(m)
}

/// Relies on `LinkedHashSet::pop_front`: removes and returns the oldest value.
#[verifier::external_body]
pub(crate) fn taboo_pop_front(s: &mut LinkedHashSet<(usize, usize)>) -> (r: Option<(usize, usize)>)
    ensures
        taboo_contents(*old(s)).len() == 0 ==> r is None && taboo_contents(*final(s))
            == taboo_contents(*old(s)),
        taboo_contents(*old(s)).len() > 0 ==> r == Some(taboo_contents(*old(s))[0])
            && taboo_contents(*final(s)) == taboo_contents(*old(s)).drop_first(),
{
    s.pop_front()
}

/// Relies on `LinkedHashSet::clear`: no value is left.
#[verifier::external_body]
pub(crate) fn taboo_clear(s: &mut LinkedHashSet<(usize, usize)>)
    ensures
        taboo_contents(*final(s)) == Seq::<(usize, usize)>::empty(),
{
    s.clear()
}

/// Relies on `LinkedHashSet::iter`: the values in their order, oldest first.
#[verifier::external_body]
pub(crate) fn taboo_items(s: &LinkedHashSet<(usize, usize)>) -> (r: Vec<(usize, usize)>)
    ensures
        r@ == taboo_contents(*s),
{
    s.iter().copied().collect()
}

} // verus!

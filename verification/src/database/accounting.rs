//! What an entry costs, and what a store's entries cost together.

use super::value::ValueView;
use vstd::prelude::*;

verus! {

/// The size of a value's payload: the number of characters of a string, and
/// a fixed width for the other kinds.
pub open spec fn payload_size(value: ValueView) -> nat {
    match value {
        ValueView::Integer(_) => 4,
        ValueView::String(text) => text.len(),
        ValueView::Float(_) => 8,
        ValueView::Boolean(_) => 1,
    }
}

/// The size that an entry is accounted with: the number of characters of
/// its key plus the size of its payload.
pub open spec fn entry_size(key: Seq<char>, value: ValueView) -> nat {
    key.len() + payload_size(value)
}

/// The sum of the sizes of the entries of `m`.
pub open spec fn total_size(m: Map<Seq<char>, ValueView>) -> nat
    decreases m.dom().len(),
    when m.dom().finite()
{
    if m.dom().len() == 0 {
        0
    } else {
        let key = m.dom().choose();
        entry_size(key, m[key]) + total_size(m.remove(key))
    }
}

/// The empty store has size zero.
pub proof fn lemma_total_size_empty()
    ensures
        total_size(Map::<Seq<char>, ValueView>::empty()) == 0,
{
}

/// Any entry can be taken out of the sum: the total is that entry's size
/// plus the total of the others.
pub proof fn lemma_total_size_remove(m: Map<Seq<char>, ValueView>, key: Seq<char>)
    requires
        m.dom().finite(),
        m.contains_key(key),
    ensures
        total_size(m) == entry_size(key, m[key]) + total_size(m.remove(key)),
    decreases m.dom().len(),
{
    let chosen = m.dom().choose();
    if chosen != key {
        lemma_total_size_remove(m.remove(chosen), key);
        lemma_total_size_remove(m.remove(key), chosen);
        assert(m.remove(chosen).remove(key) =~= m.remove(key).remove(chosen));
    }
}

/// Writing an entry replaces what the key held before: the total is the new
/// entry's size plus the total of the entries under other keys.
pub proof fn lemma_total_size_insert(
    m: Map<Seq<char>, ValueView>,
    key: Seq<char>,
    value: ValueView,
)
    requires
        m.dom().finite(),
    ensures
        total_size(m.insert(key, value)) == entry_size(key, value) + total_size(m.remove(key)),
{
    lemma_total_size_remove(m.insert(key, value), key);
    assert(m.insert(key, value).remove(key) =~= m.remove(key));
}

} // verus!

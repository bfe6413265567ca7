//! Joining parts with a separator between them. Timings and rendered text
//! are both built this way, level by level.

use vstd::prelude::*;

verus! {

/// The parts one after another, each but the first preceded by `sep`.
/// Nothing precedes the first part and nothing follows the last, so the
/// result can itself be a part one level up.
pub open spec fn joined<T>(parts: Seq<Seq<T>>, sep: Seq<T>) -> Seq<T>
    decreases parts.len(),
{
    if parts.len() == 0 {
        Seq::empty()
    } else if parts.len() == 1 {
        parts[0]
    } else {
        joined(parts.drop_last(), sep) + sep + parts.last()
    }
}

/// One more part is set after the others, behind the separator unless it is
/// the first.
pub proof fn lemma_joined_push<T>(parts: Seq<Seq<T>>, part: Seq<T>, sep: Seq<T>)
    ensures
        joined(parts.push(part), sep) == if parts.len() == 0 {
            part
        } else {
            joined(parts, sep) + sep + part
        },
{
    assert(parts.push(part).drop_last() =~= parts);
}

/// The items one after another, with `sep` between each two of them.
pub open spec fn alternating<T>(items: Seq<T>, sep: T) -> Seq<T> {
    joined(items.map_values(|item: T| seq![item]), seq![sep])
}

/// Items set apart by a separator alternate with it: the items stand at
/// the even places, in order, and the separator at the odd places. The
/// first and the last place are even.
pub proof fn lemma_alternating<T>(items: Seq<T>, sep: T)
    requires
        items.len() > 0,
    ensures
        alternating(items, sep).len() == 2 * items.len() - 1,
        forall|i: int|
            0 <= i < 2 * items.len() - 1 ==> #[trigger] alternating(items, sep)[i] == if i % 2
                == 0 {
                items[i / 2]
            } else {
                sep
            },
    decreases items.len(),
{
    let parts = items.map_values(|item: T| seq![item]);
    if items.len() > 1 {
        lemma_alternating(items.drop_last(), sep);
        assert(parts.drop_last() =~= items.drop_last().map_values(|item: T| seq![item]));
    }
}

} // verus!

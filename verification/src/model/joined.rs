//! Sequences put one after the other, and where the entries of each are
//! found in the whole.

use vstd::prelude::*;

verus! {

/// The parts one after the other.
pub open spec fn joined(parts: Seq<Seq<usize>>) -> Seq<usize>
    decreases parts.len(),
{
    if parts.len() == 0 {
        Seq::empty()
    } else {
        joined(parts.drop_last()) + parts.last()
    }
}

/// The place in the whole where part `k` begins.
pub open spec fn part_start(parts: Seq<Seq<usize>>, k: int) -> int {
    joined(parts.take(k)).len() as int
}

/// The first `k` parts, one after the other, are the start of the whole.
pub proof fn lemma_parts_are_prefix(parts: Seq<Seq<usize>>, k: int)
    requires
        0 <= k <= parts.len(),
    ensures
        part_start(parts, k) <= joined(parts).len(),
        joined(parts.take(k)) == joined(parts).take(part_start(parts, k)),
    decreases parts.len() - k,
{
    if k == parts.len() {
        assert(parts.take(k) =~= parts);
        assert(joined(parts).take(joined(parts).len() as int) =~= joined(parts));
    } else {
        lemma_parts_are_prefix(parts, k + 1);
        assert(parts.take(k + 1).drop_last() =~= parts.take(k));
        assert(parts.take(k + 1).last() == parts[k]);
        let longer = joined(parts.take(k + 1));
        assert(longer == joined(parts.take(k)) + parts[k]);
        assert(joined(parts.take(k)) =~= longer.take(part_start(parts, k)));
        assert(longer.take(part_start(parts, k)) =~= joined(parts).take(
            part_start(parts, k),
        ));
    }
}

/// Part `k + 1` begins where part `k` ends, and entry `p` of part `k` is
/// the entry of the whole at the place `p` behind the start of the part.
pub proof fn lemma_part_entry(parts: Seq<Seq<usize>>, k: int, p: int)
    requires
        0 <= k < parts.len(),
        0 <= p < parts[k].len(),
    ensures
        part_start(parts, k + 1) == part_start(parts, k) + parts[k].len(),
        0 <= part_start(parts, k) + p < joined(parts).len(),
        joined(parts)[part_start(parts, k) + p] == parts[k][p],
{
    lemma_parts_are_prefix(parts, k + 1);
    assert(parts.take(k + 1).drop_last() =~= parts.take(k));
    assert(parts.take(k + 1).last() == parts[k]);
    let longer = joined(parts.take(k + 1));
    assert(longer == joined(parts.take(k)) + parts[k]);
    assert(longer[part_start(parts, k) + p] == parts[k][p]);
    assert(joined(parts).take(part_start(parts, k + 1))[part_start(parts, k) + p]
        == joined(parts)[part_start(parts, k) + p]);
}

/// The parts begin in increasing order: a part ends before a later part
/// begins.
pub proof fn lemma_part_starts_grow(parts: Seq<Seq<usize>>, k: int, l: int)
    requires
        0 <= k < l <= parts.len(),
    ensures
        part_start(parts, k) + parts[k].len() <= part_start(parts, l),
    decreases l - k,
{
    assert(parts.take(k + 1).drop_last() =~= parts.take(k));
    assert(parts.take(k + 1).last() == parts[k]);
    if k + 1 < l {
        lemma_part_starts_grow(parts, k + 1, l);
    }
}

/// The part and the place in it of entry `t` of the whole.
pub open spec fn part_of(parts: Seq<Seq<usize>>, t: int) -> (int, int)
    decreases parts.len(),
{
    if parts.len() == 0 {
        (0, 0)
    } else if t >= joined(parts.drop_last()).len() {
        (parts.len() - 1, t - joined(parts.drop_last()).len())
    } else {
        part_of(parts.drop_last(), t)
    }
}

/// Each entry of the whole is an entry of one of the parts.
pub proof fn lemma_part_of(parts: Seq<Seq<usize>>, t: int)
    requires
        0 <= t < joined(parts).len(),
    ensures
        0 <= part_of(parts, t).0 < parts.len(),
        0 <= part_of(parts, t).1 < parts[part_of(parts, t).0].len(),
        part_start(parts, part_of(parts, t).0) + part_of(parts, t).1 == t,
        parts[part_of(parts, t).0][part_of(parts, t).1] == joined(parts)[t],
    decreases parts.len(),
{
    if parts.len() > 0 {
        let head = parts.drop_last();
        assert(parts.take(parts.len() - 1) =~= head);
        if t >= joined(head).len() {
        } else {
            lemma_part_of(head, t);
            let (k, p) = part_of(head, t);
            assert(head.take(k) =~= parts.take(k));
            assert(head[k] == parts[k]);
        }
    }
}

} // verus!

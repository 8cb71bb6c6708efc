use vstd::prelude::*;

verus! {

broadcast use vstd::seq_lib::group_to_multiset_ensures;

/// Key under which unsigned comparison of two binary64 bit patterns follows
/// IEEE-754 `totalOrder`: negative values have every bit flipped, the others
/// get the sign bit set.
pub open spec fn total_order_key(bits: u64) -> u64 {
    if bits >> 63u64 == 1 {
        !bits
    } else {
        bits | 0x8000_0000_0000_0000u64
    }
}

/// The bit patterns in `s` stand in ascending total order.
pub open spec fn is_sorted_by_total_order(s: Seq<u64>) -> bool {
    forall|i: int, j: int|
        0 <= i <= j < s.len() ==> total_order_key(#[trigger] s[i]) <= total_order_key(
            #[trigger] s[j],
        )
}

/// Computes the ordering key of a binary64 bit pattern.
pub fn order_key(bits: u64) -> (r: u64)
    ensures
        r == total_order_key(bits),
{
    if bits >> 63u64 == 1 {
        !bits
    } else {
        bits | 0x8000_0000_0000_0000u64
    }
}

/// Sorts binary64 bit patterns into ascending total order, keeping every
/// value with its multiplicity.
pub fn sort_by_total_order(values: &mut Vec<u64>)
    ensures
        final(values)@.to_multiset() == old(values)@.to_multiset(),
        is_sorted_by_total_order(final(values)@),
{
    let mut sorted: Vec<u64> = Vec::with_capacity(values.len());
    let mut i: usize = 0;
    while i < values.len()
        invariant
            i <= values.len(),
            sorted@.to_multiset() == values@.subrange(0, i as int).to_multiset(),
            is_sorted_by_total_order(sorted@),
        decreases values.len() - i,
    {
        let x = values[i];
        let kx = order_key(x);
        let mut pos: usize = 0;
        while pos < sorted.len() && order_key(sorted[pos]) <= kx
            invariant
                pos <= sorted.len(),
                kx == total_order_key(x),
                is_sorted_by_total_order(sorted@),
                forall|k: int| 0 <= k < pos ==> total_order_key(#[trigger] sorted@[k]) <= kx,
            decreases sorted.len() - pos,
        {
            pos = pos + 1;
        }
        let ghost before = sorted@;
        sorted.insert(pos, x);
        proof {
            assert(values@.subrange(0, i + 1) =~= values@.subrange(0, i as int).push(x));
            assert(sorted@ =~= before.insert(pos as int, x));
            assert forall|a: int, b: int| 0 <= a <= b < sorted@.len() implies total_order_key(
                #[trigger] sorted@[a],
            ) <= total_order_key(#[trigger] sorted@[b]) by {
                if a < pos && b > pos {
                    assert(sorted@[b] == before[b - 1]);
                } else if a > pos {
                    assert(sorted@[a] == before[a - 1]);
                    assert(sorted@[b] == before[b - 1]);
                } else if b < pos {
                } else if a == pos && b > pos {
                    assert(sorted@[b] == before[b - 1]);
                    assert(pos < before.len());
                    assert(total_order_key(before[pos as int]) > kx);
                }
            }
        }
        i = i + 1;
    }
    proof {
        assert(values@.subrange(0, values@.len() as int) =~= values@);
    }
    *values = sorted;
}

} // verus!

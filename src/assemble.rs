use vstd::prelude::*;
use crate::confirm::DuplicateGroup;
use vstd::multiset::Multiset;

verus! {

broadcast use vstd::seq_lib::group_to_multiset_ensures;

/// The value that groups are ordered by: the member count, or the size of
/// each member file.
pub open spec fn order_key(g: DuplicateGroup, by_count: bool) -> int {
    if by_count {
        g.members@.len() as int
    } else {
        g.size as int
    }
}

/// Whether the keys never increase along `gs`.
pub open spec fn is_descending(gs: Seq<DuplicateGroup>, by_count: bool) -> bool {
    forall|a: int, b: int|
        0 <= a < b < gs.len() ==> order_key(#[trigger] gs[a], by_count) >= order_key(
            #[trigger] gs[b],
            by_count,
        )
}

/// `idx` places each group of `output` at its position in `input`, no
/// position twice, and groups with equal keys keep their input order.
pub open spec fn is_stable_arrangement(
    input: Seq<DuplicateGroup>,
    output: Seq<DuplicateGroup>,
    idx: Seq<int>,
    by_count: bool,
) -> bool {
    &&& idx.len() == output.len()
    &&& forall|k: int|
        0 <= k < output.len() ==> 0 <= #[trigger] idx[k] < input.len() && output[k]
            == input[idx[k]]
    &&& forall|a: int, b: int|
        0 <= a < b < output.len() ==> #[trigger] idx[a] != #[trigger] idx[b] && (order_key(
            output[a],
            by_count,
        ) == order_key(output[b], by_count) ==> idx[a] < idx[b])
}

fn group_key(g: &DuplicateGroup, by_count: bool) -> (r: u64)
    ensures
        r as int == order_key(*g, by_count),
{
    if by_count {
        g.members.len() as u64
    } else {
        g.size
    }
}

/// Orders the groups by descending key: by member count when `by_count`,
/// else by file size. Groups with equal keys keep their relative order.
pub fn sort_groups(groups: Vec<DuplicateGroup>, by_count: bool) -> (r: Vec<DuplicateGroup>)
    ensures
        r@.to_multiset() == groups@.to_multiset(),
        is_descending(r@, by_count),
        exists|idx: Seq<int>| is_stable_arrangement(groups@, r@, idx, by_count),
{
    let ghost orig = groups@;
    let mut rest = groups;
    let mut out: Vec<DuplicateGroup> = Vec::new();
    let ghost mut idx: Seq<int> = Seq::empty();
    while rest.len() > 0
        invariant
            out@.to_multiset().add(rest@.to_multiset()) == orig.to_multiset(),
            is_descending(out@, by_count),
            rest@ == orig.take(rest@.len() as int),
            rest@.len() <= orig.len(),
            is_stable_arrangement(orig, out@, idx, by_count),
            forall|k: int| 0 <= k < idx.len() ==> #[trigger] idx[k] >= rest@.len(),
        decreases rest@.len(),
    {
        let ghost before = rest@;
        let g = rest.pop().unwrap();
        assert(before =~= rest@.push(g));
        let ghost c = rest@.len() as int;
        assert(g == orig[c]);
        assert(rest@ =~= orig.take(c));
        let k = group_key(&g, by_count);
        let mut p: usize = 0;
        while p < out.len() && group_key(&out[p], by_count) > k
            invariant
                p <= out@.len(),
                forall|q: int| 0 <= q < p ==> order_key(#[trigger] out@[q], by_count) > k,
            decreases out@.len() - p,
        {
            p = p + 1;
        }
        let ghost old_out = out@;
        let ghost old_idx = idx;
        out.insert(p, g);
        proof {
            idx = old_idx.insert(p as int, c);
            assert forall|k: int| 0 <= k < out@.len() implies 0 <= #[trigger] idx[k] < orig.len()
                && out@[k] == orig[idx[k]] by {
                if k < p {
                    assert(idx[k] == old_idx[k] && out@[k] == old_out[k]);
                } else if k > p {
                    assert(idx[k] == old_idx[k - 1] && out@[k] == old_out[k - 1]);
                }
            }
            assert forall|a: int, b: int| 0 <= a < b < out@.len() implies #[trigger] idx[a]
                != #[trigger] idx[b] && (order_key(out@[a], by_count) == order_key(
                out@[b],
                by_count,
            ) ==> idx[a] < idx[b]) by {
                if b < p {
                    assert(idx[a] == old_idx[a] && idx[b] == old_idx[b]);
                    assert(out@[a] == old_out[a] && out@[b] == old_out[b]);
                } else if b == p {
                    assert(idx[a] == old_idx[a] && out@[a] == old_out[a]);
                    assert(old_idx[a] >= c + 1);
                } else if a < p {
                    assert(idx[a] == old_idx[a] && idx[b] == old_idx[b - 1]);
                    assert(out@[a] == old_out[a] && out@[b] == old_out[b - 1]);
                } else if a == p {
                    assert(idx[b] == old_idx[b - 1]);
                    assert(old_idx[b - 1] >= c + 1);
                } else {
                    assert(idx[a] == old_idx[a - 1] && idx[b] == old_idx[b - 1]);
                    assert(out@[a] == old_out[a - 1] && out@[b] == old_out[b - 1]);
                }
            }
            assert forall|k: int| 0 <= k < idx.len() implies #[trigger] idx[k] >= c by {
                if k < p {
                    assert(idx[k] == old_idx[k]);
                } else if k > p {
                    assert(idx[k] == old_idx[k - 1]);
                }
            }
            assert(out@ == old_out.insert(p as int, g));
            vstd::seq_lib::to_multiset_insert(old_out, p as int, g);
            assert forall|a: int, b: int| 0 <= a < b < out@.len() implies order_key(
                #[trigger] out@[a],
                by_count,
            ) >= order_key(#[trigger] out@[b], by_count) by {
                if b < p {
                    assert(out@[a] == old_out[a] && out@[b] == old_out[b]);
                } else if b == p {
                    assert(out@[a] == old_out[a]);
                } else if a < p {
                    assert(out@[a] == old_out[a] && out@[b] == old_out[b - 1]);
                } else if a == p {
                    assert(out@[b] == old_out[b - 1]);
                    assert(order_key(old_out[p as int], by_count) <= k);
                } else {
                    assert(out@[a] == old_out[a - 1] && out@[b] == old_out[b - 1]);
                }
            }
        }
    }
    assert(rest@.to_multiset() =~= Multiset::empty());
    assert(is_stable_arrangement(orig, out@, idx, by_count));
    out
}

} // verus!

use vstd::prelude::*;

use crate::partition::Partition;

verus! {

/// How many events one partition label holds.
#[derive(Clone, Debug)]
pub struct CountEntry {
    pub label: String,
    pub count: usize,
}

/// One entry per partition, in partition order: its label and its size.
pub fn count_entries(parts: &Vec<Partition>) -> (r: Vec<CountEntry>)
    ensures
        r.len() == parts.len(),
        forall|i: int|
            0 <= i < r.len() ==> (#[trigger] r@[i]).label@ == parts@[i].label@ && r@[i].count
                == parts@[i].events.len(),
{
    let mut out: Vec<CountEntry> = Vec::new();
    let mut i: usize = 0;
    while i < parts.len()
        invariant
            0 <= i <= parts.len(),
            out.len() == i,
            forall|j: int|
                0 <= j < i ==> (#[trigger] out@[j]).label@ == parts@[j].label@ && out@[j].count
                    == parts@[j].events.len(),
        decreases parts.len() - i,
    {
        out.push(CountEntry { label: parts[i].label.clone(), count: parts[i].events.len() });
        i += 1;
    }
    out
}

/// Entry `i` of `s` is listed before entry `j`: it has the larger count, or
/// the same count and was added later.
pub open spec fn ranks_before(s: Seq<CountEntry>, i: int, j: int) -> bool {
    s[i].count > s[j].count || (s[i].count == s[j].count && i > j)
}

/// `r` lists the entries of `s` in the order that `p` gives: `r[k]` is
/// `s[p[k]]`, every entry appears, and each is listed before those after it.
pub open spec fn ranking_by(s: Seq<CountEntry>, r: Seq<CountEntry>, p: Seq<int>) -> bool {
    &&& r.len() == s.len()
    &&& p.len() == s.len()
    &&& forall|k: int| 0 <= k < p.len() ==> 0 <= #[trigger] p[k] < s.len() && r[k] == s[p[k]]
    &&& forall|i: int| 0 <= i < s.len() ==> #[trigger] p.contains(i)
    &&& forall|k: int, l: int| 0 <= k < l < p.len() ==> ranks_before(s, #[trigger] p[k], #[trigger] p[l])
}

/// `r` is `s` sorted stably by ascending count and then reversed as a whole:
/// descending counts, and among equal counts the later-added entry first.
pub open spec fn is_ranking(s: Seq<CountEntry>, r: Seq<CountEntry>) -> bool {
    exists|p: Seq<int>| ranking_by(s, r, p)
}

/// Ranks the entries by count, largest first; of equal counts the one added
/// later comes first.
pub fn rank_counts(entries: Vec<CountEntry>) -> (r: Vec<CountEntry>)
    ensures
        is_ranking(entries@, r@),
{
    let ghost s = entries@;
    let mut rest = entries;
    let mut out: Vec<CountEntry> = Vec::new();
    let ghost mut p: Seq<int> = Seq::empty();
    while rest.len() > 0
        invariant
            rest@ == s.take(rest.len() as int),
            rest.len() <= s.len(),
            out.len() == s.len() - rest.len(),
            p.len() == out.len(),
            forall|k: int|
                0 <= k < p.len() ==> rest.len() <= #[trigger] p[k] < s.len() && out@[k] == s[p[k]],
            forall|i: int| rest.len() <= i < s.len() ==> #[trigger] p.contains(i),
            forall|k: int, l: int|
                0 <= k < l < p.len() ==> ranks_before(s, #[trigger] p[k], #[trigger] p[l]),
        decreases rest.len(),
    {
        let ghost m = rest.len() - 1;
        let x = rest.pop().unwrap();
        assert(x == s[m]);
        assert(rest@ == s.take(m));
        let mut pos: usize = 0;
        while pos < out.len() && out[pos].count >= x.count
            invariant
                0 <= pos <= out.len(),
                forall|k: int| 0 <= k < pos ==> (#[trigger] out@[k]).count >= x.count,
            decreases out.len() - pos,
        {
            pos += 1;
        }
        proof {
            assert forall|k: int| pos <= k < out.len() implies (#[trigger] out@[k]).count
                < x.count by {
                if k > pos {
                    assert(ranks_before(s, p[pos as int], p[k]));
                }
            }
        }
        let ghost old_p = p;
        let ghost old_out = out@;
        out.insert(pos, x);
        proof {
            p = p.insert(pos as int, m);
            assert forall|i: int| m <= i < s.len() implies #[trigger] p.contains(i) by {
                if i == m {
                    assert(p[pos as int] == m);
                } else {
                    assert(old_p.contains(i));
                    let k = choose|k: int| 0 <= k < old_p.len() && old_p[k] == i;
                    if k < pos {
                        assert(p[k] == i);
                    } else {
                        assert(p[k + 1] == i);
                    }
                }
            }
            assert forall|k: int, l: int| 0 <= k < l < p.len() implies ranks_before(
                s,
                #[trigger] p[k],
                #[trigger] p[l],
            ) by {
                if k < pos && l < pos {
                    assert(ranks_before(s, old_p[k], old_p[l]));
                } else if k < pos && l == pos {
                    assert(old_out[k] == s[old_p[k]]);
                } else if k < pos {
                    assert(ranks_before(s, old_p[k], old_p[l - 1]));
                } else if k == pos {
                    assert(old_out[l - 1] == s[old_p[l - 1]]);
                } else {
                    assert(ranks_before(s, old_p[k - 1], old_p[l - 1]));
                }
            }
        }
    }
    assert(ranking_by(s, out@, p));
    assert(is_ranking(s, out@));
    out
}

/// In a ranking the counts never increase from one entry to the next.
pub proof fn lemma_ranking_descends(s: Seq<CountEntry>, r: Seq<CountEntry>)
    requires
        is_ranking(s, r),
    ensures
        forall|k: int, l: int| 0 <= k < l < r.len() ==> (#[trigger] r[k]).count >= (#[trigger] r[l]).count,
{
    let p = choose|p: Seq<int>| ranking_by(s, r, p);
    assert forall|k: int, l: int| 0 <= k < l < r.len() implies (#[trigger] r[k]).count >= (
    #[trigger] r[l]).count by {
        assert(ranks_before(s, p[k], p[l]));
    }
}

proof fn lemma_orders_agree(s: Seq<CountEntry>, r1: Seq<CountEntry>, p1: Seq<int>, r2: Seq<CountEntry>, p2: Seq<int>, n: int)
    requires
        ranking_by(s, r1, p1),
        ranking_by(s, r2, p2),
        0 <= n <= s.len(),
    ensures
        forall|k: int| 0 <= k < n ==> p1[k] == p2[k],
    decreases n,
{
    if n > 0 {
        let k = n - 1;
        lemma_orders_agree(s, r1, p1, r2, p2, k);
        let a = p1[k];
        let b = p2[k];
        if a != b {
            assert(p1.contains(b));
            let m1 = choose|m: int| 0 <= m < p1.len() && p1[m] == b;
            assert(p2.contains(a));
            let m2 = choose|m: int| 0 <= m < p2.len() && p2[m] == a;
            if m1 < k {
                assert(p2[m1] == b);
                assert(ranks_before(s, p2[m1], p2[k]));
            }
            if m2 < k {
                assert(p1[m2] == a);
                assert(ranks_before(s, p1[m2], p1[k]));
            }
            assert(ranks_before(s, p1[k], p1[m1]));
            assert(ranks_before(s, p2[k], p2[m2]));
        }
    }
}

/// Ranking is deterministic: the same entries admit exactly one ranking.
pub proof fn lemma_ranking_unique(s: Seq<CountEntry>, r1: Seq<CountEntry>, r2: Seq<CountEntry>)
    requires
        is_ranking(s, r1),
        is_ranking(s, r2),
    ensures
        r1 == r2,
{
    let p1 = choose|p: Seq<int>| ranking_by(s, r1, p);
    let p2 = choose|p: Seq<int>| ranking_by(s, r2, p);
    lemma_orders_agree(s, r1, p1, r2, p2, s.len() as int);
    assert forall|k: int| 0 <= k < r1.len() implies r1[k] == r2[k] by {
        assert(p1[k] == p2[k]);
    }
    assert(r1 =~= r2);
}

} // verus!

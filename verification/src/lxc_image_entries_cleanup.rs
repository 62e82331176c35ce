//! The retention step: grouping scanned image entries by their group key,
//! deciding which entries of an oversized group to remove, and confining
//! every removal to the published subtree.

use vstd::prelude::*;

use crate::lxc_image_metadata::LXCImageMetadata;
use crate::text::split_char;
use crate::text::split_str;
use crate::text::str_eq;
use crate::text::views_of;

verus! {

broadcast use vstd::seq_lib::group_to_multiset_ensures, vstd::seq_lib::group_filter_ensures;

/// One scanned image: its record and the modification time of its
/// directory, as a duration since a fixed epoch.
pub type ImageEntry = (LXCImageMetadata, u128);

/// The retention group key: images sharing it age against each other.
pub open spec fn group_key(m: LXCImageMetadata) -> (Seq<char>, Seq<char>, Seq<char>, Seq<char>) {
    (m.dist@, m.release@, m.arch@, m.type_@)
}

/// Whether two records fall into the same retention group.
pub fn same_group(a: &LXCImageMetadata, b: &LXCImageMetadata) -> (r: bool)
    ensures
        r == (group_key(*a) == group_key(*b)),
{
    let r = str_eq(a.dist.as_str(), b.dist.as_str()) && str_eq(
        a.release.as_str(),
        b.release.as_str(),
    ) && str_eq(a.arch.as_str(), b.arch.as_str()) && str_eq(a.type_.as_str(), b.type_.as_str());
    proof {
        if r {
            assert(group_key(*a) == group_key(*b));
        } else {
            assert(group_key(*a) != group_key(*b));
        }
    }
    r
}

fn clone_entry(e: &ImageEntry) -> (r: ImageEntry)
    ensures
        r == *e,
{
    (e.0.clone(), e.1)
}

proof fn lemma_filter_singleton<A>(x: A, pred: spec_fn(A) -> bool)
    ensures
        seq![x].filter(pred) == if pred(x) {
            seq![x]
        } else {
            Seq::<A>::empty()
        },
{
    reveal_with_fuel(Seq::filter, 2);
    assert(seq![x].drop_last() =~= Seq::<A>::empty());
    assert(seq![x].last() == x);
    if pred(x) {
        assert(seq![x].filter(pred) =~= seq![x]);
    } else {
        assert(seq![x].filter(pred) =~= Seq::<A>::empty());
    }
}

/// The entries of `es` whose record has group key `k`, in input order.
pub open spec fn entries_with_key(
    es: Seq<ImageEntry>,
    k: (Seq<char>, Seq<char>, Seq<char>, Seq<char>),
) -> Seq<ImageEntry> {
    es.filter(|e: ImageEntry| group_key(e.0) == k)
}

/// Ascending modification-time order.
pub open spec fn sorted_by_mtime(s: Seq<ImageEntry>) -> bool {
    forall|i: int, j: int| 0 <= i <= j < s.len() ==> s[i].1 <= s[j].1
}

/// Reorders the entries ascending by modification time; the entries
/// themselves are kept exactly.
pub fn sort_entries_by_mtime(v: Vec<ImageEntry>) -> (r: Vec<ImageEntry>)
    ensures
        r@.to_multiset() == v@.to_multiset(),
        sorted_by_mtime(r@),
        r@.len() == v@.len(),
{
    let ghost orig = v@;
    let mut src = v;
    let mut out: Vec<ImageEntry> = Vec::new();
    while src.len() > 0
        invariant
            out@.to_multiset().add(src@.to_multiset()) == orig.to_multiset(),
            out@.len() + src@.len() == orig.len(),
            sorted_by_mtime(out@),
        decreases src.len(),
    {
        let ghost src0 = src@;
        let e = src.pop().unwrap();
        proof {
            assert(src0 =~= src@.push(e));
            assert(src0.to_multiset() == src@.to_multiset().insert(e));
        }
        let mut p: usize = 0;
        while p < out.len() && out[p].1 <= e.1
            invariant
                0 <= p <= out@.len(),
                forall|i: int| 0 <= i < p ==> out@[i].1 <= e.1,
                sorted_by_mtime(out@),
            decreases out.len() - p,
        {
            p = p + 1;
        }
        let ghost out0 = out@;
        out.insert(p, e);
        proof {
            assert(out@ == out0.insert(p as int, e));
            assert forall|i: int, j: int| 0 <= i <= j < out@.len() implies out@[i].1
                <= out@[j].1 by {
                if p < out0.len() {
                    assert(out0[p as int].1 > e.1);
                }
            }
            assert(out@.to_multiset().add(src@.to_multiset()) =~= orig.to_multiset());
        }
    }
    proof {
        assert(out@.to_multiset().add(src@.to_multiset()) =~= out@.to_multiset());
    }
    out
}

/// The decision the evictor takes for one retention group: which of its
/// entries go, and which stay.
pub struct EvictionGroup {
    pub removed: Vec<ImageEntry>,
    pub retained: Vec<ImageEntry>,
}

/// All entries of a group's decision, removed first.
pub open spec fn group_members(g: EvictionGroup) -> Seq<ImageEntry> {
    g.removed@ + g.retained@
}

/// The group key a decision is about.
pub open spec fn group_key_of(g: EvictionGroup) -> (Seq<char>, Seq<char>, Seq<char>, Seq<char>) {
    group_key(group_members(g)[0].0)
}

/// What the evictor guarantees of one group's decision, against the scanned
/// entries `es` and the retention count `keep`: the decision covers exactly
/// the group's entries; a group within the count loses nothing; an
/// oversized group retains exactly `keep` entries; and nothing removed is
/// newer than anything retained.
pub open spec fn eviction_group_ok(g: EvictionGroup, es: Seq<ImageEntry>, keep: int) -> bool {
    let members = group_members(g);
    &&& members.len() > 0
    &&& members.to_multiset() == entries_with_key(es, group_key_of(g)).to_multiset()
    &&& (members.len() <= keep ==> g.removed@.len() == 0)
    &&& (members.len() > keep ==> g.retained@.len() == keep && g.removed@.len() == members.len()
        - keep)
    &&& forall|i: int, j: int|
        0 <= i < g.removed@.len() && 0 <= j < g.retained@.len() ==> g.removed@[i].1
            <= g.retained@[j].1
}

/// Whether some decision of `gs` is about `m`'s group key.
pub open spec fn plan_covers(gs: Seq<EvictionGroup>, m: LXCImageMetadata) -> bool {
    exists|gi: int| 0 <= gi < gs.len() && group_key_of(#[trigger] gs[gi]) == group_key(m)
}

/// Whether some record of `rs` shares `m`'s group key.
spec fn key_covered(rs: Seq<LXCImageMetadata>, m: LXCImageMetadata) -> bool {
    exists|a: int| 0 <= a < rs.len() && group_key(#[trigger] rs[a]) == group_key(m)
}

/// Whether some entry of `es` carries the group key `k`.
spec fn key_occurs(
    es: Seq<ImageEntry>,
    k: (Seq<char>, Seq<char>, Seq<char>, Seq<char>),
) -> bool {
    exists|j: int| 0 <= j < es.len() && group_key((#[trigger] es[j]).0) == k
}

/// Splits the scanned entries into per-group eviction decisions: every
/// group with more than `keep` entries marks its oldest entries for
/// removal, every other group is left whole. Every scanned entry appears in
/// exactly one decision.
#[verifier::rlimit(50)]
pub fn eviction_plan(image_entries: &Vec<ImageEntry>, keep: usize) -> (gs: Vec<EvictionGroup>)
    ensures
        forall|gi: int|
            0 <= gi < gs@.len() ==> eviction_group_ok(
                #[trigger] gs@[gi],
                image_entries@,
                keep as int,
            ),
        forall|gi: int, gj: int|
            0 <= gi < gj < gs@.len() ==> group_key_of(gs@[gi]) != group_key_of(gs@[gj]),
        forall|i: int|
            0 <= i < image_entries@.len() ==> plan_covers(gs@, (#[trigger] image_entries@[i]).0),
{
    let n = image_entries.len();
    let mut reps: Vec<LXCImageMetadata> = Vec::new();
    let mut i: usize = 0;
    while i < n
        invariant
            n == image_entries@.len(),
            0 <= i <= n,
            forall|a: int, b: int|
                0 <= a < b < reps@.len() ==> group_key(reps@[a]) != group_key(reps@[b]),
            forall|j: int| 0 <= j < i ==> key_covered(reps@, (#[trigger] image_entries@[j]).0),
            forall|a: int|
                0 <= a < reps@.len() ==> key_occurs(image_entries@, group_key(#[trigger] reps@[a])),
        decreases n - i,
    {
        let mut found = false;
        let mut a: usize = 0;
        while a < reps.len() && !found
            invariant
                0 <= a <= reps@.len(),
                found ==> a > 0 && group_key(reps@[a - 1]) == group_key(image_entries@[i as int].0),
                !found ==> forall|b: int|
                    0 <= b < a ==> group_key(#[trigger] reps@[b]) != group_key(
                        image_entries@[i as int].0,
                    ),
                i < n == image_entries@.len(),
            decreases reps.len() - a,
        {
            if same_group(&reps[a], &image_entries[i].0) {
                found = true;
            }
            a = a + 1;
        }
        let ghost reps0 = reps@;
        if !found {
            reps.push(image_entries[i].0.clone());
        }
        proof {
            assert forall|j: int| 0 <= j < i + 1 implies key_covered(
                reps@,
                (#[trigger] image_entries@[j]).0,
            ) by {
                if j < i {
                    let a0 = choose|x: int|
                        0 <= x < reps0.len() && group_key(#[trigger] reps0[x]) == group_key(
                            image_entries@[j].0,
                        );
                    assert(reps@[a0] == reps0[a0]);
                    assert(group_key(reps@[a0]) == group_key(image_entries@[j].0));
                } else {
                    if found {
                        assert(group_key(reps@[a - 1]) == group_key(image_entries@[j].0));
                    } else {
                        assert(group_key(reps@[reps@.len() - 1]) == group_key(
                            image_entries@[j].0,
                        ));
                    }
                }
            }
            assert forall|x: int| 0 <= x < reps@.len() implies key_occurs(
                image_entries@,
                group_key(#[trigger] reps@[x]),
            ) by {
                if x < reps0.len() {
                    assert(reps@[x] == reps0[x]);
                } else {
                    assert(group_key((image_entries@[i as int]).0) == group_key(reps@[x]));
                }
            }
        }
        i = i + 1;
    }
    let ghost reps_final = reps@;
    let mut gs: Vec<EvictionGroup> = Vec::new();
    let mut a: usize = 0;
    while a < reps.len()
        invariant
            n == image_entries@.len(),
            0 <= a <= reps@.len(),
            reps@ == reps_final,
            forall|x: int, y: int|
                0 <= x < y < reps@.len() ==> group_key(reps@[x]) != group_key(reps@[y]),
            forall|x: int|
                0 <= x < reps@.len() ==> key_occurs(image_entries@, group_key(#[trigger] reps@[x])),
            forall|j: int| 0 <= j < n ==> key_covered(reps@, (#[trigger] image_entries@[j]).0),
            gs@.len() == a,
            forall|x: int|
                0 <= x < a ==> eviction_group_ok(#[trigger] gs@[x], image_entries@, keep as int),
            forall|x: int| 0 <= x < a ==> group_key_of(#[trigger] gs@[x]) == group_key(reps@[x]),
        decreases reps.len() - a,
    {
        let ghost key = group_key(reps@[a as int]);
        let ghost pred = |e: ImageEntry| group_key(e.0) == key;
        let mut members: Vec<ImageEntry> = Vec::new();
        let mut j: usize = 0;
        proof {
            reveal(Seq::filter);
            assert(image_entries@.take(0) =~= Seq::<ImageEntry>::empty());
            assert(image_entries@.take(0).filter(pred) =~= Seq::<ImageEntry>::empty());
        }
        while j < n
            invariant
                n == image_entries@.len(),
                0 <= j <= n,
                a < reps@.len(),
                key == group_key(reps@[a as int]),
                pred == (|e: ImageEntry| group_key(e.0) == key),
                members@ == image_entries@.take(j as int).filter(pred),
            decreases n - j,
        {
            let ghost taken = image_entries@.take(j as int);
            if same_group(&image_entries[j].0, &reps[a]) {
                members.push(clone_entry(&image_entries[j]));
            }
            proof {
                let one = seq![image_entries@[j as int]];
                assert(image_entries@.take(j + 1) =~= taken + one);
                Seq::<ImageEntry>::filter_distributes_over_add(taken, one, pred);
                lemma_filter_singleton(image_entries@[j as int], pred);
                assert(members@ =~= image_entries@.take(j + 1).filter(pred));
            }
            j = j + 1;
        }
        proof {
            assert(image_entries@.take(n as int) =~= image_entries@);
        }
        let ghost members_seq = image_entries@.filter(pred);
        let m_len = members.len();
        proof {
            let wj = choose|wj: int|
                0 <= wj < n && group_key((#[trigger] image_entries@[wj]).0) == key;
            assert(pred(image_entries@[wj]));
            assert(members_seq.contains(image_entries@[wj]));
            assert(m_len > 0);
        }
        let g = if m_len <= keep {
            EvictionGroup { removed: Vec::new(), retained: members }
        } else {
            let mut sorted = sort_entries_by_mtime(members);
            let ghost sorted0 = sorted@;
            let retained = sorted.split_off(m_len - keep);
            proof {
                assert(sorted0 =~= sorted@ + retained@);
                vstd::seq_lib::lemma_multiset_commutative(sorted@, retained@);
            }
            EvictionGroup { removed: sorted, retained }
        };
        proof {
            assert(group_members(g).to_multiset() == members_seq.to_multiset());
            assert(group_members(g).len() == members_seq.len());
            assert(group_members(g).len() == m_len);
            assert(group_members(g).to_multiset().contains(group_members(g)[0]));
            assert(members_seq.contains(group_members(g)[0]));
            let wi = choose|wi: int|
                0 <= wi < members_seq.len() && members_seq[wi] == group_members(g)[0];
            assert(pred(members_seq[wi]));
            assert(group_key_of(g) == key);
            assert(eviction_group_ok(g, image_entries@, keep as int));
        }
        gs.push(g);
        a = a + 1;
    }
    proof {
        assert forall|i: int| 0 <= i < image_entries@.len() implies plan_covers(
            gs@,
            (#[trigger] image_entries@[i]).0,
        ) by {
            assert(key_covered(reps_final, image_entries@[i].0));
            let x = choose|x: int|
                0 <= x < reps_final.len() && group_key(#[trigger] reps_final[x]) == group_key(
                    image_entries@[i].0,
                );
            assert(group_key_of(gs@[x]) == group_key(image_entries@[i].0));
        }
    }
    gs
}

/// A sequence of path segments: the non-empty parts between slashes.
pub open spec fn path_segments(p: Seq<char>) -> Seq<Seq<char>> {
    split_char(p, '/').filter(|s: Seq<char>| s.len() > 0)
}

/// Whether `p` lies under `root`, segment by segment: deletion is allowed
/// only for such paths. Both paths are expected in canonical form, which
/// the caller establishes.
pub open spec fn path_under(root: Seq<char>, p: Seq<char>) -> bool {
    path_segments(root).len() <= path_segments(p).len() && path_segments(p).take(
        path_segments(root).len() as int,
    ) == path_segments(root)
}

/// The non-empty path segments, as `path_segments` describes.
pub fn nonempty_segments(p: &str) -> (segs: Vec<String>)
    ensures
        views_of(segs@) == path_segments(p@),
{
    let parts = split_str(p, '/');
    let mut segs: Vec<String> = Vec::new();
    let mut i: usize = 0;
    let n = parts.len();
    let ghost pred = |s: Seq<char>| s.len() > 0;
    proof {
        reveal(Seq::filter);
        assert(views_of(parts@).take(0) =~= Seq::<Seq<char>>::empty());
        assert(views_of(parts@).take(0).filter(pred) =~= Seq::<Seq<char>>::empty());
    }
    while i < n
        invariant
            n == parts@.len(),
            0 <= i <= n,
            views_of(parts@) == split_char(p@, '/'),
            pred == (|s: Seq<char>| s.len() > 0),
            views_of(segs@) == views_of(parts@).take(i as int).filter(pred),
        decreases n - i,
    {
        let ghost taken = views_of(parts@).take(i as int);
        proof {
            assert(views_of(parts@)[i as int] == parts@[i as int]@);
        }
        if parts[i].as_str().unicode_len() > 0 {
            let s = parts[i].clone();
            segs.push(s);
        }
        proof {
            let one = seq![views_of(parts@)[i as int]];
            assert(views_of(parts@).take(i + 1) =~= taken + one);
            Seq::<Seq<char>>::filter_distributes_over_add(taken, one, pred);
            lemma_filter_singleton(views_of(parts@)[i as int], pred);
            assert(views_of(segs@) =~~= views_of(parts@).take(i + 1).filter(pred));
        }
        i = i + 1;
    }
    proof {
        assert(views_of(parts@).take(n as int) =~= views_of(parts@));
    }
    segs
}

/// Approves one removal: true exactly when the candidate path lies under
/// the root, as `path_under` describes. The evictor deletes nothing that
/// this check refuses.
pub fn approve_removal(root_canon: &str, candidate_canon: &str) -> (r: bool)
    ensures
        r == path_under(root_canon@, candidate_canon@),
{
    let rs = nonempty_segments(root_canon);
    let cs = nonempty_segments(candidate_canon);
    let nr = rs.len();
    if nr > cs.len() {
        return false;
    }
    let mut i: usize = 0;
    while i < nr
        invariant
            nr == rs@.len(),
            nr <= cs@.len(),
            views_of(rs@) == path_segments(root_canon@),
            views_of(cs@) == path_segments(candidate_canon@),
            0 <= i <= nr,
            forall|j: int| 0 <= j < i ==> views_of(cs@)[j] == views_of(rs@)[j],
        decreases nr - i,
    {
        if !str_eq(cs[i].as_str(), rs[i].as_str()) {
            proof {
                assert(views_of(cs@)[i as int] == cs@[i as int]@);
                assert(views_of(rs@)[i as int] == rs@[i as int]@);
                assert(views_of(cs@)[i as int] != views_of(rs@)[i as int]);
                if path_under(root_canon@, candidate_canon@) {
                    assert(path_segments(candidate_canon@).take(nr as int)[i as int]
                        == path_segments(candidate_canon@)[i as int]);
                }
            }
            return false;
        }
        i = i + 1;
    }
    proof {
        assert forall|j: int| 0 <= j < nr implies views_of(cs@)[j] == cs@[j]@ by {}
        assert(path_segments(candidate_canon@).take(nr as int) =~~= path_segments(root_canon@));
    }
    true
}

} // verus!

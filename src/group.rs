//! Dropping regions that are not both readable and writable, and grouping the
//! rest by backing identity.
use vstd::prelude::*;
use crate::region::{all_wf, pages_view, PageView, VirtMemoryPage};

verus! {

/// A region is kept for the snapshot iff it is readable and writable.
pub open spec fn kept(p: PageView) -> bool {
    p.mode.read && p.mode.write
}

/// The kept regions of `ps`, in order.
pub open spec fn kept_pages(ps: Seq<PageView>) -> Seq<PageView>
    decreases ps.len(),
{
    if ps.len() == 0 {
        seq![]
    } else if kept(ps.last()) {
        kept_pages(ps.drop_last()).push(ps.last())
    } else {
        kept_pages(ps.drop_last())
    }
}

/// The regions of `ps` backed by `key`, in order.
pub open spec fn pages_with(ps: Seq<PageView>, key: Seq<char>) -> Seq<PageView>
    decreases ps.len(),
{
    if ps.len() == 0 {
        seq![]
    } else if ps.last().file_path == key {
        pages_with(ps.drop_last(), key).push(ps.last())
    } else {
        pages_with(ps.drop_last(), key)
    }
}

/// The regions that share one backing identity, in descriptor order.
#[derive(Debug)]
pub struct RegionGroup {
    pub file_path: String,
    pub pages: Vec<VirtMemoryPage>,
}

pub struct GroupView {
    pub key: Seq<char>,
    pub pages: Seq<PageView>,
}

impl View for RegionGroup {
    type V = GroupView;

    open spec fn view(&self) -> GroupView {
        GroupView { key: self.file_path@, pages: pages_view(self.pages@) }
    }
}

pub open spec fn groups_view(gs: Seq<RegionGroup>) -> Seq<GroupView> {
    gs.map_values(|g: RegionGroup| g@)
}

/// `gs` partitions `ps` by backing identity: one group per identity that occurs,
/// holding exactly the regions with that identity, in their order.
pub open spec fn is_grouping(gs: Seq<GroupView>, ps: Seq<PageView>) -> bool {
    &&& forall|i: int, j: int| 0 <= i < j < gs.len() ==> gs[i].key != gs[j].key
    &&& forall|i: int|
        0 <= i < gs.len() ==> (#[trigger] gs[i]).pages == pages_with(ps, gs[i].key)
            && gs[i].pages.len() > 0
    &&& forall|k: Seq<char>|
        (forall|i: int| 0 <= i < gs.len() ==> gs[i].key != k) ==> #[trigger] pages_with(
            ps,
            k,
        ).len() == 0
}

/// Keeps the regions that are both readable and writable, in order.
pub fn retain_read_write(pages: Vec<VirtMemoryPage>) -> (r: Vec<VirtMemoryPage>)
    requires
        all_wf(pages@),
    ensures
        pages_view(r@) == kept_pages(pages_view(pages@)),
        all_wf(r@),
{
    let ghost pv = pages_view(pages@);
    let mut r: Vec<VirtMemoryPage> = Vec::new();
    let mut i: usize = 0;
    assert(pages_view(r@) =~= seq![]);
    while i < pages.len()
        invariant
            i <= pages.len(),
            pv == pages_view(pages@),
            all_wf(pages@),
            all_wf(r@),
            pages_view(r@) == kept_pages(pv.subrange(0, i as int)),
        decreases pages.len() - i,
    {
        assert(pv.subrange(0, i + 1).drop_last() == pv.subrange(0, i as int));
        let p = &pages[i];
        if p.mode.read && p.mode.write {
            let ghost before = r@;
            r.push(p.clone_page());
            assert(pages_view(r@) =~= pages_view(before).push(pv[i as int]));
        }
        i = i + 1;
    }
    assert(pv.subrange(0, pages.len() as int) == pv);
    r
}

/// Partitions the regions by backing identity (exact string equality).
/// The order of the groups carries no meaning.
pub fn group_by(list: Vec<VirtMemoryPage>) -> (r: Vec<RegionGroup>)
    requires
        all_wf(list@),
    ensures
        is_grouping(groups_view(r@), pages_view(list@)),
        forall|i: int| 0 <= i < r.len() ==> all_wf((#[trigger] r@[i]).pages@),
{
    let ghost pv = pages_view(list@);
    let mut r: Vec<RegionGroup> = Vec::new();
    let mut i: usize = 0;
    while i < list.len()
        invariant
            i <= list.len(),
            pv == pages_view(list@),
            all_wf(list@),
            is_grouping(groups_view(r@), pv.subrange(0, i as int)),
            forall|g: int| 0 <= g < r.len() ==> all_wf((#[trigger] r@[g]).pages@),
        decreases list.len() - i,
    {
        let ghost prefix = pv.subrange(0, i as int);
        let ghost next = pv.subrange(0, i + 1);
        let ghost gv = groups_view(r@);
        assert(next.drop_last() == prefix);
        assert(next.last() == pv[i as int]);
        let p = list[i].clone_page();
        let ghost key = p.file_path@;
        let ghost page = p@;
        assert(pv[i as int] == page);
        let mut j: usize = 0;
        let mut found = false;
        let ghost rs = r@;
        while j < r.len() && !found
            invariant
                j <= r.len(),
                r@ == rs,
                key == p.file_path@,
                found ==> j < r.len() && r@[j as int].file_path@ == key,
                !found ==> forall|g: int| 0 <= g < j ==> r@[g].file_path@ != key,
            decreases r.len() - j + (if found { 0int } else { 1int }),
        {
            if r[j].file_path == p.file_path {
                found = true;
            } else {
                j = j + 1;
            }
        }
        if found {
            assert(gv[j as int].key == key);
            let ghost before = r[j as int].pages@;
            r[j].pages.push(p);
            assert(pages_view(r@[j as int].pages@) =~= pages_view(before).push(pv[i as int]));
            assert forall|a: int, b: int| 0 <= a < b < r.len() implies groups_view(r@)[a].key
                != groups_view(r@)[b].key by {
                assert(groups_view(r@)[a].key == gv[a].key);
                assert(groups_view(r@)[b].key == gv[b].key);
            }
            assert forall|g: int| 0 <= g < r.len() implies (#[trigger] groups_view(r@)[g]).pages
                == pages_with(next, groups_view(r@)[g].key) && groups_view(r@)[g].pages.len()
                > 0 by {
                assert(groups_view(r@)[g].key == gv[g].key);
                if g != j {
                    assert(groups_view(r@)[g] == gv[g]);
                    if g < j {
                        assert(gv[g].key != gv[j as int].key);
                    } else {
                        assert(gv[j as int].key != gv[g].key);
                    }
                } else {
                    assert(gv[g].key == key);
                }
            }
            assert forall|k: Seq<char>|
                (forall|g: int| 0 <= g < r.len() ==> groups_view(r@)[g].key != k) implies #[trigger] pages_with(next, k).len() == 0 by {
                assert forall|g: int| 0 <= g < gv.len() implies gv[g].key != k by {
                    assert(groups_view(r@)[g].key == gv[g].key);
                }
                assert(groups_view(r@)[j as int].key == key);
                assert(k != key);
                assert(pages_with(next, k) == pages_with(prefix, k));
                assert(pages_with(prefix, k).len() == 0);
            }
        } else {
            let mut pages: Vec<VirtMemoryPage> = Vec::new();
            pages.push(p);
            let group = RegionGroup { file_path: key_of(&pages), pages };
            r.push(group);
            let ghost nv = groups_view(r@);
            assert(nv[nv.len() - 1].pages =~= seq![page]);
            assert(forall|g: int| 0 <= g < gv.len() ==> gv[g].key != key);
            assert(pages_with(prefix, key).len() == 0);
            assert(pages_with(next, key) =~= seq![page]);
            assert forall|g: int| 0 <= g < nv.len() implies (#[trigger] nv[g]).pages == pages_with(
                next,
                nv[g].key,
            ) && nv[g].pages.len() > 0 by {
                if g < gv.len() {
                    assert(nv[g] == gv[g]);
                }
            }
            assert forall|a: int, b: int| 0 <= a < b < nv.len() implies nv[a].key != nv[b].key by {
                if b < gv.len() {
                    assert(nv[a] == gv[a] && nv[b] == gv[b]);
                } else {
                    assert(nv[a] == gv[a]);
                }
            }
            assert forall|k: Seq<char>|
                (forall|g: int| 0 <= g < nv.len() ==> nv[g].key != k) implies #[trigger] pages_with(next, k).len() == 0 by {
                assert forall|g: int| 0 <= g < gv.len() implies gv[g].key != k by {
                    assert(nv[g] == gv[g]);
                }
                assert(nv[nv.len() - 1].key == key);
                assert(k != key);
                assert(pages_with(next, k) == pages_with(prefix, k));
                assert(pages_with(prefix, k).len() == 0);
            }
        }
        i = i + 1;
    }
    assert(pv.subrange(0, list.len() as int) == pv);
    r
}

/// The backing identity of the first region of a group.
fn key_of(pages: &Vec<VirtMemoryPage>) -> (r: String)
    requires
        pages.len() > 0,
    ensures
        r@ == pages@[0].file_path@,
{
    pages[0].file_path.clone()
}

proof fn lemma_contains_split<A>(s: Seq<A>, x: A)
    requires
        s.len() > 0,
    ensures
        s.contains(x) <==> (s.drop_last().contains(x) || s.last() == x),
{
    if s.contains(x) {
        let j = choose|j: int| 0 <= j < s.len() && s[j] == x;
        if j < s.len() - 1 {
            assert(s.drop_last()[j] == x);
        }
    }
    if s.drop_last().contains(x) {
        let j = choose|j: int| 0 <= j < s.drop_last().len() && s.drop_last()[j] == x;
        assert(s[j] == x);
    }
    if s.last() == x {
        assert(s[s.len() - 1] == x);
    }
}

proof fn lemma_push_contains<A>(s: Seq<A>, y: A, x: A)
    ensures
        s.push(y).contains(x) <==> (s.contains(x) || y == x),
{
    lemma_contains_split(s.push(y), x);
    assert(s.push(y).drop_last() == s);
}

/// The regions backed by `key` are exactly the members of `ps` that carry that identity.
pub proof fn lemma_pages_with_contains(ps: Seq<PageView>, key: Seq<char>, x: PageView)
    ensures
        pages_with(ps, key).contains(x) <==> (ps.contains(x) && x.file_path == key),
    decreases ps.len(),
{
    if ps.len() > 0 {
        lemma_pages_with_contains(ps.drop_last(), key, x);
        lemma_contains_split(ps, x);
        lemma_push_contains(pages_with(ps.drop_last(), key), ps.last(), x);
    }
}

/// Filtering keeps a region iff it is both readable and writable.
pub proof fn lemma_kept_iff_read_write(ps: Seq<PageView>, x: PageView)
    ensures
        kept_pages(ps).contains(x) <==> (ps.contains(x) && x.mode.read && x.mode.write),
    decreases ps.len(),
{
    if ps.len() > 0 {
        lemma_kept_iff_read_write(ps.drop_last(), x);
        lemma_contains_split(ps, x);
        lemma_push_contains(kept_pages(ps.drop_last()), ps.last(), x);
    }
}

/// `x` lies in the group of its own identity.
pub open spec fn in_group_of(gs: Seq<GroupView>, x: PageView) -> bool {
    exists|g: int| 0 <= g < gs.len() && gs[g].key == x.file_path && (#[trigger] gs[g].pages.contains(x))
}

/// Grouping is a partition: every region lies in exactly one group, the one of its
/// identity, and every grouped region comes from the input.
pub proof fn lemma_grouping_partitions(gs: Seq<GroupView>, ps: Seq<PageView>)
    requires
        is_grouping(gs, ps),
    ensures
        forall|j: int| 0 <= j < ps.len() ==> in_group_of(gs, #[trigger] ps[j]),
        forall|g1: int, g2: int, x: PageView|
            0 <= g1 < gs.len() && 0 <= g2 < gs.len() && gs[g1].pages.contains(x)
                && gs[g2].pages.contains(x) ==> g1 == g2,
        forall|g: int, x: PageView|
            0 <= g < gs.len() && (#[trigger] gs[g].pages.contains(x)) ==> ps.contains(x),
{
    assert forall|j: int| 0 <= j < ps.len() implies in_group_of(gs, #[trigger] ps[j]) by {
        let x = ps[j];
        assert(ps.contains(x));
        lemma_pages_with_contains(ps, x.file_path, x);
        if forall|i: int| 0 <= i < gs.len() ==> gs[i].key != x.file_path {
            assert(pages_with(ps, x.file_path).len() == 0);
        }
        let g = choose|g: int| 0 <= g < gs.len() && gs[g].key == x.file_path;
        assert(gs[g].pages == pages_with(ps, gs[g].key));
        assert(gs[g].pages.contains(x));
    }
    assert forall|g1: int, g2: int, x: PageView|
        0 <= g1 < gs.len() && 0 <= g2 < gs.len() && gs[g1].pages.contains(x)
            && gs[g2].pages.contains(x) implies g1 == g2 by {
        assert(gs[g1].pages == pages_with(ps, gs[g1].key));
        assert(gs[g2].pages == pages_with(ps, gs[g2].key));
        lemma_pages_with_contains(ps, gs[g1].key, x);
        lemma_pages_with_contains(ps, gs[g2].key, x);
        if g1 < g2 {
            assert(gs[g1].key != gs[g2].key);
        } else if g2 < g1 {
            assert(gs[g2].key != gs[g1].key);
        }
    }
    assert forall|g: int, x: PageView|
        0 <= g < gs.len() && (#[trigger] gs[g].pages.contains(x)) implies ps.contains(x) by {
        assert(gs[g].pages == pages_with(ps, gs[g].key));
        lemma_pages_with_contains(ps, gs[g].key, x);
    }
}

} // verus!

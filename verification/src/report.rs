//! Rendering the report.
//!
//! For every group, three logical lines: the entry count; the thread-name
//! histogram, names by falling count with their pid lists; and a blank
//! line followed by the stack text.  Outer groups come in non-increasing
//! order of size.

use vstd::prelude::*;
use vstd::string::StringExecFns;
use crate::entry::EntryView;
use crate::entry::ThreadEntry;
use crate::groups::GroupView;
use crate::groups::StackGroup;
use crate::groups::StackMap;
use crate::groups::clone_string;
use crate::groups::string_eq;
use crate::sort::first_max_by;
use crate::sort::lemma_first_max_by;
use crate::sort::lemma_sort_desc_by_sorted;
use crate::sort::sort_desc_by;
use crate::text::dec_string;
use crate::text::spec_dec;
use crate::text::spec_trim;
use crate::text::trim_str;

verus! {

// ---------------------------------------------------------------------------
// The thread-name histogram of one group
// ---------------------------------------------------------------------------

/// One row of a group's thread-name histogram: a command name and the
/// pids, in scan order, of the group's entries that carry it.
pub struct NameGroup {
    /// The command name, as read (trimmed only when rendered).
    pub comm: String,
    /// The pids of the entries with this name, in scan order.
    pub pids: Vec<usize>,
}

/// The mathematical image of a `NameGroup`.
#[verifier::ext_equal]
pub struct NameGroupView {
    pub comm: Seq<char>,
    pub pids: Seq<usize>,
}

impl View for NameGroup {
    type V = NameGroupView;

    open spec fn view(&self) -> NameGroupView {
        NameGroupView { comm: self.comm@, pids: self.pids@ }
    }
}

impl DeepView for NameGroup {
    type V = NameGroupView;

    open spec fn deep_view(&self) -> NameGroupView {
        self@
    }
}

/// The views of a sequence of entries.
pub open spec fn entry_views(s: Seq<ThreadEntry>) -> Seq<EntryView> {
    Seq::new(s.len(), |i: int| s[i]@)
}

/// The first histogram row carrying `comm`, or `h.len()` when none does.
pub open spec fn find_name(h: Seq<NameGroupView>, comm: Seq<char>, i: int) -> int
    decreases h.len() - i,
{
    if i < 0 || i >= h.len() {
        h.len() as int
    } else if h[i].comm == comm {
        i
    } else {
        find_name(h, comm, i + 1)
    }
}

/// The thread-name histogram of a group's entries, rows in the order the
/// names first occur: each entry's pid joins the row of its name, or
/// founds a new row at the end.
pub open spec fn spec_hist(es: Seq<EntryView>) -> Seq<NameGroupView>
    decreases es.len(),
{
    if es.len() == 0 {
        Seq::empty()
    } else {
        let h = spec_hist(es.drop_last());
        let e = es.last();
        let i = find_name(h, e.comm, 0);
        if i < h.len() {
            h.update(i, NameGroupView { comm: h[i].comm, pids: h[i].pids.push(e.pid) })
        } else {
            h.push(NameGroupView { comm: e.comm, pids: seq![e.pid] })
        }
    }
}

/// The weight a histogram row is ordered by: how many pids it holds.
pub open spec fn name_weight() -> spec_fn(NameGroupView) -> nat {
    |g: NameGroupView| g.pids.len()
}

/// The weight a group is ordered by: how many entries it holds.
pub open spec fn group_weight() -> spec_fn(GroupView) -> nat {
    |g: GroupView| g.entries.len()
}

proof fn lemma_find_name_from(h: Seq<NameGroupView>, comm: Seq<char>, i: int, k: int)
    requires
        0 <= k <= i <= h.len(),
        forall|j: int| k <= j < i ==> (#[trigger] h[j]).comm != comm,
        i < h.len() ==> h[i].comm == comm,
    ensures
        find_name(h, comm, k) == i,
    decreases i - k,
{
    if k < i {
        lemma_find_name_from(h, comm, i, k + 1);
    }
}

/// Build the thread-name histogram of `procs`, rows in first-occurrence
/// order of the names.
#[verifier::loop_isolation(false)]
fn build_hist(procs: &[ThreadEntry]) -> (r: Vec<NameGroup>)
    ensures
        r.deep_view() == spec_hist(entry_views(procs@)),
{
    let ghost es = entry_views(procs@);
    let n: usize = procs.len();
    let mut h: Vec<NameGroup> = Vec::new();
    let mut i: usize = 0;
    proof {
        assert(es.subrange(0, 0) =~= Seq::<EntryView>::empty());
    }
    while i < n
        invariant
            0 <= i <= n,
            h.deep_view() == spec_hist(es.subrange(0, i as int)),
        decreases n - i,
    {
        proof {
            assert(es.subrange(0, i + 1).drop_last() =~= es.subrange(0, i as int));
            assert(es.subrange(0, i + 1).last() == es[i as int]);
        }
        let m: usize = h.len();
        let mut k: usize = 0;
        let mut hit = false;
        while k < m && !hit
            invariant
                0 <= k <= m,
                !hit ==> forall|j: int| 0 <= j < k ==> (#[trigger] h.deep_view()[j]).comm
                    != es[i as int].comm,
                hit ==> (k < m && h.deep_view()[k as int].comm == es[i as int].comm && forall|
                    j: int,
                |
                    0 <= j < k ==> (#[trigger] h.deep_view()[j]).comm != es[i as int].comm),
                h.deep_view() == spec_hist(es.subrange(0, i as int)),
            decreases m - k, (if hit { 0int } else { 1int }),
        {
            if string_eq(&h[k].comm, &procs[i].comm) {
                hit = true;
            } else {
                k = k + 1;
            }
        }
        if hit {
            proof {
                lemma_find_name_from(h.deep_view(), es[i as int].comm, k as int, 0);
            }
            let mut row = h.remove(k);
            row.pids.push(procs[i].pid);
            h.insert(k, row);
            proof {
                assert(h.deep_view() =~~= spec_hist(es.subrange(0, i + 1)));
            }
        } else {
            proof {
                lemma_find_name_from(h.deep_view(), es[i as int].comm, m as int, 0);
            }
            let comm = clone_string(&procs[i].comm);
            let mut pids: Vec<usize> = Vec::new();
            pids.push(procs[i].pid);
            h.push(NameGroup { comm, pids });
            proof {
                assert(h.deep_view() =~~= spec_hist(es.subrange(0, i + 1)));
            }
        }
        i = i + 1;
    }
    proof {
        assert(es.subrange(0, n as int) =~= es);
    }
    h
}

// ---------------------------------------------------------------------------
// Ordering by falling count
// ---------------------------------------------------------------------------

/// Order histogram rows by non-increasing pid count; rows of equal count
/// keep their relative order.
#[verifier::loop_isolation(false)]
fn sort_names(rows: Vec<NameGroup>) -> (r: Vec<NameGroup>)
    ensures
        r.deep_view() == sort_desc_by(rows.deep_view(), name_weight()),
{
    let ghost orig = rows.deep_view();
    let mut rest = rows;
    let mut out: Vec<NameGroup> = Vec::new();
    proof {
        assert(out.deep_view() + sort_desc_by(orig, name_weight()) =~= sort_desc_by(
            orig,
            name_weight(),
        ));
    }
    while rest.len() > 0
        invariant
            sort_desc_by(orig, name_weight()) == out.deep_view() + sort_desc_by(
                rest.deep_view(),
                name_weight(),
            ),
        decreases rest.len(),
    {
        let ghost rv = rest.deep_view();
        let n: usize = rest.len();
        let mut m: usize = 0;
        let mut j: usize = 1;
        while j < n
            invariant
                0 <= m < j <= n,
                forall|p: int| 0 <= p < j ==> rv[m as int].pids.len() >= (#[trigger] rv[p]).pids.len(),
                forall|p: int| 0 <= p < m ==> (#[trigger] rv[p]).pids.len() < rv[m as int].pids.len(),
            decreases n - j,
        {
            if rest[j].pids.len() > rest[m].pids.len() {
                m = j;
            }
            j = j + 1;
        }
        proof {
            lemma_first_max_by(rv, name_weight(), 0);
            let fm = first_max_by(rv, name_weight(), 0);
            if fm < m {
                assert(rv[fm].pids.len() < rv[m as int].pids.len());
            }
            if m < fm {
                assert(rv[m as int].pids.len() < rv[fm].pids.len());
            }
            assert(fm == m as int);
        }
        let row = rest.remove(m);
        out.push(row);
        proof {
            assert(rest.deep_view() =~= rv.remove(m as int));
            assert(row@ == rv[m as int]);
            assert(sort_desc_by(rv, name_weight()) == seq![rv[m as int]] + sort_desc_by(
                rv.remove(m as int),
                name_weight(),
            ));
            assert(seq![row@] + sort_desc_by(rest.deep_view(), name_weight()) =~= sort_desc_by(
                rv,
                name_weight(),
            ));
            assert(out.deep_view() + sort_desc_by(rest.deep_view(), name_weight()) =~= sort_desc_by(
                orig,
                name_weight(),
            ));
        }
    }
    proof {
        assert(rest.deep_view() =~= Seq::<NameGroupView>::empty());
        assert(out.deep_view() + sort_desc_by(rest.deep_view(), name_weight()) =~= out.deep_view());
    }
    out
}

/// Order groups by non-increasing size; groups of equal size keep their
/// relative order.
#[verifier::loop_isolation(false)]
fn sort_groups(groups: Vec<StackGroup>) -> (r: Vec<StackGroup>)
    ensures
        r.deep_view() == sort_desc_by(groups.deep_view(), group_weight()),
{
    let ghost orig = groups.deep_view();
    let mut rest = groups;
    let mut out: Vec<StackGroup> = Vec::new();
    proof {
        assert(out.deep_view() + sort_desc_by(orig, group_weight()) =~= sort_desc_by(
            orig,
            group_weight(),
        ));
    }
    while rest.len() > 0
        invariant
            sort_desc_by(orig, group_weight()) == out.deep_view() + sort_desc_by(
                rest.deep_view(),
                group_weight(),
            ),
        decreases rest.len(),
    {
        let ghost rv = rest.deep_view();
        let n: usize = rest.len();
        let mut m: usize = 0;
        let mut j: usize = 1;
        while j < n
            invariant
                0 <= m < j <= n,
                forall|p: int| 0 <= p < j ==> rv[m as int].entries.len() >= (#[trigger] rv[p]).entries.len(),
                forall|p: int| 0 <= p < m ==> (#[trigger] rv[p]).entries.len() < rv[m as int].entries.len(),
            decreases n - j,
        {
            if rest[j].entries.len() > rest[m].entries.len() {
                m = j;
            }
            j = j + 1;
        }
        proof {
            lemma_first_max_by(rv, group_weight(), 0);
            let fm = first_max_by(rv, group_weight(), 0);
            if fm < m {
                assert(rv[fm].entries.len() < rv[m as int].entries.len());
            }
            if m < fm {
                assert(rv[m as int].entries.len() < rv[fm].entries.len());
            }
            assert(fm == m as int);
        }
        let g = rest.remove(m);
        out.push(g);
        proof {
            assert(rest.deep_view() =~= rv.remove(m as int));
            assert(g@ == rv[m as int]);
            assert(sort_desc_by(rv, group_weight()) == seq![rv[m as int]] + sort_desc_by(
                rv.remove(m as int),
                group_weight(),
            ));
            assert(seq![g@] + sort_desc_by(rest.deep_view(), group_weight()) =~= sort_desc_by(
                rv,
                group_weight(),
            ));
            assert(out.deep_view() + sort_desc_by(rest.deep_view(), group_weight()) =~= sort_desc_by(
                orig,
                group_weight(),
            ));
        }
    }
    proof {
        assert(rest.deep_view() =~= Seq::<GroupView>::empty());
        assert(out.deep_view() + sort_desc_by(rest.deep_view(), group_weight()) =~= out.deep_view());
    }
    out
}

// ---------------------------------------------------------------------------
// Rendering
// ---------------------------------------------------------------------------

/// The bracketed, comma-separated pid list of one histogram row, without
/// its brackets.
pub open spec fn spec_pids_inner(pids: Seq<usize>) -> Seq<char>
    decreases pids.len(),
{
    if pids.len() == 0 {
        Seq::empty()
    } else if pids.len() == 1 {
        spec_dec(pids[0] as nat)
    } else {
        spec_pids_inner(pids.drop_last()) + ", "@ + spec_dec(pids.last() as nat)
    }
}

/// The bracketed, comma-separated pid list of one histogram row.
pub open spec fn spec_render_pids(pids: Seq<usize>) -> Seq<char> {
    "["@ + spec_pids_inner(pids) + "]"@
}

/// One rendered histogram row: the trimmed name and the pid list.
pub open spec fn spec_render_name(g: NameGroupView) -> Seq<char> {
    "("@ + spec_trim(g.comm) + " "@ + spec_render_pids(g.pids) + "), "@
}

/// All rendered histogram rows, in sequence order.
pub open spec fn spec_render_names(h: Seq<NameGroupView>) -> Seq<char>
    decreases h.len(),
{
    if h.len() == 0 {
        Seq::empty()
    } else {
        spec_render_names(h.drop_last()) + spec_render_name(h.last())
    }
}

/// The rendered thread-name histogram of a group's entries: rows by
/// falling count, names first occurring first among equal counts.
pub open spec fn spec_display_names(es: Seq<EntryView>) -> Seq<char> {
    spec_render_names(sort_desc_by(spec_hist(es), name_weight()))
}

/// Render the pid list of one histogram row.
#[verifier::loop_isolation(false)]
fn render_pids(pids: &Vec<usize>) -> (r: String)
    ensures
        r@ == spec_render_pids(pids@),
{
    let mut s = String::new();
    s.append("[");
    proof {
        assert(s@ =~= "["@ + spec_pids_inner(pids@.subrange(0, 0)));
    }
    let n: usize = pids.len();
    let mut i: usize = 0;
    while i < n
        invariant
            0 <= i <= n,
            s@ == "["@ + spec_pids_inner(pids@.subrange(0, i as int)),
        decreases n - i,
    {
        proof {
            assert(pids@.subrange(0, i + 1).drop_last() =~= pids@.subrange(0, i as int));
            assert(pids@.subrange(0, i + 1).last() == pids@[i as int]);
        }
        if i > 0 {
            s.append(", ");
        }
        let d = dec_string(pids[i]);
        s.append(d.as_str());
        proof {
            assert(s@ =~= "["@ + spec_pids_inner(pids@.subrange(0, i + 1)));
        }
        i = i + 1;
    }
    s.append("]");
    proof {
        assert(pids@.subrange(0, n as int) =~= pids@);
        assert(s@ =~= spec_render_pids(pids@));
    }
    s
}

/// Render one histogram row.
fn render_name(g: &NameGroup) -> (r: String)
    ensures
        r@ == spec_render_name(g@),
{
    let mut s = String::new();
    s.append("(");
    let trimmed = trim_str(g.comm.as_str());
    s.append(trimmed);
    s.append(" ");
    let pids = render_pids(&g.pids);
    s.append(pids.as_str());
    s.append("), ");
    proof {
        assert(s@ =~= spec_render_name(g@));
    }
    s
}

/// The thread-name histogram of `procs`, rendered: inner rows by falling
/// count, each as the trimmed name and its bracketed pid list.
#[verifier::loop_isolation(false)]
pub fn display_proc_names(procs: &[ThreadEntry]) -> (r: String)
    ensures
        r@ == spec_display_names(entry_views(procs@)),
{
    let rows = sort_names(build_hist(procs));
    let ghost hv = sort_desc_by(spec_hist(entry_views(procs@)), name_weight());
    let mut s = String::new();
    let n: usize = rows.len();
    let mut i: usize = 0;
    proof {
        assert(s@ =~= spec_render_names(hv.subrange(0, 0)));
    }
    while i < n
        invariant
            0 <= i <= n,
            n == hv.len(),
            rows.deep_view() == hv,
            s@ == spec_render_names(hv.subrange(0, i as int)),
        decreases n - i,
    {
        proof {
            assert(hv.subrange(0, i + 1).drop_last() =~= hv.subrange(0, i as int));
            assert(hv.subrange(0, i + 1).last() == hv[i as int]);
        }
        let one = render_name(&rows[i]);
        s.append(one.as_str());
        proof {
            assert(s@ =~= spec_render_names(hv.subrange(0, i + 1)));
        }
        i = i + 1;
    }
    proof {
        assert(hv.subrange(0, n as int) =~= hv);
    }
    s
}

/// One rendered group: its size, its thread-name histogram, and a blank
/// line followed by the stack text, each line newline-terminated.
pub open spec fn spec_render_group(g: GroupView) -> Seq<char> {
    spec_dec(g.entries.len()) + "\n"@ + spec_display_names(g.entries) + "\n"@ + "\n"@ + g.stack
        + "\n"@
}

/// All rendered groups, in sequence order.
pub open spec fn spec_render_groups(gs: Seq<GroupView>) -> Seq<char>
    decreases gs.len(),
{
    if gs.len() == 0 {
        Seq::empty()
    } else {
        spec_render_groups(gs.drop_last()) + spec_render_group(gs.last())
    }
}

/// The whole report of a mapping: the groups by falling size, each
/// rendered as above.
pub open spec fn spec_render_report(gs: Seq<GroupView>) -> Seq<char> {
    spec_render_groups(sort_desc_by(gs, group_weight()))
}

/// Render one group.
fn render_group(g: &StackGroup) -> (r: String)
    ensures
        r@ == spec_render_group(g@),
{
    let mut s = String::new();
    let count = dec_string(g.entries.len());
    s.append(count.as_str());
    s.append("\n");
    let names = display_proc_names(g.entries.as_slice());
    s.append(names.as_str());
    s.append("\n");
    s.append("\n");
    s.append(g.stack.as_str());
    s.append("\n");
    proof {
        assert(entry_views(g.entries@) =~= g@.entries);
        assert(s@ =~= spec_render_group(g@));
    }
    s
}

/// Render the whole report of a mapping: for every group, by falling
/// size, its entry count, its thread-name histogram, and a blank line
/// followed by its stack text.
#[verifier::loop_isolation(false)]
pub fn render_report(m: StackMap) -> (r: String)
    ensures
        r@ == spec_render_report(m@),
{
    let ghost mv = m@;
    let sorted = sort_groups(m.groups);
    let ghost sv = sort_desc_by(mv, group_weight());
    let mut s = String::new();
    let n: usize = sorted.len();
    let mut i: usize = 0;
    proof {
        assert(s@ =~= spec_render_groups(sv.subrange(0, 0)));
    }
    while i < n
        invariant
            0 <= i <= n,
            n == sv.len(),
            sorted.deep_view() == sv,
            s@ == spec_render_groups(sv.subrange(0, i as int)),
        decreases n - i,
    {
        proof {
            assert(sv.subrange(0, i + 1).drop_last() =~= sv.subrange(0, i as int));
            assert(sv.subrange(0, i + 1).last() == sv[i as int]);
        }
        let one = render_group(&sorted[i]);
        s.append(one.as_str());
        proof {
            assert(s@ =~= spec_render_groups(sv.subrange(0, i + 1)));
        }
        i = i + 1;
    }
    proof {
        assert(sv.subrange(0, n as int) =~= sv);
    }
    s
}

// ---------------------------------------------------------------------------
// The emitted orders
// ---------------------------------------------------------------------------

/// Outer groups are emitted in non-increasing order of size.
pub proof fn lemma_groups_emitted_in_order(gs: Seq<GroupView>)
    ensures
        forall|i: int, j: int|
            0 <= i <= j < sort_desc_by(gs, group_weight()).len() ==> (#[trigger] sort_desc_by(
                gs,
                group_weight(),
            )[i]).entries.len() >= (#[trigger] sort_desc_by(gs, group_weight())[j]).entries.len(),
{
    lemma_sort_desc_by_sorted(gs, group_weight());
}

/// Histogram rows inside a group are emitted in non-increasing order of
/// count.
pub proof fn lemma_names_emitted_in_order(es: Seq<EntryView>)
    ensures
        forall|i: int, j: int|
            0 <= i <= j < sort_desc_by(spec_hist(es), name_weight()).len() ==> (
            #[trigger] sort_desc_by(spec_hist(es), name_weight())[i]).pids.len() >= (
            #[trigger] sort_desc_by(spec_hist(es), name_weight())[j]).pids.len(),
{
    lemma_sort_desc_by_sorted(spec_hist(es), name_weight());
}

} // verus!

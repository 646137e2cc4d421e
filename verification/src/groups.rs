//! The stack-keyed aggregation.
//!
//! Accepted entries are folded into a mapping from stack text to the group
//! of entries that share it.  Keys are unique; within a group, entries keep
//! the order in which the scan discovered them.

use vstd::prelude::*;
use crate::entry::EntryView;
use crate::entry::ThreadEntry;

verus! {

/// The entries sharing one stack text, in scan order.
pub struct StackGroup {
    /// The shared stack text: the grouping key.
    pub stack: String,
    /// The member entries, in the order the scan discovered them.
    pub entries: Vec<ThreadEntry>,
}

/// The mathematical image of a `StackGroup`.
#[verifier::ext_equal]
pub struct GroupView {
    pub stack: Seq<char>,
    pub entries: Seq<EntryView>,
}

impl View for StackGroup {
    type V = GroupView;

    open spec fn view(&self) -> GroupView {
        GroupView { stack: self.stack@, entries: self.entries.deep_view() }
    }
}

impl DeepView for StackGroup {
    type V = GroupView;

    open spec fn deep_view(&self) -> GroupView {
        self@
    }
}

impl GroupView {
    /// A group is sound when it is non-empty and every member carries the
    /// group's key as its stack.
    pub open spec fn wf(self) -> bool {
        &&& self.entries.len() > 0
        &&& forall|i: int| 0 <= i < self.entries.len() ==> #[trigger] self.entries[i].stack
            == self.stack
    }
}

/// A sound mapping: every group sound, every key unique.
pub open spec fn groups_wf(gs: Seq<GroupView>) -> bool {
    &&& forall|i: int| 0 <= i < gs.len() ==> (#[trigger] gs[i]).wf()
    &&& forall|i: int, j: int|
        0 <= i < j < gs.len() ==> (#[trigger] gs[i]).stack != (#[trigger] gs[j]).stack
}

/// The first group whose key is `key`, or `gs.len()` when none has it.
pub open spec fn find_group(gs: Seq<GroupView>, key: Seq<char>, i: int) -> int
    decreases gs.len() - i,
{
    if i < 0 || i >= gs.len() {
        gs.len() as int
    } else if gs[i].stack == key {
        i
    } else {
        find_group(gs, key, i + 1)
    }
}

/// What inserting an entry does to a mapping: the entry joins the group
/// that carries its stack text, or founds a new group at the end.
pub open spec fn spec_insert(gs: Seq<GroupView>, e: EntryView) -> Seq<GroupView> {
    let i = find_group(gs, e.stack, 0);
    if i < gs.len() {
        gs.update(i, GroupView { stack: gs[i].stack, entries: gs[i].entries.push(e) })
    } else {
        gs.push(GroupView { stack: e.stack, entries: seq![e] })
    }
}

/// The number of entries held across all groups.
pub open spec fn total_entries(gs: Seq<GroupView>) -> nat
    decreases gs.len(),
{
    if gs.len() == 0 {
        0
    } else {
        total_entries(gs.drop_last()) + gs.last().entries.len()
    }
}

proof fn lemma_find_group_from(gs: Seq<GroupView>, key: Seq<char>, i: int, k: int)
    requires
        0 <= k <= i <= gs.len(),
        forall|j: int| k <= j < i ==> (#[trigger] gs[j]).stack != key,
        i < gs.len() ==> gs[i].stack == key,
    ensures
        find_group(gs, key, k) == i,
    decreases i - k,
{
    if k < i {
        lemma_find_group_from(gs, key, i, k + 1);
    }
}

proof fn lemma_find_group_bounds(gs: Seq<GroupView>, key: Seq<char>, k: int)
    requires
        0 <= k <= gs.len(),
    ensures
        k <= find_group(gs, key, k) <= gs.len(),
        find_group(gs, key, k) < gs.len() ==> gs[find_group(gs, key, k)].stack == key,
        forall|j: int| k <= j < find_group(gs, key, k) ==> (#[trigger] gs[j]).stack != key,
    decreases gs.len() - k,
{
    if k < gs.len() && gs[k].stack != key {
        lemma_find_group_bounds(gs, key, k + 1);
    }
}

/// Inserting preserves soundness of the mapping.
pub proof fn lemma_insert_wf(gs: Seq<GroupView>, e: EntryView)
    requires
        groups_wf(gs),
    ensures
        groups_wf(spec_insert(gs, e)),
{
    lemma_find_group_bounds(gs, e.stack, 0);
}

/// Each insertion grows the total number of held entries by exactly one:
/// the sum of the group sizes equals the number of entries accepted.
pub proof fn lemma_insert_total(gs: Seq<GroupView>, e: EntryView)
    ensures
        total_entries(spec_insert(gs, e)) == total_entries(gs) + 1,
{
    lemma_find_group_bounds(gs, e.stack, 0);
    let i = find_group(gs, e.stack, 0);
    if i < gs.len() {
        let g2 = GroupView { stack: gs[i].stack, entries: gs[i].entries.push(e) };
        lemma_total_update(gs, i, g2);
    } else {
        let g2 = GroupView { stack: e.stack, entries: seq![e] };
        assert(gs.push(g2).drop_last() =~= gs);
    }
}

/// What folding a whole sequence of accepted entries does to a mapping:
/// each entry inserted in turn, scan order kept.
pub open spec fn spec_insert_all(gs: Seq<GroupView>, es: Seq<EntryView>) -> Seq<GroupView>
    decreases es.len(),
{
    if es.len() == 0 {
        gs
    } else {
        spec_insert(spec_insert_all(gs, es.drop_last()), es.last())
    }
}

/// Folding preserves soundness of the mapping.
pub proof fn lemma_insert_all_wf(gs: Seq<GroupView>, es: Seq<EntryView>)
    requires
        groups_wf(gs),
    ensures
        groups_wf(spec_insert_all(gs, es)),
    decreases es.len(),
{
    if es.len() > 0 {
        lemma_insert_all_wf(gs, es.drop_last());
        lemma_insert_wf(spec_insert_all(gs, es.drop_last()), es.last());
    }
}

/// The sum of the group sizes equals the number of entries accepted,
/// however many scans fed the mapping.
pub proof fn lemma_insert_all_total(gs: Seq<GroupView>, es: Seq<EntryView>)
    ensures
        total_entries(spec_insert_all(gs, es)) == total_entries(gs) + es.len(),
    decreases es.len(),
{
    if es.len() > 0 {
        lemma_insert_all_total(gs, es.drop_last());
        lemma_insert_total(spec_insert_all(gs, es.drop_last()), es.last());
    }
}

proof fn lemma_total_update(gs: Seq<GroupView>, i: int, g: GroupView)
    requires
        0 <= i < gs.len(),
    ensures
        total_entries(gs.update(i, g)) == total_entries(gs) - gs[i].entries.len()
            + g.entries.len(),
    decreases gs.len(),
{
    let u = gs.update(i, g);
    if i == gs.len() - 1 {
        assert(u.drop_last() =~= gs.drop_last());
        assert(u.last() == g);
    } else {
        assert(u.drop_last() =~= gs.drop_last().update(i, g));
        assert(u.last() == gs.last());
        lemma_total_update(gs.drop_last(), i, g);
        assert(gs.drop_last()[i] == gs[i]);
    }
}

/// The stack-keyed mapping the scan fills.
pub struct StackMap {
    /// The groups, keyed by their stack text; keys unique.
    pub groups: Vec<StackGroup>,
}

impl View for StackMap {
    type V = Seq<GroupView>;

    open spec fn view(&self) -> Seq<GroupView> {
        self.groups.deep_view()
    }
}

impl StackMap {
    /// A sound mapping: every group sound, every key unique.
    pub open spec fn wf(self) -> bool {
        groups_wf(self@)
    }

    /// The empty mapping.
    pub fn new() -> (r: StackMap)
        ensures
            r@ =~= Seq::<GroupView>::empty(),
            r.wf(),
    {
        StackMap { groups: Vec::new() }
    }

    /// Fold one accepted entry into the mapping: append it to the group
    /// keyed by its stack text, founding the group if absent.
    #[verifier::loop_isolation(false)]
    pub fn insert_entry(&mut self, e: ThreadEntry)
        requires
            old(self).wf(),
        ensures
            final(self)@ == spec_insert(old(self)@, e@),
            final(self).wf(),
    {
        proof {
            lemma_insert_wf(old(self)@, e@);
            lemma_find_group_bounds(old(self)@, e@.stack, 0);
        }
        let n: usize = self.groups.len();
        let mut i: usize = 0;
        while i < n
            invariant
                0 <= i <= n,
                forall|j: int| 0 <= j < i ==> (#[trigger] self@[j]).stack != e@.stack,
                self == old(self),
            decreases n - i,
        {
            if string_eq(&self.groups[i].stack, &e.stack) {
                proof {
                    lemma_find_group_from(self@, e@.stack, i as int, 0);
                }
                let mut g = self.groups.remove(i);
                g.entries.push(e);
                self.groups.insert(i, g);
                proof {
                    assert(self@ =~~= spec_insert(old(self)@, e@));
                }
                return;
            }
            i = i + 1;
        }
        proof {
            lemma_find_group_from(self@, e@.stack, n as int, 0);
        }
        let mut entries: Vec<ThreadEntry> = Vec::new();
        let key = clone_string(&e.stack);
        entries.push(e);
        self.groups.push(StackGroup { stack: key, entries });
        proof {
            assert(self@ =~~= spec_insert(old(self)@, e@));
        }
    }

    /// The number of groups.
    pub fn len(&self) -> (r: usize)
        ensures
            r == self@.len(),
    {
        self.groups.len()
    }
}

/// Equality of two strings, decided character for character.
pub fn string_eq(a: &String, b: &String) -> (r: bool)
    ensures
        r == (a@ == b@),
{
    a.eq(b)
}

/// A copy of a string with the same characters.
pub fn clone_string(s: &String) -> (r: String)
    ensures
        r@ == s@,
{
    s.clone()
}

} // verus!

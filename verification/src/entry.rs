//! Admission of one candidate procfs entry.
//!
//! A candidate directory yields a `ThreadEntry` exactly when its name is a
//! positive decimal number, its stat line yields a parent-process id, its
//! class passes the configured filter, and its `comm` and `stack` files
//! could be read.

use vstd::prelude::*;
use crate::options::Options;
use crate::options::OptionsView;
use crate::stat::ProcStat;
use crate::stat::spec_parse_stat;
use crate::text::spec_parse_usize;
use crate::text::spec_strip_newline;
use crate::text::parse_usize;
use crate::text::strip_newline;

verus! {

/// The derived class of an entry; never stored.
#[derive(Clone, Copy, Debug, PartialEq, Eq, Structural)]
pub enum ThreadClass {
    /// A thread of the kernel itself: its parent-process id is 2, or it is
    /// pid 2, the parent of all kernel threads.
    Kernel,
    /// Any other thread.
    User,
}

/// One row of the aggregation input, read from a single directory.
pub struct ThreadEntry {
    /// The number that named the directory: a process id when the procfs
    /// root is scanned, a thread id under a task directory.
    pub pid: usize,
    /// The command name from the directory's `comm` file, with the
    /// trailing newline removed (whitespace trimming happens only when
    /// the report is rendered).
    pub comm: String,
    /// The contents of the directory's `stack` file, byte for byte; the
    /// grouping key.
    pub stack: String,
}

/// The mathematical image of a `ThreadEntry`.
#[verifier::ext_equal]
pub struct EntryView {
    pub pid: usize,
    pub comm: Seq<char>,
    pub stack: Seq<char>,
}

impl View for ThreadEntry {
    type V = EntryView;

    open spec fn view(&self) -> EntryView {
        EntryView { pid: self.pid, comm: self.comm@, stack: self.stack@ }
    }
}

impl DeepView for ThreadEntry {
    type V = EntryView;

    open spec fn deep_view(&self) -> EntryView {
        self@
    }
}

/// The class of an entry with the given id and parent-process id.
pub open spec fn spec_class(pid: usize, ppid: usize) -> ThreadClass {
    if ppid == 2 || pid == 2 {
        ThreadClass::Kernel
    } else {
        ThreadClass::User
    }
}

/// Whether a configuration keeps entries of a class.
pub open spec fn class_included(o: OptionsView, c: ThreadClass) -> bool {
    match c {
        ThreadClass::Kernel => o.include_kernel,
        ThreadClass::User => o.include_user,
    }
}

/// What a directory name denotes: a positive decimal number, or nothing.
pub open spec fn spec_entry_pid(name: Seq<char>) -> Option<usize> {
    match spec_parse_usize(name) {
        Some(v) => if v > 0 {
            Some(v)
        } else {
            None
        },
        None => None,
    }
}

/// The admission decision made before `comm` and `stack` are read: the
/// entry's id, provided the directory name is a positive decimal number,
/// the stat line (`None` when it could not be read) yields a
/// parent-process id, and the resulting class passes the filter.
pub open spec fn spec_admit(o: OptionsView, name: Seq<char>, stat_data: Option<Seq<char>>) -> Option<
    usize,
> {
    match spec_entry_pid(name) {
        None => None,
        Some(pid) => match stat_data {
            None => None,
            Some(st) => match spec_parse_stat(st) {
                None => None,
                Some(ppid) => if class_included(o, spec_class(pid, ppid)) {
                    Some(pid)
                } else {
                    None
                },
            },
        },
    }
}

/// The entry a candidate directory yields, if any: the admission decision
/// above, and then the `comm` and `stack` contents (`None` when a read
/// failed), all from that one directory.  The stored command name drops
/// the `comm` file's trailing newline; the stack is kept byte for byte.
pub open spec fn spec_entry(
    o: OptionsView,
    name: Seq<char>,
    stat_data: Option<Seq<char>>,
    comm_data: Option<Seq<char>>,
    stack_data: Option<Seq<char>>,
) -> Option<EntryView> {
    match spec_admit(o, name, stat_data) {
        None => None,
        Some(pid) => match (comm_data, stack_data) {
            (Some(c), Some(k)) => Some(
                EntryView { pid: pid, comm: spec_strip_newline(c), stack: k },
            ),
            _ => None,
        },
    }
}

/// An entry stands in the scan's output only when its class is included:
/// a kernel-class entry only under `include_kernel`, a user-class entry
/// only under `include_user`; and an entry whose other conditions hold is
/// dropped for its class alone.
pub proof fn lemma_class_filter(
    o: OptionsView,
    name: Seq<char>,
    stat_data: Option<Seq<char>>,
    comm_data: Option<Seq<char>>,
    stack_data: Option<Seq<char>>,
    pid: usize,
    ppid: usize,
)
    requires
        spec_entry_pid(name) == Some(pid),
        stat_data is Some,
        spec_parse_stat(stat_data->Some_0) == Some(ppid),
        comm_data is Some,
        stack_data is Some,
    ensures
        spec_entry(o, name, stat_data, comm_data, stack_data) is Some <==> class_included(
            o,
            spec_class(pid, ppid),
        ),
        spec_class(pid, ppid) == ThreadClass::Kernel ==> (spec_entry(
            o,
            name,
            stat_data,
            comm_data,
            stack_data,
        ) is Some <==> o.include_kernel),
        spec_class(pid, ppid) == ThreadClass::User ==> (spec_entry(
            o,
            name,
            stat_data,
            comm_data,
            stack_data,
        ) is Some <==> o.include_user),
{
}

/// Pid 2 is the parent of all kernel threads and is itself classified
/// `Kernel`, whatever parent its stat line names.
pub proof fn lemma_pid_two_is_kernel(ppid: usize)
    ensures
        spec_class(2, ppid) == ThreadClass::Kernel,
{
}

impl Options {
    /// Whether this configuration keeps entries of the given class.
    pub fn includes(&self, c: ThreadClass) -> (r: bool)
        ensures
            r == class_included(self@, c),
    {
        match c {
            ThreadClass::Kernel => self.include_kernel,
            ThreadClass::User => self.include_user,
        }
    }
}

/// The class of an entry with the given id and parent-process id.
pub fn classify(pid: usize, ppid: usize) -> (r: ThreadClass)
    ensures
        r == spec_class(pid, ppid),
{
    if ppid == 2 || pid == 2 {
        ThreadClass::Kernel
    } else {
        ThreadClass::User
    }
}

/// Read a directory name as an entry id: a positive decimal number.
pub fn parse_entry_name(name: &str) -> (r: Option<usize>)
    ensures
        r == spec_entry_pid(name@),
{
    match parse_usize(name) {
        Some(v) => if v > 0 {
            Some(v)
        } else {
            None
        },
        None => None,
    }
}

/// Decide admission from what stands before the `comm` and `stack` reads:
/// the directory name and the stat line, `None` for a failed read.
///
/// Returns the entry's id exactly when the name is a positive decimal
/// number, the stat line yields a parent-process id, and the class it
/// implies passes this configuration's filter.
pub fn admit_entry(options: &Options, name: &str, stat_data: Option<&str>) -> (r: Option<usize>)
    ensures
        r == spec_admit(options@, name@, spec_opt_str(stat_data)),
{
    let pid = match parse_entry_name(name) {
        Some(pid) => pid,
        None => {
            return None;
        },
    };
    let st = match stat_data {
        Some(st) => st,
        None => {
            return None;
        },
    };
    let ppid = match ProcStat::from_line(st) {
        Ok(ps) => ps.ppid,
        Err(_) => {
            return None;
        },
    };
    if options.includes(classify(pid, ppid)) {
        Some(pid)
    } else {
        None
    }
}

/// The views of an optional borrowed string.
pub open spec fn spec_opt_str(o: Option<&str>) -> Option<Seq<char>> {
    match o {
        Some(s) => Some(s@),
        None => None,
    }
}

/// The views of an optional owned string.
pub open spec fn spec_opt_string(o: Option<String>) -> Option<Seq<char>> {
    match o {
        Some(s) => Some(s@),
        None => None,
    }
}

/// Turn one candidate directory into an entry, if the configuration and
/// the directory's files admit one.
///
/// `name` is the directory's final path component; the three `*_data`
/// arguments hold the contents of its `stat`, `comm` and `stack` files,
/// `None` where a read failed.  The returned entry's fields all come from
/// these inputs — the command name with its trailing newline removed,
/// the stack byte for byte — and an entry is returned exactly when every
/// step of the admission succeeds.
pub fn get_proc_ent(
    options: &Options,
    name: &str,
    stat_data: Option<&str>,
    comm_data: Option<String>,
    stack_data: Option<String>,
) -> (r: Option<ThreadEntry>)
    ensures
        match r {
            Some(e) => spec_entry(
                options@,
                name@,
                spec_opt_str(stat_data),
                spec_opt_string(comm_data),
                spec_opt_string(stack_data),
            ) == Some(e@),
            None => spec_entry(
                options@,
                name@,
                spec_opt_str(stat_data),
                spec_opt_string(comm_data),
                spec_opt_string(stack_data),
            ) is None,
        },
{
    let pid = match admit_entry(options, name, stat_data) {
        Some(pid) => pid,
        None => {
            return None;
        },
    };
    let comm = match comm_data {
        Some(c) => strip_newline(c),
        None => {
            return None;
        },
    };
    let stack = match stack_data {
        Some(k) => k,
        None => {
            return None;
        },
    };
    Some(ThreadEntry { pid, comm, stack })
}

} // verus!

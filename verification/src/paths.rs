//! The base directories a configuration scans.
//!
//! Under task scope, one task directory per chosen process, in the order
//! the pids were given; otherwise the procfs root alone.

use vstd::prelude::*;
use vstd::string::StringExecFns;
use crate::options::Options;
use crate::options::OptionsView;
use crate::text::dec_string;
use crate::text::spec_dec;

verus! {

/// The task directory of one process: `/proc/<pid>/task`.
pub open spec fn spec_task_dir(pid: usize) -> Seq<char> {
    "/proc/"@ + spec_dec(pid as nat) + "/task"@
}

/// The directories a configuration scans: each chosen process's task
/// directory under task scope, the procfs root otherwise.
pub open spec fn spec_base_dirs(o: OptionsView) -> Seq<Seq<char>> {
    if o.task_scope {
        Seq::new(o.task_pids.len(), |i: int| spec_task_dir(o.task_pids[i]))
    } else {
        seq!["/proc"@]
    }
}

/// Under task scope, exactly the task directories of the chosen
/// processes are scanned, in their given order: every entry of the scan
/// comes from `/proc/<p>/task` for some chosen `p`.
pub proof fn lemma_task_scope_dirs(o: OptionsView)
    requires
        o.task_scope,
    ensures
        spec_base_dirs(o).len() == o.task_pids.len(),
        forall|i: int|
            0 <= i < o.task_pids.len() ==> spec_base_dirs(o)[i] == spec_task_dir(
                #[trigger] o.task_pids[i],
            ),
{
}

/// Build the list of directories to scan.  Under task scope every listed
/// directory is `/proc/<p>/task` for the `p` at the same position of the
/// configuration's pid list; otherwise the list is `/proc` alone.
#[verifier::loop_isolation(false)]
pub fn base_dirs(options: &Options) -> (r: Vec<String>)
    ensures
        r.deep_view() == spec_base_dirs(options@),
{
    let mut r: Vec<String> = Vec::new();
    if options.task_scope {
        let n: usize = options.task_pids.len();
        let mut i: usize = 0;
        while i < n
            invariant
                0 <= i <= n,
                r@.len() == i,
                forall|j: int| 0 <= j < i ==> (#[trigger] r.deep_view()[j]) == spec_task_dir(
                    options.task_pids@[j],
                ),
            decreases n - i,
        {
            let mut s = String::from_str("/proc/");
            let num = dec_string(options.task_pids[i]);
            s.append(num.as_str());
            s.append("/task");
            proof {
                assert(s@ =~= spec_task_dir(options.task_pids@[i as int]));
            }
            let ghost prev = r.deep_view();
            let ghost sv = s@;
            r.push(s);
            proof {
                assert forall|j: int| 0 <= j < i + 1 implies (#[trigger] r.deep_view()[j])
                    == spec_task_dir(options.task_pids@[j]) by {
                    if j < i {
                        assert(r.deep_view()[j] == prev[j]);
                    } else {
                        assert(r.deep_view()[j] == sv);
                    }
                }
            }
            i = i + 1;
        }
        proof {
            assert(r.deep_view() =~= spec_base_dirs(options@));
        }
    } else {
        r.push(String::from_str("/proc"));
        proof {
            assert(r.deep_view() =~= spec_base_dirs(options@));
        }
    }
    r
}

} // verus!

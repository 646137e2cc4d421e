//! The configuration record and the parsing of the argument vector.
//!
//! The first user argument, if any, is a cluster of single-letter flags from
//! `{k, t, u}`; with `t` the remaining arguments are the processes whose task
//! directories are to be scanned.

use vstd::prelude::*;
use vstd::string::StrSliceExecFns;
use crate::text::spec_parse_usize;
use crate::text::spec_trim;
use crate::text::parse_usize;
use crate::text::trim_str;

verus! {

/// The configuration the argument vector selects.
pub struct Options {
    /// Include entries classified as kernel threads.
    pub include_kernel: bool,
    /// Include entries classified as user threads.
    pub include_user: bool,
    /// Scan the task subdirectories of chosen processes instead of the
    /// whole procfs root.
    pub task_scope: bool,
    /// The processes whose tasks to scan when `task_scope` holds.
    pub task_pids: Vec<usize>,
}

/// The mathematical image of an `Options` value.
#[verifier::ext_equal]
pub struct OptionsView {
    pub include_kernel: bool,
    pub include_user: bool,
    pub task_scope: bool,
    pub task_pids: Seq<usize>,
}

impl View for Options {
    type V = OptionsView;

    open spec fn view(&self) -> OptionsView {
        OptionsView {
            include_kernel: self.include_kernel,
            include_user: self.include_user,
            task_scope: self.task_scope,
            task_pids: self.task_pids@,
        }
    }
}

/// An argument vector the grammar rejects.
pub enum UsageError {
    /// A letter of the flag cluster outside `{k, t, u}`.
    UnknownFlag(char),
    /// The flag `t` with no argument position left for a pid.
    TaskWithoutPid,
    /// A pid argument that is not a positive decimal number; holds the
    /// trimmed argument, for the diagnostic.
    InvalidPid(String),
}

/// The mathematical image of a `UsageError`.
#[verifier::ext_equal]
pub enum UsageErrorView {
    UnknownFlag(char),
    TaskWithoutPid,
    InvalidPid(Seq<char>),
}

impl View for UsageError {
    type V = UsageErrorView;

    open spec fn view(&self) -> UsageErrorView {
        match self {
            UsageError::UnknownFlag(c) => UsageErrorView::UnknownFlag(*c),
            UsageError::TaskWithoutPid => UsageErrorView::TaskWithoutPid,
            UsageError::InvalidPid(s) => UsageErrorView::InvalidPid(s@),
        }
    }
}

/// A letter the flag cluster accepts.
pub open spec fn flag_known(c: char) -> bool {
    c == 'k' || c == 't' || c == 'u'
}

/// A flag letter that makes the argument vector unusable: an unknown
/// letter, or `t` when no argument position is left for a pid.
pub open spec fn flag_bad(c: char, argc: int) -> bool {
    !flag_known(c) || (c == 't' && argc < 3)
}

/// The first index at or after `i` whose letter is bad, or the cluster's
/// length when none is.
pub open spec fn first_bad_flag(cluster: Seq<char>, argc: int, i: int) -> int
    decreases cluster.len() - i,
{
    if i < 0 || i >= cluster.len() {
        cluster.len() as int
    } else if flag_bad(cluster[i], argc) {
        i
    } else {
        first_bad_flag(cluster, argc, i + 1)
    }
}

/// The error the flag cluster produces, if any: the first bad letter decides.
pub open spec fn cluster_error(cluster: Seq<char>, argc: int) -> Option<UsageErrorView> {
    let b = first_bad_flag(cluster, argc, 0);
    if b >= cluster.len() {
        None
    } else if !flag_known(cluster[b]) {
        Some(UsageErrorView::UnknownFlag(cluster[b]))
    } else {
        Some(UsageErrorView::TaskWithoutPid)
    }
}

/// A pid argument's digits: its trimmed text, less one leading `'+'`
/// sign if present.
pub open spec fn spec_pid_digits(s: Seq<char>) -> Seq<char> {
    let t = spec_trim(s);
    if t.len() > 0 && t[0] == '+' {
        t.drop_first()
    } else {
        t
    }
}

/// What a pid argument denotes: its trimmed text, an optional `'+'` sign
/// allowed, read as a positive decimal number.
pub open spec fn spec_pid_arg(s: Seq<char>) -> Option<usize> {
    match spec_parse_usize(spec_pid_digits(s)) {
        Some(v) => if v > 0 {
            Some(v)
        } else {
            None
        },
        None => None,
    }
}

/// The first index at or after `i` whose argument is not a valid pid, or
/// `args.len()` when all are.
pub open spec fn first_bad_pid(args: Seq<Seq<char>>, i: int) -> int
    decreases args.len() - i,
{
    if i < 0 || i >= args.len() {
        args.len() as int
    } else if spec_pid_arg(args[i]) is None {
        i
    } else {
        first_bad_pid(args, i + 1)
    }
}

/// What applying the argument vector `args` to the configuration `o`
/// yields: the adjusted configuration, or the first usage error.
///
/// `args` is the full vector, program name first.  The letters `k` and `u`
/// drop user and kernel entries respectively; `t` selects task scope, and
/// the arguments after the cluster are then the pids whose tasks to scan.
/// Without task scope those arguments are ignored.
pub open spec fn spec_apply(o: OptionsView, args: Seq<Seq<char>>) -> Result<
    OptionsView,
    UsageErrorView,
> {
    let argc = args.len() as int;
    let cluster = if argc >= 2 {
        args[1]
    } else {
        Seq::<char>::empty()
    };
    match cluster_error(cluster, argc) {
        Some(e) => Err(e),
        None => {
            let scope = o.task_scope || cluster.contains('t');
            let kept = OptionsView {
                include_kernel: o.include_kernel && !cluster.contains('u'),
                include_user: o.include_user && !cluster.contains('k'),
                task_scope: scope,
                task_pids: o.task_pids,
            };
            if scope && argc >= 3 {
                let bad = first_bad_pid(args.subrange(2, argc), 0);
                if bad < argc - 2 {
                    Err(UsageErrorView::InvalidPid(spec_trim(args[bad + 2])))
                } else {
                    Ok(
                        OptionsView {
                            task_pids: Seq::new(
                                (argc - 2) as nat,
                                |i: int| spec_pid_val(args[i + 2]),
                            ),
                            ..kept
                        },
                    )
                }
            } else {
                Ok(kept)
            }
        },
    }
}

/// The value of a valid pid argument.
pub open spec fn spec_pid_val(s: Seq<char>) -> usize {
    match spec_pid_arg(s) {
        Some(v) => v,
        None => 0,
    }
}

proof fn lemma_first_bad_flag_is(cluster: Seq<char>, argc: int, i: int)
    requires
        0 <= i <= cluster.len(),
        forall|j: int| 0 <= j < i ==> !flag_bad(#[trigger] cluster[j], argc),
        i < cluster.len() ==> flag_bad(cluster[i], argc),
    ensures
        first_bad_flag(cluster, argc, 0) == i,
    decreases i,
{
    lemma_first_bad_flag_from(cluster, argc, i, 0);
}

proof fn lemma_first_bad_flag_from(cluster: Seq<char>, argc: int, i: int, k: int)
    requires
        0 <= k <= i <= cluster.len(),
        forall|j: int| k <= j < i ==> !flag_bad(#[trigger] cluster[j], argc),
        i < cluster.len() ==> flag_bad(cluster[i], argc),
    ensures
        first_bad_flag(cluster, argc, k) == i,
    decreases i - k,
{
    if k < i {
        lemma_first_bad_flag_from(cluster, argc, i, k + 1);
    }
}

proof fn lemma_no_bad_flag(cluster: Seq<char>, argc: int, k: int)
    requires
        0 <= k <= cluster.len(),
        first_bad_flag(cluster, argc, k) >= cluster.len(),
    ensures
        forall|j: int| k <= j < cluster.len() ==> !flag_bad(#[trigger] cluster[j], argc),
    decreases cluster.len() - k,
{
    if k < cluster.len() {
        lemma_no_bad_flag(cluster, argc, k + 1);
    }
}

/// The configuration invariant holds after a successful application:
/// whenever task scope is selected, at least one pid is listed.
pub proof fn lemma_apply_keeps_pid_invariant(o: OptionsView, args: Seq<Seq<char>>)
    requires
        o.task_scope ==> o.task_pids.len() > 0,
    ensures
        match spec_apply(o, args) {
            Ok(p) => p.task_scope ==> p.task_pids.len() > 0,
            Err(_) => true,
        },
{
    let argc = args.len() as int;
    let cluster = if argc >= 2 {
        args[1]
    } else {
        Seq::<char>::empty()
    };
    if cluster_error(cluster, argc) is None {
        lemma_no_bad_flag(cluster, argc, 0);
        if cluster.contains('t') {
            let j = choose|j: int| 0 <= j < cluster.len() && cluster[j] == 't';
            assert(!flag_bad(cluster[j], argc));
        }
    }
}

proof fn lemma_first_bad_pid_from(args: Seq<Seq<char>>, i: int, k: int)
    requires
        0 <= k <= i <= args.len(),
        forall|j: int| k <= j < i ==> spec_pid_arg(#[trigger] args[j]) is Some,
        i < args.len() ==> spec_pid_arg(args[i]) is None,
    ensures
        first_bad_pid(args, k) == i,
    decreases i - k,
{
    if k < i {
        lemma_first_bad_pid_from(args, i, k + 1);
    }
}

impl Options {
    /// The configuration before any argument is applied: both thread
    /// classes included, the whole procfs root scanned.
    pub fn default_options() -> (r: Options)
        ensures
            r@ == (OptionsView {
                include_kernel: true,
                include_user: true,
                task_scope: false,
                task_pids: Seq::<usize>::empty(),
            }),
    {
        let r = Options {
            include_kernel: true,
            include_user: true,
            task_scope: false,
            task_pids: Vec::new(),
        };
        proof {
            assert(r@.task_pids =~= Seq::<usize>::empty());
        }
        r
    }

    /// Apply an argument vector, program name first, to this configuration.
    ///
    /// On a usage error the configuration is left as it was and the first
    /// error of the vector is returned.
    #[verifier::loop_isolation(false)]
    pub fn apply(&mut self, args: &Vec<String>) -> (r: Result<(), UsageError>)
        ensures
            match r {
                Ok(_) => spec_apply(old(self)@, args.deep_view()) == Ok::<_, UsageErrorView>(
                    final(self)@,
                ),
                Err(e) => spec_apply(old(self)@, args.deep_view()) == Err::<OptionsView, _>(e@)
                    && final(self)@ == old(self)@,
            },
    {
        let ghost args_v: Seq<Seq<char>> = args.deep_view();
        let argc: usize = args.len();
        let mut include_kernel = self.include_kernel;
        let mut include_user = self.include_user;
        let mut task_scope = self.task_scope;
        proof {
            assert(args_v.len() == argc);
            assert(forall|i: int| 0 <= i < argc ==> args_v[i] == #[trigger] args@[i]@);
        }
        if argc >= 2 {
            let cluster: &str = args[1].as_str();
            let n: usize = cluster.unicode_len();
            let mut i: usize = 0;
            while i < n
                invariant
                    0 <= i <= n,
                    forall|j: int| 0 <= j < i ==> !flag_bad(#[trigger] cluster@[j], argc as int),
                    include_kernel == (old(self).include_kernel && !cluster@.subrange(
                        0,
                        i as int,
                    ).contains('u')),
                    include_user == (old(self).include_user && !cluster@.subrange(
                        0,
                        i as int,
                    ).contains('k')),
                    task_scope == (old(self).task_scope || cluster@.subrange(0, i as int).contains(
                        't',
                    )),
                    self == old(self),
                decreases n - i,
            {
                let ghost pre = cluster@.subrange(0, i as int);
                let ghost post = cluster@.subrange(0, i + 1);
                proof {
                    broadcast use vstd::seq_lib::lemma_seq_contains_after_push;

                    assert(post =~= pre.push(cluster@[i as int]));
                }
                let c = cluster.get_char(i);
                match c {
                    'k' => {
                        include_user = false;
                    },
                    'u' => {
                        include_kernel = false;
                    },
                    't' => {
                        if argc >= 3 {
                            task_scope = true;
                        } else {
                            proof {
                                lemma_first_bad_flag_is(cluster@, argc as int, i as int);
                            }
                            return Err(UsageError::TaskWithoutPid);
                        }
                    },
                    _ => {
                        proof {
                            lemma_first_bad_flag_is(cluster@, argc as int, i as int);
                        }
                        return Err(UsageError::UnknownFlag(c));
                    },
                }
                i = i + 1;
            }
            proof {
                lemma_first_bad_flag_is(cluster@, argc as int, n as int);
                assert(cluster@.subrange(0, n as int) =~= cluster@);
            }
        } else {
            proof {
                assert(first_bad_flag(Seq::<char>::empty(), argc as int, 0) == 0);
            }
        }
        if task_scope && argc >= 3 {
            let ghost tail = args_v.subrange(2, argc as int);
            let mut pids: Vec<usize> = Vec::new();
            let mut i: usize = 2;
            while i < argc
                invariant
                    2 <= i <= argc,
                    pids.len() == i - 2,
                    forall|j: int|
                        0 <= j < i - 2 ==> spec_pid_arg(#[trigger] tail[j]) == Some(pids@[j]),
                    self == old(self),
                decreases argc - i,
            {
                let trimmed: &str = trim_str(args[i].as_str());
                proof {
                    assert(tail[i - 2] == args_v[i as int]);
                }
                let tn: usize = trimmed.unicode_len();
                let digits: &str = if tn > 0 && trimmed.get_char(0) == '+' {
                    trimmed.substring_char(1, tn)
                } else {
                    trimmed
                };
                proof {
                    assert(digits@ =~= spec_pid_digits(args_v[i as int]));
                }
                let good = match parse_usize(digits) {
                    Some(v) => if v > 0 {
                        Some(v)
                    } else {
                        None
                    },
                    None => None,
                };
                match good {
                    Some(v) => {
                        pids.push(v);
                    },
                    None => {
                        proof {
                            lemma_first_bad_pid_from(tail, i - 2, 0);
                        }
                        return Err(
                            UsageError::InvalidPid(trimmed.to_owned()),
                        );
                    },
                }
                i = i + 1;
            }
            proof {
                lemma_first_bad_pid_from(tail, tail.len() as int, 0);
                assert forall|j: int| 0 <= j < argc - 2 implies pids@[j] == spec_pid_val(
                    args_v[j + 2],
                ) by {
                    assert(tail[j] == args_v[j + 2]);
                    assert(spec_pid_arg(tail[j]) == Some(pids@[j]));
                }
                assert(pids@ =~= Seq::new((argc - 2) as nat, |j: int| spec_pid_val(args_v[j + 2])));
            }
            self.include_kernel = include_kernel;
            self.include_user = include_user;
            self.task_scope = task_scope;
            self.task_pids = pids;
        } else {
            self.include_kernel = include_kernel;
            self.include_user = include_user;
            self.task_scope = task_scope;
        }
        Ok(())
    }

}

} // verus!

//! Parsing the procfs stat line.
//!
//! Only the parent-process id is consumed.  The command field of a stat line
//! is wrapped in parentheses and may itself contain spaces and parentheses,
//! so the only robust anchor is the last `')'` of the line: everything after
//! it is split on single spaces and the third token is the parent-process id.

use vstd::prelude::*;
use vstd::string::StrSliceExecFns;
use crate::text::spec_parse_usize;
use crate::text::parse_usize;

verus! {

/// The part of a stat line this tool consumes.
#[derive(Debug, PartialEq, Eq, Structural)]
pub struct ProcStat {
    /// The parent-process id.
    pub ppid: usize,
}

/// A stat line from which no parent-process id could be extracted.
#[derive(Debug, PartialEq, Eq, Structural)]
pub struct StatParseError;

/// The index of the last `')'` of `s`, or `-1` if there is none.
pub open spec fn last_close_paren(s: Seq<char>) -> int
    decreases s.len(),
{
    if s.len() == 0 {
        -1
    } else if s.last() == ')' {
        s.len() - 1
    } else {
        last_close_paren(s.drop_last())
    }
}

/// Everything after the last `')'` of `s`.
pub open spec fn after_last_paren(s: Seq<char>) -> Seq<char> {
    s.subrange(last_close_paren(s) + 1, s.len() as int)
}

/// The index of the first `' '` of `s`, or `-1` if there is none.
pub open spec fn first_space(s: Seq<char>) -> int
    decreases s.len(),
{
    if s.len() == 0 {
        -1
    } else if s[0] == ' ' {
        0
    } else {
        let r = first_space(s.drop_first());
        if r == -1 {
            -1
        } else {
            r + 1
        }
    }
}

proof fn lemma_first_space_bounds(s: Seq<char>)
    ensures
        -1 <= first_space(s) < s.len(),
    decreases s.len(),
{
    if s.len() > 0 && s[0] != ' ' {
        lemma_first_space_bounds(s.drop_first());
    }
}

#[via_fn]
proof fn token_at_decreases(s: Seq<char>, k: nat) {
    lemma_first_space_bounds(s);
}

/// Token `k` of `s` split on single spaces, empty tokens included, or
/// `None` when `s` has at most `k` tokens.
pub open spec fn token_at(s: Seq<char>, k: nat) -> Option<Seq<char>>
    decreases s.len(),
    via token_at_decreases
{
    let f = first_space(s);
    if f == -1 {
        if k == 0 {
            Some(s)
        } else {
            None
        }
    } else if k == 0 {
        Some(s.subrange(0, f))
    } else {
        token_at(s.subrange(f + 1, s.len() as int), (k - 1) as nat)
    }
}

/// The parent-process id of a stat line: the third space-separated token
/// after the last `')'`, read as a decimal number.  A line without any
/// `')'` has no anchor for the command field and yields nothing.
pub open spec fn spec_parse_stat(s: Seq<char>) -> Option<usize> {
    if last_close_paren(s) == -1 {
        None
    } else {
        match token_at(after_last_paren(s), 2) {
            Some(t) => spec_parse_usize(t),
            None => None,
        }
    }
}

/// A position that holds `')'` with none later is the last `')'`.
proof fn lemma_last_close_paren_is(s: Seq<char>, i: int)
    requires
        0 <= i < s.len(),
        s[i] == ')',
        forall|j: int| i < j < s.len() ==> s[j] != ')',
    ensures
        last_close_paren(s) == i,
    decreases s.len(),
{
    if i == s.len() - 1 {
    } else {
        assert(s.last() != ')');
        assert(s.drop_last()[i] == s[i]);
        assert forall|j: int| i < j < s.drop_last().len() implies s.drop_last()[j] != ')' by {
            assert(s.drop_last()[j] == s[j]);
        }
        lemma_last_close_paren_is(s.drop_last(), i);
    }
}

proof fn lemma_no_close_paren(s: Seq<char>)
    requires
        forall|j: int| 0 <= j < s.len() ==> s[j] != ')',
    ensures
        last_close_paren(s) == -1,
    decreases s.len(),
{
    if s.len() > 0 {
        assert forall|j: int| 0 <= j < s.drop_last().len() implies s.drop_last()[j] != ')' by {
            assert(s.drop_last()[j] == s[j]);
        }
        lemma_no_close_paren(s.drop_last());
    }
}

/// A position that holds `' '` with none earlier is the first `' '`.
proof fn lemma_first_space_is(s: Seq<char>, i: int)
    requires
        0 <= i < s.len(),
        s[i] == ' ',
        forall|j: int| 0 <= j < i ==> s[j] != ' ',
    ensures
        first_space(s) == i,
    decreases s.len(),
{
    if i == 0 {
    } else {
        assert(s[0] != ' ');
        assert(s.drop_first()[i - 1] == s[i]);
        assert forall|j: int| 0 <= j < i - 1 implies s.drop_first()[j] != ' ' by {
            assert(s.drop_first()[j] == s[j + 1]);
        }
        lemma_first_space_is(s.drop_first(), i - 1);
    }
}

proof fn lemma_no_space(s: Seq<char>)
    requires
        forall|j: int| 0 <= j < s.len() ==> s[j] != ' ',
    ensures
        first_space(s) == -1,
    decreases s.len(),
{
    if s.len() > 0 {
        assert forall|j: int| 0 <= j < s.drop_first().len() implies s.drop_first()[j] != ' ' by {
            assert(s.drop_first()[j] == s[j + 1]);
        }
        lemma_no_space(s.drop_first());
    }
}

/// Find the first `' '` of `s`, if any.
#[verifier::loop_isolation(false)]
fn find_first_space(s: &str) -> (r: Option<usize>)
    ensures
        match r {
            Some(i) => first_space(s@) == i as int,
            None => first_space(s@) == -1,
        },
{
    let n: usize = s.unicode_len();
    let mut i: usize = 0;
    while i < n
        invariant
            0 <= i <= n,
            forall|j: int| 0 <= j < i ==> s@[j] != ' ',
        decreases n - i,
    {
        if s.get_char(i) == ' ' {
            proof {
                lemma_first_space_is(s@, i as int);
            }
            return Some(i);
        }
        i = i + 1;
    }
    proof {
        lemma_no_space(s@);
    }
    None
}

/// Token `k` of `s` split on single spaces, if `s` has that many tokens.
fn nth_token<'a>(s: &'a str, k: usize) -> (r: Option<&'a str>)
    ensures
        match r {
            Some(t) => token_at(s@, k as nat) == Some(t@),
            None => token_at(s@, k as nat) is None,
        },
    decreases s@.len(),
{
    let n: usize = s.unicode_len();
    match find_first_space(s) {
        None => {
            if k == 0 {
                Some(s)
            } else {
                None
            }
        },
        Some(f) => {
            proof {
                lemma_first_space_bounds(s@);
            }
            if k == 0 {
                Some(s.substring_char(0, f))
            } else {
                nth_token(s.substring_char(f + 1, n), k - 1)
            }
        },
    }
}

impl ProcStat {
    /// Parse a stat line: take everything after the last `')'`, split it on
    /// single spaces, and read the third token as the parent-process id.
    ///
    /// Fails exactly when the line holds no `')'`, when that token is
    /// missing, or when it is not a decimal number.
    #[verifier::loop_isolation(false)]
    pub fn from_line(s: &str) -> (r: Result<ProcStat, StatParseError>)
        ensures
            match r {
                Ok(ps) => spec_parse_stat(s@) == Some(ps.ppid),
                Err(_) => spec_parse_stat(s@) is None,
            },
    {
        let n: usize = s.unicode_len();
        let mut last_paren: Option<usize> = None;
        let mut i: usize = 0;
        while i < n
            invariant
                0 <= i <= n,
                match last_paren {
                    Some(p) => {
                        &&& 0 <= p < i
                        &&& s@[p as int] == ')'
                        &&& forall|j: int| p < j < i ==> s@[j] != ')'
                    },
                    None => forall|j: int| 0 <= j < i ==> s@[j] != ')',
                },
            decreases n - i,
        {
            if s.get_char(i) == ')' {
                last_paren = Some(i);
            }
            i = i + 1;
        }
        let start: usize = match last_paren {
            Some(p) => {
                proof {
                    lemma_last_close_paren_is(s@, p as int);
                }
                p + 1
            },
            None => {
                proof {
                    lemma_no_close_paren(s@);
                }
                return Err(StatParseError);
            },
        };
        let rest = s.substring_char(start, n);
        proof {
            assert(rest@ =~= after_last_paren(s@));
        }
        let tok = match nth_token(rest, 2) {
            Some(t) => t,
            None => {
                return Err(StatParseError);
            },
        };
        match parse_usize(tok) {
            Some(v) => Ok(ProcStat { ppid: v }),
            None => Err(StatParseError),
        }
    }
}

} // verus!

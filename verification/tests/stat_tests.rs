use stacks::stat::ProcStat;
use stacks::stat::StatParseError;

#[test]
fn typical_stat_line() {
    let ps = ProcStat::from_line("7 (kworker/0:1) S 2 0 0 0 -1").unwrap();
    assert_eq!(ps.ppid, 2);
}

#[test]
fn user_thread_stat_line() {
    let ps = ProcStat::from_line("101 (a) S 50 101 101 0 -1").unwrap();
    assert_eq!(ps.ppid, 50);
}

#[test]
fn command_with_parens_and_spaces() {
    let ps = ProcStat::from_line("42 (we) ird (name) S 7 1 2").unwrap();
    assert_eq!(ps.ppid, 7);
}

#[test]
fn command_with_newline() {
    let ps = ProcStat::from_line("42 (two\nlines) S 9 1 2").unwrap();
    assert_eq!(ps.ppid, 9);
}

#[test]
fn line_without_parens_fails() {
    assert_eq!(ProcStat::from_line("1 comm S 4"), Err(StatParseError));
}

#[test]
fn numeric_line_without_parens_still_fails() {
    assert_eq!(ProcStat::from_line("5 6 7 8"), Err(StatParseError));
}

#[test]
fn too_few_tokens_after_paren() {
    assert_eq!(ProcStat::from_line("1 (c) S"), Err(StatParseError));
    assert_eq!(ProcStat::from_line("1 (c)"), Err(StatParseError));
}

#[test]
fn empty_line() {
    assert_eq!(ProcStat::from_line(""), Err(StatParseError));
}

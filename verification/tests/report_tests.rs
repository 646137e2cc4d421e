use stacks::entry::ThreadEntry;
use stacks::groups::StackMap;
use stacks::report::display_proc_names;
use stacks::report::render_report;

fn entry(pid: usize, comm: &str, stack: &str) -> ThreadEntry {
    ThreadEntry { pid, comm: comm.to_string(), stack: stack.to_string() }
}

fn futex_fixture() -> StackMap {
    let mut m = StackMap::new();
    m.insert_entry(entry(101, "a\n", "[<0>] __x64_sys_futex+0x1\n"));
    m.insert_entry(entry(102, "b\n", "[<0>] __x64_sys_futex+0x1\n"));
    m
}

#[test]
fn names_are_trimmed_and_listed_with_pids() {
    let procs = vec![entry(101, "a\n", "x\n"), entry(102, "b\n", "x\n")];
    assert_eq!(display_proc_names(&procs), "(a [101]), (b [102]), ");
}

#[test]
fn names_of_equal_count_keep_first_occurrence_order() {
    let procs = vec![entry(101, "b\n", "x\n"), entry(102, "a\n", "x\n")];
    assert_eq!(display_proc_names(&procs), "(b [101]), (a [102]), ");
}

#[test]
fn names_are_ordered_by_falling_count() {
    let procs = vec![
        entry(101, "b\n", "x\n"),
        entry(102, "a\n", "x\n"),
        entry(103, "a\n", "x\n"),
    ];
    assert_eq!(display_proc_names(&procs), "(a [102, 103]), (b [101]), ");
}

#[test]
fn pid_lists_keep_scan_order() {
    let procs = vec![
        entry(9, "w\n", "x\n"),
        entry(3, "w\n", "x\n"),
        entry(5, "w\n", "x\n"),
    ];
    assert_eq!(display_proc_names(&procs), "(w [9, 3, 5]), ");
}

#[test]
fn two_threads_one_stack() {
    let out = render_report(futex_fixture());
    assert_eq!(
        out,
        "2\n(a [101]), (b [102]), \n\n[<0>] __x64_sys_futex+0x1\n\n"
    );
}

#[test]
fn empty_mapping_renders_nothing() {
    let out = render_report(StackMap::new());
    assert_eq!(out, "");
}

#[test]
fn single_thread_group_of_size_one() {
    let mut m = StackMap::new();
    m.insert_entry(entry(5, "a\n", "X"));
    let out = render_report(m);
    assert_eq!(out, "1\n(a [5]), \n\nX\n");
}

#[test]
fn groups_are_ordered_by_falling_size() {
    let mut m = StackMap::new();
    m.insert_entry(entry(1, "a\n", "one\n"));
    m.insert_entry(entry(2, "b\n", "three\n"));
    m.insert_entry(entry(3, "c\n", "three\n"));
    m.insert_entry(entry(4, "d\n", "three\n"));
    m.insert_entry(entry(5, "e\n", "two\n"));
    m.insert_entry(entry(6, "f\n", "two\n"));
    let out = render_report(m);
    let three_at = out.find("three\n").unwrap();
    let two_at = out.find("two\n").unwrap();
    let one_at = out.find("one\n").unwrap();
    assert!(three_at < two_at);
    assert!(two_at < one_at);
    assert!(out.starts_with("3\n"));
}

#[test]
fn rendering_twice_is_byte_identical() {
    let a = render_report(futex_fixture());
    let b = render_report(futex_fixture());
    assert_eq!(a, b);
}

#[test]
fn pid_two_only_fixture_follows_include_kernel() {
    let run = |include_kernel: bool| {
        let mut o = stacks::options::Options::default_options();
        o.include_kernel = include_kernel;
        let mut m = StackMap::new();
        if let Some(e) = stacks::entry::get_proc_ent(
            &o,
            "2",
            Some("2 (kthreadd) S 0 0 0"),
            Some(String::from("kthreadd\n")),
            Some(String::from("[<0>] kthreadd+0x1\n")),
        ) {
            m.insert_entry(e);
        }
        m
    };
    let kept = run(true);
    assert_eq!(kept.len(), 1);
    assert_eq!(kept.groups[0].entries.len(), 1);
    assert_eq!(
        render_report(kept),
        "1\n(kthreadd [2]), \n\n[<0>] kthreadd+0x1\n\n"
    );
    let dropped = run(false);
    assert_eq!(dropped.len(), 0);
    assert_eq!(render_report(dropped), "");
}

#[test]
fn empty_stack_group_renders_empty_key() {
    let mut m = StackMap::new();
    m.insert_entry(entry(7, "a\n", ""));
    let out = render_report(m);
    assert_eq!(out, "1\n(a [7]), \n\n\n");
}

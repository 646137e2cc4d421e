use stacks::entry::classify;
use stacks::entry::get_proc_ent;
use stacks::entry::parse_entry_name;
use stacks::entry::ThreadClass;
use stacks::options::Options;

fn opts(kernel: bool, user: bool) -> Options {
    let mut o = Options::default_options();
    o.include_kernel = kernel;
    o.include_user = user;
    o
}

#[test]
fn classification_rule() {
    assert_eq!(classify(2, 50), ThreadClass::Kernel);
    assert_eq!(classify(7, 2), ThreadClass::Kernel);
    assert_eq!(classify(100, 50), ThreadClass::User);
    assert_eq!(classify(1, 0), ThreadClass::User);
}

#[test]
fn includes_follows_the_flags() {
    assert!(opts(true, false).includes(ThreadClass::Kernel));
    assert!(!opts(true, false).includes(ThreadClass::User));
    assert!(!opts(false, true).includes(ThreadClass::Kernel));
    assert!(opts(false, true).includes(ThreadClass::User));
}

#[test]
fn non_numeric_names_are_silently_skipped() {
    assert_eq!(parse_entry_name("self"), None);
    assert_eq!(parse_entry_name("thread-self"), None);
    assert_eq!(parse_entry_name("0"), None);
    assert_eq!(parse_entry_name("42"), Some(42));
}

#[test]
fn accepted_entry_has_all_fields_from_its_directory() {
    let o = Options::default_options();
    let e = get_proc_ent(
        &o,
        "101",
        Some("101 (a) S 50 101 101"),
        Some(String::from("a\n")),
        Some(String::from("[<0>] __x64_sys_futex+0x1\n")),
    )
    .unwrap();
    assert_eq!(e.pid, 101);
    assert_eq!(e.comm, "a");
    assert_eq!(e.stack, "[<0>] __x64_sys_futex+0x1\n");
}

#[test]
fn stored_comm_drops_exactly_one_trailing_newline() {
    let o = Options::default_options();
    let make = |comm: &str| {
        get_proc_ent(
            &o,
            "101",
            Some("101 (a) S 50 101 101"),
            Some(String::from(comm)),
            Some(String::new()),
        )
        .unwrap()
        .comm
    };
    assert_eq!(make("a\n"), "a");
    assert_eq!(make("a"), "a");
    assert_eq!(make("a\n\n"), "a\n");
    assert_eq!(make(""), "");
}

#[test]
fn failed_reads_yield_no_entry() {
    let o = Options::default_options();
    assert!(get_proc_ent(&o, "101", None, Some(String::from("a\n")), Some(String::new())).is_none());
    assert!(get_proc_ent(
        &o,
        "101",
        Some("101 (a) S 50 101 101"),
        None,
        Some(String::new())
    )
    .is_none());
    assert!(get_proc_ent(
        &o,
        "300",
        Some("300 (a) S 50 300 300"),
        Some(String::from("a\n")),
        None
    )
    .is_none());
}

#[test]
fn unparseable_stat_yields_no_entry() {
    let o = Options::default_options();
    assert!(get_proc_ent(
        &o,
        "101",
        Some("garbage"),
        Some(String::from("a\n")),
        Some(String::new())
    )
    .is_none());
}

#[test]
fn kernel_entries_follow_include_kernel() {
    let stat = "7 (kworker) S 2 0 0";
    let comm = || Some(String::from("kworker\n"));
    let stack = || Some(String::from("[<0>] rest_init+0x1\n"));
    assert!(get_proc_ent(&opts(true, true), "7", Some(stat), comm(), stack()).is_some());
    assert!(get_proc_ent(&opts(true, false), "7", Some(stat), comm(), stack()).is_some());
    assert!(get_proc_ent(&opts(false, true), "7", Some(stat), comm(), stack()).is_none());
}

#[test]
fn user_entries_follow_include_user() {
    let stat = "101 (a) S 50 101 101";
    let comm = || Some(String::from("a\n"));
    let stack = || Some(String::from("[<0>] __x64_sys_futex+0x1\n"));
    assert!(get_proc_ent(&opts(true, true), "101", Some(stat), comm(), stack()).is_some());
    assert!(get_proc_ent(&opts(false, true), "101", Some(stat), comm(), stack()).is_some());
    assert!(get_proc_ent(&opts(true, false), "101", Some(stat), comm(), stack()).is_none());
}

#[test]
fn pid_two_is_kernel_by_its_own_id() {
    let stat = "2 (kthreadd) S 0 0 0";
    let comm = || Some(String::from("kthreadd\n"));
    let stack = || Some(String::from("[<0>] kthreadd+0x1\n"));
    assert!(get_proc_ent(&opts(true, true), "2", Some(stat), comm(), stack()).is_some());
    assert!(get_proc_ent(&opts(false, true), "2", Some(stat), comm(), stack()).is_none());
}

use stacks::options::Options;
use stacks::options::UsageError;

fn args(v: &[&str]) -> Vec<String> {
    v.iter().map(|s| s.to_string()).collect()
}

#[test]
fn defaults() {
    let o = Options::default_options();
    assert!(o.include_kernel);
    assert!(o.include_user);
    assert!(!o.task_scope);
    assert!(o.task_pids.is_empty());
}

#[test]
fn no_arguments_keep_defaults() {
    let mut o = Options::default_options();
    assert!(o.apply(&args(&["stacks"])).is_ok());
    assert!(o.include_kernel && o.include_user && !o.task_scope);
}

#[test]
fn k_keeps_kernel_only() {
    let mut o = Options::default_options();
    assert!(o.apply(&args(&["stacks", "k"])).is_ok());
    assert!(o.include_kernel);
    assert!(!o.include_user);
}

#[test]
fn u_keeps_user_only() {
    let mut o = Options::default_options();
    assert!(o.apply(&args(&["stacks", "u"])).is_ok());
    assert!(!o.include_kernel);
    assert!(o.include_user);
}

#[test]
fn k_and_u_exclude_everything() {
    let mut o = Options::default_options();
    assert!(o.apply(&args(&["stacks", "ku"])).is_ok());
    assert!(!o.include_kernel);
    assert!(!o.include_user);
}

#[test]
fn t_collects_pids_in_order() {
    let mut o = Options::default_options();
    assert!(o.apply(&args(&["stacks", "t", "5", "6"])).is_ok());
    assert!(o.task_scope);
    assert_eq!(o.task_pids, vec![5, 6]);
}

#[test]
fn kt_combines() {
    let mut o = Options::default_options();
    assert!(o.apply(&args(&["stacks", "kt", "7"])).is_ok());
    assert!(o.include_kernel);
    assert!(!o.include_user);
    assert!(o.task_scope);
    assert_eq!(o.task_pids, vec![7]);
}

#[test]
fn unknown_flag_is_an_error() {
    let mut o = Options::default_options();
    let r = o.apply(&args(&["stacks", "x"]));
    assert!(matches!(r, Err(UsageError::UnknownFlag('x'))));
}

#[test]
fn t_without_pid_is_an_error() {
    let mut o = Options::default_options();
    let r = o.apply(&args(&["stacks", "t"]));
    assert!(matches!(r, Err(UsageError::TaskWithoutPid)));
}

#[test]
fn zero_pid_is_an_error() {
    let mut o = Options::default_options();
    let r = o.apply(&args(&["stacks", "t", "0"]));
    match r {
        Err(UsageError::InvalidPid(s)) => assert_eq!(s, "0"),
        _ => panic!("expected an invalid-pid error"),
    }
}

#[test]
fn non_numeric_pid_is_an_error() {
    let mut o = Options::default_options();
    let r = o.apply(&args(&["stacks", "t", "abc"]));
    assert!(matches!(r, Err(UsageError::InvalidPid(_))));
}

#[test]
fn pid_arguments_may_carry_one_plus_sign() {
    let mut o = Options::default_options();
    assert!(o.apply(&args(&["stacks", "t", "+5"])).is_ok());
    assert_eq!(o.task_pids, vec![5]);

    let mut o = Options::default_options();
    assert!(matches!(
        o.apply(&args(&["stacks", "t", "++5"])),
        Err(UsageError::InvalidPid(_))
    ));

    let mut o = Options::default_options();
    assert!(matches!(
        o.apply(&args(&["stacks", "t", "+0"])),
        Err(UsageError::InvalidPid(_))
    ));
}

#[test]
fn pid_arguments_are_trimmed() {
    let mut o = Options::default_options();
    assert!(o.apply(&args(&["stacks", "t", " 5 "])).is_ok());
    assert_eq!(o.task_pids, vec![5]);
}

#[test]
fn extra_arguments_without_t_are_ignored() {
    let mut o = Options::default_options();
    assert!(o.apply(&args(&["stacks", "k", "junk"])).is_ok());
    assert!(!o.task_scope);
    assert!(o.task_pids.is_empty());
}

#[test]
fn error_leaves_options_unchanged() {
    let mut o = Options::default_options();
    let _ = o.apply(&args(&["stacks", "kx"]));
    assert!(o.include_kernel && o.include_user && !o.task_scope);
}

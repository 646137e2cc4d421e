use stacks::options::Options;
use stacks::paths::base_dirs;

#[test]
fn default_scan_uses_the_procfs_root() {
    let o = Options::default_options();
    assert_eq!(base_dirs(&o), vec!["/proc".to_string()]);
}

#[test]
fn task_scope_scans_each_chosen_process() {
    let mut o = Options::default_options();
    o.task_scope = true;
    o.task_pids = vec![200, 7];
    assert_eq!(
        base_dirs(&o),
        vec!["/proc/200/task".to_string(), "/proc/7/task".to_string()]
    );
}

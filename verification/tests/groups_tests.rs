use stacks::entry::ThreadEntry;
use stacks::groups::StackMap;

fn entry(pid: usize, comm: &str, stack: &str) -> ThreadEntry {
    ThreadEntry { pid, comm: comm.to_string(), stack: stack.to_string() }
}

#[test]
fn same_stack_shares_a_group() {
    let mut m = StackMap::new();
    m.insert_entry(entry(101, "a\n", "[<0>] futex\n"));
    m.insert_entry(entry(102, "b\n", "[<0>] futex\n"));
    assert_eq!(m.len(), 1);
    assert_eq!(m.groups[0].entries.len(), 2);
    assert_eq!(m.groups[0].stack, "[<0>] futex\n");
}

#[test]
fn distinct_stacks_make_distinct_groups() {
    let mut m = StackMap::new();
    m.insert_entry(entry(1, "a\n", "x\n"));
    m.insert_entry(entry(2, "b\n", "y\n"));
    assert_eq!(m.len(), 2);
}

#[test]
fn group_sizes_sum_to_the_number_inserted() {
    let mut m = StackMap::new();
    m.insert_entry(entry(1, "a\n", "x\n"));
    m.insert_entry(entry(2, "b\n", "y\n"));
    m.insert_entry(entry(3, "c\n", "x\n"));
    let total: usize = m.groups.iter().map(|g| g.entries.len()).sum();
    assert_eq!(total, 3);
}

#[test]
fn entries_keep_scan_order_within_a_group() {
    let mut m = StackMap::new();
    m.insert_entry(entry(5, "a\n", "x\n"));
    m.insert_entry(entry(3, "b\n", "x\n"));
    m.insert_entry(entry(9, "c\n", "x\n"));
    let pids: Vec<usize> = m.groups[0].entries.iter().map(|e| e.pid).collect();
    assert_eq!(pids, vec![5, 3, 9]);
}

#[test]
fn empty_stack_is_a_valid_key() {
    let mut m = StackMap::new();
    m.insert_entry(entry(7, "a\n", ""));
    assert_eq!(m.len(), 1);
    assert_eq!(m.groups[0].stack, "");
    assert_eq!(m.groups[0].entries.len(), 1);
}

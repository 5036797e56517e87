use host_audit::process_scan::{find_rogue_procs, process_label, ProcessEntry};

fn entry(name: &str, pid: u32) -> ProcessEntry {
    ProcessEntry { name: name.to_string(), pid }
}

fn sorted(mut v: Vec<String>) -> Vec<String> {
    v.sort();
    v
}

#[test]
fn empty_table_gives_no_entries() {
    let table: Vec<ProcessEntry> = Vec::new();
    assert!(find_rogue_procs(&table).is_empty());
}

#[test]
fn clean_table_gives_no_entries() {
    let table = vec![entry("bash", 1), entry("sshd", 220), entry("systemd", 1000)];
    assert_eq!(find_rogue_procs(&table), Vec::<String>::new());
}

#[test]
fn every_blacklisted_name_is_reported() {
    let table = vec![
        entry("xmrig", 10),
        entry("gdb", 11),
        entry("strace", 12),
        entry("tcpdump", 13),
        entry("nc", 14),
        entry("ncat", 15),
    ];
    assert_eq!(
        find_rogue_procs(&table),
        vec!["xmrig:10", "gdb:11", "strace:12", "tcpdump:13", "nc:14", "ncat:15"]
    );
}

#[test]
fn only_exact_names_match() {
    let table = vec![
        entry("bash", 1),
        entry("xmrig", 42),
        entry("ncatx", 3),
        entry("NC", 5),
        entry("gdbserver", 6),
        entry(" nc", 8),
        entry("ncat", 1000),
    ];
    assert_eq!(find_rogue_procs(&table), vec!["xmrig:42", "ncat:1000"]);
}

#[test]
fn duplicate_names_are_each_reported() {
    let table = vec![entry("gdb", 7), entry("init", 1), entry("gdb", 9)];
    assert_eq!(find_rogue_procs(&table), vec!["gdb:7", "gdb:9"]);
}

#[test]
fn table_order_does_not_change_the_entries() {
    let a = vec![entry("nc", 3), entry("cron", 4), entry("strace", 77), entry("xmrig", 5)];
    let b = vec![entry("xmrig", 5), entry("strace", 77), entry("nc", 3), entry("cron", 4)];
    let ra = find_rogue_procs(&a);
    let rb = find_rogue_procs(&b);
    assert_eq!(ra.len(), 3);
    assert_eq!(sorted(ra), sorted(rb));
}

#[test]
fn label_renders_pid_in_decimal() {
    assert_eq!(process_label(&entry("nc", 0)), "nc:0");
    assert_eq!(process_label(&entry("nc", 9)), "nc:9");
    assert_eq!(process_label(&entry("tcpdump", 10)), "tcpdump:10");
    assert_eq!(process_label(&entry("gdb", 4070)), "gdb:4070");
    assert_eq!(process_label(&entry("xmrig", u32::MAX)), "xmrig:4294967295");
}

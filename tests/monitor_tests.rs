use who_monitor::{
    after_drain, after_wait, all_valid, entries_from, entry_of, indicator_icon, is_ignored,
    item_style, live_entries, make_label, pids_of, store_changed, token_of, AfterDrain, AfterWait,
    CivilTime, DrainRead, Entry, Icon, ItemStyle, Message, MonitorError, Outbox, Probe,
    SessionRecord, Step, Tracker, WaitResult, STORE_TOKEN,
};

fn utc(year: i32, month: u8, day: u8, hour: u8, minute: u8, second: u8) -> CivilTime {
    CivilTime { year, month, day, hour, minute, second, offset_seconds: 0 }
}

fn record(pid: i32, user: &str, line: &str, host: &str, local: bool) -> SessionRecord {
    let stored = utc(2024, 3, 5, 7, 8, 9);
    let local = if local {
        Some(CivilTime { hour: 9, offset_seconds: 7200, ..stored })
    } else {
        None
    };
    SessionRecord {
        pid,
        user: user.to_string(),
        line: line.to_string(),
        host: host.to_string(),
        stored,
        local,
    }
}

fn s(x: &str) -> String {
    x.to_string()
}

#[test]
fn label_without_host_has_no_suffix() {
    let l = make_label(&s("2024-03-05 07:08:09"), &s("alice"), &s(":0"), &s(""));
    assert_eq!(l, "2024-03-05 07:08:09 - alice / :0");
    assert!(!l.contains(" @ "));
}

#[test]
fn label_with_host_ends_with_suffix() {
    let l = make_label(&s("T"), &s("bob"), &s("pts/1"), &s("example"));
    assert_eq!(l, "T - bob / pts/1 @ example");
    assert!(l.ends_with(" @ example"));
}

#[test]
fn clock_text_is_zero_padded() {
    assert_eq!(utc(2024, 3, 5, 7, 8, 9).clock(), "2024-03-05 07:08:09");
    assert_eq!(utc(987, 12, 31, 23, 59, 0).clock(), "0987-12-31 23:59:00");
}

#[test]
fn clock_with_offset_writes_sign_and_parts() {
    assert_eq!(utc(2024, 3, 5, 7, 8, 9).clock_with_offset(), "2024-03-05 07:08:09 +00:00:00");
    let t = CivilTime { offset_seconds: -(5 * 3600 + 30 * 60), ..utc(2001, 1, 2, 3, 4, 5) };
    assert_eq!(t.clock_with_offset(), "2001-01-02 03:04:05 -05:30:00");
    let t = CivilTime { offset_seconds: 93599, ..utc(2001, 1, 2, 3, 4, 5) };
    assert_eq!(t.clock_with_offset(), "2001-01-02 03:04:05 +25:59:59");
    let t = CivilTime { offset_seconds: -30, ..utc(2001, 1, 2, 3, 4, 5) };
    assert_eq!(t.clock_with_offset(), "2001-01-02 03:04:05 -00:00:30");
}

#[test]
fn civil_time_validity() {
    assert!(utc(2024, 3, 5, 7, 8, 9).is_valid());
    assert!(!utc(2024, 13, 5, 7, 8, 9).is_valid());
    assert!(!utc(10000, 1, 5, 7, 8, 9).is_valid());
    assert!(!utc(2024, 1, 0, 7, 8, 9).is_valid());
    assert!(!CivilTime { offset_seconds: 93600, ..utc(2024, 1, 1, 0, 0, 0) }.is_valid());
    assert!(all_valid(&vec![record(1, "a", "b", "", true)]));
    let mut bad = record(1, "a", "b", "", false);
    bad.stored.hour = 24;
    assert!(!all_valid(&vec![record(1, "a", "b", "", true), bad]));
}

#[test]
fn entry_uses_local_time_when_known() {
    let e = entry_of(&record(42, "alice", ":0", "", true), Probe::Delivered, &s(":0")).unwrap();
    assert_eq!(e.label, "2024-03-05 09:08:09 - alice / :0");
    let e = entry_of(&record(42, "alice", ":0", "", false), Probe::Delivered, &s(":0")).unwrap();
    assert_eq!(e.label, "2024-03-05 07:08:09 +00:00:00 - alice / :0");
}

#[test]
fn own_display_session_is_current_and_normal() {
    let recs = vec![record(100, "alice", ":0", "", true)];
    let entries = entries_from(&recs, &vec![Probe::Delivered], &s(":0"));
    assert_eq!(entries.len(), 1);
    assert_eq!(entries[0].pid, 100);
    assert!(entries[0].is_current);
    assert!(entries[0].can_kill);
    assert!(!entries[0].should_ignore);
    assert_eq!(indicator_icon(&entries), Icon::Normal);
    assert_eq!(indicator_icon(&entries).name(), "normal");
    assert_eq!(item_style(&entries[0]), ItemStyle::Current);
}

#[test]
fn ignored_host_on_other_terminal_keeps_normal_icon() {
    let recs = vec![record(200, "gdm", "tty1", "login screen", true)];
    let entries = entries_from(&recs, &vec![Probe::Delivered], &s(":0"));
    assert_eq!(entries.len(), 1);
    assert!(!entries[0].is_current);
    assert!(entries[0].should_ignore);
    assert_eq!(indicator_icon(&entries), Icon::Normal);
    assert_eq!(item_style(&entries[0]), ItemStyle::Other { enabled: true });
}

#[test]
fn other_session_gives_warning_icon() {
    let recs = vec![record(1, "alice", ":0", "", true), record(2, "bob", "pts/3", "example", true)];
    let entries = entries_from(&recs, &vec![Probe::Delivered, Probe::NotPermitted], &s(":0"));
    assert_eq!(entries.len(), 2);
    assert_eq!(indicator_icon(&entries), Icon::Warning);
    assert_eq!(indicator_icon(&entries).name(), "warning");
    assert_eq!(item_style(&entries[1]), ItemStyle::Other { enabled: false });
}

#[test]
fn ignore_list_matches_whole_host() {
    assert!(is_ignored(&s("login screen")));
    assert!(!is_ignored(&s("login screen2")));
    assert!(!is_ignored(&s("")));
}

#[test]
fn probe_outcomes_decide_entries() {
    let recs = vec![
        record(1, "a", "tty1", "", true),
        record(2, "b", "tty2", "", true),
        record(3, "c", "tty3", "", true),
        record(4, "d", "tty4", "", true),
    ];
    let probes = vec![Probe::Delivered, Probe::NoSuchProcess, Probe::NotPermitted, Probe::OtherError];
    let entries = entries_from(&recs, &probes, &s(":0"));
    assert_eq!(pids_of(&entries), vec![1, 3, 4]);
    assert!(entries[0].can_kill);
    assert!(!entries[1].can_kill);
    assert!(entries[2].can_kill);
    assert!(entry_of(&recs[1], Probe::NoSuchProcess, &s(":0")).is_none());
}

#[test]
fn live_entries_probes_real_processes() {
    // Process 1 always exists; no process has the largest pid.
    let recs = vec![record(1, "root", "pts/0", "", true), record(i32::MAX, "ghost", "pts/9", "", true)];
    let entries = live_entries(&recs, &s(":0"));
    assert_eq!(entries.len(), 1);
    assert_eq!(entries[0].pid, 1);
}

#[test]
fn tracker_registers_new_and_releases_gone() {
    let mut t: Tracker<u32> = Tracker::new();
    let plan = t.reconcile(&vec![10, 20, 10]);
    assert_eq!(plan.to_open, vec![10, 20]);
    assert!(plan.released.is_empty());
    for pid in plan.to_open {
        t.insert(pid, pid as u32 * 100);
    }
    assert_eq!(t.len(), 2);
    let plan = t.reconcile(&vec![20, 30]);
    assert_eq!(plan.to_open, vec![30]);
    assert_eq!(plan.released, vec![(10, 1000)]);
    assert!(t.contains(20));
    assert!(!t.contains(10));
    assert_eq!(t.len(), 1);
}

#[test]
fn kept_pid_is_registered_once() {
    let mut t: Tracker<u32> = Tracker::new();
    let mut registrations = 0;
    for batch in [vec![7, 8], vec![7], vec![7, 9], vec![9, 7]] {
        let plan = t.reconcile(&batch);
        for pid in plan.to_open {
            if pid == 7 {
                registrations += 1;
            }
            t.insert(pid, 0);
        }
    }
    assert_eq!(registrations, 1);
    assert!(t.contains(7));
    assert!(t.contains(9));
    assert_eq!(t.len(), 2);
}

#[test]
fn same_batch_issues_no_actions() {
    let mut t: Tracker<u32> = Tracker::new();
    let plan = t.reconcile(&vec![5, 6]);
    for pid in plan.to_open {
        t.insert(pid, pid as u32);
    }
    let plan = t.reconcile(&vec![6, 5]);
    assert!(plan.to_open.is_empty());
    assert!(plan.released.is_empty());
    assert_eq!(t.len(), 2);
}

#[test]
fn exited_process_is_dropped_and_released() {
    let recs = vec![record(10, "a", "tty1", "", true), record(20, "b", "tty2", "", true)];
    let mut t: Tracker<&str> = Tracker::new();
    let first = entries_from(&recs, &vec![Probe::Delivered, Probe::Delivered], &s(":0"));
    let plan = t.reconcile(&pids_of(&first));
    for pid in plan.to_open {
        t.insert(pid, if pid == 10 { "fd10" } else { "fd20" });
    }
    let second = entries_from(&recs, &vec![Probe::Delivered, Probe::NoSuchProcess], &s(":0"));
    assert_eq!(pids_of(&second), vec![10]);
    let plan = t.reconcile(&pids_of(&second));
    assert!(plan.to_open.is_empty());
    assert_eq!(plan.released, vec![(20, "fd20")]);
    assert_eq!(t.len(), 1);
}

#[test]
fn read_failure_ends_the_stream() {
    let mut out = Outbox::new();
    assert!(matches!(out.update(vec![]), Some(Message::Update(_))));
    let e = MonitorError::new(Step::ReadStore, s("malformed record"));
    match out.error(e) {
        Some(Message::Error(e)) => {
            assert_eq!(e.step, Step::ReadStore);
            assert_eq!(e.describe(), "failed to read utmp: malformed record");
        }
        _ => panic!("expected the error message"),
    }
    assert!(out.closed());
    let later: Vec<Entry> = vec![];
    assert!(out.update(later).is_none());
    assert!(out.error(MonitorError::new(Step::Poll, s("x"))).is_none());
}

#[test]
fn wait_results_decide_next_step() {
    assert!(matches!(after_wait(WaitResult::Interrupted), AfterWait::WaitAgain));
    assert!(matches!(after_wait(WaitResult::Ready(vec![1234])), AfterWait::Cycle { drain: false }));
    assert!(matches!(
        after_wait(WaitResult::Ready(vec![1234, STORE_TOKEN])),
        AfterWait::Cycle { drain: true }
    ));
    match after_wait(WaitResult::Failed(s("bad fd"))) {
        AfterWait::Stop(e) => assert_eq!(e.describe(), "failed to poll: bad fd"),
        _ => panic!("expected a stop"),
    }
}

#[test]
fn drain_reads_until_nothing_pending() {
    assert!(matches!(after_drain(DrainRead::Events(3)), AfterDrain::ReadAgain));
    assert!(matches!(after_drain(DrainRead::Events(0)), AfterDrain::Drained));
    assert!(matches!(after_drain(DrainRead::WouldBlock), AfterDrain::Drained));
    match after_drain(DrainRead::Failed(s("io"))) {
        AfterDrain::Stop(e) => assert_eq!(e.step, Step::DrainStore),
        _ => panic!("expected a stop"),
    }
}

#[test]
fn tokens_follow_pids() {
    assert_eq!(token_of(0), STORE_TOKEN);
    assert_eq!(token_of(4321), 4321);
    assert_eq!(token_of(-1), 0xFFFF_FFFF);
    assert!(store_changed(&vec![5, 0]));
    assert!(!store_changed(&vec![5, 6]));
    assert!(!store_changed(&vec![]));
}

#[test]
fn duplicate_pid_keeps_last_live_record() {
    let recs = vec![
        record(5, "alice", "tty1", "", true),
        record(6, "bob", "tty6", "", true),
        record(5, "alice", "tty2", "", true),
    ];
    let d = s(":0");
    let entries = entries_from(&recs, &vec![Probe::Delivered, Probe::Delivered, Probe::Delivered], &d);
    assert_eq!(pids_of(&entries), vec![6, 5]);
    assert_eq!(entries[1].label, "2024-03-05 09:08:09 - alice / tty2");
    let entries =
        entries_from(&recs, &vec![Probe::NotPermitted, Probe::Delivered, Probe::NoSuchProcess], &d);
    assert_eq!(pids_of(&entries), vec![5, 6]);
    assert_eq!(entries[0].label, "2024-03-05 09:08:09 - alice / tty1");
    assert!(!entries[0].can_kill);
}

#[test]
fn insert_all_adds_every_opened_handle() {
    let mut t: Tracker<u32> = Tracker::new();
    let plan = t.reconcile(&vec![3, 4]);
    let opened: Vec<(i32, u32)> = plan.to_open.iter().map(|p| (*p, *p as u32 + 1)).collect();
    t.insert_all(opened);
    assert_eq!(t.len(), 2);
    assert!(t.contains(3) && t.contains(4));
    let plan = t.reconcile(&vec![4]);
    assert!(plan.to_open.is_empty());
    assert_eq!(plan.released, vec![(3, 4)]);
}

//! The record of the lock, and who holds it.

use brokkr::error::DevError;
use brokkr::lockfile::escape::{escape_value, shell_quote, unescape_value};
use brokkr::lockfile::guard::{
    acquired_line, build_state, current_invocation_args, lock_path, next_step, status_info, waiting_lines,
    LockAttempt, LockContext, LockGuard, LockStep, Phase,
};
use brokkr::lockfile::process::{
    format_bytes, format_bytes_kb, format_duration, local_boot_id, proc_starttime, process_summary_unverified,
    process_uptime_str, verified_summary, verified_uptime, verify_identity,
};
use brokkr::lockfile::registry::{Action, Event, Registry};
use brokkr::lockfile::{after_write, parse_lock_contents, read_lock_contents, ReadStep, WriteAttempt};

const BOOT: &str = "6f0b1a52-84f2-4c7e-9a55-2d8c3c1f7e11";

fn guard() -> LockGuard {
    let ctx = LockContext { project: "test", command: "lock-test", project_root: "/nonexistent" };
    let state = build_state(&ctx, &[], Some("777".to_string()), Some(BOOT.to_string()));
    LockGuard { pid: 4321, state }
}

/// Takes a lock whose file is free, and tells how many attempts it took.
fn take(held: &mut Registry, path: &str) -> usize {
    match held.acquire_at(path, Event::Asked) {
        Action::Held => return 0,
        Action::Try => {}
        _ => panic!("expected an attempt"),
    }
    assert!(matches!(held.acquire_at(path, Event::Tried(LockAttempt::Locked)), Action::Publish));
    assert!(matches!(held.acquire_at(path, Event::Published(guard())), Action::Held));
    1
}

#[test]
fn first_occurrence_parsing_ignores_stale_tail() {
    let text = "pid=100\nstarttime=5\nboot_id=b\nchild_pid=\nchild_starttime=\nmock_pids=\nprogress=\nproject=fresh\ncommand=run\nroot=/r\nargs=\nchild_pid=999\nproject=stale\n";
    let info = parse_lock_contents(text).unwrap();
    assert_eq!(info.pid, 100);
    assert_eq!(info.project, "fresh");
    assert!(info.child.is_none(), "stale child_pid tail must not win");
}

#[test]
fn escape_roundtrip() {
    for v in ["plain", "with\nnewline", "50%\r\n done", "%0A literal"] {
        assert_eq!(unescape_value(&escape_value(v)), v);
    }
    assert!(!escape_value("a\nb").contains('\n'));
}

#[test]
fn nested_guard_forwards_state_to_the_lock_file() {
    let path = "forwarding.lock";
    let mut held = Registry::new();
    take(&mut held, path);
    take(&mut held, path);
    held.lock_mut(path).set_child_pid(4242, None);
    held.lock_mut(path).add_mock_pid(5151, None);
    let published = held.lock_mut(path).set_progress(2, 5).unwrap();
    let contents = held.contents(path).unwrap();
    assert_eq!(published, contents);
    assert!(contents.contains("child_pid=4242"), "got: {contents}");
    assert!(contents.contains("mock_pids=5151:"), "got: {contents}");
    assert!(contents.contains("progress=2/5"), "got: {contents}");

    held.lock_mut(path).clear_child_pid();
    held.lock_mut(path).clear_mock_pids();
    let contents = held.contents(path).unwrap();
    assert!(contents.contains("child_pid=\n"), "got: {contents}");
    assert!(contents.contains("mock_pids=\n"), "got: {contents}");
    assert_eq!(held.count(path), 2);
}

#[test]
fn own_identity_verifies() {
    let contents = guard().contents();
    let info = parse_lock_contents(&contents).unwrap();
    assert_eq!(info.pid, 4321);
    assert!(
        verify_identity(info.pid, &info.starttime, &info.boot_id, Some(BOOT), Some("777")),
        "self-identity must verify: starttime={} boot_id={}",
        info.starttime,
        info.boot_id
    );
}

#[test]
fn wrong_tokens_fail_verification() {
    let pid = 4321;
    let boot = BOOT;
    let start = "777";
    assert!(!verify_identity(pid, "1", boot, Some(boot), Some(start)));
    assert!(!verify_identity(
        pid,
        start,
        "00000000-0000-0000-0000-000000000000",
        Some(boot),
        Some(start)
    ));
    assert!(!verify_identity(pid, "", boot, Some(boot), Some(start)));
    assert!(!verify_identity(pid, start, "", Some(boot), Some(start)));
}

#[test]
fn a_record_is_read_back() {
    let mut held = guard();
    held.state.args = "run --env A=1\n%x".to_string();
    held.set_child_pid(11, Some("5".to_string()));
    held.add_mock_pid(12, Some("6".to_string()));
    held.add_mock_pid(13, None);
    held.set_progress(1, 3);
    let info = parse_lock_contents(&(held.contents() + "pid=9\nproject=stale\n")).unwrap();
    assert_eq!(info.pid, 4321);
    assert_eq!(info.starttime, "777");
    assert_eq!(info.boot_id, BOOT);
    assert_eq!(info.project, "test");
    assert_eq!(info.command, "lock-test");
    assert_eq!(info.args, "run --env A=1\n%x");
    assert_eq!(info.project_root, "/nonexistent");
    assert_eq!(info.child, Some((11, "5".to_string())));
    assert_eq!(info.mocks, vec![(12, "6".to_string()), (13, String::new())]);
    assert_eq!(info.progress, Some((1, 3)));
    assert!(parse_lock_contents("").is_none());
}

#[test]
fn a_helper_that_is_removed_leaves_no_trace() {
    let mut held = guard();
    held.add_mock_pid(12, None);
    let before = held.contents();
    held.add_mock_pid(13, None);
    assert_eq!(held.remove_mock_pid(13), before);
}

#[test]
fn escapes_are_exact() {
    assert_eq!(escape_value("a%b\nc\rd"), "a%25b%0Ac%0Dd");
    assert_eq!(unescape_value("a%25b%0Ac%0Dd"), "a%b\nc\rd");
    assert_eq!(unescape_value("50%"), "50%");
    assert_eq!(unescape_value("%0G%\u{e9}"), "%0G%\u{e9}");
    assert_ne!(escape_value("a\nb"), escape_value("a%0Ab"));
    assert_eq!(shell_quote("plain"), "plain");
    assert_eq!(current_invocation_args(&["a".to_string(), "b c".to_string()]), "a \"b c\"");
}

#[test]
fn nested_acquire_reenters_the_same_hold() {
    let mut held = Registry::new();
    assert_eq!(take(&mut held, "nested.lock"), 1);
    let same_hold = take(&mut held, "nested.lock") == 0;
    assert!(same_hold, "nested acquire must share the outer's hold");
    assert_eq!(held.count("nested.lock"), 2);
}

#[test]
fn inner_drop_keeps_lock_until_outer_drop() {
    let path = "drop-order.lock";
    let mut held = Registry::new();
    take(&mut held, path);
    take(&mut held, path);

    assert!(!held.leave(path));
    assert!(
        held.is_held(path),
        "inner drop must not release the sweep's lock"
    );

    assert!(held.leave(path));
    assert!(
        !held.is_held(path),
        "outermost drop must release the flock"
    );
}

#[test]
fn outer_drop_before_inner_keeps_lock() {
    let path = "outer-first.lock";
    let mut held = Registry::new();
    take(&mut held, path);
    take(&mut held, path);

    held.leave(path);
    assert!(held.is_held(path));

    held.leave(path);
    assert!(!held.is_held(path));
}

#[test]
fn different_paths_do_not_alias() {
    let mut held = Registry::new();
    assert_eq!(take(&mut held, "distinct-a.lock"), 1);
    assert_eq!(take(&mut held, "distinct-b.lock"), 1);
    assert_eq!(held.count("distinct-a.lock"), 1);
    assert_eq!(held.count("distinct-b.lock"), 1);
}

#[test]
fn reacquire_after_release_is_a_fresh_hold() {
    let path = "reacquire.lock";
    let mut held = Registry::new();
    take(&mut held, path);
    held.leave(path);
    assert!(!held.is_held(path));

    assert_eq!(take(&mut held, path), 1);
    assert_eq!(held.count(path), 1);
    assert!(held.is_held(path));
}

#[test]
fn the_record_stays_that_of_the_first_taker() {
    let path = "record.lock";
    let mut held = Registry::new();
    assert!(held.contents(path).is_none());
    take(&mut held, path);
    let first = held.contents(path).unwrap();
    assert_eq!(first, guard().contents());
    take(&mut held, path);
    take(&mut held, "other.lock");
    assert_eq!(held.contents(path).unwrap(), first);
    assert!(!held.leave(path));
    assert_eq!(held.contents(path).unwrap(), first);
    assert!(held.leave(path));
    assert!(held.contents(path).is_none());
    assert_eq!(held.count("other.lock"), 1);
}

#[test]
fn a_lock_that_is_not_got_is_not_held() {
    let path = "failed.lock";
    let mut held = Registry::new();
    assert!(matches!(held.acquire_at(path, Event::Asked), Action::Try));
    assert!(matches!(held.acquire_at(path, Event::Tried(LockAttempt::WouldBlock)), Action::Wait));
    assert!(matches!(held.acquire_at(path, Event::Waited(LockAttempt::Interrupted)), Action::Retry));
    assert!(matches!(held.acquire_at(path, Event::Waited(LockAttempt::Locked)), Action::Publish));
    let Action::Fail(DevError::Lock(m)) = held.acquire_at(path, Event::NotPublished("disk full".to_string())) else {
        panic!("expected a failure");
    };
    assert_eq!(m, "failed to publish lock metadata: disk full");
    assert!(!held.is_held(path));
    let Action::Fail(DevError::Lock(m)) =
        held.acquire_at(path, Event::Waited(LockAttempt::Failed("gone".to_string())))
    else {
        panic!("expected a failure");
    };
    assert_eq!(m, "blocking flock failed: gone");
}

#[test]
fn the_lock_lies_in_the_home() {
    assert_eq!(lock_path(Some("/home/x")).unwrap(), "/home/x/.brokkr/brokkr.lock");
    assert!(matches!(lock_path(None), Err(DevError::Lock(_))));
}

#[test]
fn an_interrupted_wait_is_taken_up_again() {
    assert!(matches!(next_step(Phase::Trying, LockAttempt::Locked), LockStep::Publish));
    assert!(matches!(next_step(Phase::Trying, LockAttempt::WouldBlock), LockStep::Wait));
    assert!(matches!(next_step(Phase::Waiting, LockAttempt::Interrupted), LockStep::Retry));
    assert!(matches!(next_step(Phase::Waiting, LockAttempt::Locked), LockStep::Publish));
    let LockStep::Fail(DevError::Lock(m)) = next_step(Phase::Waiting, LockAttempt::Failed("x".to_string())) else {
        panic!("expected a failure");
    };
    assert_eq!(m, "blocking flock failed: x");
    let LockStep::Fail(DevError::Lock(m)) = next_step(Phase::Trying, LockAttempt::Interrupted) else {
        panic!("expected a failure");
    };
    assert!(m.starts_with("flock failed: "), "{m}");
}

#[test]
fn a_waiting_command_tells_whom_it_waits_for() {
    let info = parse_lock_contents(&guard().contents()).unwrap();
    let lines = waiting_lines(Some(&info), Some("running 5s"));
    assert_eq!(lines.len(), 4);
    assert_eq!(lines[1], "holder: test lock-test in /nonexistent");
    assert_eq!(lines[2], "holder is running 5s");
    assert_eq!(waiting_lines(Some(&info), None).len(), 3);
    assert_eq!(waiting_lines(None, None)[1], "holder: unknown (lock metadata unreadable)");
    assert!(acquired_line(3725).starts_with("lock acquired after 1h02m - "));
    assert_eq!(status_info(None).project, "unknown");
    assert_eq!(status_info(Some(info)).pid, 4321);
}

#[test]
fn processes_are_described() {
    assert_eq!(format_duration(42), "42s");
    assert_eq!(format_duration(192), "3m12s");
    assert_eq!(format_duration(11100), "3h05m");
    assert_eq!(format_bytes_kb(4_404_019, "RSS"), "RSS 4.2 GB");
    assert_eq!(format_bytes(888_143_872, "read"), "847 MB read");
    let stat = "1234 (a) b) S 1 1 1 0 -1 4 0 0 0 0 0 0 0 0 20 0 1 0 98765 1 1";
    assert_eq!(proc_starttime(stat).as_deref(), Some("98765"));
    assert_eq!(proc_starttime("1234 (a S 1"), None);
    assert_eq!(local_boot_id(" abc \n").as_deref(), Some("abc"));
    assert_eq!(local_boot_id("\n"), None);
    assert_eq!(process_uptime_str(100, "1000.50 2000.0\n", "40000").as_deref(), Some("10m00s"));
    assert_eq!(process_uptime_str(100, "1.0 2.0", "40000"), None);
    assert_eq!(process_uptime_str(0, "1000.5 1", "1"), None);
    let status = "Name:\tx\nVmRSS:\t  2048 kB\nThreads:\t4\n";
    let io = "rchar: 1\nread_bytes: 10485760\nwrite_bytes: 0\n";
    assert_eq!(
        process_summary_unverified("5s", status, Some(io)),
        "running 5s, RSS 2 MB, 10 MB read, 4 threads"
    );
    assert_eq!(process_summary_unverified("5s", "", None), "running 5s");
    assert_eq!(verified_summary(true, Some("s".to_string()), "7", Some("7")).as_deref(), Some("s"));
    assert_eq!(verified_summary(true, Some("s".to_string()), "7", Some("8")), None);
    assert_eq!(verified_summary(false, Some("s".to_string()), "7", Some("7")), None);
    assert_eq!(verified_uptime(false, Some("1s".to_string())), None);
}

#[test]
fn a_record_that_is_being_written_keeps_its_holder() {
    let mut held = guard();
    let older = held.set_child_pid(11, Some("5".to_string()));
    let newer = held.clear_child_pid();
    for k in 0..=newer.len() {
        let torn = format!("{}{}", &newer[..k], older.get(k..).unwrap_or(""));
        let info = parse_lock_contents(&torn).unwrap();
        assert_eq!((info.pid, info.starttime.as_str(), info.boot_id.as_str()), (4321, "777", BOOT));
    }
}

#[test]
fn two_readings_must_agree() {
    let bytes = guard().contents().into_bytes();
    assert!(matches!(
        read_lock_contents(0, Some(&bytes), Some(&bytes)),
        ReadStep::Done(Some(i)) if i.pid == 4321
    ));
    assert!(matches!(read_lock_contents(0, Some(&bytes), Some(b"x")), ReadStep::Again));
    assert!(matches!(read_lock_contents(2, Some(&bytes), Some(b"x")), ReadStep::Done(None)));
    assert!(matches!(read_lock_contents(0, Some(b""), Some(b"")), ReadStep::Again));
    assert!(matches!(read_lock_contents(0, Some(b"\xff"), Some(b"\xff")), ReadStep::Done(None)));
    assert!(matches!(read_lock_contents(0, None, None), ReadStep::Done(None)));
    assert_eq!(after_write(3, WriteAttempt::Wrote(4)), Ok(7));
    assert_eq!(after_write(3, WriteAttempt::Interrupted), Ok(3));
    assert_eq!(after_write(3, WriteAttempt::Wrote(0)), Err("zero-byte write to lock file".to_string()));
    assert_eq!(after_write(3, WriteAttempt::Failed("x".to_string())), Err("x".to_string()));
}

#[test]
fn a_copy_of_a_guard_tells_the_same() {
    let mut held = guard();
    held.add_mock_pid(7, Some("9".to_string()));
    held.set_child_pid(8, None);
    held.set_progress(2, 3);
    assert_eq!(held.copy().contents(), held.contents());
}

use deet::breakpoint::BreakpointStore;
use deet::command::parse_address;
use deet::command::DebuggerCommand;
use deet::patch::align_addr_to_word;
use deet::patch::write_byte_in_word;
use deet::patch::TRAP_OPCODE;
use deet::session::BreakpointReport;
use deet::session::Report;
use deet::session::Session;
use deet::session::StepFollowup;
use deet::session::WaitOutcome;
use deet::session::TRAP_SIGNAL;
use deet::unwinder::Frame;
use deet::unwinder::Unwinder;

#[test]
fn test_align_addr_to_word() {
    assert_eq!(align_addr_to_word(0x1000), 0x1000);
    assert_eq!(align_addr_to_word(0x1003), 0x1000);
    assert_eq!(align_addr_to_word(0x1007), 0x1000);
    assert_eq!(align_addr_to_word(7), 0);
}

#[test]
fn test_write_byte_in_word_exact() {
    let word: u64 = 0xDDCCBBAA99887766;
    let (updated, orig) = write_byte_in_word(0x1003, word, 0xCC);
    assert_eq!(orig, 0x99);
    assert_eq!(updated, 0xDDCCBBAACC887766);
    // every other byte of the word is untouched
    for i in 0..8u64 {
        if i != 3 {
            assert_eq!((updated >> (8 * i)) & 0xff, (word >> (8 * i)) & 0xff);
        }
    }
}

#[test]
fn test_trap_round_trip() {
    // install, restore, step, re-install: the byte reads back as the trap
    let word: u64 = 0x1122334455667788;
    let (patched, orig) = write_byte_in_word(0x2001, word, TRAP_OPCODE);
    assert_eq!(orig, 0x77);
    let (restored, seen) = write_byte_in_word(0x2001, patched, orig);
    assert_eq!(seen, TRAP_OPCODE);
    assert_eq!(restored, word);
    let (repatched, again) = write_byte_in_word(0x2001, restored, TRAP_OPCODE);
    assert_eq!(again, 0x77);
    assert_eq!((repatched >> 8) & 0xff, TRAP_OPCODE as u64);
}

#[test]
fn test_parse_address_forms() {
    assert_eq!(parse_address("0x1129"), Some(0x1129));
    assert_eq!(parse_address("1129"), Some(0x1129));
    assert_eq!(parse_address("0X1f"), Some(31));
    assert_eq!(parse_address("abcDEF"), Some(0xabcdef));
    assert_eq!(parse_address("zz"), None);
    assert_eq!(parse_address(""), None);
    assert_eq!(parse_address("0x"), None);
    assert_eq!(parse_address("1ffffffffffffffff"), None);
}

#[test]
fn test_from_tokens_commands() {
    assert!(matches!(
        DebuggerCommand::from_tokens(&vec!["q"]),
        Some(DebuggerCommand::Quit)
    ));
    assert!(matches!(
        DebuggerCommand::from_tokens(&vec!["quit"]),
        Some(DebuggerCommand::Quit)
    ));
    assert!(matches!(
        DebuggerCommand::from_tokens(&vec!["c"]),
        Some(DebuggerCommand::Cont)
    ));
    assert!(matches!(
        DebuggerCommand::from_tokens(&vec!["backtrace"]),
        Some(DebuggerCommand::BackTrace)
    ));
    assert!(matches!(
        DebuggerCommand::from_tokens(&vec!["bt"]),
        Some(DebuggerCommand::BackTrace)
    ));
    assert!(DebuggerCommand::from_tokens(&vec!["xyz"]).is_none());
    match DebuggerCommand::from_tokens(&vec!["run", "a", "b"]) {
        Some(DebuggerCommand::Run(args)) => assert_eq!(args, vec!["a", "b"]),
        _ => panic!("run not recognized"),
    }
    match DebuggerCommand::from_tokens(&vec!["b", "0x1129"]) {
        Some(DebuggerCommand::BreakPoint(pos)) => assert_eq!(pos.as_deref(), Some("0x1129")),
        _ => panic!("breakpoint not recognized"),
    }
    match DebuggerCommand::from_tokens(&vec!["b"]) {
        Some(DebuggerCommand::BreakPoint(pos)) => assert!(pos.is_none()),
        _ => panic!("bare breakpoint not recognized"),
    }
}

#[test]
fn test_breakpoint_store_idempotent() {
    let mut store = BreakpointStore::new();
    store.set(0x1129);
    store.set(0x2000);
    assert_eq!(store.len(), 2);
    store.set(0x1129);
    assert_eq!(store.len(), 2);
    let bp = store.get(0x1129).unwrap();
    assert_eq!(bp.addr, 0x1129);
    assert_eq!(bp.orig_byte, 0);
    assert!(store.get(0x3000).is_none());
}

#[test]
fn test_scenario_breakpoint_run() {
    // set a breakpoint, run, hit it, step over it, continue to exit
    let mut sess = Session::new(String::from("target"));
    let report = sess.break_point_command(Some(String::from("0x1129")));
    assert!(matches!(
        report,
        BreakpointReport::Stored { addr: 0x1129, .. }
    ));

    assert!(sess.begin_run().is_none());
    assert!(sess.attach_inferior(
        42,
        WaitOutcome::Stopped { signal: TRAP_SIGNAL, rip: 0x5000 }
    ));
    assert_eq!(sess.current_pid(), Some(42));

    // install the trap into the (simulated) text word holding 0x1129
    assert_eq!(sess.breakpoint_count(), 1);
    let addr = sess.breakpoint_addr(0);
    assert_eq!(addr, 0x1129);
    let text: u64 = 0x9090909090909090;
    let (patched, orig) = write_byte_in_word(addr, text, TRAP_OPCODE);
    sess.record_breakpoint_byte(0, orig);
    assert_eq!((patched >> 8) & 0xff, TRAP_OPCODE as u64);

    // the child stops one byte past the breakpoint address
    let report = sess.process_wait(WaitOutcome::Stopped { signal: TRAP_SIGNAL, rip: 0x112a });
    assert_eq!(report, Report::Stopped { signal: TRAP_SIGNAL, rip: 0x112a });

    let plan = sess.plan_step_over(0x112a).unwrap();
    assert_eq!(plan.addr, 0x1129);
    assert_eq!(plan.orig_byte, 0x90);

    // restore, step (child stops again), re-arm the trap
    let (restored, _) = write_byte_in_word(plan.addr, patched, plan.orig_byte);
    assert_eq!(restored, text);
    let followup = sess.finish_step_over(
        plan,
        WaitOutcome::Stopped { signal: TRAP_SIGNAL, rip: 0x112a },
    );
    assert_eq!(
        followup,
        StepFollowup::Repatch { addr: 0x1129, value: TRAP_OPCODE }
    );

    // continue; the target runs to completion
    let report = sess.process_wait(WaitOutcome::Exited { code: 0 });
    assert_eq!(report, Report::Exited { code: 0 });
    assert!(!sess.has_process());
}

#[test]
fn test_rerun_kills_previous() {
    let mut sess = Session::new(String::from("target"));
    assert!(sess.begin_run().is_none());
    assert!(sess.attach_inferior(
        7,
        WaitOutcome::Stopped { signal: TRAP_SIGNAL, rip: 0x1000 }
    ));
    // a second run hands the live child back for termination first
    let prev = sess.begin_run();
    assert_eq!(prev, Some(7));
    assert!(!sess.has_process());
    assert!(sess.attach_inferior(
        8,
        WaitOutcome::Stopped { signal: TRAP_SIGNAL, rip: 0x1000 }
    ));
    assert_eq!(sess.current_pid(), Some(8));
}

#[test]
fn test_launch_rejected_without_trap_stop() {
    let mut sess = Session::new(String::from("target"));
    sess.begin_run();
    assert!(!sess.attach_inferior(9, WaitOutcome::Exited { code: 1 }));
    assert!(!sess.has_process());
    sess.begin_run();
    assert!(!sess.attach_inferior(9, WaitOutcome::Stopped { signal: 11, rip: 0x1000 }));
    assert!(!sess.has_process());
}

#[test]
fn test_terminal_wait_is_sticky() {
    let mut sess = Session::new(String::from("target"));
    sess.begin_run();
    sess.attach_inferior(5, WaitOutcome::Stopped { signal: TRAP_SIGNAL, rip: 0x1000 });
    let report = sess.process_wait(WaitOutcome::Signaled { signal: 9 });
    assert_eq!(report, Report::Signaled { signal: 9 });
    // any later cont or backtrace finds no process to act on
    assert!(!sess.has_process());
    assert!(sess.current_pid().is_none());
}

#[test]
fn test_step_over_only_at_known_breakpoint() {
    let mut sess = Session::new(String::from("target"));
    sess.break_point_command(Some(String::from("0x1129")));
    assert!(sess.plan_step_over(0x112a).is_some());
    assert!(sess.plan_step_over(0x1129).is_none());
    assert!(sess.plan_step_over(0).is_none());
}

#[test]
fn test_step_exit_drops_process() {
    let mut sess = Session::new(String::from("target"));
    sess.break_point_command(Some(String::from("1129")));
    sess.begin_run();
    sess.attach_inferior(3, WaitOutcome::Stopped { signal: TRAP_SIGNAL, rip: 0x1000 });
    let plan = sess.plan_step_over(0x112a).unwrap();
    let followup = sess.finish_step_over(plan, WaitOutcome::Exited { code: 3 });
    assert_eq!(followup, StepFollowup::ProcessGone);
    assert!(!sess.has_process());
}

#[test]
fn test_breakpoint_command_usage_error() {
    // a bare breakpoint command reports usage and stores nothing
    let mut sess = Session::new(String::from("target"));
    let report = sess.break_point_command(None);
    assert_eq!(report, BreakpointReport::UsageError);
    assert_eq!(sess.breakpoint_count(), 0);
}

#[test]
fn test_breakpoint_command_parse_error() {
    // an unparsable address reports failure and stores nothing
    let mut sess = Session::new(String::from("target"));
    let report = sess.break_point_command(Some(String::from("zz")));
    assert_eq!(report, BreakpointReport::ParseError);
    assert_eq!(sess.breakpoint_count(), 0);
}

fn frame(func: &str, file: &str, line: usize) -> Frame {
    Frame {
        func: String::from(func),
        file: String::from(file),
        line,
    }
}

#[test]
fn test_backtrace_three_frames() {
    // call chain main -> f1 -> f2, stopped inside f2
    let mut u = Unwinder::new(0x3000, 0x7f00);
    assert!(!u.emit_frame(frame("f2", "target.c", 12)));
    let (ret_slot, base_slot) = u.frame_slots().unwrap();
    assert_eq!(ret_slot, 0x7f08);
    assert_eq!(base_slot, 0x7f00);
    u.advance(0x2000, 0x7f40);
    assert!(!u.emit_frame(frame("f1", "target.c", 7)));
    u.advance(0x1000, 0x7f80);
    assert!(u.emit_frame(frame("main", "target.c", 3)));
    assert!(u.done);
    assert_eq!(u.frames.len(), 3);
    assert_eq!(u.frames[0].func, "f2");
    assert_eq!(u.frames[1].func, "f1");
    assert_eq!(u.frames[2].func, "main");
    assert_eq!(u.frames[2].line, 3);
}

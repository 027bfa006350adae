use rauk::breakpoints::{Breakpoint, EntryBreakpoint, ExitBreakpoint, OtherBreakpoint};
use rauk::trace::{wcet_analysis, Trace, TraceError, TraceType};

#[test]
fn test_analysis_nested_and_multiple_locks() {
    let trace: Vec<(Breakpoint, String, u32)> = vec![
        (
            Breakpoint::Entry(EntryBreakpoint::HardwareTaskStart),
            String::from("task1"),
            0,
        ),
        (
            Breakpoint::Entry(EntryBreakpoint::ResourceLockStart),
            String::from("res1"),
            5,
        ),
        (
            Breakpoint::Entry(EntryBreakpoint::ResourceLockStart),
            String::from("res2"),
            10,
        ),
        (
            Breakpoint::Exit(ExitBreakpoint::ResourceLockEnd),
            String::from("res2"),
            15,
        ),
        (
            Breakpoint::Exit(ExitBreakpoint::ResourceLockEnd),
            String::from("res1"),
            15,
        ),
        (
            Breakpoint::Entry(EntryBreakpoint::ResourceLockStart),
            String::from("res3"),
            15,
        ),
        (
            Breakpoint::Exit(ExitBreakpoint::ResourceLockEnd),
            String::from("res3"),
            20,
        ),
        (
            Breakpoint::Exit(ExitBreakpoint::HardwareTaskEnd),
            String::from("task1"),
            20,
        ),
    ];

    let analysis = wcet_analysis(trace).unwrap();
    let result = analysis.first().unwrap();
    let expected = Trace {
        name: "task1".to_string(),
        ttype: TraceType::HardwareTask,
        start: 0,
        inner: vec![
            Trace {
                name: "res1".to_string(),
                ttype: TraceType::ResourceLock,
                start: 5,
                inner: vec![Trace {
                    name: "res2".to_string(),
                    ttype: TraceType::ResourceLock,
                    start: 10,
                    inner: vec![],
                    end: 15,
                }],
                end: 15,
            },
            Trace {
                name: "res3".to_string(),
                ttype: TraceType::ResourceLock,
                start: 15,
                inner: vec![],
                end: 20,
            },
        ],
        end: 20,
    };
    assert_eq!(result, &expected)
}

#[test]
fn test_analysis_multiple_locks() {
    let trace: Vec<(Breakpoint, String, u32)> = vec![
        (
            Breakpoint::Entry(EntryBreakpoint::SoftwareTaskStart),
            String::from("task1"),
            0,
        ),
        (
            Breakpoint::Entry(EntryBreakpoint::ResourceLockStart),
            String::from("res1"),
            5,
        ),
        (
            Breakpoint::Exit(ExitBreakpoint::ResourceLockEnd),
            String::from("res1"),
            15,
        ),
        (
            Breakpoint::Entry(EntryBreakpoint::ResourceLockStart),
            String::from("res2"),
            15,
        ),
        (
            Breakpoint::Exit(ExitBreakpoint::ResourceLockEnd),
            String::from("res2"),
            20,
        ),
        (
            Breakpoint::Entry(EntryBreakpoint::ResourceLockStart),
            String::from("res3"),
            20,
        ),
        (
            Breakpoint::Exit(ExitBreakpoint::ResourceLockEnd),
            String::from("res3"),
            25,
        ),
        (
            Breakpoint::Exit(ExitBreakpoint::SoftwareTaskEnd),
            String::from("task1"),
            30,
        ),
    ];
    let analysis = wcet_analysis(trace).unwrap();
    let result = analysis.first().unwrap();
    let expected = Trace {
        name: "task1".to_string(),
        ttype: TraceType::SoftwareTask,
        start: 0,
        inner: vec![
            Trace {
                name: "res1".to_string(),
                ttype: TraceType::ResourceLock,
                start: 5,
                inner: vec![],
                end: 15,
            },
            Trace {
                name: "res2".to_string(),
                ttype: TraceType::ResourceLock,
                start: 15,
                inner: vec![],
                end: 20,
            },
            Trace {
                name: "res3".to_string(),
                ttype: TraceType::ResourceLock,
                start: 20,
                inner: vec![],
                end: 25,
            },
        ],
        end: 30,
    };
    assert_eq!(result, &expected);
}

#[test]
fn test_analysis_nested_locks() {
    let trace: Vec<(Breakpoint, String, u32)> = vec![
        (
            Breakpoint::Entry(EntryBreakpoint::SoftwareTaskStart),
            String::from("task1"),
            0,
        ),
        (
            Breakpoint::Entry(EntryBreakpoint::ResourceLockStart),
            String::from("res1"),
            5,
        ),
        (
            Breakpoint::Entry(EntryBreakpoint::ResourceLockStart),
            String::from("res2"),
            15,
        ),
        (
            Breakpoint::Entry(EntryBreakpoint::ResourceLockStart),
            String::from("res3"),
            25,
        ),
        (
            Breakpoint::Exit(ExitBreakpoint::ResourceLockEnd),
            String::from("res3"),
            35,
        ),
        (
            Breakpoint::Exit(ExitBreakpoint::ResourceLockEnd),
            String::from("res2"),
            45,
        ),
        (
            Breakpoint::Exit(ExitBreakpoint::ResourceLockEnd),
            String::from("res1"),
            55,
        ),
        (
            Breakpoint::Exit(ExitBreakpoint::SoftwareTaskEnd),
            String::from("task1"),
            60,
        ),
    ];
    let analysis = wcet_analysis(trace).unwrap();
    let result = analysis.first().unwrap();
    let expected = Trace {
        name: "task1".to_string(),
        ttype: TraceType::SoftwareTask,
        start: 0,
        inner: vec![Trace {
            name: "res1".to_string(),
            ttype: TraceType::ResourceLock,
            start: 5,
            inner: vec![Trace {
                name: "res2".to_string(),
                ttype: TraceType::ResourceLock,
                start: 15,
                inner: vec![Trace {
                    name: "res3".to_string(),
                    ttype: TraceType::ResourceLock,
                    start: 25,
                    inner: vec![],
                    end: 35,
                }],
                end: 45,
            }],
            end: 55,
        }],
        end: 60,
    };
    assert_eq!(result, &expected);
}

#[test]
fn test_analysis_invalid_input_size() {
    let trace: Vec<(Breakpoint, String, u32)> = vec![
        (
            Breakpoint::Entry(EntryBreakpoint::HardwareTaskStart),
            String::from("task1"),
            0,
        ),
        (
            Breakpoint::Entry(EntryBreakpoint::ResourceLockStart),
            String::from("res1"),
            5,
        ),
        (
            Breakpoint::Exit(ExitBreakpoint::HardwareTaskEnd),
            String::from("task1"),
            10,
        ),
    ];
    let analysis = wcet_analysis(trace);
    assert!(analysis.is_err());
}

#[test]
fn test_analysis_empty_input() {
    let trace: Vec<(Breakpoint, String, u32)> = vec![];
    let analysis = wcet_analysis(trace);
    assert!(analysis.is_err());
}

#[test]
fn test_analysis_empty_inner_trace() {
    let trace: Vec<(Breakpoint, String, u32)> = vec![
        (
            Breakpoint::Entry(EntryBreakpoint::HardwareTaskStart),
            String::from("task1"),
            0,
        ),
        (
            Breakpoint::Exit(ExitBreakpoint::HardwareTaskEnd),
            String::from("task1"),
            10,
        ),
    ];
    let analysis = wcet_analysis(trace).unwrap();
    let result = analysis.first().unwrap();
    let expected = Trace {
        name: "task1".to_string(),
        ttype: TraceType::HardwareTask,
        start: 0,
        inner: vec![],
        end: 10,
    };
    assert_eq!(result, &expected);
}

#[test]
fn test_analysis_wrong_task_order() {
    let trace: Vec<(Breakpoint, String, u32)> = vec![
        (
            Breakpoint::Entry(EntryBreakpoint::HardwareTaskStart),
            String::from("task1"),
            0,
        ),
        (
            Breakpoint::Exit(ExitBreakpoint::SoftwareTaskEnd),
            String::from("task1"),
            10,
        ),
    ];
    let analysis = wcet_analysis(trace);
    assert!(analysis.is_err());
}

#[test]
fn test_analysis_wrong_lock_order() {
    let trace: Vec<(Breakpoint, String, u32)> = vec![
        (
            Breakpoint::Entry(EntryBreakpoint::ResourceLockStart),
            String::from("res1"),
            0,
        ),
        (
            Breakpoint::Exit(ExitBreakpoint::SoftwareTaskEnd),
            String::from("task1"),
            10,
        ),
    ];
    let analysis = wcet_analysis(trace);
    assert!(analysis.is_err());
}

#[test]
fn marker_decoding_is_total_and_unknown_is_invalid() {
    for u in 0u16..=255 {
        let b = Breakpoint::from(u as u8);
        let expected = match u {
            0 => Breakpoint::Other(OtherBreakpoint::Default),
            1 => Breakpoint::Other(OtherBreakpoint::InsideTask),
            2 => Breakpoint::Entry(EntryBreakpoint::HardwareTaskStart),
            3 => Breakpoint::Entry(EntryBreakpoint::ResourceLockStart),
            4 => Breakpoint::Entry(EntryBreakpoint::SoftwareTaskStart),
            5 => Breakpoint::Other(OtherBreakpoint::InsideHardwareRead),
            251 => Breakpoint::Exit(ExitBreakpoint::SoftwareTaskEnd),
            252 => Breakpoint::Exit(ExitBreakpoint::ResourceLockEnd),
            253 => Breakpoint::Exit(ExitBreakpoint::HardwareTaskEnd),
            254 => Breakpoint::Other(OtherBreakpoint::InsideLock),
            255 => Breakpoint::Other(OtherBreakpoint::ReplayStart),
            _ => Breakpoint::Other(OtherBreakpoint::Invalid),
        };
        assert_eq!(b, expected);
    }
}

#[test]
fn matching_entry_and_exit_codes_sum_to_255() {
    let pairs = [
        (
            EntryBreakpoint::HardwareTaskStart,
            ExitBreakpoint::HardwareTaskEnd,
        ),
        (
            EntryBreakpoint::ResourceLockStart,
            ExitBreakpoint::ResourceLockEnd,
        ),
        (
            EntryBreakpoint::SoftwareTaskStart,
            ExitBreakpoint::SoftwareTaskEnd,
        ),
    ];
    for (e, x) in pairs {
        assert_eq!(e.code() as u16 + x.code() as u16, 255);
    }
}

#[test]
fn single_entry_exit_pair_gives_cycle_delta() {
    let trace: Vec<(Breakpoint, String, u32)> = vec![
        (
            Breakpoint::Entry(EntryBreakpoint::SoftwareTaskStart),
            String::from("t"),
            7,
        ),
        (
            Breakpoint::Exit(ExitBreakpoint::SoftwareTaskEnd),
            String::from("t"),
            19,
        ),
    ];
    let analysis = wcet_analysis(trace).unwrap();
    assert_eq!(analysis.len(), 1);
    assert!(analysis[0].inner.is_empty());
    assert_eq!(analysis[0].end - analysis[0].start, 12);
}

#[test]
fn two_level_nested_locks_give_depth_two() {
    let trace: Vec<(Breakpoint, String, u32)> = vec![
        (
            Breakpoint::Entry(EntryBreakpoint::SoftwareTaskStart),
            String::from("t"),
            0,
        ),
        (
            Breakpoint::Entry(EntryBreakpoint::ResourceLockStart),
            String::from("r1"),
            1,
        ),
        (
            Breakpoint::Entry(EntryBreakpoint::ResourceLockStart),
            String::from("r2"),
            2,
        ),
        (
            Breakpoint::Exit(ExitBreakpoint::ResourceLockEnd),
            String::from("r2"),
            3,
        ),
        (
            Breakpoint::Exit(ExitBreakpoint::ResourceLockEnd),
            String::from("r1"),
            4,
        ),
        (
            Breakpoint::Exit(ExitBreakpoint::SoftwareTaskEnd),
            String::from("t"),
            5,
        ),
    ];
    let analysis = wcet_analysis(trace).unwrap();
    let root = &analysis[0];
    assert_eq!(root.inner.len(), 1);
    assert_eq!(root.inner[0].name, "r1");
    assert_eq!(root.inner[0].inner.len(), 1);
    assert_eq!(root.inner[0].inner[0].name, "r2");
    assert!(root.inner[0].inner[0].inner.is_empty());
}

#[test]
fn more_entries_than_exits_fails() {
    let trace: Vec<(Breakpoint, String, u32)> = vec![
        (
            Breakpoint::Entry(EntryBreakpoint::SoftwareTaskStart),
            String::from("t"),
            0,
        ),
        (
            Breakpoint::Entry(EntryBreakpoint::ResourceLockStart),
            String::from("r1"),
            1,
        ),
    ];
    let analysis = wcet_analysis(trace);
    assert!(matches!(
        analysis,
        Err(TraceError::EmptyInput) | Err(TraceError::ScopeMismatch)
    ));
}

#[test]
fn auxiliary_marker_in_analysis_fails() {
    let trace: Vec<(Breakpoint, String, u32)> = vec![
        (
            Breakpoint::Entry(EntryBreakpoint::SoftwareTaskStart),
            String::from("t"),
            0,
        ),
        (
            Breakpoint::Other(OtherBreakpoint::InsideTask),
            String::from("t"),
            1,
        ),
    ];
    assert_eq!(
        wcet_analysis(trace),
        Err(TraceError::UnsupportedMarkerInAnalysis)
    );
}

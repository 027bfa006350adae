use rauk::analysis::{
    blocking_time, get_priorites, pre_analysis, preemption, run_analysis, wcet, AnalysisError,
    Priorities, Task, TaskResources,
};
use rauk::trace::{Trace, TraceType};

fn leaf(name: &str, start: u32, end: u32) -> Trace {
    Trace {
        name: name.to_string(),
        ttype: TraceType::ResourceLock,
        start,
        inner: vec![],
        end,
    }
}

fn task_trace(name: &str, start: u32, end: u32, inner: Vec<Trace>) -> Trace {
    Trace {
        name: name.to_string(),
        ttype: TraceType::SoftwareTask,
        start,
        inner,
        end,
    }
}

fn task(name: &str, priority: u8, deadline: u32, inter_arrival: u32, trace: Trace) -> Task {
    Task {
        name: name.to_string(),
        priority,
        deadline,
        inter_arrival,
        trace: Some(trace),
    }
}

#[test]
fn wcet_is_trace_extent() {
    let t = task("t", 1, 100, 100, task_trace("t", 10, 35, vec![]));
    assert_eq!(wcet(&t), 25);
}

#[test]
fn independent_tasks_converge_with_one_preemption() {
    let hi = task("hi", 3, 50, 100, task_trace("hi", 0, 5, vec![]));
    let lo = task("lo", 1, 900, 1000, task_trace("lo", 0, 20, vec![]));
    let tasks = vec![hi, lo];
    let mut ip = Priorities::new();
    ip.insert("hi".to_string(), 3);
    ip.insert("lo".to_string(), 1);
    let tr = TaskResources::new();

    assert_eq!(blocking_time(&tasks[0], &tasks, &ip, &tr), 0);
    assert_eq!(preemption(&tasks[0], &tasks, &ip, &tr), Ok(0));
    assert_eq!(blocking_time(&tasks[1], &tasks, &ip, &tr), 0);
    assert_eq!(preemption(&tasks[1], &tasks, &ip, &tr), Ok(5));

    let rows = run_analysis(&tasks, &ip, &tr).unwrap();
    assert_eq!(rows[0].name, "hi");
    assert_eq!(rows[0].response_time, 5);
    assert_eq!(rows[1].name, "lo");
    assert_eq!(rows[1].response_time, 25);
}

#[test]
fn lower_priority_holder_blocks_through_ceiling() {
    let hi = task("hi", 3, 500, 1000, task_trace("hi", 0, 5, vec![leaf("r", 1, 3)]));
    let lo = task("lo", 1, 900, 1000, task_trace("lo", 0, 70, vec![leaf("r", 10, 60)]));
    let tasks = vec![hi, lo];
    let mut ip = Priorities::new();
    ip.insert("hi".to_string(), 3);
    ip.insert("lo".to_string(), 1);
    ip.insert("r".to_string(), 3);
    let mut tr = TaskResources::new();
    tr.add(&"hi".to_string(), &"r".to_string());
    tr.add(&"lo".to_string(), &"r".to_string());

    assert_eq!(blocking_time(&tasks[0], &tasks, &ip, &tr), 50);
    assert_eq!(blocking_time(&tasks[1], &tasks, &ip, &tr), 0);
}

#[test]
fn ceiling_blocking_reaches_tasks_that_do_not_use_the_resource() {
    // mid uses no resource at all, but lo holds r, whose ceiling (3) is
    // above mid's priority (2): lo can still block mid for the whole hold.
    let hi = task("hi", 3, 500, 1000, task_trace("hi", 0, 5, vec![leaf("r", 1, 3)]));
    let mid = task("mid", 2, 500, 1000, task_trace("mid", 0, 10, vec![]));
    let lo = task("lo", 1, 900, 1000, task_trace("lo", 0, 70, vec![leaf("r", 10, 60)]));
    let tasks = vec![hi, mid, lo];
    let mut ip = Priorities::new();
    ip.insert("hi".to_string(), 3);
    ip.insert("mid".to_string(), 2);
    ip.insert("lo".to_string(), 1);
    ip.insert("r".to_string(), 3);
    let mut tr = TaskResources::new();
    tr.add(&"hi".to_string(), &"r".to_string());
    tr.add(&"lo".to_string(), &"r".to_string());

    assert_eq!(blocking_time(&tasks[1], &tasks, &ip, &tr), 50);
}

#[test]
fn pre_analysis_derives_resources_ceilings_and_wcet_traces() {
    let tasks = vec![
        task("hi", 3, 500, 1000, task_trace("hi", 0, 5, vec![])),
        task("lo", 1, 900, 1000, task_trace("lo", 0, 70, vec![])),
    ];
    let traces = vec![
        task_trace("hi", 0, 5, vec![leaf("r", 1, 3)]),
        task_trace("hi", 0, 9, vec![leaf("r", 2, 4)]),
        task_trace("lo", 0, 70, vec![leaf("r", 10, 60)]),
    ];
    let (tr, ip, wcet_traces) = pre_analysis(&tasks, &traces);

    // The longest trace per task is selected.
    assert_eq!(wcet_traces.len(), 2);
    assert_eq!(wcet_traces[0].name, "hi");
    assert_eq!(wcet_traces[0].end, 9);
    assert_eq!(wcet_traces[1].name, "lo");

    // Both tasks lock r, and r's ceiling is the highest locker's priority.
    let hi_resources = tr.get(&"hi".to_string()).unwrap();
    assert_eq!(hi_resources.len(), 1);
    assert_eq!(hi_resources[0], "r");
    let lo_resources = tr.get(&"lo".to_string()).unwrap();
    assert_eq!(lo_resources[0], "r");
    assert_eq!(ip.get(&"hi".to_string()), Some(3));
    assert_eq!(ip.get(&"lo".to_string()), Some(1));
    assert_eq!(ip.get(&"r".to_string()), Some(3));
}

#[test]
fn ceiling_is_max_priority_of_lockers() {
    let tasks = vec![
        task("a", 2, 100, 100, task_trace("a", 0, 5, vec![])),
        task("b", 7, 100, 100, task_trace("b", 0, 5, vec![])),
        task("c", 4, 100, 100, task_trace("c", 0, 5, vec![])),
    ];
    let mut tr = TaskResources::new();
    tr.add(&"a".to_string(), &"r".to_string());
    tr.add(&"b".to_string(), &"r".to_string());
    tr.add(&"c".to_string(), &"r".to_string());
    let ip = get_priorites(&tasks, &mut tr);
    assert_eq!(ip.get(&"r".to_string()), Some(7));
}

#[test]
fn deadline_exceeded_is_reported() {
    // The task's WCET alone is past its deadline.
    let t = task("t", 1, 10, 100, task_trace("t", 0, 50, vec![]));
    let tasks = vec![t];
    let mut ip = Priorities::new();
    ip.insert("t".to_string(), 1);
    let tr = TaskResources::new();
    assert_eq!(
        preemption(&tasks[0], &tasks, &ip, &tr),
        Err(AnalysisError::DeadlineExceeded)
    );
    assert_eq!(
        run_analysis(&tasks, &ip, &tr),
        Err(AnalysisError::DeadlineExceeded)
    );
}

#[test]
fn analysis_is_deterministic() {
    let hi = task("hi", 3, 50, 100, task_trace("hi", 0, 5, vec![]));
    let lo = task("lo", 1, 900, 1000, task_trace("lo", 0, 20, vec![]));
    let tasks = vec![hi, lo];
    let mut ip = Priorities::new();
    ip.insert("hi".to_string(), 3);
    ip.insert("lo".to_string(), 1);
    let tr = TaskResources::new();
    let first = run_analysis(&tasks, &ip, &tr).unwrap();
    let second = run_analysis(&tasks, &ip, &tr).unwrap();
    assert_eq!(first, second);
}

#[test]
fn response_times_stay_within_deadlines() {
    let tasks = vec![
        task("a", 2, 100, 40, task_trace("a", 0, 7, vec![])),
        task("b", 5, 30, 90, task_trace("b", 0, 11, vec![])),
        task("c", 1, 300, 200, task_trace("c", 0, 13, vec![])),
    ];
    let mut ip = Priorities::new();
    ip.insert("a".to_string(), 2);
    ip.insert("b".to_string(), 5);
    ip.insert("c".to_string(), 1);
    let tr = TaskResources::new();
    let rows = run_analysis(&tasks, &ip, &tr).unwrap();
    for (row, t) in rows.iter().zip(tasks.iter()) {
        assert!(row.response_time <= t.deadline);
        assert_eq!(
            row.response_time,
            row.wcet + row.blocking_time + row.preemption_time
        );
    }
}

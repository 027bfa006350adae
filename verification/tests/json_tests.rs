use rauk::json::{traces_from_json, traces_to_json};
use rauk::trace::{Trace, TraceType};

fn sample_forest() -> Vec<Trace> {
    vec![
        Trace {
            name: "t1".to_string(),
            ttype: TraceType::HardwareTask,
            start: 0,
            inner: vec![
                Trace {
                    name: "r1".to_string(),
                    ttype: TraceType::ResourceLock,
                    start: 5,
                    inner: vec![Trace {
                        name: "r2".to_string(),
                        ttype: TraceType::ResourceLock,
                        start: 10,
                        inner: vec![],
                        end: 15,
                    }],
                    end: 15,
                },
                Trace {
                    name: "r3".to_string(),
                    ttype: TraceType::ResourceLock,
                    start: 15,
                    inner: vec![],
                    end: 20,
                },
            ],
            end: 20,
        },
        Trace {
            name: "t2".to_string(),
            ttype: TraceType::SoftwareTask,
            start: 30,
            inner: vec![],
            end: 45,
        },
    ]
}

#[test]
fn serialization_matches_the_declared_format() {
    let traces = vec![Trace {
        name: "t1".to_string(),
        ttype: TraceType::HardwareTask,
        start: 0,
        inner: vec![],
        end: 10,
    }];
    let text = traces_to_json(&traces);
    assert_eq!(
        text,
        "[{\"name\":\"t1\",\"ttype\":\"HardwareTask\",\"start\":0,\"inner\":[],\"end\":10}]"
    );
}

#[test]
fn round_trip_preserves_the_forest() {
    let traces = sample_forest();
    let text = traces_to_json(&traces);
    let back = traces_from_json(&text).unwrap();
    assert_eq!(back, traces);
}

#[test]
fn empty_forest_round_trips() {
    let traces: Vec<Trace> = vec![];
    let text = traces_to_json(&traces);
    assert_eq!(text, "[]");
    let back = traces_from_json(&text).unwrap();
    assert!(back.is_empty());
}

#[test]
fn trailing_text_is_rejected() {
    let text = "[]x".to_string();
    assert!(traces_from_json(&text).is_none());
}

#[test]
fn large_cycle_counts_round_trip() {
    let traces = vec![Trace {
        name: "t".to_string(),
        ttype: TraceType::SoftwareTask,
        start: 4294967294,
        inner: vec![],
        end: 4294967295,
    }];
    let text = traces_to_json(&traces);
    let back = traces_from_json(&text).unwrap();
    assert_eq!(back, traces);
}

#[test]
fn names_with_quotes_and_backslashes_round_trip() {
    let traces = vec![Trace {
        name: "a\"b\\c".to_string(),
        ttype: TraceType::ResourceLock,
        start: 1,
        inner: vec![],
        end: 2,
    }];
    let text = traces_to_json(&traces);
    assert_eq!(
        text,
        "[{\"name\":\"a\\\"b\\\\c\",\"ttype\":\"ResourceLock\",\"start\":1,\"inner\":[],\"end\":2}]"
    );
    let back = traces_from_json(&text).unwrap();
    assert_eq!(back, traces);
}

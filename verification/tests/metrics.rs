use grapl_pipeline::metrics::{dimensions_option, unit_for, MetricKind, Unit};
use grapl_pipeline::metrics::{
    filter_invalid_stats, first_failure, get_namespace, has_other_namespace, keep_valid,
    namespace_verdict, request_ranges, MetricForwarderError, Stat,
};

const SERVICE_NAME: &'static str = "cool_service";

fn some_stat() -> Stat {
    Stat {
        timestamp: "ts".into(),
        msg: statsd_parser::Message {
            name: "msg".into(),
            metric: statsd_parser::Metric::Counter(statsd_parser::Counter {
                value: 123.45,
                sample_rate: None,
            }),
            tags: None,
        },
        service_name: SERVICE_NAME.into(),
    }
}

fn some_stat_with_different_service_name() -> Stat {
    let mut stat = some_stat();
    stat.service_name = "another_service".to_string();
    stat
}

fn named(name: &str, service: &str) -> Stat {
    let mut stat = some_stat();
    stat.msg.name = name.to_string();
    stat.service_name = service.to_string();
    stat
}

#[test]
fn test_get_namespace_different_service_names() {
    let stats = vec![some_stat(), some_stat_with_different_service_name()];

    let result = get_namespace(&stats);
    match result {
        Ok(_) => panic!("shouldn't get anything here"),
        Err(e) => assert!(e
            .message()
            .contains("Expected cool_service, found another_service")),
    }
}

#[test]
fn test_get_namespace_same_service_names() -> Result<(), MetricForwarderError> {
    let stats = vec![some_stat(), some_stat(), some_stat()];

    let result = get_namespace(&stats)?;
    assert_eq!(result, SERVICE_NAME);
    Ok(())
}

#[test]
fn namespace_of_no_lines_is_an_error() {
    match get_namespace(&[]) {
        Err(MetricForwarderError::NoLogsError) => {}
        _ => panic!("expected NoLogsError"),
    }
}

#[test]
fn namespace_error_names_the_first_and_another_service() {
    let stats = vec![named("a", "one"), named("b", "one"), named("c", "two"), named("d", "one")];
    match get_namespace(&stats) {
        Err(MetricForwarderError::MoreThanOneNamespaceError(expected, found)) => {
            assert_eq!(expected, "one");
            assert_eq!(found, "two");
        }
        _ => panic!("expected MoreThanOneNamespaceError"),
    }
}

#[test]
fn namespace_is_found_in_a_long_run() {
    let mut stats: Vec<Stat> = (0..500).map(|_| some_stat()).collect();
    assert_eq!(get_namespace(&stats).unwrap(), SERVICE_NAME);
    stats.push(some_stat_with_different_service_name());
    assert!(get_namespace(&stats).is_err());
}

#[test]
fn other_namespace_is_told_by_the_service_name() {
    assert!(!has_other_namespace(&some_stat(), &SERVICE_NAME.to_string()));
    assert!(has_other_namespace(&some_stat(), &"another_service".to_string()));
}

#[test]
fn verdict_follows_what_was_found() {
    assert_eq!(namespace_verdict("one".to_string(), None).unwrap(), "one");
    let other = named("x", "two");
    match namespace_verdict("one".to_string(), Some(&other)) {
        Err(MetricForwarderError::MoreThanOneNamespaceError(expected, found)) => {
            assert_eq!(expected, "one");
            assert_eq!(found, "two");
        }
        _ => panic!("expected MoreThanOneNamespaceError"),
    }
}

#[test]
fn invalid_lines_are_dropped_in_order() {
    let parsed = vec![
        Ok(named("a", "s")),
        Err(MetricForwarderError::NoLogsError),
        Ok(named("b", "s")),
        Err(MetricForwarderError::PutMetricDataError("x".to_string())),
        Ok(named("c", "s")),
    ];
    let kept = filter_invalid_stats(parsed);
    let names: Vec<&str> = kept.iter().map(|s| s.msg.name.as_str()).collect();
    assert_eq!(names, vec!["a", "b", "c"]);
}

#[test]
fn many_lines_keep_their_order() {
    let parsed: Vec<Result<Stat, MetricForwarderError>> = (0..2000)
        .map(|i| {
            if i % 3 == 0 {
                Err(MetricForwarderError::NoLogsError)
            } else {
                Ok(named(&format!("{}", i), "s"))
            }
        })
        .collect();
    let kept = filter_invalid_stats(parsed);
    let names: Vec<String> = kept.iter().map(|s| s.msg.name.clone()).collect();
    let expected: Vec<String> =
        (0..2000).filter(|i| i % 3 != 0).map(|i| format!("{}", i)).collect();
    assert_eq!(names, expected);
}

#[test]
fn nothing_valid_leaves_nothing() {
    assert!(filter_invalid_stats(vec![]).is_empty());
    assert!(filter_invalid_stats(vec![Err(MetricForwarderError::NoLogsError)]).is_empty());
}

#[test]
fn keep_valid_keeps_a_parsed_line() {
    assert_eq!(keep_valid(Ok(named("a", "s"))).unwrap().msg.name, "a");
    assert!(keep_valid(Err(MetricForwarderError::NoLogsError)).is_none());
}

#[test]
fn requests_carry_twenty_data_each() {
    assert_eq!(request_ranges(0), vec![]);
    assert_eq!(request_ranges(1), vec![(0, 1)]);
    assert_eq!(request_ranges(20), vec![(0, 20)]);
    assert_eq!(request_ranges(21), vec![(0, 20), (20, 21)]);
    assert_eq!(request_ranges(40), vec![(0, 20), (20, 40)]);
    assert_eq!(request_ranges(45), vec![(0, 20), (20, 40), (40, 45)]);
}

#[test]
fn first_failure_is_reported() {
    assert!(first_failure(&[]).is_ok());
    assert!(first_failure(&[Ok(()), Ok(())]).is_ok());
    let responses = vec![Ok(()), Err("ya goofed".to_string()), Err("again".to_string())];
    match first_failure(&responses) {
        Err(MetricForwarderError::PutMetricDataError(reason)) => assert_eq!(reason, "ya goofed"),
        _ => panic!("expected PutMetricDataError"),
    }
}

#[test]
fn forwarder_error_messages() {
    assert_eq!(
        MetricForwarderError::PutMetricDataError("boom".to_string()).message(),
        "PutMetricData failed: boom"
    );
    assert_eq!(
        MetricForwarderError::MoreThanOneNamespaceError("a".to_string(), "b".to_string())
            .message(),
        "Expected a, found b"
    );
    assert_eq!(MetricForwarderError::NoLogsError.message(), "No logs in this run");
}

#[test]
fn units_by_kind_of_metric() {
    assert_eq!(unit_for(MetricKind::Gauge), Some(Unit::Count));
    assert_eq!(unit_for(MetricKind::Counter), Some(Unit::Count));
    assert_eq!(unit_for(MetricKind::Histogram), Some(Unit::Milliseconds));
    assert_eq!(unit_for(MetricKind::Timing), None);
    assert_eq!(unit_for(MetricKind::Meter), None);
    assert_eq!(unit_for(MetricKind::ServiceCheck), None);
    assert_eq!(Unit::Count.name(), "Count");
    assert_eq!(Unit::Milliseconds.name(), "Milliseconds");
}

#[test]
fn empty_dimensions_are_not_sent() {
    assert_eq!(dimensions_option(vec![]), None);
    let tags = vec![
        ("tag1".to_string(), "val1".to_string()),
        ("tag2".to_string(), "val2".to_string()),
    ];
    assert_eq!(dimensions_option(tags.clone()), Some(tags));
}

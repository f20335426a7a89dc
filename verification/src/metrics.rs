//! The rules of the metric forwarder: one namespace per run, invalid lines
//! dropped, requests of at most twenty data each, the first failure
//! reported.

use vstd::prelude::*;
use rayon::iter::{IntoParallelIterator, IntoParallelRefIterator, ParallelIterator};

verus! {

/// Declares `statsd_parser::Message`, which the library carries and does
/// not look into.
#[verifier::external_type_specification]
#[verifier::external_body]
pub struct ExMessage(statsd_parser::Message);

/// One parsed log line: a statsd message with the time it was logged at and
/// the service that logged it.
#[derive(Debug)]
pub struct Stat {
    pub timestamp: String,
    pub msg: statsd_parser::Message,
    pub service_name: String,
}

/// Why the forwarder gave up on a line or on a run.
#[derive(Clone, Debug)]
pub enum MetricForwarderError {
    /// A request to the metrics service failed; the text is the service's.
    PutMetricDataError(String),
    /// The run holds lines of two services: the first line's, and another.
    MoreThanOneNamespaceError(String, String),
    /// The run holds no line.
    NoLogsError,
}

impl MetricForwarderError {
    /// A description of the error for people.
    pub fn message(&self) -> (r: String)
        ensures
            r@ == (match *self {
                MetricForwarderError::PutMetricDataError(reason) => "PutMetricData failed: "@
                    + reason@,
                MetricForwarderError::MoreThanOneNamespaceError(expected, found) => "Expected "@
                    + expected@ + ", found "@ + found@,
                MetricForwarderError::NoLogsError => "No logs in this run"@,
            }),
    {
        match self {
            MetricForwarderError::PutMetricDataError(reason) => {
                "PutMetricData failed: ".to_owned().concat(reason.as_str())
            },
            MetricForwarderError::MoreThanOneNamespaceError(expected, found) => {
                "Expected ".to_owned().concat(expected.as_str()).concat(", found ").concat(
                    found.as_str(),
                )
            },
            MetricForwarderError::NoLogsError => "No logs in this run".to_owned(),
        }
    }
}

/// The kind of a statsd metric.
#[derive(Clone, Copy, Debug, PartialEq, Eq, Structural)]
pub enum MetricKind {
    Gauge,
    Counter,
    Timing,
    Histogram,
    Meter,
    ServiceCheck,
}

/// A unit of measurement that the metrics service accepts.
#[derive(Clone, Copy, Debug, PartialEq, Eq, Structural)]
pub enum Unit {
    Count,
    Milliseconds,
}

impl Unit {
    /// The name by which the metrics service knows the unit.
    pub fn name(&self) -> (r: String)
        ensures
            r@ == (match *self {
                Unit::Count => "Count"@,
                Unit::Milliseconds => "Milliseconds"@,
            }),
    {
        match self {
            Unit::Count => "Count".to_owned(),
            Unit::Milliseconds => "Milliseconds".to_owned(),
        }
    }
}

/// The unit that a metric of `kind` is forwarded with: a gauge and a counter
/// as a count, a histogram in milliseconds. The other kinds are not
/// forwarded.
pub fn unit_for(kind: MetricKind) -> (r: Option<Unit>)
    ensures
        r == (match kind {
            MetricKind::Gauge => Some(Unit::Count),
            MetricKind::Counter => Some(Unit::Count),
            MetricKind::Histogram => Some(Unit::Milliseconds),
            _ => None::<Unit>,
        }),
{
    match kind {
        MetricKind::Gauge => Some(Unit::Count),
        MetricKind::Counter => Some(Unit::Count),
        MetricKind::Histogram => Some(Unit::Milliseconds),
        _ => None,
    }
}

/// The dimensions to send: none at all in place of an empty list, which the
/// metrics service refuses.
pub fn dimensions_option(dimensions: Vec<(String, String)>) -> (r: Option<Vec<(String, String)>>)
    ensures
        r == (if dimensions@.len() == 0 {
            None::<Vec<(String, String)>>
        } else {
            Some(dimensions)
        }),
{
    if dimensions.len() == 0 {
        None
    } else {
        Some(dimensions)
    }
}

/// The most data that one request may carry.
pub const MAX_DATA_PER_REQUEST: usize = 20;

/// Whether `stat` was logged by another service than `expected`.
pub fn has_other_namespace(stat: &Stat, expected: &String) -> (r: bool)
    ensures
        r == (stat.service_name@ != expected@),
{
    !(stat.service_name == *expected)
}

/// Looks, in parallel, for a line of another service than `expected`.
///
/// Calls rayon's `par_iter` on the slice and `ParallelIterator::find_any`.
/// Taken on trust: that what it hands out is an item of the slice for which
/// the test holds, not always the first such, and that it hands out nothing
/// only when the test holds for no item.
#[verifier::external_body]
fn find_any_other<'a>(stats: &'a [Stat], expected: &String) -> (r: Option<&'a Stat>)
    ensures
        match r {
            Some(stat) => stats@.contains(*stat) && stat.service_name@ != expected@,
            None => forall|i: int|
                0 <= i < stats@.len() ==> (#[trigger] stats@[i]).service_name@ == expected@,
        },
{
    stats.par_iter().find_any(|stat| has_other_namespace(stat, expected))
}

/// The namespace of a run whose first line was logged by `expected`, given
/// a line of another service where the run has one.
pub fn namespace_verdict(expected: String, different: Option<&Stat>) -> (r: Result<
    String,
    MetricForwarderError,
>)
    ensures
        match different {
            None => r == Ok::<String, MetricForwarderError>(expected),
            Some(stat) => r == Err::<String, MetricForwarderError>(
                MetricForwarderError::MoreThanOneNamespaceError(expected, stat.service_name),
            ),
        },
{
    match different {
        None => Ok(expected),
        Some(stat) => Err(
            MetricForwarderError::MoreThanOneNamespaceError(expected, stat.service_name.clone()),
        ),
    }
}

/// The one namespace of a run: the service of its first line, where every
/// line is of that service. A run without lines and a run of two services
/// are errors; the latter names the first line's service and one other
/// that occurs.
pub fn get_namespace(stats: &[Stat]) -> (r: Result<String, MetricForwarderError>)
    ensures
        match r {
            Ok(namespace) => stats@.len() > 0 && namespace == stats@[0].service_name && forall|
                i: int,
            |
                0 <= i < stats@.len() ==> (#[trigger] stats@[i]).service_name@ == namespace@,
            Err(MetricForwarderError::NoLogsError) => stats@.len() == 0,
            Err(MetricForwarderError::MoreThanOneNamespaceError(expected, found)) => stats@.len()
                > 0 && expected == stats@[0].service_name && found@ != expected@ && exists|i: int|
                0 <= i < stats@.len() && (#[trigger] stats@[i]).service_name == found,
            Err(MetricForwarderError::PutMetricDataError(_)) => false,
        },
{
    if stats.len() == 0 {
        return Err(MetricForwarderError::NoLogsError);
    }
    let expected = stats[0].service_name.clone();
    let different = find_any_other(stats, &expected);
    namespace_verdict(expected, different)
}

/// The lines that were parsed, in their order.
pub open spec fn valid_stats(parsed: Seq<Result<Stat, MetricForwarderError>>) -> Seq<Stat> {
    parsed.filter(|r: Result<Stat, MetricForwarderError>| r is Ok).map_values(
        |r: Result<Stat, MetricForwarderError>| r->Ok_0,
    )
}

/// The line, where it was parsed.
pub fn keep_valid(parsed: Result<Stat, MetricForwarderError>) -> (r: Option<Stat>)
    ensures
        r == (match parsed {
            Ok(stat) => Some(stat),
            Err(_) => None::<Stat>,
        }),
{
    match parsed {
        Ok(stat) => Some(stat),
        Err(_) => None,
    }
}

/// Applies [`keep_valid`] to every line in parallel and collects what is left.
///
/// Calls rayon's `into_par_iter` on the vector, `ParallelIterator::filter_map`
/// and `collect` into a `Vec`. Taken on trust: that the result holds the
/// lines for which the function gave one, each once, in the order of the
/// input, which is how rayon's `Vec` collector puts the parts together.
#[verifier::external_body]
fn par_keep_valid(parsed: Vec<Result<Stat, MetricForwarderError>>) -> (r: Vec<Stat>)
    ensures
        r@ == valid_stats(parsed@),
{
    parsed.into_par_iter().filter_map(keep_valid).collect()
}

/// Drops the lines that could not be parsed and keeps the others in order.
pub fn filter_invalid_stats(parsed_stats: Vec<Result<Stat, MetricForwarderError>>) -> (r: Vec<
    Stat,
>)
    ensures
        r@ == valid_stats(parsed_stats@),
{
    par_keep_valid(parsed_stats)
}

/// How many requests `count` data take.
pub open spec fn request_count(count: nat) -> nat {
    (count + 19) / 20
}

/// The data of request `k`, from the first position to before the second.
pub open spec fn request_range(count: nat, k: nat) -> (nat, nat) {
    (20 * k, if 20 * k + 20 <= count {
        20 * k + 20
    } else {
        count
    })
}

/// Splits `count` data into requests of twenty, the last with what is left.
pub fn request_ranges(count: usize) -> (r: Vec<(usize, usize)>)
    ensures
        r@.len() == request_count(count as nat),
        forall|k: int|
            0 <= k < r@.len() ==> (#[trigger] r@[k]).0 == request_range(count as nat, k as nat).0
                && r@[k].1 == request_range(count as nat, k as nat).1,
{
    let mut ranges: Vec<(usize, usize)> = Vec::new();
    let mut start: usize = 0;
    while count - start > MAX_DATA_PER_REQUEST
        invariant
            start <= count,
            start == 20 * ranges@.len(),
            forall|k: int|
                0 <= k < ranges@.len() ==> (#[trigger] ranges@[k]).0 == request_range(
                    count as nat,
                    k as nat,
                ).0 && ranges@[k].1 == request_range(count as nat, k as nat).1,
        decreases count - start,
    {
        ranges.push((start, start + MAX_DATA_PER_REQUEST));
        start += MAX_DATA_PER_REQUEST;
    }
    if start < count {
        ranges.push((start, count));
    }
    ranges
}

/// The outcome of a run of requests: the first failure in order, if any.
pub fn first_failure(responses: &[Result<(), String>]) -> (r: Result<(), MetricForwarderError>)
    ensures
        match r {
            Ok(_) => forall|i: int| 0 <= i < responses@.len() ==> (#[trigger] responses@[i]) is Ok,
            Err(MetricForwarderError::PutMetricDataError(reason)) => exists|i: int|
                0 <= i < responses@.len() && (#[trigger] responses@[i]) == Err::<(), String>(
                    reason,
                ) && forall|j: int| 0 <= j < i ==> (#[trigger] responses@[j]) is Ok,
            Err(_) => false,
        },
{
    let mut i: usize = 0;
    while i < responses.len()
        invariant
            i <= responses@.len(),
            forall|j: int| 0 <= j < i ==> (#[trigger] responses@[j]) is Ok,
        decreases responses.len() - i,
    {
        match &responses[i] {
            Ok(_) => {},
            Err(reason) => {
                return Err(MetricForwarderError::PutMetricDataError(reason.clone()));
            },
        }
        i += 1;
    }
    Ok(())
}

} // verus!

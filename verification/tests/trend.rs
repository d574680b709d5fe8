use cstimer_analyzer::record::{Penalty, Record};
use cstimer_analyzer::session::Session;
use cstimer_analyzer::stats_type::StatsType;
use cstimer_analyzer::trend::{trend, TrendPoint};

fn done(time_ms: u32) -> Record {
    Record::new(time_ms, Penalty::Clean, 0, None)
}

fn gap() -> Record {
    Record::new(0, Penalty::Dnf, 0, None)
}

fn point(position: usize, value: Option<u64>) -> TrendPoint {
    TrendPoint { position, value }
}

#[test]
fn trend_has_a_point_for_every_record() {
    let records = vec![done(3000), gap(), done(1000)];
    let series = trend(&records, &StatsType::Single).unwrap();
    assert_eq!(series, vec![point(0, Some(3000)), point(1, None), point(2, Some(1000))]);
}

#[test]
fn trend_keeps_gaps_apart_from_zero() {
    let records = vec![done(0), gap()];
    let series = trend(&records, &StatsType::Single).unwrap();
    assert_eq!(series, vec![point(0, Some(0)), point(1, None)]);
    assert_ne!(series[0].value, series[1].value);
}

#[test]
fn windowed_trend_starts_with_gaps() {
    let records = vec![done(1000), done(2000), done(3000), done(7000)];
    let series = trend(&records, &StatsType::AverageOfN(3, 0)).unwrap();
    assert_eq!(
        series,
        vec![point(0, None), point(1, None), point(2, Some(2000)), point(3, Some(4000))]
    );
}

#[test]
fn trend_is_the_same_on_every_call() {
    let records = vec![done(5000), gap(), done(4000), done(4500), done(6000), done(3000)];
    for kind in [
        StatsType::Single,
        StatsType::AverageOfN(5, 1),
        StatsType::CumulativeMean,
        StatsType::CumulativeAverage,
    ] {
        assert_eq!(trend(&records, &kind), trend(&records, &kind));
    }
}

#[test]
fn trend_depends_on_the_outcomes_alone() {
    let plain = vec![done(5000), gap(), done(4000)];
    let told = vec![
        Record::new(5000, Penalty::Clean, 10, Some(String::from("lucky"))),
        Record::new(123, Penalty::Dnf, 20, None),
        Record::new(2000, Penalty::PlusTwo, 30, None),
    ];
    let first = Session::new(1, String::from("a"), plain).unwrap();
    let second = Session::new(2, String::from("b"), told).unwrap();
    assert_eq!(first.trend(&StatsType::CumulativeMean), second.trend(&StatsType::CumulativeMean));
}

#[test]
fn no_trend_where_the_statistic_is_never_defined() {
    let four = vec![done(1000), done(2000), done(3000), done(4000)];
    assert_eq!(trend(&four, &StatsType::AverageOfN(5, 1)), None);
    assert_eq!(trend(&Vec::new(), &StatsType::Single), None);
    assert_eq!(trend(&vec![gap(), gap()], &StatsType::CumulativeAverage), None);
}

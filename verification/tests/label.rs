use cstimer_analyzer::label::{kind_label, readable};
use cstimer_analyzer::stats_type::StatsType;

#[test]
fn times_under_a_minute_show_seconds() {
    assert_eq!(readable(0), "0.000");
    assert_eq!(readable(7), "0.007");
    assert_eq!(readable(9870), "9.870");
    assert_eq!(readable(12345), "12.345");
    assert_eq!(readable(59999), "59.999");
}

#[test]
fn times_from_a_minute_on_show_minutes() {
    assert_eq!(readable(60000), "1:00.000");
    assert_eq!(readable(62345), "1:02.345");
    assert_eq!(readable(600000), "10:00.000");
    assert_eq!(readable(3_723_004), "62:03.004");
    assert_eq!(readable(u64::MAX), "307445734561825:51.615");
}

#[test]
fn kinds_have_short_names() {
    assert_eq!(kind_label(&StatsType::Single), "single");
    assert_eq!(kind_label(&StatsType::AverageOfN(5, 1)), "ao5");
    assert_eq!(kind_label(&StatsType::AverageOfN(100, 5)), "ao100");
    assert_eq!(kind_label(&StatsType::AverageOfN(3, 0)), "mo3");
    assert_eq!(kind_label(&StatsType::AverageOfN(0, 0)), "mo0");
    assert_eq!(kind_label(&StatsType::CumulativeMean), "mean");
    assert_eq!(kind_label(&StatsType::CumulativeAverage), "avg");
}

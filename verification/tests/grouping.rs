use cstimer_analyzer::grouping::{grouping, Bucket};
use cstimer_analyzer::record::{Penalty, Record};
use cstimer_analyzer::session::Session;
use cstimer_analyzer::stats_type::StatsType;

fn at(second: u32, time_ms: u32) -> Record {
    Record::new(time_ms, Penalty::Clean, 1_700_000_000 + second, None)
}

fn dnf_at(second: u32) -> Record {
    Record::new(0, Penalty::Dnf, 1_700_000_000 + second, None)
}

fn bucket(start: u64, end: u64, value: Option<u64>, count: usize) -> Bucket {
    Bucket { start, end, value, count }
}

#[test]
fn span_of_125_seconds_gives_three_buckets() {
    let records = vec![at(0, 10000), at(30, 12000), at(70, 20000), at(125, 9000)];
    let buckets = grouping(&records, 60000, &StatsType::Single).unwrap();
    assert_eq!(
        buckets,
        vec![
            bucket(0, 60000, Some(11000), 2),
            bucket(60000, 120000, Some(20000), 1),
            bucket(120000, 180000, Some(9000), 1),
        ]
    );
}

#[test]
fn bucket_without_records_is_empty_not_zero() {
    let records = vec![at(0, 10000), at(61, 12000), at(119, 13001), at(180, 9000)];
    let buckets = grouping(&records, 60000, &StatsType::Single).unwrap();
    assert_eq!(
        buckets,
        vec![
            bucket(0, 60000, Some(10000), 1),
            bucket(60000, 120000, Some(12500), 2),
            bucket(120000, 180000, None, 0),
            bucket(180000, 240000, Some(9000), 1),
        ]
    );
}

#[test]
fn bucket_with_only_dnfs_is_empty() {
    let records = vec![at(0, 10000), dnf_at(60), dnf_at(61), at(120, 0)];
    let buckets = grouping(&records, 60000, &StatsType::Single).unwrap();
    assert_eq!(
        buckets,
        vec![
            bucket(0, 60000, Some(10000), 1),
            bucket(60000, 120000, None, 0),
            bucket(120000, 180000, Some(0), 1),
        ]
    );
}

#[test]
fn buckets_follow_one_another() {
    let records = vec![at(0, 1000), at(5, 1000), at(9, 1000), at(100, 1000)];
    let buckets = grouping(&records, 7000, &StatsType::Single).unwrap();
    assert_eq!(buckets.len(), 15);
    assert_eq!(buckets[0].start, 0);
    for pair in buckets.windows(2) {
        assert_eq!(pair[0].end, pair[1].start);
    }
    for b in &buckets {
        assert_eq!(b.end - b.start, 7000);
    }
    let counted: usize = buckets.iter().map(|b| b.count).sum();
    assert_eq!(counted, 4);
}

#[test]
fn record_on_a_bound_belongs_to_the_later_bucket() {
    let records = vec![at(0, 1000), at(59, 3000), at(60, 5000)];
    let buckets = grouping(&records, 60000, &StatsType::Single).unwrap();
    assert_eq!(
        buckets,
        vec![bucket(0, 60000, Some(2000), 2), bucket(60000, 120000, Some(5000), 1)]
    );
}

#[test]
fn penalty_counts_in_the_bucket_mean() {
    let records = vec![
        at(0, 1000),
        Record::new(2000, Penalty::PlusTwo, 1_700_000_001, None),
        dnf_at(2),
        at(10, 500),
    ];
    let buckets = grouping(&records, 10000, &StatsType::Single).unwrap();
    assert_eq!(buckets, vec![bucket(0, 10000, Some(2500), 2), bucket(10000, 20000, Some(500), 1)]);
}

#[test]
fn kind_does_not_change_the_grouping() {
    let records = vec![at(0, 1000), at(1, 2000), at(2, 3000), at(3, 4000), at(4, 5000), at(9, 1)];
    let single = grouping(&records, 3000, &StatsType::Single);
    assert_eq!(single, grouping(&records, 3000, &StatsType::AverageOfN(5, 1)));
    assert_eq!(single, grouping(&records, 3000, &StatsType::CumulativeAverage));
    assert_eq!(single.unwrap()[0], bucket(0, 3000, Some(2000), 3));
}

#[test]
fn too_little_to_group() {
    let kind = StatsType::Single;
    assert_eq!(grouping(&Vec::new(), 60000, &kind), None);
    assert_eq!(grouping(&vec![at(0, 1000)], 60000, &kind), None);
    assert_eq!(grouping(&vec![at(0, 1000), at(59, 1000)], 60000, &kind), None);
    assert_eq!(grouping(&vec![at(0, 1000), at(60, 1000)], 0, &kind), None);
    assert_eq!(grouping(&vec![dnf_at(0), dnf_at(60), dnf_at(200)], 60000, &kind), None);
    assert!(grouping(&vec![at(0, 1000), at(60, 1000)], 60000, &kind).is_some());
}

#[test]
fn widest_span_does_not_overflow() {
    let records = vec![
        Record::new(u32::MAX, Penalty::PlusTwo, 0, None),
        Record::new(u32::MAX, Penalty::PlusTwo, u32::MAX, None),
    ];
    let buckets = grouping(&records, 4_294_967_295_000, &StatsType::Single).unwrap();
    assert_eq!(
        buckets,
        vec![
            bucket(0, 4_294_967_295_000, Some(4294969295), 1),
            bucket(4_294_967_295_000, 8_589_934_590_000, Some(4294969295), 1),
        ]
    );
}

#[test]
fn session_grouping_agrees_with_the_function() {
    let records = vec![at(0, 10000), at(30, 12000), at(70, 20000), at(125, 9000)];
    let session = Session::new(3, String::from("grouped"), records.clone()).unwrap();
    assert_eq!(
        session.grouping(60000, &StatsType::Single),
        grouping(&records, 60000, &StatsType::Single)
    );
}

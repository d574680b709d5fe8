use cstimer_analyzer::comments::commented_records;
use cstimer_analyzer::record::{Penalty, Record};
use cstimer_analyzer::analyze::{
    analyze, analyze_section, analyze_session, Analyze, Notice, Section,
};
use cstimer_analyzer::session::Session;
use cstimer_analyzer::stats_type::StatsType;

fn noted(second: u32, time_ms: u32, penalty: Penalty, comment: Option<&str>) -> Record {
    Record::new(time_ms, penalty, second, comment.map(String::from))
}

fn evening() -> Session {
    let records = vec![
        noted(0, 12000, Penalty::Clean, None),
        noted(20, 13000, Penalty::PlusTwo, Some("slipped")),
        noted(45, 0, Penalty::Dnf, None),
        noted(70, 11000, Penalty::Clean, Some("")),
        noted(125, 14500, Penalty::Clean, None),
    ];
    Session::new(1, String::from("evening"), records).unwrap()
}

fn short() -> Session {
    let records = vec![noted(0, 0, Penalty::Dnf, None), noted(1, 0, Penalty::Dnf, None)];
    Session::new(2, String::from("short"), records).unwrap()
}

#[test]
fn commented_records_come_with_their_positions() {
    let list = evening().commented_records();
    assert_eq!(
        list,
        vec![
            (1, noted(20, 13000, Penalty::PlusTwo, Some("slipped"))),
            (3, noted(70, 11000, Penalty::Clean, Some(""))),
        ]
    );
    assert_eq!(commented_records(short().records()), Vec::new());
}

#[test]
fn overview_section_holds_counts_and_shares() {
    match analyze_section(&evening(), &Analyze::Overview) {
        Section::Overview { overview, states, plus2_share, dnf_share } => {
            assert_eq!(overview.best, Some(11000));
            assert_eq!(overview.worst, Some(15000));
            assert_eq!(overview.mean, Some(13125));
            assert_eq!(overview.average, Some(13833));
            assert_eq!((states.ok, states.plus2, states.dnf), (3, 1, 1));
            assert_eq!(plus2_share, Some(2000));
            assert_eq!(dnf_share, Some(2000));
        }
        other => panic!("not an overview: {:?}", other),
    }
}

#[test]
fn overview_of_an_empty_session_is_still_given() {
    let empty = Session::new(0, String::new(), Vec::new()).unwrap();
    match analyze_section(&empty, &Analyze::Overview) {
        Section::Overview { overview, states, plus2_share, dnf_share } => {
            assert_eq!(overview.best, None);
            assert_eq!(overview.average, None);
            assert_eq!((states.ok, states.plus2, states.dnf), (0, 0, 0));
            assert_eq!(plus2_share, None);
            assert_eq!(dnf_share, None);
        }
        other => panic!("not an overview: {:?}", other),
    }
}

#[test]
fn sections_hold_what_the_queries_return() {
    let session = evening();
    let ao3 = StatsType::AverageOfN(3, 0);
    assert_eq!(
        analyze_section(&session, &Analyze::PbHistory(StatsType::Single)),
        Section::PbHistory {
            kind: StatsType::Single,
            entries: session.pb_breakers(&StatsType::Single).unwrap(),
        }
    );
    assert_eq!(
        analyze_section(&session, &Analyze::Grouping(ao3, 60000)),
        Section::Grouping {
            kind: ao3,
            interval: 60000,
            buckets: session.grouping(60000, &ao3).unwrap(),
        }
    );
    assert_eq!(
        analyze_section(&session, &Analyze::Trending(StatsType::CumulativeMean)),
        Section::Trending {
            kind: StatsType::CumulativeMean,
            points: session.trend(&StatsType::CumulativeMean).unwrap(),
        }
    );
    assert_eq!(
        analyze_section(&session, &Analyze::Commented),
        Section::Commented { list: session.commented_records() }
    );
}

#[test]
fn notices_say_why_there_is_nothing_to_show() {
    let session = short();
    let ao5 = StatsType::AverageOfN(5, 1);
    assert_eq!(
        analyze_section(&session, &Analyze::PbHistory(ao5)),
        Section::Notice(Notice::NotEnoughRecords(ao5))
    );
    assert_eq!(
        analyze_section(&session, &Analyze::Trending(StatsType::Single)),
        Section::Notice(Notice::NotEnoughRecords(StatsType::Single))
    );
    assert_eq!(
        analyze_section(&session, &Analyze::Grouping(StatsType::Single, 1000)),
        Section::Notice(Notice::GroupingFailed(1000))
    );
    assert_eq!(
        analyze_section(&session, &Analyze::Commented),
        Section::Notice(Notice::NoCommentedRecord)
    );
}

#[test]
fn one_failing_analysis_leaves_the_others() {
    let sessions = vec![evening(), short()];
    let options = vec![
        Analyze::PbHistory(StatsType::AverageOfN(12, 1)),
        Analyze::Overview,
        Analyze::Trending(StatsType::Single),
    ];
    let report = analyze(&sessions, &options);
    assert_eq!(report.len(), 2);
    for (session, sections) in sessions.iter().zip(&report) {
        assert_eq!(sections, &analyze_session(session, &options));
        assert_eq!(sections.len(), 3);
        for (option, section) in options.iter().zip(sections) {
            assert_eq!(section, &analyze_section(session, option));
        }
    }
    assert_eq!(
        report[0][0],
        Section::Notice(Notice::NotEnoughRecords(StatsType::AverageOfN(12, 1)))
    );
    assert!(matches!(report[0][1], Section::Overview { .. }));
    assert!(matches!(report[0][2], Section::Trending { .. }));
    assert!(matches!(report[1][1], Section::Overview { .. }));
    assert!(matches!(report[1][2], Section::Notice(_)));
}

#[test]
fn no_sessions_or_no_options_give_an_empty_report() {
    assert_eq!(analyze(&Vec::new(), &vec![Analyze::Overview]), Vec::<Vec<Section>>::new());
    let report = analyze(&vec![evening()], &Vec::new());
    assert_eq!(report, vec![Vec::<Section>::new()]);
}

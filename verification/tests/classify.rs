use cstimer_analyzer::classify::{overview, solve_states, Overview, SolveStates};
use cstimer_analyzer::record::{Penalty, Record};
use cstimer_analyzer::session::Session;

fn solve(time_ms: u32, penalty: Penalty) -> Record {
    Record::new(time_ms, penalty, 0, None)
}

fn five_solves() -> Vec<Record> {
    vec![
        solve(12000, Penalty::Clean),
        solve(13000, Penalty::PlusTwo),
        solve(0, Penalty::Dnf),
        solve(11000, Penalty::Clean),
        solve(14500, Penalty::Clean),
    ]
}

#[test]
fn solve_states_of_five_solves() {
    let states = solve_states(&five_solves());
    assert_eq!(states, SolveStates { ok: 3, plus2: 1, dnf: 1 });
}

#[test]
fn best_and_worst_ignore_dnf_and_count_the_penalty() {
    let o = overview(&five_solves());
    assert_eq!(o.best, Some(11000));
    assert_eq!(o.worst, Some(15000));
}

#[test]
fn mean_and_average_of_five_solves() {
    let o = overview(&five_solves());
    // (12000 + 15000 + 11000 + 14500) / 4
    assert_eq!(o.mean, Some(13125));
    // the best time and the DNF are set aside: (12000 + 14500 + 15000) / 3, rounded down
    assert_eq!(o.average, Some(13833));
}

#[test]
fn counts_add_up_to_the_number_of_records() {
    let records = vec![
        solve(1, Penalty::Dnf),
        solve(2, Penalty::Dnf),
        solve(3, Penalty::PlusTwo),
        solve(4, Penalty::Clean),
        solve(5, Penalty::PlusTwo),
        solve(6, Penalty::Dnf),
        solve(7, Penalty::Clean),
    ];
    let states = solve_states(&records);
    assert_eq!(states.ok + states.plus2 + states.dnf, records.len());
    assert_eq!(states, SolveStates { ok: 2, plus2: 2, dnf: 3 });
    assert_eq!(states.total(), Some(7));
}

#[test]
fn empty_session_has_nothing_defined() {
    let records: Vec<Record> = Vec::new();
    let o = overview(&records);
    assert_eq!(o, Overview { best: None, worst: None, mean: None, average: None });
    let states = solve_states(&records);
    assert_eq!(states, SolveStates { ok: 0, plus2: 0, dnf: 0 });
    assert_eq!(states.plus2_percentage(), None);
    assert_eq!(states.dnf_percentage(), None);
}

#[test]
fn all_dnf_session_has_no_best_or_worst() {
    let records = vec![solve(9000, Penalty::Dnf), solve(8000, Penalty::Dnf)];
    let o = overview(&records);
    assert_eq!(o, Overview { best: None, worst: None, mean: None, average: None });
    let states = solve_states(&records);
    assert_eq!(states.dnf_percentage(), Some(10000));
    assert_eq!(states.plus2_percentage(), Some(0));
}

#[test]
fn percentages_are_out_of_all_records() {
    let states = solve_states(&five_solves());
    assert_eq!(states.plus2_percentage(), Some(2000));
    assert_eq!(states.dnf_percentage(), Some(2000));
}

#[test]
fn percentages_round_to_the_nearest_hundredth() {
    let thirds = SolveStates { ok: 1, plus2: 1, dnf: 1 };
    assert_eq!(thirds.plus2_percentage(), Some(3333));
    let two_thirds = SolveStates { ok: 1, plus2: 2, dnf: 0 };
    assert_eq!(two_thirds.plus2_percentage(), Some(6667));
}

#[test]
fn percentage_ties_go_to_the_even_hundredth() {
    // 1 of 800 is 0.125 %, 3 of 800 is 0.375 %
    let one = SolveStates { ok: 799, plus2: 1, dnf: 0 };
    assert_eq!(one.plus2_percentage(), Some(12));
    let three = SolveStates { ok: 797, plus2: 0, dnf: 3 };
    assert_eq!(three.dnf_percentage(), Some(38));
}

#[test]
fn counts_beyond_the_machine_have_no_total() {
    let states = SolveStates { ok: usize::MAX, plus2: 1, dnf: 0 };
    assert_eq!(states.total(), None);
    assert_eq!(states.plus2_percentage(), None);
}

#[test]
fn a_single_solve_is_its_own_best_worst_mean_and_average() {
    let o = overview(&vec![solve(7777, Penalty::PlusTwo)]);
    assert_eq!(
        o,
        Overview { best: Some(9777), worst: Some(9777), mean: Some(9777), average: Some(9777) }
    );
}

#[test]
fn effective_time_adds_two_seconds_under_plus_two() {
    assert_eq!(solve(13000, Penalty::PlusTwo).effective_time(), Some(15000));
    assert_eq!(solve(13000, Penalty::Clean).effective_time(), Some(13000));
    assert_eq!(solve(13000, Penalty::Dnf).effective_time(), None);
    assert_eq!(solve(u32::MAX, Penalty::PlusTwo).effective_time(), Some(4294969295));
}

#[test]
fn session_queries_agree_with_the_functions() {
    let session = Session::new(1, String::from("3x3"), five_solves()).unwrap();
    assert_eq!(session.id(), 1);
    assert_eq!(session.name(), "3x3");
    assert_eq!(session.len(), 5);
    assert_eq!(session.records(), &five_solves());
    assert_eq!(session.solve_states(), solve_states(&five_solves()));
    assert_eq!(session.overview(), overview(&five_solves()));
}

#[test]
fn session_refuses_records_out_of_order() {
    let records = vec![
        Record::new(1000, Penalty::Clean, 10, None),
        Record::new(1000, Penalty::Clean, 9, None),
    ];
    assert!(Session::new(1, String::new(), records).is_none());
    let same_time = vec![
        Record::new(1000, Penalty::Clean, 10, None),
        Record::new(1000, Penalty::Clean, 10, None),
    ];
    assert!(Session::new(1, String::new(), same_time).is_some());
    assert!(Session::new(1, String::new(), Vec::new()).is_some());
}

use setaf_verifier::parsers::error::ParseErrorKind;
use setaf_verifier::semantics::Semantics;
use setaf_verifier::supervisor::{Supervisor, SupervisorData, SupervisorState};
use setaf_verifier::worker::{Work, Worker};
use setaf_verifier::{exit_code, should_stop};

fn run_lines(text: &[&str]) -> Vec<Vec<u8>> {
    text.iter().map(|line| line.as_bytes().to_vec()).collect()
}

fn started(threads: u16, proof: &[&str], complete: bool) -> Supervisor {
    let mut supervisor = Supervisor::new();
    let instance = supervisor.start(
        threads,
        &run_lines(&["3 3 0", "1 2 0", "2 3 0", "3 1 2 0"]),
        &None,
        &None,
        &run_lines(proof),
        &Semantics::Admissible,
        complete,
    );
    assert!(instance.is_some());
    supervisor
}

#[test]
fn state_codes_go_there_and_back() {
    let states = [
        SupervisorState::NotStarted,
        SupervisorState::Working,
        SupervisorState::ParsingFailed,
        SupervisorState::RequiredArgumentInconsistent,
        SupervisorState::Finished,
        SupervisorState::UnexpectedError,
        SupervisorState::Unknown,
    ];
    for (code, state) in states.iter().enumerate() {
        assert_eq!(state.to_code(), code as u8);
        assert_eq!(SupervisorState::from_code(code as u8), *state);
    }
    assert_eq!(SupervisorState::from_code(7), SupervisorState::Unknown);
    assert_eq!(SupervisorState::from_code(255), SupervisorState::Unknown);
}

#[test]
fn exit_codes_of_the_states() {
    assert_eq!(exit_code(SupervisorState::NotStarted), 64);
    assert_eq!(exit_code(SupervisorState::Working), 64);
    assert_eq!(exit_code(SupervisorState::ParsingFailed), 8);
    assert_eq!(exit_code(SupervisorState::RequiredArgumentInconsistent), 0);
    assert_eq!(exit_code(SupervisorState::Finished), 0);
    assert_eq!(exit_code(SupervisorState::UnexpectedError), 128);
    assert_eq!(exit_code(SupervisorState::Unknown), 128);
}

#[test]
fn should_stop_once_work_is_to_end() {
    assert_eq!(should_stop(true), Ok(false));
    assert_eq!(should_stop(false), Err("Interrupted".to_string()));
}

#[test]
fn new_data_schedules_the_empty_clause() {
    let data = SupervisorData::new(3);
    assert_eq!(data.deployed_worker_counter, 3);
    assert!(data.stalled_workers.is_empty());
    assert_eq!(data.to_check, vec![None]);
}

#[test]
fn new_supervisor_has_not_started() {
    let mut supervisor = Supervisor::new();
    assert_eq!(supervisor.get_state(), SupervisorState::NotStarted);
    assert_eq!(supervisor.get_result(), None);
    assert_eq!(supervisor.get_parsing_error_message(), None);
    assert!(supervisor.get_workers().is_empty());
    let (work, notice) = supervisor.get_work(0, true);
    assert_eq!(work, Work::Finished);
    assert!(notice.wake.is_empty());
    assert!(!notice.completed);
    assert_eq!(supervisor.add_clause_to_check(5), None);
    assert_eq!(supervisor.get_state(), SupervisorState::NotStarted);
}

#[test]
fn start_reports_a_fault_of_the_input() {
    let mut supervisor = Supervisor::new();
    let instance = supervisor.start(
        2,
        &run_lines(&["3 1 0", "1 2 0"]),
        &None,
        &None,
        &run_lines(&["1 4 0", "0"]),
        &Semantics::Stable,
        false,
    );
    assert!(instance.is_none());
    assert_eq!(supervisor.get_state(), SupervisorState::ParsingFailed);
    let error = supervisor.get_parsing_error_message().unwrap();
    assert_eq!(error.kind, ParseErrorKind::UnknownLiteral);
    assert_eq!(error.line, 0);
    assert_eq!(supervisor.get_result(), None);
    assert_eq!(supervisor.get_work(0, true).0, Work::Finished);
}

#[test]
fn start_ends_at_once_where_the_required_arguments_contradict() {
    let mut supervisor = Supervisor::new();
    let instance = supervisor.start(
        2,
        &run_lines(&["3 1 0", "1 2 0"]),
        &None,
        &Some(run_lines(&["1", "-1"])),
        &run_lines(&["0"]),
        &Semantics::Stable,
        true,
    );
    assert!(instance.is_none());
    assert_eq!(supervisor.get_state(), SupervisorState::RequiredArgumentInconsistent);
    assert_eq!(supervisor.get_result(), Some((true, None)));
    assert_eq!(supervisor.get_work(0, true).0, Work::Finished);
}

#[test]
fn start_deploys_no_more_workers_than_clauses() {
    assert_eq!(started(1, &["0"], false).get_workers().len(), 1);
    assert_eq!(started(3, &["0"], false).get_workers().len(), 3);
    assert_eq!(started(4, &["0"], false).get_workers().len(), 3);
    assert_eq!(started(4, &["1 0", "0"], false).get_workers().len(), 4);
    let supervisor = started(2, &["0"], false);
    assert_eq!(supervisor.get_workers()[0].get_id(), 0);
    assert_eq!(supervisor.get_workers()[1].get_id(), 1);
    assert_eq!(supervisor.get_state(), SupervisorState::Working);
    assert_eq!(supervisor.get_result(), None);
}

#[test]
fn lazy_run_schedules_the_empty_clause_only() {
    let mut supervisor = started(1, &["1 2 0", "1 3 0", "0"], false);
    assert_eq!(supervisor.get_work(0, true).0, Work::Work(None));
    let (work, notice) = supervisor.get_work(0, true);
    assert_eq!(work, Work::Finished);
    assert!(notice.completed);
    assert!(notice.wake.is_empty());
    assert_eq!(supervisor.get_state(), SupervisorState::Finished);
    assert_eq!(supervisor.get_result(), Some((true, None)));
}

#[test]
fn complete_run_schedules_every_clause_of_the_proof() {
    let mut supervisor = Supervisor::new();
    let instance = supervisor
        .start(
            1,
            &run_lines(&["3 3 0", "1 2 0", "2 3 0", "3 1 2 0"]),
            &None,
            &None,
            &run_lines(&["1 2 0", "1 3 0", "0"]),
            &Semantics::Admissible,
            true,
        )
        .unwrap();
    assert!(!instance.clauses[2].is_used());
    assert!(instance.clauses[3].is_used());
    assert!(instance.clauses[4].is_used());
    assert_eq!(supervisor.get_work(0, true).0, Work::Work(Some(4)));
    assert_eq!(supervisor.get_work(0, true).0, Work::Work(Some(3)));
    assert_eq!(supervisor.get_work(0, true).0, Work::Work(None));
    assert_eq!(supervisor.get_work(0, true).0, Work::Finished);
}

#[test]
fn work_stops_once_the_run_is_to_end() {
    let mut supervisor = started(1, &["0"], false);
    let (work, notice) = supervisor.get_work(0, false);
    assert_eq!(work, Work::Finished);
    assert!(!notice.completed);
    assert_eq!(supervisor.get_state(), SupervisorState::Working);
    assert_eq!(supervisor.get_work(0, true).0, Work::Work(None));
}

#[test]
fn dependencies_are_handed_out_last_first() {
    let mut supervisor = started(1, &["1 2 0", "1 3 0", "2 3 0", "0"], false);
    assert_eq!(supervisor.get_work(0, true).0, Work::Work(None));
    assert_eq!(supervisor.add_clause_to_check(3), None);
    assert_eq!(supervisor.add_clause_to_check(2), None);
    assert_eq!(supervisor.add_clause_to_check(0), None);
    assert_eq!(supervisor.add_clause_to_check(5), None);
    assert_eq!(supervisor.get_work(0, true).0, Work::Work(Some(5)));
    assert_eq!(supervisor.get_work(0, true).0, Work::Work(Some(3)));
    assert_eq!(supervisor.get_work(0, true).0, Work::Finished);
}

#[test]
fn workers_wait_until_work_comes_or_the_last_one_finds_none() {
    let mut supervisor = started(3, &["1 2 0", "0"], false);
    assert_eq!(supervisor.get_work(0, true).0, Work::Work(None));
    assert_eq!(supervisor.get_work(1, true).0, Work::Stall);
    assert!(!supervisor.stall_worker(1));
    assert_eq!(supervisor.get_work(2, true).0, Work::Stall);
    assert_eq!(supervisor.add_clause_to_check(3), Some(2));
    assert!(supervisor.stall_worker(2));
    assert!(!supervisor.stall_worker(2));
    assert!(!supervisor.stall_worker(1));
    assert_eq!(supervisor.get_work(2, true).0, Work::Work(Some(3)));
    assert_eq!(supervisor.get_work(2, true).0, Work::Stall);
    let (work, notice) = supervisor.get_work(0, true);
    assert_eq!(work, Work::Finished);
    assert!(notice.completed);
    assert_eq!(notice.wake, vec![1, 2]);
    assert!(supervisor.stall_worker(1));
    assert!(supervisor.stall_worker(2));
    assert_eq!(supervisor.get_work(1, true).0, Work::Finished);
    assert_eq!(supervisor.get_state(), SupervisorState::Finished);
    assert_eq!(supervisor.get_result(), Some((true, None)));
}

#[test]
fn failed_check_ends_the_run() {
    let mut supervisor = started(2, &["1 2 0", "1 3 0", "0"], true);
    assert_eq!(supervisor.get_work(0, true).0, Work::Work(Some(4)));
    assert_eq!(supervisor.get_work(1, true).0, Work::Work(Some(3)));
    let notice = supervisor.worker_finished(Some(3), true);
    assert!(!notice.completed);
    assert!(notice.wake.is_empty());
    assert_eq!(supervisor.get_state(), SupervisorState::Working);
    let notice = supervisor.worker_finished(Some(4), false);
    assert!(notice.completed);
    assert_eq!(supervisor.get_state(), SupervisorState::Finished);
    assert_eq!(supervisor.get_result(), Some((false, Some(4))));
    assert_eq!(supervisor.get_work(1, true).0, Work::Finished);
}

#[test]
fn failed_check_wakes_the_workers_that_wait() {
    let mut supervisor = started(3, &["1 2 0", "0"], false);
    assert_eq!(supervisor.get_work(0, true).0, Work::Work(None));
    assert_eq!(supervisor.get_work(1, true).0, Work::Stall);
    assert_eq!(supervisor.get_work(2, true).0, Work::Stall);
    let notice = supervisor.worker_finished(None, false);
    assert!(notice.completed);
    assert_eq!(notice.wake, vec![1, 2]);
    assert!(supervisor.stall_worker(1));
    assert_eq!(supervisor.get_result(), Some((false, None)));
}

#[test]
fn failure_of_the_empty_clause_is_kept() {
    let mut supervisor = started(2, &["1 2 0", "0"], true);
    supervisor.worker_finished(None, false);
    supervisor.worker_finished(Some(3), false);
    assert_eq!(supervisor.get_result(), Some((false, None)));
}

#[test]
fn fault_of_a_worker_ends_the_run() {
    let mut supervisor = started(1, &["0"], false);
    let notice = supervisor.worker_error_occurred();
    assert!(notice.completed);
    assert_eq!(supervisor.get_state(), SupervisorState::UnexpectedError);
    assert_eq!(supervisor.get_result(), None);
    assert_eq!(supervisor.get_work(0, true).0, Work::Finished);
}

#[test]
fn wake_up_before_the_wait_is_not_lost() {
    let mut worker = Worker::new(7);
    assert_eq!(worker.get_id(), 7);
    assert!(!worker.stall());
    worker.wake_up();
    assert!(worker.stall());
    assert!(!worker.stall());
    worker.wake_up();
    worker.wake_up();
    assert!(worker.stall());
    assert!(!worker.stall());
}

use setaf_verifier::instance_base::InstanceBase;
use setaf_verifier::instance_view::InstanceView;
use setaf_verifier::semantics::Semantics;
use setaf_verifier::supervisor::{Supervisor, SupervisorState};
use setaf_verifier::worker::{Work, Worker};

fn scenario_lines(text: &[&str]) -> Vec<Vec<u8>> {
    text.iter().map(|line| line.as_bytes().to_vec()).collect()
}

struct Outcome {
    state: SupervisorState,
    result: Option<(bool, Option<usize>)>,
    used: Vec<usize>,
    checked: Vec<Option<usize>>,
}

/// Runs the workers in turn, each on its own view, until all have stopped.
fn run(
    threads: u16,
    framework: &[&str],
    required: &[&str],
    proof: &[&str],
    semantics: Semantics,
    complete: bool,
) -> Outcome {
    let mut supervisor = Supervisor::new();
    let instance: Option<InstanceBase> = supervisor.start(
        threads,
        &scenario_lines(framework),
        &None,
        &Some(scenario_lines(required)),
        &scenario_lines(proof),
        &semantics,
        complete,
    );
    let mut checked = Vec::new();
    let mut used = Vec::new();
    if let Some(instance) = &instance {
        let workers = supervisor.get_workers().len();
        let mut views: Vec<InstanceView> =
            (0..workers).map(|_| InstanceView::new(instance)).collect();
        let mut waits = vec![false; workers];
        let mut stopped = vec![false; workers];
        while stopped.iter().any(|done| !done) {
            for worker in 0..workers {
                if stopped[worker] {
                    continue;
                }
                if waits[worker] {
                    if !supervisor.stall_worker(worker) {
                        continue;
                    }
                    waits[worker] = false;
                }
                let (work, _) = supervisor.get_work(worker, true);
                match work {
                    Work::Work(id) => {
                        checked.push(id);
                        let mut dependencies = Vec::new();
                        let result = Worker::do_work(id, &mut views[worker], &mut dependencies);
                        for clause in dependencies {
                            supervisor.add_clause_to_check(clause);
                        }
                        supervisor.worker_finished(id, result);
                    }
                    Work::Stall => waits[worker] = true,
                    Work::Finished => stopped[worker] = true,
                }
            }
        }
        used = instance
            .clauses
            .iter()
            .filter(|clause| clause.is_used())
            .map(|clause| clause.get_index())
            .collect();
    }
    Outcome { state: supervisor.get_state(), result: supervisor.get_result(), used, checked }
}

/// 2 attacks 1; 3 attacks 2; 1 and 2 together attack 3.
const FRAMEWORK: [&str; 4] = ["3 3 0", "1 2 0", "2 3 0", "3 1 2 0"];

#[test]
fn proof_with_a_used_lemma_succeeds() {
    let outcome =
        run(1, &FRAMEWORK, &["3"], &["1 3 0", "2 3 0", "1 0", "0"], Semantics::Admissible, false);
    assert_eq!(outcome.state, SupervisorState::Finished);
    assert_eq!(outcome.result, Some((false, None)));
    let outcome =
        run(1, &FRAMEWORK, &["3"], &["2 3 0", "2 0", "1 0", "0"], Semantics::Admissible, false);
    assert_eq!(outcome.state, SupervisorState::Finished);
    assert_eq!(outcome.result, Some((true, None)));
    assert_eq!(outcome.checked[0], None);
    assert!(outcome.checked.contains(&Some(4)));
    assert!(!outcome.checked.contains(&Some(3)));
    assert!(outcome.used.contains(&4));
    assert!(!outcome.used.contains(&3));
}

#[test]
fn unit_clauses_propagate_in_the_check_of_the_empty_clause() {
    let proof = ["-3 0", "0"];
    let outcome = run(1, &FRAMEWORK, &["3"], &proof, Semantics::Admissible, false);
    assert_eq!(outcome.result, Some((true, None)));
    assert_eq!(outcome.checked, vec![None, Some(3)]);
    let proof = ["-3 0", "-1 0", "0"];
    let outcome = run(1, &FRAMEWORK, &[], &proof, Semantics::Admissible, false);
    assert_eq!(outcome.result, Some((false, None)));
}

#[test]
fn lazy_run_checks_the_clauses_that_propagate() {
    let proof = ["1 0", "2 0", "-1 0", "1 3 0", "0"];
    let lazy = run(1, &FRAMEWORK, &["1", "2"], &proof, Semantics::Admissible, false);
    assert_eq!(lazy.state, SupervisorState::Finished);
    assert_eq!(lazy.result, Some((true, None)));
    assert_eq!(lazy.checked, vec![None, Some(5), Some(4), Some(3)]);
    for clause in [3, 4, 5] {
        assert!(lazy.used.contains(&clause));
    }
    assert!(!lazy.used.contains(&6));
}

#[test]
fn complete_run_checks_every_clause() {
    let proof = ["1 0", "2 0", "-1 0", "1 3 0", "0"];
    let complete = run(1, &FRAMEWORK, &["1", "2"], &proof, Semantics::Admissible, true);
    assert_eq!(complete.state, SupervisorState::Finished);
    assert_eq!(complete.result, Some((true, None)));
    assert_eq!(complete.checked, vec![Some(6), Some(5), Some(4), Some(3), None]);
    for clause in [0, 3, 4, 5, 6] {
        assert!(complete.used.contains(&clause));
    }
}

#[test]
fn complete_run_finds_the_clause_that_fails() {
    let proof = ["1 0", "0"];
    let lazy = run(1, &FRAMEWORK, &["1", "2"], &proof, Semantics::Admissible, false);
    assert_eq!(lazy.result, Some((true, None)));
    let complete = run(1, &FRAMEWORK, &["1", "2"], &proof, Semantics::Admissible, true);
    assert_eq!(complete.result, Some((true, None)));
    let proof = ["3 0", "0"];
    let complete = run(1, &FRAMEWORK, &["1"], &proof, Semantics::Admissible, true);
    assert_eq!(complete.result, Some((false, Some(3))));
    assert_eq!(complete.checked, vec![Some(3)]);
}

#[test]
fn witness_clauses_are_checked_by_their_rule() {
    let proof = ["i -1 3 0", "i -1 2 0", "0"];
    let outcome = run(1, &FRAMEWORK, &["1", "2"], &proof, Semantics::Admissible, true);
    assert_eq!(outcome.result, Some((false, Some(4))));
    assert_eq!(outcome.checked, vec![Some(4)]);
    let proof = ["i 1 2 0", "i 3 2 0", "0"];
    let outcome = run(1, &FRAMEWORK, &["1", "2"], &proof, Semantics::Stable, true);
    assert_eq!(outcome.result, Some((true, None)));
    assert_eq!(outcome.checked, vec![Some(4), Some(3), None]);
}

#[test]
fn several_workers_come_to_the_same_outcome() {
    let proof = ["2 3 0", "2 0", "1 0", "0"];
    for threads in 1..=4 {
        let outcome = run(threads, &FRAMEWORK, &["3"], &proof, Semantics::Admissible, false);
        assert_eq!(outcome.state, SupervisorState::Finished);
        assert_eq!(outcome.result, Some((true, None)));
        let outcome = run(threads, &FRAMEWORK, &["3"], &proof, Semantics::Admissible, true);
        assert_eq!(outcome.result, Some((true, None)));
    }
}

#[test]
fn contradicting_required_arguments_end_the_run_with_success() {
    let outcome = run(1, &FRAMEWORK, &["1", "-1"], &["0"], Semantics::Stable, false);
    assert_eq!(outcome.state, SupervisorState::RequiredArgumentInconsistent);
    assert_eq!(outcome.result, Some((true, None)));
    assert!(outcome.checked.is_empty());
}

#[test]
fn input_with_a_fault_gives_no_outcome() {
    let outcome = run(1, &FRAMEWORK, &[], &["1 2 0"], Semantics::Stable, false);
    assert_eq!(outcome.state, SupervisorState::ParsingFailed);
    assert_eq!(outcome.result, None);
}

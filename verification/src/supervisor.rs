//! The supervisor: it hands the clauses to check to the workers, lets
//! workers wait while there is nothing to check, and ends the run.

use crate::instance_base::{consistent, instance_of, lines_model, optional_lines_model};
use crate::instance_base::{InstanceBase, InstanceModel};
use crate::parsers::error::ParseError;
use crate::semantics::Semantics;
use crate::worker::{Work, Worker};
use vstd::prelude::*;

verus! {

/// The state of a run.
#[derive(Clone, Copy, Debug, PartialEq, Eq, Structural)]
pub enum SupervisorState {
    NotStarted,
    Working,
    ParsingFailed,
    RequiredArgumentInconsistent,
    Finished,
    UnexpectedError,
    Unknown,
}

impl SupervisorState {
    /// The number that stands for the state.
    pub open spec fn code(self) -> u8 {
        match self {
            SupervisorState::NotStarted => 0,
            SupervisorState::Working => 1,
            SupervisorState::ParsingFailed => 2,
            SupervisorState::RequiredArgumentInconsistent => 3,
            SupervisorState::Finished => 4,
            SupervisorState::UnexpectedError => 5,
            SupervisorState::Unknown => 6,
        }
    }

    /// The state that a number stands for; a number that stands for none
    /// gives `Unknown`.
    pub open spec fn of_code(code: u8) -> SupervisorState {
        if code == 0 {
            SupervisorState::NotStarted
        } else if code == 1 {
            SupervisorState::Working
        } else if code == 2 {
            SupervisorState::ParsingFailed
        } else if code == 3 {
            SupervisorState::RequiredArgumentInconsistent
        } else if code == 4 {
            SupervisorState::Finished
        } else if code == 5 {
            SupervisorState::UnexpectedError
        } else {
            SupervisorState::Unknown
        }
    }

    /// Returns the number that stands for the state.
    pub fn to_code(self) -> (code: u8)
        ensures
            code == self.code(),
            Self::of_code(code) == self,
    {
        match self {
            SupervisorState::NotStarted => 0,
            SupervisorState::Working => 1,
            SupervisorState::ParsingFailed => 2,
            SupervisorState::RequiredArgumentInconsistent => 3,
            SupervisorState::Finished => 4,
            SupervisorState::UnexpectedError => 5,
            SupervisorState::Unknown => 6,
        }
    }

    /// Returns the state that the number stands for.
    pub fn from_code(code: u8) -> (state: SupervisorState)
        ensures
            state == Self::of_code(code),
    {
        if code == 0 {
            SupervisorState::NotStarted
        } else if code == 1 {
            SupervisorState::Working
        } else if code == 2 {
            SupervisorState::ParsingFailed
        } else if code == 3 {
            SupervisorState::RequiredArgumentInconsistent
        } else if code == 4 {
            SupervisorState::Finished
        } else if code == 5 {
            SupervisorState::UnexpectedError
        } else {
            SupervisorState::Unknown
        }
    }
}

/// What the supervisor schedules.
pub struct SupervisorData {
    /// The workers that wait for work.
    pub stalled_workers: Vec<usize>,
    /// The number of workers of the run.
    pub deployed_worker_counter: u16,
    /// The clauses to check: the last one is handed out first. `None` stands
    /// for the empty clause.
    pub to_check: Vec<Option<usize>>,
}

impl SupervisorData {
    /// The data of a run in which no worker waits and the empty clause is
    /// to check.
    pub fn new(deployed_worker_counter: u16) -> (data: SupervisorData)
        ensures
            data.deployed_worker_counter == deployed_worker_counter,
            data.stalled_workers@ == Seq::<usize>::empty(),
            data.to_check@ == seq![None::<usize>],
    {
        let mut to_check: Vec<Option<usize>> = Vec::new();
        to_check.push(None);
        SupervisorData { deployed_worker_counter, stalled_workers: Vec::new(), to_check }
    }
}

/// What a call of the supervisor leaves for its caller to do.
pub struct Notice {
    /// The workers to wake, which the supervisor has marked as woken.
    pub wake: Vec<usize>,
    /// Whether to tell whoever waits for the end of the run.
    pub completed: bool,
}

/// What the supervisor holds.
pub struct SupervisorModel {
    pub state: SupervisorState,
    /// Whether the run has started with an instance.
    pub scheduled: bool,
    pub stalled_workers: Seq<usize>,
    pub deployed_workers: u16,
    pub to_check: Seq<Option<usize>>,
    pub verification_successful: bool,
    pub failed_clause_index: usize,
    pub failed_empty_clause_verification: bool,
    pub first_clause_index_to_verify: usize,
    pub parsing_error: Option<ParseError>,
}

/// The clauses of a proof, in the order in which a complete run stores
/// them to check.
pub open spec fn proof_indices(proof_start: usize, count: usize) -> Seq<Option<usize>> {
    Seq::new(
        (count - proof_start) as nat,
        |i: int| Some((proof_start + i) as usize),
    )
}

/// The number of workers of a run: as many as there are threads, but no
/// more than there are clauses.
pub open spec fn deployed(number_of_threads: u16, number_of_clauses: nat) -> u16 {
    if number_of_threads <= number_of_clauses {
        number_of_threads
    } else {
        number_of_clauses as u16
    }
}

/// The supervisor of a run.
pub struct Supervisor {
    /// The state of the run.
    state: SupervisorState,
    /// The workers of the run.
    workers: Vec<Worker>,
    /// What is scheduled, once the run has started.
    data: Option<SupervisorData>,
    /// Whether no check has failed.
    verification_successful: bool,
    /// The index of a clause whose check failed.
    failed_clause_index: usize,
    /// Whether the check of the empty clause failed.
    failed_empty_clause_verification: bool,
    /// The index of the first clause of the proof.
    first_clause_index_to_verify: usize,
    /// The fault of the input.
    parsing_error: Option<ParseError>,
}

impl Supervisor {
    /// What the supervisor holds.
    pub closed spec fn model(&self) -> SupervisorModel {
        SupervisorModel {
            state: self.state,
            scheduled: self.data is Some,
            stalled_workers: match self.data {
                Some(data) => data.stalled_workers@,
                None => Seq::empty(),
            },
            deployed_workers: match self.data {
                Some(data) => data.deployed_worker_counter,
                None => 0,
            },
            to_check: match self.data {
                Some(data) => data.to_check@,
                None => Seq::empty(),
            },
            verification_successful: self.verification_successful,
            failed_clause_index: self.failed_clause_index,
            failed_empty_clause_verification: self.failed_empty_clause_verification,
            first_clause_index_to_verify: self.first_clause_index_to_verify,
            parsing_error: self.parsing_error,
        }
    }

    /// The workers of the run, as far as the supervisor wakes them.
    pub closed spec fn spec_workers(&self) -> Seq<Worker> {
        self.workers@
    }

    /// The supervisor is well formed: while the run works it has something
    /// scheduled and a worker for each index below the number of workers,
    /// and only such workers wait.
    pub closed spec fn wf(&self) -> bool {
        &&& self.state == SupervisorState::Working ==> self.data is Some
        &&& self.data matches Some(data) ==> {
            &&& self.workers@.len() == data.deployed_worker_counter
            &&& forall|i: int|
                0 <= i < data.stalled_workers@.len() ==> (#[trigger] data.stalled_workers@[i])
                    < self.workers@.len()
        }
        &&& self.data is None ==> self.workers@.len() == 0
    }

    /// The result of the run: whether the proof holds, and the clause whose check
    /// failed, unless it was the empty clause. There is none before the run
    /// has ended, nor after a fault.
    pub open spec fn result_of(model: SupervisorModel) -> Option<(bool, Option<usize>)> {
        if model.state == SupervisorState::Finished || model.state
            == SupervisorState::RequiredArgumentInconsistent {
            if model.verification_successful {
                Some((true, None))
            } else if model.failed_empty_clause_verification {
                Some((false, None))
            } else {
                Some((false, Some(model.failed_clause_index)))
            }
        } else {
            None
        }
    }

    /// Returns the result of the run.
    pub fn get_result(&self) -> (result: Option<(bool, Option<usize>)>)
        ensures
            result == Self::result_of(self.model()),
    {
        match self.state {
            SupervisorState::Finished | SupervisorState::RequiredArgumentInconsistent => {
                if self.verification_successful {
                    Some((true, None))
                } else if self.failed_empty_clause_verification {
                    Some((false, None))
                } else {
                    Some((false, Some(self.failed_clause_index)))
                }
            },
            _ => None,
        }
    }

    /// A supervisor whose run has not started.
    pub fn new() -> (supervisor: Supervisor)
        ensures
            supervisor.wf(),
            supervisor.model() == (SupervisorModel {
                state: SupervisorState::NotStarted,
                scheduled: false,
                stalled_workers: Seq::empty(),
                deployed_workers: 0,
                to_check: Seq::empty(),
                verification_successful: true,
                failed_clause_index: 0,
                failed_empty_clause_verification: false,
                first_clause_index_to_verify: 0,
                parsing_error: None,
            }),
            supervisor.spec_workers().len() == 0,
    {
        Supervisor {
            state: SupervisorState::NotStarted,
            workers: Vec::new(),
            data: None,
            verification_successful: true,
            failed_clause_index: 0,
            failed_empty_clause_verification: false,
            first_clause_index_to_verify: 0,
            parsing_error: None,
        }
    }

    /// What a start makes of a supervisor whose run has not started.
    pub open spec fn started(
        before: SupervisorModel,
        number_of_threads: u16,
        framework: Seq<Seq<u8>>,
        description: Option<Seq<Seq<u8>>>,
        required: Option<Seq<Seq<u8>>>,
        proof_lines: Seq<Seq<u8>>,
        semantics: Semantics,
        complete: bool,
    ) -> SupervisorModel {
        match instance_of(framework, description, required, proof_lines, semantics) {
            Err(error) => SupervisorModel {
                state: SupervisorState::ParsingFailed,
                parsing_error: Some(error),
                ..before
            },
            Ok(instance) => if !consistent(instance.required) {
                SupervisorModel {
                    state: SupervisorState::RequiredArgumentInconsistent,
                    verification_successful: true,
                    ..before
                }
            } else {
                SupervisorModel {
                    state: SupervisorState::Working,
                    scheduled: true,
                    stalled_workers: Seq::empty(),
                    deployed_workers: deployed(number_of_threads, instance.clauses.len()),
                    to_check: if complete {
                        seq![None::<usize>] + proof_indices(
                            instance.proof_start,
                            instance.clauses.len() as usize,
                        )
                    } else {
                        seq![None::<usize>]
                    },
                    first_clause_index_to_verify: instance.proof_start,
                    ..before
                }
            },
        }
    }

    /// Starts the run: reads the instance from the lines of its four texts
    /// and, unless the input has a fault or requires an argument with both
    /// signs, schedules the empty clause and, in a complete run, every
    /// clause of the proof, each marked as used, for as many workers as
    /// there are threads, but no more than there are clauses.
    ///
    /// Returns the instance where the run works from now on: the caller is
    /// to give a view of it to each worker.
    pub fn start(
        &mut self,
        number_of_threads: u16,
        framework: &Vec<Vec<u8>>,
        description: &Option<Vec<Vec<u8>>>,
        required: &Option<Vec<Vec<u8>>>,
        proof_lines: &Vec<Vec<u8>>,
        semantics: &Semantics,
        complete: bool,
    ) -> (instance: Option<InstanceBase>)
        requires
            old(self).wf(),
            old(self).model().state == SupervisorState::NotStarted,
            !old(self).model().scheduled,
        ensures
            final(self).wf(),
            final(self).model() == Self::started(
                old(self).model(),
                number_of_threads,
                lines_model(framework@),
                optional_lines_model(*description),
                optional_lines_model(*required),
                lines_model(proof_lines@),
                *semantics,
                complete,
            ),
            instance is Some <==> final(self).model().state == SupervisorState::Working,
            instance matches Some(base) ==> base.wf() && consistent(base.required_arguments@)
                && instance_of(
                lines_model(framework@),
                optional_lines_model(*description),
                optional_lines_model(*required),
                lines_model(proof_lines@),
                *semantics,
            ) == Ok::<InstanceModel, ParseError>(base.model()),
            final(self).spec_workers().len() == final(self).model().deployed_workers,
            forall|i: int|
                0 <= i < final(self).spec_workers().len() ==> (#[trigger] final(self).spec_workers()[i]).spec_id() == i && !final(self).spec_workers()[i].woken(),
    {
        let instance = match InstanceBase::new(
            framework,
            description,
            required,
            proof_lines,
            semantics,
        ) {
            Err(error) => {
                self.parsing_error = Some(error);
                self.state = SupervisorState::ParsingFailed;
                assert(self.model().stalled_workers =~= old(self).model().stalled_workers);
                assert(self.model().to_check =~= old(self).model().to_check);
                return None;
            },
            Ok(instance) => instance,
        };
        if !instance.is_required_arguments_consistent() {
            self.verification_successful = true;
            self.state = SupervisorState::RequiredArgumentInconsistent;
            assert(self.model().stalled_workers =~= old(self).model().stalled_workers);
            assert(self.model().to_check =~= old(self).model().to_check);
            return None;
        }
        let number_of_clauses = instance.clauses.len();
        self.first_clause_index_to_verify = instance.proof_start;
        let number_of_workers: u16 = if number_of_threads as usize <= number_of_clauses {
            number_of_threads
        } else {
            number_of_clauses as u16
        };
        let mut data = SupervisorData::new(number_of_workers);
        if complete {
            let mut index: usize = instance.proof_start;
            while index < number_of_clauses
                invariant
                    instance.proof_start <= index <= number_of_clauses,
                    number_of_clauses == instance.clauses@.len(),
                    data.deployed_worker_counter == number_of_workers,
                    data.stalled_workers@ == Seq::<usize>::empty(),
                    data.to_check@ == seq![None::<usize>] + proof_indices(
                        instance.proof_start,
                        index,
                    ),
                decreases number_of_clauses - index,
            {
                instance.clauses[index].set_used();
                data.to_check.push(Some(index));
                proof {
                    assert(proof_indices(instance.proof_start, (index + 1) as usize)
                        =~= proof_indices(instance.proof_start, index).push(Some(index)));
                    assert(data.to_check@ =~= seq![None::<usize>] + proof_indices(
                        instance.proof_start,
                        (index + 1) as usize,
                    ));
                }
                index += 1;
            }
        }
        let mut workers: Vec<Worker> = Vec::new();
        let mut id: usize = 0;
        while id < number_of_workers as usize
            invariant
                id <= number_of_workers,
                workers@.len() == id,
                forall|i: int|
                    0 <= i < id ==> (#[trigger] workers@[i]).spec_id() == i && !workers@[i].woken(),
            decreases number_of_workers - id,
        {
            workers.push(Worker::new(id));
            id += 1;
        }
        self.workers = workers;
        self.data = Some(data);
        self.state = SupervisorState::Working;
        Some(instance)
    }

    /// Returns the state of the run.
    pub fn get_state(&self) -> (state: SupervisorState)
        ensures
            state == self.model().state,
    {
        self.state
    }

    /// Ends the run if it works still.
    fn set_finished(&mut self)
        requires
            old(self).wf(),
        ensures
            final(self).wf(),
            final(self).spec_workers() == old(self).spec_workers(),
            final(self).model() == (SupervisorModel {
                state: if old(self).model().state == SupervisorState::Working {
                    SupervisorState::Finished
                } else {
                    old(self).model().state
                },
                ..old(self).model()
            }),
    {
        if self.state == SupervisorState::Working {
            self.state = SupervisorState::Finished;
        }
    }

    /// Notes that a worker has met with a fault that it could not handle:
    /// the run is over, and who waits for its end is to be told.
    pub fn worker_error_occurred(&mut self) -> (notice: Notice)
        requires
            old(self).wf(),
        ensures
            final(self).wf(),
            final(self).spec_workers() == old(self).spec_workers(),
            final(self).model() == (SupervisorModel {
                state: SupervisorState::UnexpectedError,
                ..old(self).model()
            }),
            notice.wake@ == Seq::<usize>::empty(),
            notice.completed,
    {
        self.state = SupervisorState::UnexpectedError;
        Notice { wake: Vec::new(), completed: true }
    }

    /// What a worker's request for work gives, and what it makes of the
    /// supervisor.
    ///
    /// A run that is to stop, or that does not work, hands out no work.
    /// Else the clause stored last is handed out. Where none is stored, the
    /// worker is to wait, unless all other workers wait already: then the
    /// run has finished, and the workers that wait are woken.
    pub open spec fn work_for(before: SupervisorModel, worker_index: usize, keep_working: bool) -> (
        Work,
        SupervisorModel,
    ) {
        if !keep_working || before.state != SupervisorState::Working {
            (Work::Finished, before)
        } else if before.to_check.len() > 0 {
            (
                Work::Work(before.to_check.last()),
                SupervisorModel { to_check: before.to_check.drop_last(), ..before },
            )
        } else if before.stalled_workers.len() + 1 == before.deployed_workers {
            (
                Work::Finished,
                SupervisorModel {
                    state: SupervisorState::Finished,
                    stalled_workers: Seq::empty(),
                    ..before
                },
            )
        } else {
            (
                Work::Stall,
                SupervisorModel {
                    stalled_workers: before.stalled_workers.push(worker_index),
                    ..before
                },
            )
        }
    }

    /// Hands out work to a worker.
    ///
    /// The notice names the workers to wake, and tells whether the run has
    /// finished with this call.
    pub fn get_work(&mut self, worker_index: usize, keep_working: bool) -> (handed: (Work, Notice))
        requires
            old(self).wf(),
            worker_index < old(self).spec_workers().len() || old(self).model().state
                != SupervisorState::Working,
        ensures
            final(self).wf(),
            final(self).spec_workers().len() == old(self).spec_workers().len(),
            (handed.0, final(self).model()) == Self::work_for(
                old(self).model(),
                worker_index,
                keep_working,
            ),
            handed.1.completed == (final(self).model().state != old(self).model().state),
            handed.1.wake@ == if handed.1.completed {
                old(self).model().stalled_workers
            } else {
                Seq::<usize>::empty()
            },
            forall|i: int|
                0 <= i < handed.1.wake@.len() ==> (#[trigger] handed.1.wake@[i]) < final(self).spec_workers().len() && final(self).spec_workers()[handed.1.wake@[i] as int].woken(),
    {
        if !keep_working || self.state != SupervisorState::Working {
            return (Work::Finished, Notice { wake: Vec::new(), completed: false });
        }
        let mut data = self.data.take().unwrap();
        if let Some(index) = data.to_check.pop() {
            self.data = Some(data);
            return (Work::Work(index), Notice { wake: Vec::new(), completed: false });
        }
        if data.deployed_worker_counter >= 1 && data.stalled_workers.len() == (
        data.deployed_worker_counter - 1) as usize {
            self.data = Some(data);
            let wake = self.wake_all();
            self.state = SupervisorState::Finished;
            return (Work::Finished, Notice { wake, completed: true });
        }
        data.stalled_workers.push(worker_index);
        self.data = Some(data);
        (Work::Stall, Notice { wake: Vec::new(), completed: false })
    }

    /// What the end of a check makes of the supervisor: a failed check is
    /// recorded and ends the run.
    pub open spec fn after_check(
        before: SupervisorModel,
        clause_index: Option<usize>,
        result: bool,
    ) -> SupervisorModel {
        if result {
            before
        } else {
            SupervisorModel {
                state: if before.state == SupervisorState::Working {
                    SupervisorState::Finished
                } else {
                    before.state
                },
                verification_successful: false,
                failed_clause_index: match clause_index {
                    Some(index) => index,
                    None => before.failed_clause_index,
                },
                failed_empty_clause_verification: clause_index is None
                    || before.failed_empty_clause_verification,
                stalled_workers: Seq::empty(),
                ..before
            }
        }
    }

    /// Takes the result of a check. After a failed check the run is over:
    /// the workers that wait are woken, and who waits for the end of the run
    /// is to be told.
    pub fn worker_finished(&mut self, clause_index: Option<usize>, result: bool) -> (notice: Notice)
        requires
            old(self).wf(),
        ensures
            final(self).wf(),
            final(self).spec_workers().len() == old(self).spec_workers().len(),
            final(self).model() == Self::after_check(old(self).model(), clause_index, result),
            notice.completed == !result,
            notice.wake@ == if result {
                Seq::<usize>::empty()
            } else {
                old(self).model().stalled_workers
            },
            forall|i: int|
                0 <= i < notice.wake@.len() ==> (#[trigger] notice.wake@[i]) < final(self).spec_workers().len() && final(self).spec_workers()[notice.wake@[i] as int].woken(),
    {
        if result {
            return Notice { wake: Vec::new(), completed: false };
        }
        self.verification_successful = false;
        if let Some(index) = clause_index {
            self.failed_clause_index = index;
        } else {
            self.failed_empty_clause_verification = true;
        }
        self.set_finished();
        let wake = self.wake_all();
        Notice { wake, completed: true }
    }

    /// Wakes the workers that wait.
    #[verifier::loop_isolation(false)]
    fn wake_all(&mut self) -> (wake: Vec<usize>)
        requires
            old(self).wf(),
        ensures
            final(self).wf(),
            final(self).spec_workers().len() == old(self).spec_workers().len(),
            final(self).model() == (SupervisorModel {
                stalled_workers: Seq::empty(),
                ..old(self).model()
            }),
            wake@ == old(self).model().stalled_workers,
            forall|i: int|
                0 <= i < wake@.len() ==> (#[trigger] wake@[i]) < final(self).spec_workers().len()
                    && final(self).spec_workers()[wake@[i] as int].woken(),
    {
        let mut wake: Vec<usize> = Vec::new();
        if self.data.is_none() {
            return wake;
        }
        let mut data = self.data.take().unwrap();
        let ghost stalled = data.stalled_workers@;
        let ghost workers_before = self.workers@;
        let mut position: usize = 0;
        while position < data.stalled_workers.len()
            invariant
                position <= stalled.len(),
                stalled == data.stalled_workers@,
                self.state == old(self).state,
                self.data is None,
                self.verification_successful == old(self).verification_successful,
                self.failed_clause_index == old(self).failed_clause_index,
                self.failed_empty_clause_verification == old(self).failed_empty_clause_verification,
                self.first_clause_index_to_verify == old(self).first_clause_index_to_verify,
                self.parsing_error == old(self).parsing_error,
                self.workers@.len() == workers_before.len(),
                forall|i: int| 0 <= i < stalled.len() ==> (#[trigger] stalled[i]) < self.workers@.len(),
                wake@ == stalled.subrange(0, position as int),
                forall|i: int|
                    0 <= i < position ==> self.workers@[(#[trigger] stalled[i]) as int].woken(),
            decreases stalled.len() - position,
        {
            let worker_id = data.stalled_workers[position];
            let ghost woken_before = self.workers@;
            self.workers[worker_id].wake_up();
            wake.push(worker_id);
            proof {
                assert(wake@ =~= stalled.subrange(0, position + 1));
                assert forall|i: int| 0 <= i < position + 1 implies self.workers@[(
                #[trigger] stalled[i]) as int].woken() by {
                    if stalled[i] != worker_id {
                        assert(self.workers@[stalled[i] as int] == woken_before[stalled[i] as int]);
                    }
                }
            }
            position += 1;
        }
        proof {
            assert(stalled.subrange(0, position as int) =~= stalled);
        }
        data.stalled_workers = Vec::new();
        self.data = Some(data);
        wake
    }

    /// What a new dependency makes of the supervisor: a clause of the proof
    /// is stored to check, and the worker that began to wait last waits no
    /// longer.
    pub open spec fn with_clause_to_check(before: SupervisorModel, clause_index: usize) -> SupervisorModel {
        if clause_index < before.first_clause_index_to_verify || !before.scheduled {
            before
        } else {
            SupervisorModel {
                to_check: before.to_check.push(Some(clause_index)),
                stalled_workers: if before.stalled_workers.len() > 0 {
                    before.stalled_workers.drop_last()
                } else {
                    before.stalled_workers
                },
                ..before
            }
        }
    }

    /// Stores a clause to check, unless it is an attack of the framework,
    /// and returns the worker to wake, if one waits.
    pub fn add_clause_to_check(&mut self, clause_index: usize) -> (wake: Option<usize>)
        requires
            old(self).wf(),
        ensures
            final(self).wf(),
            final(self).spec_workers().len() == old(self).spec_workers().len(),
            final(self).model() == Self::with_clause_to_check(old(self).model(), clause_index),
            wake == if clause_index >= old(self).model().first_clause_index_to_verify && old(self).model().stalled_workers.len() > 0 {
                Some(old(self).model().stalled_workers.last())
            } else {
                None
            },
            wake matches Some(worker) ==> worker < final(self).spec_workers().len() && final(self).spec_workers()[worker as int].woken(),
    {
        if clause_index < self.first_clause_index_to_verify || self.data.is_none() {
            return None;
        }
        let mut data = self.data.take().unwrap();
        data.to_check.push(Some(clause_index));
        let wake = data.stalled_workers.pop();
        self.data = Some(data);
        if let Some(worker_id) = wake {
            self.workers[worker_id].wake_up();
        }
        wake
    }

    /// Returns the workers of the run.
    pub fn get_workers(&self) -> (workers: &Vec<Worker>)
        ensures
            workers@ == self.spec_workers(),
    {
        &self.workers
    }

    /// Lets a worker take note of a wake-up. Returns whether one was due;
    /// where none was, the worker is to wait and to ask again.
    pub fn stall_worker(&mut self, worker_index: usize) -> (resumed: bool)
        requires
            old(self).wf(),
            worker_index < old(self).spec_workers().len(),
        ensures
            final(self).wf(),
            final(self).model() == old(self).model(),
            final(self).spec_workers().len() == old(self).spec_workers().len(),
            resumed == old(self).spec_workers()[worker_index as int].woken(),
            !final(self).spec_workers()[worker_index as int].woken(),
            forall|i: int|
                0 <= i < final(self).spec_workers().len() && i != worker_index ==> final(self).spec_workers()[i] == old(self).spec_workers()[i],
    {
        self.workers[worker_index].stall()
    }

    /// Returns the fault of the input, if parsing failed.
    pub fn get_parsing_error_message(&self) -> (error: Option<ParseError>)
        ensures
            error == self.model().parsing_error,
    {
        self.parsing_error
    }
}

} // verus!

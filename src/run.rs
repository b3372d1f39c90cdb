//! The run registry: one entry per active run, each with its cancellation
//! flag, its concurrency limit and the phase of every wordlist entry. The
//! driver asks it what to do next and reports what happened; it never lets
//! more units execute than the run's limit.
use vstd::prelude::*;
use vstd::string::StringExecFns;
use crate::outcome::{exchange_ok, result_for, Exchange, FuzzResult};
use crate::request::{materialize, request_injected, TemplateRequest};

verus! {

/// Where one wordlist entry of a run stands.
#[derive(Clone, Copy, PartialEq, Eq, Structural, Debug)]
pub enum UnitPhase {
    /// Not scheduled (yet, or ever, when scheduling stopped early).
    Unscheduled,
    /// Scheduled, waiting for a concurrency slot.
    Waiting,
    /// Holds a slot; its request is being executed.
    Executing,
    /// Executed; its result was emitted.
    Finished,
    /// Left without executing, because the run was stopped.
    Abandoned,
}

/// Why a run could not be started.
#[derive(Clone, Copy, PartialEq, Eq, Structural, Debug)]
pub enum RunError {
    /// A run with the same identifier is registered.
    Conflict,
    /// The concurrency limit is zero: no request could ever execute.
    InvalidLimit,
}

/// The scheduling loop's next step.
#[derive(Clone, Copy, PartialEq, Eq, Structural, Debug)]
pub enum ScheduleStep {
    /// Start a unit for the wordlist entry at this index.
    Spawn(usize),
    /// Scheduling is over for this run.
    Stop,
}

/// What a unit waiting for a slot is to do.
pub enum SlotDecision {
    /// The unit holds a slot: execute this concrete request.
    Granted(TemplateRequest),
    /// All slots are taken: wait for one to be released, then ask again.
    Wait,
    /// Leave without executing anything.
    Abandon,
}

/// One registered run.
pub struct FuzzRun {
    pub id: String,
    pub template: TemplateRequest,
    pub wordlist: Vec<String>,
    pub limit: usize,
    pub cancelled: bool,
    pub scheduling_done: bool,
    pub phases: Vec<UnitPhase>,
    pub scheduled: usize,
}

/// The registry of active runs.
pub struct FuzzManager {
    pub runs: Vec<FuzzRun>,
}

/// Number of entries of `s` equal to `ph`.
pub open spec fn count_phase(s: Seq<UnitPhase>, ph: UnitPhase) -> nat
    decreases s.len(),
{
    if s.len() == 0 {
        0
    } else {
        count_phase(s.drop_last(), ph) + if s.last() == ph {
            1nat
        } else {
            0nat
        }
    }
}

/// Number of units that acquired a slot.
pub open spec fn started(s: Seq<UnitPhase>) -> nat {
    count_phase(s, UnitPhase::Executing) + count_phase(s, UnitPhase::Finished)
}

/// Some unit waits for a slot or executes.
pub open spec fn outstanding(s: Seq<UnitPhase>) -> bool {
    exists|k: int| 0 <= k < s.len() && (s[k] == UnitPhase::Waiting || s[k] == UnitPhase::Executing)
}

/// The registry `new_runs` after the run at `i` of `old_runs` moved to the
/// given phases, scheduling position and flags. A run whose scheduling is over
/// and that has no unit waiting or executing leaves the registry.
pub open spec fn moved_to(
    old_runs: Seq<FuzzRun>,
    new_runs: Seq<FuzzRun>,
    i: int,
    phases: Seq<UnitPhase>,
    scheduled: nat,
    cancelled: bool,
    done: bool,
) -> bool {
    let r = old_runs[i];
    if done && !outstanding(phases) {
        new_runs == old_runs.remove(i)
    } else {
        &&& new_runs.len() == old_runs.len()
        &&& forall|j: int| 0 <= j < old_runs.len() && j != i ==> new_runs[j] == old_runs[j]
        &&& new_runs[i].id == r.id
        &&& new_runs[i].template == r.template
        &&& new_runs[i].wordlist == r.wordlist
        &&& new_runs[i].limit == r.limit
        &&& new_runs[i].phases@ == phases
        &&& new_runs[i].scheduled == scheduled
        &&& new_runs[i].cancelled == cancelled
        &&& new_runs[i].scheduling_done == done
    }
}

/// A run just registered: nothing scheduled, not cancelled.
pub open spec fn fresh_run(
    run: FuzzRun,
    id: Seq<char>,
    template: TemplateRequest,
    wordlist: Vec<String>,
    limit: usize,
) -> bool {
    &&& run.id@ == id
    &&& run.template == template
    &&& run.wordlist == wordlist
    &&& run.limit == limit
    &&& !run.cancelled
    &&& !run.scheduling_done
    &&& run.scheduled == 0
    &&& run.phases@ == Seq::new(wordlist@.len(), |k: int| UnitPhase::Unscheduled)
}

proof fn lemma_count_update(s: Seq<UnitPhase>, k: int, v: UnitPhase, ph: UnitPhase)
    requires
        0 <= k < s.len(),
    ensures
        count_phase(s.update(k, v), ph) as int == count_phase(s, ph) as int - (if s[k] == ph {
            1int
        } else {
            0int
        }) + (if v == ph {
            1int
        } else {
            0int
        }),
    decreases s.len(),
{
    if k == s.len() - 1 {
        assert(s.update(k, v).drop_last() =~= s.drop_last());
    } else {
        lemma_count_update(s.drop_last(), k, v, ph);
        assert(s.update(k, v).drop_last() =~= s.drop_last().update(k, v));
    }
}

proof fn lemma_count_absent(s: Seq<UnitPhase>, ph: UnitPhase)
    requires
        forall|k: int| 0 <= k < s.len() ==> s[k] != ph,
    ensures
        count_phase(s, ph) == 0,
    decreases s.len(),
{
    if s.len() > 0 {
        lemma_count_absent(s.drop_last(), ph);
    }
}

fn count_executing(phases: &Vec<UnitPhase>) -> (r: usize)
    ensures
        r == count_phase(phases@, UnitPhase::Executing),
{
    let mut r: usize = 0;
    let mut i: usize = 0;
    while i < phases.len()
        invariant
            i <= phases@.len(),
            r == count_phase(phases@.take(i as int), UnitPhase::Executing),
            r <= i,
        decreases phases@.len() - i,
    {
        assert(phases@.take(i + 1).drop_last() =~= phases@.take(i as int));
        if phases[i] == UnitPhase::Executing {
            r = r + 1;
        }
        i = i + 1;
    }
    assert(phases@.take(i as int) =~= phases@);
    r
}

fn has_outstanding(phases: &Vec<UnitPhase>) -> (r: bool)
    ensures
        r == outstanding(phases@),
{
    let mut i: usize = 0;
    while i < phases.len()
        invariant
            i <= phases@.len(),
            forall|k: int|
                0 <= k < i ==> phases@[k] != UnitPhase::Waiting && phases@[k] != UnitPhase::Executing,
        decreases phases@.len() - i,
    {
        if phases[i] == UnitPhase::Waiting || phases[i] == UnitPhase::Executing {
            return true;
        }
        i = i + 1;
    }
    false
}

impl FuzzRun {
    pub open spec fn wf(&self) -> bool {
        &&& self.phases@.len() == self.wordlist@.len()
        &&& self.scheduled <= self.phases@.len()
        &&& forall|k: int|
            0 <= k < self.phases@.len() ==> ((#[trigger] self.phases@[k] == UnitPhase::Unscheduled)
                <==> k >= self.scheduled)
        &&& 1 <= self.limit
        &&& count_phase(self.phases@, UnitPhase::Executing) <= self.limit
        &&& self.scheduling_done ==> outstanding(self.phases@)
    }
}

/// Every run is well formed and no two runs share an identifier.
pub open spec fn runs_wf(runs: Seq<FuzzRun>) -> bool {
    &&& forall|i: int| 0 <= i < runs.len() ==> (#[trigger] runs[i]).wf()
    &&& forall|i: int, j: int|
        0 <= i < runs.len() && 0 <= j < runs.len() && i != j ==> (#[trigger] runs[i]).id@
            != (#[trigger] runs[j]).id@
}

proof fn lemma_settled(old_runs: Seq<FuzzRun>, i: int, run: FuzzRun, new_runs: Seq<FuzzRun>)
    requires
        runs_wf(old_runs),
        0 <= i < old_runs.len(),
        run.id == old_runs[i].id,
        run.template == old_runs[i].template,
        run.wordlist == old_runs[i].wordlist,
        run.limit == old_runs[i].limit,
        !(run.scheduling_done && !outstanding(run.phases@)) ==> run.wf(),
        new_runs == if run.scheduling_done && !outstanding(run.phases@) {
            old_runs.remove(i)
        } else {
            old_runs.remove(i).insert(i, run)
        },
    ensures
        runs_wf(new_runs),
        moved_to(old_runs, new_runs, i, run.phases@, run.scheduled as nat, run.cancelled, run.scheduling_done),
{
    if run.scheduling_done && !outstanding(run.phases@) {
        assert forall|a: int, b: int|
            0 <= a < new_runs.len() && 0 <= b < new_runs.len() && a != b implies (#[trigger] new_runs[a]).id@
                != (#[trigger] new_runs[b]).id@ by {
            let a2 = if a < i { a } else { a + 1 };
            let b2 = if b < i { b } else { b + 1 };
            assert(new_runs[a] == old_runs[a2]);
            assert(new_runs[b] == old_runs[b2]);
        }
        assert forall|a: int| 0 <= a < new_runs.len() implies (#[trigger] new_runs[a]).wf() by {
            let a2 = if a < i { a } else { a + 1 };
            assert(new_runs[a] == old_runs[a2]);
        }
    } else {
        assert(new_runs =~= old_runs.update(i, run));
        assert forall|a: int, b: int|
            0 <= a < new_runs.len() && 0 <= b < new_runs.len() && a != b implies (#[trigger] new_runs[a]).id@
                != (#[trigger] new_runs[b]).id@ by {
            assert(old_runs[a].id@ != old_runs[b].id@);
        }
        assert forall|a: int| 0 <= a < new_runs.len() implies (#[trigger] new_runs[a]).wf() by {
            assert(a != i ==> new_runs[a] == old_runs[a]);
        }
    }
}

impl FuzzManager {
    pub open spec fn wf(&self) -> bool {
        runs_wf(self.runs@)
    }

    /// An empty registry.
    pub fn new() -> (r: Self)
        ensures
            r.wf(),
            r.runs@.len() == 0,
    {
        FuzzManager { runs: Vec::new() }
    }

    /// Registers a run of `template` over `wordlist` under `run_id`, with at
    /// most `limit` requests executing at once.
    pub fn start_run(
        &mut self,
        run_id: &str,
        template: TemplateRequest,
        wordlist: Vec<String>,
        limit: usize,
    ) -> (r: Result<(), RunError>)
        requires
            old(self).wf(),
        ensures
            final(self).wf(),
            limit == 0 ==> r == Err::<(), RunError>(RunError::InvalidLimit) && *final(self) == *old(self),
            limit > 0 && old(self).registered(run_id@) ==> r == Err::<(), RunError>(RunError::Conflict)
                && *final(self) == *old(self),
            limit > 0 && !old(self).registered(run_id@) ==> {
                &&& r is Ok
                &&& final(self).runs@.len() == old(self).runs@.len() + 1
                &&& final(self).runs@.drop_last() == old(self).runs@
                &&& fresh_run(final(self).runs@.last(), run_id@, template, wordlist, limit)
            },
    {
        if limit == 0 {
            return Err(RunError::InvalidLimit);
        }
        let id = String::from_str(run_id);
        if self.find_run(&id).is_some() {
            return Err(RunError::Conflict);
        }
        let n = wordlist.len();
        let mut phases: Vec<UnitPhase> = Vec::with_capacity(n);
        while phases.len() < n
            invariant
                phases@.len() <= n,
                forall|k: int| 0 <= k < phases@.len() ==> phases@[k] == UnitPhase::Unscheduled,
            decreases n - phases@.len(),
        {
            phases.push(UnitPhase::Unscheduled);
        }
        proof {
            lemma_count_absent(phases@, UnitPhase::Executing);
            assert(phases@ =~= Seq::new(n as nat, |k: int| UnitPhase::Unscheduled));
        }
        let ghost old_runs = self.runs@;
        self.runs.push(
            FuzzRun {
                id,
                template,
                wordlist,
                limit,
                cancelled: false,
                scheduling_done: false,
                phases,
                scheduled: 0,
            },
        );
        proof {
            assert(self.runs@.drop_last() =~= old_runs);
            assert forall|a: int, b: int|
                0 <= a < self.runs@.len() && 0 <= b < self.runs@.len() && a != b implies (#[trigger] self.runs@[a]).id@
                    != (#[trigger] self.runs@[b]).id@ by {
                if a < old_runs.len() && b < old_runs.len() {
                    assert(old_runs[a].id@ != old_runs[b].id@);
                } else if a < old_runs.len() {
                    assert(self.runs@[a] == old_runs[a]);
                } else {
                    assert(self.runs@[b] == old_runs[b]);
                }
            }
            assert forall|a: int| 0 <= a < self.runs@.len() implies (#[trigger] self.runs@[a]).wf() by {
                if a < old_runs.len() {
                    assert(self.runs@[a] == old_runs[a]);
                }
            }
        }
        Ok(())
    }

    /// The scheduling loop's next step for run `run_id`: the next wordlist
    /// entry to start a unit for, or the end of scheduling once the run is
    /// stopped or every entry is scheduled.
    pub fn next_unit(&mut self, run_id: &str) -> (r: ScheduleStep)
        requires
            old(self).wf(),
        ensures
            final(self).wf(),
            !old(self).registered(run_id@) ==> r is Stop && *final(self) == *old(self),
            forall|i: int|
                0 <= i < old(self).runs@.len() && (#[trigger] old(self).runs@[i]).id@ == run_id@ ==> {
                    let run = old(self).runs@[i];
                    if run.cancelled || run.scheduled == run.phases@.len() {
                        &&& r is Stop
                        &&& moved_to(old(self).runs@, final(self).runs@, i, run.phases@, run.scheduled as nat, run.cancelled, true)
                    } else {
                        &&& r == ScheduleStep::Spawn(run.scheduled)
                        &&& moved_to(
                            old(self).runs@,
                            final(self).runs@,
                            i,
                            run.phases@.update(run.scheduled as int, UnitPhase::Waiting),
                            (run.scheduled + 1) as nat,
                            run.cancelled,
                            run.scheduling_done,
                        )
                    }
                },
    {
        let id = String::from_str(run_id);
        let i = match self.find_run(&id) {
            None => return ScheduleStep::Stop,
            Some(i) => i,
        };
        let ghost old_runs = self.runs@;
        let mut run = self.runs.remove(i);
        let step = if run.cancelled || run.scheduled == run.phases.len() {
            run.scheduling_done = true;
            ScheduleStep::Stop
        } else {
            let k = run.scheduled;
            proof {
                lemma_count_update(run.phases@, k as int, UnitPhase::Waiting, UnitPhase::Executing);
            }
            run.phases[k] = UnitPhase::Waiting;
            run.scheduled = k + 1;
            ScheduleStep::Spawn(k)
        };
        let ghost g = run;
        self.settle(i, run);
        proof {
            lemma_settled(old_runs, i as int, g, self.runs@);
        }
        step
    }

    /// Decides for the unit of wordlist entry `index` of run `run_id`, which
    /// waits for a slot: it leaves when the run is stopped (or it is not
    /// waiting), it gets a slot and its concrete request while fewer than the
    /// limit execute, and it waits otherwise.
    pub fn acquire_slot(&mut self, run_id: &str, index: usize) -> (r: SlotDecision)
        requires
            old(self).wf(),
        ensures
            final(self).wf(),
            !old(self).registered(run_id@) ==> r is Abandon && *final(self) == *old(self),
            forall|i: int|
                0 <= i < old(self).runs@.len() && (#[trigger] old(self).runs@[i]).id@ == run_id@ ==> {
                    let run = old(self).runs@[i];
                    if index >= run.phases@.len() || run.phases@[index as int] != UnitPhase::Waiting {
                        r is Abandon && *final(self) == *old(self)
                    } else if run.cancelled {
                        &&& r is Abandon
                        &&& moved_to(
                            old(self).runs@,
                            final(self).runs@,
                            i,
                            run.phases@.update(index as int, UnitPhase::Abandoned),
                            run.scheduled as nat,
                            true,
                            run.scheduling_done,
                        )
                    } else if count_phase(run.phases@, UnitPhase::Executing) < run.limit {
                        &&& r is Granted
                        &&& request_injected(run.template, r->Granted_0, run.wordlist@[index as int]@)
                        &&& moved_to(
                            old(self).runs@,
                            final(self).runs@,
                            i,
                            run.phases@.update(index as int, UnitPhase::Executing),
                            run.scheduled as nat,
                            false,
                            run.scheduling_done,
                        )
                    } else {
                        r is Wait && *final(self) == *old(self)
                    }
                },
    {
        let id = String::from_str(run_id);
        let i = match self.find_run(&id) {
            None => return SlotDecision::Abandon,
            Some(i) => i,
        };
        if index >= self.runs[i].phases.len() || self.runs[i].phases[index] != UnitPhase::Waiting {
            return SlotDecision::Abandon;
        }
        if !self.runs[i].cancelled && count_executing(&self.runs[i].phases) >= self.runs[i].limit {
            return SlotDecision::Wait;
        }
        let ghost old_runs = self.runs@;
        let mut run = self.runs.remove(i);
        let decision = if run.cancelled {
            proof {
                lemma_count_update(run.phases@, index as int, UnitPhase::Abandoned, UnitPhase::Executing);
            }
            run.phases[index] = UnitPhase::Abandoned;
            SlotDecision::Abandon
        } else {
            proof {
                lemma_count_update(run.phases@, index as int, UnitPhase::Executing, UnitPhase::Executing);
            }
            run.phases[index] = UnitPhase::Executing;
            let req = materialize(&run.template, run.wordlist[index].as_str());
            SlotDecision::Granted(req)
        };
        let ghost g = run;
        self.settle(i, run);
        proof {
            lemma_settled(old_runs, i as int, g, self.runs@);
        }
        decision
    }

    /// Records that the unit of wordlist entry `index` of run `run_id`
    /// finished executing, with `exchange` after `elapsed_ms`, and returns its
    /// result; it returns nothing for a unit that was not executing.
    pub fn complete_unit(
        &mut self,
        run_id: &str,
        index: usize,
        exchange: Exchange,
        elapsed_ms: u64,
    ) -> (r: Option<FuzzResult>)
        requires
            old(self).wf(),
            exchange_ok(exchange),
        ensures
            final(self).wf(),
            !old(self).registered(run_id@) ==> r is None && *final(self) == *old(self),
            forall|i: int|
                0 <= i < old(self).runs@.len() && (#[trigger] old(self).runs@[i]).id@ == run_id@ ==> {
                    let run = old(self).runs@[i];
                    if index >= run.phases@.len() || run.phases@[index as int] != UnitPhase::Executing {
                        r is None && *final(self) == *old(self)
                    } else {
                        &&& r is Some
                        &&& result_for(r->0, index as nat, run.wordlist@[index as int]@, exchange, elapsed_ms as nat)
                        &&& moved_to(
                            old(self).runs@,
                            final(self).runs@,
                            i,
                            run.phases@.update(index as int, UnitPhase::Finished),
                            run.scheduled as nat,
                            run.cancelled,
                            run.scheduling_done,
                        )
                    }
                },
    {
        let id = String::from_str(run_id);
        let i = match self.find_run(&id) {
            None => return None,
            Some(i) => i,
        };
        if index >= self.runs[i].phases.len() || self.runs[i].phases[index] != UnitPhase::Executing {
            return None;
        }
        let ghost old_runs = self.runs@;
        let mut run = self.runs.remove(i);
        proof {
            lemma_count_update(run.phases@, index as int, UnitPhase::Finished, UnitPhase::Executing);
        }
        run.phases[index] = UnitPhase::Finished;
        let result = FuzzResult::from_exchange(index, run.wordlist[index].as_str(), exchange, elapsed_ms);
        let ghost g = run;
        self.settle(i, run);
        proof {
            lemma_settled(old_runs, i as int, g, self.runs@);
        }
        Some(result)
    }

    /// The position of the run with identifier `id`.
    fn find_run(&self, id: &String) -> (r: Option<usize>)
        ensures
            match r {
                Some(i) => i < self.runs@.len() && self.runs@[i as int].id@ == id@,
                None => !self.registered(id@),
            },
    {
        let mut i: usize = 0;
        while i < self.runs.len()
            invariant
                i <= self.runs@.len(),
                forall|k: int| 0 <= k < i ==> self.runs@[k].id@ != id@,
            decreases self.runs@.len() - i,
        {
            if self.runs[i].id == *id {
                return Some(i);
            }
            i = i + 1;
        }
        None
    }

    /// Puts `run` back at `i`, unless its scheduling is over and no unit of it
    /// waits or executes: then the run leaves the registry.
    fn settle(&mut self, i: usize, run: FuzzRun)
        requires
            i <= old(self).runs@.len(),
        ensures
            final(self).runs@ == if run.scheduling_done && !outstanding(run.phases@) {
                old(self).runs@
            } else {
                old(self).runs@.insert(i as int, run)
            },
    {
        let busy = has_outstanding(&run.phases);
        if !run.scheduling_done || busy {
            self.runs.insert(i, run);
        }
    }

    /// A run with identifier `id` is registered.
    pub open spec fn registered(&self, id: Seq<char>) -> bool {
        exists|i: int| 0 <= i < self.runs@.len() && (#[trigger] self.runs@[i]).id@ == id
    }
}

proof fn lemma_count_zero(s: Seq<UnitPhase>, ph: UnitPhase)
    requires
        count_phase(s, ph) == 0,
    ensures
        forall|k: int| 0 <= k < s.len() ==> s[k] != ph,
    decreases s.len(),
{
    if s.len() > 0 {
        lemma_count_zero(s.drop_last(), ph);
        assert forall|k: int| 0 <= k < s.len() implies s[k] != ph by {
            if k < s.len() - 1 {
                assert(s[k] == s.drop_last()[k]);
            }
        }
    }
}

/// In every registered run, at most `limit` units execute at once.
pub proof fn lemma_executions_within_limit(m: FuzzManager, i: int)
    requires
        m.wf(),
        0 <= i < m.runs@.len(),
    ensures
        count_phase(m.runs@[i].phases@, UnitPhase::Executing) <= m.runs@[i].limit,
{
    assert(m.runs@[i].wf());
}

/// A run stopped before any of its units acquired a slot emits no result:
/// no unit of it executes or finished, so no completion is accepted, and
/// turning a waiting unit away (the only move `acquire_slot` makes on a
/// stopped run) keeps the count of units that acquired a slot at zero.
pub proof fn lemma_stopped_before_start_emits_nothing(run: FuzzRun, index: int)
    requires
        run.wf(),
        run.cancelled,
        started(run.phases@) == 0,
        0 <= index < run.phases@.len(),
    ensures
        count_phase(run.phases@, UnitPhase::Finished) == 0,
        forall|k: int| 0 <= k < run.phases@.len() ==> run.phases@[k] != UnitPhase::Executing,
        run.phases@[index] == UnitPhase::Waiting ==> started(
            run.phases@.update(index, UnitPhase::Abandoned),
        ) == 0,
{
    lemma_count_zero(run.phases@, UnitPhase::Executing);
    lemma_count_update(run.phases@, index, UnitPhase::Abandoned, UnitPhase::Executing);
    lemma_count_update(run.phases@, index, UnitPhase::Abandoned, UnitPhase::Finished);
}

/// A unit yields one result at most: once its completion is recorded it is
/// finished, so neither a second completion nor a slot is granted to it.
pub proof fn lemma_completed_unit_is_final(
    old_runs: Seq<FuzzRun>,
    new_runs: Seq<FuzzRun>,
    i: int,
    index: int,
)
    requires
        0 <= i < old_runs.len(),
        0 <= index < old_runs[i].phases@.len(),
        moved_to(
            old_runs,
            new_runs,
            i,
            old_runs[i].phases@.update(index, UnitPhase::Finished),
            old_runs[i].scheduled as nat,
            old_runs[i].cancelled,
            old_runs[i].scheduling_done,
        ),
    ensures
        new_runs.len() == old_runs.len() ==> {
            &&& new_runs[i].phases@[index] != UnitPhase::Executing
            &&& new_runs[i].phases@[index] != UnitPhase::Waiting
        },
{
}

/// Stops run `run_id`: its waiting units leave without executing and no
/// further entry is scheduled. Stopping a run that is not registered changes
/// nothing.
pub fn cmd_stop_fuzz_attack(manager: &mut FuzzManager, run_id: &str)
    requires
        old(manager).wf(),
    ensures
        final(manager).wf(),
        !old(manager).registered(run_id@) ==> *final(manager) == *old(manager),
        forall|i: int|
            0 <= i < old(manager).runs@.len() && (#[trigger] old(manager).runs@[i]).id@ == run_id@ ==> {
                let run = old(manager).runs@[i];
                moved_to(
                    old(manager).runs@,
                    final(manager).runs@,
                    i,
                    run.phases@,
                    run.scheduled as nat,
                    true,
                    run.scheduling_done,
                )
            },
{
    let id = String::from_str(run_id);
    let i = match manager.find_run(&id) {
        None => return ,
        Some(i) => i,
    };
    let ghost old_runs = manager.runs@;
    let mut run = manager.runs.remove(i);
    run.cancelled = true;
    let ghost g = run;
    manager.settle(i, run);
    proof {
        lemma_settled(old_runs, i as int, g, manager.runs@);
    }
}

} // verus!

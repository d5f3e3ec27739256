//! Batch bookkeeping: how many jobs run at once, progress as jobs finish, and
//! the collected outcome.

use vstd::prelude::*;

verus! {

/// Relies on `num_cpus::get`: the number of logical cores available to this
/// process, which its documentation says is always at least 1.
#[verifier::external_body]
fn logical_core_count() -> (r: usize)
    ensures
        r >= 1,
{
    num_cpus::get()
}

/// Relies on `num_cpus::get_physical`, which its documentation says always
/// returns at least 1.
#[verifier::external_body]
fn physical_core_count() -> (r: usize)
    ensures
        r >= 1,
{
    num_cpus::get_physical()
}

/// Jobs run at once when the caller names no number: half the logical cores,
/// at least one.
pub open spec fn default_parallelism(cores: usize) -> usize {
    if cores / 2 >= 1 {
        (cores / 2) as usize
    } else {
        1
    }
}

/// The number of jobs run at once: the requested number (or the default),
/// clamped to `[1, cores]`.
pub open spec fn effective_parallelism(requested: Option<usize>, cores: usize) -> usize {
    let p = match requested {
        Some(p) => p,
        None => default_parallelism(cores),
    };
    if p < 1 {
        1
    } else if p > cores {
        cores
    } else {
        p
    }
}

/// See [`effective_parallelism`]. The result lies in `[1, cores]`.
pub fn clamp_parallelism(requested: Option<usize>, cores: usize) -> (r: usize)
    requires
        cores >= 1,
    ensures
        r == effective_parallelism(requested, cores),
        1 <= r <= cores,
        (requested matches Some(p) && 1 <= p <= cores) ==> r == requested->0,
{
    let p = match requested {
        Some(p) => p,
        None => if cores / 2 >= 1 {
            cores / 2
        } else {
            1
        },
    };
    if p < 1 {
        1
    } else if p > cores {
        cores
    } else {
        p
    }
}

/// The number of jobs to run at once on this machine: the clamp of the
/// request to whatever logical core count the machine reports.
pub fn resolve_parallelism(requested: Option<usize>) -> (r: usize)
    ensures
        r >= 1,
        exists|cores: usize| cores >= 1 && r <= cores && r == effective_parallelism(requested, cores),
{
    let cores = logical_core_count();
    let r = clamp_parallelism(requested, cores);
    assert(r == effective_parallelism(requested, cores));
    r
}

/// Core counts of this machine and the default number of parallel jobs.
pub struct CpuInfo {
    pub logical_cores: usize,
    pub physical_cores: usize,
    pub recommended: usize,
}

/// Reads the core counts; `recommended` is the default parallelism for the
/// logical count.
pub fn cpu_info() -> (r: CpuInfo)
    ensures
        r.physical_cores >= 1,
        r.recommended == default_parallelism(r.logical_cores),
        r.recommended >= 1,
{
    let logical = logical_core_count();
    let physical = physical_core_count();
    let recommended = if logical / 2 >= 1 {
        logical / 2
    } else {
        1
    };
    CpuInfo { logical_cores: logical, physical_cores: physical, recommended }
}

/// Published each time a job finishes.
pub struct ProgressEvent {
    /// Jobs finished so far, this one included.
    pub current: usize,
    pub total: usize,
    /// Display name of the job that just finished.
    pub current_file: String,
}

/// The outcome of a whole batch.
pub struct BatchReport {
    /// True exactly when no job failed.
    pub success: bool,
    /// Output paths of the jobs that succeeded, in the order they finished.
    pub generated_files: Vec<String>,
    /// One message per failed job, in the order they finished.
    pub errors: Vec<String>,
}

/// Progress and results of a batch whose jobs finish one by one, in any order.
pub struct Batch {
    total: usize,
    completed: usize,
    generated: Vec<String>,
    errors: Vec<String>,
}

/// What a [`Batch`] has recorded.
pub ghost struct BatchState {
    pub total: nat,
    pub completed: nat,
    pub generated: Seq<Seq<char>>,
    pub errors: Seq<Seq<char>>,
}

impl View for Batch {
    type V = BatchState;

    closed spec fn view(&self) -> BatchState {
        BatchState {
            total: self.total as nat,
            completed: self.completed as nat,
            generated: self.generated@.map_values(|s: String| s@),
            errors: self.errors@.map_values(|s: String| s@),
        }
    }
}

/// A job's outcome as text: its output path or its error message.
pub open spec fn outcome_view(o: Result<String, String>) -> Result<Seq<char>, Seq<char>> {
    match o {
        Ok(p) => Ok(p@),
        Err(e) => Err(e@),
    }
}

/// The state after `outcomes` have been recorded, in order, from `s`.
pub open spec fn after_outcomes(s: BatchState, outcomes: Seq<Result<Seq<char>, Seq<char>>>) -> BatchState
    decreases outcomes.len(),
{
    if outcomes.len() == 0 {
        s
    } else {
        let prev = after_outcomes(s, outcomes.drop_last());
        match outcomes.last() {
            Ok(p) => BatchState { completed: prev.completed + 1, generated: prev.generated.push(p), ..prev },
            Err(e) => BatchState { completed: prev.completed + 1, errors: prev.errors.push(e), ..prev },
        }
    }
}

impl Batch {
    /// A batch of `total` jobs, none finished.
    pub fn new(total: usize) -> (b: Batch)
        ensures
            b@ == (BatchState {
                total: total as nat,
                completed: 0,
                generated: Seq::empty(),
                errors: Seq::empty(),
            }),
    {
        let b = Batch { total, completed: 0, generated: Vec::new(), errors: Vec::new() };
        assert(b@.generated =~= Seq::<Seq<char>>::empty());
        assert(b@.errors =~= Seq::<Seq<char>>::empty());
        b
    }

    pub fn completed(&self) -> (r: usize)
        ensures
            r == self@.completed,
    {
        self.completed
    }

    pub fn total(&self) -> (r: usize)
        ensures
            r == self@.total,
    {
        self.total
    }

    /// Whether every job has finished.
    pub fn is_done(&self) -> (r: bool)
        ensures
            r == (self@.completed >= self@.total),
    {
        self.completed >= self.total
    }

    /// Records that the job named `file_name` finished with `outcome`: the
    /// counter goes up by exactly one, a success adds its output path, a
    /// failure its message; the returned event carries the new count.
    pub fn record(&mut self, file_name: String, outcome: Result<String, String>) -> (ev:
        ProgressEvent)
        requires
            old(self)@.completed < old(self)@.total,
        ensures
            final(self)@ == after_outcomes(
                old(self)@,
                seq![outcome_view(outcome)],
            ),
            ev.current == final(self)@.completed,
            ev.current == old(self)@.completed + 1,
            ev.total == old(self)@.total,
            ev.current_file@ == file_name@,
    {
        let ghost o = outcome_view(outcome);
        let ghost s0 = self@;
        proof {
            let os = seq![o];
            assert(os.drop_last() =~= Seq::<Result<Seq<char>, Seq<char>>>::empty());
            assert(os.last() == o);
        }
        match outcome {
            Ok(p) => {
                let ghost pv = p@;
                self.generated.push(p);
                assert(self@.generated =~= s0.generated.push(pv));
                assert(self@.errors =~= s0.errors);
            },
            Err(e) => {
                let ghost ev = e@;
                self.errors.push(e);
                assert(self@.errors =~= s0.errors.push(ev));
                assert(self@.generated =~= s0.generated);
            },
        }
        self.completed = self.completed + 1;
        proof {
            let os = seq![o];
            assert(after_outcomes(s0, os.drop_last()) == s0);
            assert(self@ == after_outcomes(s0, os));
        }
        ProgressEvent { current: self.completed, total: self.total, current_file: file_name }
    }

    /// The batch's outcome; it succeeded exactly when no job failed.
    pub fn finish(self) -> (r: BatchReport)
        ensures
            r.success == (self@.errors.len() == 0),
            r.generated_files@.map_values(|s: String| s@) == self@.generated,
            r.errors@.map_values(|s: String| s@) == self@.errors,
    {
        let success = self.errors.len() == 0;
        BatchReport { success, generated_files: self.generated, errors: self.errors }
    }
}

/// Progress never skips or repeats: after any run of outcomes, in whatever
/// order the jobs finished, the counter has gone up by exactly the number of
/// outcomes, each success is kept and each failure is reported, and so the
/// counter reaches the total exactly when every job has finished.
pub proof fn lemma_progress_counts_every_job(
    s: BatchState,
    outcomes: Seq<Result<Seq<char>, Seq<char>>>,
)
    ensures
        after_outcomes(s, outcomes).completed == s.completed + outcomes.len(),
        after_outcomes(s, outcomes).total == s.total,
        after_outcomes(s, outcomes).generated.len() + after_outcomes(s, outcomes).errors.len()
            == s.generated.len() + s.errors.len() + outcomes.len(),
        s.completed == 0 ==> (after_outcomes(s, outcomes).completed == s.total <==> outcomes.len()
            == s.total),
    decreases outcomes.len(),
{
    if outcomes.len() > 0 {
        lemma_progress_counts_every_job(s, outcomes.drop_last());
    }
}

/// Output paths of the successful outcomes, in order.
pub open spec fn successes(outcomes: Seq<Result<Seq<char>, Seq<char>>>) -> Seq<Seq<char>>
    decreases outcomes.len(),
{
    if outcomes.len() == 0 {
        Seq::empty()
    } else {
        match outcomes.last() {
            Ok(p) => successes(outcomes.drop_last()).push(p),
            Err(_) => successes(outcomes.drop_last()),
        }
    }
}

/// Error messages of the failed outcomes, in order.
pub open spec fn failures(outcomes: Seq<Result<Seq<char>, Seq<char>>>) -> Seq<Seq<char>>
    decreases outcomes.len(),
{
    if outcomes.len() == 0 {
        Seq::empty()
    } else {
        match outcomes.last() {
            Ok(_) => failures(outcomes.drop_last()),
            Err(e) => failures(outcomes.drop_last()).push(e),
        }
    }
}

/// Recording keeps every success and every failure, each in completion order.
pub proof fn lemma_outcomes_collected(s: BatchState, outcomes: Seq<Result<Seq<char>, Seq<char>>>)
    ensures
        after_outcomes(s, outcomes).generated == s.generated + successes(outcomes),
        after_outcomes(s, outcomes).errors == s.errors + failures(outcomes),
    decreases outcomes.len(),
{
    if outcomes.len() == 0 {
        assert(s.generated + successes(outcomes) =~= s.generated);
        assert(s.errors + failures(outcomes) =~= s.errors);
    } else {
        let prefix = outcomes.drop_last();
        lemma_outcomes_collected(s, prefix);
        match outcomes.last() {
            Ok(p) => {
                assert((s.generated + successes(prefix)).push(p) =~= s.generated + successes(
                    prefix,
                ).push(p));
            },
            Err(e) => {
                assert((s.errors + failures(prefix)).push(e) =~= s.errors + failures(prefix).push(
                    e,
                ));
            },
        }
    }
}

proof fn lemma_single_failure(outcomes: Seq<Result<Seq<char>, Seq<char>>>, j: int)
    requires
        0 <= j < outcomes.len(),
        outcomes[j] is Err,
        forall|i: int| 0 <= i < outcomes.len() && i != j ==> outcomes[i] is Ok,
    ensures
        failures(outcomes) == seq![outcomes[j]->Err_0],
        successes(outcomes).len() == outcomes.len() - 1,
    decreases outcomes.len(),
{
    let prefix = outcomes.drop_last();
    if j == outcomes.len() - 1 {
        lemma_no_failure(prefix);
        assert(failures(prefix).push(outcomes[j]->Err_0) =~= seq![outcomes[j]->Err_0]);
    } else {
        assert forall|i: int| 0 <= i < prefix.len() && i != j implies prefix[i] is Ok by {
            assert(prefix[i] == outcomes[i]);
        }
        assert(prefix[j] == outcomes[j]);
        lemma_single_failure(prefix, j);
        assert(outcomes.last() == outcomes[outcomes.len() - 1]);
    }
}

proof fn lemma_no_failure(outcomes: Seq<Result<Seq<char>, Seq<char>>>)
    requires
        forall|i: int| 0 <= i < outcomes.len() ==> outcomes[i] is Ok,
    ensures
        failures(outcomes) == Seq::<Seq<char>>::empty(),
        successes(outcomes).len() == outcomes.len(),
    decreases outcomes.len(),
{
    if outcomes.len() > 0 {
        let prefix = outcomes.drop_last();
        assert forall|i: int| 0 <= i < prefix.len() implies prefix[i] is Ok by {
            assert(prefix[i] == outcomes[i]);
        }
        lemma_no_failure(prefix);
        assert(outcomes.last() == outcomes[outcomes.len() - 1]);
    }
}

/// One failed job is isolated: when every job of a fresh batch has finished
/// and only the job at `j` failed, the batch reports exactly that job's
/// message as its single error, keeps one output for each other job, and is
/// not a success.
pub proof fn lemma_one_failure_isolated(total: nat, outcomes: Seq<Result<Seq<char>, Seq<char>>>, j: int)
    requires
        outcomes.len() == total,
        0 <= j < total,
        outcomes[j] is Err,
        forall|i: int| 0 <= i < total && i != j ==> outcomes[i] is Ok,
    ensures
        ({
            let s = BatchState { total, completed: 0, generated: Seq::empty(), errors: Seq::empty() };
            let end = after_outcomes(s, outcomes);
            &&& end.completed == total
            &&& end.errors == seq![outcomes[j]->Err_0]
            &&& end.generated.len() == total - 1
            &&& end.errors.len() != 0
        }),
{
    let s = BatchState { total, completed: 0, generated: Seq::empty(), errors: Seq::empty() };
    lemma_progress_counts_every_job(s, outcomes);
    lemma_outcomes_collected(s, outcomes);
    lemma_single_failure(outcomes, j);
    assert(s.errors + failures(outcomes) =~= failures(outcomes));
    assert(s.generated + successes(outcomes) =~= successes(outcomes));
}

} // verus!

//! What initial generation reports.

use crate::http::{self, StatusCode};
use crate::text;
use vstd::prelude::*;

verus! {

/// Why a page was not generated.
#[derive(Clone, Debug)]
pub enum StaticPolicyError {
    /// Rendering failed.
    Render(String),
    /// Storing failed.
    Storage(String),
    /// A limit on work or storage refused it.
    Admission(String),
}

impl StaticPolicyError {
    /// Whether a limit refused the page, so that asking again later may help.
    pub fn is_admission(&self) -> (admission: bool)
        ensures
            admission == (*self is Admission),
    {
        match self {
            StaticPolicyError::Admission(_) => true,
            _ => false,
        }
    }

    /// The status of a response where the page was not generated.
    pub fn status(&self) -> (status: StatusCode)
        ensures
            status == (if *self is Admission {
                http::SERVICE_UNAVAILABLE
            } else {
                http::INTERNAL_SERVER_ERROR
            }),
    {
        if self.is_admission() {
            http::SERVICE_UNAVAILABLE
        } else {
            http::INTERNAL_SERVER_ERROR
        }
    }
}

/// Initial renders that succeeded. Error pages count as completed, though they are
/// not published.
#[derive(Clone, Copy, Debug, PartialEq, Eq, Structural)]
pub struct StaticGenerationReport {
    /// How many initial paths were rendered.
    pub completed: usize,
}

/// Initial generation finished with failures. What was completed stays.
#[derive(Clone, Debug)]
pub struct StaticGenerationError {
    completed: usize,
    failures: Vec<(String, StaticPolicyError)>,
}

/// How many paths were completed, and the failures with their paths.
pub type FailureView = (usize, Seq<(String, StaticPolicyError)>);

impl View for StaticGenerationError {
    type V = FailureView;

    closed spec fn view(&self) -> FailureView {
        (self.completed, self.failures@)
    }
}

impl StaticGenerationError {
    /// How many paths were completed before or beside the failures.
    pub fn completed(&self) -> (completed: usize)
        ensures
            completed == self@.0,
    {
        self.completed
    }

    /// The failures, each with its path.
    pub fn failures(&self) -> (failures: &Vec<(String, StaticPolicyError)>)
        ensures
            failures@ == self@.1,
    {
        &self.failures
    }

    /// What the error says.
    pub fn message(&self) -> (message: String)
        ensures
            message@ == text::decimal(self@.1.len()) + " static generation failures after "@
                + text::decimal(self@.0 as nat) + " completed paths"@,
    {
        let mut message = text::format_decimal(self.failures.len() as u64);
        message.append(" static generation failures after ");
        message.append(text::format_decimal(self.completed as u64).as_str());
        message.append(" completed paths");
        message
    }
}

/// How many results are successes.
pub open spec fn completed_count(
    results: Seq<(String, Result<(), StaticPolicyError>)>,
) -> nat
    decreases results.len(),
{
    if results.len() == 0 {
        0
    } else {
        completed_count(results.drop_last()) + if results.last().1 is Ok {
            1nat
        } else {
            0nat
        }
    }
}

/// The failures among results, with their paths, in order.
pub open spec fn failures_of(results: Seq<(String, Result<(), StaticPolicyError>)>) -> Seq<
    (String, StaticPolicyError),
>
    decreases results.len(),
{
    if results.len() == 0 {
        Seq::empty()
    } else {
        let rest = failures_of(results.drop_last());
        match results.last().1 {
            Ok(()) => rest,
            Err(error) => rest.push((results.last().0, error)),
        }
    }
}

/// Sums up the results of initial generation. One failure makes the whole a failure.
pub fn try_generate(results: Vec<(String, Result<(), StaticPolicyError>)>) -> (r: Result<
    StaticGenerationReport,
    StaticGenerationError,
>)
    ensures
        match r {
            Ok(report) => {
                &&& failures_of(results@).len() == 0
                &&& report.completed == completed_count(results@)
            },
            Err(error) => {
                &&& failures_of(results@).len() > 0
                &&& error@.0 == completed_count(results@)
                &&& error@.1 == failures_of(results@)
            },
        },
{
    let ghost all = results@;
    let mut rest = results;
    let total = rest.len();
    let mut completed: usize = 0;
    let mut failures: Vec<(String, StaticPolicyError)> = Vec::new();
    let mut done: usize = 0;
    proof {
        assert(all.take(0) =~= Seq::empty());
        assert(rest@ =~= all.skip(0));
    }
    while done < total
        invariant
            done <= total,
            total == all.len(),
            rest@ == all.skip(done as int),
            completed == completed_count(all.take(done as int)),
            completed <= done,
            failures@ == failures_of(all.take(done as int)),
        decreases total - done,
    {
        let (path, result) = rest.remove(0);
        proof {
            assert(all.skip(done as int)[0] == all[done as int]);
            assert(rest@ =~= all.skip(done + 1));
            assert(all.take(done + 1).drop_last() =~= all.take(done as int));
            assert(all.take(done + 1).last() == all[done as int]);
        }
        match result {
            Ok(()) => {
                completed = completed + 1;
            },
            Err(error) => {
                failures.push((path, error));
            },
        }
        done = done + 1;
    }
    proof {
        assert(all.take(done as int) =~= all);
    }
    if failures.len() == 0 {
        Ok(StaticGenerationReport { completed })
    } else {
        Err(StaticGenerationError { completed, failures })
    }
}

/// Every path is accounted for: it was completed or it failed.
pub proof fn every_path_is_accounted_for(results: Seq<(String, Result<(), StaticPolicyError>)>)
    ensures
        completed_count(results) + failures_of(results).len() == results.len(),
    decreases results.len(),
{
    if results.len() > 0 {
        every_path_is_accounted_for(results.drop_last());
    }
}

/// The results of two runs one behind the other are summed up as both together: the
/// completed paths are counted, and the failures are kept with their paths, in order.
pub proof fn results_are_summed_up_in_order(
    a: Seq<(String, Result<(), StaticPolicyError>)>,
    b: Seq<(String, Result<(), StaticPolicyError>)>,
)
    ensures
        completed_count(a + b) == completed_count(a) + completed_count(b),
        failures_of(a + b) == failures_of(a) + failures_of(b),
        a.len() == 1 && a[0].1 is Ok ==> completed_count(a) == 1 && failures_of(a).len() == 0,
        a.len() == 1 && a[0].1 is Err ==> completed_count(a) == 0 && failures_of(a) == seq![
            (a[0].0, a[0].1->Err_0),
        ],
    decreases b.len(),
{
    reveal_with_fuel(completed_count, 2);
    reveal_with_fuel(failures_of, 2);
    if a.len() == 1 {
        assert(a.drop_last().len() == 0);
        if a[0].1 is Err {
            assert(failures_of(a) =~= seq![(a[0].0, a[0].1->Err_0)]);
        }
    }
    if b.len() == 0 {
        assert(a + b =~= a);
        assert(failures_of(a) + failures_of(b) =~= failures_of(a));
    } else {
        assert((a + b).drop_last() =~= a + b.drop_last());
        assert((a + b).last() == b.last());
        results_are_summed_up_in_order(a, b.drop_last());
        assert(failures_of(a + b) =~= failures_of(a) + failures_of(b));
    }
}

/// Generation succeeds exactly if every path did, and then counts them all; otherwise the
/// failures are kept beside the count of the rest.
pub proof fn one_failure_fails_the_whole(
    results: Vec<(String, Result<(), StaticPolicyError>)>,
    r: Result<StaticGenerationReport, StaticGenerationError>,
)
    requires
        call_ensures(try_generate, (results,), r),
    ensures
        r matches Ok(report) ==> report.completed == results@.len(),
        r matches Err(error) ==> error@.0 + error@.1.len() == results@.len() && error@.1.len() > 0,
        r is Ok <==> forall|i: int| 0 <= i < results@.len() ==> (#[trigger] results@[i]).1 is Ok,
{
    every_path_is_accounted_for(results@);
    lemma_failures(results@);
}

proof fn lemma_failures(results: Seq<(String, Result<(), StaticPolicyError>)>)
    ensures
        failures_of(results).len() == 0 <==> forall|i: int|
            0 <= i < results.len() ==> (#[trigger] results[i]).1 is Ok,
    decreases results.len(),
{
    if results.len() > 0 {
        let front = results.drop_last();
        lemma_failures(front);
        assert(results[results.len() - 1] == results.last());
        assert(forall|i: int| 0 <= i < front.len() ==> front[i] == results[i]);
    }
}

/// Only a refusal for want of room may be tried again, and its status says so.
pub proof fn refusals_for_room_may_be_tried_again(
    error: &StaticPolicyError,
    admission: bool,
    status: StatusCode,
)
    requires
        call_ensures(StaticPolicyError::is_admission, (error,), admission),
        call_ensures(StaticPolicyError::status, (error,), status),
    ensures
        admission <==> status == 503,
        !admission <==> status == 500,
        error is Render || error is Storage ==> !admission,
        error is Admission ==> admission,
{
}

} // verus!

//! Execution entry and job dispatch decisions: what each job's invocation
//! outcome means for error reporting and joining. The surrounding runtime
//! performs the invocations and channel plumbing; this module decides, per
//! job, what is reported and what is joined, and no job's failure stops
//! the jobs after it.

use vstd::prelude::*;
use crate::ast::Location;
use crate::errors::JobError;
use crate::value::{CommandSignature, SpecValue, Value};

verus! {

/// Ghost counterpart of `JobOutcome`.
pub enum SpecJobOutcome {
    /// Invocation succeeded and handed back a joinable handle.
    Spawned(u64),
    /// Invocation succeeded with nothing to join.
    Completed,
    /// Invocation failed synchronously.
    Failed(Seq<char>),
}

/// What invoking one job yielded.
pub enum JobOutcome {
    Spawned(u64),
    Completed,
    Failed(JobError),
}

impl View for JobOutcome {
    type V = SpecJobOutcome;

    open spec fn view(&self) -> SpecJobOutcome {
        match self {
            JobOutcome::Spawned(h) => SpecJobOutcome::Spawned(*h),
            JobOutcome::Completed => SpecJobOutcome::Completed,
            JobOutcome::Failed(e) => SpecJobOutcome::Failed(e.message@),
        }
    }
}

/// Ghost counterpart of `ReportedError`.
pub struct SpecReportedError {
    pub message: Seq<char>,
    pub source: Seq<char>,
    pub span: Option<Location>,
}

/// An error routed to the reporting sink, tagged with the source text it
/// came from and, for a per-job failure, that job's span.
pub struct ReportedError {
    pub message: String,
    pub source: String,
    pub span: Option<Location>,
}

impl View for ReportedError {
    type V = SpecReportedError;

    open spec fn view(&self) -> SpecReportedError {
        SpecReportedError {
            message: self.message@,
            source: self.source@,
            span: match &self.span {
                Option::Some(l) => Option::Some(*l),
                Option::None => Option::None,
            },
        }
    }
}

/// A blocking join owed on a spawned job, tagged with the job's span.
#[derive(Debug, Clone, Copy, PartialEq, Eq, Structural)]
pub struct PendingJoin {
    pub handle: u64,
    pub span: Location,
}

pub open spec fn spec_report_seq(s: Seq<ReportedError>, i: int) -> Seq<SpecReportedError>
    decreases s.len() - i,
{
    if i < 0 || i >= s.len() {
        Seq::empty()
    } else {
        seq![s[i]@] + spec_report_seq(s, i + 1)
    }
}

pub proof fn lemma_spec_report_seq(s: Seq<ReportedError>, i: int)
    requires
        0 <= i <= s.len(),
    ensures
        spec_report_seq(s, i).len() == s.len() - i,
        forall|j: int| 0 <= j < s.len() - i ==> #[trigger] spec_report_seq(s, i)[j] == s[i + j]@,
    decreases s.len() - i,
{
    if i < s.len() {
        lemma_spec_report_seq(s, i + 1);
        assert forall|j: int| 0 <= j < s.len() - i implies #[trigger] spec_report_seq(s, i)[j]
            == s[i + j]@ by {
            if j > 0 {
                assert(spec_report_seq(s, i)[j] == spec_report_seq(s, i + 1)[j - 1]);
            }
        }
    }
}

/// The reports a job sequence owes: one per failed job, in job order, each
/// tagged with the source text and the failing job's span.
pub open spec fn spec_job_reports(
    jobs: Seq<(Location, SpecJobOutcome)>,
    src: Seq<char>,
    i: int,
) -> Seq<SpecReportedError>
    decreases jobs.len() - i,
{
    if i < 0 || i >= jobs.len() {
        Seq::empty()
    } else {
        match jobs[i].1 {
            SpecJobOutcome::Failed(m) => seq![
                SpecReportedError { message: m, source: src, span: Some(jobs[i].0) },
            ] + spec_job_reports(jobs, src, i + 1),
            _ => spec_job_reports(jobs, src, i + 1),
        }
    }
}

/// The joins a job sequence owes: one per spawned job, in job order.
pub open spec fn spec_job_joins(jobs: Seq<(Location, SpecJobOutcome)>, i: int) -> Seq<PendingJoin>
    decreases jobs.len() - i,
{
    if i < 0 || i >= jobs.len() {
        Seq::empty()
    } else {
        match jobs[i].1 {
            SpecJobOutcome::Spawned(h) => seq![PendingJoin { handle: h, span: jobs[i].0 }]
                + spec_job_joins(jobs, i + 1),
            _ => spec_job_joins(jobs, i + 1),
        }
    }
}

pub open spec fn spec_outcome_seq(s: Seq<(Location, JobOutcome)>, i: int) -> Seq<
    (Location, SpecJobOutcome),
>
    decreases s.len() - i,
{
    if i < 0 || i >= s.len() {
        Seq::empty()
    } else {
        seq![(s[i].0, s[i].1@)] + spec_outcome_seq(s, i + 1)
    }
}

pub proof fn lemma_spec_outcome_seq(s: Seq<(Location, JobOutcome)>, i: int)
    requires
        0 <= i <= s.len(),
    ensures
        spec_outcome_seq(s, i).len() == s.len() - i,
        forall|j: int|
            0 <= j < s.len() - i ==> #[trigger] spec_outcome_seq(s, i)[j] == (
            s[i + j].0,
            s[i + j].1@,
            ),
    decreases s.len() - i,
{
    if i < s.len() {
        lemma_spec_outcome_seq(s, i + 1);
        assert forall|j: int| 0 <= j < s.len() - i implies #[trigger] spec_outcome_seq(s, i)[j]
            == (s[i + j].0, s[i + j].1@) by {
            if j > 0 {
                assert(spec_outcome_seq(s, i)[j] == spec_outcome_seq(s, i + 1)[j - 1]);
            }
        }
    }
}

/// Dispatch bookkeeping for one source text: a parse failure is reported
/// once with no span; otherwise each failing job is reported with its span
/// and each spawned job is joined, in order, one job's failure never
/// keeping a later job from running.
pub fn string(source: &str, parsed: Result<Vec<(Location, JobOutcome)>, JobError>) -> (r: (
    Vec<ReportedError>,
    Vec<PendingJoin>,
))
    ensures
        (match parsed {
            Err(e) => spec_report_seq(r.0@, 0) == seq![
                SpecReportedError { message: e.message@, source: source@, span: None },
            ] && r.1@ == Seq::<PendingJoin>::empty(),
            Ok(jobs) => spec_report_seq(r.0@, 0) == spec_job_reports(
                spec_outcome_seq(jobs@, 0),
                source@,
                0,
            ) && r.1@ == spec_job_joins(spec_outcome_seq(jobs@, 0), 0),
        }),
{
    match parsed {
        Err(e) => {
            let mut reports: Vec<ReportedError> = Vec::new();
            reports.push(
                ReportedError { message: e.message, source: source.to_owned(), span: None },
            );
            proof {
                lemma_spec_report_seq(reports@, 0);
                assert(spec_report_seq(reports@, 0) =~= seq![
                    SpecReportedError { message: e.message@, source: source@, span: None },
                ]);
            }
            (reports, Vec::new())
        },
        Ok(jobs) => {
            let ghost jm = spec_outcome_seq(jobs@, 0);
            proof {
                lemma_spec_outcome_seq(jobs@, 0);
            }
            let mut reports: Vec<ReportedError> = Vec::new();
            let mut joins: Vec<PendingJoin> = Vec::new();
            let mut i: usize = 0;
            let n = jobs.len();
            while i < n
                invariant
                    i <= n,
                    n == jobs@.len(),
                    jm == spec_outcome_seq(jobs@, 0),
                    jm.len() == n,
                    forall|j: int| 0 <= j < n ==> #[trigger] jm[j] == (jobs@[j].0, jobs@[j].1@),
                    spec_job_reports(jm, source@, 0) == spec_report_seq(reports@, 0)
                        + spec_job_reports(jm, source@, i as int),
                    spec_job_joins(jm, 0) == joins@ + spec_job_joins(jm, i as int),
                decreases n - i,
            {
                let ghost reports0 = reports@;
                let ghost joins0 = joins@;
                match &jobs[i].1 {
                    JobOutcome::Failed(e) => {
                        reports.push(
                            ReportedError {
                                message: e.message.clone(),
                                source: source.to_owned(),
                                span: Some(jobs[i].0),
                            },
                        );
                    },
                    JobOutcome::Spawned(h) => {
                        joins.push(PendingJoin { handle: *h, span: jobs[i].0 });
                    },
                    JobOutcome::Completed => {},
                }
                proof {
                    lemma_spec_report_seq(reports0, 0);
                    lemma_spec_report_seq(reports@, 0);
                    assert(spec_report_seq(reports@, 0) =~= spec_report_seq(reports0, 0) + (
                    match jm[i as int].1 {
                        SpecJobOutcome::Failed(m) => seq![
                            SpecReportedError {
                                message: m,
                                source: source@,
                                span: Some(jm[i as int].0),
                            },
                        ],
                        _ => Seq::<SpecReportedError>::empty(),
                    }));
                    assert(joins@ =~= joins0 + (match jm[i as int].1 {
                        SpecJobOutcome::Spawned(h) => seq![
                            PendingJoin { handle: h, span: jm[i as int].0 },
                        ],
                        _ => Seq::<PendingJoin>::empty(),
                    }));
                    assert(spec_report_seq(reports0, 0) + spec_job_reports(jm, source@, i as int)
                        =~= spec_report_seq(reports@, 0) + spec_job_reports(
                        jm,
                        source@,
                        i + 1,
                    ));
                    assert(joins0 + spec_job_joins(jm, i as int) =~= joins@ + spec_job_joins(
                        jm,
                        i + 1,
                    ));
                }
                i = i + 1;
            }
            proof {
                assert(spec_job_reports(jm, source@, n as int) =~= Seq::<
                    SpecReportedError,
                >::empty());
                assert(spec_job_joins(jm, n as int) =~= Seq::<PendingJoin>::empty());
                assert(spec_report_seq(reports@, 0) + Seq::<SpecReportedError>::empty()
                    =~= spec_report_seq(reports@, 0));
                assert(joins@ + Seq::<PendingJoin>::empty() =~= joins@);
            }
            (reports, joins)
        },
    }
}

/// The check a deserialized program must pass before dispatch: the decoded
/// value has to be a command.
pub fn program_command(value: Value) -> (r: Result<CommandSignature, JobError>)
    ensures
        (match value@ {
            SpecValue::Command(c) => r matches Ok(x) && x@ == c,
            _ => r matches Err(e) && e.message@ == "Expected a command, but found other value"@,
        }),
{
    match value {
        Value::Command(cmd) => Ok(cmd),
        _ => Err(crate::errors::argument_error("Expected a command, but found other value")),
    }
}

/// One job's failure is isolated: it contributes exactly one report,
/// tagged with its own span, and every other job's report and join stand
/// unchanged, in order.
pub proof fn lemma_one_failure_isolated(
    jobs: Seq<(Location, SpecJobOutcome)>,
    src: Seq<char>,
    i: int,
)
    requires
        0 <= i < jobs.len(),
        jobs[i].1 is Failed,
        forall|j: int| 0 <= j < jobs.len() && j != i ==> !((#[trigger] jobs[j].1) is Failed),
    ensures
        spec_job_reports(jobs, src, 0).len() == 1,
        spec_job_reports(jobs, src, 0)[0].span == Some(jobs[i].0),
        spec_job_reports(jobs, src, 0)[0].message == jobs[i].1->Failed_0,
        spec_job_joins(jobs, 0) == spec_job_joins(jobs.remove(i), 0),
{
    lemma_failure_isolated_from(jobs, src, i, 0);
}

proof fn lemma_failure_isolated_from(
    jobs: Seq<(Location, SpecJobOutcome)>,
    src: Seq<char>,
    i: int,
    k: int,
)
    requires
        0 <= k <= i < jobs.len(),
        jobs[i].1 is Failed,
        forall|j: int| 0 <= j < jobs.len() && j != i ==> !((#[trigger] jobs[j].1) is Failed),
    ensures
        spec_job_reports(jobs, src, k).len() == 1,
        spec_job_reports(jobs, src, k)[0].span == Some(jobs[i].0),
        spec_job_reports(jobs, src, k)[0].message == jobs[i].1->Failed_0,
        spec_job_joins(jobs, k) == spec_job_joins(jobs.remove(i), k),
    decreases jobs.len() - k,
{
    if k == i {
        lemma_no_failures_after(jobs, src, i + 1);
        if i < jobs.len() - 1 {
            lemma_joins_shift(jobs, i, i);
        } else {
            assert(spec_job_joins(jobs.remove(i), k) =~= Seq::<PendingJoin>::empty());
        }
    } else {
        lemma_failure_isolated_from(jobs, src, i, k + 1);
        assert(jobs.remove(i)[k] == jobs[k]);
    }
}

/// After the last failing job, no more reports come.
proof fn lemma_no_failures_after(jobs: Seq<(Location, SpecJobOutcome)>, src: Seq<char>, k: int)
    requires
        0 <= k <= jobs.len(),
        forall|j: int| k <= j < jobs.len() ==> !((#[trigger] jobs[j].1) is Failed),
    ensures
        spec_job_reports(jobs, src, k).len() == 0,
    decreases jobs.len() - k,
{
    if k < jobs.len() {
        lemma_no_failures_after(jobs, src, k + 1);
    }
}

/// Removing one non-spawned entry leaves the joins from any later point
/// unchanged, and skipping it aligns the indices.
proof fn lemma_joins_shift(jobs: Seq<(Location, SpecJobOutcome)>, i: int, k: int)
    requires
        0 <= i < jobs.len(),
        !(jobs[i].1 is Spawned),
        i <= k <= jobs.len() - 1,
    ensures
        spec_job_joins(jobs, k + 1) == spec_job_joins(jobs.remove(i), k),
    decreases jobs.len() - k,
{
    let shorter = jobs.remove(i);
    if k >= shorter.len() {
        assert(spec_job_joins(jobs, k + 1) =~= Seq::<PendingJoin>::empty());
    } else {
        lemma_joins_shift(jobs, i, k + 1);
        assert(shorter[k] == jobs[k + 1]);
    }
}

} // verus!

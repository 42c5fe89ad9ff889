//! The descriptor budget: reconciling the requested batch size with the
//! process's open-file limit.

use vstd::prelude::*;
use crate::input::Opts;

verus! {

/// Open-file limit above which an oversized batch is cut back to the average.
pub const DEFAULT_FILE_DESCRIPTORS_LIMIT: u64 = 8000;

/// Batch size that has proved safe on ordinary systems.
pub const AVERAGE_BATCH_SIZE: u16 = 3000;

/// Descriptors left free for what the process already holds.
pub const DESCRIPTOR_RESERVE: u64 = 100;

/// Which rule decided the effective batch size.
#[derive(Clone, Copy, Debug, PartialEq, Eq, Structural)]
pub enum BatchRule {
    /// The limit covers the requested batch; it stands.
    Kept,
    /// The limit is below the average batch; half the limit is used.
    Halved,
    /// The limit is high but the request higher; the average batch is used.
    Averaged,
    /// The limit less the reserve is used.
    Headroom,
}

/// The rule that applies to a requested batch under an open-file limit.
pub open spec fn batch_rule(batch: u16, limit: u64) -> BatchRule {
    if limit >= batch {
        BatchRule::Kept
    } else if limit < AVERAGE_BATCH_SIZE {
        BatchRule::Halved
    } else if limit > DEFAULT_FILE_DESCRIPTORS_LIMIT {
        BatchRule::Averaged
    } else {
        BatchRule::Headroom
    }
}

/// The batch size a scan runs with, given the request and the open-file limit.
pub open spec fn effective_batch(batch: u16, limit: u64) -> int {
    match batch_rule(batch, limit) {
        BatchRule::Kept => batch as int,
        BatchRule::Halved => limit as int / 2,
        BatchRule::Averaged => AVERAGE_BATCH_SIZE as int,
        BatchRule::Headroom => limit as int - DESCRIPTOR_RESERVE as int,
    }
}

/// The larger batch size worth suggesting: the limit less the reserve, when
/// the request stands, the user chose no limit, and the limit exceeds the reserve.
pub open spec fn raise_hint(batch: u16, limit: u64, user_set_limit: bool) -> Option<u64> {
    if limit >= batch && !user_set_limit && limit >= DESCRIPTOR_RESERVE {
        Some((limit - DESCRIPTOR_RESERVE) as u64)
    } else {
        None
    }
}

/// The outcome of reconciling a requested batch with the open-file limit.
#[derive(Clone, Copy, Debug, PartialEq, Eq, Structural)]
pub struct BatchDecision {
    /// The batch size to scan with.
    pub batch_size: u16,
    /// The rule that produced it.
    pub rule: BatchRule,
    /// A larger batch the user could ask for, if there is one to suggest.
    pub hint: Option<u64>,
}

/// The effective batch never exceeds the request nor the limit, and fits 16 bits.
pub proof fn lemma_effective_batch_bounds(batch: u16, limit: u64)
    ensures
        0 <= effective_batch(batch, limit) <= batch,
        effective_batch(batch, limit) <= limit,
        effective_batch(batch, limit) <= u16::MAX,
        batch >= 1 && limit >= 2 ==> effective_batch(batch, limit) >= 1,
{
}

/// Reconciles a requested batch size with the open-file limit.
pub fn reconcile(batch: u16, limit: u64, user_set_limit: bool) -> (decision: BatchDecision)
    ensures
        decision.batch_size == effective_batch(batch, limit),
        decision.rule == batch_rule(batch, limit),
        decision.hint == raise_hint(batch, limit, user_set_limit),
{
    let requested: u64 = batch as u64;
    if limit < requested {
        if limit < AVERAGE_BATCH_SIZE as u64 {
            BatchDecision { batch_size: (limit / 2) as u16, rule: BatchRule::Halved, hint: None }
        } else if limit > DEFAULT_FILE_DESCRIPTORS_LIMIT {
            BatchDecision { batch_size: AVERAGE_BATCH_SIZE, rule: BatchRule::Averaged, hint: None }
        } else {
            BatchDecision {
                batch_size: (limit - DESCRIPTOR_RESERVE) as u16,
                rule: BatchRule::Headroom,
                hint: None,
            }
        }
    } else {
        let hint = if !user_set_limit && limit >= DESCRIPTOR_RESERVE {
            Some(limit - DESCRIPTOR_RESERVE)
        } else {
            None
        };
        BatchDecision { batch_size: batch, rule: BatchRule::Kept, hint }
    }
}

/// The batch size to scan with under the open-file limit `ulimit`.
pub fn infer_batch_size(opts: &Opts, ulimit: u64) -> (batch_size: u16)
    ensures
        batch_size == effective_batch(opts.batch_size, ulimit),
        batch_size <= opts.batch_size,
        batch_size <= ulimit,
{
    reconcile(opts.batch_size, ulimit, opts.ulimit.is_some()).batch_size
}

/// The batch size a scan runs with: the request reconciled with the
/// open-file limit where the platform has one, the average batch size where
/// it has none.
pub open spec fn budgeted_batch(batch: u16, limit: Option<u64>) -> u16 {
    match limit {
        Some(ulimit) => effective_batch(batch, ulimit) as u16,
        None => AVERAGE_BATCH_SIZE,
    }
}

/// The batch size to scan with: reconciled with the open-file limit where the
/// platform has one, the average batch size where it has none.
pub fn batch_size_for(opts: &Opts, limit: Option<u64>) -> (batch_size: u16)
    ensures
        batch_size == budgeted_batch(opts.batch_size, limit),
        limit matches Some(ulimit) ==> batch_size == effective_batch(opts.batch_size, ulimit)
            && batch_size <= ulimit && batch_size <= opts.batch_size,
        limit is None ==> batch_size == AVERAGE_BATCH_SIZE,
{
    match limit {
        Some(ulimit) => infer_batch_size(opts, ulimit),
        None => AVERAGE_BATCH_SIZE,
    }
}

/// What became of the request to raise the open-file limit.
#[derive(Clone, Copy, Debug, PartialEq, Eq, Structural)]
pub enum RaiseStatus {
    /// The user asked for no limit; nothing was attempted.
    NotRequested,
    /// The soft and hard limit were set to this value.
    Raised(u64),
    /// The system refused the request; the requested value is ignored.
    Failed,
}

/// The open-file limit after adjustment, with what happened on the way.
#[derive(Clone, Copy, Debug, PartialEq, Eq, Structural)]
pub struct LimitReport {
    /// The fate of the user's request.
    pub raise: RaiseStatus,
    /// The soft limit now in force; `None` when the system would not tell.
    pub soft_limit: Option<u64>,
}

/// The report for a request, given whether raising succeeded and what the
/// system then answered when asked for its `(soft, hard)` limits.
pub open spec fn limit_report_of(
    requested: Option<u64>,
    raised: bool,
    limits: Option<(u64, u64)>,
) -> LimitReport {
    LimitReport {
        raise: match requested {
            None => RaiseStatus::NotRequested,
            Some(limit) => if raised {
                RaiseStatus::Raised(limit)
            } else {
                RaiseStatus::Failed
            },
        },
        soft_limit: match limits {
            None => None,
            Some(pair) => Some(pair.0),
        },
    }
}

/// Builds the report from the request and the system's answers.
pub fn limit_report(requested: Option<u64>, raised: bool, limits: Option<(u64, u64)>) -> (report:
    LimitReport)
    ensures
        report == limit_report_of(requested, raised, limits),
{
    let raise = match requested {
        None => RaiseStatus::NotRequested,
        Some(limit) => if raised {
            RaiseStatus::Raised(limit)
        } else {
            RaiseStatus::Failed
        },
    };
    let soft_limit = match limits {
        None => None,
        Some(pair) => Some(pair.0),
    };
    LimitReport { raise, soft_limit }
}

/// The error type of the operating system's calls; carried, never inspected.
#[verifier::external_type_specification]
#[verifier::external_body]
pub struct ExIoError(std::io::Error);

/// `rlimit::Resource::NOFILE.set(limit, limit)`: asks the system to make `limit`
/// both the soft and the hard open-file limit. Nothing is claimed of the answer.
#[verifier::external_body]
fn set_nofile_limit(limit: u64) -> (outcome: Result<(), std::io::Error>) {
    rlimit::Resource::NOFILE.set(limit, limit)
}

/// `rlimit::Resource::NOFILE.get()`: asks the system for the `(soft, hard)`
/// open-file limits of this process. Nothing is claimed of the answer.
#[verifier::external_body]
fn get_nofile_limits() -> (outcome: Result<(u64, u64), std::io::Error>) {
    rlimit::Resource::NOFILE.get()
}

/// Raises the open-file limit to `opts.ulimit` where the user asked for it,
/// then reads the soft limit in force. A refused raise is reported, not fatal.
pub fn adjust_ulimit_size(opts: &Opts) -> (report: LimitReport)
    ensures
        exists|raised: bool, limits: Option<(u64, u64)>|
            report == limit_report_of(opts.ulimit, raised, limits),
        opts.ulimit is None <==> report.raise == RaiseStatus::NotRequested,
        report.raise matches RaiseStatus::Raised(limit) ==> opts.ulimit == Some(limit),
{
    let raised = match opts.ulimit {
        Some(limit) => set_nofile_limit(limit).is_ok(),
        None => false,
    };
    let limits = match get_nofile_limits() {
        Ok(pair) => Some(pair),
        Err(_) => None,
    };
    let report = limit_report(opts.ulimit, raised, limits);
    assert(report == limit_report_of(opts.ulimit, raised, limits));
    report
}

} // verus!

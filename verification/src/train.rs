use vstd::prelude::*;
use vstd::arithmetic::div_mod::lemma_fundamental_div_mod;
use crate::batch::Batch;
use crate::ops::Classifier;
use crate::ops::ProgressSink;
use crate::ops::ScalarOps;

verus! {

/// Number of training epochs of a full run.
pub const EPOCHS: usize = 2000;

/// Progress is reported, and checkpointing considered, every this many
/// epochs (and on the final epoch).
pub const REPORT_INTERVAL: usize = 50;

/// Bit pattern of IEEE 754 double-precision positive infinity: the initial
/// best loss, which any finite observed loss improves on.
pub const F64_INF_BITS: u64 = 0x7ff0_0000_0000_0000;

/// Configuration of one training run, passed in explicitly so that callers
/// can inject small epoch counts.
pub struct TrainConfig {
    pub epochs: usize,
    pub report_interval: usize,
    pub initial_best: u64,
}

impl TrainConfig {
    /// The reporting interval must be positive.
    pub open spec fn wf(&self) -> bool {
        self.report_interval >= 1
    }

    /// The full-run configuration: 2000 epochs, a report every 50, and an
    /// infinite initial best loss.
    pub fn full_run() -> (r: TrainConfig)
        ensures
            r.wf(),
            r.epochs == EPOCHS,
            r.report_interval == REPORT_INTERVAL,
            r.initial_best == F64_INF_BITS,
    {
        TrainConfig { epochs: EPOCHS, report_interval: REPORT_INTERVAL, initial_best: F64_INF_BITS }
    }
}

/// One sampling-boundary record: the epoch, the loss observed there, the
/// best loss going into the boundary, whether the observed loss was judged
/// strictly lower (in which case a checkpoint write succeeded — a failed
/// write aborts the run instead), and the best loss after the boundary.
#[derive(Clone, Copy, PartialEq, Eq, Structural, Debug)]
pub struct EpochReport {
    pub epoch: usize,
    pub loss: u64,
    pub best_before: u64,
    pub improved: bool,
    pub best_after: u64,
}

/// A training run that could not persist a checkpoint: the filesystem write
/// failed at the given epoch. Never silently ignored — best-loss bookkeeping
/// would otherwise be invalidated.
#[derive(Clone, Copy, PartialEq, Eq, Structural, Debug)]
pub enum TrainError {
    Persistence { epoch: usize },
}

/// The outcome of a completed run: every sampling-boundary report in epoch
/// order, and the final best loss.
#[derive(Debug)]
pub struct TrainReport {
    pub reports: Vec<EpochReport>,
    pub final_best: u64,
}

/// An epoch is a sampling boundary when it is a multiple of the reporting
/// interval, or the final epoch.
pub open spec fn is_boundary(epoch: int, total: int, interval: int) -> bool {
    epoch % interval == 0 || epoch == total
}

/// The sampling boundaries among epochs `1..=k` of a run of `total` epochs,
/// in increasing order.
pub open spec fn boundaries_up_to(k: int, total: int, interval: int) -> Seq<int>
    decreases k,
{
    if k <= 0 {
        Seq::empty()
    } else if is_boundary(k, total, interval) {
        boundaries_up_to(k - 1, total, interval).push(k)
    } else {
        boundaries_up_to(k - 1, total, interval)
    }
}

/// The best-loss bookkeeping of a report sequence is internally consistent:
/// the first report starts from the run's initial best, each later report
/// starts from its predecessor's result, and each report's result is the
/// observed loss exactly when that loss was judged an improvement, and the
/// incoming best otherwise.
pub open spec fn wf_trace(reports: Seq<EpochReport>, initial_best: u64) -> bool {
    &&& forall|k: int|
        0 <= k < reports.len() ==> (#[trigger] reports[k]).best_before == if k == 0 {
            initial_best
        } else {
            reports[k - 1].best_after
        }
    &&& forall|k: int|
        0 <= k < reports.len() ==> (#[trigger] reports[k]).best_after == if reports[k].improved {
            reports[k].loss
        } else {
            reports[k].best_before
        }
}

/// Checkpointing is monotone across a well-formed trace: at every sampling
/// boundary the recorded best loss either stays exactly what it was, or
/// moves to the loss observed there — and only on an improvement, which is
/// also exactly when a checkpoint is written. Consecutive reports chain
/// without gaps.
pub proof fn lemma_best_loss_monotone(reports: Seq<EpochReport>, initial_best: u64)
    requires
        wf_trace(reports, initial_best),
    ensures
        forall|k: int|
            0 <= k < reports.len() ==> (#[trigger] reports[k]).best_after == reports[k].best_before
                || (reports[k].improved && reports[k].best_after == reports[k].loss),
        forall|k: int|
            1 <= k < reports.len() ==> (#[trigger] reports[k]).best_before == reports[k
                - 1].best_after,
        reports.len() > 0 ==> reports[0].best_before == initial_best,
{
}

/// Drives a full training run. The batch is built once by the caller; every
/// epoch runs one forward/loss/backward-and-step pass through the classifier
/// capability. At each sampling boundary — every `report_interval`-th epoch
/// and the final epoch — a progress report is emitted and the boundary's
/// loss is compared with the best seen so far: strictly lower losses update
/// the best and persist a checkpoint. A failed checkpoint write aborts with
/// a persistence error naming the boundary epoch at which the write failed,
/// rather than silently continuing. On completion, the reports stand exactly
/// at the sampling boundaries, in order, and their best-loss trace is well
/// formed from the configured initial best; a run of zero epochs always
/// completes, with no reports.
pub fn train_model<C: Classifier, N: ScalarOps, S: ProgressSink>(
    clf: &mut C,
    ops: &N,
    sink: &mut S,
    batch: &Batch,
    cfg: &TrainConfig,
) -> (r: Result<TrainReport, TrainError>)
    requires
        cfg.wf(),
    ensures
        r is Ok ==> {
            let rep = r->Ok_0;
            &&& rep.reports@.map_values(|e: EpochReport| e.epoch as int) == boundaries_up_to(
                cfg.epochs as int,
                cfg.epochs as int,
                cfg.report_interval as int,
            )
            &&& wf_trace(rep.reports@, cfg.initial_best)
            &&& rep.final_best == if rep.reports@.len() == 0 {
                cfg.initial_best
            } else {
                rep.reports@.last().best_after
            }
        },
        cfg.epochs == 0 ==> r is Ok,
        r matches Err(TrainError::Persistence { epoch }) ==> 1 <= epoch <= cfg.epochs
            && is_boundary(epoch as int, cfg.epochs as int, cfg.report_interval as int),
{
    let mut reports: Vec<EpochReport> = Vec::new();
    let mut best: u64 = cfg.initial_best;
    let mut epoch: usize = 0;
    while epoch < cfg.epochs
        invariant
            cfg.wf(),
            epoch <= cfg.epochs,
            reports@.map_values(|e: EpochReport| e.epoch as int) == boundaries_up_to(
                epoch as int,
                cfg.epochs as int,
                cfg.report_interval as int,
            ),
            wf_trace(reports@, cfg.initial_best),
            best == if reports@.len() == 0 {
                cfg.initial_best
            } else {
                reports@.last().best_after
            },
        decreases cfg.epochs - epoch,
    {
        epoch = epoch + 1;
        let loss = clf.run_epoch(batch);
        if epoch % cfg.report_interval == 0 || epoch == cfg.epochs {
            sink.emit(epoch, cfg.epochs, loss);
            let best_before = best;
            let improved = ops.loss_lower(loss, best);
            if improved {
                best = loss;
                if !clf.save_checkpoint() {
                    return Err(TrainError::Persistence { epoch });
                }
            }
            let rep = EpochReport { epoch, loss, best_before, improved, best_after: best };
            let ghost old_reports = reports@;
            reports.push(rep);
            proof {
                assert(reports@.map_values(|e: EpochReport| e.epoch as int) =~= old_reports
                    .map_values(|e: EpochReport| e.epoch as int).push(epoch as int));
            }
        } else {
            proof {
                assert(boundaries_up_to(
                    epoch as int,
                    cfg.epochs as int,
                    cfg.report_interval as int,
                ) == boundaries_up_to(
                    epoch - 1,
                    cfg.epochs as int,
                    cfg.report_interval as int,
                ));
            }
        }
    }
    Ok(TrainReport { reports, final_best: best })
}

/// Helper for counting boundaries: stepping the epoch by one raises the
/// count of interval multiples exactly on a multiple.
proof fn lemma_div_step(k: int, interval: int)
    requires
        k >= 1,
        interval >= 1,
    ensures
        k % interval == 0 ==> k / interval == (k - 1) / interval + 1,
        k % interval != 0 ==> k / interval == (k - 1) / interval,
{
    lemma_fundamental_div_mod(k, interval);
    lemma_fundamental_div_mod(k - 1, interval);
    let q = k / interval;
    let r = k % interval;
    let q1 = (k - 1) / interval;
    let r1 = (k - 1) % interval;
    assert(0 <= r < interval) by (nonlinear_arith)
        requires interval >= 1, r == k % interval;
    assert(0 <= r1 < interval) by (nonlinear_arith)
        requires interval >= 1, r1 == (k - 1) % interval;
    assert(interval * q + r == interval * q1 + r1 + 1);
    if r == 0 {
        assert(q == q1 + 1) by (nonlinear_arith)
            requires
                interval >= 1,
                0 <= r1 < interval,
                interval * q == interval * q1 + r1 + 1;
    } else {
        assert(q == q1) by (nonlinear_arith)
            requires
                interval >= 1,
                1 <= r < interval,
                0 <= r1 < interval,
                interval * q + r == interval * q1 + r1 + 1;
    }
}

/// Below the final epoch, the number of boundaries among `1..=k` is the
/// number of interval multiples in that range.
proof fn lemma_boundary_count_below(k: int, total: int, interval: int)
    requires
        0 <= k < total,
        interval >= 1,
    ensures
        boundaries_up_to(k, total, interval).len() == k / interval,
    decreases k,
{
    if k <= 0 {
        assert(0int / interval == 0) by (nonlinear_arith)
            requires interval >= 1;
    } else {
        lemma_boundary_count_below(k - 1, total, interval);
        lemma_div_step(k, interval);
    }
}

/// A run whose epoch count is a positive multiple of the reporting interval
/// produces exactly `total / interval` reports: one per interval, the final
/// epoch's report included (it coincides with the last multiple). With the
/// full-run configuration of 2000 epochs sampled every 50, that is exactly
/// 40 reports — and hence at most 40 checkpoint-write attempts, since writes
/// happen only at boundaries.
pub proof fn lemma_report_count(total: int, interval: int)
    requires
        total >= 1,
        interval >= 1,
        total % interval == 0,
    ensures
        boundaries_up_to(total, total, interval).len() == total / interval,
{
    lemma_boundary_count_below(total - 1, total, interval);
    lemma_div_step(total, interval);
}

/// The full-run configuration reports exactly 40 times: 2000 epochs sampled
/// every 50, the final epoch included.
pub proof fn lemma_full_run_report_count()
    ensures
        boundaries_up_to(EPOCHS as int, EPOCHS as int, REPORT_INTERVAL as int).len() == 40,
{
    lemma_report_count(EPOCHS as int, REPORT_INTERVAL as int);
}

} // verus!

//! The training run's decision core: input validation, mini-batch
//! partitioning, the epoch state machine with cooperative cancellation,
//! and the shape of each progress snapshot.
//!
//! The numeric work of an epoch (forward, loss, backward, the SGD step)
//! happens outside; the controller here decides which epoch to run next,
//! when to stop, and what a snapshot must carry, and those decisions are
//! what the contracts pin down.

use vstd::prelude::*;

use crate::loss::LossType;

verus! {

/// Why a training run is refused before it starts.
#[derive(Debug, Clone, Copy, PartialEq, Eq, Structural)]
pub enum TrainError {
    /// The training set holds no samples.
    EmptyTrainingSet,
    /// Input and label counts differ.
    LengthMismatch,
    /// A batch size of zero cannot partition the data.
    ZeroBatchSize,
    /// A run of zero epochs is not a run.
    ZeroEpochs,
}

/// Checks the preconditions of a training run: a non-empty training set,
/// matching input and label counts, a positive batch size and a positive
/// epoch count. Returns the first violation in that order.
pub fn check_train_inputs(n_inputs: usize, n_labels: usize, batch_size: usize, epochs: usize) -> (r:
    Result<(), TrainError>)
    ensures
        r is Ok <==> (n_inputs > 0 && n_inputs == n_labels && batch_size > 0 && epochs > 0),
        n_inputs == 0 ==> r == Result::<(), TrainError>::Err(TrainError::EmptyTrainingSet),
        n_inputs > 0 && n_inputs != n_labels ==> r == Result::<(), TrainError>::Err(
            TrainError::LengthMismatch,
        ),
        n_inputs > 0 && n_inputs == n_labels && batch_size == 0 ==> r == Result::<
            (),
            TrainError,
        >::Err(TrainError::ZeroBatchSize),
        n_inputs > 0 && n_inputs == n_labels && batch_size > 0 && epochs == 0 ==> r == Result::<
            (),
            TrainError,
        >::Err(TrainError::ZeroEpochs),
{
    if n_inputs == 0 {
        Err(TrainError::EmptyTrainingSet)
    } else if n_inputs != n_labels {
        Err(TrainError::LengthMismatch)
    } else if batch_size == 0 {
        Err(TrainError::ZeroBatchSize)
    } else if epochs == 0 {
        Err(TrainError::ZeroEpochs)
    } else {
        Ok(())
    }
}

/// The half-open sample range of mini-batch `i` when `n` samples are cut
/// into batches of `bs`: all batches are full except possibly the last,
/// which ends at `n`.
pub open spec fn batch_range(n: nat, bs: nat, i: int) -> (int, int) {
    (i * bs, if (i + 1) * bs <= n {
        (i + 1) * bs
    } else {
        n as int
    })
}

/// Partitions `0..n` into consecutive mini-batches of `batch_size`; the
/// final batch may be shorter but never empty.
pub fn batch_ranges(n: usize, batch_size: usize) -> (r: Vec<(usize, usize)>)
    requires
        batch_size >= 1,
    ensures
        forall|i: int|
            0 <= i < r@.len() ==> ((#[trigger] r@[i]).0 as int, r@[i].1 as int) == batch_range(
                n as nat,
                batch_size as nat,
                i,
            ),
        forall|i: int| 0 <= i < r@.len() ==> (#[trigger] r@[i]).0 < r@[i].1,
        r@.len() == 0 <==> n == 0,
        n > 0 ==> r@.last().1 == n,
        n > 0 ==> r@[0].0 == 0,
{
    let mut r: Vec<(usize, usize)> = Vec::new();
    let mut start: usize = 0;
    proof {
        assert(r@.len() * batch_size == 0) by (nonlinear_arith)
            requires
                r@.len() == 0,
        {}
    }
    while start < n
        invariant
            batch_size >= 1,
            start <= n,
            start < n ==> r@.len() * batch_size == start,
            r@.len() * batch_size >= start,
            forall|i: int|
                0 <= i < r@.len() ==> ((#[trigger] r@[i]).0 as int, r@[i].1 as int)
                    == batch_range(n as nat, batch_size as nat, i),
            forall|i: int| 0 <= i < r@.len() ==> (#[trigger] r@[i]).0 < r@[i].1,
            r@.len() > 0 ==> r@.last().1 == start,
            r@.len() > 0 ==> r@[0].0 == 0,
        decreases n - start,
    {
        let ghost k = r@.len() as int;
        let ghost old_r = r@;
        let end = if batch_size < n - start {
            start + batch_size
        } else {
            n
        };
        r.push((start, end));
        proof {
            assert(k * batch_size == start);
            if k == 0 {
                assert(start == 0) by (nonlinear_arith)
                    requires
                        k == 0,
                        k * batch_size == start,
                {}
                assert(r@[0] == (start, end));
            } else {
                assert(r@[0] == old_r[0]);
            }
            assert((k + 1) * batch_size == start + batch_size) by (nonlinear_arith)
                requires
                    k * batch_size == start,
            {}
            assert((r@[k].0 as int, r@[k].1 as int) == batch_range(
                n as nat,
                batch_size as nat,
                k,
            ));
        }
        start = end;
        proof {
            assert((k + 1) * batch_size >= start) by (nonlinear_arith)
                requires
                    k * batch_size + batch_size >= start,
            {}
        }
    }
    proof {
        if n > 0 {
            assert(r@.len() > 0) by {
                if r@.len() == 0 {
                    assert(start == 0);
                }
            }
        }
    }
    r
}

/// With batch size 1, every mini-batch holds exactly one sample — batch
/// `i` is the range `(i, i + 1)` — so the averaged gradient applied for a
/// batch is the single sample's own analytic gradient, unaveraged.
pub proof fn lemma_unit_batches_isolate_samples(n: nat)
    ensures
        forall|i: int| 0 <= i < n ==> batch_range(n, 1, i) == (i, i + 1),
{
    assert forall|i: int| 0 <= i < n implies batch_range(n, 1, i) == (i, i + 1) by {
        assert(i * 1 == i);
        assert((i + 1) * 1 == i + 1);
    }
}

/// Splits `total` samples into training and validation counts: the
/// validation set takes `val_split_pct` percent, rounded down, and the
/// rest trains.
pub fn split_counts(total: usize, val_split_pct: u8) -> (r: (usize, usize))
    requires
        val_split_pct <= 100,
        total <= usize::MAX / 100,
    ensures
        r.1 == (total * val_split_pct as usize) / 100,
        r.1 <= total,
        r.0 == total - r.1,
        r.0 + r.1 == total,
{
    proof {
        vstd::arithmetic::div_mod::lemma_fundamental_div_mod(usize::MAX as int, 100);
        assert(total * 100 <= (usize::MAX / 100) * 100) by (nonlinear_arith)
            requires
                total <= usize::MAX / 100,
        {}
        assert(total * (val_split_pct as usize) <= total * 100) by (nonlinear_arith)
            requires
                val_split_pct as usize <= 100,
                0 <= total,
        {}
    }
    let val = (total * (val_split_pct as usize)) / 100;
    proof {
        assert(total * (val_split_pct as usize) <= total * 100) by (nonlinear_arith)
            requires
                val_split_pct as usize <= 100,
                0 <= total,
        {}
        assert((total * (val_split_pct as usize)) / 100 <= (total * 100) / 100) by (
        nonlinear_arith)
            requires
                total * (val_split_pct as usize) <= total * 100,
        {}
        assert((total * 100) / 100 == total) by (nonlinear_arith) {}
    }
    (total - val, val)
}

/// The lifecycle of one training run.
#[derive(Debug, Clone, Copy, PartialEq, Eq, Structural)]
pub enum RunState {
    /// No epoch has been asked for yet.
    NotStarted,
    /// An epoch has been handed out or finished, and more may follow.
    Running,
    /// Every requested epoch finished.
    Completed,
    /// The run stopped early: the flag was set or the progress sink
    /// disconnected.
    Cancelled,
}

/// The decision core of a training run. The loop around it asks
/// `begin_epoch` what to do, runs the numeric epoch when told to, and
/// reports back through `end_epoch`; the controller decides when the run
/// is over.
#[derive(Debug, Clone, Copy, PartialEq, Eq, Structural)]
pub struct TrainController {
    /// Epochs requested for the whole run.
    pub total_epochs: usize,
    /// The 1-based epoch that would run next.
    pub next_epoch: usize,
    /// Where the run stands.
    pub state: RunState,
}

/// A controller's invariant: at least one epoch requested, and the next
/// epoch at most one past the total.
pub open spec fn controller_wf(c: TrainController) -> bool {
    &&& 1 <= c.total_epochs < usize::MAX
    &&& 1 <= c.next_epoch <= c.total_epochs + 1
}

/// What polling the controller at the top of an epoch decides: a set
/// cancellation flag ends the run before the epoch starts; an exhausted
/// epoch budget completes it; otherwise the next epoch runs. A finished
/// run never hands out another epoch.
pub open spec fn begin_epoch_decision(c: TrainController, cancel_requested: bool) -> (
    TrainController,
    Option<usize>,
) {
    if c.state == RunState::Cancelled || c.state == RunState::Completed {
        (c, None)
    } else if cancel_requested {
        (TrainController { state: RunState::Cancelled, ..c }, None)
    } else if c.next_epoch > c.total_epochs {
        (TrainController { state: RunState::Completed, ..c }, None)
    } else {
        (TrainController { state: RunState::Running, ..c }, Some(c.next_epoch))
    }
}

/// What finishing an epoch decides: the epoch counter advances; a
/// disconnected progress sink or a set cancellation flag ends the run.
pub open spec fn end_epoch_decision(
    c: TrainController,
    sink_disconnected: bool,
    cancel_requested: bool,
) -> TrainController {
    TrainController {
        next_epoch: (c.next_epoch + 1) as usize,
        state: if sink_disconnected || cancel_requested {
            RunState::Cancelled
        } else {
            RunState::Running
        },
        ..c
    }
}

impl TrainController {
    /// A controller for a fresh run of `epochs` epochs.
    pub fn start(epochs: usize) -> (r: TrainController)
        requires
            1 <= epochs < usize::MAX,
        ensures
            controller_wf(r),
            r.total_epochs == epochs,
            r.next_epoch == 1,
            r.state == RunState::NotStarted,
    {
        TrainController { total_epochs: epochs, next_epoch: 1, state: RunState::NotStarted }
    }

    /// Polls the cancellation flag at the top of an epoch. Returns the
    /// epoch to run, or nothing when the run is over.
    pub fn begin_epoch(&mut self, cancel_requested: bool) -> (r: Option<usize>)
        requires
            controller_wf(*old(self)),
        ensures
            controller_wf(*final(self)),
            (*final(self), r) == begin_epoch_decision(*old(self), cancel_requested),
    {
        match self.state {
            RunState::Cancelled => None,
            RunState::Completed => None,
            _ => {
                if cancel_requested {
                    self.state = RunState::Cancelled;
                    None
                } else if self.next_epoch > self.total_epochs {
                    self.state = RunState::Completed;
                    None
                } else {
                    self.state = RunState::Running;
                    Some(self.next_epoch)
                }
            },
        }
    }

    /// Records that the current epoch finished and its snapshot was
    /// offered to the sink; a dead sink or a set flag ends the run.
    pub fn end_epoch(&mut self, sink_disconnected: bool, cancel_requested: bool)
        requires
            controller_wf(*old(self)),
            old(self).state == RunState::Running,
            old(self).next_epoch <= old(self).total_epochs,
        ensures
            controller_wf(*final(self)),
            *final(self) == end_epoch_decision(*old(self), sink_disconnected, cancel_requested),
            final(self).next_epoch == old(self).next_epoch + 1,
    {
        self.next_epoch += 1;
        if sink_disconnected || cancel_requested {
            self.state = RunState::Cancelled;
        } else {
            self.state = RunState::Running;
        }
    }
}

/// Which fields one progress snapshot must carry.
#[derive(Debug, Clone, Copy, PartialEq, Eq, Structural)]
pub struct StatsPlan {
    /// The 1-based epoch the snapshot reports.
    pub epoch: usize,
    /// Epochs requested for the whole run.
    pub total_epochs: usize,
    /// The snapshot carries a validation loss.
    pub include_val_loss: bool,
    /// The snapshot carries a training accuracy.
    pub include_train_accuracy: bool,
    /// The snapshot carries a validation accuracy.
    pub include_val_accuracy: bool,
}

/// Decides the shape of the snapshot for epoch `epoch`: a validation
/// loss is present exactly when a validation set is, and accuracies
/// exactly for cross-entropy runs (validation accuracy also needing a
/// validation set).
pub fn stats_plan(epoch: usize, total_epochs: usize, loss_type: LossType, has_validation: bool) -> (
    r: StatsPlan)
    ensures
        r.epoch == epoch,
        r.total_epochs == total_epochs,
        r.include_val_loss <==> has_validation,
        r.include_train_accuracy <==> loss_type == LossType::CrossEntropy,
        r.include_val_accuracy <==> (loss_type == LossType::CrossEntropy && has_validation),
{
    let is_ce = match loss_type {
        LossType::CrossEntropy => true,
        _ => false,
    };
    StatsPlan {
        epoch,
        total_epochs,
        include_val_loss: has_validation,
        include_train_accuracy: is_ce,
        include_val_accuracy: is_ce && has_validation,
    }
}

/// A cancellation seen at the very first poll stops the run before any
/// epoch: no epoch is handed out, the run is Cancelled, and a cancelled
/// controller never hands out an epoch afterwards, so no further
/// progress snapshot is ever due.
pub proof fn lemma_cancel_before_first_epoch(c: TrainController)
    requires
        controller_wf(c),
        c.state == RunState::NotStarted,
    ensures
        begin_epoch_decision(c, true).1 is None,
        begin_epoch_decision(c, true).0.state == RunState::Cancelled,
        forall|later: TrainController, flag: bool|
            later.state == RunState::Cancelled ==> (#[trigger] begin_epoch_decision(
                later,
                flag,
            )).1 is None && begin_epoch_decision(later, flag).0 == later,
{
}

/// Progress snapshots carry strictly increasing epoch numbers: each
/// epoch's snapshot reports the epoch `begin_epoch` handed out, and
/// after `end_epoch` the next epoch handed out is one greater, so no
/// epoch is reported twice and none out of order.
pub proof fn lemma_snapshots_strictly_ordered(
    c: TrainController,
    sink_disconnected: bool,
    cancel_requested: bool,
)
    requires
        controller_wf(c),
        c.state == RunState::Running,
        c.next_epoch <= c.total_epochs,
    ensures
        ({
            let after = end_epoch_decision(c, sink_disconnected, cancel_requested);
            forall|flag: bool|
                (#[trigger] begin_epoch_decision(after, flag)).1 is Some
                    ==> begin_epoch_decision(after, flag).1 == Some((c.next_epoch + 1) as usize)
        }),
{
}

} // verus!

use ferrite_nn::{batch_ranges, check_train_inputs, split_counts, stats_plan, tab_unlock_mask,
    LossType, RunState, TrainController, TrainError};

#[test]
fn train_inputs_are_validated_in_order() {
    assert_eq!(check_train_inputs(4, 4, 2, 10), Ok(()));
    assert_eq!(check_train_inputs(0, 0, 2, 10), Err(TrainError::EmptyTrainingSet));
    assert_eq!(check_train_inputs(4, 3, 2, 10), Err(TrainError::LengthMismatch));
    assert_eq!(check_train_inputs(4, 4, 0, 10), Err(TrainError::ZeroBatchSize));
    assert_eq!(check_train_inputs(4, 4, 2, 0), Err(TrainError::ZeroEpochs));
}

#[test]
fn batches_cover_the_samples_with_a_short_tail() {
    assert_eq!(batch_ranges(10, 3), vec![(0, 3), (3, 6), (6, 9), (9, 10)]);
    assert_eq!(batch_ranges(6, 3), vec![(0, 3), (3, 6)]);
    assert_eq!(batch_ranges(2, 32), vec![(0, 2)]);
    assert_eq!(batch_ranges(0, 4), vec![]);
}

#[test]
fn unit_batches_hold_one_sample_each() {
    // With batch size 1, each applied gradient is one sample's own.
    let r = batch_ranges(4, 1);
    assert_eq!(r, vec![(0, 1), (1, 2), (2, 3), (3, 4)]);
    for (i, (a, b)) in r.iter().enumerate() {
        assert_eq!(*a, i);
        assert_eq!(b - a, 1);
    }
}

#[test]
fn split_counts_takes_the_percentage_for_validation() {
    assert_eq!(split_counts(100, 20), (80, 20));
    assert_eq!(split_counts(7, 50), (4, 3));
    assert_eq!(split_counts(4, 0), (4, 0));
    assert_eq!(split_counts(0, 30), (0, 0));
}

#[test]
fn controller_runs_every_epoch_then_completes() {
    let mut c = TrainController::start(2);
    assert_eq!(c.state, RunState::NotStarted);
    assert_eq!(c.begin_epoch(false), Some(1));
    assert_eq!(c.state, RunState::Running);
    c.end_epoch(false, false);
    assert_eq!(c.begin_epoch(false), Some(2));
    c.end_epoch(false, false);
    assert_eq!(c.begin_epoch(false), None);
    assert_eq!(c.state, RunState::Completed);
    assert_eq!(c.begin_epoch(false), None);
}

#[test]
fn cancel_before_first_epoch_runs_nothing() {
    // The flag set before the first poll: no epoch runs, no snapshot is due.
    let mut c = TrainController::start(10_000);
    assert_eq!(c.begin_epoch(true), None);
    assert_eq!(c.state, RunState::Cancelled);
    assert_eq!(c.begin_epoch(false), None);
    assert_eq!(c.begin_epoch(true), None);
    assert_eq!(c.state, RunState::Cancelled);
}

#[test]
fn cancel_after_an_epoch_stops_at_its_end() {
    let mut c = TrainController::start(5);
    assert_eq!(c.begin_epoch(false), Some(1));
    c.end_epoch(false, true);
    assert_eq!(c.state, RunState::Cancelled);
    assert_eq!(c.begin_epoch(false), None);
}

#[test]
fn disconnected_sink_counts_as_cancellation() {
    let mut c = TrainController::start(5);
    assert_eq!(c.begin_epoch(false), Some(1));
    c.end_epoch(true, false);
    assert_eq!(c.state, RunState::Cancelled);
    assert_eq!(c.begin_epoch(false), None);
}

#[test]
fn snapshots_carry_increasing_epochs() {
    let mut c = TrainController::start(3);
    let mut seen = Vec::new();
    while let Some(e) = c.begin_epoch(false) {
        seen.push(e);
        c.end_epoch(false, false);
    }
    assert_eq!(seen, vec![1, 2, 3]);
}

#[test]
fn stats_plan_field_presence() {
    // A validation loss is present exactly when a validation set is.
    let p = stats_plan(3, 50, LossType::CrossEntropy, true);
    assert_eq!(p.epoch, 3);
    assert_eq!(p.total_epochs, 50);
    assert!(p.include_val_loss);
    assert!(p.include_train_accuracy);
    assert!(p.include_val_accuracy);

    let q = stats_plan(1, 50, LossType::CrossEntropy, false);
    assert!(!q.include_val_loss);
    assert!(q.include_train_accuracy);
    assert!(!q.include_val_accuracy);

    let m = stats_plan(1, 50, LossType::Mse, true);
    assert!(m.include_val_loss);
    assert!(!m.include_train_accuracy);
    assert!(!m.include_val_accuracy);
}

#[test]
fn tab_mask_unlocks_in_stages() {
    assert_eq!(tab_unlock_mask(false, false, false), 0b1_0001);
    assert_eq!(tab_unlock_mask(true, false, false), 0b1_0011);
    assert_eq!(tab_unlock_mask(true, true, false), 0b1_0111);
    assert_eq!(tab_unlock_mask(true, true, true), 0b1_1111);
}

#[test]
fn controller_batches_and_shuffle_drive_a_full_run() {
    // Drive the run the way the numeric loop does: poll, shuffle, walk
    // the batches, report back — and check every sample is visited
    // exactly once per epoch.
    let n_samples = 10;
    let mut c = TrainController::start(3);
    let mut epochs_run = 0;
    while let Some(epoch) = c.begin_epoch(false) {
        assert_eq!(epoch, epochs_run + 1);
        let order = ferrite_nn::shuffle_indices(n_samples);
        let mut visits = vec![0usize; n_samples];
        for (a, b) in batch_ranges(n_samples, 4) {
            for &i in &order[a..b] {
                visits[i] += 1;
            }
        }
        assert!(visits.iter().all(|&v| v == 1));
        epochs_run += 1;
        c.end_epoch(false, false);
    }
    assert_eq!(epochs_run, 3);
    assert_eq!(c.state, RunState::Completed);
}

//! Studio state helpers: flash messages and tab unlocking.

use vstd::prelude::*;

verus! {

/// Whether a flash message reports success or an error.
#[derive(Debug, Clone, Copy, PartialEq, Eq, Structural)]
pub enum FlashKind {
    Success,
    Error,
}

/// A one-shot notice shown on the next page render.
#[derive(Debug, Clone)]
pub struct FlashMessage {
    pub kind: FlashKind,
    pub text: String,
}

impl FlashMessage {
    /// A success notice with the given text.
    pub fn success(text: &str) -> (r: FlashMessage)
        ensures
            r.kind == FlashKind::Success,
            r.text@ == text@,
    {
        FlashMessage { kind: FlashKind::Success, text: text.to_owned() }
    }

    /// An error notice with the given text.
    pub fn error(text: &str) -> (r: FlashMessage)
        ensures
            r.kind == FlashKind::Error,
            r.text@ == text@,
    {
        FlashMessage { kind: FlashKind::Error, text: text.to_owned() }
    }
}

/// The tab-unlock bitmask: Architect (bit 0) and Test (bit 4) are always
/// unlocked; Dataset (bit 1) needs a saved architecture; Train (bit 2)
/// needs a loaded dataset; Evaluate (bit 3) needs a finished run.
pub open spec fn tab_mask_spec(has_spec: bool, has_dataset: bool, training_done: bool) -> u8 {
    (17u8 + (if has_spec {
        2u8
    } else {
        0u8
    }) + (if has_dataset {
        4u8
    } else {
        0u8
    }) + (if training_done {
        8u8
    } else {
        0u8
    })) as u8
}

/// Returns the bitmask of unlocked tabs for the given studio state.
pub fn tab_unlock_mask(has_spec: bool, has_dataset: bool, training_done: bool) -> (r: u8)
    ensures
        r == tab_mask_spec(has_spec, has_dataset, training_done),
{
    let mut mask: u8 = 17;
    if has_spec {
        mask += 2;
    }
    if has_dataset {
        mask += 4;
    }
    if training_done {
        mask += 8;
    }
    mask
}

} // verus!

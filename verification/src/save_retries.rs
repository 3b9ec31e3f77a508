//! The saves that are retried until the blob storage takes them: what
//! follows each attempt, and the texts logged on the way.
use crate::text::{decimal_digits, u64_to_decimal};
use vstd::prelude::*;

verus! {

/// How long to wait before the next attempt, in seconds.
pub const RETRY_DELAY_SECONDS: u64 = 3;

/// The text logged when attempt `attempt_no` to save a partition failed.
pub open spec fn partition_retry_text(partition_key: Seq<char>, attempt_no: nat) -> Seq<char> {
    "Can not sync partition "@ + partition_key + ". Attempt: "@ + decimal_digits(attempt_no)
}

/// The text logged when attempt `attempt_no` to save a table's attributes failed.
pub open spec fn attributes_retry_text(attempt_no: nat) -> Seq<char> {
    "Can not sync table attributes.Attempt: "@ + decimal_digits(attempt_no)
}

/// Renders the failure of attempt `attempt_no` to save a partition.
pub fn partition_retry_message(partition_key: &str, attempt_no: u64) -> (r: String)
    ensures
        r@ == partition_retry_text(partition_key@, attempt_no as nat),
{
    let mut message = String::from_str("Can not sync partition ");
    message.append(partition_key);
    message.append(". Attempt: ");
    let number = u64_to_decimal(attempt_no);
    message.append(number.as_str());
    proof {
        reveal_strlit("Can not sync partition ");
        reveal_strlit(". Attempt: ");
    }
    message
}

/// Renders the failure of attempt `attempt_no` to save a table's attributes.
pub fn attributes_retry_message(attempt_no: u64) -> (r: String)
    ensures
        r@ == attributes_retry_text(attempt_no as nat),
{
    let mut message = String::from_str("Can not sync table attributes.Attempt: ");
    let number = u64_to_decimal(attempt_no);
    message.append(number.as_str());
    message
}

/// What follows an attempt to save.
#[derive(Debug)]
pub enum SaveStep {
    /// The save went through: log it (and, for a partition, record the
    /// snapshot that was saved); no more attempts.
    Saved,
    /// The save failed: log `message` as the failure of attempt
    /// `attempt_no`, wait `delay_seconds`, then try again.
    Retry { attempt_no: u64, message: String, delay_seconds: u64 },
}

/// What follows attempt `failed_before + 1` to save a partition, whose
/// outcome is `saved`, after `failed_before` failed attempts.
pub fn partition_save_step(partition_key: &str, failed_before: u64, saved: bool) -> (r: SaveStep)
    requires
        failed_before < u64::MAX,
    ensures
        saved ==> r is Saved,
        !saved ==> (r matches SaveStep::Retry { attempt_no, message, delay_seconds }
            && attempt_no == failed_before + 1
            && message@ == partition_retry_text(partition_key@, attempt_no as nat)
            && delay_seconds == RETRY_DELAY_SECONDS),
{
    if saved {
        return SaveStep::Saved;
    }
    let attempt_no = failed_before + 1;
    SaveStep::Retry { attempt_no, message: partition_retry_message(partition_key, attempt_no), delay_seconds: RETRY_DELAY_SECONDS }
}

/// What follows an attempt to save a table's attributes, whose outcome is
/// `saved`, after `failed_before` failed attempts.
pub fn attributes_save_step(failed_before: u64, saved: bool) -> (r: SaveStep)
    requires
        failed_before < u64::MAX,
    ensures
        saved ==> r is Saved,
        !saved ==> (r matches SaveStep::Retry { attempt_no, message, delay_seconds }
            && attempt_no == failed_before + 1
            && message@ == attributes_retry_text(attempt_no as nat)
            && delay_seconds == RETRY_DELAY_SECONDS),
{
    if saved {
        return SaveStep::Saved;
    }
    let attempt_no = failed_before + 1;
    SaveStep::Retry { attempt_no, message: attributes_retry_message(attempt_no), delay_seconds: RETRY_DELAY_SECONDS }
}

} // verus!

//! The buffer guardian: compacts the active conversation when a
//! memory-pressure signal crosses the threshold. Absence of the signal
//! disables the policy rather than erroring.

use vstd::prelude::*;
use crate::conversation::{truncated, Conversation};

verus! {

/// Memory usage, in megabytes, above which the conversation buffer is
/// compacted.
pub const MEMORY_PRESSURE_THRESHOLD_MB: u64 = 100;

/// Compacts the conversation to half the configured maximum length when
/// the memory-pressure signal exceeds the threshold; does nothing when
/// the signal is absent or low.
pub fn optimize_conversation_buffer(
    memory_usage_mb: Option<u64>,
    conversation: &mut Conversation,
    max_length: usize,
) -> (acted: bool)
    ensures
        match memory_usage_mb {
            Some(m) => if m > MEMORY_PRESSURE_THRESHOLD_MB {
                acted && final(conversation)@ == truncated(
                    old(conversation)@,
                    (max_length / 2) as int,
                )
            } else {
                !acted && final(conversation)@ == old(conversation)@
            },
            None => !acted && final(conversation)@ == old(conversation)@,
        },
{
    match memory_usage_mb {
        Some(m) => {
            if m > MEMORY_PRESSURE_THRESHOLD_MB {
                conversation.truncate(max_length / 2);
                true
            } else {
                false
            }
        },
        None => false,
    }
}

} // verus!

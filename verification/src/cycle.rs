use vstd::prelude::*;

use crate::alert::{alert_step, compute_alert_action, AlertAction, ALERT_ACTIVE};
use crate::broker::to_chars;
use crate::decimal::{parse_unsigned, unsigned_value};
use crate::telegram::Notice;

verus! {

/// How the ping of one wake cycle went.
#[derive(PartialEq, Eq, Structural, Debug, Clone, Copy)]
pub enum PingOutcome {
    /// No MQTT session with the broker could be opened.
    BrokerUnreachable,
    /// The session was opened but the ping could not be published.
    PingFailed,
    /// The ping was published.
    PingSent,
}

/// The notice that an alert action asks for.
pub open spec fn notice_of(action: AlertAction) -> Option<Notice> {
    match action {
        AlertAction::SendAlert => Some(Notice::LabDown),
        AlertAction::SendRecovery => Some(Notice::LabUp),
        AlertAction::NoAction => None,
    }
}

/// Decides, at the end of a wake cycle, which notice to send to the chat,
/// and updates the alert state that survives deep sleep.
///
/// The broker counts as reachable only when the ping was published. The
/// device goes back to sleep afterwards whatever the outcome.
pub fn wake_cycle(outcome: PingOutcome, state: &mut u32) -> (notice: Option<Notice>)
    ensures
        *final(state) == alert_step(outcome == PingOutcome::PingSent, *old(state)).0,
        notice == notice_of(alert_step(outcome == PingOutcome::PingSent, *old(state)).1),
        notice == Some(Notice::LabDown) <==> outcome != PingOutcome::PingSent && *old(state)
            != ALERT_ACTIVE,
        notice == Some(Notice::LabUp) <==> outcome == PingOutcome::PingSent && *old(state)
            == ALERT_ACTIVE,
{
    let reachable = match outcome {
        PingOutcome::PingSent => true,
        _ => false,
    };
    match compute_alert_action(reachable, state) {
        AlertAction::SendAlert => Some(Notice::LabDown),
        AlertAction::SendRecovery => Some(Notice::LabUp),
        AlertAction::NoAction => None,
    }
}

/// Reads the configured number of seconds the device sleeps between wake
/// cycles, as the standard library reads a `u64`.
pub fn sleep_interval_secs(text: &str) -> (r: Option<u64>)
    ensures
        match r {
            Some(secs) => unsigned_value(text@, u64::MAX as nat) == Some(secs as nat),
            None => unsigned_value(text@, u64::MAX as nat) is None,
        },
{
    let chars = to_chars(text);
    assert(chars@.subrange(0, chars@.len() as int) =~= text@);
    parse_unsigned(chars.as_slice(), 0, chars.len(), u64::MAX)
}

/// The configured number of seconds between wake cycles, for text that is
/// a `u64` (see [`sleep_interval_secs`], which says whether it is).
pub fn sleep_interval(text: &str) -> (secs: u64)
    requires
        unsigned_value(text@, u64::MAX as nat) is Some,
    ensures
        unsigned_value(text@, u64::MAX as nat) == Some(secs as nat),
{
    let parsed = sleep_interval_secs(text);
    assert(parsed is Some);
    parsed.unwrap()
}

} // verus!

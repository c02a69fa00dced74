use vstd::prelude::*;

verus! {

/// How long the Wi-Fi supervisor waits after the link dropped, and after a
/// failed connection attempt, before it goes on.
pub const RECONNECT_PAUSE_MS: u64 = 5000;

/// The steps of the Wi-Fi supervisor, which keeps the station associated
/// with the access point for as long as the device is awake.
#[derive(PartialEq, Eq, Structural, Debug, Clone, Copy)]
pub enum WifiAction {
    /// Ask the driver whether the station is associated; the answer is the
    /// outcome of the step.
    CheckLink,
    /// Wait until the station loses its association, then pause for
    /// [`RECONNECT_PAUSE_MS`].
    WaitForDrop,
    /// Ask whether the driver is running; the answer is the outcome.
    CheckDriver,
    /// Configure the network name and password, start the driver and turn
    /// on power saving.
    StartDriver,
    /// Try to associate; whether it worked is the outcome.
    Connect,
    /// Pause for [`RECONNECT_PAUSE_MS`] after a failed attempt.
    BackOff,
}

/// The step that follows `done` when it had the outcome `outcome` (which
/// only checks and connection attempts have).
pub open spec fn wifi_transition(done: WifiAction, outcome: bool) -> WifiAction {
    match done {
        WifiAction::CheckLink => if outcome {
            WifiAction::WaitForDrop
        } else {
            WifiAction::CheckDriver
        },
        WifiAction::WaitForDrop => WifiAction::CheckDriver,
        WifiAction::CheckDriver => if outcome {
            WifiAction::Connect
        } else {
            WifiAction::StartDriver
        },
        WifiAction::StartDriver => WifiAction::Connect,
        WifiAction::Connect => if outcome {
            WifiAction::CheckLink
        } else {
            WifiAction::BackOff
        },
        WifiAction::BackOff => WifiAction::CheckLink,
    }
}

/// The supervisor's first step.
pub fn wifi_start() -> (first: WifiAction)
    ensures
        first == WifiAction::CheckLink,
{
    WifiAction::CheckLink
}

/// Decides the supervisor's next step from the step just done and its
/// outcome: while the station is associated it waits for the link to drop;
/// it starts the driver only when the driver is not running; it always
/// tries to associate after that; and it pauses after a failed attempt.
pub fn wifi_next(done: WifiAction, outcome: bool) -> (next: WifiAction)
    ensures
        next == wifi_transition(done, outcome),
{
    match done {
        WifiAction::CheckLink => if outcome {
            WifiAction::WaitForDrop
        } else {
            WifiAction::CheckDriver
        },
        WifiAction::WaitForDrop => WifiAction::CheckDriver,
        WifiAction::CheckDriver => if outcome {
            WifiAction::Connect
        } else {
            WifiAction::StartDriver
        },
        WifiAction::StartDriver => WifiAction::Connect,
        WifiAction::Connect => if outcome {
            WifiAction::CheckLink
        } else {
            WifiAction::BackOff
        },
        WifiAction::BackOff => WifiAction::CheckLink,
    }
}

/// Once the link has dropped, the supervisor tries to associate again
/// within two more steps, whatever the driver reports.
pub proof fn lemma_reconnects_after_drop(driver_running: bool)
    ensures
        wifi_transition(WifiAction::WaitForDrop, false) == WifiAction::CheckDriver,
        ({
            let next = wifi_transition(WifiAction::CheckDriver, driver_running);
            next == WifiAction::Connect || wifi_transition(next, false) == WifiAction::Connect
        }),
{
}

/// A failed attempt to associate is always followed by a pause, and the
/// supervisor then starts a new round by checking the link.
pub proof fn lemma_backs_off_after_failure()
    ensures
        wifi_transition(WifiAction::Connect, false) == WifiAction::BackOff,
        wifi_transition(WifiAction::BackOff, false) == WifiAction::CheckLink,
{
}

/// Once the driver has been started, the next step is always an attempt to
/// associate, whatever outcome the start reported.
pub proof fn lemma_connects_after_driver_start(outcome: bool)
    ensures
        wifi_transition(WifiAction::StartDriver, outcome) == WifiAction::Connect,
{
}

/// Whatever the outcomes, a round that finds the link down reaches an
/// attempt to associate within three steps, and so does the round after a
/// dropped link.
pub proof fn lemma_link_down_leads_to_connect(o1: bool, o2: bool, o3: bool)
    ensures
        ({
            let s1 = wifi_transition(WifiAction::CheckLink, false);
            let s2 = wifi_transition(s1, o1);
            s2 == WifiAction::Connect || wifi_transition(s2, o2) == WifiAction::Connect
        }),
        ({
            let s1 = wifi_transition(WifiAction::WaitForDrop, o1);
            let s2 = wifi_transition(s1, o2);
            s2 == WifiAction::Connect || wifi_transition(s2, o3) == WifiAction::Connect
        }),
{
}

/// When each step is taken: the supervisor waits for the link to drop
/// exactly when it found the station associated, starts the driver exactly
/// when it found the driver stopped, tries to associate only when the
/// driver is known to run or was just started, pauses exactly after a
/// failed attempt, and checks the link again after a successful attempt or
/// a pause.
pub proof fn lemma_step_conditions(done: WifiAction, outcome: bool)
    ensures
        wifi_transition(done, outcome) == WifiAction::WaitForDrop <==> done
            == WifiAction::CheckLink && outcome,
        wifi_transition(done, outcome) == WifiAction::StartDriver <==> done
            == WifiAction::CheckDriver && !outcome,
        wifi_transition(done, outcome) == WifiAction::Connect ==> (done == WifiAction::CheckDriver
            && outcome) || done == WifiAction::StartDriver,
        wifi_transition(done, outcome) == WifiAction::BackOff <==> done == WifiAction::Connect
            && !outcome,
        (done == WifiAction::Connect && outcome) || done == WifiAction::BackOff ==> wifi_transition(
            done,
            outcome,
        ) == WifiAction::CheckLink,
        wifi_transition(done, outcome) == WifiAction::CheckDriver <==> (done == WifiAction::CheckLink
            && !outcome) || done == WifiAction::WaitForDrop,
{
}

} // verus!

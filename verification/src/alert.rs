use vstd::prelude::*;

verus! {

/// The value kept in persistent memory while an alert is outstanding.
///
/// Any other value, including whatever the memory holds after power-on,
/// means that no alert is outstanding.
pub const ALERT_ACTIVE: u32 = 0xA1E2_7001;

/// What the device has to tell the operator after a ping attempt.
#[derive(PartialEq, Eq, Structural, Debug, Clone, Copy)]
pub enum AlertAction {
    SendAlert,
    SendRecovery,
    NoAction,
}

/// The persistent state after one ping attempt, and the action it calls for.
pub open spec fn alert_step(success: bool, state: u32) -> (u32, AlertAction) {
    if success {
        if state == ALERT_ACTIVE {
            (0, AlertAction::SendRecovery)
        } else {
            (state, AlertAction::NoAction)
        }
    } else if state != ALERT_ACTIVE {
        (ALERT_ACTIVE, AlertAction::SendAlert)
    } else {
        (state, AlertAction::NoAction)
    }
}

/// Updates the persistent alert state after a ping attempt and says whether
/// an alert or a recovery notice has to be sent.
///
/// A failed attempt marks the alert as outstanding; a successful one clears
/// an outstanding alert. A notice is due only when that mark changes.
pub fn compute_alert_action(success: bool, state: &mut u32) -> (action: AlertAction)
    ensures
        (*final(state), action) == alert_step(success, *old(state)),
        (*final(state) == ALERT_ACTIVE) == !success,
        action == AlertAction::SendAlert <==> !success && *old(state) != ALERT_ACTIVE,
        action == AlertAction::SendRecovery <==> success && *old(state) == ALERT_ACTIVE,
{
    if success {
        if *state == ALERT_ACTIVE {
            *state = 0;
            AlertAction::SendRecovery
        } else {
            AlertAction::NoAction
        }
    } else if *state != ALERT_ACTIVE {
        *state = ALERT_ACTIVE;
        AlertAction::SendAlert
    } else {
        AlertAction::NoAction
    }
}

/// The state left behind, and the actions taken, when the ping attempts
/// `outcomes` are made one after the other, starting from `state`.
pub open spec fn run_alerts(state: u32, outcomes: Seq<bool>) -> (u32, Seq<AlertAction>)
    decreases outcomes.len(),
{
    if outcomes.len() == 0 {
        (state, Seq::empty())
    } else {
        let (next, action) = alert_step(outcomes[0], state);
        let (last, rest) = run_alerts(next, outcomes.drop_first());
        (last, seq![action] + rest)
    }
}

/// A run grows by one call at a time: the run of `outcomes` followed by one
/// more attempt `success` is the run of `outcomes`, then the step that
/// [`compute_alert_action`] takes on the state that run left. So `n`
/// successive calls on the same state, with no other writes between them,
/// leave the state and give the actions of `run_alerts` over their outcomes.
pub proof fn lemma_run_alerts_push(state: u32, outcomes: Seq<bool>, success: bool)
    ensures
        ({
            let (mid, acts) = run_alerts(state, outcomes);
            let (last, action) = alert_step(success, mid);
            run_alerts(state, outcomes.push(success)) == (last, acts.push(action))
        }),
    decreases outcomes.len(),
{
    let longer = outcomes.push(success);
    let (mid, acts) = run_alerts(state, outcomes);
    let (last, action) = alert_step(success, mid);
    if outcomes.len() == 0 {
        assert(longer.drop_first() =~= Seq::<bool>::empty());
        assert(longer[0] == success);
        assert(mid == state && acts == Seq::<AlertAction>::empty());
        assert(run_alerts(alert_step(success, state).0, longer.drop_first()).1 =~= Seq::<
            AlertAction,
        >::empty());
        assert(run_alerts(state, longer).0 == last);
        assert(run_alerts(state, longer).1 =~= acts.push(action));
    } else {
        let (next, action0) = alert_step(outcomes[0], state);
        assert(longer.drop_first() =~= outcomes.drop_first().push(success));
        assert(longer[0] == outcomes[0]);
        lemma_run_alerts_push(next, outcomes.drop_first(), success);
        let rest = run_alerts(next, outcomes.drop_first()).1;
        assert(acts == seq![action0] + rest);
        assert(run_alerts(state, longer).0 == last);
        assert(run_alerts(state, longer).1 =~= seq![action0] + rest.push(action));
        assert(seq![action0] + rest.push(action) =~= acts.push(action));
    }
}

/// Starting with no alert outstanding, the first notice of any run is an
/// alert.
pub proof fn lemma_first_notice_is_alert(state: u32, outcomes: Seq<bool>, k: int)
    requires
        state != ALERT_ACTIVE,
        0 <= k < outcomes.len(),
        run_alerts(state, outcomes).1[k] != AlertAction::NoAction,
        forall|j: int| 0 <= j < k ==> #[trigger] run_alerts(state, outcomes).1[j] == AlertAction::NoAction,
    ensures
        run_alerts(state, outcomes).1[k] == AlertAction::SendAlert,
{
    lemma_notices_follow_transitions(state, outcomes);
    let acts = run_alerts(state, outcomes).1;
    lemma_quiet_keeps_reachable(state, outcomes, k);
    assert(acts[k] == edge_action(reachable_before(state, outcomes, k), outcomes[k]));
}

/// While no notice was due, a run that started reachable stays reachable.
proof fn lemma_quiet_keeps_reachable(state: u32, outcomes: Seq<bool>, j: int)
    requires
        state != ALERT_ACTIVE,
        0 <= j < outcomes.len(),
        run_alerts(state, outcomes).1.len() == outcomes.len(),
        forall|i: int|
            0 <= i < outcomes.len() ==> #[trigger] run_alerts(state, outcomes).1[i] == edge_action(
                reachable_before(state, outcomes, i),
                outcomes[i],
            ),
        forall|i: int| 0 <= i < j ==> #[trigger] run_alerts(state, outcomes).1[i] == AlertAction::NoAction,
    ensures
        reachable_before(state, outcomes, j),
    decreases j,
{
    if j > 0 {
        lemma_quiet_keeps_reachable(state, outcomes, j - 1);
        assert(run_alerts(state, outcomes).1[j - 1] == AlertAction::NoAction);
    }
}

/// Whether the broker counted as reachable just before attempt `k`: for the
/// first attempt this is read from the persistent state, after that it is
/// the outcome of the attempt before.
pub open spec fn reachable_before(state: u32, outcomes: Seq<bool>, k: int) -> bool {
    if k == 0 {
        state != ALERT_ACTIVE
    } else {
        outcomes[k - 1]
    }
}

/// The notice due when reachability goes from `before` to `now`.
pub open spec fn edge_action(before: bool, now: bool) -> AlertAction {
    if before && !now {
        AlertAction::SendAlert
    } else if !before && now {
        AlertAction::SendRecovery
    } else {
        AlertAction::NoAction
    }
}

/// Over any run of ping attempts, an alert is sent exactly at each attempt
/// that fails after a reachable one, a recovery notice exactly at each
/// attempt that succeeds after an unreachable one, and nothing otherwise.
/// Afterwards an alert is outstanding exactly when the last attempt failed.
pub proof fn lemma_notices_follow_transitions(state: u32, outcomes: Seq<bool>)
    ensures
        run_alerts(state, outcomes).1.len() == outcomes.len(),
        forall|k: int|
            0 <= k < outcomes.len() ==> #[trigger] run_alerts(state, outcomes).1[k] == edge_action(
                reachable_before(state, outcomes, k),
                outcomes[k],
            ),
        outcomes.len() > 0 ==> (run_alerts(state, outcomes).0 == ALERT_ACTIVE
            <==> !outcomes[outcomes.len() - 1]),
        outcomes.len() == 0 ==> run_alerts(state, outcomes).0 == state,
    decreases outcomes.len(),
{
    if outcomes.len() > 0 {
        let next = alert_step(outcomes[0], state).0;
        let tail = outcomes.drop_first();
        lemma_notices_follow_transitions(next, tail);
        let acts = run_alerts(state, outcomes).1;
        assert forall|k: int| 0 <= k < outcomes.len() implies #[trigger] acts[k] == edge_action(
            reachable_before(state, outcomes, k),
            outcomes[k],
        ) by {
            if k > 0 {
                assert(acts[k] == run_alerts(next, tail).1[k - 1]);
                assert(tail[k - 1] == outcomes[k]);
                if k > 1 {
                    assert(tail[k - 2] == outcomes[k - 1]);
                }
            }
        }
        if tail.len() > 0 {
            assert(tail[tail.len() - 1] == outcomes[outcomes.len() - 1]);
        }
    }
}

/// Notices never repeat: between two alerts a recovery notice was sent, and
/// between two recovery notices an alert was sent.
pub proof fn lemma_notices_alternate(state: u32, outcomes: Seq<bool>, i: int, j: int)
    requires
        0 <= i < j < outcomes.len(),
        run_alerts(state, outcomes).1[i] != AlertAction::NoAction,
        run_alerts(state, outcomes).1[i] == run_alerts(state, outcomes).1[j],
    ensures
        exists|k: int|
            i < k < j && #[trigger] run_alerts(state, outcomes).1[k] != AlertAction::NoAction
                && run_alerts(state, outcomes).1[k] != run_alerts(state, outcomes).1[i],
{
    lemma_notices_follow_transitions(state, outcomes);
    let acts = run_alerts(state, outcomes).1;
    assert(acts[i] == edge_action(reachable_before(state, outcomes, i), outcomes[i]));
    assert(acts[j] == edge_action(reachable_before(state, outcomes, j), outcomes[j]));
    // The outcome right after attempt `i` differs from the outcome right before attempt `j`,
    // so reachability changed somewhere strictly between them.
    let k = lemma_first_change(outcomes, i, j - 1);
    assert(acts[k] == edge_action(reachable_before(state, outcomes, k), outcomes[k]));
}

/// Finds the first attempt after `i`, up to `m`, whose outcome differs from that of attempt `i`.
proof fn lemma_first_change(outcomes: Seq<bool>, i: int, m: int) -> (k: int)
    requires
        0 <= i < m < outcomes.len(),
        outcomes[i] != outcomes[m],
    ensures
        i < k <= m,
        outcomes[k - 1] == outcomes[i],
        outcomes[k] != outcomes[i],
    decreases m - i,
{
    if outcomes[i + 1] != outcomes[i] {
        i + 1
    } else {
        lemma_first_change(outcomes, i + 1, m)
    }
}

/// Whatever the persistent memory holds, unless it is the alert marker, the
/// device behaves as if no alert were outstanding.
pub proof fn lemma_unknown_state_means_no_alert(success: bool, state: u32)
    requires
        state != ALERT_ACTIVE,
    ensures
        alert_step(success, state).1 == alert_step(success, 0).1,
        (alert_step(success, state).0 == ALERT_ACTIVE) == (alert_step(success, 0).0 == ALERT_ACTIVE),
{
}

} // verus!

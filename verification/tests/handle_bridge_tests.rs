use convex_bridge::bridge::{race_outcome, ClientAuth, RaceOutcome};
use convex_bridge::host::HostValue;
use convex_bridge::outcome::{result_to_host, result_to_host_entry, FunctionResult};
use convex_bridge::subscription::{
    snapshot_of, AdvanceOutcome, AdvanceResult, AdvanceStart, SlotState, SubscriberId,
    SubscriptionHandle, SubscriptionSetHandle, SetAdvanceOutcome, SetAdvanceResult,
};
use convex_bridge::value::Value;

fn sid(query: u32, ordinal: u64) -> SubscriberId {
    SubscriberId { query, ordinal }
}

fn item(n: i64) -> FunctionResult {
    FunctionResult::Value(Value::Int64(n))
}

#[test]
fn unsubscribe_then_advance_requires_reset() {
    let mut h = SubscriptionHandle::new(sid(1, 0));
    h.unsubscribe();
    let d = h.advance_begin();
    assert_eq!(d, AdvanceStart::RequiresReset);
    assert_ne!(d, AdvanceStart::Exhausted);
}

#[test]
fn exhausted_stream_reports_exhausted_not_reset() {
    let mut h = SubscriptionHandle::new(sid(1, 0));
    assert_eq!(h.advance_begin(), AdvanceStart::Proceed);
    match h.advance_finish(AdvanceOutcome::StreamEnd) {
        AdvanceResult::Exhausted => {},
        _ => panic!("stream end must report exhaustion"),
    }
    assert_eq!(h.advance_begin(), AdvanceStart::Exhausted);
    assert!(!h.is_live());
}

#[test]
fn advance_yields_items_in_order_and_reopens_the_slot() {
    let mut h = SubscriptionHandle::new(sid(2, 1));
    for n in [10i64, 20, 30] {
        assert_eq!(h.advance_begin(), AdvanceStart::Proceed);
        match h.advance_finish(AdvanceOutcome::Item(item(n))) {
            AdvanceResult::Item(FunctionResult::Value(Value::Int64(got))) => assert_eq!(got, n),
            _ => panic!("expected the item back"),
        }
        assert_eq!(h.slot, SlotState::Open);
    }
}

#[test]
fn second_advance_while_one_is_in_flight_fails_fast() {
    let mut h = SubscriptionHandle::new(sid(2, 1));
    assert_eq!(h.advance_begin(), AdvanceStart::Proceed);
    assert_eq!(h.advance_begin(), AdvanceStart::Busy);
}

#[test]
fn slot_reads_work_while_an_advance_is_suspended() {
    let mut h = SubscriptionHandle::new(sid(7, 3));
    assert_eq!(h.advance_begin(), AdvanceStart::Proceed);
    // While the cursor is out, the slot is free: these never block.
    assert!(h.is_live());
    assert_eq!(h.id(), sid(7, 3));
    // An unsubscribe issued during the wait is final.
    h.unsubscribe();
    assert!(!h.is_live());
    match h.advance_finish(AdvanceOutcome::Item(item(1))) {
        AdvanceResult::Item(_) => {},
        _ => panic!("the received item is still delivered"),
    }
    // The completed advance did not resurrect the cursor.
    assert!(!h.is_live());
    assert_eq!(h.advance_begin(), AdvanceStart::RequiresReset);
}

#[test]
fn interrupted_advance_leaves_the_handle_usable() {
    let mut h = SubscriptionHandle::new(sid(1, 1));
    assert_eq!(h.advance_begin(), AdvanceStart::Proceed);
    match h.advance_finish(AdvanceOutcome::Interrupted) {
        AdvanceResult::Interrupted => {},
        _ => panic!("expected interruption"),
    }
    assert_eq!(h.slot, SlotState::Open);
    assert_eq!(h.advance_begin(), AdvanceStart::Proceed);
}

#[test]
fn unsubscribe_is_idempotent() {
    let mut h = SubscriptionHandle::new(sid(1, 1));
    h.unsubscribe();
    let s1 = h.slot;
    h.unsubscribe();
    assert_eq!(h.slot, s1);
}

#[test]
fn snapshot_contains_exactly_the_present_results() {
    // Three subscribers; only one has a result this tick.
    let batch = vec![
        (sid(1, 0), None),
        (sid(2, 0), Some(item(42))),
        (sid(3, 0), None),
    ];
    let snap = snapshot_of(&batch);
    assert_eq!(snap.len(), 1);
    assert_eq!(snap[0].0, sid(2, 0));
    match &snap[0].1 {
        HostValue::Dict(entries) => {
            assert_eq!(entries[0].0, HostValue::Text("type".to_string()));
            assert_eq!(entries[0].1, HostValue::Text("value".to_string()));
        },
        _ => panic!("snapshot entries are tagged mappings"),
    }
}

#[test]
fn snapshot_keeps_error_outcomes_distinguishable() {
    let batch = vec![
        (sid(1, 0), Some(FunctionResult::ErrorMessage("boom".to_string()))),
        (
            sid(2, 0),
            Some(FunctionResult::ApplicationError {
                message: "bad".to_string(),
                data: Value::Null,
            }),
        ),
    ];
    let snap = snapshot_of(&batch);
    assert_eq!(snap.len(), 2);
    match &snap[0].1 {
        HostValue::Dict(entries) => {
            assert_eq!(entries[0].1, HostValue::Text("errormessage".to_string()));
        },
        _ => panic!("expected a tagged mapping"),
    }
    match &snap[1].1 {
        HostValue::Dict(entries) => {
            assert_eq!(entries[0].1, HostValue::Text("convexerror".to_string()));
        },
        _ => panic!("expected a tagged mapping"),
    }
}

#[test]
fn set_handle_advance_projects_the_batch() {
    let mut h = SubscriptionSetHandle::new();
    assert_eq!(h.advance_begin(), AdvanceStart::Proceed);
    let batch = vec![(sid(1, 0), Some(item(5))), (sid(2, 0), None)];
    match h.advance_finish(SetAdvanceOutcome::Batch(batch)) {
        SetAdvanceResult::Snapshot(snap) => assert_eq!(snap.len(), 1),
        _ => panic!("expected a snapshot"),
    }
    assert!(h.is_live());
}

#[test]
fn interrupt_is_observed_within_one_poll_interval() {
    // An operation taking 50 units, an interrupt arriving at 1 unit,
    // polls every 10 units: the interrupt wins at the first poll.
    match race_outcome(50, Some(1), 10) {
        RaceOutcome::Interrupted { observed_at } => {
            assert_eq!(observed_at, 10);
            assert!(observed_at <= 1 + 10);
        },
        RaceOutcome::Completed => panic!("the interrupt must win"),
    }
}

#[test]
fn fast_operation_beats_a_late_interrupt() {
    assert_eq!(race_outcome(5, Some(7), 10), RaceOutcome::Completed);
    assert_eq!(race_outcome(5, None, 10), RaceOutcome::Completed);
}

#[test]
fn interrupt_arriving_between_polls_waits_for_the_next_poll() {
    match race_outcome(100, Some(11), 10) {
        RaceOutcome::Interrupted { observed_at } => assert_eq!(observed_at, 20),
        RaceOutcome::Completed => panic!("the interrupt must win"),
    }
}

#[test]
fn result_to_host_keeps_the_three_outcomes_apart() {
    let ok = result_to_host(&item(3)).unwrap();
    match ok {
        HostValue::Dict(entries) => {
            assert_eq!(entries[0].1, HostValue::Text("value".to_string()));
        },
        _ => panic!("expected a tagged mapping"),
    }
    let msg = result_to_host(&FunctionResult::ErrorMessage("down".to_string())).unwrap_err();
    assert_eq!(msg, "down");
    let app = result_to_host(&FunctionResult::ApplicationError {
        message: "oops".to_string(),
        data: Value::Int64(1),
    })
    .unwrap();
    match app {
        HostValue::Dict(entries) => {
            assert_eq!(entries[0].1, HostValue::Text("convexerror".to_string()));
            assert_eq!(entries[1].0, HostValue::Text("message".to_string()));
            assert_eq!(entries[1].1, HostValue::Text("oops".to_string()));
        },
        _ => panic!("expected a tagged mapping"),
    }
}

#[test]
fn snapshot_entry_form_never_collapses_an_error_into_a_value() {
    let e = result_to_host_entry(&FunctionResult::ErrorMessage("x".to_string()));
    match e {
        HostValue::Dict(entries) => {
            assert_ne!(entries[0].1, HostValue::Text("value".to_string()));
        },
        _ => panic!("expected a tagged mapping"),
    }
}

#[test]
fn admin_auth_is_one_way() {
    let mut a = ClientAuth::new();
    a.set_admin_auth("deploy-key".to_string());
    a.set_auth(Some("user".to_string()));
    assert!(a.admin_token.is_some());
    a.set_auth(None);
    assert!(a.admin_token.is_some());
    assert!(a.user_token.is_none());
}

#[test]
fn a_tie_goes_to_the_operation() {
    // The operation finishes exactly at the poll that would observe
    // the interrupt: the operation's result stands.
    assert_eq!(race_outcome(10, Some(5), 10), RaceOutcome::Completed);
    // One tick later and the interrupt wins.
    match race_outcome(11, Some(5), 10) {
        RaceOutcome::Interrupted { observed_at } => assert_eq!(observed_at, 10),
        RaceOutcome::Completed => panic!("the interrupt must win"),
    }
}

#[test]
fn diagnostics_render_extreme_identities() {
    let id = sid(u32::MAX, u64::MAX);
    assert_eq!(id.diagnostic(), format!("subscriber-{}.{}", u32::MAX, u64::MAX));
    let id = sid(0, 0);
    assert_eq!(id.diagnostic(), "subscriber-0.0");
}

#[test]
fn subscriber_identity_is_stable_and_printable() {
    let id = sid(3, 12);
    assert_eq!(id.diagnostic(), "subscriber-3.12");
    assert_eq!(id.stable_hash(), id.stable_hash());
    assert_eq!(id.stable_hash(), ((3u64) << 32) ^ 12);
    assert_ne!(sid(1, 0), sid(1, 1));
    assert_eq!(sid(1, 0), sid(1, 0));
}

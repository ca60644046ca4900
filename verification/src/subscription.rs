//! Live subscription cursors and their slot discipline.
//!
//! A handle wraps at most one live streaming cursor. The cursor sits in
//! a single-occupancy slot that is emptied for the duration of an
//! await, so that the lock guarding it is never held across a
//! suspension point: a concurrent `exists` or `unsubscribe` is never
//! blocked behind a network wait. The handle's state machine is pure
//! logic and lives here; the runtime that actually awaits the transport
//! drives it from outside, one transition before the await and one
//! after.
//!
//! A handle is meant for one logical consumer at a time. A second
//! advance started while one is in flight is refused fast with
//! [`AdvanceStart::Busy`] rather than silently blocking.

use vstd::prelude::*;
use crate::host::{HostModel, HostValue};
use crate::outcome::{entry_host, result_to_host_entry, FunctionResult, OutcomeModel};
use crate::textfmt::{chars_of_bytes, dec_bytes, str_concat, u64_dec};

verus! {

broadcast use {vstd::seq::group_seq_axioms, vstd::std_specs::vec::group_vec_axioms};

/// Opaque identity of one subscription: the query it watches and an
/// ordinal distinguishing subscriptions to the same query. Supports
/// equality and hashing; no ordering is imposed.
#[derive(Debug, Clone, Copy, PartialEq, Eq, Structural, Hash)]
pub struct SubscriberId {
    /// Identifier of the watched query.
    pub query: u32,
    /// Ordinal of this subscription among those of the same query.
    pub ordinal: u64,
}

/// A stable mix of the two components, equal for equal identities.
pub open spec fn id_hash_of(id: SubscriberId) -> u64 {
    ((id.query as u64) << 32) ^ id.ordinal
}

/// The human-readable form of an identity, for diagnostics.
pub open spec fn id_diagnostic_of(id: SubscriberId) -> Seq<char> {
    "subscriber-"@ + chars_of_bytes(dec_bytes(id.query as nat)) + "."@ + chars_of_bytes(
        dec_bytes(id.ordinal as nat),
    )
}

impl SubscriberId {
    /// Stable hash of the identity, derived from its immutable payload.
    pub fn stable_hash(&self) -> (h: u64)
        ensures
            h == id_hash_of(*self),
    {
        ((self.query as u64) << 32) ^ self.ordinal
    }

    /// Human-readable form of the identity, for diagnostics.
    pub fn diagnostic(&self) -> (s: String)
        ensures
            s@ == id_diagnostic_of(*self),
    {
        let q = u64_dec(self.query as u64);
        let o = u64_dec(self.ordinal);
        let head = str_concat("subscriber-", q.as_str());
        let mid = str_concat(head.as_str(), ".");
        let s = str_concat(mid.as_str(), o.as_str());
        proof {
            assert(s@ =~= id_diagnostic_of(*self));
        }
        s
    }
}

/// Where a handle's cursor stands: in the slot, temporarily removed
/// while an advance awaits the transport, or gone for good.
#[derive(Debug, Clone, Copy, PartialEq, Eq, Structural)]
pub enum SlotState {
    /// The cursor sits in the slot, ready for the next advance.
    Open,
    /// The cursor is out of the slot while an advance is in flight.
    Advancing,
    /// The cursor is gone: torn down by the caller (`by_user`) or by
    /// the end of the stream.
    Unsubscribed {
        /// Whether the caller closed the handle, as opposed to the
        /// stream ending on its own.
        by_user: bool,
    },
}

/// How an advance may begin.
#[derive(Debug, Clone, Copy, PartialEq, Eq, Structural)]
pub enum AdvanceStart {
    /// The cursor was taken from the slot; await the transport now.
    Proceed,
    /// Another advance already holds the cursor; fail fast.
    Busy,
    /// The caller closed this handle; it will yield nothing more.
    RequiresReset,
    /// The stream ended on its own; normal termination.
    Exhausted,
}

/// What the transport handed back while the cursor was out.
pub enum AdvanceOutcome {
    /// The next item of the stream.
    Item(FunctionResult),
    /// The stream ended.
    StreamEnd,
    /// The caller's interrupt won the race; the item was abandoned.
    Interrupted,
}

/// What one whole advance yields.
pub enum AdvanceResult {
    /// The next item of the stream.
    Item(FunctionResult),
    /// The stream ended; normal termination, the handle is spent.
    Exhausted,
    /// The wait was interrupted; the handle is reusable as it stands.
    Interrupted,
}

/// Spec-level mirror of [`AdvanceOutcome`].
pub enum AdvanceOutcomeModel {
    /// The next item of the stream.
    Item(OutcomeModel),
    /// The stream ended.
    StreamEnd,
    /// The caller's interrupt won the race.
    Interrupted,
}

/// Spec-level mirror of [`AdvanceResult`].
pub enum AdvanceResultModel {
    /// The next item of the stream.
    Item(OutcomeModel),
    /// The stream ended.
    Exhausted,
    /// The wait was interrupted.
    Interrupted,
}

impl View for AdvanceOutcome {
    type V = AdvanceOutcomeModel;

    open spec fn view(&self) -> AdvanceOutcomeModel {
        match self {
            AdvanceOutcome::Item(r) => AdvanceOutcomeModel::Item(r@),
            AdvanceOutcome::StreamEnd => AdvanceOutcomeModel::StreamEnd,
            AdvanceOutcome::Interrupted => AdvanceOutcomeModel::Interrupted,
        }
    }
}

impl View for AdvanceResult {
    type V = AdvanceResultModel;

    open spec fn view(&self) -> AdvanceResultModel {
        match self {
            AdvanceResult::Item(r) => AdvanceResultModel::Item(r@),
            AdvanceResult::Exhausted => AdvanceResultModel::Exhausted,
            AdvanceResult::Interrupted => AdvanceResultModel::Interrupted,
        }
    }
}

/// Whether a handle in this state still owns a live cursor.
pub open spec fn exists_of(s: SlotState) -> bool {
    s is Open || s is Advancing
}

/// Taking the cursor out of the slot to start an advance.
pub open spec fn spec_advance_begin(s: SlotState) -> (SlotState, AdvanceStart) {
    match s {
        SlotState::Open => (SlotState::Advancing, AdvanceStart::Proceed),
        SlotState::Advancing => (SlotState::Advancing, AdvanceStart::Busy),
        SlotState::Unsubscribed { by_user } => (
            s,
            if by_user {
                AdvanceStart::RequiresReset
            } else {
                AdvanceStart::Exhausted
            },
        ),
    }
}

/// Returning from the await: the cursor goes back into the slot —
/// whatever the outcome was — unless the caller tore the handle down
/// while the cursor was out, which is final.
pub open spec fn spec_advance_finish(s: SlotState, o: AdvanceOutcomeModel) -> (
    SlotState,
    AdvanceResultModel,
) {
    let r = match o {
        AdvanceOutcomeModel::Item(x) => AdvanceResultModel::Item(x),
        AdvanceOutcomeModel::StreamEnd => AdvanceResultModel::Exhausted,
        AdvanceOutcomeModel::Interrupted => AdvanceResultModel::Interrupted,
    };
    match s {
        SlotState::Unsubscribed { by_user } => (s, r),
        _ => match o {
            AdvanceOutcomeModel::Item(_) => (SlotState::Open, r),
            AdvanceOutcomeModel::StreamEnd => (SlotState::Unsubscribed { by_user: false }, r),
            AdvanceOutcomeModel::Interrupted => (SlotState::Open, r),
        },
    }
}

/// Discarding the cursor for good; does nothing on a spent handle.
pub open spec fn spec_unsubscribe(s: SlotState) -> SlotState {
    match s {
        SlotState::Unsubscribed { by_user } => s,
        _ => SlotState::Unsubscribed { by_user: true },
    }
}

/// A live streaming cursor over one query's results.
#[derive(Debug, PartialEq, Eq)]
pub struct SubscriptionHandle {
    /// Identity of the subscription, stable for the handle's lifetime.
    pub id: SubscriberId,
    /// Where the cursor stands.
    pub slot: SlotState,
}

impl SubscriptionHandle {
    /// A fresh handle over a live cursor, open and ready to advance.
    pub fn new(id: SubscriberId) -> (h: SubscriptionHandle)
        ensures
            h.id == id,
            h.slot == SlotState::Open,
    {
        SubscriptionHandle { id, slot: SlotState::Open }
    }

    /// Whether the handle still owns a live cursor; true while an
    /// advance is in flight, false once unsubscribed or exhausted.
    /// A pure read of the slot: never waits on the transport.
    pub fn is_live(&self) -> (b: bool)
        ensures
            b == exists_of(self.slot),
    {
        match self.slot {
            SlotState::Open => true,
            SlotState::Advancing => true,
            SlotState::Unsubscribed { .. } => false,
        }
    }

    /// The subscription's identity; stable for the handle's lifetime
    /// and readable in every state, even during an advance.
    pub fn id(&self) -> (id: SubscriberId)
        ensures
            id == self.id,
    {
        self.id
    }

    /// Start an advance: atomically take the cursor out of the slot.
    /// On [`AdvanceStart::Proceed`] the caller awaits the transport and
    /// then hands the outcome to [`Self::advance_finish`].
    pub fn advance_begin(&mut self) -> (d: AdvanceStart)
        ensures
            final(self).id == old(self).id,
            (final(self).slot, d) == spec_advance_begin(old(self).slot),
    {
        match self.slot {
            SlotState::Open => {
                self.slot = SlotState::Advancing;
                AdvanceStart::Proceed
            },
            SlotState::Advancing => AdvanceStart::Busy,
            SlotState::Unsubscribed { by_user } => {
                if by_user {
                    AdvanceStart::RequiresReset
                } else {
                    AdvanceStart::Exhausted
                }
            },
        }
    }

    /// Finish an advance with what the transport handed back: the
    /// cursor returns to the slot whatever the outcome — in particular
    /// an interrupted handle stays open and re-advanceable — unless the
    /// caller unsubscribed while the cursor was out, which stands.
    pub fn advance_finish(&mut self, outcome: AdvanceOutcome) -> (r: AdvanceResult)
        requires
            old(self).slot is Advancing || old(self).slot is Unsubscribed,
        ensures
            final(self).id == old(self).id,
            (final(self).slot, r@) == spec_advance_finish(old(self).slot, outcome@),
    {
        let finished = match self.slot {
            SlotState::Unsubscribed { .. } => true,
            _ => false,
        };
        if !finished {
            match &outcome {
                AdvanceOutcome::Item(_) => {
                    self.slot = SlotState::Open;
                },
                AdvanceOutcome::StreamEnd => {
                    self.slot = SlotState::Unsubscribed { by_user: false };
                },
                AdvanceOutcome::Interrupted => {
                    self.slot = SlotState::Open;
                },
            }
        }
        match outcome {
            AdvanceOutcome::Item(x) => AdvanceResult::Item(x),
            AdvanceOutcome::StreamEnd => AdvanceResult::Exhausted,
            AdvanceOutcome::Interrupted => AdvanceResult::Interrupted,
        }
    }

    /// Discard the cursor and close the handle for good; idempotent,
    /// callable in every state, and never waits on the transport.
    pub fn unsubscribe(&mut self)
        ensures
            final(self).id == old(self).id,
            final(self).slot == spec_unsubscribe(old(self).slot),
    {
        let keep = match self.slot {
            SlotState::Unsubscribed { .. } => true,
            _ => false,
        };
        if !keep {
            self.slot = SlotState::Unsubscribed { by_user: true };
        }
    }
}

/// A handle closed by its caller answers every later advance with
/// "requires reset" — never with "exhausted", and never by hanging.
pub proof fn lemma_unsubscribe_then_advance(s: SlotState)
    requires
        s is Open || s is Advancing,
    ensures
        spec_advance_begin(spec_unsubscribe(s)).1 == AdvanceStart::RequiresReset,
        spec_advance_begin(spec_unsubscribe(s)).1 != AdvanceStart::Exhausted,
        spec_advance_begin(spec_unsubscribe(s)).0 == spec_unsubscribe(s),
{
}

/// Closing a handle twice is the same as closing it once, and a handle
/// that ended by exhaustion stays marked as exhausted.
pub proof fn lemma_unsubscribe_idempotent(s: SlotState)
    ensures
        spec_unsubscribe(spec_unsubscribe(s)) == spec_unsubscribe(s),
{
}

/// An interrupted advance leaves the cursor back in the slot: the
/// handle stays open and the next advance proceeds normally.
pub proof fn lemma_interrupt_leaves_handle_open(s: SlotState)
    requires
        s is Advancing,
    ensures
        spec_advance_finish(s, AdvanceOutcomeModel::Interrupted).0 == SlotState::Open,
        spec_advance_begin(
            spec_advance_finish(s, AdvanceOutcomeModel::Interrupted).0,
        ).1 == AdvanceStart::Proceed,
{
}

/// While an advance is suspended, the slot is free: `exists` still
/// answers, and an `unsubscribe` issued meanwhile is final — the
/// advance's completion does not resurrect the cursor.
pub proof fn lemma_slot_free_during_advance(o: AdvanceOutcomeModel)
    ensures
        exists_of(SlotState::Advancing),
        spec_unsubscribe(SlotState::Advancing) == (SlotState::Unsubscribed { by_user: true }),
        spec_advance_finish((SlotState::Unsubscribed { by_user: true }), o).0 == (
        SlotState::Unsubscribed { by_user: true }),
{
}

/// Spec-level model of a batch of per-subscriber outcomes.
pub open spec fn batch_model(s: Seq<(SubscriberId, Option<FunctionResult>)>) -> Seq<
    (SubscriberId, Option<OutcomeModel>),
>
    decreases s,
{
    if s.len() == 0 {
        Seq::empty()
    } else {
        seq![
            (s[0].0, match s[0].1 {
                Option::Some(r) => Option::Some(r@),
                Option::None => Option::None,
            }),
        ] + batch_model(s.drop_first())
    }
}

/// `batch_model` maps elementwise.
pub proof fn lemma_batch_model(s: Seq<(SubscriberId, Option<FunctionResult>)>)
    ensures
        batch_model(s).len() == s.len(),
        forall|i: int| 0 <= i < s.len() ==> batch_model(s)[i] == (
            #[trigger] s[i].0,
            match s[i].1 {
                Option::Some(r) => Option::Some(r@),
                Option::None => Option::<OutcomeModel>::None,
            },
        ),
    decreases s,
{
    if s.len() == 0 {
        assert(batch_model(s) =~= Seq::<(SubscriberId, Option<OutcomeModel>)>::empty());
    } else {
        lemma_batch_model(s.drop_first());
        assert forall|i: int| 0 <= i < s.len() implies batch_model(s)[i] == (
            #[trigger] s[i].0,
            match s[i].1 {
                Option::Some(r) => Option::Some(r@),
                Option::None => Option::<OutcomeModel>::None,
            },
        ) by {
            if i > 0 {
                assert(batch_model(s)[i] == batch_model(s.drop_first())[i - 1]);
                assert(s.drop_first()[i - 1] == s[i]);
            }
        }
    }
}

/// Spec-level model of a snapshot under construction.
pub open spec fn snap_model(s: Seq<(SubscriberId, HostValue)>) -> Seq<(SubscriberId, HostModel)>
    decreases s,
{
    if s.len() == 0 {
        Seq::empty()
    } else {
        seq![(s[0].0, s[0].1@)] + snap_model(s.drop_first())
    }
}

/// `snap_model` maps elementwise.
pub proof fn lemma_snap_model(s: Seq<(SubscriberId, HostValue)>)
    ensures
        snap_model(s).len() == s.len(),
        forall|i: int| 0 <= i < s.len() ==> snap_model(s)[i] == (#[trigger] s[i].0, s[i].1@),
    decreases s,
{
    if s.len() == 0 {
        assert(snap_model(s) =~= Seq::<(SubscriberId, HostModel)>::empty());
    } else {
        lemma_snap_model(s.drop_first());
        assert forall|i: int| 0 <= i < s.len() implies snap_model(s)[i] == (
            #[trigger] s[i].0,
            s[i].1@,
        ) by {
            if i > 0 {
                assert(snap_model(s)[i] == snap_model(s.drop_first())[i - 1]);
                assert(s.drop_first()[i - 1] == s[i]);
            }
        }
    }
}

/// `snap_model` commutes with `push`.
pub proof fn lemma_snap_model_push(s: Seq<(SubscriberId, HostValue)>, e: (SubscriberId, HostValue))
    ensures
        snap_model(s.push(e)) == snap_model(s).push((e.0, e.1@)),
{
    let r = s.push(e);
    lemma_snap_model(s);
    lemma_snap_model(r);
    assert forall|i: int| 0 <= i < snap_model(r).len() implies snap_model(r)[i] == snap_model(
        s,
    ).push((e.0, e.1@))[i] by {
        assert(snap_model(r)[i] == (r[i].0, r[i].1@));
        if i < s.len() {
            assert(r[i] == s[i]);
            assert(snap_model(s)[i] == (s[i].0, s[i].1@));
        } else {
            assert(r[i] == e);
        }
    }
    assert(snap_model(r) =~= snap_model(s).push((e.0, e.1@)));
}

/// The snapshot of a batch: one entry per subscriber whose result is
/// present this tick, in batch order, each outcome in its tagged host
/// form. A subscriber with no current result is omitted, not mapped to
/// an empty entry.
pub open spec fn spec_snapshot(s: Seq<(SubscriberId, Option<OutcomeModel>)>) -> Seq<
    (SubscriberId, HostModel),
>
    decreases s,
{
    if s.len() == 0 {
        Seq::empty()
    } else {
        spec_snapshot(s.drop_last()) + (match s.last().1 {
            Option::Some(o) => seq![(s.last().0, entry_host(o))],
            Option::None => Seq::empty(),
        })
    }
}

/// How many subscribers have a result this tick.
pub open spec fn count_present(s: Seq<(SubscriberId, Option<OutcomeModel>)>) -> int
    decreases s,
{
    if s.len() == 0 {
        0
    } else {
        count_present(s.drop_last()) + if s.last().1 is Some {
            1int
        } else {
            0int
        }
    }
}

/// A snapshot holds exactly one entry per present result: absence is
/// omission, never a placeholder entry.
pub proof fn lemma_snapshot_len(s: Seq<(SubscriberId, Option<OutcomeModel>)>)
    ensures
        spec_snapshot(s).len() == count_present(s),
    decreases s,
{
    if s.len() > 0 {
        lemma_snapshot_len(s.drop_last());
    }
}

/// Project a batch of per-subscriber outcomes into a snapshot: keep
/// exactly the subscribers with a present result, in order, and
/// marshal each outcome into its tagged host form.
pub fn snapshot_of(batch: &Vec<(SubscriberId, Option<FunctionResult>)>) -> (snap: Vec<
    (SubscriberId, HostValue),
>)
    ensures
        snap_model(snap@) == spec_snapshot(batch_model(batch@)),
{
    let ghost bm = batch_model(batch@);
    proof {
        lemma_batch_model(batch@);
    }
    let mut snap: Vec<(SubscriberId, HostValue)> = Vec::new();
    let mut i: usize = 0;
    proof {
        assert(bm.take(0) =~= Seq::<(SubscriberId, Option<OutcomeModel>)>::empty());
        assert(snap_model(snap@) =~= spec_snapshot(bm.take(0)));
    }
    while i < batch.len()
        invariant
            i <= batch@.len(),
            bm == batch_model(batch@),
            bm.len() == batch@.len(),
            forall|j: int| 0 <= j < batch@.len() ==> bm[j] == (
                #[trigger] batch@[j].0,
                match batch@[j].1 {
                    Option::Some(r) => Option::Some(r@),
                    Option::None => Option::<OutcomeModel>::None,
                },
            ),
            snap_model(snap@) == spec_snapshot(bm.take(i as int)),
        decreases batch@.len() - i,
    {
        proof {
            assert(bm.take(i as int + 1).drop_last() =~= bm.take(i as int));
            assert(bm.take(i as int + 1).last() == bm[i as int]);
        }
        match &batch[i].1 {
            Option::Some(r) => {
                let h = result_to_host_entry(r);
                let sid = batch[i].0;
                proof {
                    lemma_snap_model_push(snap@, (sid, h));
                    assert(batch@[i as int].1 == Option::Some(*r));
                    assert(bm[i as int] == (batch@[i as int].0, Option::Some(r@)));
                    assert(bm.take(i as int + 1).last().1 == Option::Some(r@));
                    assert(spec_snapshot(bm.take(i as int + 1)) =~= spec_snapshot(bm.take(
                        i as int,
                    )).push((bm[i as int].0, entry_host(r@))));
                }
                snap.push((sid, h));
            },
            Option::None => {
                proof {
                    assert(spec_snapshot(bm.take(i as int + 1)) =~= spec_snapshot(bm.take(
                        i as int,
                    )));
                }
            },
        }
        i = i + 1;
    }
    proof {
        assert(bm.take(bm.len() as int) =~= bm);
    }
    snap
}

/// Spec-level mirror of [`SetAdvanceOutcome`].
pub enum SetAdvanceOutcomeModel {
    /// A fresh batch of per-subscriber outcomes.
    Batch(Seq<(SubscriberId, Option<OutcomeModel>)>),
    /// The stream ended.
    StreamEnd,
    /// The caller's interrupt won the race.
    Interrupted,
}

/// Spec-level mirror of [`SetAdvanceResult`].
pub enum SetAdvanceResultModel {
    /// The snapshot of the batch.
    Snapshot(Seq<(SubscriberId, HostModel)>),
    /// The stream ended.
    Exhausted,
    /// The wait was interrupted.
    Interrupted,
}

/// What the transport handed a set handle while its cursor was out.
pub enum SetAdvanceOutcome {
    /// A fresh batch of per-subscriber outcomes; a subscriber with no
    /// result this tick carries `None`.
    Batch(Vec<(SubscriberId, Option<FunctionResult>)>),
    /// The stream ended.
    StreamEnd,
    /// The caller's interrupt won the race; the batch was abandoned.
    Interrupted,
}

/// What one whole advance of a set handle yields.
pub enum SetAdvanceResult {
    /// The snapshot: subscribers with a present result, outcomes in
    /// tagged host form.
    Snapshot(Vec<(SubscriberId, HostValue)>),
    /// The stream ended; the handle is spent.
    Exhausted,
    /// The wait was interrupted; the handle is reusable as it stands.
    Interrupted,
}

impl View for SetAdvanceOutcome {
    type V = SetAdvanceOutcomeModel;

    open spec fn view(&self) -> SetAdvanceOutcomeModel {
        match self {
            SetAdvanceOutcome::Batch(b) => SetAdvanceOutcomeModel::Batch(batch_model(b@)),
            SetAdvanceOutcome::StreamEnd => SetAdvanceOutcomeModel::StreamEnd,
            SetAdvanceOutcome::Interrupted => SetAdvanceOutcomeModel::Interrupted,
        }
    }
}

impl View for SetAdvanceResult {
    type V = SetAdvanceResultModel;

    open spec fn view(&self) -> SetAdvanceResultModel {
        match self {
            SetAdvanceResult::Snapshot(s) => SetAdvanceResultModel::Snapshot(snap_model(s@)),
            SetAdvanceResult::Exhausted => SetAdvanceResultModel::Exhausted,
            SetAdvanceResult::Interrupted => SetAdvanceResultModel::Interrupted,
        }
    }
}

/// Returning from a set handle's await, as [`spec_advance_finish`],
/// with the batch projected into its snapshot.
pub open spec fn spec_set_advance_finish(s: SlotState, o: SetAdvanceOutcomeModel) -> (
    SlotState,
    SetAdvanceResultModel,
) {
    let r = match o {
        SetAdvanceOutcomeModel::Batch(b) => SetAdvanceResultModel::Snapshot(spec_snapshot(b)),
        SetAdvanceOutcomeModel::StreamEnd => SetAdvanceResultModel::Exhausted,
        SetAdvanceOutcomeModel::Interrupted => SetAdvanceResultModel::Interrupted,
    };
    match s {
        SlotState::Unsubscribed { by_user } => (s, r),
        _ => match o {
            SetAdvanceOutcomeModel::Batch(_) => (SlotState::Open, r),
            SetAdvanceOutcomeModel::StreamEnd => (SlotState::Unsubscribed { by_user: false }, r),
            SetAdvanceOutcomeModel::Interrupted => (SlotState::Open, r),
        },
    }
}

/// An aggregated cursor over the whole current set of subscriptions;
/// each advance yields a snapshot keyed by subscriber. Same slot
/// discipline as a single handle.
#[derive(Debug, PartialEq, Eq)]
pub struct SubscriptionSetHandle {
    /// Where the cursor stands.
    pub slot: SlotState,
}

impl SubscriptionSetHandle {
    /// A fresh set handle over a live aggregated cursor.
    pub fn new() -> (h: SubscriptionSetHandle)
        ensures
            h.slot == SlotState::Open,
    {
        SubscriptionSetHandle { slot: SlotState::Open }
    }

    /// Whether the handle still owns a live cursor; a pure read of the
    /// slot, never waiting on the transport.
    pub fn is_live(&self) -> (b: bool)
        ensures
            b == exists_of(self.slot),
    {
        match self.slot {
            SlotState::Open => true,
            SlotState::Advancing => true,
            SlotState::Unsubscribed { .. } => false,
        }
    }

    /// Start an advance: atomically take the cursor out of the slot.
    pub fn advance_begin(&mut self) -> (d: AdvanceStart)
        ensures
            (final(self).slot, d) == spec_advance_begin(old(self).slot),
    {
        match self.slot {
            SlotState::Open => {
                self.slot = SlotState::Advancing;
                AdvanceStart::Proceed
            },
            SlotState::Advancing => AdvanceStart::Busy,
            SlotState::Unsubscribed { by_user } => {
                if by_user {
                    AdvanceStart::RequiresReset
                } else {
                    AdvanceStart::Exhausted
                }
            },
        }
    }

    /// Finish an advance: the cursor returns to the slot whatever the
    /// outcome — unless the caller unsubscribed meanwhile — and a
    /// fresh batch is projected into its snapshot.
    pub fn advance_finish(&mut self, outcome: SetAdvanceOutcome) -> (r: SetAdvanceResult)
        requires
            old(self).slot is Advancing || old(self).slot is Unsubscribed,
        ensures
            (final(self).slot, r@) == spec_set_advance_finish(old(self).slot, outcome@),
    {
        let finished = match self.slot {
            SlotState::Unsubscribed { .. } => true,
            _ => false,
        };
        if !finished {
            match &outcome {
                SetAdvanceOutcome::Batch(_) => {
                    self.slot = SlotState::Open;
                },
                SetAdvanceOutcome::StreamEnd => {
                    self.slot = SlotState::Unsubscribed { by_user: false };
                },
                SetAdvanceOutcome::Interrupted => {
                    self.slot = SlotState::Open;
                },
            }
        }
        match outcome {
            SetAdvanceOutcome::Batch(b) => SetAdvanceResult::Snapshot(snapshot_of(&b)),
            SetAdvanceOutcome::StreamEnd => SetAdvanceResult::Exhausted,
            SetAdvanceOutcome::Interrupted => SetAdvanceResult::Interrupted,
        }
    }

    /// Discard the cursor and close the handle for good; idempotent,
    /// and never waits on the transport.
    pub fn unsubscribe(&mut self)
        ensures
            final(self).slot == spec_unsubscribe(old(self).slot),
    {
        let keep = match self.slot {
            SlotState::Unsubscribed { .. } => true,
            _ => false,
        };
        if !keep {
            self.slot = SlotState::Unsubscribed { by_user: true };
        }
    }
}

} // verus!

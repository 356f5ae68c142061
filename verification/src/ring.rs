//! Ring of recent caller activity, with a bounded side-list of fingerprints
//! that outlive the ring's rotation.
//!
//! Whether a caller goes to the side-list is for the admission policy to
//! say: a push takes that decision as a flag.

use vstd::prelude::*;
use crate::codec::{
    decode_caller_entry, encode_caller_entry, entry_score, lemma_decode_inverts_encode,
    packed_entry, valid_caller,
};
use crate::params::{
    BYPASS_FP_SIZE, FP_MASK, MRT_MAX_BYPASS, RING_BUFFER_SIZE, RING_SLOT_SPAN, SCORE_MAX,
};

verus! {

/// One push, as plain values.
pub struct CallerPush {
    pub fingerprint: u64,
    pub score: u8,
    pub current_slot: u64,
    pub bypass: bool,
}

/// What a ring holds, as plain values.
pub struct RingState {
    /// The ring's slots, by index.
    pub recent: Seq<u64>,
    /// Index of the slot that the next push writes.
    pub cursor: int,
    /// Time slot of the oldest slot that the ring still covers.
    pub ring_base_slot: int,
    /// The side-list's slots, by index.
    pub bypass_fingerprints: Seq<u64>,
    /// Index of the side-list slot that the next bypass caller takes.
    pub bypass_fp_cursor: int,
    /// Number of side-list entries that are in use.
    pub bypass_count: int,
}

/// The word that a push stores: the caller's fingerprint and score, with
/// the revoked flag clear.
pub open spec fn pushed_entry(fingerprint: u64, score: u8) -> u64 {
    packed_entry(fingerprint, score, false) as u64
}

/// The base slot after a push at `current_slot`: it moves up just far
/// enough to be `RING_SLOT_SPAN` behind, and stays where that is no move up.
pub open spec fn slid_base(base: int, current_slot: int) -> int {
    if current_slot - base > RING_SLOT_SPAN {
        current_slot - RING_SLOT_SPAN
    } else {
        base
    }
}

/// The state that the six parts of a ring make up.
pub open spec fn state_of(
    recent: Seq<u64>,
    cursor: u8,
    ring_base_slot: u64,
    bypass_fingerprints: Seq<u64>,
    bypass_fp_cursor: u8,
    bypass_count: u8,
) -> RingState {
    RingState {
        recent,
        cursor: cursor as int,
        ring_base_slot: ring_base_slot as int,
        bypass_fingerprints,
        bypass_fp_cursor: bypass_fp_cursor as int,
        bypass_count: bypass_count as int,
    }
}

impl RingState {
    /// Both arrays have their size, both cursors are indices into their
    /// arrays, and the count is within its cap.
    pub open spec fn in_bounds(self) -> bool {
        &&& self.recent.len() == RING_BUFFER_SIZE
        &&& 0 <= self.cursor < RING_BUFFER_SIZE
        &&& 0 <= self.ring_base_slot <= u64::MAX
        &&& self.bypass_fingerprints.len() == BYPASS_FP_SIZE
        &&& 0 <= self.bypass_fp_cursor < BYPASS_FP_SIZE
        &&& 0 <= self.bypass_count <= MRT_MAX_BYPASS
    }

    /// In bounds, every entry of the ring holds a score of at most
    /// `SCORE_MAX`, and every fingerprint of the side-list is within its 56
    /// bits.
    pub open spec fn wf(self) -> bool {
        &&& self.in_bounds()
        &&& forall|i: int|
            0 <= i < self.recent.len() ==> entry_score(#[trigger] self.recent[i]) <= SCORE_MAX
        &&& forall|i: int|
            0 <= i < self.bypass_fingerprints.len() ==> #[trigger] self.bypass_fingerprints[i]
                <= FP_MASK
    }

    /// A ring that has seen no push: all slots zero, at slot zero.
    pub open spec fn empty() -> RingState {
        RingState {
            recent: Seq::new(RING_BUFFER_SIZE as nat, |i: int| 0u64),
            cursor: 0,
            ring_base_slot: 0,
            bypass_fingerprints: Seq::new(BYPASS_FP_SIZE as nat, |i: int| 0u64),
            bypass_fp_cursor: 0,
            bypass_count: 0,
        }
    }

    /// The state after one push.
    pub open spec fn pushed(
        self,
        fingerprint: u64,
        score: u8,
        current_slot: u64,
        bypass: bool,
    ) -> RingState {
        RingState {
            recent: self.recent.update(self.cursor, pushed_entry(fingerprint, score)),
            cursor: (self.cursor + 1) % (RING_BUFFER_SIZE as int),
            ring_base_slot: slid_base(self.ring_base_slot, current_slot as int),
            bypass_fingerprints: if bypass {
                self.bypass_fingerprints.update(self.bypass_fp_cursor, fingerprint)
            } else {
                self.bypass_fingerprints
            },
            bypass_fp_cursor: if bypass {
                (self.bypass_fp_cursor + 1) % (BYPASS_FP_SIZE as int)
            } else {
                self.bypass_fp_cursor
            },
            bypass_count: if bypass && self.bypass_count < MRT_MAX_BYPASS {
                self.bypass_count + 1
            } else {
                self.bypass_count
            },
        }
    }

    /// The state after a run of pushes, first push first.
    pub open spec fn pushed_all(self, pushes: Seq<CallerPush>) -> RingState
        decreases pushes.len(),
    {
        if pushes.len() == 0 {
            self
        } else {
            let p = pushes.last();
            self.pushed_all(pushes.drop_last()).pushed(
                p.fingerprint,
                p.score,
                p.current_slot,
                p.bypass,
            )
        }
    }

    /// The ring's entries in the order they were pushed, oldest first.
    pub open spec fn window(self) -> Seq<u64> {
        Seq::new(
            RING_BUFFER_SIZE as nat,
            |i: int| self.recent[(self.cursor + i) % (RING_BUFFER_SIZE as int)],
        )
    }

    /// The fingerprints that the side-list holds in use, oldest first: the
    /// last `bypass_count` that were written.
    pub open spec fn bypass_list(self) -> Seq<u64> {
        Seq::new(
            self.bypass_count as nat,
            |i: int|
                self.bypass_fingerprints[(self.bypass_fp_cursor + BYPASS_FP_SIZE - self.bypass_count
                    + i) % (BYPASS_FP_SIZE as int)],
        )
    }
}

/// The entries that a run of pushes stores, first push first.
pub open spec fn entries_of(pushes: Seq<CallerPush>) -> Seq<u64> {
    Seq::new(pushes.len(), |i: int| pushed_entry(pushes[i].fingerprint, pushes[i].score))
}

/// The fingerprints that a run of pushes sends to the side-list, first
/// push first.
pub open spec fn bypassed_of(pushes: Seq<CallerPush>) -> Seq<u64>
    decreases pushes.len(),
{
    if pushes.len() == 0 {
        Seq::empty()
    } else if pushes.last().bypass {
        bypassed_of(pushes.drop_last()).push(pushes.last().fingerprint)
    } else {
        bypassed_of(pushes.drop_last())
    }
}

/// The last `MRT_MAX_BYPASS` items of a sequence, or all of it where it
/// has no more.
pub open spec fn newest(items: Seq<u64>) -> Seq<u64> {
    if items.len() <= MRT_MAX_BYPASS {
        items
    } else {
        items.skip(items.len() - MRT_MAX_BYPASS)
    }
}

/// Every push of the run has its fingerprint within 56 bits and its score
/// at most `SCORE_MAX`.
pub open spec fn valid_pushes(pushes: Seq<CallerPush>) -> bool {
    forall|i: int|
        0 <= i < pushes.len() ==> valid_caller(
            (#[trigger] pushes[i]).fingerprint,
            pushes[i].score,
        )
}

/// A push leaves the ring cursor within its array, and the side-list
/// cursor too where the push has the bypass flag, whatever was there
/// before and whatever is pushed. A count within its cap stays within it,
/// wherever the cursors were, and a state in bounds stays in bounds. The
/// base slot does not go back, and ends no more than `RING_SLOT_SPAN`
/// behind the slot of the push.
pub proof fn lemma_pushed_bounds(
    state: RingState,
    fingerprint: u64,
    score: u8,
    current_slot: u64,
    bypass: bool,
)
    ensures
        0 <= state.pushed(fingerprint, score, current_slot, bypass).cursor < RING_BUFFER_SIZE,
        bypass ==> 0 <= state.pushed(fingerprint, score, current_slot, bypass).bypass_fp_cursor
            < BYPASS_FP_SIZE,
        state.bypass_count <= MRT_MAX_BYPASS ==> state.pushed(
            fingerprint,
            score,
            current_slot,
            bypass,
        ).bypass_count <= MRT_MAX_BYPASS,
        state.in_bounds() ==> state.pushed(fingerprint, score, current_slot, bypass).in_bounds(),
        state.ring_base_slot <= state.pushed(
            fingerprint,
            score,
            current_slot,
            bypass,
        ).ring_base_slot,
        current_slot <= state.pushed(fingerprint, score, current_slot, bypass).ring_base_slot
            + RING_SLOT_SPAN,
{
}

/// A push of a valid caller keeps the scores of the ring's entries and the
/// width of the side-list's fingerprints.
pub proof fn lemma_pushed_wf(
    state: RingState,
    fingerprint: u64,
    score: u8,
    current_slot: u64,
    bypass: bool,
)
    requires
        state.wf(),
        valid_caller(fingerprint, score),
    ensures
        state.pushed(fingerprint, score, current_slot, bypass).wf(),
{
    lemma_decode_inverts_encode(fingerprint, score, false);
}

/// A push drops the oldest entry of the window and appends its own.
pub proof fn lemma_pushed_window(
    state: RingState,
    fingerprint: u64,
    score: u8,
    current_slot: u64,
    bypass: bool,
)
    requires
        state.in_bounds(),
    ensures
        state.pushed(fingerprint, score, current_slot, bypass).window()
            == state.window().drop_first().push(pushed_entry(fingerprint, score)),
{
    let after = state.pushed(fingerprint, score, current_slot, bypass);
    assert(after.window() =~= state.window().drop_first().push(pushed_entry(fingerprint, score)));
}

/// A push with the bypass flag appends the fingerprint to the bypass list,
/// and drops the oldest one where the list was at its cap. A push without
/// it leaves the list alone.
pub proof fn lemma_pushed_bypass_list(
    state: RingState,
    fingerprint: u64,
    score: u8,
    current_slot: u64,
    bypass: bool,
)
    requires
        state.in_bounds(),
    ensures
        !bypass ==> state.pushed(fingerprint, score, current_slot, bypass).bypass_list()
            == state.bypass_list(),
        bypass && state.bypass_count < MRT_MAX_BYPASS ==> state.pushed(
            fingerprint,
            score,
            current_slot,
            bypass,
        ).bypass_list() == state.bypass_list().push(fingerprint),
        bypass && state.bypass_count == MRT_MAX_BYPASS ==> state.pushed(
            fingerprint,
            score,
            current_slot,
            bypass,
        ).bypass_list() == state.bypass_list().drop_first().push(fingerprint),
{
    let after = state.pushed(fingerprint, score, current_slot, bypass);
    if !bypass {
        assert(after.bypass_list() =~= state.bypass_list());
    } else if state.bypass_count < MRT_MAX_BYPASS {
        assert(after.bypass_list() =~= state.bypass_list().push(fingerprint));
    } else {
        assert(after.bypass_list() =~= state.bypass_list().drop_first().push(fingerprint));
    }
}

/// After any run of pushes a count that began within its cap is within
/// it, wherever the cursors began, and the base slot has not gone back.
pub proof fn lemma_pushed_all_count(state: RingState, pushes: Seq<CallerPush>)
    requires
        state.bypass_count <= MRT_MAX_BYPASS,
    ensures
        state.pushed_all(pushes).bypass_count <= MRT_MAX_BYPASS,
        state.ring_base_slot <= state.pushed_all(pushes).ring_base_slot,
    decreases pushes.len(),
{
    if pushes.len() > 0 {
        let p = pushes.last();
        lemma_pushed_all_count(state, pushes.drop_last());
        lemma_pushed_bounds(
            state.pushed_all(pushes.drop_last()),
            p.fingerprint,
            p.score,
            p.current_slot,
            p.bypass,
        );
    }
}

/// After any run of pushes from a state in bounds both cursors are within
/// their arrays and the count is within its cap. The ring cursor has gone
/// round by the length of the run, and the window holds the last
/// `RING_BUFFER_SIZE` entries of what it held followed by what was pushed.
pub proof fn lemma_pushed_all(state: RingState, pushes: Seq<CallerPush>)
    requires
        state.in_bounds(),
    ensures
        state.pushed_all(pushes).in_bounds(),
        state.pushed_all(pushes).cursor < RING_BUFFER_SIZE,
        state.pushed_all(pushes).bypass_fp_cursor < BYPASS_FP_SIZE,
        state.pushed_all(pushes).bypass_count <= MRT_MAX_BYPASS,
        state.pushed_all(pushes).cursor == (state.cursor + pushes.len()) % (
        RING_BUFFER_SIZE as int),
        state.pushed_all(pushes).window() == (state.window() + entries_of(pushes)).skip(
            pushes.len() as int,
        ),
    decreases pushes.len(),
{
    if pushes.len() == 0 {
        assert(state.window() =~= (state.window() + entries_of(pushes)).skip(0));
    } else {
        let p = pushes.last();
        let before = state.pushed_all(pushes.drop_last());
        lemma_pushed_all(state, pushes.drop_last());
        lemma_pushed_bounds(before, p.fingerprint, p.score, p.current_slot, p.bypass);
        lemma_pushed_window(before, p.fingerprint, p.score, p.current_slot, p.bypass);
        let joined = state.window() + entries_of(pushes);
        let joined_before = state.window() + entries_of(pushes.drop_last());
        assert(joined =~= joined_before.push(pushed_entry(p.fingerprint, p.score)));
        assert(joined_before.skip(pushes.len() - 1).drop_first().push(
            pushed_entry(p.fingerprint, p.score),
        ) =~= joined.skip(pushes.len() as int));
    }
}

/// After any run of pushes the bypass list holds the newest
/// `MRT_MAX_BYPASS` fingerprints of what it held followed by what the run
/// sent to the side-list.
pub proof fn lemma_pushed_all_bypass_list(state: RingState, pushes: Seq<CallerPush>)
    requires
        state.in_bounds(),
    ensures
        state.pushed_all(pushes).bypass_list() == newest(
            state.bypass_list() + bypassed_of(pushes),
        ),
    decreases pushes.len(),
{
    if pushes.len() == 0 {
        assert(state.bypass_list() + bypassed_of(pushes) =~= state.bypass_list());
    } else {
        let p = pushes.last();
        let before = state.pushed_all(pushes.drop_last());
        let sent_before = state.bypass_list() + bypassed_of(pushes.drop_last());
        lemma_pushed_all(state, pushes.drop_last());
        lemma_pushed_all_bypass_list(state, pushes.drop_last());
        lemma_pushed_bypass_list(before, p.fingerprint, p.score, p.current_slot, p.bypass);
        if p.bypass {
            let sent = state.bypass_list() + bypassed_of(pushes);
            assert(sent =~= sent_before.push(p.fingerprint));
            if before.bypass_count < MRT_MAX_BYPASS {
                assert(newest(sent_before).push(p.fingerprint) =~= newest(sent));
            } else {
                assert(newest(sent_before).drop_first().push(p.fingerprint) =~= newest(sent));
            }
        }
    }
}

/// After any run of pushes of valid callers the ring is well-formed.
pub proof fn lemma_pushed_all_wf(state: RingState, pushes: Seq<CallerPush>)
    requires
        state.wf(),
        valid_pushes(pushes),
    ensures
        state.pushed_all(pushes).wf(),
    decreases pushes.len(),
{
    if pushes.len() > 0 {
        let p = pushes.last();
        assert(valid_pushes(pushes.drop_last())) by {
            assert forall|i: int| 0 <= i < pushes.drop_last().len() implies valid_caller(
                (#[trigger] pushes.drop_last()[i]).fingerprint,
                pushes.drop_last()[i].score,
            ) by {
                assert(pushes.drop_last()[i] == pushes[i]);
            }
        }
        lemma_pushed_all_wf(state, pushes.drop_last());
        lemma_pushed_wf(
            state.pushed_all(pushes.drop_last()),
            p.fingerprint,
            p.score,
            p.current_slot,
            p.bypass,
        );
    }
}

/// The ring of recent callers and its side-list. Both cursors are always
/// indices into their arrays, the count never exceeds `MRT_MAX_BYPASS`, no
/// entry holds a score above `SCORE_MAX`, and no fingerprint of the
/// side-list is wider than 56 bits.
pub struct RecentCallerRing {
    recent: [u64; RING_BUFFER_SIZE],
    cursor: u8,
    ring_base_slot: u64,
    bypass_fingerprints: [u64; BYPASS_FP_SIZE],
    bypass_fp_cursor: u8,
    bypass_count: u8,
}

impl View for RecentCallerRing {
    type V = RingState;

    closed spec fn view(&self) -> RingState {
        state_of(
            self.recent@,
            self.cursor,
            self.ring_base_slot,
            self.bypass_fingerprints@,
            self.bypass_fp_cursor,
            self.bypass_count,
        )
    }
}

impl RecentCallerRing {
    #[verifier::type_invariant]
    spec fn well_formed(&self) -> bool {
        self@.wf()
    }

    /// A ring that has seen no push.
    pub fn new() -> (ring: Self)
        ensures
            ring@ == RingState::empty(),
    {
        let recent: [u64; RING_BUFFER_SIZE] = [0u64; RING_BUFFER_SIZE];
        let bypass_fingerprints: [u64; BYPASS_FP_SIZE] = [0u64; BYPASS_FP_SIZE];
        assert(recent@ =~= RingState::empty().recent);
        assert(bypass_fingerprints@ =~= RingState::empty().bypass_fingerprints);
        RecentCallerRing {
            recent,
            cursor: 0,
            ring_base_slot: 0,
            bypass_fingerprints,
            bypass_fp_cursor: 0,
            bypass_count: 0,
        }
    }

    /// Takes over the parts of a ring, unless a cursor is outside its
    /// array, the count is above its cap, an entry holds a score above
    /// `SCORE_MAX`, or a fingerprint of the side-list is wider than 56 bits.
    pub fn from_parts(
        recent: [u64; RING_BUFFER_SIZE],
        cursor: u8,
        ring_base_slot: u64,
        bypass_fingerprints: [u64; BYPASS_FP_SIZE],
        bypass_fp_cursor: u8,
        bypass_count: u8,
    ) -> (ring: Option<Self>)
        ensures
            ring is Some <==> state_of(
                recent@,
                cursor,
                ring_base_slot,
                bypass_fingerprints@,
                bypass_fp_cursor,
                bypass_count,
            ).wf(),
            ring matches Some(r) ==> r@ == state_of(
                recent@,
                cursor,
                ring_base_slot,
                bypass_fingerprints@,
                bypass_fp_cursor,
                bypass_count,
            ),
    {
        if cursor as usize >= RING_BUFFER_SIZE || bypass_fp_cursor as usize >= BYPASS_FP_SIZE
            || bypass_count > MRT_MAX_BYPASS {
            return None;
        }
        let mut i: usize = 0;
        while i < RING_BUFFER_SIZE
            invariant
                i <= RING_BUFFER_SIZE,
                forall|j: int| 0 <= j < i ==> entry_score(#[trigger] recent@[j]) <= SCORE_MAX,
            decreases RING_BUFFER_SIZE - i,
        {
            let fields = decode_caller_entry(recent[i]);
            if fields.1 > SCORE_MAX {
                return None;
            }
            i += 1;
        }
        let mut k: usize = 0;
        while k < BYPASS_FP_SIZE
            invariant
                k <= BYPASS_FP_SIZE,
                forall|j: int| 0 <= j < k ==> #[trigger] bypass_fingerprints@[j] <= FP_MASK,
            decreases BYPASS_FP_SIZE - k,
        {
            if bypass_fingerprints[k] > FP_MASK {
                return None;
            }
            k += 1;
        }
        Some(
            RecentCallerRing {
                recent,
                cursor,
                ring_base_slot,
                bypass_fingerprints,
                bypass_fp_cursor,
                bypass_count,
            },
        )
    }

    /// Index of the slot that the next push writes.
    pub fn cursor(&self) -> (cursor: u8)
        ensures
            cursor == self@.cursor,
            cursor < RING_BUFFER_SIZE,
            self@.wf(),
    {
        proof {
            use_type_invariant(self);
        }
        self.cursor
    }

    /// Time slot of the oldest slot that the ring still covers.
    pub fn ring_base_slot(&self) -> (slot: u64)
        ensures
            slot == self@.ring_base_slot,
    {
        self.ring_base_slot
    }

    /// Index of the side-list slot that the next bypass caller takes.
    pub fn bypass_fp_cursor(&self) -> (cursor: u8)
        ensures
            cursor == self@.bypass_fp_cursor,
            cursor < BYPASS_FP_SIZE,
            self@.wf(),
    {
        proof {
            use_type_invariant(self);
        }
        self.bypass_fp_cursor
    }

    /// Number of side-list entries that are in use.
    pub fn bypass_count(&self) -> (count: u8)
        ensures
            count == self@.bypass_count,
            count <= MRT_MAX_BYPASS,
            self@.wf(),
    {
        proof {
            use_type_invariant(self);
        }
        self.bypass_count
    }

    /// The entry in one slot of the ring, if there is such a slot. Its
    /// score is at most `SCORE_MAX`.
    pub fn recent_at(&self, index: usize) -> (entry: Option<u64>)
        ensures
            entry == if index < RING_BUFFER_SIZE {
                Some(self@.recent[index as int])
            } else {
                None
            },
            entry matches Some(word) ==> entry_score(word) <= SCORE_MAX,
    {
        proof {
            use_type_invariant(self);
        }
        if index < RING_BUFFER_SIZE {
            Some(self.recent[index])
        } else {
            None
        }
    }

    /// The fingerprint in one slot of the side-list, if there is such a
    /// slot. It is within 56 bits.
    pub fn bypass_fingerprint_at(&self, index: usize) -> (fingerprint: Option<u64>)
        ensures
            fingerprint == if index < BYPASS_FP_SIZE {
                Some(self@.bypass_fingerprints[index as int])
            } else {
                None
            },
            fingerprint matches Some(fp) ==> fp <= FP_MASK,
    {
        proof {
            use_type_invariant(self);
        }
        if index < BYPASS_FP_SIZE {
            Some(self.bypass_fingerprints[index])
        } else {
            None
        }
    }

    /// The ring's entries in the order they were pushed, oldest first.
    pub fn recent_entries(&self) -> (entries: Vec<u64>)
        ensures
            entries@ == self@.window(),
    {
        proof {
            use_type_invariant(self);
        }
        let mut entries: Vec<u64> = Vec::new();
        let mut i: usize = 0;
        while i < RING_BUFFER_SIZE
            invariant
                i <= RING_BUFFER_SIZE,
                self.cursor < RING_BUFFER_SIZE,
                entries@.len() == i,
                forall|j: int| 0 <= j < i ==> entries@[j] == self@.window()[j],
            decreases RING_BUFFER_SIZE - i,
        {
            let at: usize = (self.cursor as usize + i) % RING_BUFFER_SIZE;
            entries.push(self.recent[at]);
            i += 1;
        }
        assert(entries@ =~= self@.window());
        entries
    }

    /// The fingerprints that the side-list holds in use, oldest first.
    pub fn bypass_entries(&self) -> (fingerprints: Vec<u64>)
        ensures
            fingerprints@ == self@.bypass_list(),
    {
        proof {
            use_type_invariant(self);
        }
        let count: usize = self.bypass_count as usize;
        let start: usize = self.bypass_fp_cursor as usize + BYPASS_FP_SIZE - count;
        let mut fingerprints: Vec<u64> = Vec::new();
        let mut i: usize = 0;
        while i < count
            invariant
                i <= count,
                count == self.bypass_count,
                count <= MRT_MAX_BYPASS,
                self.bypass_fp_cursor < BYPASS_FP_SIZE,
                start == self.bypass_fp_cursor + BYPASS_FP_SIZE - count,
                fingerprints@.len() == i,
                forall|j: int| 0 <= j < i ==> fingerprints@[j] == self@.bypass_list()[j],
            decreases count - i,
        {
            let at: usize = (start + i) % BYPASS_FP_SIZE;
            fingerprints.push(self.bypass_fingerprints[at]);
            i += 1;
        }
        assert(fingerprints@ =~= self@.bypass_list());
        fingerprints
    }
}

/// Records a caller's activity at a time slot.
///
/// The caller's entry, its fingerprint and score with the revoked flag
/// clear, goes into the slot under the cursor, and the cursor moves on by
/// one, from the last slot back to the first. The base slot moves up where
/// `current_slot` is more than `RING_SLOT_SPAN` ahead of it. Where `bypass`
/// is set, as the admission policy decides, the fingerprint also goes into
/// the side-list under its cursor, that cursor moves on in the same way, and
/// the count goes up by one unless it is at `MRT_MAX_BYPASS`.
pub fn push_caller_mrt(
    ring: &mut RecentCallerRing,
    fingerprint: u64,
    score: u8,
    current_slot: u64,
    bypass: bool,
)
    requires
        valid_caller(fingerprint, score),
    ensures
        final(ring)@ == old(ring)@.pushed(fingerprint, score, current_slot, bypass),
        final(ring)@.wf(),
        final(ring)@.cursor < RING_BUFFER_SIZE,
        final(ring)@.bypass_fp_cursor < BYPASS_FP_SIZE,
        final(ring)@.bypass_count <= MRT_MAX_BYPASS,
        old(ring)@.ring_base_slot <= final(ring)@.ring_base_slot,
        current_slot <= final(ring)@.ring_base_slot + RING_SLOT_SPAN,
{
    proof {
        use_type_invariant(&*ring);
        lemma_pushed_bounds(ring@, fingerprint, score, current_slot, bypass);
        lemma_pushed_wf(ring@, fingerprint, score, current_slot, bypass);
        lemma_decode_inverts_encode(fingerprint, score, false);
    }
    let entry: u64 = encode_caller_entry(fingerprint, score, false);
    ring.recent[ring.cursor as usize] = entry;
    ring.cursor = ((ring.cursor as usize + 1) % RING_BUFFER_SIZE) as u8;
    if current_slot > ring.ring_base_slot && current_slot - ring.ring_base_slot > RING_SLOT_SPAN {
        ring.ring_base_slot = current_slot - RING_SLOT_SPAN;
    }
    if bypass {
        ring.bypass_fingerprints[ring.bypass_fp_cursor as usize] = fingerprint;
        ring.bypass_fp_cursor = ((ring.bypass_fp_cursor as usize + 1) % BYPASS_FP_SIZE) as u8;
        if ring.bypass_count < MRT_MAX_BYPASS {
            ring.bypass_count = ring.bypass_count + 1;
        }
    }
}

/// Runs one push from the given starting values over zeroed arrays, the
/// two cursors first brought into their arrays by remainder and the
/// fingerprint masked to its width, and hands back the ring cursor, the
/// side-list cursor and the count: all three are within their bounds.
pub fn proof_push_caller_mrt_cursor_and_bounds(
    cursor: u8,
    ring_base_slot: u64,
    bypass_count: u8,
    bypass_fp_cursor: u8,
    fingerprint: u64,
    score: u8,
    current_slot: u64,
    bypass: bool,
) -> (after: (u8, u8, u8))
    requires
        bypass_count <= MRT_MAX_BYPASS,
        score <= SCORE_MAX,
    ensures
        after.0 < RING_BUFFER_SIZE,
        after.1 < BYPASS_FP_SIZE,
        after.2 <= MRT_MAX_BYPASS,
        after.0 == (cursor as int % (RING_BUFFER_SIZE as int) + 1) % (RING_BUFFER_SIZE as int),
        after.1 == if bypass {
            (bypass_fp_cursor as int % (BYPASS_FP_SIZE as int) + 1) % (BYPASS_FP_SIZE as int)
        } else {
            bypass_fp_cursor as int % (BYPASS_FP_SIZE as int)
        },
        after.2 == if bypass && bypass_count < MRT_MAX_BYPASS {
            bypass_count + 1
        } else {
            bypass_count as int
        },
{
    let start = RecentCallerRing::from_parts(
        [0u64; RING_BUFFER_SIZE],
        (cursor as usize % RING_BUFFER_SIZE) as u8,
        ring_base_slot,
        [0u64; BYPASS_FP_SIZE],
        (bypass_fp_cursor as usize % BYPASS_FP_SIZE) as u8,
        bypass_count,
    );
    let mut ring = start.unwrap();
    assert(fingerprint & FP_MASK <= FP_MASK) by (bit_vector);
    push_caller_mrt(&mut ring, fingerprint & FP_MASK, score, current_slot, bypass);
    (ring.cursor(), ring.bypass_fp_cursor(), ring.bypass_count())
}

} // verus!

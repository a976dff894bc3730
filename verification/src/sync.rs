use std::collections::VecDeque;

use vstd::prelude::*;

use crate::error::RollbackError;
use crate::state::{lemma_run_append, lemma_step_slice, run, step, RollbackState};

verus! {

/// Stores all player inputs for a specific frame.
pub struct FrameInputs<I> {
    pub frame: u32,
    pub inputs: Vec<I>,
    /// Records which inputs are predicted and which are real/confirmed.
    pub is_predicted: Vec<bool>,
}

/// The mathematical value of a [`FrameInputs`].
pub struct FrameRecord<I> {
    pub frame: u32,
    pub inputs: Seq<I>,
    pub predicted: Seq<bool>,
}

impl<I> FrameRecord<I> {
    /// No input of this frame is a prediction.
    pub open spec fn fully_confirmed(self) -> bool {
        forall|p: int| 0 <= p < self.predicted.len() ==> !#[trigger] self.predicted[p]
    }
}

impl<I> View for FrameInputs<I> {
    type V = FrameRecord<I>;

    open spec fn view(&self) -> FrameRecord<I> {
        FrameRecord { frame: self.frame, inputs: self.inputs@, predicted: self.is_predicted@ }
    }
}

impl<I> FrameInputs<I> {
    /// Returns true if all inputs for this frame are confirmed.
    pub fn is_fully_confirmed(&self) -> (r: bool)
        ensures
            r == self@.fully_confirmed(),
    {
        let n = self.is_predicted.len();
        let mut i: usize = 0;
        while i < n
            invariant
                n == self.is_predicted@.len(),
                i <= n,
                forall|p: int| 0 <= p < i ==> !#[trigger] self.is_predicted@[p],
            decreases n - i,
        {
            if self.is_predicted[i] {
                assert(self@.predicted[i as int]);
                return false;
            }
            i = i + 1;
        }
        true
    }
}

/// The mathematical value of a [`RollbackSession`].
pub struct SessionModel<S: RollbackState> {
    /// The current, possibly predicted, state.
    pub current_state: S,
    /// The next frame to simulate.
    pub current_frame: u32,
    /// The latest confirmed state.
    pub confirmed_state: S,
    /// The frame that follows the last confirmed one.
    pub confirmed_frame: u32,
    /// Saved states: `(frame, state before that frame was simulated)`.
    pub snapshots: Seq<(u32, S)>,
    /// The inputs of the frames simulated but not yet confirmed, oldest first.
    pub pending: Seq<FrameRecord<S::Input>>,
    pub player_count: usize,
    pub max_rollback_frames: u32,
    pub max_input_delay: u32,
    pub input_delay: u32,
    /// Delayed local inputs: `(target frame, player, input)`.
    pub local_queue: Seq<(u32, usize, S::Input)>,
    /// The state the session started from.
    pub origin: S,
    /// The inputs of every confirmed frame, oldest first.
    pub log: Seq<Seq<S::Input>>,
    /// The inputs of the last confirmed frame (empty before any frame is confirmed).
    pub last_confirmed: Seq<S::Input>,
    /// The input predicted for every player before any input is known (`Default`).
    pub neutral: S::Input,
}

impl<S: RollbackState> SessionModel<S> {
    /// The inputs of the pending frames, oldest first.
    pub open spec fn pending_inputs(self) -> Seq<Seq<S::Input>> {
        self.pending.map_values(|r: FrameRecord<S::Input>| r.inputs)
    }

    /// How many snapshots are kept at most.
    pub open spec fn snapshot_capacity(self) -> nat {
        if self.max_rollback_frames == 0 { 1 } else { self.max_rollback_frames as nat }
    }

    /// The bookkeeping invariant, which holds between any two steps of the engine:
    /// the pending frames are exactly `confirmed_frame .. current_frame`, each with one input
    /// and one prediction flag per player; the snapshots are those of the latest
    /// `min(pending, capacity)` frames; and the log holds one entry per confirmed frame, through
    /// which the origin leads to the confirmed state.
    pub open spec fn frames_wf(self) -> bool {
        &&& self.confirmed_frame + self.pending.len() == self.current_frame
        &&& forall|i: int| 0 <= i < self.pending.len() ==> #[trigger] self.pending[i].frame == self.confirmed_frame + i
        &&& forall|i: int| 0 <= i < self.pending.len() ==> (#[trigger] self.pending[i]).inputs.len() == self.player_count
            && self.pending[i].predicted.len() == self.player_count
        &&& self.snapshots.len() == if self.pending.len() < self.snapshot_capacity() {
            self.pending.len()
        } else {
            self.snapshot_capacity()
        }
        &&& forall|j: int| 0 <= j < self.snapshots.len() ==> #[trigger] self.snapshots[j].0 == self.current_frame - self.snapshots.len() + j
        &&& self.log.len() == self.confirmed_frame
        &&& self.confirmed_state == run(self.origin, self.log)
        &&& self.last_confirmed == if self.log.len() > 0 { self.log.last() } else { Seq::empty() }
        &&& self.log.len() > 0 ==> self.log.last().len() == self.player_count
    }

    /// The session invariant: the bookkeeping invariant, and never more pending frames than
    /// `max_input_delay`.
    pub open spec fn wf(self) -> bool {
        &&& self.frames_wf()
        &&& self.pending.len() <= self.max_input_delay
    }

    /// The states agree with the inputs: the current state is the confirmed state advanced
    /// through every pending frame, and each snapshot is the confirmed state advanced up to
    /// its frame.
    pub open spec fn consistent(self) -> bool {
        &&& self.current_state == run(self.confirmed_state, self.pending_inputs())
        &&& forall|j: int| 0 <= j < self.snapshots.len() ==> #[trigger] self.snapshots[j].1 == run(
            self.confirmed_state,
            self.pending_inputs().take(self.snapshots[j].0 - self.confirmed_frame),
        )
    }

    /// Pending frame `i` stops confirmation: it still holds a prediction and has waited no
    /// longer than `max_input_delay` frames.
    pub open spec fn blocked(self, i: int) -> bool {
        &&& !self.pending[i].fully_confirmed()
        &&& self.pending.len() - i <= self.max_input_delay
    }

    /// The first pending frame at or after `i` that stops confirmation (or the count of pending frames).
    pub open spec fn first_blocked_from(self, i: nat) -> nat
        decreases self.pending.len() - i,
    {
        if i >= self.pending.len() {
            self.pending.len()
        } else if self.blocked(i as int) {
            i
        } else {
            self.first_blocked_from(i + 1)
        }
    }

    /// How many pending frames the next confirmation step confirms.
    pub open spec fn confirm_count(self) -> nat {
        self.first_blocked_from(0)
    }

    /// How many of the oldest snapshots fall before frame `confirmed_frame + k`.
    pub open spec fn snapshots_before(self, k: nat) -> nat {
        if self.snapshots.len() + k > self.pending.len() {
            (self.snapshots.len() + k - self.pending.len()) as nat
        } else {
            0
        }
    }

    /// The model after confirming the oldest `k` pending frames.
    pub open spec fn confirm_first(self, k: nat) -> Self {
        SessionModel {
            confirmed_state: run(self.confirmed_state, self.pending_inputs().take(k as int)),
            confirmed_frame: (self.confirmed_frame + k) as u32,
            log: self.log + self.pending_inputs().take(k as int),
            last_confirmed: if k > 0 { self.pending_inputs()[k - 1] } else { self.last_confirmed },
            pending: self.pending.skip(k as int),
            snapshots: self.snapshots.skip(self.snapshots_before(k) as int),
            ..self
        }
    }

    /// The model after the confirmation step: every leading pending frame that is fully
    /// confirmed, or older than `max_input_delay` frames, is confirmed.
    pub open spec fn settled(self) -> Self {
        self.confirm_first(self.confirm_count())
    }
}

impl<S: RollbackState> SessionModel<S> {
    /// Delayed local input `k` is due now for player `pid`.
    pub open spec fn is_due(self, k: int, pid: usize) -> bool {
        self.local_queue[k].0 == self.current_frame && self.local_queue[k].1 == pid
    }

    /// The first delayed local input at or after `i` that is due now for `pid` (or the queue length).
    pub open spec fn first_due_from(self, pid: usize, i: nat) -> nat
        decreases self.local_queue.len() - i,
    {
        if i >= self.local_queue.len() {
            self.local_queue.len()
        } else if self.is_due(i as int, pid) {
            i
        } else {
            self.first_due_from(pid, i + 1)
        }
    }

    /// The position of the delayed local input that the next frame consumes for `pid`
    /// (the queue length where there is none).
    pub open spec fn due_index(self, pid: usize) -> nat {
        self.first_due_from(pid, 0)
    }

    /// Repeat-last-frame prediction: a player's last known input, that is its input in the
    /// frame before the next one, whether that frame is still pending or already confirmed;
    /// the neutral input before any frame was simulated.
    pub open spec fn predicted_input(self, p: int) -> S::Input {
        if self.pending.len() > 0 {
            self.pending.last().inputs[p]
        } else if self.log.len() > 0 {
            self.log.last()[p]
        } else {
            self.neutral
        }
    }

    /// The inputs recorded for the next frame when `pid` is the local player: the due
    /// delayed local input for `pid`, if any, and the prediction for every other slot.
    pub open spec fn next_record(self, pid: usize) -> FrameRecord<S::Input> {
        let k = self.due_index(pid);
        let found = k < self.local_queue.len();
        FrameRecord {
            frame: self.current_frame,
            inputs: Seq::new(
                self.player_count as nat,
                |p: int| if found && p == pid { self.local_queue[k as int].2 } else { self.predicted_input(p) },
            ),
            predicted: Seq::new(self.player_count as nat, |p: int| !(found && p == pid)),
        }
    }

    /// The snapshots after saving the current state for the current frame, the oldest being
    /// dropped when `max_rollback_frames` are already kept.
    pub open spec fn snapshots_after_save(self) -> Seq<(u32, S)> {
        let kept = if self.snapshots.len() >= self.max_rollback_frames && self.snapshots.len() > 0 {
            self.snapshots.skip(1)
        } else {
            self.snapshots
        };
        kept.push((self.current_frame, self.current_state))
    }

    /// The model after simulating one frame with `pid` as the local player, before confirmation.
    pub open spec fn simulated(self, pid: usize) -> Self {
        let rec = self.next_record(pid);
        let k = self.due_index(pid);
        SessionModel {
            current_state: step(self.current_state, rec.inputs),
            current_frame: (self.current_frame + 1) as u32,
            snapshots: self.snapshots_after_save(),
            pending: self.pending.push(rec),
            local_queue: if k < self.local_queue.len() {
                self.local_queue.remove(k as int)
            } else {
                self.local_queue
            },
            ..self
        }
    }

    /// The model after `pid` submits `input`: it is queued for frame `current_frame + input_delay`.
    pub open spec fn queued(self, pid: usize, input: S::Input) -> Self {
        SessionModel {
            local_queue: self.local_queue.push(((self.current_frame + self.input_delay) as u32, pid, input)),
            ..self
        }
    }
}

impl<S: RollbackState> SessionModel<S> {
    /// The position of `frame` among the pending frames, if it is pending.
    pub open spec fn position(self, frame: u32) -> Option<int> {
        if self.confirmed_frame <= frame < self.current_frame {
            Some(frame - self.confirmed_frame)
        } else {
            None
        }
    }

    /// The model after recording `input` as the real input of player `pid` in pending frame `i`.
    pub open spec fn with_input(self, pid: usize, i: int, input: S::Input) -> Self {
        let rec = self.pending[i];
        SessionModel {
            pending: self.pending.update(
                i,
                FrameRecord { frame: rec.frame, inputs: rec.inputs.update(pid as int, input), predicted: rec.predicted.update(pid as int, false) },
            ),
            ..self
        }
    }

    /// Pending frame `i` holds a prediction for `pid` that differs from `input`.
    pub open spec fn mispredicted(self, pid: usize, i: int, input: S::Input) -> bool {
        &&& self.pending[i].predicted[pid as int]
        &&& self.pending[i].inputs[pid as int] != input
    }

    /// The model after recording `input` as the real input of `pid` at `frame` (no change
    /// where `frame` is not pending).
    pub open spec fn with_remote_input(self, pid: usize, frame: u32, input: S::Input) -> Self {
        match self.position(frame) {
            Some(i) => self.with_input(pid, i, input),
            None => self,
        }
    }

    /// Recording `input` for `pid` at `frame` corrects a wrong prediction.
    pub open spec fn corrects(self, pid: usize, frame: u32, input: S::Input) -> bool {
        match self.position(frame) {
            Some(i) => self.mispredicted(pid, i, input),
            None => false,
        }
    }

    /// Delivering `input` for `pid` at pending frame `i` does not contradict an input already
    /// recorded there as real.
    pub open spec fn agrees(self, pid: usize, i: int, input: S::Input) -> bool {
        !self.pending[i].predicted[pid as int] ==> self.pending[i].inputs[pid as int] == input
    }

    /// The inputs recorded for every frame simulated so far, oldest first: those of the
    /// confirmed frames, then those of the pending frames.
    pub open spec fn recorded_inputs(self) -> Seq<Seq<S::Input>> {
        self.log + self.pending_inputs()
    }

    /// Pending frame `i` falls in the batch `inputs` that starts at frame `start`.
    pub open spec fn in_batch(self, start: u32, inputs: Seq<S::Input>, i: int) -> bool {
        start <= self.confirmed_frame + i < start + inputs.len()
    }

    /// The input that the batch gives for pending frame `i`.
    pub open spec fn batch_input(self, start: u32, inputs: Seq<S::Input>, i: int) -> S::Input {
        inputs[self.confirmed_frame + i - start]
    }

    /// The model after recording the batch `inputs` (for frames `start`, `start + 1`, ...) as
    /// real inputs of `pid`; frames that are not pending are left alone.
    pub open spec fn with_remote_inputs(self, pid: usize, start: u32, inputs: Seq<S::Input>) -> Self {
        SessionModel {
            pending: Seq::new(
                self.pending.len(),
                |i: int| {
                    let rec = self.pending[i];
                    if self.in_batch(start, inputs, i) {
                        FrameRecord {
                            frame: rec.frame,
                            inputs: rec.inputs.update(pid as int, self.batch_input(start, inputs, i)),
                            predicted: rec.predicted.update(pid as int, false),
                        }
                    } else {
                        rec
                    }
                },
            ),
            ..self
        }
    }

    /// The result of `add_remote_input(pid, frame, input)`: `InvalidPlayerId` for an invalid
    /// player, `InputTooOld` for a frame older than the confirmed frame, `RollbackTooFar`
    /// where the input corrects a prediction more than `max_rollback_frames` frames back, and
    /// `Ok` otherwise.
    pub open spec fn single_result(self, pid: usize, frame: u32, input: S::Input) -> Result<(), RollbackError> {
        if pid >= self.player_count {
            Err(RollbackError::InvalidPlayerId { player_id: pid, player_count: self.player_count })
        } else if frame < self.confirmed_frame {
            Err(RollbackError::InputTooOld { frame, confirmed_frame: self.confirmed_frame })
        } else if self.corrects(pid, frame, input) && self.too_far(frame) {
            Err(RollbackError::RollbackTooFar { needed: self.rollback_depth(frame) as u32, max: self.max_rollback_frames })
        } else {
            Ok(())
        }
    }

    /// The result of `add_remote_inputs(pid, start, inputs)`: `InvalidPlayerId` for an
    /// invalid player, `RollbackTooFar` where the earliest corrected prediction lies more than
    /// `max_rollback_frames` frames back, and `Ok` otherwise (an empty batch included).
    pub open spec fn batch_result(self, pid: usize, start: u32, inputs: Seq<S::Input>) -> Result<(), RollbackError> {
        let e = self.first_correction(pid, start, inputs);
        let f = (self.confirmed_frame + e) as u32;
        if pid >= self.player_count {
            Err(RollbackError::InvalidPlayerId { player_id: pid, player_count: self.player_count })
        } else if inputs.len() > 0 && e < self.pending.len() && self.too_far(f) {
            Err(RollbackError::RollbackTooFar { needed: self.rollback_depth(f) as u32, max: self.max_rollback_frames })
        } else {
            Ok(())
        }
    }

    /// The model after `add_remote_input(pid, frame, input)`: an invalid player or a frame
    /// older than the confirmed frame changes nothing; a correction that would rewind too far
    /// records the input without re-simulating or confirming.
    pub open spec fn single_delivery(self, pid: usize, frame: u32, input: S::Input) -> Self {
        if pid >= self.player_count || frame < self.confirmed_frame {
            self
        } else {
            let m1 = self.with_remote_input(pid, frame, input);
            if self.corrects(pid, frame, input) && self.too_far(frame) {
                m1
            } else if self.corrects(pid, frame, input) {
                m1.rolled_back(frame).settled()
            } else {
                m1.settled()
            }
        }
    }

    /// The model after delivering the inputs `xs` of `pid` one at a time with
    /// `add_remote_input`, for frames `start`, `start + 1`, ... in that order.
    pub open spec fn single_deliveries(self, pid: usize, start: u32, xs: Seq<S::Input>) -> Self
        decreases xs.len(),
    {
        if xs.len() == 0 {
            self
        } else {
            self.single_deliveries(pid, start, xs.drop_last()).single_delivery(pid, (start + xs.len() - 1) as u32, xs.last())
        }
    }

    /// The model after `add_remote_inputs(pid, start, xs)`: an invalid player or an empty
    /// batch changes nothing; otherwise every pending frame of the batch records its input as
    /// real and, where some prediction was wrong, the session rolls back once, to the earliest
    /// such frame, then confirmation runs; a rollback that would rewind more than
    /// `max_rollback_frames` frames leaves the inputs recorded, with nothing re-simulated or
    /// confirmed.
    pub open spec fn batch_delivery(self, pid: usize, start: u32, xs: Seq<S::Input>) -> Self {
        if pid >= self.player_count || xs.len() == 0 {
            self
        } else {
            let m1 = self.with_remote_inputs(pid, start, xs);
            let e = self.first_correction(pid, start, xs);
            let f = (self.confirmed_frame + e) as u32;
            if e < self.pending.len() && self.too_far(f) {
                m1
            } else if e < self.pending.len() {
                m1.rolled_back(f).settled()
            } else {
                m1.settled()
            }
        }
    }

    /// Pending frame `i` is in the batch and its prediction for `pid` differs from the batch's input.
    pub open spec fn batch_corrects(self, pid: usize, start: u32, inputs: Seq<S::Input>, i: int) -> bool {
        &&& self.in_batch(start, inputs, i)
        &&& self.mispredicted(pid, i, self.batch_input(start, inputs, i))
    }

    /// The first pending frame at or after position `i` whose prediction the batch corrects
    /// (or the count of pending frames).
    pub open spec fn first_correction_from(self, pid: usize, start: u32, inputs: Seq<S::Input>, i: nat) -> nat
        decreases self.pending.len() - i,
    {
        if i >= self.pending.len() {
            self.pending.len()
        } else if self.batch_corrects(pid, start, inputs, i as int) {
            i
        } else {
            self.first_correction_from(pid, start, inputs, i + 1)
        }
    }

    /// The position of the earliest pending frame whose prediction the batch corrects (the
    /// count of pending frames where there is none).
    pub open spec fn first_correction(self, pid: usize, start: u32, inputs: Seq<S::Input>) -> nat {
        self.first_correction_from(pid, start, inputs, 0)
    }

    /// How many frames a rollback to `target` rewinds.
    pub open spec fn rollback_depth(self, target: u32) -> int {
        if target < self.current_frame { self.current_frame - target } else { 0 }
    }

    /// A rollback to `target` rewinds more than `max_rollback_frames` frames.
    pub open spec fn too_far(self, target: u32) -> bool {
        self.rollback_depth(target) > self.max_rollback_frames
    }

    /// The state saved for frame `target`.
    pub open spec fn snapshot_of(self, target: u32) -> S {
        self.snapshots[target - (self.current_frame - self.snapshots.len())].1
    }

    /// The model after rolling back to pending frame `target` and re-simulating: the
    /// current state is the snapshot of `target` advanced through the inputs of the frames
    /// from `target` on, and each snapshot from `target` on is replaced by the state that this
    /// re-simulation passes through at its frame.
    pub open spec fn rolled_back(self, target: u32) -> Self {
        let t = target - self.confirmed_frame;
        let base = self.snapshot_of(target);
        let ins = self.pending_inputs();
        SessionModel {
            current_state: run(base, ins.subrange(t, ins.len() as int)),
            snapshots: Seq::new(
                self.snapshots.len(),
                |j: int| {
                    let f = self.snapshots[j].0;
                    if f >= target {
                        (f, run(base, ins.subrange(t, f - self.confirmed_frame)))
                    } else {
                        self.snapshots[j]
                    }
                },
            ),
            ..self
        }
    }
}

/// `first_correction_from` finds the first corrected prediction.
pub proof fn lemma_first_correction<S: RollbackState>(m: SessionModel<S>, pid: usize, start: u32, inputs: Seq<S::Input>, i: nat)
    requires
        i <= m.pending.len(),
    ensures
        i <= m.first_correction_from(pid, start, inputs, i) <= m.pending.len(),
        forall|j: int| i <= j < m.first_correction_from(pid, start, inputs, i) ==> !#[trigger] m.batch_corrects(pid, start, inputs, j),
        m.first_correction_from(pid, start, inputs, i) < m.pending.len() ==> m.batch_corrects(
            pid,
            start,
            inputs,
            m.first_correction_from(pid, start, inputs, i) as int,
        ),
    decreases m.pending.len() - i,
{
    if i < m.pending.len() && !m.batch_corrects(pid, start, inputs, i as int) {
        lemma_first_correction(m, pid, start, inputs, i + 1);
    }
}

/// `first_due_from` finds the first due delayed input.
pub proof fn lemma_first_due<S: RollbackState>(m: SessionModel<S>, pid: usize, i: nat)
    requires
        i <= m.local_queue.len(),
    ensures
        i <= m.first_due_from(pid, i) <= m.local_queue.len(),
        forall|j: int| i <= j < m.first_due_from(pid, i) ==> !#[trigger] m.is_due(j, pid),
        m.first_due_from(pid, i) < m.local_queue.len() ==> m.is_due(m.first_due_from(pid, i) as int, pid),
    decreases m.local_queue.len() - i,
{
    if i < m.local_queue.len() && !m.is_due(i as int, pid) {
        lemma_first_due(m, pid, i + 1);
    }
}

/// `first_blocked_from` finds the first blocking frame.
pub proof fn lemma_first_blocked<S: RollbackState>(m: SessionModel<S>, i: nat)
    requires
        i <= m.pending.len(),
    ensures
        i <= m.first_blocked_from(i) <= m.pending.len(),
        forall|j: int| i <= j < m.first_blocked_from(i) ==> !#[trigger] m.blocked(j),
        m.first_blocked_from(i) < m.pending.len() ==> m.blocked(m.first_blocked_from(i) as int),
    decreases m.pending.len() - i,
{
    if i < m.pending.len() && !m.blocked(i as int) {
        lemma_first_blocked(m, i + 1);
    }
}

/// Rollback session main structure, containing state snapshots and input histories.
pub struct RollbackSession<S: RollbackState> {
    /// Emulator's current state (may include predicted inputs).
    current_state: S,
    /// Current simulated frame number.
    current_frame: u32,
    /// Latest confirmed state (all player inputs received).
    confirmed_state: S,
    /// Frame number for confirmed state.
    confirmed_frame: u32,
    /// Snapshot buffer: (frame number, state snapshot)
    history: Vec<(u32, S)>,
    /// Input history: all player inputs for each frame.
    input_history: Vec<FrameInputs<S::Input>>,
    /// Number of players.
    player_count: usize,
    /// Maximum number of frames allowed for rollback.
    max_rollback_frames: u32,
    /// A frame kept pending longer than this number of frames is forcibly confirmed.
    max_input_delay: u32,
    /// Input delay frames: local input is delayed N frames before simulation.
    input_delay: u32,
    /// Local input buffer queue: (target frame, player ID, input).
    local_input_queue: VecDeque<(u32, usize, S::Input)>,
    /// The initial state (for specification only).
    origin: Ghost<S>,
    /// The inputs of every confirmed frame (for specification only).
    log: Ghost<Seq<Seq<S::Input>>>,
    /// The input predicted for every player before any input is known.
    neutral: S::Input,
    /// The inputs of the last confirmed frame (empty before any frame is confirmed).
    last_confirmed: Vec<S::Input>,
}

impl<S: RollbackState> View for RollbackSession<S> {
    type V = SessionModel<S>;

    closed spec fn view(&self) -> SessionModel<S> {
        SessionModel {
            current_state: self.current_state,
            current_frame: self.current_frame,
            confirmed_state: self.confirmed_state,
            confirmed_frame: self.confirmed_frame,
            snapshots: self.history@,
            pending: self.input_history@.map_values(|f: FrameInputs<S::Input>| f@),
            player_count: self.player_count,
            max_rollback_frames: self.max_rollback_frames,
            max_input_delay: self.max_input_delay,
            input_delay: self.input_delay,
            local_queue: self.local_input_queue@,
            origin: self.origin@,
            log: self.log@,
            neutral: self.neutral,
            last_confirmed: self.last_confirmed@,
        }
    }
}

impl<S: RollbackState> RollbackSession<S> {
    /// Creates a new session.
    pub fn new(initial_state: S, player_count: usize, max_rollback: u32, max_input_delay: u32) -> (session: Self)
        ensures
            session@ == SessionModel::<S>::initial(initial_state, player_count, max_rollback, max_input_delay, 0, session@.neutral),
            call_ensures(S::Input::default, (), session@.neutral),
            session@.wf(),
            session@.consistent(),
    {
        Self::with_input_delay(initial_state, player_count, max_rollback, max_input_delay, 0)
    }

    /// Creates a session with input delay: local input is applied `input_delay` frames after
    /// the frame at which it is submitted.
    pub fn with_input_delay(
        initial_state: S,
        player_count: usize,
        max_rollback: u32,
        max_input_delay: u32,
        input_delay: u32,
    ) -> (session: Self)
        ensures
            session@ == SessionModel::<S>::initial(initial_state, player_count, max_rollback, max_input_delay, input_delay, session@.neutral),
            call_ensures(S::Input::default, (), session@.neutral),
            session@.wf(),
            session@.consistent(),
    {
        let neutral = S::Input::default();
        let session = Self {
            current_state: initial_state.save(),
            current_frame: 0,
            confirmed_state: initial_state,
            confirmed_frame: 0,
            history: Vec::new(),
            input_history: Vec::new(),
            player_count,
            max_rollback_frames: max_rollback,
            max_input_delay,
            input_delay,
            local_input_queue: VecDeque::new(),
            origin: Ghost(initial_state),
            log: Ghost(Seq::empty()),
            neutral,
            last_confirmed: Vec::new(),
        };
        assert(session@.pending =~= Seq::<FrameRecord<S::Input>>::empty());
        assert(session@ == SessionModel::<S>::initial(initial_state, player_count, max_rollback, max_input_delay, input_delay, session@.neutral));
        assert(session@.pending_inputs() =~= Seq::<Seq<S::Input>>::empty());
        session
    }

    /// Returns a reference to the current (possibly predicted) state.
    pub fn current_state(&self) -> (r: &S)
        ensures
            *r == self@.current_state,
    {
        &self.current_state
    }

    /// Returns a reference to the latest fully confirmed state.
    pub fn confirmed_state(&self) -> (r: &S)
        ensures
            *r == self@.confirmed_state,
    {
        &self.confirmed_state
    }

    /// Returns the current simulated frame number.
    pub fn current_frame(&self) -> (r: u32)
        ensures
            r == self@.current_frame,
    {
        self.current_frame
    }

    /// Returns the frame number of the last confirmed state.
    pub fn confirmed_frame(&self) -> (r: u32)
        ensures
            r == self@.confirmed_frame,
    {
        self.confirmed_frame
    }

    /// Returns the number of players.
    pub fn player_count(&self) -> (r: usize)
        ensures
            r == self@.player_count,
    {
        self.player_count
    }

    /// Returns the configured input delay in frames.
    pub fn input_delay(&self) -> (r: u32)
        ensures
            r == self@.input_delay,
    {
        self.input_delay
    }

    /// Returns the number of frames currently pending in the input history.
    pub fn pending_frames(&self) -> (r: usize)
        ensures
            r == self@.pending.len(),
    {
        self.input_history.len()
    }

    /// Advances simulation by one frame: applies local input (with delay), and predicts the
    /// other inputs by repeating the last frame.
    ///
    /// The input is queued for frame `current_frame + input_delay`; the frame simulated now
    /// uses the queued input of `local_player_id` that is due now, if any, and the prediction
    /// for every other slot. Afterwards confirmation runs.
    pub fn advance_frame(&mut self, local_player_id: usize, local_input: S::Input) -> (r: Result<(), RollbackError>)
        requires
            old(self)@.wf(),
            local_player_id < old(self)@.player_count ==> old(self)@.current_frame + old(self)@.input_delay <= u32::MAX,
            local_player_id < old(self)@.player_count ==> old(self)@.current_frame < u32::MAX,
        ensures
            final(self)@.wf(),
            final(self)@.confirmed_frame >= old(self)@.confirmed_frame,
            local_player_id >= old(self)@.player_count ==> r == Err::<(), RollbackError>(
                RollbackError::InvalidPlayerId { player_id: local_player_id, player_count: old(self)@.player_count },
            ) && final(self)@ == old(self)@,
            local_player_id < old(self)@.player_count ==> r is Ok
                && final(self)@ == old(self)@.queued(local_player_id, local_input).simulated(local_player_id).settled(),
            old(self)@.consistent() ==> final(self)@.consistent(),
    {
        if local_player_id >= self.player_count {
            return Err(RollbackError::InvalidPlayerId { player_id: local_player_id, player_count: self.player_count });
        }
        let target_frame = self.current_frame + self.input_delay;
        self.local_input_queue.push_back((target_frame, local_player_id, local_input));
        proof {
            assert(self.local_input_queue@ == old(self)@.queued(local_player_id, local_input).local_queue);
            if old(self)@.consistent() {
                crate::laws::law_advance_frame_consistent(old(self)@, local_player_id, local_input);
            }
        }
        self.advance_frame_inner(local_player_id)
    }

    /// Receives a single confirmed remote input for a specific frame.
    ///
    /// The input is recorded as real for `player_id` at `frame` (where the frame is pending);
    /// where it corrects a wrong prediction the session rolls back to `frame` and
    /// re-simulates. Afterwards confirmation runs.
    pub fn add_remote_input(&mut self, player_id: usize, frame: u32, input: S::Input) -> (r: Result<(), RollbackError>)
        requires
            old(self)@.wf(),
        ensures
            r == old(self)@.single_result(player_id, frame, input),
            final(self)@ == old(self)@.single_delivery(player_id, frame, input),
            final(self)@.wf(),
            final(self)@.confirmed_frame >= old(self)@.confirmed_frame,
            old(self)@.consistent() && r is Ok && (old(self)@.position(frame) matches Some(i) ==> old(self)@.agrees(player_id, i, input))
                ==> final(self)@.consistent(),
    {
        if player_id >= self.player_count {
            return Err(RollbackError::InvalidPlayerId { player_id, player_count: self.player_count });
        }
        if frame < self.confirmed_frame {
            return Err(RollbackError::InputTooOld { frame, confirmed_frame: self.confirmed_frame });
        }
        proof {
            if old(self)@.consistent() && (old(self)@.position(frame) matches Some(i) ==> old(self)@.agrees(player_id, i, input))
                && !(old(self)@.corrects(player_id, frame, input) && old(self)@.too_far(frame)) {
                crate::laws::law_remote_input_consistent(old(self)@, player_id, frame, input);
            }
        }
        match self.apply_remote_input(player_id, frame, input) {
            Ok(()) => {},
            Err(e) => {
                return Err(e);
            },
        }
        self.update_confirmed_state();
        Ok(())
    }

    /// Receives remote inputs of `player_id` for the frames `start_frame`, `start_frame + 1`, ...
    /// (batch submission, as carried redundantly by network packets).
    ///
    /// Frames already confirmed are skipped (not an error). Every pending frame of the batch
    /// records its input as real; then a single rollback runs, from the earliest frame whose
    /// prediction was wrong. Afterwards confirmation runs. An empty batch changes nothing.
    pub fn add_remote_inputs(&mut self, player_id: usize, start_frame: u32, inputs: Vec<S::Input>) -> (r: Result<(), RollbackError>)
        requires
            old(self)@.wf(),
            player_id < old(self)@.player_count && inputs@.len() > 0 ==> start_frame + inputs@.len() - 1 <= u32::MAX,
        ensures
            r == old(self)@.batch_result(player_id, start_frame, inputs@),
            final(self)@ == old(self)@.batch_delivery(player_id, start_frame, inputs@),
            final(self)@.wf(),
            final(self)@.confirmed_frame >= old(self)@.confirmed_frame,
            old(self)@.consistent() && r is Ok && (forall|i: int| 0 <= i < old(self)@.pending.len() && old(self)@.in_batch(start_frame, inputs@, i)
                ==> #[trigger] old(self)@.agrees(player_id, i, old(self)@.batch_input(start_frame, inputs@, i)))
                ==> final(self)@.consistent(),
    {
        if player_id >= self.player_count {
            return Err(RollbackError::InvalidPlayerId { player_id, player_count: self.player_count });
        }
        if inputs.len() == 0 {
            return Ok(());
        }
        let ghost orig = self@;
        let ghost batch = inputs@;
        proof {
            let e = orig.first_correction(player_id, start_frame, batch);
            if orig.consistent() && (forall|i: int| 0 <= i < orig.pending.len() && orig.in_batch(start_frame, batch, i)
                ==> #[trigger] orig.agrees(player_id, i, orig.batch_input(start_frame, batch, i)))
                && !(e < orig.pending.len() && orig.too_far((orig.confirmed_frame + e) as u32)) {
                crate::laws::law_remote_inputs_consistent(orig, player_id, start_frame, batch);
            }
        }
        // Find the earliest rollback frame (prediction error, minimum frame number).
        let mut earliest_rollback_frame: Option<u32> = None;
        let n = inputs.len();
        proof {
            assert(batch.take(0) =~= Seq::<S::Input>::empty());
            assert(orig.with_remote_inputs(player_id, start_frame, batch.take(0)).pending =~= orig.pending);
        }
        let mut offset: usize = 0;
        while offset < n
            invariant
                orig.wf(),
                player_id < orig.player_count,
                n == batch.len(),
                batch == inputs@,
                n > 0,
                start_frame + n - 1 <= u32::MAX,
                offset <= n,
                self@ == orig.with_remote_inputs(player_id, start_frame, batch.take(offset as int)),
                earliest_rollback_frame is None ==> forall|i: int| 0 <= i < orig.pending.len() && orig.confirmed_frame + i < start_frame + offset
                    ==> !#[trigger] orig.batch_corrects(player_id, start_frame, batch, i),
                earliest_rollback_frame matches Some(f) ==> {
                    &&& orig.confirmed_frame <= f < start_frame + offset
                    &&& f - orig.confirmed_frame < orig.pending.len()
                    &&& orig.batch_corrects(player_id, start_frame, batch, f - orig.confirmed_frame)
                    &&& forall|j: int| 0 <= j < f - orig.confirmed_frame ==> !#[trigger] orig.batch_corrects(player_id, start_frame, batch, j)
                },
            decreases n - offset,
        {
            let frame = start_frame + offset as u32;
            let ghost prefix = batch.take(offset as int);
            let ghost next = batch.take(offset + 1);
            let ghost cur_model = self@;
            proof {
                lemma_batch_prefix_step(orig, player_id, start_frame, batch, offset as int);
            }
            if frame >= self.confirmed_frame {
                if let Some(history_idx) = self.pending_index(frame) {
                    proof {
                        assert(cur_model.pending[history_idx as int] == orig.pending[history_idx as int]);
                        assert(cur_model.pending[history_idx as int] == self.input_history@[history_idx as int]@);
                    }
                    let need_rollback = self.input_history[history_idx].is_predicted[player_id]
                        && !S::same_input(&self.input_history[history_idx].inputs[player_id], &inputs[offset]);
                    proof {
                        assert(orig.batch_input(start_frame, batch, history_idx as int) == batch[offset as int]);
                        assert(need_rollback == orig.batch_corrects(player_id, start_frame, batch, history_idx as int));
                    }
                    if need_rollback {
                        earliest_rollback_frame = Some(match earliest_rollback_frame {
                            None => frame,
                            Some(prev) => if prev < frame { prev } else { frame },
                        });
                    }
                    // Update the input record (whether or not a rollback is needed).
                    let copy = S::copy_input(&inputs[offset]);
                    let ghost hist_before = self.input_history@;
                    self.input_history[history_idx].inputs.set(player_id, copy);
                    self.input_history[history_idx].is_predicted.set(player_id, false);
                    proof {
                        let target = orig.with_remote_inputs(player_id, start_frame, next);
                        assert forall|i: int| 0 <= i < self.input_history@.len() implies
                            #[trigger] self.input_history@[i]@ == target.pending[i] by {
                            if i != history_idx {
                                assert(hist_before[i]@ == cur_model.pending[i]);
                            }
                        }
                        assert(self@.pending =~= target.pending);
                    }
                }
            }
            proof {
                let target = orig.with_remote_inputs(player_id, start_frame, next);
                if !(orig.confirmed_frame <= frame < orig.current_frame) {
                    assert forall|i: int| 0 <= i < orig.pending.len() implies #[trigger] target.pending[i] == cur_model.pending[i] by {
                        assert(orig.confirmed_frame + i != start_frame + offset);
                    }
                }
                assert(self@.pending =~= target.pending);
                assert(self@ == target);
            }
            offset = offset + 1;
        }
        proof {
            assert(batch.take(n as int) =~= batch);
            let e = orig.first_correction(player_id, start_frame, batch);
            lemma_first_correction(orig, player_id, start_frame, batch, 0);
            match earliest_rollback_frame {
                Some(f) => {
                    if e < f - orig.confirmed_frame {
                        assert(!orig.batch_corrects(player_id, start_frame, batch, e as int));
                    }
                    if e > f - orig.confirmed_frame {
                        assert(!orig.batch_corrects(player_id, start_frame, batch, f - orig.confirmed_frame));
                    }
                },
                None => {
                    if e < orig.pending.len() {
                        assert(orig.batch_corrects(player_id, start_frame, batch, e as int));
                    }
                },
            }
            lemma_with_remote_inputs_wf(orig, player_id, start_frame, batch);
        }
        // Roll back only once, from the earliest wrong prediction.
        if let Some(rollback_frame) = earliest_rollback_frame {
            match self.rollback_to(rollback_frame) {
                Ok(()) => {},
                Err(e) => {
                    return Err(e);
                },
            }
        }
        self.update_confirmed_state();
        Ok(())
    }

    /// Out-of-sync check: compares the checksum of the confirmed state with a checksum that a
    /// remote peer reports for `frame`. Only a report for the current confirmed frame is
    /// compared; any other frame is accepted.
    pub fn verify_checksum(&self, frame: u32, remote_checksum: u64) -> (r: Result<(), RollbackError>)
        where S: serde::Serialize,
        ensures
            frame != self@.confirmed_frame ==> r is Ok,
            r matches Err(e) ==> e matches RollbackError::OutOfSync { frame: f, local, remote }
                && f == frame && remote == remote_checksum && local != remote_checksum,
            frame == self@.confirmed_frame ==> exists|local: u64|
                call_ensures(S::checksum, (&self@.confirmed_state,), local)
                && r == checksum_outcome(frame, local, remote_checksum),
    {
        if frame == self.confirmed_frame {
            let local = self.confirmed_state.checksum();
            return checksum_verdict(frame, local, remote_checksum);
        }
        Ok(())
    }

    /// Applies a remote input (with rollback check); does not run confirmation.
    fn apply_remote_input(&mut self, player_id: usize, frame: u32, input: S::Input) -> (r: Result<(), RollbackError>)
        requires
            old(self)@.wf(),
            player_id < old(self)@.player_count,
        ensures
            final(self)@.frames_wf(),
            final(self)@.pending.len() <= final(self)@.max_input_delay,
            ({
                let m1 = old(self)@.with_remote_input(player_id, frame, input);
                if old(self)@.corrects(player_id, frame, input) && old(self)@.too_far(frame) {
                    &&& r == Err::<(), RollbackError>(RollbackError::RollbackTooFar {
                        needed: old(self)@.rollback_depth(frame) as u32,
                        max: old(self)@.max_rollback_frames,
                    })
                    &&& final(self)@ == m1
                } else {
                    &&& r is Ok
                    &&& final(self)@ == if old(self)@.corrects(player_id, frame, input) {
                        m1.rolled_back(frame)
                    } else {
                        m1
                    }
                }
            }),
    {
        let ghost orig = self@;
        if let Some(idx) = self.pending_index(frame) {
            proof {
                assert(orig.pending[idx as int] == self.input_history@[idx as int]@);
            }
            let need_rollback = self.input_history[idx].is_predicted[player_id]
                && !S::same_input(&self.input_history[idx].inputs[player_id], &input);
            let ghost hist_before = self.input_history@;
            self.input_history[idx].inputs.set(player_id, input);
            self.input_history[idx].is_predicted.set(player_id, false);
            proof {
                let m1 = orig.with_remote_input(player_id, frame, input);
                assert forall|i: int| 0 <= i < self.input_history@.len() implies
                    #[trigger] self.input_history@[i]@ == m1.pending[i] by {
                    if i != idx {
                        assert(hist_before[i]@ == orig.pending[i]);
                    }
                }
                assert(self@.pending =~= m1.pending);
                assert(self@ == m1);
                assert(need_rollback == orig.corrects(player_id, frame, input));
                assert forall|i: int| 0 <= i < m1.pending.len() implies (#[trigger] m1.pending[i]).inputs.len() == m1.player_count
                    && m1.pending[i].predicted.len() == m1.player_count by {
                    assert(orig.pending[i].inputs.len() == orig.player_count);
                }
                assert forall|i: int| 0 <= i < m1.pending.len() implies #[trigger] m1.pending[i].frame == m1.confirmed_frame + i by {
                    assert(orig.pending[i].frame == orig.confirmed_frame + i);
                }
            }
            if need_rollback {
                return self.rollback_to(frame);
            }
        }
        Ok(())
    }

    /// Finds the delayed local input of `pid` that is due at the current frame.
    fn find_due_input(&self, pid: usize) -> (r: Option<usize>)
        ensures
            r matches Some(k) ==> k == self@.due_index(pid) && k < self@.local_queue.len(),
            r is None ==> self@.due_index(pid) == self@.local_queue.len(),
    {
        let n = self.local_input_queue.len();
        let mut i: usize = 0;
        proof {
            lemma_first_due(self@, pid, 0);
        }
        while i < n
            invariant
                n == self@.local_queue.len(),
                i <= n,
                forall|j: int| 0 <= j < i ==> !#[trigger] self@.is_due(j, pid),
            decreases n - i,
        {
            let entry = &self.local_input_queue[i];
            if entry.0 == self.current_frame && entry.1 == pid {
                proof {
                    assert(self@.is_due(i as int, pid));
                    lemma_first_due(self@, pid, 0);
                    if self@.due_index(pid) < i {
                        assert(!self@.is_due(self@.due_index(pid) as int, pid));
                    }
                    if self@.due_index(pid) > i {
                        assert(!self@.is_due(i as int, pid));
                    }
                }
                return Some(i);
            }
            i = i + 1;
        }
        proof {
            lemma_first_due(self@, pid, 0);
            if self@.due_index(pid) < n {
                assert(!self@.is_due(self@.due_index(pid) as int, pid));
            }
        }
        None
    }

    /// Internal logic for advancing one frame.
    fn advance_frame_inner(&mut self, local_player_id: usize) -> (r: Result<(), RollbackError>)
        requires
            old(self)@.wf(),
            local_player_id < old(self)@.player_count,
            old(self)@.current_frame < u32::MAX,
        ensures
            r is Ok,
            final(self)@ == old(self)@.simulated(local_player_id).settled(),
            final(self)@.wf(),
    {
        let ghost orig = self@;
        let frame = self.current_frame;
        let pc = self.player_count;
        let due = self.find_due_input(local_player_id);

        // 1. Inputs of this frame: the prediction for every slot first.
        let mut frame_inputs: Vec<S::Input> = Vec::new();
        let mut is_predicted: Vec<bool> = Vec::new();
        let has_prev = self.input_history.len() > 0;
        let has_last = self.last_confirmed.len() > 0;
        let ghost rec = orig.next_record(local_player_id);
        proof {
            if has_prev {
                assert(orig.pending.last() == self.input_history@[self.input_history@.len() - 1]@);
            }
        }
        for p in 0..pc
            invariant
                pc == orig.player_count,
                self@ == orig,
                has_prev == (orig.pending.len() > 0),
                has_last == (orig.last_confirmed.len() > 0),
                orig.wf(),
                frame_inputs@.len() == p,
                is_predicted@.len() == p,
                forall|q: int| 0 <= q < p ==> #[trigger] frame_inputs@[q] == orig.predicted_input(q),
                forall|q: int| 0 <= q < p ==> #[trigger] is_predicted@[q],
        {
            if has_prev {
                let last = self.input_history.len() - 1;
                proof {
                    assert(orig.pending.last() == self.input_history@[last as int]@);
                    assert(orig.pending[last as int].inputs.len() == pc);
                }
                let prev_input = S::copy_input(&self.input_history[last].inputs[p]);
                frame_inputs.push(prev_input);
            } else if has_last {
                frame_inputs.push(S::copy_input(&self.last_confirmed[p]));
            } else {
                frame_inputs.push(S::copy_input(&self.neutral));
            }
            is_predicted.push(true);
        }
        // Use the delayed local input that is due now, if any.
        if let Some(pos) = due {
            if let Some((_, _, input)) = self.local_input_queue.remove(pos) {
                frame_inputs.set(local_player_id, input);
                is_predicted.set(local_player_id, false);
            }
        }
        proof {
            assert(frame_inputs@ =~= rec.inputs);
            assert(is_predicted@ =~= rec.predicted);
        }

        // 2. Save a snapshot of the current state (before advancing).
        if self.history.len() >= self.max_rollback_frames as usize && self.history.len() > 0 {
            self.history.remove(0);
        }
        let snapshot = self.current_state.save();
        self.history.push((frame, snapshot));

        // 3. Advance the state and record the input history.
        let ghost before_step = self.current_state;
        let frame_slice = frame_inputs.as_slice();
        self.current_state.advance(frame_slice);
        proof {
            lemma_step_slice(before_step, frame_slice);
        }
        let ghost old_hist = self.input_history@;
        self.input_history.push(FrameInputs { frame, inputs: frame_inputs, is_predicted });
        self.current_frame = frame + 1;
        proof {
            let target = orig.simulated(local_player_id);
            assert(self.input_history@ == old_hist.push(self.input_history@.last()));
            assert(self@.pending =~= target.pending);
            assert(self@.snapshots =~= target.snapshots);
            assert(self@.local_queue =~= target.local_queue);
            assert(self@ == target);
            lemma_simulated_frames_wf(orig, local_player_id);
        }

        // 4. Try to confirm frames.
        self.update_confirmed_state();
        Ok(())
    }

    /// The position of `frame` in the input history, if it is pending.
    fn pending_index(&self, frame: u32) -> (r: Option<usize>)
        requires
            self@.frames_wf(),
        ensures
            r == match self@.position(frame) { Some(i) => Some(i as usize), None => None::<usize> },
            r matches Some(i) ==> i < self.input_history@.len() && self.input_history@[i as int].frame == frame,
    {
        if frame >= self.confirmed_frame && frame < self.current_frame {
            let i = (frame - self.confirmed_frame) as usize;
            proof {
                assert(self@.pending[i as int] == self.input_history@[i as int]@);
                assert(self@.pending[i as int].frame == self.confirmed_frame + i);
            }
            Some(i)
        } else {
            None
        }
    }

    /// The position in the snapshot buffer of the snapshot of `frame`, if one is kept.
    fn snapshot_index(&self, frame: u32) -> (r: Option<usize>)
        requires
            self@.frames_wf(),
        ensures
            r matches Some(j) ==> j < self.history@.len() && self.history@[j as int].0 == frame
                && j == frame - (self@.current_frame - self@.snapshots.len()),
            r is None ==> forall|j: int| 0 <= j < self.history@.len() ==> #[trigger] self.history@[j].0 != frame,
    {
        let len = self.history.len();
        proof {
            assert(len <= self@.pending.len());
        }
        let first = self.current_frame - len as u32;
        if frame >= first && frame < self.current_frame {
            let j = (frame - first) as usize;
            Some(j)
        } else {
            None
        }
    }

    /// Rolls back to the snapshot of `target_frame`, then replays forward to the current
    /// frame, refreshing the snapshots of the replayed frames for future rollbacks.
    fn rollback_to(&mut self, target_frame: u32) -> (r: Result<(), RollbackError>)
        requires
            old(self)@.frames_wf(),
        ensures
            old(self)@.too_far(target_frame) ==> r == Err::<(), RollbackError>(
                RollbackError::RollbackTooFar { needed: old(self)@.rollback_depth(target_frame) as u32, max: old(self)@.max_rollback_frames },
            ) && final(self)@ == old(self)@,
            !old(self)@.too_far(target_frame) && old(self)@.position(target_frame) is Some ==> r is Ok
                && final(self)@ == old(self)@.rolled_back(target_frame),
            !old(self)@.too_far(target_frame) && old(self)@.position(target_frame) is None ==> r == Err::<(), RollbackError>(
                RollbackError::SnapshotNotFound { frame: target_frame },
            ) && final(self)@ == old(self)@,
            final(self)@.frames_wf(),
    {
        let ghost orig = self@;
        let rollback_frames = self.current_frame.saturating_sub(target_frame);
        if rollback_frames > self.max_rollback_frames {
            return Err(RollbackError::RollbackTooFar { needed: rollback_frames, max: self.max_rollback_frames });
        }
        let snapshot = match self.snapshot_index(target_frame) {
            Some(j) => self.history[j].1.save(),
            None => {
                proof {
                    if orig.position(target_frame) is Some {
                        let slen = orig.snapshots.len() as int;
                        assert(orig.max_rollback_frames > 0);
                        assert(orig.current_frame - target_frame <= slen);
                        let j = target_frame - (orig.current_frame - slen);
                        assert(self.history@[j].0 == target_frame);
                    }
                }
                return Err(RollbackError::SnapshotNotFound { frame: target_frame });
            },
        };
        proof {
            assert(orig.snapshots.len() <= orig.pending.len());
            assert(orig.position(target_frame) is Some);
        }
        let ghost base = snapshot;
        self.current_state = snapshot;
        let start_idx = match self.pending_index(target_frame) {
            Some(i) => i,
            None => {
                return Err(RollbackError::SnapshotNotFound { frame: target_frame });
            },
        };
        let n = self.input_history.len();
        let ghost t = start_idx as int;
        let ghost ins = orig.pending_inputs();
        proof {
            assert(base == orig.snapshot_of(target_frame));
            assert(ins.subrange(t, t) =~= Seq::<Seq<S::Input>>::empty());
        }
        let mut i = start_idx;
        while i < n
            invariant
                orig.frames_wf(),
                n == orig.pending.len(),
                t <= i <= n,
                t == target_frame - orig.confirmed_frame,
                orig.confirmed_frame <= target_frame < orig.current_frame,
                ins == orig.pending_inputs(),
                base == orig.snapshot_of(target_frame),
                self.current_state == run(base, ins.subrange(t, i as int)),
                self@ == (SessionModel { current_state: self.current_state, snapshots: self.history@, ..orig }),
                self.history@.len() == orig.snapshots.len(),
                forall|j: int| 0 <= j < self.history@.len() ==> #[trigger] self.history@[j] == if orig.snapshots[j].0 >= target_frame && orig.snapshots[j].0 < orig.confirmed_frame + i {
                    (orig.snapshots[j].0, run(base, ins.subrange(t, orig.snapshots[j].0 - orig.confirmed_frame)))
                } else {
                    orig.snapshots[j]
                },
            decreases n - i,
        {
            let frame = self.input_history[i].frame;
            proof {
                assert(orig.pending[i as int] == self.input_history@[i as int]@);
                assert(orig.pending[i as int].frame == orig.confirmed_frame + i);
            }
            // Update the snapshot before replaying, so that future rollbacks to this frame
            // start from the corrected state.
            if let Some(j) = self.snapshot_index(frame) {
                let fresh = self.current_state.save();
                self.history.set(j, (frame, fresh));
            }
            let ghost before_step = self.current_state;
            let replay_slice = self.input_history[i].inputs.as_slice();
            self.current_state.advance(replay_slice);
            proof {
                lemma_step_slice(before_step, replay_slice);
            }
            proof {
                let ii = i as int;
                assert(ins[ii] == orig.pending[ii].inputs);
                assert(self.input_history@[ii].inputs@ == orig.pending[ii].inputs);
                assert(self.current_state == step(before_step, ins[ii]));
                let next = ins.subrange(t, ii + 1);
                assert(ins.len() == orig.pending.len());
                assert(0 <= t <= ii);
                assert(next.len() == ii + 1 - t);
                assert(next.drop_last() =~= ins.subrange(t, ii));
                assert(next.last() == ins[ii]);
                assert(run(base, next) == step(run(base, next.drop_last()), next.last()));
            }
            i = i + 1;
        }
        proof {
            let target = orig.rolled_back(target_frame);
            assert(self@.snapshots =~= target.snapshots);
            assert(self@ == target);
        }
        Ok(())
    }

    /// Confirms the oldest pending frame: the confirmed state is advanced through its inputs,
    /// and the snapshots that precede the new confirmed frame are dropped.
    fn confirm_oldest(&mut self)
        requires
            old(self)@.frames_wf(),
            old(self)@.pending.len() > 0,
        ensures
            final(self)@ == old(self)@.confirm_first(1),
            final(self)@.frames_wf(),
    {
        let ghost before = self@;
        let ghost old_hist = self.input_history@;
        proof {
            assert(self@.pending[0] == self.input_history@[0]@);
        }
        let frame_record = self.input_history.remove(0);
        proof {
            assert(frame_record@ == before.pending[0]);
            assert(before.pending[0].frame == before.confirmed_frame + 0);
            assert(frame_record.frame == before.confirmed_frame);
        }
        let ghost before_cs = self.confirmed_state;
        let record_slice = frame_record.inputs.as_slice();
        self.confirmed_state.advance(record_slice);
        proof {
            lemma_step_slice(before_cs, record_slice);
        }
        self.confirmed_frame = frame_record.frame + 1;
        self.log = Ghost(self.log@.push(frame_record.inputs@));
        self.last_confirmed = frame_record.inputs;
        proof {
            let ins = before.pending_inputs();
            assert(ins.take(1).drop_last() =~= Seq::<Seq<S::Input>>::empty());
            assert(run(before.confirmed_state, ins.take(1).drop_last()) == before.confirmed_state);
            assert(ins.take(1).last() == ins[0]);
            assert(ins[0] == before.pending[0].inputs);
            assert(run(before.confirmed_state, ins.take(1)) == step(before.confirmed_state, ins[0]));
            assert(frame_record.inputs@ == before.pending[0].inputs);
            assert(self.input_history@ =~= old_hist.subrange(1, old_hist.len() as int));
            assert forall|i: int| 0 <= i < self.input_history@.len() implies
                #[trigger] self.input_history@[i]@ == before.pending[1 + i] by {
                assert(old_hist[i + 1]@ == before.pending[i + 1]);
            }
            assert(self@.pending =~= before.pending.skip(1));
            assert forall|j: int| 0 <= j < self.history@.len() - 1 implies
                #[trigger] self.history@[j].0 < self.history@[j + 1].0 by {}
        }
        let dropped = drop_snapshots_before(&mut self.history, self.confirmed_frame);
        proof {
            let target = before.confirm_first(1);
            let d = dropped as int;
            if d < before.snapshots_before(1) {
                assert(before.snapshots[d].0 >= self.confirmed_frame);
            }
            if d > before.snapshots_before(1) {
                assert(before.snapshots[d - 1].0 < self.confirmed_frame);
            }
            assert(self@.snapshots =~= target.snapshots);
            assert(self@.pending =~= target.pending);
            assert(self@.local_queue =~= target.local_queue);
            assert(self@.log =~= target.log);
            assert(self@.log.drop_last() =~= before.log);
            assert(self@.confirmed_state == run(self@.origin, self@.log));
            assert(self@.confirmed_state == target.confirmed_state);
            assert(self@.confirmed_frame == target.confirmed_frame);
            assert(self@.current_state == target.current_state);
            assert(self@.current_frame == target.current_frame);
            assert(self@ == target);
        }
    }

    /// Advances confirmed_state:
    /// - Normal: the oldest frame for which all player inputs are confirmed, frame by frame.
    /// - Timeout: a frame left pending longer than max_input_delay is forcibly confirmed.
    fn update_confirmed_state(&mut self)
        requires
            old(self)@.frames_wf(),
        ensures
            final(self)@ == old(self)@.settled(),
            final(self)@.wf(),
            final(self)@.confirmed_frame >= old(self)@.confirmed_frame,
    {
        let ghost orig = self@;
        proof {
            crate::laws::law_confirmation_keeps_recorded_inputs(orig);
        }
        let ghost mut done: nat = 0;
        proof {
            lemma_first_blocked(orig, 0);
            lemma_confirm_none(orig);
        }
        loop
            invariant
                orig.frames_wf(),
                self@.frames_wf(),
                done <= orig.pending.len(),
                forall|j: int| 0 <= j < done ==> !#[trigger] orig.blocked(j),
                self@ == orig.confirm_first(done),
            ensures
                done == orig.confirm_count(),
                self@ == orig.confirm_first(done),
                self@.frames_wf(),
            decreases self.input_history@.len(),
        {
            let should_confirm = if self.input_history.len() == 0 {
                false
            } else {
                let h = &self.input_history[0];
                proof {
                    assert(self@.pending[0] == self.input_history@[0]@);
                    assert(self@.pending[0] == orig.pending[done as int]);
                }
                if h.is_fully_confirmed() {
                    true
                } else {
                    let age = self.current_frame.saturating_sub(h.frame);
                    proof {
                        assert(h@ == orig.pending[done as int]);
                        assert(orig.pending[done as int].frame == orig.confirmed_frame + done);
                        assert(h.frame == orig.confirmed_frame + done);
                        assert(self.current_frame == orig.current_frame);
                        assert(age == orig.pending.len() - done);
                        assert(self.max_input_delay == orig.max_input_delay);
                    }
                    age > self.max_input_delay
                }
            };
            if !should_confirm {
                proof {
                    lemma_first_blocked(orig, 0);
                    if done < orig.confirm_count() {
                        assert(!orig.blocked(done as int));
                    }
                    if orig.confirm_count() < done {
                        assert(!orig.blocked(orig.confirm_count() as int));
                    }
                }
                break;
            }
            proof {
                assert(!orig.blocked(done as int));
                lemma_confirm_step(orig, done);
            }
            self.confirm_oldest();
            proof {
                done = done + 1;
            }
        }
        proof {
            lemma_first_blocked(orig, 0);
            if self@.pending.len() > 0 {
                assert(self@.pending[0] == orig.pending[done as int]);
                assert(orig.blocked(done as int));
            }
        }
    }
}

/// Recording one more input of a batch changes only the frame that it is for.
proof fn lemma_batch_prefix_step<S: RollbackState>(m: SessionModel<S>, pid: usize, start: u32, batch: Seq<S::Input>, o: int)
    requires
        0 <= o < batch.len(),
    ensures
        ({
            let a = m.with_remote_inputs(pid, start, batch.take(o));
            let b = m.with_remote_inputs(pid, start, batch.take(o + 1));
            &&& a.pending.len() == m.pending.len()
            &&& b.pending.len() == m.pending.len()
            &&& forall|i: int| 0 <= i < m.pending.len() && m.confirmed_frame + i != start + o ==> #[trigger] b.pending[i] == a.pending[i]
            &&& forall|i: int| 0 <= i < m.pending.len() && m.confirmed_frame + i >= start + o ==> #[trigger] a.pending[i] == m.pending[i]
            &&& forall|i: int| 0 <= i < m.pending.len() && m.confirmed_frame + i == start + o ==> #[trigger] b.pending[i] == (FrameRecord {
                frame: m.pending[i].frame,
                inputs: m.pending[i].inputs.update(pid as int, batch[o]),
                predicted: m.pending[i].predicted.update(pid as int, false),
            })
            &&& b == (SessionModel { pending: b.pending, ..a })
            &&& a == (SessionModel { pending: a.pending, ..m })
        }),
{
    let a = m.with_remote_inputs(pid, start, batch.take(o));
    let b = m.with_remote_inputs(pid, start, batch.take(o + 1));
    assert forall|i: int| 0 <= i < m.pending.len() && m.confirmed_frame + i != start + o implies #[trigger] b.pending[i] == a.pending[i] by {
        if m.in_batch(start, batch.take(o), i) {
            assert(m.batch_input(start, batch.take(o), i) == m.batch_input(start, batch.take(o + 1), i));
        }
    }
}

/// Recording a batch keeps the bookkeeping invariant.
pub proof fn lemma_with_remote_inputs_wf<S: RollbackState>(m: SessionModel<S>, pid: usize, start: u32, batch: Seq<S::Input>)
    requires
        m.wf(),
        pid < m.player_count,
    ensures
        m.with_remote_inputs(pid, start, batch).wf(),
{
    let t = m.with_remote_inputs(pid, start, batch);
    assert forall|i: int| 0 <= i < t.pending.len() implies #[trigger] t.pending[i].frame == t.confirmed_frame + i by {
        assert(m.pending[i].frame == m.confirmed_frame + i);
    }
    assert forall|i: int| 0 <= i < t.pending.len() implies (#[trigger] t.pending[i]).inputs.len() == t.player_count
        && t.pending[i].predicted.len() == t.player_count by {
        assert(m.pending[i].inputs.len() == m.player_count);
    }
}

/// Rolling back keeps the bookkeeping invariant.
pub proof fn lemma_rolled_back_frames_wf<S: RollbackState>(m: SessionModel<S>, target: u32)
    requires
        m.frames_wf(),
    ensures
        m.rolled_back(target).frames_wf(),
{
    let r = m.rolled_back(target);
    assert forall|j: int| 0 <= j < r.snapshots.len() implies #[trigger] r.snapshots[j].0 == r.current_frame - r.snapshots.len() + j by {
        assert(m.snapshots[j].0 == m.current_frame - m.snapshots.len() + j);
    }
}

/// Simulating a frame keeps the bookkeeping invariant.
pub proof fn lemma_simulated_frames_wf<S: RollbackState>(m: SessionModel<S>, pid: usize)
    requires
        m.wf(),
        pid < m.player_count,
        m.current_frame < u32::MAX,
    ensures
        m.simulated(pid).frames_wf(),
{
    let t = m.simulated(pid);
    let rec = m.next_record(pid);
    assert(rec.inputs.len() == m.player_count);
    assert forall|i: int| 0 <= i < t.pending.len() implies #[trigger] t.pending[i].frame == t.confirmed_frame + i by {
        if i < m.pending.len() {
            assert(t.pending[i] == m.pending[i]);
        }
    }
    assert forall|i: int| 0 <= i < t.pending.len() implies (#[trigger] t.pending[i]).inputs.len() == t.player_count
        && t.pending[i].predicted.len() == t.player_count by {
        if i < m.pending.len() {
            assert(t.pending[i] == m.pending[i]);
        }
    }
    let kept = if m.snapshots.len() >= m.max_rollback_frames && m.snapshots.len() > 0 {
        m.snapshots.skip(1)
    } else {
        m.snapshots
    };
    assert forall|j: int| 0 <= j < t.snapshots.len() implies #[trigger] t.snapshots[j].0 == t.current_frame - t.snapshots.len() + j by {
        if j < kept.len() {
            if m.snapshots.len() >= m.max_rollback_frames && m.snapshots.len() > 0 {
                assert(kept[j] == m.snapshots[j + 1]);
            } else {
                assert(kept[j] == m.snapshots[j]);
            }
        }
    }
}

/// Confirming nothing changes nothing.
pub(crate) proof fn lemma_confirm_none<S: RollbackState>(m: SessionModel<S>)
    requires
        m.frames_wf(),
    ensures
        m.confirm_first(0) == m,
{
    assert(m.pending.skip(0) =~= m.pending);
    assert(m.snapshots.skip(0) =~= m.snapshots);
    assert(m.pending_inputs().take(0) =~= Seq::<Seq<S::Input>>::empty());
}

/// Confirming `a` frames, then one more, is confirming `a + 1` frames.
proof fn lemma_confirm_step<S: RollbackState>(m: SessionModel<S>, a: nat)
    requires
        m.frames_wf(),
        a < m.pending.len(),
    ensures
        m.confirm_first(a).confirm_first(1) == m.confirm_first(a + 1),
{
    let m1 = m.confirm_first(a);
    let m2 = m1.confirm_first(1);
    let t = m.confirm_first(a + 1);
    let ins = m.pending_inputs();
    assert(m1.pending_inputs() =~= ins.skip(a as int));
    assert(m1.pending_inputs().take(1) =~= ins.take((a + 1) as int).skip(a as int));
    assert(ins.take((a + 1) as int) =~= ins.take(a as int) + ins.take((a + 1) as int).skip(a as int));
    lemma_run_append(m.confirmed_state, ins.take(a as int), ins.take((a + 1) as int).skip(a as int));
    assert(m2.confirmed_state == t.confirmed_state);
    assert(m2.log =~= t.log);
    assert(m2.pending =~= t.pending);
    assert(m2.snapshots =~= t.snapshots);
}

/// The verdict on comparing a local checksum with a remote one for `frame`: equal checksums
/// agree, different ones are an out-of-sync error that carries both.
pub open spec fn checksum_outcome(frame: u32, local: u64, remote: u64) -> Result<(), RollbackError> {
    if local == remote {
        Ok(())
    } else {
        Err(RollbackError::OutOfSync { frame, local, remote })
    }
}

/// The verdict on a checksum comparison for `frame`: equal checksums agree, different ones
/// are an out-of-sync error that carries both.
pub fn checksum_verdict(frame: u32, local: u64, remote: u64) -> (r: Result<(), RollbackError>)
    ensures
        local == remote ==> r is Ok,
        local != remote ==> r == Err::<(), RollbackError>(RollbackError::OutOfSync { frame, local, remote }),
        r == checksum_outcome(frame, local, remote),
{
    if local != remote {
        return Err(RollbackError::OutOfSync { frame, local, remote });
    }
    Ok(())
}

/// Removes the leading snapshots whose frame precedes `frame` (snapshots are kept in
/// increasing frame order).
fn drop_snapshots_before<S>(history: &mut Vec<(u32, S)>, frame: u32) -> (dropped: usize)
    requires
        forall|j: int| 0 <= j < old(history)@.len() - 1 ==> #[trigger] old(history)@[j].0 < old(history)@[j + 1].0,
    ensures
        dropped <= old(history)@.len(),
        final(history)@ == old(history)@.skip(dropped as int),
        forall|j: int| 0 <= j < dropped ==> #[trigger] old(history)@[j].0 < frame,
        dropped < old(history)@.len() ==> old(history)@[dropped as int].0 >= frame,
{
    let ghost orig = history@;
    let orig_len = history.len();
    while history.len() > 0 && history[0].0 < frame
        invariant
            forall|j: int| 0 <= j < orig.len() - 1 ==> #[trigger] orig[j].0 < orig[j + 1].0,
            history@.len() <= orig.len(),
            orig_len == orig.len(),
            history@ =~= orig.skip(orig.len() - history@.len()),
            forall|j: int| 0 <= j < orig.len() - history@.len() ==> #[trigger] orig[j].0 < frame,
        decreases history@.len(),
    {
        proof {
            assert(history@[0] == orig[orig.len() - history@.len()]);
        }
        history.remove(0);
        proof {
            assert(history@ =~= orig.skip(orig.len() - history@.len()));
        }
    }
    let dropped = orig_len - history.len();
    proof {
        let d = orig.len() - history@.len();
        if d < orig.len() {
            assert(history@[0] == orig[d]);
        }
    }
    dropped
}

impl<S: RollbackState> SessionModel<S> {
    /// The model of a freshly created session.
    pub open spec fn initial(s: S, player_count: usize, max_rollback: u32, max_input_delay: u32, input_delay: u32, neutral: S::Input) -> Self {
        SessionModel {
            current_state: s,
            current_frame: 0,
            confirmed_state: s,
            confirmed_frame: 0,
            snapshots: Seq::empty(),
            pending: Seq::empty(),
            player_count,
            max_rollback_frames: max_rollback,
            max_input_delay,
            input_delay,
            local_queue: Seq::empty(),
            origin: s,
            log: Seq::empty(),
            neutral,
            last_confirmed: Seq::empty(),
        }
    }
}

} // verus!

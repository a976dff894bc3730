//! Properties of the rollback engine that span several operations.
use vstd::prelude::*;

use crate::error::RollbackError;
use crate::state::{lemma_run_append, run, RollbackState};
use crate::sync::{lemma_first_blocked, lemma_first_correction, SessionModel};

verus! {

/// Confirming the oldest `k` pending frames keeps the bookkeeping invariant.
proof fn lemma_confirm_first_frames_wf<S: RollbackState>(m: SessionModel<S>, k: nat)
    requires
        m.frames_wf(),
        k <= m.pending.len(),
    ensures
        m.confirm_first(k).frames_wf(),
{
    let t = m.confirm_first(k);
    let ki = k as int;
    let ins = m.pending_inputs();
    assert forall|i: int| 0 <= i < t.pending.len() implies #[trigger] t.pending[i].frame == t.confirmed_frame + i by {
        assert(m.pending[i + ki].frame == m.confirmed_frame + i + ki);
    }
    assert forall|i: int| 0 <= i < t.pending.len() implies (#[trigger] t.pending[i]).inputs.len() == t.player_count
        && t.pending[i].predicted.len() == t.player_count by {
        assert(m.pending[i + ki].inputs.len() == m.player_count);
    }
    let d = m.snapshots_before(k) as int;
    assert forall|j: int| 0 <= j < t.snapshots.len() implies #[trigger] t.snapshots[j].0 == t.current_frame - t.snapshots.len() + j by {
        assert(m.snapshots[j + d].0 == m.current_frame - m.snapshots.len() + j + d);
    }
    lemma_run_append(m.origin, m.log, ins.take(ki));
}

/// Confirmation leaves a well-formed session.
proof fn lemma_settled_wf<S: RollbackState>(m: SessionModel<S>)
    requires
        m.frames_wf(),
    ensures
        m.settled().wf(),
{
    lemma_first_blocked(m, 0);
    lemma_confirm_first_frames_wf(m, m.confirm_count());
    if m.confirm_count() < m.pending.len() {
        assert(m.blocked(m.confirm_count() as int));
    }
}

/// Confirming the oldest `k` pending frames keeps the states consistent with the inputs, and
/// keeps the recorded inputs.
proof fn lemma_confirm_first_consistent<S: RollbackState>(m: SessionModel<S>, k: nat)
    requires
        m.frames_wf(),
        m.consistent(),
        k <= m.pending.len(),
    ensures
        m.confirm_first(k).consistent(),
        m.confirm_first(k).recorded_inputs() == m.recorded_inputs(),
{
    let t = m.confirm_first(k);
    let ins = m.pending_inputs();
    let ki = k as int;
    assert(t.pending_inputs() =~= ins.skip(ki));
    assert(ins =~= ins.take(ki) + ins.skip(ki));
    lemma_run_append(m.confirmed_state, ins.take(ki), ins.skip(ki));
    assert(t.confirmed_frame == m.confirmed_frame + k);
    assert forall|j: int| 0 <= j < t.snapshots.len() implies #[trigger] t.snapshots[j].1 == run(
        t.confirmed_state,
        t.pending_inputs().take(t.snapshots[j].0 - t.confirmed_frame),
    ) by {
        let d = m.snapshots_before(k) as int;
        let jj = j + d;
        assert(t.snapshots[j] == m.snapshots[jj]);
        let f = m.snapshots[jj].0;
        assert(f == m.current_frame - m.snapshots.len() + jj);
        assert(f - m.confirmed_frame >= ki);
        let upto = f - m.confirmed_frame;
        assert(ins.take(upto) =~= ins.take(ki) + ins.skip(ki).take(upto - ki));
        lemma_run_append(m.confirmed_state, ins.take(ki), ins.skip(ki).take(upto - ki));
    }
    assert(t.recorded_inputs() =~= m.recorded_inputs());
}

/// Confirmation keeps the states consistent with the inputs, and keeps the recorded inputs.
proof fn lemma_settled_consistent<S: RollbackState>(m: SessionModel<S>)
    requires
        m.frames_wf(),
        m.consistent(),
    ensures
        m.settled().consistent(),
        m.settled().recorded_inputs() == m.recorded_inputs(),
{
    lemma_first_blocked(m, 0);
    lemma_confirm_first_consistent(m, m.confirm_count());
}

/// Simulating a frame keeps the states consistent with the inputs.
proof fn lemma_simulated_consistent<S: RollbackState>(m: SessionModel<S>, pid: usize)
    requires
        m.frames_wf(),
        m.consistent(),
    ensures
        m.simulated(pid).consistent(),
{
    let t = m.simulated(pid);
    let rec = m.next_record(pid);
    let ins = m.pending_inputs();
    assert(t.pending_inputs() =~= ins.push(rec.inputs));
    assert(t.pending_inputs().drop_last() =~= ins);
    let kept = if m.snapshots.len() >= m.max_rollback_frames && m.snapshots.len() > 0 {
        m.snapshots.skip(1)
    } else {
        m.snapshots
    };
    assert forall|j: int| 0 <= j < t.snapshots.len() implies #[trigger] t.snapshots[j].1 == run(
        t.confirmed_state,
        t.pending_inputs().take(t.snapshots[j].0 - t.confirmed_frame),
    ) by {
        if j < kept.len() {
            let jj = if m.snapshots.len() >= m.max_rollback_frames && m.snapshots.len() > 0 { j + 1 } else { j };
            assert(t.snapshots[j] == m.snapshots[jj]);
            let f = m.snapshots[jj].0;
            assert(f == m.current_frame - m.snapshots.len() + jj);
            assert(t.pending_inputs().take(f - m.confirmed_frame) =~= ins.take(f - m.confirmed_frame));
        } else {
            assert(t.snapshots[j] == (m.current_frame, m.current_state));
            assert(t.pending_inputs().take(m.current_frame - m.confirmed_frame) =~= ins);
        }
    }
}

/// Rolling back to `target` restores consistency after inputs changed at `target` or later.
proof fn lemma_rolled_back_consistent<S: RollbackState>(m: SessionModel<S>, m1: SessionModel<S>, target: u32)
    requires
        m.frames_wf(),
        m.consistent(),
        m1 == (SessionModel { pending: m1.pending, ..m }),
        m1.frames_wf(),
        m.position(target) is Some,
        !m.too_far(target),
        forall|i: int| 0 <= i < target - m.confirmed_frame ==> (#[trigger] m1.pending[i]).inputs == m.pending[i].inputs,
    ensures
        m1.rolled_back(target).consistent(),
        m1.rolled_back(target).recorded_inputs() == m1.recorded_inputs(),
{
    let t = target - m.confirmed_frame;
    let ins = m.pending_inputs();
    let ins1 = m1.pending_inputs();
    assert(ins1.take(t) =~= ins.take(t)) by {
        assert forall|i: int| 0 <= i < t implies #[trigger] ins1[i] == ins[i] by {
            assert(m1.pending[i].inputs == m.pending[i].inputs);
        }
    }
    let slen = m.snapshots.len() as int;
    assert(m.max_rollback_frames > 0);
    let js = target - (m.current_frame - slen);
    assert(0 <= js < slen);
    assert(m.snapshots[js].0 == target);
    let base = m.snapshot_of(target);
    assert(base == run(m.confirmed_state, ins.take(t)));
    let r = m1.rolled_back(target);
    assert(ins1 =~= ins1.take(t) + ins1.subrange(t, ins1.len() as int));
    lemma_run_append(m.confirmed_state, ins1.take(t), ins1.subrange(t, ins1.len() as int));
    assert(r.pending_inputs() == ins1);
    assert forall|j: int| 0 <= j < r.snapshots.len() implies #[trigger] r.snapshots[j].1 == run(
        r.confirmed_state,
        r.pending_inputs().take(r.snapshots[j].0 - r.confirmed_frame),
    ) by {
        let f = m.snapshots[j].0;
        assert(f == m.current_frame - slen + j);
        let upto = f - m.confirmed_frame;
        if f >= target {
            assert(ins1.take(upto) =~= ins1.take(t) + ins1.subrange(t, upto));
            lemma_run_append(m.confirmed_state, ins1.take(t), ins1.subrange(t, upto));
        } else {
            assert(ins1.take(upto) =~= ins.take(upto)) by {
                assert forall|i: int| 0 <= i < upto implies #[trigger] ins1[i] == ins[i] by {
                    assert(m1.pending[i].inputs == m.pending[i].inputs);
                }
            }
        }
    }
}

/// Recording an input that agrees with what the frame already holds as real keeps the
/// states consistent when it corrects no prediction.
proof fn lemma_agreeing_input_keeps_inputs<S: RollbackState>(m: SessionModel<S>, pid: usize, i: int, input: S::Input)
    requires
        m.frames_wf(),
        0 <= i < m.pending.len(),
        pid < m.player_count,
        m.agrees(pid, i, input),
        !m.mispredicted(pid, i, input),
    ensures
        m.with_input(pid, i, input).pending_inputs() == m.pending_inputs(),
{
    let rec = m.pending[i];
    assert(rec.inputs.update(pid as int, input) =~= rec.inputs);
    assert(m.with_input(pid, i, input).pending_inputs() =~= m.pending_inputs());
}

/// Consistency holds of a model whose inputs and states equal those of a consistent one.
proof fn lemma_same_inputs_consistent<S: RollbackState>(m: SessionModel<S>, m1: SessionModel<S>)
    requires
        m.consistent(),
        m1 == (SessionModel { pending: m1.pending, ..m }),
        m1.pending_inputs() == m.pending_inputs(),
    ensures
        m1.consistent(),
        m1.recorded_inputs() == m.recorded_inputs(),
{
}

/// Advancing a frame keeps the session consistent: afterwards the current state is again the
/// confirmed state advanced through the inputs of every pending frame, and every snapshot is
/// the confirmed state advanced up to its frame.
pub proof fn law_advance_frame_consistent<S: RollbackState>(m: SessionModel<S>, pid: usize, input: S::Input)
    requires
        m.wf(),
        m.consistent(),
        pid < m.player_count,
        m.current_frame < u32::MAX,
    ensures
        m.queued(pid, input).simulated(pid).settled().consistent(),
{
    let q = m.queued(pid, input);
    assert(q.pending_inputs() == m.pending_inputs());
    lemma_simulated_consistent(q, pid);
    crate::sync::lemma_simulated_frames_wf(q, pid);
    lemma_settled_consistent(q.simulated(pid));
}

/// A remote input that does not contradict an input already recorded as real keeps the
/// session consistent when it is accepted: with a rollback where it corrects a prediction,
/// without one where the prediction was right.
pub proof fn law_remote_input_consistent<S: RollbackState>(m: SessionModel<S>, pid: usize, frame: u32, input: S::Input)
    requires
        m.wf(),
        m.consistent(),
        pid < m.player_count,
        m.confirmed_frame <= frame,
        m.position(frame) matches Some(i) ==> m.agrees(pid, i, input),
        !(m.corrects(pid, frame, input) && m.too_far(frame)),
    ensures
        ({
            let m1 = m.with_remote_input(pid, frame, input);
            (if m.corrects(pid, frame, input) { m1.rolled_back(frame) } else { m1 }).settled().consistent()
        }),
{
    let m1 = m.with_remote_input(pid, frame, input);
    match m.position(frame) {
        Some(i) => {
            let rec = m.pending[i];
            assert(m1.pending[i].inputs.len() == m.player_count);
            assert forall|k: int| 0 <= k < m1.pending.len() implies #[trigger] m1.pending[k].frame == m1.confirmed_frame + k
                && m1.pending[k].inputs.len() == m1.player_count && m1.pending[k].predicted.len() == m1.player_count by {
                assert(m.pending[k].frame == m.confirmed_frame + k);
                assert(m.pending[k].inputs.len() == m.player_count);
            }
            assert(m1.frames_wf());
            if m.corrects(pid, frame, input) {
                lemma_rolled_back_consistent(m, m1, frame);
                crate::sync::lemma_rolled_back_frames_wf(m1, frame);
                lemma_settled_consistent(m1.rolled_back(frame));
            } else {
                lemma_agreeing_input_keeps_inputs(m, pid, i, input);
                lemma_same_inputs_consistent(m, m1);
                lemma_settled_consistent(m1);
            }
        },
        None => {
            lemma_settled_consistent(m);
        },
    }
}

/// A batch of remote inputs none of which contradicts an input already recorded as real
/// keeps the session consistent when it is accepted: the single rollback from the earliest
/// corrected prediction re-simulates every frame whose inputs changed.
pub proof fn law_remote_inputs_consistent<S: RollbackState>(m: SessionModel<S>, pid: usize, start: u32, batch: Seq<S::Input>)
    requires
        m.wf(),
        m.consistent(),
        pid < m.player_count,
        forall|i: int| 0 <= i < m.pending.len() && m.in_batch(start, batch, i) ==> #[trigger] m.agrees(pid, i, m.batch_input(start, batch, i)),
        ({
            let e = m.first_correction(pid, start, batch);
            !(e < m.pending.len() && m.too_far((m.confirmed_frame + e) as u32))
        }),
    ensures
        ({
            let m1 = m.with_remote_inputs(pid, start, batch);
            let e = m.first_correction(pid, start, batch);
            (if e < m.pending.len() { m1.rolled_back((m.confirmed_frame + e) as u32) } else { m1 }).settled().consistent()
        }),
{
    let m1 = m.with_remote_inputs(pid, start, batch);
    let e = m.first_correction(pid, start, batch);
    lemma_first_correction(m, pid, start, batch, 0);
    crate::sync::lemma_with_remote_inputs_wf(m, pid, start, batch);
    assert forall|i: int| 0 <= i < e implies (#[trigger] m1.pending[i]).inputs == m.pending[i].inputs by {
        if m.in_batch(start, batch, i) {
            assert(!m.batch_corrects(pid, start, batch, i));
            assert(m.agrees(pid, i, m.batch_input(start, batch, i)));
            assert(m.pending[i].inputs.update(pid as int, m.batch_input(start, batch, i)) =~= m.pending[i].inputs);
        }
    }
    if e < m.pending.len() {
        let f = (m.confirmed_frame + e) as u32;
        lemma_rolled_back_consistent(m, m1, f);
        crate::sync::lemma_rolled_back_frames_wf(m1, f);
        lemma_settled_consistent(m1.rolled_back(f));
    } else {
        assert(m1.pending_inputs() =~= m.pending_inputs()) by {
            assert forall|i: int| 0 <= i < m.pending.len() implies #[trigger] m1.pending[i].inputs == m.pending[i].inputs by {}
        }
        lemma_same_inputs_consistent(m, m1);
        lemma_settled_consistent(m1);
    }
}

/// Rollback and re-simulation give what a fresh simulation gives: in a consistent session
/// the current state is the initial state advanced through the inputs recorded for every
/// frame simulated so far.
pub proof fn law_current_state_is_replay<S: RollbackState>(m: SessionModel<S>)
    requires
        m.frames_wf(),
        m.consistent(),
    ensures
        m.current_state == run(m.origin, m.recorded_inputs()),
{
    lemma_run_append(m.origin, m.log, m.pending_inputs());
}

/// Confirmation moves frames from pending to confirmed without changing any recorded input.
pub proof fn law_confirmation_keeps_recorded_inputs<S: RollbackState>(m: SessionModel<S>)
    requires
        m.frames_wf(),
    ensures
        m.settled().recorded_inputs() == m.recorded_inputs(),
        m.settled().current_state == m.current_state,
        m.settled().current_frame == m.current_frame,
        m.settled().confirmed_frame >= m.confirmed_frame,
{
    lemma_first_blocked(m, 0);
    let k = m.confirm_count();
    let ins = m.pending_inputs();
    assert(m.settled().pending_inputs() =~= ins.skip(k as int));
    assert(ins =~= ins.take(k as int) + ins.skip(k as int));
    assert(m.settled().recorded_inputs() =~= m.recorded_inputs());
}

/// The session stays bounded: never more pending frames than `max_input_delay`, never more
/// snapshots than `max_rollback_frames` (one when that is 0), and the confirmed frame never
/// passes the current one.
pub proof fn law_session_bounded<S: RollbackState>(m: SessionModel<S>)
    requires
        m.wf(),
    ensures
        m.pending.len() <= m.max_input_delay,
        m.snapshots.len() <= m.max_rollback_frames || m.snapshots.len() <= 1,
        m.confirmed_frame <= m.current_frame,
{
}

/// Once every input of every pending frame is real, confirmation confirms them all: the
/// confirmed state catches up with the current state.
pub proof fn law_all_inputs_known_confirms_all<S: RollbackState>(m: SessionModel<S>)
    requires
        m.frames_wf(),
        m.consistent(),
        forall|i: int| 0 <= i < m.pending.len() ==> (#[trigger] m.pending[i]).fully_confirmed(),
    ensures
        m.settled().pending.len() == 0,
        m.settled().confirmed_frame == m.current_frame,
        m.settled().confirmed_state == m.current_state,
{
    lemma_first_blocked(m, 0);
    if m.confirm_count() < m.pending.len() {
        assert(m.blocked(m.confirm_count() as int));
    }
    assert(m.pending_inputs().take(m.pending.len() as int) =~= m.pending_inputs());
}

/// A rollback re-simulates without changing any recorded input, frame number or pending frame.
pub proof fn law_rollback_keeps_recorded_inputs<S: RollbackState>(m: SessionModel<S>, target: u32)
    ensures
        m.rolled_back(target).recorded_inputs() == m.recorded_inputs(),
        m.rolled_back(target).pending == m.pending,
        m.rolled_back(target).current_frame == m.current_frame,
        m.rolled_back(target).confirmed_frame == m.confirmed_frame,
        m.rolled_back(target).confirmed_state == m.confirmed_state,
{
}

/// A remote input that corrects no prediction leaves the current state as it was (no
/// rollback, no re-simulation).
pub proof fn law_right_prediction_keeps_state<S: RollbackState>(m: SessionModel<S>, pid: usize, frame: u32, input: S::Input)
    requires
        m.wf(),
        !m.corrects(pid, frame, input),
    ensures
        m.with_remote_input(pid, frame, input).settled().current_state == m.current_state,
{
}

/// A batch records what delivering its inputs one at a time records: delivering a batch
/// extended by one input is delivering the batch, then that input for the next frame.
pub proof fn law_batch_is_sequence_of_single_inputs<S: RollbackState>(
    m: SessionModel<S>,
    pid: usize,
    start: u32,
    batch: Seq<S::Input>,
    input: S::Input,
)
    requires
        m.frames_wf(),
        start + batch.len() <= u32::MAX,
    ensures
        m.with_remote_inputs(pid, start, batch.push(input)) == m.with_remote_inputs(pid, start, batch).with_remote_input(
            pid,
            (start + batch.len()) as u32,
            input,
        ),
{
    let a = m.with_remote_inputs(pid, start, batch.push(input));
    let b = m.with_remote_inputs(pid, start, batch);
    let f = (start + batch.len()) as u32;
    let c = b.with_remote_input(pid, f, input);
    assert(b.position(f) == m.position(f));
    assert(c.pending.len() == m.pending.len());
    assert forall|i: int| 0 <= i < m.pending.len() implies #[trigger] a.pending[i] == c.pending[i] by {
        if m.confirmed_frame + i == f {
            assert(m.position(f) == Some(i));
            assert(c == b.with_input(pid, i, input));
            assert(!m.in_batch(start, batch, i));
            assert(b.pending[i] == m.pending[i]);
            assert(m.batch_input(start, batch.push(input), i) == input);
        } else {
            if m.confirmed_frame <= f < m.current_frame {
                let p = f - m.confirmed_frame;
                assert(c == b.with_input(pid, p, input));
                assert(c.pending[i] == b.pending[i]);
            } else {
                assert(c == b);
            }
            if m.in_batch(start, batch, i) {
                assert(m.batch_input(start, batch.push(input), i) == m.batch_input(start, batch, i));
            }
        }
    }
    assert(a.pending =~= c.pending);
}

/// Without input delay, the frame that `advance_frame` simulates records the submitted input
/// as the real input of the local player (when no older input of that player is due).
pub proof fn law_no_delay_applies_input_now<S: RollbackState>(m: SessionModel<S>, pid: usize, input: S::Input)
    requires
        m.wf(),
        pid < m.player_count,
        m.current_frame < u32::MAX,
        m.input_delay == 0,
        forall|k: int| 0 <= k < m.local_queue.len() ==> !#[trigger] m.is_due(k, pid),
    ensures
        ({
            let t = m.queued(pid, input).simulated(pid);
            &&& t.pending.last().inputs[pid as int] == input
            &&& !t.pending.last().predicted[pid as int]
            &&& t.settled().recorded_inputs().last()[pid as int] == input
        }),
{
    let q = m.queued(pid, input);
    let n = m.local_queue.len();
    crate::sync::lemma_first_due(q, pid, 0);
    assert(q.is_due(n as int, pid));
    if q.due_index(pid) < n {
        assert(q.is_due(q.due_index(pid) as int, pid));
        assert(q.local_queue[q.due_index(pid) as int] == m.local_queue[q.due_index(pid) as int]);
        assert(m.is_due(q.due_index(pid) as int, pid));
    }
    assert(q.due_index(pid) == n);
    let t = q.simulated(pid);
    crate::sync::lemma_simulated_frames_wf(q, pid);
    law_confirmation_keeps_recorded_inputs(t);
    assert(t.recorded_inputs().last() == t.pending.last().inputs);
}

/// With input delay, the frame that `advance_frame` simulates predicts the local player's
/// input (when no older input of that player is due): the submitted input waits in the queue.
pub proof fn law_delay_defers_input<S: RollbackState>(m: SessionModel<S>, pid: usize, input: S::Input)
    requires
        m.wf(),
        pid < m.player_count,
        m.current_frame < u32::MAX,
        m.input_delay > 0,
        m.current_frame + m.input_delay <= u32::MAX,
        forall|k: int| 0 <= k < m.local_queue.len() ==> !#[trigger] m.is_due(k, pid),
    ensures
        ({
            let t = m.queued(pid, input).simulated(pid);
            &&& t.pending.last().predicted[pid as int]
            &&& t.pending.last().inputs[pid as int] == m.predicted_input(pid as int)
            &&& t.local_queue.last() == ((m.current_frame + m.input_delay) as u32, pid, input)
        }),
{
    let q = m.queued(pid, input);
    let n = m.local_queue.len();
    crate::sync::lemma_first_due(q, pid, 0);
    assert(!q.is_due(n as int, pid));
    if q.due_index(pid) < n + 1 {
        assert(q.is_due(q.due_index(pid) as int, pid));
        assert(q.local_queue[q.due_index(pid) as int] == m.local_queue[q.due_index(pid) as int]);
        assert(m.is_due(q.due_index(pid) as int, pid));
    }
}

/// Recording an input for one slot changes exactly that slot of the recorded inputs.
proof fn lemma_with_input_recorded<S: RollbackState>(x: SessionModel<S>, pid: usize, i: int, input: S::Input)
    requires
        x.frames_wf(),
        0 <= i < x.pending.len(),
        pid < x.player_count,
    ensures
        x.with_input(pid, i, input).frames_wf(),
        x.with_input(pid, i, input).recorded_inputs() == x.recorded_inputs().update(
            x.log.len() + i,
            x.recorded_inputs()[x.log.len() + i].update(pid as int, input),
        ),
{
    let t = x.with_input(pid, i, input);
    assert forall|k: int| 0 <= k < t.pending.len() implies #[trigger] t.pending[k].frame == t.confirmed_frame + k
        && t.pending[k].inputs.len() == t.player_count && t.pending[k].predicted.len() == t.player_count by {
        assert(x.pending[k].frame == x.confirmed_frame + k);
        assert(x.pending[k].inputs.len() == x.player_count);
    }
    assert(t.recorded_inputs() =~= x.recorded_inputs().update(
        x.log.len() + i,
        x.recorded_inputs()[x.log.len() + i].update(pid as int, input),
    ));
}

/// Delivering a batch at once gives what delivering its inputs one at a time gives: the same
/// current state and the same recorded inputs (when no input contradicts a real one and the
/// rollback window covers every pending frame).
pub proof fn law_batch_matches_single_deliveries<S: RollbackState>(m: SessionModel<S>, pid: usize, start: u32, xs: Seq<S::Input>)
    requires
        delivery_premise(m, pid, start, xs),
    ensures
        m.single_deliveries(pid, start, xs).current_state == m.batch_delivery(pid, start, xs).current_state,
        m.single_deliveries(pid, start, xs).recorded_inputs() == m.batch_delivery(pid, start, xs).recorded_inputs(),
{
    lemma_single_deliveries(m, pid, start, xs, xs.len());
    assert(xs.take(xs.len() as int) =~= xs);
    let sd = m.single_deliveries(pid, start, xs);
    let bd = m.batch_delivery(pid, start, xs);
    if xs.len() == 0 {
        assert(sd == m);
        assert(m.with_remote_inputs(pid, start, xs).pending =~= m.pending);
    } else {
        let m1 = m.with_remote_inputs(pid, start, xs);
        let e = m.first_correction(pid, start, xs);
        lemma_first_correction(m, pid, start, xs, 0);
        crate::sync::lemma_with_remote_inputs_wf(m, pid, start, xs);
        law_remote_inputs_consistent(m, pid, start, xs);
        if e < m.pending.len() {
            let f = (m.confirmed_frame + e) as u32;
            crate::sync::lemma_rolled_back_frames_wf(m1, f);
            law_confirmation_keeps_recorded_inputs(m1.rolled_back(f));
            lemma_settled_wf(m1.rolled_back(f));
        } else {
            law_confirmation_keeps_recorded_inputs(m1);
            lemma_settled_wf(m1);
        }
        law_current_state_is_replay(bd);
    }
    law_current_state_is_replay(sd);
}

/// The premise of delivering the batch `xs` of `pid` from frame `start` on, one input at a
/// time or at once: a well-formed consistent session, a valid player, frame numbers that do
/// not overflow, a rollback window that covers every pending frame, and no input of the
/// batch contradicting an input already recorded as real.
pub open spec fn delivery_premise<S: RollbackState>(m: SessionModel<S>, pid: usize, start: u32, xs: Seq<S::Input>) -> bool {
    &&& m.wf()
    &&& m.consistent()
    &&& pid < m.player_count
    &&& start + xs.len() <= u32::MAX + 1
    &&& m.pending.len() <= m.max_rollback_frames
    &&& forall|i: int| 0 <= i < m.pending.len() && m.in_batch(start, xs, i) ==> #[trigger] m.agrees(pid, i, m.batch_input(start, xs, i))
}

/// What stays true while a batch is delivered one input at a time: after the first `k`
/// inputs, the session is well formed and consistent, it records what the batch records for
/// those inputs, its prediction flags are those of the batch, and every frame it has confirmed
/// beyond the original confirmed frame that the batch has not reached held a real input of
/// `pid` already.
spec fn delivery_invariant<S: RollbackState>(m: SessionModel<S>, pid: usize, start: u32, xs: Seq<S::Input>, k: nat) -> bool {
    let sd = m.single_deliveries(pid, start, xs.take(k as int));
    let b = m.with_remote_inputs(pid, start, xs.take(k as int));
    &&& sd.wf()
    &&& sd.consistent()
    &&& sd.current_frame == m.current_frame
    &&& sd.player_count == m.player_count
    &&& sd.max_rollback_frames == m.max_rollback_frames
    &&& sd.max_input_delay == m.max_input_delay
    &&& sd.origin == m.origin
    &&& sd.confirmed_frame >= m.confirmed_frame
    &&& sd.recorded_inputs() == b.recorded_inputs()
    &&& forall|g: int| sd.confirmed_frame <= g < m.current_frame ==> (#[trigger] sd.pending[g - sd.confirmed_frame]).predicted
        == b.pending[g - m.confirmed_frame].predicted
    &&& forall|g: int| m.confirmed_frame <= g < sd.confirmed_frame && g >= start + k ==> !(#[trigger] m.pending[g - m.confirmed_frame]).predicted[pid as int]
}

/// The delivery invariant holds after every prefix of the batch.
proof fn lemma_single_deliveries<S: RollbackState>(m: SessionModel<S>, pid: usize, start: u32, xs: Seq<S::Input>, k: nat)
    requires
        delivery_premise(m, pid, start, xs),
        k <= xs.len(),
    ensures
        delivery_invariant(m, pid, start, xs, k),
    decreases k,
{
    if k == 0 {
        let sd = m.single_deliveries(pid, start, xs.take(0));
        let b = m.with_remote_inputs(pid, start, xs.take(0));
        assert(xs.take(0) =~= Seq::<S::Input>::empty());
        assert(sd == m);
        assert(b.pending =~= m.pending);
        assert(b == m);
    } else {
        let kk = (k - 1) as nat;
        lemma_single_deliveries(m, pid, start, xs, kk);
        let s0 = m.single_deliveries(pid, start, xs.take(kk as int));
        let f = start + kk;
        if f < s0.confirmed_frame {
            lemma_single_step_refused(m, pid, start, xs, kk);
        } else if f < m.current_frame {
            lemma_single_step_pending(m, pid, start, xs, kk);
        } else {
            lemma_single_step_ahead(m, pid, start, xs, kk);
        }
    }
}

/// The shape of confirmation: the first `confirm_count` pending frames move to the log, and
/// none of them blocked.
proof fn lemma_settled_shape<S: RollbackState>(x: SessionModel<S>)
    requires
        x.frames_wf(),
    ensures
        x.confirm_count() <= x.pending.len(),
        x.settled().confirmed_frame == x.confirmed_frame + x.confirm_count(),
        x.settled().pending == x.pending.skip(x.confirm_count() as int),
        x.settled().current_frame == x.current_frame,
        x.settled().current_state == x.current_state,
        x.settled().player_count == x.player_count,
        x.settled().max_rollback_frames == x.max_rollback_frames,
        x.settled().max_input_delay == x.max_input_delay,
        x.settled().origin == x.origin,
        forall|j: int| 0 <= j < x.confirm_count() ==> !#[trigger] x.blocked(j),
{
    lemma_first_blocked(x, 0);
}

/// Facts shared by the induction steps: how the next prefix relates to the previous one.
proof fn lemma_step_setup<S: RollbackState>(m: SessionModel<S>, pid: usize, start: u32, xs: Seq<S::Input>, kk: nat)
    requires
        delivery_premise(m, pid, start, xs),
        kk < xs.len(),
    ensures
        ({
            let k = kk + 1;
            let s0 = m.single_deliveries(pid, start, xs.take(kk as int));
            let b0 = m.with_remote_inputs(pid, start, xs.take(kk as int));
            let f = (start + kk) as u32;
            let x = xs[kk as int];
            &&& m.single_deliveries(pid, start, xs.take(k as int)) == s0.single_delivery(pid, f, x)
            &&& m.with_remote_inputs(pid, start, xs.take(k as int)) == b0.with_remote_input(pid, f, x)
            &&& b0.wf()
            &&& b0 == (SessionModel { pending: b0.pending, ..m })
            &&& f == start + kk
            &&& (m.confirmed_frame <= f < m.current_frame ==> {
                &&& b0.pending[f - m.confirmed_frame] == m.pending[f - m.confirmed_frame]
                &&& m.agrees(pid, f - m.confirmed_frame, x)
            })
            &&& forall|g: int| m.confirmed_frame <= g < m.current_frame && g > f ==> #[trigger] b0.pending[g - m.confirmed_frame] == m.pending[g - m.confirmed_frame]
        }),
{
    let k = kk + 1;
    let f = (start + kk) as u32;
    let x = xs[kk as int];
    let b0 = m.with_remote_inputs(pid, start, xs.take(kk as int));
    assert(xs.take(k as int).drop_last() =~= xs.take(kk as int));
    assert(xs.take(k as int).last() == x);
    assert(xs.take(k as int) =~= xs.take(kk as int).push(x));
    law_batch_is_sequence_of_single_inputs(m, pid, start, xs.take(kk as int), x);
    crate::sync::lemma_with_remote_inputs_wf(m, pid, start, xs.take(kk as int));
    if m.confirmed_frame <= f < m.current_frame {
        let mi = f - m.confirmed_frame;
        assert(!m.in_batch(start, xs.take(kk as int), mi));
        assert(m.in_batch(start, xs, mi));
        assert(m.batch_input(start, xs, mi) == x);
    }
    assert forall|g: int| m.confirmed_frame <= g < m.current_frame && g > f implies #[trigger] b0.pending[g - m.confirmed_frame] == m.pending[g - m.confirmed_frame] by {
        assert(!m.in_batch(start, xs.take(kk as int), g - m.confirmed_frame));
    }
}

/// Induction step when the next frame is already confirmed by the single deliveries: the
/// input is refused, and the batch records nothing new there.
proof fn lemma_single_step_refused<S: RollbackState>(m: SessionModel<S>, pid: usize, start: u32, xs: Seq<S::Input>, kk: nat)
    requires
        delivery_premise(m, pid, start, xs),
        kk < xs.len(),
        delivery_invariant(m, pid, start, xs, kk),
        start + kk < m.single_deliveries(pid, start, xs.take(kk as int)).confirmed_frame,
    ensures
        delivery_invariant(m, pid, start, xs, kk + 1),
{
    lemma_step_setup(m, pid, start, xs, kk);
    let s0 = m.single_deliveries(pid, start, xs.take(kk as int));
    let b0 = m.with_remote_inputs(pid, start, xs.take(kk as int));
    let f = (start + kk) as u32;
    let x = xs[kk as int];
    let b = b0.with_remote_input(pid, f, x);
    if m.confirmed_frame <= f {
        let mi = f - m.confirmed_frame;
        assert(!m.pending[mi].predicted[pid as int]);
        let r = b0.pending[mi];
        assert(r.inputs.update(pid as int, x) =~= r.inputs);
        assert(r.predicted.update(pid as int, false) =~= r.predicted);
        assert(b.pending =~= b0.pending);
    }
    assert(b == b0);
}

/// Induction step when the next frame is pending in the single deliveries: both record the
/// input there; the single delivery re-simulates where it corrects a prediction.
proof fn lemma_single_step_pending<S: RollbackState>(m: SessionModel<S>, pid: usize, start: u32, xs: Seq<S::Input>, kk: nat)
    requires
        delivery_premise(m, pid, start, xs),
        kk < xs.len(),
        delivery_invariant(m, pid, start, xs, kk),
        m.single_deliveries(pid, start, xs.take(kk as int)).confirmed_frame <= start + kk < m.current_frame,
    ensures
        delivery_invariant(m, pid, start, xs, kk + 1),
{
    lemma_step_setup(m, pid, start, xs, kk);
    let s0 = m.single_deliveries(pid, start, xs.take(kk as int));
    let b0 = m.with_remote_inputs(pid, start, xs.take(kk as int));
    let f = (start + kk) as u32;
    let x = xs[kk as int];
    let mi = f - m.confirmed_frame;
    let si = f - s0.confirmed_frame;
    // The slot agrees in the single deliveries too.
    assert(s0.pending[si].predicted == b0.pending[mi].predicted);
    assert(s0.recorded_inputs()[f as int] == s0.pending_inputs()[si]);
    assert(b0.recorded_inputs()[f as int] == b0.pending_inputs()[mi]);
    assert(s0.pending[si].inputs == m.pending[mi].inputs);
    assert(s0.agrees(pid, si, x));
    assert(s0.position(f) == Some(si));
    let m1 = s0.with_remote_input(pid, f, x);
    assert(m1 == s0.with_input(pid, si, x));
    lemma_with_input_recorded(s0, pid, si, x);
    lemma_with_input_recorded(b0, pid, mi, x);
    assert(b0.position(f) == Some(mi));
    law_remote_input_consistent(s0, pid, f, x);
    let mid = if s0.corrects(pid, f, x) { m1.rolled_back(f) } else { m1 };
    if s0.corrects(pid, f, x) {
        crate::sync::lemma_rolled_back_frames_wf(m1, f);
    }
    assert(mid.pending == m1.pending);
    assert(mid.recorded_inputs() == m1.recorded_inputs());
    lemma_settled_wf(mid);
    law_confirmation_keeps_recorded_inputs(mid);
    lemma_settled_shape(mid);
    let sd = mid.settled();
    let b = b0.with_input(pid, mi, x);
    assert(sd.recorded_inputs() =~= b.recorded_inputs());
    let c = mid.confirm_count() as int;
    assert forall|g: int| sd.confirmed_frame <= g < m.current_frame implies (#[trigger] sd.pending[g - sd.confirmed_frame]).predicted
        == b.pending[g - m.confirmed_frame].predicted by {
        assert(sd.pending[g - sd.confirmed_frame] == mid.pending[g - s0.confirmed_frame]);
        if g != f {
            assert(s0.pending[g - s0.confirmed_frame].predicted == b0.pending[g - m.confirmed_frame].predicted);
        }
    }
    assert forall|g: int| m.confirmed_frame <= g < sd.confirmed_frame && g >= start + kk + 1 implies !(#[trigger] m.pending[g - m.confirmed_frame]).predicted[pid as int] by {
        if g >= s0.confirmed_frame {
            let j = g - s0.confirmed_frame;
            assert(j < c);
            assert(!mid.blocked(j));
            assert(mid.pending.len() - j <= mid.max_input_delay);
            assert(mid.pending[j].fully_confirmed());
            assert(!mid.pending[j].predicted[pid as int]);
            assert(mid.pending[j] == s0.pending[j]);
            assert(s0.pending[j].predicted == b0.pending[g - m.confirmed_frame].predicted);
        }
    }
}

/// Induction step when the next frame has not been simulated: only confirmation runs in the
/// single deliveries, and the batch records nothing there.
proof fn lemma_single_step_ahead<S: RollbackState>(m: SessionModel<S>, pid: usize, start: u32, xs: Seq<S::Input>, kk: nat)
    requires
        delivery_premise(m, pid, start, xs),
        kk < xs.len(),
        delivery_invariant(m, pid, start, xs, kk),
        start + kk >= m.current_frame,
    ensures
        delivery_invariant(m, pid, start, xs, kk + 1),
{
    lemma_step_setup(m, pid, start, xs, kk);
    let s0 = m.single_deliveries(pid, start, xs.take(kk as int));
    let b0 = m.with_remote_inputs(pid, start, xs.take(kk as int));
    let f = (start + kk) as u32;
    let x = xs[kk as int];
    assert(s0.position(f) is None);
    assert(b0.position(f) is None);
    assert(s0.with_remote_input(pid, f, x) == s0);
    lemma_settled_wf(s0);
    lemma_settled_consistent(s0);
    law_confirmation_keeps_recorded_inputs(s0);
    lemma_settled_shape(s0);
    let sd = s0.settled();
    assert forall|g: int| sd.confirmed_frame <= g < m.current_frame implies (#[trigger] sd.pending[g - sd.confirmed_frame]).predicted
        == b0.pending[g - m.confirmed_frame].predicted by {
        assert(sd.pending[g - sd.confirmed_frame] == s0.pending[g - s0.confirmed_frame]);
    }
}

/// The session after `advance_frame(pid, xs[0])`, ..., `advance_frame(pid, xs[n - 1])`, in
/// that order.
pub open spec fn advanced_by<S: RollbackState>(m: SessionModel<S>, pid: usize, xs: Seq<S::Input>) -> SessionModel<S>
    decreases xs.len(),
{
    if xs.len() == 0 {
        m
    } else {
        advanced_by(m, pid, xs.drop_last()).queued(pid, xs.last()).simulated(pid).settled()
    }
}

/// The session after, for each `i` in order, `advance_frame(0, a[i])` and then
/// `add_remote_input(1, f, b[i])` for the frame `f` that this `advance_frame` simulated.
pub open spec fn interleaved<S: RollbackState>(m: SessionModel<S>, a: Seq<S::Input>, b: Seq<S::Input>) -> SessionModel<S>
    decreases a.len(),
{
    if a.len() == 0 {
        m
    } else {
        let p = interleaved(m, a.drop_last(), b);
        p.queued(0, a.last()).simulated(0).settled().single_delivery(1, p.current_frame, b[a.len() - 1])
    }
}

/// The inputs of two players frame by frame: `[a[i], b[i]]` for the `i`-th frame.
pub open spec fn paired<I>(a: Seq<I>, b: Seq<I>) -> Seq<Seq<I>> {
    Seq::new(a.len(), |i: int| seq![a[i], b[i]])
}

/// A two-player session without input delay in which nothing is pending, with room for `n`
/// more frames: they fit in the rollback window and within `max_input_delay`, and their
/// numbers do not overflow.
pub open spec fn two_player_room<S: RollbackState>(m: SessionModel<S>, n: nat) -> bool {
    &&& m.wf()
    &&& m.consistent()
    &&& m.pending.len() == 0
    &&& m.local_queue.len() == 0
    &&& m.player_count == 2
    &&& m.input_delay == 0
    &&& n <= m.max_input_delay
    &&& n <= m.max_rollback_frames
    &&& m.current_frame + n <= u32::MAX
}

/// The model fields that no operation changes are those of `m`.
pub open spec fn same_setup<S: RollbackState>(t: SessionModel<S>, m: SessionModel<S>) -> bool {
    &&& t.player_count == m.player_count
    &&& t.input_delay == m.input_delay
    &&& t.max_input_delay == m.max_input_delay
    &&& t.max_rollback_frames == m.max_rollback_frames
    &&& t.origin == m.origin
}

/// With an empty local queue and no delay, `advance_frame(pid, x)` uses `x` for the new frame
/// and predicts the other slots; when that frame stays blocked, nothing is confirmed.
proof fn lemma_advance_once<S: RollbackState>(p: SessionModel<S>, x: S::Input)
    requires
        p.wf(),
        p.consistent(),
        p.local_queue.len() == 0,
        p.input_delay == 0,
        p.player_count == 2,
        p.current_frame < u32::MAX,
        p.pending.len() + 1 <= p.max_input_delay,
        forall|i: int| 0 <= i < p.pending.len() ==> (#[trigger] p.pending[i]).predicted[1],
    ensures
        ({
            let t = p.queued(0, x).simulated(0);
            let rec = t.pending.last();
            &&& t.settled() == t
            &&& t.wf()
            &&& t.consistent()
            &&& t.pending == p.pending.push(rec)
            &&& rec.inputs.len() == 2
            &&& rec.predicted.len() == 2
            &&& rec.inputs[0] == x
            &&& !rec.predicted[0]
            &&& rec.predicted[1]
            &&& t.local_queue.len() == 0
            &&& t.current_frame == p.current_frame + 1
            &&& t.confirmed_frame == p.confirmed_frame
            &&& t.log == p.log
            &&& same_setup(t, p)
        }),
{
    let q = p.queued(0, x);
    assert(q.is_due(0, 0));
    assert(q.due_index(0) == 0);
    let t = q.simulated(0);
    crate::sync::lemma_simulated_frames_wf(q, 0);
    law_advance_frame_consistent(p, 0, x);
    if p.pending.len() > 0 {
        assert(t.pending[0] == p.pending[0]);
    }
    assert(t.pending[0].predicted[1]);
    assert(!t.pending[0].fully_confirmed());
    assert(t.blocked(0));
    assert(t.confirm_count() == 0);
    crate::sync::lemma_confirm_none(t);
    assert(t.local_queue =~= Seq::<(u32, usize, S::Input)>::empty());
}

/// Once every pending frame's inputs are all real, confirmation empties the pending frames,
/// and the log is then every recorded input.
proof fn lemma_settle_all<S: RollbackState>(z: SessionModel<S>)
    requires
        z.frames_wf(),
        forall|i: int| 0 <= i < z.pending.len() ==> (#[trigger] z.pending[i]).fully_confirmed(),
    ensures
        z.settled().pending.len() == 0,
        z.settled().log == z.recorded_inputs(),
        z.settled().wf(),
{
    lemma_settled_shape(z);
    lemma_first_blocked(z, 0);
    if z.confirm_count() < z.pending.len() {
        assert(z.blocked(z.confirm_count() as int));
    }
    lemma_settled_wf(z);
    law_confirmation_keeps_recorded_inputs(z);
    assert(z.settled().pending_inputs() =~= Seq::<Seq<S::Input>>::empty());
    assert(z.settled().recorded_inputs() =~= z.settled().log);
}

/// The interleaved path: after `k` frames, each confirmed as soon as the remote input for it
/// arrived, nothing is pending and the log holds the paired inputs.
proof fn lemma_interleaved<S: RollbackState>(m: SessionModel<S>, a: Seq<S::Input>, b: Seq<S::Input>, k: nat)
    requires
        two_player_room(m, a.len()),
        b.len() == a.len(),
        k <= a.len(),
    ensures
        ({
            let t = interleaved(m, a.take(k as int), b);
            &&& t.wf()
            &&& t.consistent()
            &&& t.pending.len() == 0
            &&& t.local_queue.len() == 0
            &&& t.current_frame == m.current_frame + k
            &&& t.log == m.log + paired(a, b).take(k as int)
            &&& same_setup(t, m)
        }),
    decreases k,
{
    if k == 0 {
        assert(a.take(0) =~= Seq::<S::Input>::empty());
        assert(m.log + paired(a, b).take(0) =~= m.log);
    } else {
        let kk = (k - 1) as nat;
        lemma_interleaved(m, a, b, kk);
        assert(a.take(k as int).drop_last() =~= a.take(kk as int));
        let p = interleaved(m, a.take(kk as int), b);
        let x = a[kk as int];
        let y = b[kk as int];
        let f = p.current_frame;
        assert(a.take(k as int).last() == x);
        assert(interleaved(m, a.take(k as int), b) == p.queued(0, x).simulated(0).settled().single_delivery(1, f, y));
        lemma_advance_once(p, x);
        let s1 = p.queued(0, x).simulated(0);
        assert(s1.settled() == s1);
        let rec = s1.pending.last();
        assert(s1.pending.len() == 1);
        assert(s1.position(f) == Some(0int));
        assert(!s1.too_far(f));
        let m1 = s1.with_remote_input(1, f, y);
        assert(m1 == s1.with_input(1, 0, y));
        lemma_with_input_recorded(s1, 1, 0, y);
        let z = if s1.corrects(1, f, y) { m1.rolled_back(f) } else { m1 };
        law_rollback_keeps_recorded_inputs(m1, f);
        crate::sync::lemma_rolled_back_frames_wf(m1, f);
        assert(z.pending == m1.pending);
        assert(z.pending[0].predicted =~= seq![false, false]);
        assert(z.pending[0].fully_confirmed());
        lemma_settle_all(z);
        law_remote_input_consistent(s1, 1, f, y);
        let r = z.settled();
        assert(r == interleaved(m, a.take(k as int), b));
        assert(s1.recorded_inputs() =~= p.log.push(rec.inputs));
        assert(rec.inputs.update(1, y) =~= seq![x, y]);
        assert(z.recorded_inputs() =~= p.log.push(seq![x, y]));
        assert(paired(a, b).take(k as int) =~= paired(a, b).take(kk as int).push(seq![x, y]));
        assert(r.log =~= m.log + paired(a, b).take(k as int));
        lemma_settled_shape(z);
        assert(r.local_queue =~= Seq::<(u32, usize, S::Input)>::empty());
    }
}

/// The batch path before the batch: after `k` frames without any remote input, every frame
/// is pending, holds the local input as real and a prediction for the remote player.
proof fn lemma_advanced<S: RollbackState>(m: SessionModel<S>, a: Seq<S::Input>, k: nat)
    requires
        two_player_room(m, a.len()),
        k <= a.len(),
    ensures
        ({
            let t = advanced_by(m, 0, a.take(k as int));
            &&& t.wf()
            &&& t.consistent()
            &&& t.pending.len() == k
            &&& t.local_queue.len() == 0
            &&& t.current_frame == m.current_frame + k
            &&& t.confirmed_frame == m.confirmed_frame
            &&& t.log == m.log
            &&& same_setup(t, m)
            &&& forall|i: int| 0 <= i < k ==> {
                &&& (#[trigger] t.pending[i]).inputs[0] == a[i]
                &&& !t.pending[i].predicted[0]
                &&& t.pending[i].predicted[1]
            }
        }),
    decreases k,
{
    if k == 0 {
        assert(a.take(0) =~= Seq::<S::Input>::empty());
    } else {
        let kk = (k - 1) as nat;
        lemma_advanced(m, a, kk);
        assert(a.take(k as int).drop_last() =~= a.take(kk as int));
        assert(a.take(k as int).last() == a[kk as int]);
        let p = advanced_by(m, 0, a.take(kk as int));
        lemma_advance_once(p, a[kk as int]);
        let t = p.queued(0, a[kk as int]).simulated(0);
        assert(advanced_by(m, 0, a.take(k as int)) == t.settled());
        assert forall|i: int| 0 <= i < k implies {
            &&& (#[trigger] t.pending[i]).inputs[0] == a[i]
            &&& !t.pending[i].predicted[0]
            &&& t.pending[i].predicted[1]
        } by {
            if i < kk {
                assert(t.pending[i] == p.pending[i]);
            }
        }
    }
}

/// The batch path: after `n` frames without remote input, the batch of remote inputs for
/// them is accepted, and afterwards every frame is confirmed with the paired inputs.
proof fn lemma_batch_after_frames<S: RollbackState>(m: SessionModel<S>, a: Seq<S::Input>, b: Seq<S::Input>)
    requires
        two_player_room(m, a.len()),
        b.len() == a.len(),
    ensures
        ({
            let s = advanced_by(m, 0, a);
            let bd = s.batch_delivery(1, m.current_frame, b);
            &&& s.batch_result(1, m.current_frame, b) is Ok
            &&& bd.wf()
            &&& bd.consistent()
            &&& bd.pending.len() == 0
            &&& bd.current_frame == m.current_frame + a.len()
            &&& bd.log == m.log + paired(a, b)
            &&& bd.origin == m.origin
        }),
{
    let n = a.len();
    assert(a.take(n as int) =~= a);
    lemma_advanced(m, a, n);
    let s = advanced_by(m, 0, a);
    let bd = s.batch_delivery(1, m.current_frame, b);
    lemma_first_correction(s, 1, m.current_frame, b, 0);
    let e = s.first_correction(1, m.current_frame, b);
    if n == 0 {
        assert(s == m);
        assert(bd == m);
        assert(paired(a, b) =~= Seq::<Seq<S::Input>>::empty());
        assert(m.log + paired(a, b) =~= m.log);
    } else {
        let cf = m.current_frame;
        let m1 = s.with_remote_inputs(1, cf, b);
        crate::sync::lemma_with_remote_inputs_wf(s, 1, cf, b);
        if e < s.pending.len() {
            assert(!s.too_far((s.confirmed_frame + e) as u32));
        }
        let z = if e < s.pending.len() { m1.rolled_back((s.confirmed_frame + e) as u32) } else { m1 };
        law_rollback_keeps_recorded_inputs(m1, (s.confirmed_frame + e) as u32);
        crate::sync::lemma_rolled_back_frames_wf(m1, (s.confirmed_frame + e) as u32);
        assert forall|i: int| 0 <= i < z.pending.len() implies (#[trigger] z.pending[i]).fully_confirmed() by {
            assert(s.in_batch(cf, b, i));
            assert(z.pending[i] == m1.pending[i]);
            assert(m1.pending[i].predicted =~= seq![false, false]);
        }
        lemma_settle_all(z);
        assert forall|i: int| 0 <= i < n implies #[trigger] m1.pending_inputs()[i] =~= paired(a, b)[i] by {
            assert(s.in_batch(cf, b, i));
            assert(s.batch_input(cf, b, i) == b[i]);
            assert(s.pending[i].inputs.len() == 2);
        }
        assert(m1.pending_inputs() =~= paired(a, b));
        assert(bd.log =~= m.log + paired(a, b));
        law_remote_inputs_consistent(s, 1, cf, b);
        lemma_settled_shape(z);
    }
}

/// A session whose model equals `m` except for the input predicted before any input is known
/// (each session takes its own from `Default`) has room for the same frames.
proof fn lemma_other_neutral<S: RollbackState>(m: SessionModel<S>, m2: SessionModel<S>, n: nat)
    requires
        two_player_room(m, n),
        m2 == (SessionModel { neutral: m2.neutral, ..m }),
    ensures
        two_player_room(m2, n),
        m2.log == m.log,
        m2.origin == m.origin,
        m2.current_frame == m.current_frame,
{
    assert(m2.pending_inputs() == m.pending_inputs());
}

/// In a consistent session with nothing pending, the current and the confirmed state are the
/// origin advanced through the log.
proof fn lemma_nothing_pending<S: RollbackState>(x: SessionModel<S>)
    requires
        x.wf(),
        x.consistent(),
        x.pending.len() == 0,
    ensures
        x.current_state == run(x.origin, x.log),
        x.confirmed_state == run(x.origin, x.log),
        x.confirmed_frame == x.current_frame,
{
    assert(x.pending_inputs() =~= Seq::<Seq<S::Input>>::empty());
}

/// Rollback gives what a fresh simulation gives: in a two-player session without input delay,
/// simulating `n` frames with local inputs `a` and then receiving the remote inputs `b` for
/// them as one batch ends in the same state as receiving each remote input right after its
/// frame was simulated, and confirms the same frames with the same confirmed state (when the
/// `n` frames fit in the rollback window and within `max_input_delay`). The batch is accepted.
/// The two sessions may have been created separately: they may differ in the input that
/// their `Default` call gave.
pub proof fn law_interleaved_matches_batch<S: RollbackState>(
    m: SessionModel<S>,
    m2: SessionModel<S>,
    a: Seq<S::Input>,
    b: Seq<S::Input>,
)
    requires
        two_player_room(m, a.len()),
        m2 == (SessionModel { neutral: m2.neutral, ..m }),
        b.len() == a.len(),
    ensures
        ({
            let r = interleaved(m, a, b);
            let s = advanced_by(m2, 0, a);
            let bd = s.batch_delivery(1, m2.current_frame, b);
            &&& s.batch_result(1, m2.current_frame, b) is Ok
            &&& r.current_state == bd.current_state
            &&& r.current_frame == bd.current_frame
            &&& r.confirmed_frame == bd.confirmed_frame
            &&& r.confirmed_state == bd.confirmed_state
        }),
{
    let n = a.len();
    assert(a.take(n as int) =~= a);
    assert(paired(a, b).take(n as int) =~= paired(a, b));
    lemma_other_neutral(m, m2, n);
    lemma_interleaved(m, a, b, n);
    lemma_batch_after_frames(m2, a, b);
    lemma_nothing_pending(interleaved(m, a, b));
    lemma_nothing_pending(advanced_by(m2, 0, a).batch_delivery(1, m2.current_frame, b));
}

/// Batch delivery and one-by-one delivery give the same state: in a two-player session
/// without input delay, after simulating `n` frames with local inputs `a`, receiving the
/// remote inputs `b` for them as one batch or one `add_remote_input` at a time ends in the
/// same current state (when the `n` frames fit in the rollback window and within
/// `max_input_delay`). The two sessions may have been created separately: they may differ in
/// the input that their `Default` call gave.
pub proof fn law_batch_matches_individual_after_frames<S: RollbackState>(
    m: SessionModel<S>,
    m2: SessionModel<S>,
    a: Seq<S::Input>,
    b: Seq<S::Input>,
)
    requires
        two_player_room(m, a.len()),
        m2 == (SessionModel { neutral: m2.neutral, ..m }),
        b.len() == a.len(),
    ensures
        ({
            let s1 = advanced_by(m, 0, a);
            let s2 = advanced_by(m2, 0, a);
            &&& s2.batch_result(1, m2.current_frame, b) is Ok
            &&& s1.single_deliveries(1, m.current_frame, b).current_state == s2.batch_delivery(1, m2.current_frame, b).current_state
        }),
{
    let n = a.len();
    assert(a.take(n as int) =~= a);
    lemma_other_neutral(m, m2, n);
    lemma_advanced(m, a, n);
    let s1 = advanced_by(m, 0, a);
    assert forall|i: int| 0 <= i < s1.pending.len() && s1.in_batch(m.current_frame, b, i) implies
        #[trigger] s1.agrees(1, i, s1.batch_input(m.current_frame, b, i)) by {
        assert(s1.pending[i].predicted[1]);
    }
    law_batch_matches_single_deliveries(s1, 1, m.current_frame, b);
    lemma_batch_after_frames(m, a, b);
    lemma_batch_after_frames(m2, a, b);
    lemma_nothing_pending(s1.batch_delivery(1, m.current_frame, b));
    lemma_nothing_pending(advanced_by(m2, 0, a).batch_delivery(1, m2.current_frame, b));
}

/// The delayed local inputs still waiting after the calls `advance_frame(pid, xs[j])` for
/// `j < k`, made from frame `start` on with input delay `d`: those of the last `min(k, d)`
/// calls, oldest first, each for the frame `d` frames after the one it was submitted at.
pub open spec fn waiting<I>(start: u32, d: u32, pid: usize, xs: Seq<I>, k: nat) -> Seq<(u32, usize, I)> {
    let w: nat = if k < d { k } else { d as nat };
    Seq::new(w, |i: int| ((start + (k - w) + i + d) as u32, pid, xs[k - w + i]))
}

/// The prediction for a player is its input in the latest recorded frame (the neutral input
/// before any frame).
proof fn lemma_prediction_is_last_recorded<S: RollbackState>(m: SessionModel<S>, q: int)
    requires
        m.frames_wf(),
    ensures
        m.predicted_input(q) == if m.recorded_inputs().len() > 0 { m.recorded_inputs().last()[q] } else { m.neutral },
{
    if m.pending.len() > 0 {
        assert(m.recorded_inputs().last() == m.pending_inputs().last());
    } else {
        assert(m.recorded_inputs() =~= m.log);
    }
}

/// One step of the delay law.
proof fn lemma_delay_step<S: RollbackState>(m: SessionModel<S>, pid: usize, xs: Seq<S::Input>, k: nat)
    requires
        m.wf(),
        pid < m.player_count,
        m.local_queue.len() == 0,
        m.current_frame + xs.len() + m.input_delay <= u32::MAX,
        k < xs.len(),
        ({
            let t = advanced_by(m, pid, xs.take(k as int));
            &&& t.wf()
            &&& t.current_frame == m.current_frame + k
            &&& t.local_queue == waiting(m.current_frame, m.input_delay, pid, xs, k)
            &&& t.input_delay == m.input_delay
            &&& t.player_count == m.player_count
        }),
    ensures
        ({
            let t = advanced_by(m, pid, xs.take(k as int));
            let t2 = advanced_by(m, pid, xs.take(k + 1int));
            let d = m.input_delay;
            &&& t2.wf()
            &&& t2.current_frame == m.current_frame + k + 1
            &&& t2.local_queue == waiting(m.current_frame, d, pid, xs, k + 1)
            &&& t2.input_delay == m.input_delay
            &&& t2.player_count == m.player_count
            &&& t2.recorded_inputs() == t.recorded_inputs().push(t2.recorded_inputs().last())
            &&& t2.recorded_inputs().last().len() == m.player_count
            &&& t2.recorded_inputs().last()[pid as int] == if k >= d { xs[k - d] } else { t.predicted_input(pid as int) }
        }),
{
    let t = advanced_by(m, pid, xs.take(k as int));
    let d = m.input_delay;
    let x = xs[k as int];
    assert(xs.take(k + 1int).drop_last() =~= xs.take(k as int));
    assert(xs.take(k + 1int).last() == x);
    let q = t.queued(pid, x);
    let w: nat = if k < d { k } else { d as nat };
    crate::sync::lemma_first_due(q, pid, 0);
    let cf = t.current_frame;
    if k >= d {
        assert(q.is_due(0, pid)) by {
            if w > 0 {
                assert(q.local_queue[0] == t.local_queue[0]);
            }
        }
        assert(q.due_index(pid) == 0);
    } else {
        assert forall|i: int| 0 <= i < q.local_queue.len() implies !#[trigger] q.is_due(i, pid) by {
            if i < w {
                assert(q.local_queue[i] == t.local_queue[i]);
            }
        }
        if q.due_index(pid) < q.local_queue.len() {
            assert(q.is_due(q.due_index(pid) as int, pid));
        }
        assert(q.due_index(pid) == q.local_queue.len());
    }
    let u = q.simulated(pid);
    crate::sync::lemma_simulated_frames_wf(q, pid);
    lemma_settled_wf(u);
    law_confirmation_keeps_recorded_inputs(u);
    let t2 = u.settled();
    assert(advanced_by(m, pid, xs.take(k + 1int)) == t2);
    lemma_settled_shape(u);
    assert(u.recorded_inputs() =~= t.recorded_inputs().push(q.next_record(pid).inputs));
    assert(t2.local_queue == u.local_queue);
    assert(t2.local_queue =~= waiting(m.current_frame, d, pid, xs, k + 1));
}

/// Input delay across calls: when every `advance_frame` call uses the same local player, the
/// input submitted at frame `f` becomes that player's input for frame `f + input_delay`,
/// applied by the call that simulates that frame and by no earlier one (until then it waits
/// in the queue); in the first `input_delay` frames the player's slot is filled by
/// prediction, each frame repeating the previous one (the prediction the session held before
/// the first call, at first). The inputs recorded for earlier frames stay as they were.
pub proof fn law_input_delay_across_calls<S: RollbackState>(m: SessionModel<S>, pid: usize, xs: Seq<S::Input>)
    requires
        m.wf(),
        pid < m.player_count,
        m.local_queue.len() == 0,
        m.current_frame + xs.len() + m.input_delay <= u32::MAX,
    ensures
        ({
            let t = advanced_by(m, pid, xs);
            let f0 = m.current_frame as int;
            let d = m.input_delay as int;
            let rec = t.recorded_inputs();
            &&& t.current_frame == m.current_frame + xs.len()
            &&& rec.len() == f0 + xs.len()
            &&& rec.take(f0) == m.recorded_inputs()
            &&& t.local_queue == waiting(m.current_frame, m.input_delay, pid, xs, xs.len())
            &&& forall|j: int| d <= j < xs.len() ==> #[trigger] rec[f0 + j][pid as int] == xs[j - d]
            &&& forall|j: int| 0 <= j < xs.len() && j < d ==> #[trigger] rec[f0 + j][pid as int] == if j == 0 {
                m.predicted_input(pid as int)
            } else {
                rec[f0 + j - 1][pid as int]
            }
        }),
{
    lemma_delay_law(m, pid, xs, xs.len());
    assert(xs.take(xs.len() as int) =~= xs);
}

/// The delay law for the first `k` calls.
proof fn lemma_delay_law<S: RollbackState>(m: SessionModel<S>, pid: usize, xs: Seq<S::Input>, k: nat)
    requires
        m.wf(),
        pid < m.player_count,
        m.local_queue.len() == 0,
        m.current_frame + xs.len() + m.input_delay <= u32::MAX,
        k <= xs.len(),
    ensures
        ({
            let t = advanced_by(m, pid, xs.take(k as int));
            let f0 = m.current_frame as int;
            let d = m.input_delay as int;
            let rec = t.recorded_inputs();
            &&& t.wf()
            &&& t.current_frame == m.current_frame + k
            &&& t.input_delay == m.input_delay
            &&& t.player_count == m.player_count
            &&& rec.len() == f0 + k
            &&& rec.take(f0) == m.recorded_inputs()
            &&& t.local_queue == waiting(m.current_frame, m.input_delay, pid, xs, k)
            &&& forall|j: int| d <= j < k ==> #[trigger] rec[f0 + j][pid as int] == xs[j - d]
            &&& forall|j: int| 0 <= j < k && j < d ==> #[trigger] rec[f0 + j][pid as int] == if j == 0 {
                m.predicted_input(pid as int)
            } else {
                rec[f0 + j - 1][pid as int]
            }
        }),
    decreases k,
{
    let f0 = m.current_frame as int;
    if k == 0 {
        assert(xs.take(0) =~= Seq::<S::Input>::empty());
        assert(m.recorded_inputs().len() == f0);
        assert(m.recorded_inputs().take(f0) =~= m.recorded_inputs());
        assert(waiting(m.current_frame, m.input_delay, pid, xs, 0) =~= m.local_queue);
    } else {
        let kk = (k - 1) as nat;
        lemma_delay_law(m, pid, xs, kk);
        lemma_delay_step(m, pid, xs, kk);
        let t = advanced_by(m, pid, xs.take(kk as int));
        let t2 = advanced_by(m, pid, xs.take(k as int));
        let rec = t.recorded_inputs();
        let rec2 = t2.recorded_inputs();
        lemma_prediction_is_last_recorded(t, pid as int);
        assert(rec2.take(f0) =~= rec.take(f0));
        assert forall|j: int| 0 <= j < kk implies #[trigger] rec2[f0 + j] == rec[f0 + j] by {}
        if kk == 0 {
            assert(t == m) by {
                assert(xs.take(0) =~= Seq::<S::Input>::empty());
            }
        }
    }
}

/// Confirmation decides frame by frame, oldest first: it confirms the oldest pending frames
/// each of which has every input real or has waited more than `max_input_delay` frames, and
/// stops at the first frame that has neither; what stays pending are the newest frames, the
/// oldest of which still holds a predicted input and has waited at most `max_input_delay`
/// frames. Later pending frames play no part.
pub proof fn law_confirmation_stops_at_first_unready_frame<S: RollbackState>(m: SessionModel<S>)
    requires
        m.frames_wf(),
    ensures
        ({
            let t = m.settled();
            let c = m.pending.len() - t.pending.len();
            &&& t.pending.len() <= m.pending.len()
            &&& t.pending == m.pending.skip(c)
            &&& t.confirmed_frame == m.confirmed_frame + c
            &&& t.log == m.log + m.pending_inputs().take(c)
            &&& forall|j: int| #![trigger m.pending[j]] 0 <= j < c ==> (forall|p: int| 0 <= p < m.player_count ==> !#[trigger] m.pending[j].predicted[p])
                || m.pending.len() - j > m.max_input_delay
            &&& t.pending.len() > 0 ==> (exists|p: int| 0 <= p < m.player_count && #[trigger] t.pending[0].predicted[p])
                && t.pending.len() <= m.max_input_delay
        }),
{
    lemma_settled_shape(m);
    lemma_first_blocked(m, 0);
    let c = m.confirm_count();
    assert forall|j: int| #![trigger m.pending[j]] 0 <= j < c implies (forall|p: int| 0 <= p < m.player_count ==> !#[trigger] m.pending[j].predicted[p])
        || m.pending.len() - j > m.max_input_delay by {
        assert(!m.blocked(j));
        assert(m.pending[j].predicted.len() == m.player_count);
    }
    if c < m.pending.len() {
        assert(m.blocked(c as int));
        assert(m.settled().pending[0] == m.pending[c as int]);
        assert(m.pending[c as int].predicted.len() == m.player_count);
        let p = choose|p: int| 0 <= p < m.pending[c as int].predicted.len() && m.pending[c as int].predicted[p];
        assert(m.settled().pending[0].predicted[p]);
    }
}

/// After a frame is advanced, or remote inputs are accepted, the oldest pending frame (if
/// any) still holds a predicted input: no frame whose inputs are all real waits behind
/// another.
pub proof fn law_operations_confirm_ready_frames<S: RollbackState>(
    m: SessionModel<S>,
    pid: usize,
    x: S::Input,
    frame: u32,
    start: u32,
    xs: Seq<S::Input>,
)
    requires
        m.wf(),
    ensures
        pid < m.player_count && m.current_frame < u32::MAX ==> ({
            let t = m.queued(pid, x).simulated(pid).settled();
            t.pending.len() > 0 ==> exists|p: int| 0 <= p < m.player_count && #[trigger] t.pending[0].predicted[p]
        }),
        m.single_result(pid, frame, x) is Ok ==> ({
            let t = m.single_delivery(pid, frame, x);
            t.pending.len() > 0 ==> exists|p: int| 0 <= p < m.player_count && #[trigger] t.pending[0].predicted[p]
        }),
        m.batch_result(pid, start, xs) is Ok && xs.len() > 0 ==> ({
            let t = m.batch_delivery(pid, start, xs);
            t.pending.len() > 0 ==> exists|p: int| 0 <= p < m.player_count && #[trigger] t.pending[0].predicted[p]
        }),
{
    if pid < m.player_count && m.current_frame < u32::MAX {
        let q = m.queued(pid, x);
        crate::sync::lemma_simulated_frames_wf(q, pid);
        law_confirmation_stops_at_first_unready_frame(q.simulated(pid));
    }
    if m.single_result(pid, frame, x) is Ok {
        let m1 = m.with_remote_input(pid, frame, x);
        match m.position(frame) {
            Some(i) => {
                lemma_with_input_recorded(m, pid, i, x);
            },
            None => {},
        }
        assert(m1.frames_wf());
        crate::sync::lemma_rolled_back_frames_wf(m1, frame);
        law_confirmation_stops_at_first_unready_frame(m1);
        law_confirmation_stops_at_first_unready_frame(m1.rolled_back(frame));
    }
    if m.batch_result(pid, start, xs) is Ok && xs.len() > 0 {
        let m1 = m.with_remote_inputs(pid, start, xs);
        let f = (m.confirmed_frame + m.first_correction(pid, start, xs)) as u32;
        crate::sync::lemma_with_remote_inputs_wf(m, pid, start, xs);
        crate::sync::lemma_rolled_back_frames_wf(m1, f);
        law_confirmation_stops_at_first_unready_frame(m1);
        law_confirmation_stops_at_first_unready_frame(m1.rolled_back(f));
    }
}

/// Pending frame `i` holds a prediction for `pid` that the batch `xs` from frame `start`
/// contradicts.
pub open spec fn batch_contradicts<S: RollbackState>(m: SessionModel<S>, pid: usize, start: u32, xs: Seq<S::Input>, i: int) -> bool {
    &&& 0 <= i < m.pending.len()
    &&& start <= m.confirmed_frame + i < start + xs.len()
    &&& m.pending[i].predicted[pid as int]
    &&& m.pending[i].inputs[pid as int] != xs[m.confirmed_frame + i - start]
}

/// A batch is refused as reaching too far back only for a prediction that it contradicts:
/// the refusal names the depth of the earliest pending frame whose prediction for the player
/// differs from the batch's input, and that depth exceeds `max_rollback_frames`. Conversely,
/// where some contradicted prediction lies deeper than the window, the batch is refused.
pub proof fn law_batch_refused_only_for_deep_contradiction<S: RollbackState>(
    m: SessionModel<S>,
    pid: usize,
    start: u32,
    xs: Seq<S::Input>,
)
    requires
        m.frames_wf(),
    ensures
        m.batch_result(pid, start, xs) matches Err(RollbackError::RollbackTooFar { needed, max }) ==> exists|i: int|
            #[trigger] batch_contradicts(m, pid, start, xs, i)
            && (forall|j: int| 0 <= j < i ==> !batch_contradicts(m, pid, start, xs, j))
            && needed == m.current_frame - (m.confirmed_frame + i)
            && needed > m.max_rollback_frames
            && max == m.max_rollback_frames,
        pid < m.player_count && (exists|i: int| #[trigger] batch_contradicts(m, pid, start, xs, i)
            && m.current_frame - (m.confirmed_frame + i) > m.max_rollback_frames)
            ==> m.batch_result(pid, start, xs) is Err,
{
    lemma_first_correction(m, pid, start, xs, 0);
    let e = m.first_correction(pid, start, xs);
    assert forall|i: int| 0 <= i < m.pending.len() implies #[trigger] batch_contradicts(m, pid, start, xs, i)
        == m.batch_corrects(pid, start, xs, i) by {}
    if e < m.pending.len() {
        assert(batch_contradicts(m, pid, start, xs, e as int));
        assert(m.confirmed_frame + e < m.current_frame);
    }
    if pid < m.player_count && (exists|i: int| #[trigger] batch_contradicts(m, pid, start, xs, i)
        && m.current_frame - (m.confirmed_frame + i) > m.max_rollback_frames) {
        let i = choose|i: int| #[trigger] batch_contradicts(m, pid, start, xs, i)
            && m.current_frame - (m.confirmed_frame + i) > m.max_rollback_frames;
        if e > i {
            assert(!m.batch_corrects(pid, start, xs, i));
        }
        assert(xs.len() > 0);
    }
}

/// A batch that contradicts no prediction rolls nothing back: the current state stays as it
/// was (whether or not it equals a replay of the inputs).
pub proof fn law_batch_without_contradiction_keeps_state<S: RollbackState>(
    m: SessionModel<S>,
    pid: usize,
    start: u32,
    xs: Seq<S::Input>,
)
    requires
        m.wf(),
        forall|i: int| !#[trigger] batch_contradicts(m, pid, start, xs, i),
    ensures
        m.batch_result(pid, start, xs) is Ok || pid >= m.player_count,
        m.batch_delivery(pid, start, xs).current_state == m.current_state,
{
    lemma_first_correction(m, pid, start, xs, 0);
    let e = m.first_correction(pid, start, xs);
    if e < m.pending.len() {
        assert(batch_contradicts(m, pid, start, xs, e as int));
    }
    if pid < m.player_count && xs.len() > 0 {
        let m1 = m.with_remote_inputs(pid, start, xs);
        crate::sync::lemma_with_remote_inputs_wf(m, pid, start, xs);
        law_confirmation_keeps_recorded_inputs(m1);
    }
}

} // verus!
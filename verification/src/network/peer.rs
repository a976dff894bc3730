//! Bookkeeping for a single remote peer: the frames it has confirmed, the inputs sent to it
//! (for redundant resending) and how many of them each packet repeats.
use std::collections::VecDeque;

use vstd::prelude::*;

verus! {

/// How many sent inputs are remembered for redundant resending.
pub const MAX_SENT_HISTORY: usize = 32;

/// Fewest inputs a packet carries (when enough have been sent).
pub const MIN_REDUNDANCY: usize = 2;

/// Most inputs a packet carries.
pub const MAX_REDUNDANCY: usize = 16;

/// Largest input delay that round-trip time suggests.
pub const MAX_SUGGESTED_INPUT_DELAY: u32 = 8;

/// The state kept for one remote peer.
pub struct PeerState {
    /// The peer's player ID.
    pub player_id: usize,
    /// The highest frame the peer has reported having simulated.
    pub remote_confirmed_frame: u32,
    /// How many of the most recent inputs each input packet carries.
    pub redundancy: usize,
    /// The inputs sent to this peer (see [`PeerState::sent`]).
    pub sent_input_history: SentInputs,
}

/// The inputs sent to a peer, oldest first: (frame, encoded input), one per frame, for
/// consecutive frames. Only the methods of [`PeerState`] change them.
pub struct SentInputs {
    entries: VecDeque<(u32, Vec<u8>)>,
}

impl SentInputs {
    /// The sent inputs: (frame, encoded input), oldest first.
    pub closed spec fn entries_view(&self) -> Seq<(u32, Seq<u8>)> {
        self.entries@.map_values(|e: (u32, Vec<u8>)| (e.0, e.1@))
    }
}

/// The difference `local - remote` of two frame numbers taken as `i32`, as the frame
/// advantage computes it.
pub open spec fn advantage(local: u32, remote: u32) -> int {
    (local as i32) - (remote as i32)
}

/// The frame advantage of `local` over `remote` fits in an `i32`.
pub open spec fn advantage_fits(local: u32, remote: u32) -> bool {
    i32::MIN <= advantage(local, remote) <= i32::MAX
}

/// The redundancy for a round-trip time of `rtt_frames` frames: two more than the
/// round trip, between [`MIN_REDUNDANCY`] and [`MAX_REDUNDANCY`].
pub open spec fn spec_redundancy_for(rtt_frames: usize) -> usize {
    let r = rtt_frames + 2;
    if r < MIN_REDUNDANCY {
        MIN_REDUNDANCY
    } else if r > MAX_REDUNDANCY {
        MAX_REDUNDANCY
    } else {
        r as usize
    }
}

/// The redundancy for a round-trip time of `rtt_frames` frames (rounded up).
pub fn redundancy_for(rtt_frames: usize) -> (r: usize)
    requires
        rtt_frames + 2 <= usize::MAX,
    ensures
        r == spec_redundancy_for(rtt_frames),
{
    let r = rtt_frames + 2;
    let at_least = if r > MIN_REDUNDANCY { r } else { MIN_REDUNDANCY };
    if at_least < MAX_REDUNDANCY { at_least } else { MAX_REDUNDANCY }
}

/// The input delay suggested for half a round trip of `half_rtt_frames` frames (rounded up):
/// that many frames, at most [`MAX_SUGGESTED_INPUT_DELAY`].
pub fn suggested_input_delay_for(half_rtt_frames: u32) -> (r: u32)
    ensures
        r == if half_rtt_frames < MAX_SUGGESTED_INPUT_DELAY { half_rtt_frames } else { MAX_SUGGESTED_INPUT_DELAY },
{
    if half_rtt_frames < MAX_SUGGESTED_INPUT_DELAY {
        half_rtt_frames
    } else {
        MAX_SUGGESTED_INPUT_DELAY
    }
}

/// Whether the frame advantage of `local` over `remote` is defined (fits in an `i32`).
pub fn frame_advantage_fits(local: u32, remote: u32) -> (r: bool)
    ensures
        r == advantage_fits(local, remote),
{
    let a = local as i32 as i64;
    let b = remote as i32 as i64;
    let d = a - b;
    d >= i32::MIN as i64 && d <= i32::MAX as i64
}

/// The entries are for consecutive frames, oldest first.
pub open spec fn consecutive(h: Seq<(u32, Seq<u8>)>) -> bool {
    forall|j: int| 0 <= j < h.len() ==> #[trigger] h[j].0 == h[0].0 + j
}

/// The sent inputs `h` after recording `bytes` as the input sent for `frame`: a new input for
/// the newest frame replaces it, an input for the frame after it is appended, and an input
/// for any other frame starts the history anew (so that the frames stay consecutive); then
/// only the newest [`MAX_SENT_HISTORY`] are kept.
pub open spec fn after_record(h: Seq<(u32, Seq<u8>)>, frame: u32, bytes: Seq<u8>) -> Seq<(u32, Seq<u8>)> {
    let kept = if h.len() > 0 && h.last().0 == frame {
        h.drop_last()
    } else if h.len() > 0 && h.last().0 + 1 == frame {
        h
    } else {
        Seq::empty()
    };
    let h1 = kept.push((frame, bytes));
    if h1.len() > MAX_SENT_HISTORY { h1.skip(h1.len() - MAX_SENT_HISTORY) } else { h1 }
}

/// A copy of `bytes`.
pub(crate) fn copy_bytes(bytes: &Vec<u8>) -> (r: Vec<u8>)
    ensures
        r@ == bytes@,
{
    let mut r: Vec<u8> = Vec::new();
    for i in 0..bytes.len()
        invariant
            r@ == bytes@.take(i as int),
    {
        r.push(bytes[i]);
        proof {
            assert(bytes@.take(i + 1) =~= bytes@.take(i as int).push(bytes@[i as int]));
        }
    }
    proof {
        assert(bytes@.take(bytes@.len() as int) =~= bytes@);
    }
    r
}

impl PeerState {
    /// The inputs sent to this peer, oldest first: (frame, encoded input).
    pub open spec fn sent(&self) -> Seq<(u32, Seq<u8>)> {
        self.sent_input_history.entries_view()
    }

    /// At most [`MAX_SENT_HISTORY`] sent inputs are remembered, for consecutive frames.
    pub open spec fn wf(&self) -> bool {
        &&& self.sent().len() <= MAX_SENT_HISTORY
        &&& consecutive(self.sent())
    }

    /// The frame of the oldest input that a packet sent at `current_frame` repeats, and
    /// the encoded inputs it carries: the latest `redundancy` sent inputs (all of them when
    /// fewer were sent), oldest first; `current_frame` when it carries none.
    pub open spec fn redundant(&self, current_frame: u32) -> (u32, Seq<Seq<u8>>) {
        let h = self.sent();
        let count = if self.redundancy < h.len() { self.redundancy as int } else { h.len() as int };
        let chosen = h.skip(h.len() - count);
        (if count > 0 { chosen[0].0 } else { current_frame }, chosen.map_values(|e: (u32, Seq<u8>)| e.1))
    }

    /// Creates the state of a newly registered peer.
    pub fn new(player_id: usize) -> (peer: Self)
        ensures
            peer.player_id == player_id,
            peer.remote_confirmed_frame == 0,
            peer.redundancy == 3,
            peer.sent() == Seq::<(u32, Seq<u8>)>::empty(),
            peer.wf(),
    {
        let peer = PeerState { player_id, remote_confirmed_frame: 0, redundancy: 3, sent_input_history: SentInputs { entries: VecDeque::new() } };
        proof {
            assert(peer.sent() =~= Seq::<(u32, Seq<u8>)>::empty());
        }
        peer
    }

    /// Sets the redundancy for a round-trip time of `rtt_frames` frames (rounded up).
    pub fn update_redundancy(&mut self, rtt_frames: usize)
        requires
            rtt_frames + 2 <= usize::MAX,
        ensures
            final(self).redundancy == spec_redundancy_for(rtt_frames),
            final(self).player_id == old(self).player_id,
            final(self).remote_confirmed_frame == old(self).remote_confirmed_frame,
            final(self).sent() == old(self).sent(),
    {
        self.redundancy = redundancy_for(rtt_frames);
    }

    /// Remembers the encoded input sent for `frame` (see [`after_record`]), forgetting the
    /// oldest inputs beyond [`MAX_SENT_HISTORY`].
    pub fn record_sent_input(&mut self, frame: u32, input_bytes: Vec<u8>)
        requires
            old(self).wf(),
        ensures
            final(self).wf(),
            final(self).sent() == after_record(old(self).sent(), frame, input_bytes@),
            final(self).sent().last() == (frame, input_bytes@),
            final(self).player_id == old(self).player_id,
            final(self).remote_confirmed_frame == old(self).remote_confirmed_frame,
            final(self).redundancy == old(self).redundancy,
    {
        let ghost h = old(self).sent();
        let n = self.sent_input_history.entries.len();
        if n > 0 {
            let last = self.sent_input_history.entries[n - 1].0;
            proof {
                assert(h.last() == (self.sent_input_history.entries@[n - 1].0, self.sent_input_history.entries@[n - 1].1@));
            }
            if last == frame {
                let _ = self.sent_input_history.entries.pop_back();
            } else if !(last < u32::MAX && last + 1 == frame) {
                self.sent_input_history.entries.clear();
            }
        }
        let ghost kept = if h.len() > 0 && h.last().0 == frame {
            h.drop_last()
        } else if h.len() > 0 && h.last().0 + 1 == frame {
            h
        } else {
            Seq::empty()
        };
        proof {
            assert(self.sent() =~= kept);
        }
        self.sent_input_history.entries.push_back((frame, input_bytes));
        let ghost h1 = kept.push((frame, input_bytes@));
        proof {
            assert(self.sent() =~= h1);
        }
        if self.sent_input_history.entries.len() > MAX_SENT_HISTORY {
            let _ = self.sent_input_history.entries.pop_front();
            proof {
                assert(self.sent() =~= h1.skip(1));
            }
        }
        proof {
            assert(self.sent() =~= after_record(h, frame, input_bytes@));
            assert forall|j: int| 0 <= j < self.sent().len() implies #[trigger] self.sent()[j].0 == self.sent()[0].0 + j by {
                assert(forall|i: int| 0 <= i < h.len() ==> #[trigger] h[i].0 == h[0].0 + i);
                if h1.len() > MAX_SENT_HISTORY {
                    assert(self.sent()[j] == h1[j + 1]);
                    assert(self.sent()[0] == h1[1]);
                }
                if kept.len() > 0 {
                    assert(kept[0] == h[0]);
                    assert(h1[kept.len() as int].0 == kept[0].0 + kept.len());
                }
            }
        }
    }

    /// The redundant inputs to include in the current send: (start frame, encoded inputs),
    /// ordered from the oldest redundant frame.
    pub fn get_redundant_inputs(&self, current_frame: u32) -> (r: (u32, Vec<Vec<u8>>))
        ensures
            r.0 == self.redundant(current_frame).0,
            r.1@.map_values(|b: Vec<u8>| b@) == self.redundant(current_frame).1,
    {
        let len = self.sent_input_history.entries.len();
        if len == 0 {
            let empty: Vec<Vec<u8>> = Vec::new();
            proof {
                assert(empty@.map_values(|b: Vec<u8>| b@) =~= self.redundant(current_frame).1);
            }
            return (current_frame, empty);
        }
        // Take the most recent `redundancy` entries, capped at the actual history length.
        let count = if self.redundancy < len { self.redundancy } else { len };
        let start_idx = len - count;
        let mut frames: Vec<Vec<u8>> = Vec::new();
        let ghost h = self.sent();
        let ghost chosen = h.skip(h.len() - count);
        for i in start_idx..len
            invariant
                len == self.sent_input_history.entries@.len(),
                h == self.sent(),
                start_idx == len - count,
                chosen == h.skip(start_idx as int),
                frames@.len() == i - start_idx,
                forall|k: int| 0 <= k < frames@.len() ==> #[trigger] frames@[k]@ == chosen[k].1,
        {
            frames.push(copy_bytes(&self.sent_input_history.entries[i].1));
            proof {
                assert(h[i as int] == (self.sent_input_history.entries@[i as int].0, self.sent_input_history.entries@[i as int].1@));
            }
        }
        let start_frame = if count > 0 { self.sent_input_history.entries[start_idx].0 } else { current_frame };
        proof {
            assert(frames@.map_values(|b: Vec<u8>| b@) =~= self.redundant(current_frame).1);
            if count > 0 {
                assert(h[start_idx as int] == (self.sent_input_history.entries@[start_idx as int].0, self.sent_input_history.entries@[start_idx as int].1@));
            }
        }
        (start_frame, frames)
    }

    /// How many frames the local simulation (at `local_frame`) is ahead of this peer.
    pub fn frame_advantage(&self, local_frame: u32) -> (r: i32)
        requires
            advantage_fits(local_frame, self.remote_confirmed_frame),
        ensures
            r == advantage(local_frame, self.remote_confirmed_frame),
    {
        local_frame as i32 - self.remote_confirmed_frame as i32
    }

    /// The local simulation is more than `max_rollback_frames` frames ahead of this peer.
    pub fn should_stall(&self, local_frame: u32, max_rollback_frames: u32) -> (r: bool)
        requires
            advantage_fits(local_frame, self.remote_confirmed_frame),
        ensures
            r == (advantage(local_frame, self.remote_confirmed_frame) > max_rollback_frames as i32),
    {
        self.frame_advantage(local_frame) > max_rollback_frames as i32
    }

    /// Records that the peer has simulated up to `frame`; the remembered frame never goes back.
    pub fn update_remote_confirmed(&mut self, frame: u32)
        ensures
            final(self).remote_confirmed_frame == if frame > old(self).remote_confirmed_frame {
                frame
            } else {
                old(self).remote_confirmed_frame
            },
            final(self).player_id == old(self).player_id,
            final(self).redundancy == old(self).redundancy,
            final(self).sent() == old(self).sent(),
    {
        if frame > self.remote_confirmed_frame {
            self.remote_confirmed_frame = frame;
        }
    }
}

/// The inputs that a packet sent at `current_frame` carries are for consecutive frames from
/// its start frame: the `k`-th is the input remembered for frame `start + k`, and no other
/// input is remembered for that frame.
pub proof fn law_redundant_inputs_consecutive(peer: PeerState, current_frame: u32)
    requires
        peer.wf(),
    ensures
        ({
            let (start, inputs) = peer.redundant(current_frame);
            let h = peer.sent();
            &&& forall|k: int| 0 <= k < inputs.len() ==> #[trigger] h[h.len() - inputs.len() + k] == ((start + k) as u32, inputs[k])
            &&& forall|a: int, b: int| 0 <= a < h.len() && 0 <= b < h.len() && (#[trigger] h[a]).0 == (#[trigger] h[b]).0 ==> a == b
        }),
{
    let h = peer.sent();
    let count = if peer.redundancy < h.len() { peer.redundancy as int } else { h.len() as int };
    let chosen = h.skip(h.len() - count);
    let (start, inputs) = peer.redundant(current_frame);
    assert(inputs.len() == count);
    assert forall|k: int| 0 <= k < inputs.len() implies #[trigger] h[h.len() - inputs.len() + k] == ((start + k) as u32, inputs[k]) by {
        assert(chosen[k] == h[h.len() - count + k]);
        assert(chosen[0] == h[h.len() - count]);
        assert(h[h.len() - count + k].0 == h[0].0 + h.len() - count + k);
        assert(h[h.len() - count].0 == h[0].0 + h.len() - count);
    }
}

/// Frame numbers below 2^31 always have a defined frame advantage: the plain difference
/// `local - remote`, negative when the peer is ahead.
pub proof fn law_advantage_is_difference(local: u32, remote: u32)
    requires
        local < 0x8000_0000,
        remote < 0x8000_0000,
    ensures
        advantage(local, remote) == local - remote,
        advantage_fits(local, remote),
{
}

} // verus!

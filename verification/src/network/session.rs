//! The decisions of a networked rollback session: the rollback engine together with the
//! state of every remote peer. Socket I/O and packet encoding stay with the caller, which
//! hands each decoded packet to [`NetworkSync::handle_packet`] and performs what it returns.
use vstd::prelude::*;

use crate::codec::{decode_failed, decode_value, decoded_all, encode_value, encodes_to};
use crate::error::RollbackError;
use crate::network::packet::{NetworkPacket, PacketKind};
use crate::network::peer::{advantage, advantage_fits, after_record, copy_bytes, PeerState};
use crate::state::RollbackState;
use crate::sync::{RollbackSession, SessionModel};

verus! {

/// What the caller has to do after a packet was handled.
#[derive(Debug)]
pub enum PacketOutcome<I> {
    /// Nothing more.
    Handled,
    /// The rollback session refused the inputs of an input packet with this error.
    InputRejected(RollbackError),
    /// Send this packet to the peer at this index.
    Reply(usize, NetworkPacket<I>),
    /// A pong arrived from the peer at this index: its round-trip time can be measured.
    PongFrom(usize),
    /// The peer reported a checksum that differs from the local one.
    OutOfSync(RollbackError),
}

/// What [`NetworkSync::advance_frame`] did.
#[derive(Debug)]
pub enum FrameStep<I> {
    /// The session is too far ahead of a peer: nothing was simulated or sent.
    Stalled,
    /// The frame was simulated; the input packets to send, each with its peer's index
    /// (`None` where the input did not encode).
    Advanced(Option<Vec<(usize, NetworkPacket<I>)>>),
}

/// A rollback session together with the state of each remote peer.
pub struct NetworkSync<S: RollbackState> {
    /// Underlying rollback engine.
    pub rollback: RollbackSession<S>,
    /// State for each remote peer.
    pub peers: Vec<PeerState>,
    /// Local player ID.
    pub local_player_id: usize,
    /// Maximum rollback frames (used for stall detection).
    pub max_rollback_frames: u32,
}

impl<S: RollbackState> NetworkSync<S> {
    /// The engine and every peer are well formed.
    pub open spec fn wf(&self) -> bool {
        &&& self.rollback@.wf()
        &&& forall|k: int| 0 <= k < self.peers@.len() ==> (#[trigger] self.peers@[k]).wf()
    }

    /// Creates the session of player `local_player_id` with no peers yet.
    pub fn new(
        local_player_id: usize,
        initial_state: S,
        player_count: usize,
        max_rollback: u32,
        max_input_delay: u32,
        input_delay: u32,
    ) -> (s: Self)
        ensures
            s.wf(),
            s.rollback@ == SessionModel::<S>::initial(initial_state, player_count, max_rollback, max_input_delay, input_delay, s.rollback@.neutral),
            call_ensures(S::Input::default, (), s.rollback@.neutral),
            s.peers@.len() == 0,
            s.local_player_id == local_player_id,
            s.max_rollback_frames == max_rollback,
    {
        let rollback = RollbackSession::with_input_delay(initial_state, player_count, max_rollback, max_input_delay, input_delay);
        NetworkSync { rollback, peers: Vec::new(), local_player_id, max_rollback_frames: max_rollback }
    }

    /// Returns the local player ID.
    pub fn local_player_id(&self) -> (r: usize)
        ensures
            r == self.local_player_id,
    {
        self.local_player_id
    }

    /// Registers a remote peer playing `player_id`; returns its index.
    pub fn add_peer(&mut self, player_id: usize) -> (idx: usize)
        requires
            old(self).wf(),
        ensures
            final(self).wf(),
            idx == old(self).peers@.len(),
            final(self).peers@.len() == old(self).peers@.len() + 1,
            forall|k: int| 0 <= k < idx ==> #[trigger] final(self).peers@[k] == old(self).peers@[k],
            final(self).peers@[idx as int].player_id == player_id,
            final(self).peers@[idx as int].remote_confirmed_frame == 0,
            final(self).peers@[idx as int].redundancy == 3,
            final(self).peers@[idx as int].sent().len() == 0,
            final(self).rollback@ == old(self).rollback@,
            final(self).local_player_id == old(self).local_player_id,
            final(self).max_rollback_frames == old(self).max_rollback_frames,
    {
        let idx = self.peers.len();
        self.peers.push(PeerState::new(player_id));
        idx
    }

    /// The frame advantage over every peer is defined.
    pub open spec fn advantages_fit(&self) -> bool {
        forall|k: int| 0 <= k < self.peers@.len() ==> advantage_fits(
            self.rollback@.current_frame,
            #[trigger] self.peers@[k].remote_confirmed_frame,
        )
    }

    /// Whether the frame advantage over every peer is defined.
    pub fn check_advantages(&self) -> (r: bool)
        ensures
            r == self.advantages_fit(),
    {
        let frame = self.rollback.current_frame();
        let n = self.peers.len();
        for k in 0..n
            invariant
                n == self.peers@.len(),
                frame == self.rollback@.current_frame,
                forall|j: int| 0 <= j < k ==> advantage_fits(frame, #[trigger] self.peers@[j].remote_confirmed_frame),
        {
            if !crate::network::peer::frame_advantage_fits(frame, self.peers[k].remote_confirmed_frame) {
                return false;
            }
        }
        true
    }

    /// The local simulation is more than `max_rollback_frames` frames ahead of some peer.
    pub open spec fn stalled(&self) -> bool {
        exists|k: int| 0 <= k < self.peers@.len()
            && advantage(self.rollback@.current_frame, #[trigger] self.peers@[k].remote_confirmed_frame)
            > self.max_rollback_frames as i32
    }

    /// Stall detection: the local simulation is more than `max_rollback_frames` frames ahead
    /// of some peer, and must wait for it.
    pub fn should_stall(&self) -> (r: bool)
        requires
            self.advantages_fit(),
        ensures
            r == self.stalled(),
    {
        let local_frame = self.rollback.current_frame();
        let n = self.peers.len();
        for k in 0..n
            invariant
                n == self.peers@.len(),
                local_frame == self.rollback@.current_frame,
                self.advantages_fit(),
                forall|j: int| 0 <= j < k ==> advantage(local_frame, #[trigger] self.peers@[j].remote_confirmed_frame)
                    <= self.max_rollback_frames as i32,
        {
            if self.peers[k].should_stall(local_frame, self.max_rollback_frames) {
                return true;
            }
        }
        false
    }

    /// Remembers the encoded local input of the current frame for every peer, and returns
    /// what each peer's packet carries: (start frame, encoded inputs), one entry per peer.
    pub fn record_local_input(&mut self, input_bytes: &Vec<u8>) -> (sends: Vec<(u32, Vec<Vec<u8>>)>)
        requires
            old(self).wf(),
        ensures
            final(self).wf(),
            final(self).rollback@ == old(self).rollback@,
            final(self).local_player_id == old(self).local_player_id,
            final(self).max_rollback_frames == old(self).max_rollback_frames,
            final(self).peers@.len() == old(self).peers@.len(),
            sends@.len() == old(self).peers@.len(),
            forall|k: int| 0 <= k < sends@.len() ==> {
                &&& #[trigger] final(self).peers@[k].sent() == after_record(old(self).peers@[k].sent(), old(self).rollback@.current_frame, input_bytes@)
                &&& final(self).peers@[k].player_id == old(self).peers@[k].player_id
                &&& final(self).peers@[k].remote_confirmed_frame == old(self).peers@[k].remote_confirmed_frame
                &&& final(self).peers@[k].redundancy == old(self).peers@[k].redundancy
                &&& sends@[k].0 == final(self).peers@[k].redundant(old(self).rollback@.current_frame).0
                &&& sends@[k].1@.map_values(|b: Vec<u8>| b@) == final(self).peers@[k].redundant(old(self).rollback@.current_frame).1
            },
    {
        let current_frame = self.rollback.current_frame();
        let n = self.peers.len();
        let mut sends: Vec<(u32, Vec<Vec<u8>>)> = Vec::new();
        let ghost old_peers = self.peers@;
        for k in 0..n
            invariant
                n == self.peers@.len(),
                n == old_peers.len(),
                current_frame == old(self).rollback@.current_frame,
                self.rollback@ == old(self).rollback@,
                self.local_player_id == old(self).local_player_id,
                self.max_rollback_frames == old(self).max_rollback_frames,
                old_peers == old(self).peers@,
                old(self).wf(),
                forall|j: int| 0 <= j < n ==> (#[trigger] self.peers@[j]).wf(),
                forall|j: int| k <= j < n ==> #[trigger] self.peers@[j] == old_peers[j],
                sends@.len() == k,
                forall|j: int| 0 <= j < k ==> {
                    &&& #[trigger] self.peers@[j].sent() == after_record(old_peers[j].sent(), current_frame, input_bytes@)
                    &&& self.peers@[j].player_id == old_peers[j].player_id
                    &&& self.peers@[j].remote_confirmed_frame == old_peers[j].remote_confirmed_frame
                    &&& self.peers@[j].redundancy == old_peers[j].redundancy
                    &&& sends@[j].0 == self.peers@[j].redundant(current_frame).0
                    &&& sends@[j].1@.map_values(|b: Vec<u8>| b@) == self.peers@[j].redundant(current_frame).1
                },
        {
            let bytes = copy_bytes(input_bytes);
            let ghost before = self.peers@;
            self.peers[k].record_sent_input(current_frame, bytes);
            let redundant = self.peers[k].get_redundant_inputs(current_frame);
            sends.push(redundant);
            proof {
                assert forall|j: int| 0 <= j < n && j != k implies #[trigger] self.peers@[j] == before[j] by {}
            }
        }
        sends
    }

    /// Peer `new` is peer `old` after recording the encoded input `bytes` for `frame` (see
    /// [`after_record`]).
    pub open spec fn peer_recorded(old: PeerState, new: PeerState, frame: u32, bytes: Seq<u8>) -> bool {
        &&& new.sent() == after_record(old.sent(), frame, bytes)
        &&& new.player_id == old.player_id
        &&& new.remote_confirmed_frame == old.remote_confirmed_frame
        &&& new.redundancy == old.redundancy
    }

    /// `sends` are the input packets of a send at `frame`, as (peer index, packet), in
    /// increasing peer order: for each peer, the packet from its redundant inputs (their
    /// start frame, and the inputs that decoding them gave), or none where decoding one of
    /// them failed.
    pub open spec fn input_sends(&self, frame: u32, sends: Seq<(usize, NetworkPacket<S::Input>)>) -> bool
        where S::Input: serde::de::DeserializeOwned,
    {
        &&& forall|i: int| 0 <= i < sends.len() ==> (#[trigger] sends[i]).0 < self.peers@.len()
        &&& forall|i: int, j: int| 0 <= i < j < sends.len() ==> (#[trigger] sends[i]).0 < (#[trigger] sends[j]).0
        &&& forall|i: int| 0 <= i < sends.len() ==> {
            let red = self.peers@[(#[trigger] sends[i]).0 as int].redundant(frame);
            &&& sends[i].1.sender_frame == frame
            &&& sends[i].1.kind matches PacketKind::Input { player_id, start_frame, inputs }
            &&& player_id == self.local_player_id
            &&& start_frame == red.0
            &&& decoded_all(red.1, inputs@)
        }
        &&& forall|k: int| 0 <= k < self.peers@.len() && (forall|i: int| 0 <= i < sends.len() ==> (#[trigger] sends[i]).0 != k)
            ==> decode_failed::<S::Input>((#[trigger] self.peers@[k]).redundant(frame).1)
    }

    /// `new` is `old` after sending the local input `input`, and `sends` is what the send
    /// returned: where the input does not encode, `None` and no peer changed; otherwise every
    /// peer recorded the encoded input for the current frame, and `sends` holds the input
    /// packets (see [`NetworkSync::input_sends`]).
    pub open spec fn input_sent(old: Self, new: Self, input: S::Input, sends: Option<Vec<(usize, NetworkPacket<S::Input>)>>) -> bool
        where S::Input: serde::Serialize + serde::de::DeserializeOwned,
    {
        exists|enc: Option<Vec<u8>>| #[trigger] encodes_to(input, enc) && match enc {
            None => sends is None && new.peers@ == old.peers@,
            Some(b) => {
                &&& new.peers@.len() == old.peers@.len()
                &&& forall|k: int| 0 <= k < old.peers@.len() ==> Self::peer_recorded(
                    old.peers@[k],
                    #[trigger] new.peers@[k],
                    old.rollback@.current_frame,
                    b@,
                )
                &&& sends matches Some(v) && new.input_sends(old.rollback@.current_frame, v@)
            },
        }
    }

    /// Sends the local input to all peers (with redundant frames): the input is encoded,
    /// recorded for the current frame for every peer, and each peer gets a packet with its
    /// redundant inputs decoded. `None` where the input does not encode (nothing changes).
    pub fn send_input(&mut self, input: &S::Input) -> (sends: Option<Vec<(usize, NetworkPacket<S::Input>)>>)
        where S::Input: serde::Serialize + serde::de::DeserializeOwned,
        requires
            old(self).wf(),
        ensures
            final(self).wf(),
            final(self).rollback@ == old(self).rollback@,
            final(self).local_player_id == old(self).local_player_id,
            final(self).max_rollback_frames == old(self).max_rollback_frames,
            Self::input_sent(*old(self), *final(self), *input, sends),
    {
        let enc = encode_value(input);
        let bytes = match enc {
            Some(b) => b,
            None => {
                return None;
            },
        };
        let frame = self.rollback.current_frame();
        let redundant = self.record_local_input(&bytes);
        let n = redundant.len();
        let mut out: Vec<(usize, NetworkPacket<S::Input>)> = Vec::new();
        for k in 0..n
            invariant
                n == redundant@.len(),
                n == self.peers@.len(),
                frame == self.rollback@.current_frame,
                forall|j: int| 0 <= j < n ==> (#[trigger] redundant@[j]).0 == self.peers@[j].redundant(frame).0
                    && redundant@[j].1@.map_values(|b: Vec<u8>| b@) == self.peers@[j].redundant(frame).1,
                forall|i: int| 0 <= i < out@.len() ==> (#[trigger] out@[i]).0 < k,
                forall|i: int, j: int| 0 <= i < j < out@.len() ==> (#[trigger] out@[i]).0 < (#[trigger] out@[j]).0,
                forall|i: int| 0 <= i < out@.len() ==> {
                    let red = self.peers@[(#[trigger] out@[i]).0 as int].redundant(frame);
                    &&& out@[i].1.sender_frame == frame
                    &&& out@[i].1.kind matches PacketKind::Input { player_id, start_frame, inputs }
                    &&& player_id == self.local_player_id
                    &&& start_frame == red.0
                    &&& decoded_all(red.1, inputs@)
                },
                forall|q: int| 0 <= q < k && (forall|i: int| 0 <= i < out@.len() ==> (#[trigger] out@[i]).0 != q)
                    ==> decode_failed::<S::Input>((#[trigger] self.peers@[q]).redundant(frame).1),
        {
            let encoded = &redundant[k].1;
            let ghost red = self.peers@[k as int].redundant(frame);
            proof {
                assert(encoded@.map_values(|b: Vec<u8>| b@) == red.1);
            }
            let m = encoded.len();
            let mut inputs: Vec<S::Input> = Vec::new();
            let mut valid = true;
            let mut j: usize = 0;
            while j < m
                invariant
                    m == encoded@.len(),
                    encoded@.map_values(|b: Vec<u8>| b@) == red.1,
                    j <= m,
                    valid ==> inputs@.len() == j,
                    valid ==> forall|i: int| 0 <= i < j ==> #[trigger] crate::codec::decodes_to(red.1[i], Some(inputs@[i])),
                    !valid ==> decode_failed::<S::Input>(red.1),
                ensures
                    valid ==> j == m,
                    valid ==> inputs@.len() == j,
                    valid ==> forall|i: int| 0 <= i < j ==> #[trigger] crate::codec::decodes_to(red.1[i], Some(inputs@[i])),
                    !valid ==> decode_failed::<S::Input>(red.1),
                decreases m - j,
            {
                let d: Option<S::Input> = decode_value(&encoded[j]);
                proof {
                    assert(encoded@[j as int]@ == red.1[j as int]);
                    if d is None {
                        assert(crate::codec::decodes_to::<S::Input>(red.1[j as int], None));
                    }
                }
                match d {
                    Some(x) => {
                        inputs.push(x);
                        j = j + 1;
                    },
                    None => {
                        valid = false;
                        break;
                    },
                }
            }
            if valid {
                let packet = self.input_packet(redundant[k].0, inputs);
                let ghost before = out@;
                out.push((k, packet));
                proof {
                    assert(decoded_all(red.1, inputs@));
                    assert forall|q: int| 0 <= q < k + 1 && (forall|i: int| 0 <= i < out@.len() ==> (#[trigger] out@[i]).0 != q)
                        implies decode_failed::<S::Input>((#[trigger] self.peers@[q]).redundant(frame).1) by {
                        assert(out@[before.len() as int].0 == k);
                        assert forall|i: int| 0 <= i < before.len() implies (#[trigger] before[i]).0 != q by {
                            assert(out@[i] == before[i]);
                        }
                    }
                }
            }
        }
        proof {
            assert(encodes_to(*input, enc));
        }
        Some(out)
    }

    /// Advances one frame with the local input: when the session is too far ahead of some
    /// peer (see [`NetworkSync::stalled`]) nothing happens and the frame is stalled; an invalid
    /// local player is refused; otherwise the input is sent to the peers for the current frame
    /// (see [`NetworkSync::send_input`]) and the rollback session advances with it. The caller
    /// transmits the returned packets.
    pub fn advance_frame(&mut self, local_input: S::Input) -> (r: Result<FrameStep<S::Input>, RollbackError>)
        where S::Input: serde::Serialize + serde::de::DeserializeOwned,
        requires
            old(self).wf(),
            old(self).advantages_fit(),
            !old(self).stalled() && old(self).local_player_id < old(self).rollback@.player_count
                ==> old(self).rollback@.current_frame < u32::MAX
                && old(self).rollback@.current_frame + old(self).rollback@.input_delay <= u32::MAX,
        ensures
            final(self).wf(),
            final(self).local_player_id == old(self).local_player_id,
            final(self).max_rollback_frames == old(self).max_rollback_frames,
            old(self).stalled() ==> r == Ok::<FrameStep<S::Input>, RollbackError>(FrameStep::Stalled)
                && final(self).rollback@ == old(self).rollback@ && final(self).peers@ == old(self).peers@,
            !old(self).stalled() && old(self).local_player_id >= old(self).rollback@.player_count ==> r == Err::<FrameStep<S::Input>, RollbackError>(
                RollbackError::InvalidPlayerId { player_id: old(self).local_player_id, player_count: old(self).rollback@.player_count },
            ) && final(self).rollback@ == old(self).rollback@ && final(self).peers@ == old(self).peers@,
            !old(self).stalled() && old(self).local_player_id < old(self).rollback@.player_count ==> (r matches Ok(FrameStep::Advanced(sends))
                && Self::input_sent(*old(self), *final(self), local_input, sends))
                && final(self).rollback@ == old(self).rollback@.queued(old(self).local_player_id, local_input).simulated(
                    old(self).local_player_id,
                ).settled(),
    {
        if self.should_stall() {
            return Ok(FrameStep::Stalled);
        }
        let pid = self.local_player_id;
        if pid >= self.rollback.player_count() {
            return Err(RollbackError::InvalidPlayerId { player_id: pid, player_count: self.rollback.player_count() });
        }
        let sends = self.send_input(&local_input);
        let ghost after_send = *self;
        match self.rollback.advance_frame(pid, local_input) {
            Ok(()) => {},
            Err(e) => {
                return Err(e);
            },
        }
        proof {
            assert(self.peers@ == after_send.peers@);
        }
        Ok(FrameStep::Advanced(sends))
    }

    /// The input packet that carries `inputs` of the local player from `start_frame` on.
    pub fn input_packet(&self, start_frame: u32, inputs: Vec<S::Input>) -> (p: NetworkPacket<S::Input>)
        ensures
            p.sender_frame == self.rollback@.current_frame,
            p.kind == (PacketKind::Input { player_id: self.local_player_id, start_frame, inputs }),
    {
        NetworkPacket {
            sender_frame: self.rollback.current_frame(),
            kind: PacketKind::Input { player_id: self.local_player_id, start_frame, inputs },
        }
    }

    /// A ping packet carrying `timestamp_ms`.
    pub fn ping_packet(&self, timestamp_ms: u64) -> (p: NetworkPacket<S::Input>)
        ensures
            p.sender_frame == self.rollback@.current_frame,
            p.kind == (PacketKind::<S::Input>::Ping { timestamp_ms }),
    {
        NetworkPacket { sender_frame: self.rollback.current_frame(), kind: PacketKind::Ping { timestamp_ms } }
    }

    /// The checksum packet for the confirmed state.
    pub fn checksum_packet(&self) -> (p: NetworkPacket<S::Input>)
        where S: serde::Serialize,
        ensures
            p.sender_frame == self.rollback@.current_frame,
            p.kind matches PacketKind::Checksum { frame, checksum } && frame == self.rollback@.confirmed_frame
                && call_ensures(S::checksum, (&self.rollback@.confirmed_state,), checksum),
    {
        let frame = self.rollback.confirmed_frame();
        let checksum = self.rollback.confirmed_state().checksum();
        NetworkPacket { sender_frame: self.rollback.current_frame(), kind: PacketKind::Checksum { frame, checksum } }
    }

    /// The packet can be handled: where it carries inputs for a valid player, their frame
    /// numbers do not overflow.
    pub open spec fn accepts(&self, packet: NetworkPacket<S::Input>) -> bool {
        packet.kind matches PacketKind::Input { player_id, start_frame, inputs }
            ==> (player_id < self.rollback@.player_count && inputs@.len() > 0 ==> start_frame + inputs@.len() - 1 <= u32::MAX)
    }

    /// Whether the packet can be handled.
    pub fn check_packet(&self, packet: &NetworkPacket<S::Input>) -> (r: bool)
        ensures
            r == self.accepts(*packet),
    {
        match &packet.kind {
            PacketKind::Input { player_id, start_frame, inputs } => {
                if *player_id < self.rollback.player_count() && inputs.len() > 0 {
                    (inputs.len() - 1) as u64 <= (u32::MAX - *start_frame) as u64
                } else {
                    true
                }
            },
            _ => true,
        }
    }

    /// Handles a packet received from the peer at index `from` (`None` for an unknown
    /// sender):
    /// - inputs: the sender's remote frame is updated, the batch goes to the rollback session;
    ///   any error other than `InputTooOld` is reported;
    /// - ping from a known peer: a pong echoing the timestamp is to be sent back;
    /// - pong from a known peer: its round-trip time is to be measured;
    /// - checksum: compared with the local confirmed state; a mismatch is reported.
    pub fn handle_packet(&mut self, from: Option<usize>, packet: NetworkPacket<S::Input>) -> (outcome: PacketOutcome<S::Input>)
        where S: serde::Serialize,
        requires
            old(self).wf(),
            old(self).accepts(packet),
            from matches Some(idx) ==> idx < old(self).peers@.len(),
        ensures
            final(self).wf(),
            final(self).local_player_id == old(self).local_player_id,
            final(self).max_rollback_frames == old(self).max_rollback_frames,
            final(self).peers@.len() == old(self).peers@.len(),
            match packet.kind {
                PacketKind::Input { player_id, start_frame, inputs } => {
                    &&& forall|k: int| 0 <= k < old(self).peers@.len() && from != Some(k as usize)
                        ==> #[trigger] final(self).peers@[k] == old(self).peers@[k]
                    &&& (from matches Some(idx) ==> {
                        &&& final(self).peers@[idx as int].remote_confirmed_frame == if packet.sender_frame > old(self).peers@[idx as int].remote_confirmed_frame {
                            packet.sender_frame
                        } else {
                            old(self).peers@[idx as int].remote_confirmed_frame
                        }
                        &&& final(self).peers@[idx as int].player_id == old(self).peers@[idx as int].player_id
                        &&& final(self).peers@[idx as int].redundancy == old(self).peers@[idx as int].redundancy
                        &&& final(self).peers@[idx as int].sent() == old(self).peers@[idx as int].sent()
                    })
                    &&& final(self).rollback@ == old(self).rollback@.batch_delivery(player_id, start_frame, inputs@)
                    &&& outcome == match old(self).rollback@.batch_result(player_id, start_frame, inputs@) {
                        Err(e) => if e is InputTooOld { PacketOutcome::Handled } else { PacketOutcome::InputRejected(e) },
                        Ok(()) => PacketOutcome::<S::Input>::Handled,
                    }
                },
                PacketKind::Ping { timestamp_ms } => {
                    &&& final(self).peers@ == old(self).peers@
                    &&& final(self).rollback@ == old(self).rollback@
                    &&& outcome == match from {
                        Some(idx) => PacketOutcome::Reply(idx, NetworkPacket {
                            sender_frame: old(self).rollback@.current_frame,
                            kind: PacketKind::Pong { echo_timestamp_ms: timestamp_ms },
                        }),
                        None => PacketOutcome::<S::Input>::Handled,
                    }
                },
                PacketKind::Pong { .. } => {
                    &&& final(self).peers@ == old(self).peers@
                    &&& final(self).rollback@ == old(self).rollback@
                    &&& outcome == match from {
                        Some(idx) => PacketOutcome::PongFrom(idx),
                        None => PacketOutcome::<S::Input>::Handled,
                    }
                },
                PacketKind::Checksum { frame, checksum } => {
                    &&& final(self).peers@ == old(self).peers@
                    &&& final(self).rollback@ == old(self).rollback@
                    &&& (frame != old(self).rollback@.confirmed_frame ==> outcome is Handled)
                    &&& (frame == old(self).rollback@.confirmed_frame ==> exists|local: u64|
                        call_ensures(S::checksum, (&old(self).rollback@.confirmed_state,), local)
                        && outcome == if local == checksum {
                            PacketOutcome::<S::Input>::Handled
                        } else {
                            PacketOutcome::OutOfSync(RollbackError::OutOfSync { frame, local, remote: checksum })
                        })
                },
            },
    {
        match packet.kind {
            PacketKind::Input { player_id, start_frame, inputs } => {
                // Update the peer's remote confirmed frame.
                if let Some(idx) = from {
                    self.peers[idx].update_remote_confirmed(packet.sender_frame);
                }
                // Submit the batch to the rollback session.
                let r = self.rollback.add_remote_inputs(player_id, start_frame, inputs);
                match r {
                    Ok(()) => PacketOutcome::Handled,
                    // InputTooOld is expected for redundant packets; it is not reported.
                    Err(RollbackError::InputTooOld { frame, confirmed_frame }) => PacketOutcome::Handled,
                    Err(e) => PacketOutcome::InputRejected(e),
                }
            },
            PacketKind::Ping { timestamp_ms } => {
                // Reply with a pong.
                match from {
                    Some(idx) => PacketOutcome::Reply(
                        idx,
                        NetworkPacket {
                            sender_frame: self.rollback.current_frame(),
                            kind: PacketKind::Pong { echo_timestamp_ms: timestamp_ms },
                        },
                    ),
                    None => PacketOutcome::Handled,
                }
            },
            PacketKind::Pong { .. } => {
                match from {
                    Some(idx) => PacketOutcome::PongFrom(idx),
                    None => PacketOutcome::Handled,
                }
            },
            PacketKind::Checksum { frame, checksum } => {
                // Out-of-sync detection.
                match self.rollback.verify_checksum(frame, checksum) {
                    Ok(()) => PacketOutcome::Handled,
                    Err(e) => PacketOutcome::OutOfSync(e),
                }
            },
        }
    }
}

/// A session stalls as soon as any one peer, at whatever index, is more than
/// `max_rollback_frames` frames behind the local simulation.
pub proof fn law_stall_when_any_peer_behind<S: RollbackState>(sync: NetworkSync<S>, k: int)
    requires
        0 <= k < sync.peers@.len(),
        advantage(sync.rollback@.current_frame, sync.peers@[k].remote_confirmed_frame) > sync.max_rollback_frames as i32,
    ensures
        sync.stalled(),
{
    assert(advantage(sync.rollback@.current_frame, sync.peers@[k].remote_confirmed_frame) > sync.max_rollback_frames as i32);
}

/// A session does not stall while every peer is within `max_rollback_frames` frames of the
/// local simulation (peers ahead of it included).
pub proof fn law_no_stall_when_all_peers_close<S: RollbackState>(sync: NetworkSync<S>)
    requires
        forall|k: int| 0 <= k < sync.peers@.len() ==> advantage(sync.rollback@.current_frame, #[trigger] sync.peers@[k].remote_confirmed_frame)
            <= sync.max_rollback_frames as i32,
    ensures
        !sync.stalled(),
{
}

/// The frame advantage over every peer is defined whenever all frame numbers are below
/// 2^31, whether peers are behind or ahead of the local simulation.
pub proof fn law_advantages_fit_below_2_31<S: RollbackState>(sync: NetworkSync<S>)
    requires
        sync.rollback@.current_frame < 0x8000_0000,
        forall|k: int| 0 <= k < sync.peers@.len() ==> (#[trigger] sync.peers@[k]).remote_confirmed_frame < 0x8000_0000,
    ensures
        sync.advantages_fit(),
{
    assert forall|k: int| 0 <= k < sync.peers@.len() implies advantage_fits(
        sync.rollback@.current_frame,
        #[trigger] sync.peers@[k].remote_confirmed_frame,
    ) by {
        crate::network::peer::law_advantage_is_difference(sync.rollback@.current_frame, sync.peers@[k].remote_confirmed_frame);
    }
}

/// Every packet whose input frames fit in a `u32` is accepted, whatever the session holds:
/// redundant input packets that start before the confirmed frame included.
pub proof fn law_fitting_packets_are_accepted<S: RollbackState>(sync: NetworkSync<S>, packet: NetworkPacket<S::Input>)
    requires
        packet.kind matches PacketKind::Input { start_frame, inputs, .. } ==> start_frame + inputs@.len() <= u32::MAX + 1,
    ensures
        sync.accepts(packet),
{
}

/// Whether a packet is accepted depends on the packet and the number of players only, not on
/// the frames the session has simulated or confirmed.
pub proof fn law_acceptance_ignores_progress<S: RollbackState>(
    a: NetworkSync<S>,
    b: NetworkSync<S>,
    packet: NetworkPacket<S::Input>,
)
    requires
        a.rollback@.player_count == b.rollback@.player_count,
    ensures
        a.accepts(packet) == b.accepts(packet),
{
}

} // verus!

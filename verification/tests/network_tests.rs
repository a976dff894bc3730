use rollback_rs::error::RollbackError;
use rollback_rs::network::packet::{NetworkPacket, PacketKind};
use rollback_rs::network::peer::{frame_advantage_fits, redundancy_for, suggested_input_delay_for, PeerState};
use rollback_rs::network::session::{FrameStep, NetworkSync, PacketOutcome};
use rollback_rs::state::RollbackState;
use serde::ser::SerializeStruct;

#[derive(Clone, Debug, PartialEq)]
struct Pair {
    a: i32,
    b: i32,
}

impl serde::Serialize for Pair {
    fn serialize<Z: serde::Serializer>(&self, serializer: Z) -> Result<Z::Ok, Z::Error> {
        let mut st = serializer.serialize_struct("Pair", 2)?;
        st.serialize_field("a", &self.a)?;
        st.serialize_field("b", &self.b)?;
        st.end()
    }
}

impl RollbackState for Pair {
    type Input = i32;
    fn advance(&mut self, inputs: &[i32]) {
        self.a += inputs[0];
        self.b += inputs[1];
    }
    fn stepped(self, inputs: &[i32]) -> Self {
        let mut next = self;
        next.advance(inputs);
        next
    }
    fn save(&self) -> Self {
        self.clone()
    }
    fn copy_input(input: &i32) -> i32 {
        input.clone()
    }
    fn same_input(a: &i32, b: &i32) -> bool {
        a == b
    }
}

#[test]
fn redundancy_is_clamped() {
    assert_eq!(redundancy_for(0), 2);
    assert_eq!(redundancy_for(5), 7);
    assert_eq!(redundancy_for(14), 16);
    assert_eq!(redundancy_for(100), 16);
}

#[test]
fn suggested_input_delay_is_capped() {
    assert_eq!(suggested_input_delay_for(0), 0);
    assert_eq!(suggested_input_delay_for(3), 3);
    assert_eq!(suggested_input_delay_for(8), 8);
    assert_eq!(suggested_input_delay_for(50), 8);
}

#[test]
fn new_peer_defaults() {
    let p = PeerState::new(4);
    assert_eq!(p.player_id, 4);
    assert_eq!(p.remote_confirmed_frame, 0);
    assert_eq!(p.redundancy, 3);
    assert_eq!(p.get_redundant_inputs(9), (9, vec![]));
}

#[test]
fn redundant_inputs_are_the_latest_sent() {
    let mut p = PeerState::new(1);
    for f in 0..5u32 {
        p.record_sent_input(f, vec![f as u8, 0xAA]);
    }
    let (start, bytes) = p.get_redundant_inputs(5);
    assert_eq!(start, 2);
    assert_eq!(bytes, vec![vec![2, 0xAA], vec![3, 0xAA], vec![4, 0xAA]]);
    p.update_redundancy(10);
    assert_eq!(p.redundancy, 12);
    let (start, bytes) = p.get_redundant_inputs(5);
    assert_eq!(start, 0);
    assert_eq!(bytes.len(), 5);
}

#[test]
fn sent_history_keeps_the_latest_32() {
    let mut p = PeerState::new(1);
    p.update_redundancy(100);
    for f in 0..40u32 {
        p.record_sent_input(f, vec![f as u8]);
    }
    let (start, bytes) = p.get_redundant_inputs(40);
    assert_eq!(start, 24);
    assert_eq!(bytes.len(), 16);
    assert_eq!(bytes[15], vec![39u8]);
    // All remembered inputs: the latest 32, from frame 8 on.
    p.redundancy = 100;
    let (start, bytes) = p.get_redundant_inputs(40);
    assert_eq!(start, 8);
    assert_eq!(bytes.len(), 32);
}

#[test]
fn zero_redundancy_sends_nothing() {
    let mut p = PeerState::new(1);
    p.record_sent_input(0, vec![1]);
    p.redundancy = 0;
    assert_eq!(p.get_redundant_inputs(7), (7, vec![]));
}

#[test]
fn frame_advantage_and_stall() {
    let mut p = PeerState::new(1);
    p.update_remote_confirmed(10);
    p.update_remote_confirmed(4);
    assert_eq!(p.remote_confirmed_frame, 10);
    assert_eq!(p.frame_advantage(25), 15);
    assert_eq!(p.frame_advantage(3), -7);
    assert!(p.should_stall(19, 8));
    assert!(!p.should_stall(18, 8));
    assert!(frame_advantage_fits(5, 10));
    assert!(!frame_advantage_fits(0x8000_0000, 1));
}

fn two_player_sync(local: usize) -> NetworkSync<Pair> {
    let mut sync = NetworkSync::new(local, Pair { a: 0, b: 0 }, 2, 8, 16, 0);
    assert_eq!(sync.add_peer(1 - local), 0);
    sync
}

#[test]
fn ping_from_known_peer_is_answered() {
    let mut sync = two_player_sync(0);
    sync.rollback.advance_frame(0, 1).unwrap();
    let out = sync.handle_packet(Some(0), NetworkPacket { sender_frame: 3, kind: PacketKind::Ping { timestamp_ms: 77 } });
    match out {
        PacketOutcome::Reply(0, reply) => {
            assert_eq!(reply.sender_frame, 1);
            assert!(matches!(reply.kind, PacketKind::Pong { echo_timestamp_ms: 77 }));
        }
        other => panic!("unexpected outcome {other:?}"),
    }
    let out = sync.handle_packet(None, NetworkPacket { sender_frame: 3, kind: PacketKind::Ping { timestamp_ms: 77 } });
    assert!(matches!(out, PacketOutcome::Handled));
}

#[test]
fn pong_from_known_peer_is_reported() {
    let mut sync = two_player_sync(0);
    let out = sync.handle_packet(Some(0), NetworkPacket { sender_frame: 0, kind: PacketKind::Pong { echo_timestamp_ms: 1 } });
    assert!(matches!(out, PacketOutcome::PongFrom(0)));
    let out = sync.handle_packet(None, NetworkPacket { sender_frame: 0, kind: PacketKind::Pong { echo_timestamp_ms: 1 } });
    assert!(matches!(out, PacketOutcome::Handled));
}

#[test]
fn input_packet_feeds_the_rollback_session() {
    let mut sync = two_player_sync(0);
    for _ in 0..3 {
        sync.rollback.advance_frame(0, 1).unwrap();
    }
    assert_eq!(sync.rollback.current_state(), &Pair { a: 3, b: 0 });
    let packet = NetworkPacket {
        sender_frame: 2,
        kind: PacketKind::Input { player_id: 1, start_frame: 0, inputs: vec![2, 2, 2] },
    };
    assert!(sync.check_packet(&packet));
    let out = sync.handle_packet(Some(0), packet);
    assert!(matches!(out, PacketOutcome::Handled));
    assert_eq!(sync.rollback.current_state(), &Pair { a: 3, b: 6 });
    assert_eq!(sync.rollback.confirmed_frame(), 3);
    assert_eq!(sync.peers[0].remote_confirmed_frame, 2);
}

#[test]
fn input_packet_for_unknown_player_is_rejected() {
    let mut sync = two_player_sync(0);
    let out = sync.handle_packet(
        None,
        NetworkPacket { sender_frame: 0, kind: PacketKind::Input { player_id: 7, start_frame: 0, inputs: vec![1] } },
    );
    match out {
        PacketOutcome::InputRejected(e) => {
            assert_eq!(e, RollbackError::InvalidPlayerId { player_id: 7, player_count: 2 })
        }
        other => panic!("unexpected outcome {other:?}"),
    }
}

#[test]
fn overflowing_input_packet_is_not_accepted() {
    let sync = two_player_sync(0);
    let packet = NetworkPacket {
        sender_frame: 0,
        kind: PacketKind::Input { player_id: 1, start_frame: u32::MAX, inputs: vec![1, 2] },
    };
    assert!(!sync.check_packet(&packet));
    let packet = NetworkPacket {
        sender_frame: 0,
        kind: PacketKind::Input { player_id: 1, start_frame: u32::MAX, inputs: vec![1] },
    };
    assert!(sync.check_packet(&packet));
}

#[test]
fn checksum_mismatch_is_out_of_sync() {
    let mut sync = two_player_sync(0);
    let own = sync.checksum_packet();
    let local = match own.kind {
        PacketKind::Checksum { frame, checksum } => {
            assert_eq!(frame, 0);
            checksum
        }
        other => panic!("unexpected packet {other:?}"),
    };
    let out = sync.handle_packet(Some(0), NetworkPacket { sender_frame: 0, kind: PacketKind::Checksum { frame: 0, checksum: local } });
    assert!(matches!(out, PacketOutcome::Handled));
    let out = sync.handle_packet(
        Some(0),
        NetworkPacket { sender_frame: 0, kind: PacketKind::Checksum { frame: 0, checksum: local ^ 1 } },
    );
    match out {
        PacketOutcome::OutOfSync(e) => {
            assert_eq!(e, RollbackError::OutOfSync { frame: 0, local, remote: local ^ 1 })
        }
        other => panic!("unexpected outcome {other:?}"),
    }
}

#[test]
fn stall_when_too_far_ahead() {
    let mut sync = two_player_sync(0);
    for _ in 0..9 {
        assert!(sync.check_advantages());
        assert!(!sync.should_stall());
        sync.rollback.advance_frame(0, 0).unwrap();
    }
    assert!(sync.should_stall());
    sync.peers[0].update_remote_confirmed(1);
    assert!(!sync.should_stall());
}

#[test]
fn local_input_is_recorded_for_every_peer() {
    let mut sync = NetworkSync::new(0, Pair { a: 0, b: 0 }, 3, 8, 16, 0);
    sync.add_peer(1);
    sync.add_peer(2);
    let sends = sync.record_local_input(&vec![9, 9]);
    assert_eq!(sends, vec![(0, vec![vec![9, 9]]), (0, vec![vec![9, 9]])]);
    sync.rollback.advance_frame(0, 0).unwrap();
    let sends = sync.record_local_input(&vec![8]);
    assert_eq!(sends[1], (0, vec![vec![9, 9], vec![8]]));
    let packet = sync.input_packet(0, vec![1, 2]);
    assert_eq!(packet.sender_frame, 1);
    assert!(matches!(packet.kind, PacketKind::Input { player_id: 0, start_frame: 0, .. }));
    let ping = sync.ping_packet(5);
    assert!(matches!(ping.kind, PacketKind::Ping { timestamp_ms: 5 }));
    assert_eq!(sync.local_player_id(), 0);
}

#[test]
fn resending_at_the_same_frame_replaces_the_input() {
    let mut p = PeerState::new(1);
    p.record_sent_input(0, vec![1]);
    p.record_sent_input(1, vec![2]);
    p.record_sent_input(1, vec![3]);
    assert_eq!(p.get_redundant_inputs(2), (0, vec![vec![1], vec![3]]));
}

#[test]
fn a_gap_in_frames_restarts_the_sent_history() {
    let mut p = PeerState::new(1);
    p.record_sent_input(0, vec![1]);
    p.record_sent_input(1, vec![2]);
    p.record_sent_input(5, vec![6]);
    assert_eq!(p.get_redundant_inputs(6), (5, vec![vec![6]]));
}

fn input_packet_parts(packet: &NetworkPacket<i32>) -> (usize, u32, Vec<i32>) {
    match &packet.kind {
        PacketKind::Input { player_id, start_frame, inputs } => (*player_id, *start_frame, inputs.clone()),
        _ => panic!("not an input packet"),
    }
}

#[test]
fn send_input_packs_contiguous_inputs_for_every_peer() {
    let mut sync = NetworkSync::new(0, Pair { a: 0, b: 0 }, 3, 8, 16, 0);
    sync.add_peer(1);
    sync.add_peer(2);
    let sends = sync.send_input(&4).unwrap();
    assert_eq!(sends.len(), 2);
    assert_eq!(sends[0].0, 0);
    assert_eq!(sends[1].0, 1);
    assert_eq!(input_packet_parts(&sends[1].1), (0, 0, vec![4]));
    // A second send in the same frame replaces the first.
    let sends = sync.send_input(&5).unwrap();
    assert_eq!(input_packet_parts(&sends[0].1), (0, 0, vec![5]));
    sync.rollback.advance_frame(0, 5).unwrap();
    let sends = sync.send_input(&6).unwrap();
    assert_eq!(sends[0].1.sender_frame, 1);
    assert_eq!(input_packet_parts(&sends[0].1), (0, 0, vec![5, 6]));
    assert_eq!(sync.rollback.current_frame(), 1);
}

#[test]
fn checksum_packet_carries_the_confirmed_checksum() {
    let sync = two_player_sync(0);
    let packet = sync.checksum_packet();
    let local = sync.rollback.confirmed_state().checksum();
    assert!(matches!(packet.kind, PacketKind::Checksum { frame: 0, checksum } if checksum == local));
}

#[test]
fn advance_frame_sends_then_simulates_or_stalls() {
    let mut sync = two_player_sync(0);
    for f in 0..9i32 {
        match sync.advance_frame(f).unwrap() {
            FrameStep::Advanced(Some(sends)) => {
                assert_eq!(sends.len(), 1);
                assert_eq!(sends[0].1.sender_frame, f as u32);
            }
            other => panic!("expected an advanced frame, got {:?}", other),
        }
    }
    assert_eq!(sync.rollback.current_frame(), 9);
    assert_eq!(sync.rollback.current_state().a, (0..9).sum::<i32>());
    // Nine frames ahead of a peer that reported nothing: the frame stalls.
    assert!(matches!(sync.advance_frame(100).unwrap(), FrameStep::Stalled));
    assert_eq!(sync.rollback.current_frame(), 9);
}

#[test]
fn advance_frame_refuses_an_invalid_local_player() {
    let mut sync = NetworkSync::new(5, Pair { a: 0, b: 0 }, 2, 8, 16, 0);
    sync.add_peer(1);
    let err = sync.advance_frame(1).unwrap_err();
    assert_eq!(err, RollbackError::InvalidPlayerId { player_id: 5, player_count: 2 });
    assert_eq!(sync.rollback.current_frame(), 0);
}

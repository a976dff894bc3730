use rollback_rs::error::RollbackError;
use rollback_rs::state::RollbackState;
use rollback_rs::sync::{checksum_verdict, RollbackSession};
use serde::ser::SerializeStruct;

#[derive(Clone, Debug, PartialEq)]
struct Walker {
    pos: i32,
}

impl serde::Serialize for Walker {
    fn serialize<Z: serde::Serializer>(&self, serializer: Z) -> Result<Z::Ok, Z::Error> {
        let mut st = serializer.serialize_struct("Walker", 1)?;
        st.serialize_field("pos", &self.pos)?;
        st.end()
    }
}

#[derive(Clone, Debug, Default, PartialEq)]
struct Step {
    delta: i32,
}

impl RollbackState for Walker {
    type Input = Step;
    fn advance(&mut self, inputs: &[Self::Input]) {
        // Order-sensitive, so that a wrong replay order would show.
        for input in inputs {
            self.pos = self.pos * 3 + input.delta;
        }
    }
    fn stepped(self, inputs: &[Self::Input]) -> Self {
        let mut next = self;
        next.advance(inputs);
        next
    }
    fn save(&self) -> Self {
        self.clone()
    }
    fn copy_input(input: &Self::Input) -> Self::Input {
        input.clone()
    }
    fn same_input(a: &Self::Input, b: &Self::Input) -> bool {
        a == b
    }
}

fn fresh_simulation(p0: &[i32], p1: &[i32]) -> i32 {
    let mut s = Walker { pos: 0 };
    for (a, b) in p0.iter().zip(p1) {
        s.advance(&[Step { delta: *a }, Step { delta: *b }]);
    }
    s.pos
}

#[test]
fn rollback_path_matches_fresh_simulation() {
    let p0 = [1, -2, 3, 0, 5, -1];
    let p1 = [4, 4, -3, 2, 0, 7];
    let mut session = RollbackSession::new(Walker { pos: 0 }, 2, 8, 16);
    for d in &p0 {
        session.advance_frame(0, Step { delta: *d }).unwrap();
    }
    session
        .add_remote_inputs(1, 0, p1.iter().map(|d| Step { delta: *d }).collect())
        .unwrap();
    assert_eq!(session.current_state().pos, fresh_simulation(&p0, &p1));
}

#[test]
fn late_single_inputs_match_fresh_simulation() {
    let p0 = [2, 1, -1, 3, 0];
    let p1 = [0, 5, 5, -4, 1];
    let mut session = RollbackSession::new(Walker { pos: 0 }, 2, 8, 16);
    for d in &p0 {
        session.advance_frame(0, Step { delta: *d }).unwrap();
    }
    // Deliver out of order.
    for f in [3usize, 0, 4, 1, 2] {
        session.add_remote_input(1, f as u32, Step { delta: p1[f] }).unwrap();
    }
    assert_eq!(session.current_state().pos, fresh_simulation(&p0, &p1));
    assert_eq!(session.confirmed_frame(), 5);
    assert_eq!(session.confirmed_state().pos, fresh_simulation(&p0, &p1));
    assert_eq!(session.pending_frames(), 0);
}

#[test]
fn batch_and_single_delivery_agree() {
    let p0 = [1, 2, 3, 4, 5];
    let p1 = [-1, 0, 2, 2, -7];
    let mut single = RollbackSession::new(Walker { pos: 0 }, 2, 8, 16);
    let mut batch = RollbackSession::new(Walker { pos: 0 }, 2, 8, 16);
    for d in &p0 {
        single.advance_frame(0, Step { delta: *d }).unwrap();
        batch.advance_frame(0, Step { delta: *d }).unwrap();
    }
    for (i, d) in p1.iter().enumerate() {
        single.add_remote_input(1, i as u32, Step { delta: *d }).unwrap();
    }
    batch
        .add_remote_inputs(1, 0, p1.iter().map(|d| Step { delta: *d }).collect())
        .unwrap();
    assert_eq!(single.current_state().pos, batch.current_state().pos);
    assert_eq!(single.confirmed_frame(), batch.confirmed_frame());
}

#[test]
fn confirmed_frame_never_goes_back() {
    let mut session = RollbackSession::new(Walker { pos: 0 }, 2, 8, 3);
    let mut last = 0u32;
    for f in 0..12u32 {
        session.advance_frame(0, Step { delta: 1 }).unwrap();
        if f % 3 == 0 {
            let _ = session.add_remote_input(1, f, Step { delta: 2 });
        }
        assert!(session.confirmed_frame() >= last);
        assert!(session.confirmed_frame() <= session.current_frame());
        last = session.confirmed_frame();
    }
}

#[test]
fn pending_frames_never_exceed_max_input_delay() {
    for max_delay in 0..6u32 {
        let mut session = RollbackSession::new(Walker { pos: 0 }, 2, 8, max_delay);
        for _ in 0..15 {
            session.advance_frame(0, Step { delta: 1 }).unwrap();
            assert!(session.pending_frames() <= max_delay as usize);
        }
    }
}

#[test]
fn forced_confirmation_uses_predictions() {
    // max_input_delay = 0: every frame is confirmed as soon as it is simulated.
    let mut session = RollbackSession::new(Walker { pos: 0 }, 2, 8, 0);
    session.advance_frame(0, Step { delta: 2 }).unwrap();
    assert_eq!(session.confirmed_frame(), 1);
    assert_eq!(session.pending_frames(), 0);
    // Player 1 was predicted with the default input (0): (0 * 3 + 2) * 3 + 0.
    assert_eq!(session.confirmed_state().pos, 6);
    // A late input for a confirmed frame is too old.
    let err = session.add_remote_input(1, 0, Step { delta: 9 }).unwrap_err();
    assert_eq!(err, RollbackError::InputTooOld { frame: 0, confirmed_frame: 1 });
}

#[test]
fn rollback_too_far_is_refused() {
    let mut session = RollbackSession::new(Walker { pos: 0 }, 2, 2, 16);
    for _ in 0..4 {
        session.advance_frame(0, Step { delta: 1 }).unwrap();
    }
    let before = session.current_state().pos;
    let err = session.add_remote_input(1, 0, Step { delta: 5 }).unwrap_err();
    assert_eq!(err, RollbackError::RollbackTooFar { needed: 4, max: 2 });
    // Nothing was re-simulated.
    assert_eq!(session.current_state().pos, before);
    // A correction within the window is accepted.
    session.add_remote_input(1, 3, Step { delta: 5 }).unwrap();
}

#[test]
fn zero_max_rollback_refuses_every_correction() {
    let mut session = RollbackSession::new(Walker { pos: 0 }, 2, 0, 16);
    session.advance_frame(0, Step { delta: 1 }).unwrap();
    let err = session.add_remote_input(1, 0, Step { delta: 1 }).unwrap_err();
    assert_eq!(err, RollbackError::RollbackTooFar { needed: 1, max: 0 });
    // A right prediction needs no rollback.
    let mut session = RollbackSession::new(Walker { pos: 0 }, 2, 0, 16);
    session.advance_frame(0, Step { delta: 1 }).unwrap();
    session.add_remote_input(1, 0, Step { delta: 0 }).unwrap();
    assert_eq!(session.confirmed_frame(), 1);
}

#[test]
fn prediction_repeats_last_frame() {
    let mut session = RollbackSession::new(Walker { pos: 0 }, 2, 8, 16);
    // Nothing pending: player 1 is predicted with the default input (0).
    session.advance_frame(0, Step { delta: 0 }).unwrap();
    session.advance_frame(0, Step { delta: 0 }).unwrap();
    // Player 1's real input for frame 1 arrives; frame 0 still waits for it.
    session.add_remote_input(1, 1, Step { delta: 5 }).unwrap();
    assert_eq!(session.current_state().pos, 5);
    assert_eq!(session.pending_frames(), 2);
    // Frame 2 repeats the newest pending frame's input for player 1 (5).
    session.advance_frame(0, Step { delta: 1 }).unwrap();
    assert_eq!(session.current_state().pos, (5 * 3 + 1) * 3 + 5);
}

#[test]
fn batch_skips_frames_not_yet_simulated() {
    let mut session = RollbackSession::new(Walker { pos: 0 }, 2, 8, 16);
    session.advance_frame(0, Step { delta: 1 }).unwrap();
    session
        .add_remote_inputs(1, 0, vec![Step { delta: 2 }, Step { delta: 7 }, Step { delta: 7 }])
        .unwrap();
    assert_eq!(session.current_frame(), 1);
    assert_eq!(session.confirmed_frame(), 1);
    assert_eq!(session.confirmed_state().pos, 5);
}

#[test]
fn input_delay_applies_after_delay() {
    let mut session = RollbackSession::with_input_delay(Walker { pos: 0 }, 1, 8, 16, 3);
    assert_eq!(session.input_delay(), 3);
    for d in [1, 2, 3, 4, 5] {
        session.advance_frame(0, Step { delta: d }).unwrap();
    }
    // Frames 0..2 predicted the default (0); frames 3 and 4 used the inputs of frames 0 and 1.
    assert_eq!(session.current_state().pos, (0 * 3 + 1) * 3 + 2);
}

#[test]
fn verify_checksum_ignores_other_frames() {
    let session = RollbackSession::new(Walker { pos: 7 }, 2, 8, 16);
    assert!(session.verify_checksum(5, 12345).is_ok());
}

#[test]
fn verify_checksum_reports_both_checksums() {
    let session = RollbackSession::new(Walker { pos: 7 }, 2, 8, 16);
    let local = session.confirmed_state().checksum();
    let remote = local.wrapping_add(1);
    let err = session.verify_checksum(0, remote).unwrap_err();
    assert_eq!(err, RollbackError::OutOfSync { frame: 0, local, remote });
}

#[test]
fn checksum_verdict_is_exact() {
    assert_eq!(checksum_verdict(3, 10, 10), Ok(()));
    assert_eq!(
        checksum_verdict(3, 10, 11),
        Err(RollbackError::OutOfSync { frame: 3, local: 10, remote: 11 })
    );
}

#[test]
fn saved_state_is_an_equal_copy() {
    let s = Walker { pos: -4 };
    assert_eq!(s.save(), s);
    assert_eq!(Walker::copy_input(&Step { delta: 3 }), Step { delta: 3 });
    assert!(Walker::same_input(&Step { delta: 3 }, &Step { delta: 3 }));
    assert!(!Walker::same_input(&Step { delta: 3 }, &Step { delta: 4 }));
}

#[test]
fn interleaved_delivery_matches_batch() {
    let p0 = [3, -1, 4, 1, -5, 9];
    let p1 = [2, 7, -1, 8, 2, -8];
    let mut reference = RollbackSession::new(Walker { pos: 0 }, 2, 8, 16);
    for i in 0..6 {
        reference.advance_frame(0, Step { delta: p0[i] }).unwrap();
        reference.add_remote_input(1, i as u32, Step { delta: p1[i] }).unwrap();
    }
    let mut session = RollbackSession::new(Walker { pos: 0 }, 2, 8, 16);
    for d in &p0 {
        session.advance_frame(0, Step { delta: *d }).unwrap();
    }
    session
        .add_remote_inputs(1, 0, p1.iter().map(|d| Step { delta: *d }).collect())
        .unwrap();
    assert_eq!(session.current_state(), reference.current_state());
    assert_eq!(session.confirmed_frame(), 6);
    assert_eq!(reference.confirmed_frame(), 6);
    assert_eq!(session.confirmed_state(), reference.confirmed_state());
    assert_eq!(session.current_state().pos, fresh_simulation(&p0, &p1));
}

#[test]
fn delayed_input_lands_after_delay_frames() {
    // Two players, delay 2: the input submitted at frame f is player 0's input at f + 2.
    let mut session = RollbackSession::with_input_delay(Walker { pos: 0 }, 2, 8, 16, 2);
    for (f, d) in [1, 2, 3, 4].iter().enumerate() {
        session.advance_frame(0, Step { delta: *d }).unwrap();
        session.add_remote_input(1, f as u32, Step { delta: 0 }).unwrap();
    }
    // Frames 0 and 1 repeat the prediction (0); frames 2 and 3 use the inputs 1 and 2.
    assert_eq!(session.current_state().pos, (((0 * 3 + 1) * 3 + 0) * 3 + 2) * 3 + 0);
    // Frames 0 and 1 hold a prediction for the local player, so nothing is confirmed yet.
    assert_eq!(session.confirmed_frame(), 0);
    assert_eq!(session.pending_frames(), 4);
}

use doom_server::protocol::{CmdBundle, Frame, FrameError, TicCmd, FRAME_SIZE, MAP_HEIGHT, MAP_WIDTH};

#[test]
fn frame_size_is_map_area() {
    assert_eq!(FRAME_SIZE, MAP_WIDTH * MAP_HEIGHT);
}

#[test]
fn frame_from_bytes_accepts_exact_length() {
    let bytes: Vec<u8> = (0..FRAME_SIZE).map(|i| (i % 251) as u8).collect();
    let frame = Frame::from_bytes(&bytes).unwrap();
    assert_eq!(frame.0[0], 0);
    assert_eq!(frame.0[300], (300 % 251) as u8);
    assert_eq!(frame.to_bytes(), bytes);
}

#[test]
fn frame_from_bytes_rejects_short_buffer() {
    let bytes = vec![7u8; FRAME_SIZE - 1];
    assert_eq!(Frame::from_bytes(&bytes).unwrap_err(), FrameError::InvalidLength);
}

#[test]
fn frame_from_bytes_rejects_long_buffer() {
    let bytes = vec![7u8; FRAME_SIZE + 1];
    assert!(matches!(Frame::from_bytes(&bytes), Err(FrameError::InvalidLength)));
}

#[test]
fn frame_from_bytes_rejects_empty_buffer() {
    assert!(Frame::from_bytes(&Vec::new()).is_err());
}

#[test]
fn frame_round_trip_law() {
    let mut frame = Frame([3u8; FRAME_SIZE]);
    frame.0[17] = 200;
    let read_back = Frame::from_bytes(&frame.to_bytes()).unwrap();
    assert_eq!(read_back, frame);
}

#[test]
fn ticcmd_default_is_zero() {
    let cmd = TicCmd::default();
    assert_eq!(cmd.maketic, 0);
    assert_eq!(cmd.player_id, 0);
    assert_eq!(cmd.forwardmove, 0);
    assert_eq!(cmd.inventory, 0);
    assert_eq!(cmd.arti, 0);
}

#[test]
fn cmd_bundle_default_is_empty() {
    let b = CmdBundle::default();
    assert_eq!(b.maketic, 0);
    assert!(b.present.iter().all(|p| !p));
    assert!(b.cmds.iter().all(|c| *c == TicCmd::default()));
}

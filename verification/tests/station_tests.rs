use rustcast::{ChildEvent, Context, FrameWithMeta, ListenerID, PlaylistFrameStream, Playlist, PacerAction, StreamError};

fn frame(bytes: &[u8], content_type: &str, duration: u64) -> FrameWithMeta {
    FrameWithMeta {
        frame: bytes.to_vec(),
        title: "t".to_string(),
        artist: "a".to_string(),
        content_type: content_type.to_string(),
        duration,
    }
}

#[test]
fn station_starts_with_sentinel() {
    let mut ctx = Context::new();
    let p = Playlist::new("s".to_string(), &mut ctx);
    assert!(!p.is_finished());
    assert_eq!(p.frames.len(), 1);
    assert_eq!(p.frames[0].frame_with_meta.frame.len(), 0);
    assert_eq!(p.get_oldest_prepared_frames(), 0);
    assert_eq!(p.get_content_type().as_str(), "");
}

#[test]
fn prepare_frame_publishes_in_order_with_increasing_ids() {
    let mut ctx = Context::new();
    let mut p = Playlist::new("s".to_string(), &mut ctx);
    p.prepare_frame(&mut ctx, Some(ChildEvent::Frame(frame(b"aa", "audio/mpeg", 10))))
        .unwrap();
    p.prepare_frame(&mut ctx, Some(ChildEvent::Frame(frame(b"bb", "audio/flac", 20))))
        .unwrap();
    assert_eq!(p.frames.len(), 3);
    assert!(p.frames[0].id < p.frames[1].id);
    assert!(p.frames[1].id < p.frames[2].id);
    assert_eq!(p.get_content_type().as_str(), "audio/flac");
    assert_eq!(p.newest, 2);
}

#[test]
fn prepare_frame_is_a_no_op_once_finished() {
    let mut ctx = Context::new();
    let mut p = Playlist::new("s".to_string(), &mut ctx);
    p.prepare_frame(&mut ctx, Some(ChildEvent::Closed)).unwrap();
    assert!(p.is_finished());
    let frames_before = p.frames.len();
    // calling it any number of times produces no new frames
    for _ in 0..5 {
        p.prepare_frame(&mut ctx, None).unwrap();
        assert_eq!(p.frames.len(), frames_before);
        assert!(p.is_finished());
    }
}

#[test]
fn prepare_frame_propagates_source_errors() {
    let mut ctx = Context::new();
    let mut p = Playlist::new("s".to_string(), &mut ctx);
    let r = p.prepare_frame(
        &mut ctx,
        Some(ChildEvent::Failed(StreamError::IoError("read failed".to_string()))),
    );
    assert!(matches!(r, Err(StreamError::IoError(_))));
    assert!(!p.is_finished());
    assert_eq!(p.frames.len(), 1);
}

#[test]
fn two_listeners_see_the_same_frames_in_the_same_order() {
    let mut ctx = Context::new();
    let mut p = Playlist::new("s".to_string(), &mut ctx);
    for i in 0..3u8 {
        p.prepare_frame(&mut ctx, Some(ChildEvent::Frame(frame(&[i; 4], "audio/mpeg", 10))))
            .unwrap();
    }
    let first = ListenerID { listener_id: 100, session_id: None };
    let second = ListenerID { listener_id: 101, session_id: None };
    let mut walk = |listener: &ListenerID| -> Vec<u64> {
        let mut pacer = PlaylistFrameStream::new(&p, listener, 0);
        let mut seen = Vec::new();
        loop {
            match pacer.poll_decide(0) {
                PacerAction::StartFetch => match p.get_next(pacer.current) {
                    Some(j) => {
                        let d = p.frame_at(j).frame_with_meta.duration;
                        pacer.on_fetch_frame(j, d);
                        seen.push(p.frame_at(j).id);
                        pacer.on_sleep_elapsed();
                    }
                    None => {
                        pacer.on_fetch_end();
                    }
                },
                PacerAction::Finished => break,
                _ => panic!("nothing else is pending in this walk"),
            }
        }
        seen
    };
    let a = walk(&first);
    let b = walk(&second);
    assert_eq!(a, b);
    assert_eq!(a.len(), 3);
    assert!(a[0] < a[1] && a[1] < a[2]);
}

#[test]
fn session_resume_returns_to_the_last_frame_not_the_head() {
    let mut ctx = Context::new();
    let mut p = Playlist::new("s".to_string(), &mut ctx);
    for i in 0..4u8 {
        p.prepare_frame(&mut ctx, Some(ChildEvent::Frame(frame(&[i; 4], "audio/mpeg", 10))))
            .unwrap();
    }
    let listener = ListenerID { listener_id: 7, session_id: Some("abc".to_string()) };
    p.log_session_id("abc".to_string(), 7, 1000);
    p.log_current_frame(&listener, 2, 1000);

    // the listener reconnects within the keep-alive window
    let got = p.get_listener_id_from_session_id("abc", 2000);
    assert_eq!(got, Some(7));
    let resumed = ListenerID { listener_id: 7, session_id: Some("abc".to_string()) };
    let pacer = PlaylistFrameStream::new(&p, &resumed, 2000);
    assert_eq!(pacer.current, 2);
    // the next frame delivered is the successor of the last delivered one
    assert_eq!(p.get_next(pacer.current), Some(3));

    // an unknown session gets a fresh start at the head
    assert_eq!(p.get_listener_id_from_session_id("nope", 2000), None);
    let fresh = ListenerID { listener_id: 8, session_id: None };
    let fresh_pacer = PlaylistFrameStream::new(&p, &fresh, 2000);
    assert_eq!(fresh_pacer.current, p.get_oldest_prepared_frames());
}

#[test]
fn expiry_advances_the_head_but_not_past_live_listeners() {
    let mut ctx = Context::new();
    let mut p = Playlist::new("s".to_string(), &mut ctx);
    for i in 0..4u8 {
        p.prepare_frame(&mut ctx, Some(ChildEvent::Frame(frame(&[i; 4], "audio/mpeg", 10))))
            .unwrap();
    }
    let listener = ListenerID { listener_id: 7, session_id: None };
    p.log_current_frame(&listener, 3, 0);
    assert_eq!(p.get_oldest_prepared_frames(), 0);

    // before the marker expires, the head does not move
    p.expire(59_999);
    assert_eq!(p.get_oldest_prepared_frames(), 0);

    // once the write-ahead window passes, the head advances to the
    // delivered frame; the listener entry itself is still live, so the
    // head stands no later than the listener's last frame
    p.expire(60_000);
    assert_eq!(p.get_oldest_prepared_frames(), 3);
    assert_eq!(p.get_frame_with_id(&listener), Some(3));

    // after the keep-alive window the listener itself is forgotten
    p.expire(400_000);
    assert_eq!(p.get_frame_with_id(&listener), None);
}

#[test]
fn passed_frames_shed_their_payloads_but_keep_their_ids() {
    let mut ctx = Context::new();
    let mut p = Playlist::new("s".to_string(), &mut ctx);
    for i in 0..4u8 {
        p.prepare_frame(&mut ctx, Some(ChildEvent::Frame(frame(&[i; 64], "audio/mpeg", 10))))
            .unwrap();
    }
    let listener = ListenerID { listener_id: 7, session_id: None };
    p.log_current_frame(&listener, 3, 0);
    p.expire(60_000);
    assert_eq!(p.get_oldest_prepared_frames(), 3);
    let ids: Vec<u64> = p.frames.iter().map(|f| f.id).collect();
    p.release_passed_frames();
    // the payloads before the head are gone, the list and its ids stand
    for i in 0..3 {
        assert_eq!(p.frames[i].frame_with_meta.frame.len(), 0);
    }
    assert_eq!(p.frames[3].frame_with_meta.frame.len(), 64);
    let ids_after: Vec<u64> = p.frames.iter().map(|f| f.id).collect();
    assert_eq!(ids, ids_after);
}

use rustcast::{ChildEvent, Context, FrameWithMeta, ListenerID, PacerAction, Playlist, PlaylistFrameStream};

fn station_with_frames(n: u8, duration: u64) -> (Playlist, Context) {
    let mut ctx = Context::new();
    let mut p = Playlist::new("s".to_string(), &mut ctx);
    for i in 0..n {
        p.prepare_frame(
            &mut ctx,
            Some(ChildEvent::Frame(FrameWithMeta {
                frame: vec![i; 8],
                title: "t".to_string(),
                artist: "a".to_string(),
                content_type: "audio/mpeg".to_string(),
                duration,
            })),
        )
        .unwrap();
    }
    (p, ctx)
}

#[test]
fn the_pacer_sleeps_each_frame_duration() {
    let (p, _ctx) = station_with_frames(2, 250);
    let listener = ListenerID { listener_id: 1, session_id: None };
    let mut pacer = PlaylistFrameStream::new(&p, &listener, 1000);
    assert!(matches!(pacer.poll_decide(1000), PacerAction::StartFetch));
    let j = p.get_next(pacer.current).unwrap();
    let sleep = pacer.on_fetch_frame(j, p.frame_at(j).frame_with_meta.duration);
    assert_eq!(sleep, 250);
    assert_eq!(pacer.write_ahead_duration, 250);
    // until the sleep elapses, the poll keeps waiting
    assert!(matches!(pacer.poll_decide(1100), PacerAction::WaitSleep));
    pacer.on_sleep_elapsed();
    assert!(matches!(pacer.poll_decide(1250), PacerAction::StartFetch));
}

#[test]
fn the_write_ahead_cap_forces_a_backoff() {
    let (p, _ctx) = station_with_frames(3, 30_000);
    let listener = ListenerID { listener_id: 1, session_id: None };
    let mut pacer = PlaylistFrameStream::new(&p, &listener, 1000);
    // two frames of thirty seconds each fill the sixty-second window
    for _ in 0..2 {
        assert!(matches!(pacer.poll_decide(1000), PacerAction::StartFetch));
        let j = p.get_next(pacer.current).unwrap();
        pacer.on_fetch_frame(j, 30_000);
        pacer.on_sleep_elapsed();
    }
    // one millisecond over the cap: the pacer backs off five seconds
    assert_eq!(pacer.write_ahead_duration, 60_000);
    assert!(matches!(pacer.poll_decide(999), PacerAction::Backoff));
    pacer.on_sleep_elapsed();
    // at the boundary the fetch may start again
    assert!(matches!(pacer.poll_decide(1000), PacerAction::StartFetch));
}

#[test]
fn the_stream_ends_when_the_station_is_drained() {
    let (mut p, mut ctx) = station_with_frames(1, 10);
    p.prepare_frame(&mut ctx, Some(ChildEvent::Closed)).unwrap();
    let listener = ListenerID { listener_id: 1, session_id: None };
    let mut pacer = PlaylistFrameStream::new(&p, &listener, 0);
    assert!(matches!(pacer.poll_decide(0), PacerAction::StartFetch));
    let j = p.get_next(pacer.current).unwrap();
    pacer.on_fetch_frame(j, 10);
    pacer.on_sleep_elapsed();
    assert!(matches!(pacer.poll_decide(10), PacerAction::StartFetch));
    assert!(p.get_next(pacer.current).is_none());
    pacer.on_fetch_end();
    assert!(matches!(pacer.poll_decide(10), PacerAction::Finished));
}

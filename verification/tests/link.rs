use glide::clipboard::{Clip, MAX_IMAGE, MAX_TEXT};
use glide::config::Side;
use glide::link::{
    alive, delivery, dial, frame_header, frame_len, no_addresses, opening, pack, Attempt, Delivery, Dialer, DialStep, Doing, Links,
    Report, Serving, MAX_FRAME,
};
use glide::proto::{DecodeError, Msg, Route};
use glide::screens::Screen;
use glide::timing::Summary;
use tokio::sync::mpsc::error::SendError;
use tokio::sync::mpsc::unbounded_channel;

#[test]
fn links_only_send_to_connected_peers() {
    let mut links = Links::default();
    links.send("ghost", Msg::Enter); // must not panic
    let (tx, mut rx) = unbounded_channel();
    assert!(links.try_register("anorak", tx));
    links.send("anorak", Msg::Enter);
    assert_eq!(rx.try_recv().unwrap(), Msg::Enter);
    let (second, _second_rx) = unbounded_channel();
    assert!(!links.try_register("anorak", second), "a second link must be refused");
    links.unregister("anorak");
    links.send("anorak", Msg::Leave);
    assert!(rx.try_recv().is_err());
}

#[test]
fn what_becomes_of_a_message() {
    let mut links = Links::default();
    assert_eq!(links.send("anorak", Msg::Enter), Delivery::NoLink);
    let (tx, rx) = unbounded_channel();
    links.try_register("anorak", tx);
    assert_eq!(links.send("anorak", Msg::Enter), Delivery::Queued);
    drop(rx);
    assert_eq!(links.send("anorak", Msg::Enter), Delivery::Closed);
}

#[test]
fn a_dead_link_gives_way() {
    let mut links = Links::default();
    assert!(!links.connected("anorak"));
    let (tx, rx) = unbounded_channel();
    links.try_register("anorak", tx);
    assert!(links.connected("anorak"));
    drop(rx);
    assert!(!links.connected("anorak"));
    let (second, mut second_rx) = unbounded_channel();
    assert!(links.try_register("anorak", second), "the first is gone");
    links.send("anorak", Msg::Leave);
    assert_eq!(second_rx.try_recv().unwrap(), Msg::Leave);
}

#[test]
fn a_claim_knows_whether_the_link_lives() {
    let mut links = Links::default();
    let (a, _a_rx) = unbounded_channel();
    let (b, _b_rx) = unbounded_channel();
    let (c, mut c_rx) = unbounded_channel();
    assert!(links.claim("anorak", a, true), "there is no link to be live");
    assert!(!links.claim("anorak", b, true));
    assert!(links.claim("anorak", c, false));
    links.send("anorak", Msg::Enter);
    assert_eq!(c_rx.try_recv().unwrap(), Msg::Enter);
}

#[test]
fn a_clip_goes_to_every_peer() {
    let mut links = Links::default();
    let (tx, mut rx) = unbounded_channel();
    links.try_register("anorak", tx);
    let clip = Clip::Image { mime: "image/png".into(), bytes: vec![1, 2, 3] };
    let peers = ["ghost".to_string(), "anorak".to_string()];
    assert_eq!(links.share(&peers, &clip), [Delivery::NoLink, Delivery::Queued]);
    assert_eq!(rx.try_recv().unwrap(), Msg::Clipboard(clip));
}

#[test]
fn a_header_is_the_length_highest_byte_first() {
    assert_eq!(frame_header(0), Some([0, 0, 0, 0]));
    assert_eq!(frame_header(0x01020304), Some([1, 2, 3, 4]));
    assert_eq!(frame_header(u32::MAX as usize), Some([255; 4]));
    assert_eq!(frame_header(u32::MAX as usize + 1), None, "frame too large");
    assert_eq!(frame_len([0, 0, 1, 2]), Ok(258));
    for len in [0, 1, 255, 256, 65535, 65536, MAX_FRAME] {
        assert_eq!(frame_len(frame_header(len).unwrap()), Ok(len));
    }
}

#[test]
fn absurd_frames_are_refused() {
    assert_eq!(MAX_FRAME, MAX_IMAGE + (1 << 16));
    assert_eq!(frame_len(frame_header(MAX_FRAME + 1).unwrap()), Err(MAX_FRAME as u32 + 1));
    assert_eq!(frame_len([255; 4]), Err(u32::MAX));
}

#[test]
fn the_largest_clips_fit_in_a_frame() {
    let text = Msg::Clipboard(Clip::Text("x".repeat(MAX_TEXT)));
    assert!(pack(&text).bytes.len() <= MAX_FRAME);
    let image = Msg::Clipboard(Clip::Image { mime: "image/png".into(), bytes: vec![0; MAX_IMAGE] });
    assert!(pack(&image).bytes.len() <= MAX_FRAME);
}

#[test]
fn only_the_end_that_dials_opens_the_stream() {
    assert_eq!(opening(true), Some([0; 4]));
    assert_eq!(opening(false), None);
}

#[test]
fn messages_are_packed_for_their_channel() {
    let packed = pack(&Msg::Ping(1));
    assert_eq!(packed.route, Route::Datagram);
    assert_eq!(packed.bytes, Msg::Ping(1).encode());
    assert_eq!(pack(&Msg::Enter).route, Route::Stream);
}

fn serving() -> Serving {
    Serving::begin(true, vec![]).unwrap().0
}

#[test]
fn a_new_link_says_what_is_attached() {
    let screens = vec![Screen { name: "DP-1".into(), x: 0, y: 0, w: 1, h: 1 }];
    let (_, doings) = Serving::begin(true, screens.clone()).unwrap();
    assert_eq!(
        doings,
        vec![Doing::ShowLinked, Doing::Announce(true), Doing::Queue(Msg::Screens(screens))]
    );
    assert!(Serving::begin(false, vec![]).is_none(), "a duplicate hangs up");
}

#[test]
fn probes_are_answered_and_timed() {
    let mut serving = serving();
    assert_eq!(serving.report(), None);
    assert_eq!(
        serving.arrived(Route::Datagram, &Msg::Ping(9).encode(), 100),
        vec![Doing::Queue(Msg::Pong(9))]
    );
    assert_eq!(serving.arrived(Route::Datagram, &Msg::Pong(40).encode(), 100), vec![]);
    assert_eq!(serving.arrived(Route::Datagram, &Msg::Pong(500).encode(), 100), vec![]);
    assert_eq!(serving.samples.values, [60, 0]);
    assert_eq!(
        serving.report(),
        Some(Report { summary: Summary { p50: 60, p99: 60, min: 0, max: 60, n: 2 }, typical: 0 })
    );
}

#[test]
fn the_rest_is_for_the_session() {
    let mut serving = serving();
    for msg in [Msg::Enter, Msg::Arrange(Side::Top), Msg::Clipboard(Clip::Text("x".into()))] {
        let packed = pack(&msg);
        assert_eq!(serving.arrived(packed.route, &packed.bytes, 0), vec![Doing::Deliver(msg)]);
    }
    // Probes belong on datagrams; a frame is handed on whatever it holds.
    let ping = Msg::Ping(1).encode();
    assert_eq!(serving.arrived(Route::Stream, &ping, 0), vec![Doing::Deliver(Msg::Ping(1))]);
    let pong = Msg::Pong(1).encode();
    assert_eq!(serving.arrived(Route::Bulk, &pong, 5), vec![Doing::Deliver(Msg::Pong(1))]);
    assert!(serving.samples.values.is_empty());
}

#[test]
fn what_is_no_message_is_refused() {
    let mut serving = serving();
    assert_eq!(serving.arrived(Route::Stream, &[], 0), vec![], "the frame that opens the stream");
    assert_eq!(
        serving.arrived(Route::Datagram, &[], 0),
        vec![Doing::Refuse(DecodeError::EmptyMessage)]
    );
    assert_eq!(
        serving.arrived(Route::Bulk, &[200], 0),
        vec![Doing::Refuse(DecodeError::UnknownTag(200))]
    );
}

#[test]
fn a_lost_link_gives_the_cursor_back() {
    assert_eq!(
        serving().end(),
        vec![
            Doing::ShowOffline,
            Doing::Unregister,
            Doing::Announce(false),
            Doing::Deliver(Msg::Leave),
        ]
    );
}

#[test]
fn addresses_are_tried_in_order() {
    assert_eq!(dial(0, 0, None), DialStep::Fail, "no addresses");
    assert_eq!(dial(2, 0, None), DialStep::Try(0));
    assert_eq!(dial(2, 1, Some(Attempt::Failed)), DialStep::Try(1));
    assert_eq!(dial(2, 2, Some(Attempt::Failed)), DialStep::Fail);
    assert_eq!(dial(2, 1, Some(Attempt::Answered)), DialStep::Use);
    assert_eq!(dial(2, 1, Some(Attempt::Impossible)), DialStep::Try(1), "every address is tried");
    assert_eq!(dial(2, 2, Some(Attempt::Impossible)), DialStep::Fail);
}

#[test]
fn a_failure_is_said_once() {
    let mut dialer = Dialer::new();
    assert!(dialer.should_dial(false));
    assert!(!dialer.should_dial(true), "the peer may have dialed us first");
    assert!(dialer.missed());
    assert!(!dialer.missed());
    dialer.reached();
    assert!(dialer.missed());
}

#[test]
fn every_outcome_of_an_offer() {
    assert_eq!(delivery(None), Delivery::NoLink);
    assert_eq!(delivery(Some(Ok(()))), Delivery::Queued);
    assert_eq!(delivery(Some(Err(SendError(Msg::Enter)))), Delivery::Closed);
    assert!(alive(Some(false)));
    assert!(!alive(Some(true)));
    assert!(!alive(None));
}

#[test]
fn a_peer_that_lists_no_addresses() {
    assert_eq!(no_addresses("anorak"), "peer anorak has no addresses");
}

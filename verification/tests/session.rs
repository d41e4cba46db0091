use glide::clipboard::Clip;
use glide::config::Side;
use glide::event::{Event, KeyboardEvent, PointerEvent};
use glide::input::Label;
use glide::proto::Msg;
use glide::screens::Screen;
use glide::session::{Action, Captured, Place, Session};

fn place(name: &str, position: Side, display: Option<usize>) -> Place {
    Place { name: name.into(), position, display }
}

fn peers() -> Vec<Place> {
    vec![place("anorak", Side::Top, Some(2)), place("goldengate", Side::Right, None)]
}

fn server() -> Session {
    Session::start(true, peers(), true, false).0
}

fn client() -> Session {
    Session::start(false, peers(), true, true).0
}

fn key(key: u32, state: u8) -> Event {
    Event::Keyboard(KeyboardEvent::Key { time: 0, key, state })
}

fn motion() -> Event {
    Event::Pointer(PointerEvent::Motion { time: 3, dx: 1.5f64.to_bits(), dy: 0 })
}

fn shows(mode: Option<Label>) -> Action {
    Action::Publish { mode, allowed: true }
}

#[test]
fn a_server_starts_with_nothing_to_type_with() {
    let (session, actions) = Session::start(true, peers(), true, true);
    assert_eq!(actions, vec![shows(None), shows(Some(Label::Local))]);
    assert!(!session.wants_emulation());
    assert!(!session.wants_capture());
    assert!(session.watches_chord());
}

#[test]
fn a_client_starts_ready_to_be_typed_on() {
    let (session, actions) = Session::start(false, peers(), true, true);
    assert_eq!(
        actions,
        vec![
            shows(None),
            Action::CreateEmulation(0),
            Action::CreateEmulation(1),
            shows(Some(Label::Local)),
        ]
    );
    assert!(!session.watches_chord());
}

#[test]
fn a_missing_backend_is_said_so() {
    let (mut session, actions) = Session::start(false, peers(), false, false);
    let denied = |mode| Action::Publish { mode, allowed: false };
    assert_eq!(actions, vec![denied(None), denied(Some(Label::Local))]);
    assert!(session.wants_capture() && session.wants_emulation());

    assert_eq!(session.link_changed("anorak", true), vec![], "no capture to watch an edge with");
    assert_eq!(session.capture_opened(), vec![]);
    assert_eq!(session.retried(), vec![denied(None)]);
    assert_eq!(
        session.emulation_opened(),
        vec![Action::CreateEmulation(0), Action::CreateEmulation(1)]
    );
    assert_eq!(session.retried(), vec![shows(None)]);
}

#[test]
fn an_edge_is_armed_while_its_link_is_up() {
    let mut session = server();
    assert_eq!(
        session.link_changed("anorak", true),
        vec![Action::Restrict(Some(1)), Action::Create(0, Side::Top)]
    );
    assert_eq!(session.link_changed("anorak", true), vec![], "it already is");
    assert_eq!(
        session.link_changed("goldengate", true),
        vec![Action::Restrict(None), Action::Create(1, Side::Right)]
    );
    assert_eq!(session.link_changed("anorak", false), vec![Action::Destroy(0)]);
    assert_eq!(session.link_changed("anorak", false), vec![]);
    assert_eq!(session.link_changed("ghost", true), vec![]);
}

#[test]
fn display_zero_is_the_first_too() {
    let mut session = Session::start(true, vec![place("a", Side::Left, Some(0))], true, false).0;
    assert_eq!(
        session.link_changed("a", true),
        vec![Action::Restrict(Some(0)), Action::Create(0, Side::Left)]
    );
}

#[test]
fn a_server_with_a_link_takes_the_cursor_and_feeds_the_peer() {
    let mut session = server();
    assert_eq!(session.captured(0, Captured::Input(motion()), true), vec![], "nobody to feed yet");
    assert_eq!(
        session.captured(0, Captured::Begin, true),
        vec![Action::Send(0, Msg::Enter), Action::PushClipboard(0)]
    );
    assert_eq!(session.looked(0, None), vec![shows(Some(Label::Sending))]);
    assert_eq!(
        session.captured(0, Captured::Input(motion()), true),
        vec![Action::Send(0, Msg::Input(motion()))]
    );
    assert_eq!(session.looked(0, None), vec![shows(None)]);
    assert_eq!(session.captured(1, Captured::Input(motion()), true), vec![], "the wrong edge");
    assert_eq!(session.captured(2, Captured::Begin, true), vec![], "no such peer");
    assert_eq!(session.looked(2, None), vec![]);
}

#[test]
fn a_server_without_a_link_lets_the_cursor_go() {
    let mut session = server();
    assert_eq!(session.captured(0, Captured::Begin, false), vec![Action::ReleaseCapture]);
    assert_eq!(session.looked(0, None), vec![shows(None)]);
}

#[test]
fn a_client_hands_control_back_and_says_nothing_else() {
    let mut session = client();
    for linked in [true, false] {
        assert_eq!(
            session.captured(1, Captured::Begin, linked),
            vec![Action::Send(1, Msg::Leave), Action::ReleaseCapture]
        );
    }
    assert_eq!(session.captured(1, Captured::Input(key(30, 1)), true), vec![]);
    assert_eq!(session.looked(1, Some(vec![30])), vec![shows(None)], "only a server has a chord");
}

#[test]
fn the_chord_lifts_every_key_before_it_takes_control_back() {
    let mut session = server();
    session.captured(0, Captured::Begin, true);
    session.looked(0, None);
    assert_eq!(
        session.looked(0, Some(vec![29, 42])),
        vec![
            Action::Send(0, Msg::Input(key(29, 0))),
            Action::Send(0, Msg::Input(key(42, 0))),
            Action::Send(0, Msg::Leave),
            Action::ReleaseCapture,
            shows(Some(Label::Local)),
        ]
    );
    assert_eq!(session.captured(0, Captured::Input(motion()), true), vec![]);
}

#[test]
fn a_vanished_peer_gives_the_cursor_back() {
    let mut session = server();
    session.captured(1, Captured::Begin, true);
    session.looked(1, None);
    assert_eq!(session.incoming("anorak", Msg::Leave), vec![shows(None)], "it was not driven");
    assert_eq!(
        session.incoming("goldengate", Msg::Leave),
        vec![Action::ReleaseCapture, shows(Some(Label::Local))]
    );
}

#[test]
fn a_client_types_what_arrives_and_lifts_it_at_the_end() {
    let mut session = client();
    assert_eq!(session.incoming("anorak", Msg::Enter), vec![shows(Some(Label::Receiving))]);
    assert_eq!(
        session.incoming("anorak", Msg::Input(key(30, 1))),
        vec![Action::Type(0, key(30, 1)), shows(None)]
    );
    assert_eq!(session.incoming("goldengate", Msg::Input(key(30, 1))), vec![shows(None)]);
    assert_eq!(
        session.incoming("anorak", Msg::Leave),
        vec![Action::ReleaseKeys(0), shows(Some(Label::Local))]
    );
    assert_eq!(session.incoming("ghost", Msg::Input(key(30, 1))), vec![]);
}

#[test]
fn early_motion_lands_on_an_idle_client() {
    let mut session = client();
    assert_eq!(
        session.incoming("goldengate", Msg::Input(motion())),
        vec![Action::Type(1, motion()), shows(Some(Label::Receiving))]
    );
}

#[test]
fn a_server_ignores_input_from_a_client() {
    let mut session = server();
    assert_eq!(session.incoming("anorak", Msg::Input(key(30, 1))), vec![shows(None)]);
    assert_eq!(session.incoming("anorak", Msg::Enter), vec![shows(None)]);
}

#[test]
fn a_move_rearms_the_edge_and_tells_the_peer() {
    let mut session = server();
    assert_eq!(
        session.moved(0, Side::Left, Some(3)),
        vec![Action::Send(0, Msg::Arrange(Side::Right))],
        "no edge to move yet"
    );
    session.link_changed("anorak", true);
    assert_eq!(
        session.moved(0, Side::Left, Some(3)),
        vec![
            Action::Destroy(0),
            Action::Restrict(Some(2)),
            Action::Create(0, Side::Left),
            Action::Send(0, Msg::Arrange(Side::Right)),
        ]
    );
    assert_eq!(session.moved(5, Side::Left, None), vec![]);
}

#[test]
fn a_peer_may_say_where_it_sits() {
    let mut session = client();
    assert_eq!(
        session.incoming("anorak", Msg::Arrange(Side::Bottom)),
        vec![Action::SaveSide(0, Side::Bottom), shows(None)]
    );
    session.link_changed("anorak", true);
    assert_eq!(
        session.incoming("anorak", Msg::Arrange(Side::Bottom)),
        vec![
            Action::SaveSide(0, Side::Bottom),
            Action::Destroy(0),
            Action::Create(0, Side::Bottom),
            shows(None),
        ]
    );
}

#[test]
fn clips_screens_and_probes() {
    let mut session = server();
    let clip = Clip::Text("copied there".into());
    assert_eq!(
        session.incoming("anorak", Msg::Clipboard(clip.clone())),
        vec![Action::WriteClipboard(clip), shows(None)]
    );
    let screens = vec![Screen { name: "DP-1".into(), x: 0, y: 0, w: 1, h: 1 }];
    assert_eq!(
        session.incoming("goldengate", Msg::Screens(screens.clone())),
        vec![Action::KeepScreens(1, screens), shows(None)]
    );
    assert_eq!(session.incoming("anorak", Msg::Ping(1)), vec![shows(None)]);
    assert_eq!(session.incoming("anorak", Msg::Pong(1)), vec![shows(None)]);
}

#[test]
fn the_first_peer_of_a_name_is_meant() {
    let twins = vec![place("twin", Side::Left, None), place("twin", Side::Right, None)];
    let session = Session::start(true, twins, true, false).0;
    assert_eq!(session.handle_of("twin"), Some(0));
    assert_eq!(session.handle_of("other"), None);
}

use std::collections::HashSet;

use glide::clipboard::{Clip, LastSeen};
use glide::config::Side;
use glide::event::{Event, KeyboardEvent};
use glide::input::Label;
use glide::link::{dial, pack, Attempt, DialStep, Doing, Serving};
use glide::proto::Msg;
use glide::session::{Action, Captured, Place, Session};

fn machine(server: bool, peer: &str, side: Side) -> Session {
    let places = vec![Place { name: peer.into(), position: side, display: None }];
    Session::start(server, places, true, true).0
}

/// Everything that one machine sends, as it comes out of the other's connection.
fn across(actions: &[Action]) -> Vec<Msg> {
    let mut serving = Serving::begin(true, vec![]).unwrap().0;
    let mut heard = Vec::new();
    for action in actions {
        if let Action::Send(_, msg) = action {
            let packed = pack(msg);
            for doing in serving.arrived(packed.route, &packed.bytes, 0) {
                match doing {
                    Doing::Deliver(msg) => heard.push(msg),
                    other => panic!("{other:?}"),
                }
            }
        }
    }
    heard
}

/// One machine tells the other; what the other does about it comes back.
fn tell(there: &mut Session, from: &str, actions: &[Action]) -> Vec<Action> {
    across(actions).into_iter().flat_map(|msg| there.incoming(from, msg)).collect()
}

fn shows(mode: Option<Label>) -> Action {
    Action::Publish { mode, allowed: true }
}

#[test]
fn the_keyboard_follows_the_cursor_and_comes_back() {
    let mut server = machine(true, "laptop", Side::Right);
    let mut client = machine(false, "desktop", Side::Left);
    server.link_changed("laptop", true);
    client.link_changed("desktop", true);

    let crossed = server.captured(0, Captured::Begin, true);
    server.looked(0, None);
    assert_eq!(tell(&mut client, "desktop", &crossed), vec![shows(Some(Label::Receiving))]);

    let key = Event::Keyboard(KeyboardEvent::Key { time: 7, key: 30, state: 1 });
    let typed = server.captured(0, Captured::Input(key), true);
    server.looked(0, None);
    assert_eq!(
        tell(&mut client, "desktop", &typed),
        vec![Action::Type(0, key), shows(None)]
    );

    let back = client.captured(0, Captured::Begin, true);
    client.looked(0, None);
    assert_eq!(
        tell(&mut server, "laptop", &back),
        vec![Action::ReleaseCapture, shows(Some(Label::Local))]
    );
    assert_eq!(server.captured(0, Captured::Input(key), true), vec![], "nothing is sent any more");
}

#[test]
fn a_lost_link_lifts_keys_there_and_lets_go_here() {
    let mut server = machine(true, "laptop", Side::Right);
    let mut client = machine(false, "desktop", Side::Left);
    let crossed = server.captured(0, Captured::Begin, true);
    server.looked(0, None);
    tell(&mut client, "desktop", &crossed);

    let lost = |session: &mut Session, name: &str| -> Vec<Action> {
        let mut actions = Vec::new();
        for doing in Serving::begin(true, vec![]).unwrap().0.end() {
            match doing {
                Doing::Announce(up) => actions.extend(session.link_changed(name, up)),
                Doing::Deliver(msg) => actions.extend(session.incoming(name, msg)),
                _ => {}
            }
        }
        actions
    };
    assert_eq!(
        lost(&mut server, "laptop"),
        vec![Action::ReleaseCapture, shows(Some(Label::Local))]
    );
    assert_eq!(
        lost(&mut client, "desktop"),
        vec![Action::ReleaseKeys(0), shows(Some(Label::Local))]
    );
}

#[test]
fn a_move_is_taken_up_at_the_other_end() {
    let server = machine(true, "laptop", Side::Right);
    let mut client = machine(false, "desktop", Side::Left);
    client.link_changed("desktop", true);
    let moved = server.moved(0, Side::Top, Some(1));
    assert_eq!(
        tell(&mut client, "desktop", &moved),
        vec![
            Action::SaveSide(0, Side::Bottom),
            Action::Destroy(0),
            Action::Create(0, Side::Bottom),
            shows(None),
        ]
    );
}

#[test]
fn a_copy_here_is_pasted_there_and_not_sent_back() {
    let mut client = machine(false, "desktop", Side::Left);
    let clip = Clip::Text("copied".into());
    let mut here = LastSeen::start(&None);
    assert!(here.changed(&clip));
    let sent = [Action::Send(0, Msg::Clipboard(clip.clone()))];
    assert_eq!(
        tell(&mut client, "desktop", &sent),
        vec![Action::WriteClipboard(clip.clone()), shows(None)]
    );
    let mut there = LastSeen::start(&None);
    there.remember(&clip);
    assert!(!there.changed(&clip));
}

/// Performs edge actions as a backend would, which refuses to take an edge
/// twice or to drop one it does not watch.
fn watch(edges: &mut HashSet<u64>, actions: &[Action]) {
    for action in actions {
        match action {
            Action::Create(handle, _) => assert!(edges.insert(*handle), "taken twice"),
            Action::Destroy(handle) => assert!(edges.remove(handle), "dropped without being watched"),
            _ => {}
        }
    }
}

#[test]
fn the_backend_watches_exactly_the_armed_edges() {
    let places = vec![
        Place { name: "a".into(), position: Side::Left, display: None },
        Place { name: "b".into(), position: Side::Top, display: Some(1) },
    ];
    let mut session = Session::start(true, places, true, false).0;
    let mut edges = HashSet::new();
    let ups = [("a", true), ("a", true), ("b", true), ("a", false), ("a", false), ("a", true)];
    for (name, up) in ups {
        watch(&mut edges, &session.link_changed(name, up));
        watch(&mut edges, &session.moved(0, Side::Right, None));
        watch(&mut edges, &session.incoming("b", Msg::Arrange(Side::Left)));
        let armed: HashSet<u64> =
            (0..2).filter(|&h| session.armed[h as usize]).collect();
        assert_eq!(edges, armed);
    }
}

#[test]
fn the_first_address_to_answer_is_used() {
    let (answered, failed, impossible) =
        (Attempt::Answered, Attempt::Failed, Attempt::Impossible);
    let reached = |outcomes: &[Attempt]| -> Option<usize> {
        let (mut next, mut last) = (0, None);
        loop {
            match dial(outcomes.len(), next, last) {
                DialStep::Try(at) => {
                    last = Some(outcomes[at]);
                    next = at + 1;
                }
                DialStep::Use => return Some(next - 1),
                DialStep::Fail => return None,
            }
        }
    };
    assert_eq!(reached(&[]), None);
    assert_eq!(reached(&[failed, answered, answered]), Some(1));
    assert_eq!(reached(&[failed, failed]), None);
    assert_eq!(reached(&[failed, impossible, answered]), Some(2));
    assert_eq!(reached(&[impossible, answered]), Some(1));
    assert_eq!(reached(&[impossible, failed]), None);
}

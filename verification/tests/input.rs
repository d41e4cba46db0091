use glide::input::{crossing, release_chord, Cleanup, Crossing, Handover};

/// A client: driven by the server, shares nothing of its own.
fn client() -> Handover {
    Handover::new(true)
}

#[test]
fn control_follows_the_cursor() {
    let mut h = client();
    assert_eq!(h.name(), "local");

    h.began(0);
    assert!(h.forwarding(0), "our own edge should send");
    assert!(!h.forwarding(1), "only the peer whose edge was crossed");
    assert!(!h.peer_input(0), "a peer cannot type here while we drive it");

    assert!(h.peer_entered(0), "capture must be released when the peer takes over");
    assert_eq!(h.name(), "receiving");
    assert!(h.peer_input(0));
    assert!(!h.forwarding(0));
}

#[test]
fn motion_that_overtakes_its_announcement_still_lands() {
    let mut h = client();
    assert!(h.peer_input(0), "input while idle is taken as the announcement");
    assert_eq!(h.name(), "receiving");
}

#[test]
fn a_dead_link_never_leaves_input_stuck() {
    let mut h = client();
    h.began(0);
    assert_eq!(h.peer_left(0), Cleanup::ReleaseCapture, "we were driving a peer that vanished");
    assert_eq!(h.name(), "local");

    h.peer_entered(0);
    assert_eq!(h.peer_left(0), Cleanup::ReleaseKeys, "the peer was typing here");
    assert_eq!(h.name(), "local");

    assert_eq!(h.peer_left(1), Cleanup::Nothing, "an idle peer leaving changes nothing");
}

#[test]
fn the_release_chord_wins() {
    let mut h = client();
    h.began(0);
    h.take_back();
    assert_eq!(h.name(), "local");
    assert!(!h.forwarding(0));
}

/// Crossing an edge must never strand the cursor. Two ways it could: a server
/// with no peer grabs it and forwards into nothing, or a client has no edge to
/// hand it back with, so that only the chord gets it out.
#[test]
fn an_edge_never_traps_the_cursor() {
    assert_eq!(crossing(true, true), Crossing::Send);
    assert_eq!(
        crossing(true, false),
        Crossing::Stay,
        "a server with nowhere to send must keep input on this machine"
    );
    assert_eq!(
        crossing(false, true),
        Crossing::HandBack,
        "a client's edge is the way back, never a way to send"
    );
    assert_eq!(
        crossing(false, false),
        Crossing::HandBack,
        "and it stays the way back even with the link down"
    );
}

/// The whole point of the roles: a server's keyboard and mouse are shared
/// outward, and nothing on the wire can take them over.
#[test]
fn a_server_is_never_driven_by_its_peer() {
    let mut h = Handover::new(false);
    assert!(!h.peer_input(0), "a client may not type on the server");
    assert_eq!(h.name(), "local", "and may not put it into receiving either");
    assert!(!h.peer_entered(0), "nor claim the cursor");
    assert_eq!(h.name(), "local");

    // Sending still works, and is still given up cleanly.
    h.began(0);
    assert!(h.forwarding(0));
    assert!(!h.peer_input(0));
    assert_eq!(h.peer_left(0), Cleanup::ReleaseCapture);
    assert_eq!(h.name(), "local");
}

#[test]
fn only_the_peer_in_control_is_obeyed() {
    let mut h = client();
    assert!(h.peer_input(0));
    assert!(!h.peer_input(1), "another peer has the cursor");
    assert_eq!(h.peer_left(1), Cleanup::Nothing);
    assert_eq!(h.name(), "receiving");
    assert!(!h.peer_entered(1), "nothing was being sent");
    assert!(h.peer_input(1), "whoever entered last has it");
}

#[test]
fn the_chord_is_left_ctrl_shift_alt_and_meta() {
    assert_eq!(release_chord(), [29, 42, 56, 125]);
}

use glide::config::{
    keeps_argument, set_peer_side, set_position, side_named, ArrangeError, Config, Peer, Role, Side,
};
use glide::session::places;

fn peer(name: &str) -> Peer {
    Peer {
        name: name.into(),
        addrs: vec!["192.168.2.3:4242".into()],
        fingerprint: "8afca615".into(),
        position: Side::Top,
        display: Some(1),
    }
}

fn config(peers: Vec<Peer>) -> Config {
    Config { name: "goldengate".into(), role: Role::Server, listen: "0.0.0.0:4242".into(), peers }
}

#[test]
fn facing_sides() {
    assert_eq!(Side::Left.opposite(), Side::Right);
    assert_eq!(Side::Right.opposite(), Side::Left);
    assert_eq!(Side::Top.opposite(), Side::Bottom);
    assert_eq!(Side::Bottom.opposite(), Side::Top);
}

#[test]
fn the_first_peer_is_the_one_arranged() {
    let mut config = config(vec![peer("a"), peer("b")]);
    assert_eq!(set_position(&mut config, Side::Left, None), Ok(()));
    assert_eq!((config.peers[0].position, config.peers[0].display), (Side::Left, None));
    assert_eq!((config.peers[1].position, config.peers[1].display), (Side::Top, Some(1)));
    assert_eq!(config.peers[0].fingerprint, "8afca615");
}

#[test]
fn nobody_to_arrange() {
    let mut config = config(vec![]);
    assert_eq!(set_position(&mut config, Side::Left, None), Err(ArrangeError::NoPeers));
    assert_eq!(set_peer_side(&mut config, "a", Side::Left), Err(ArrangeError::NoSuchPeer));
}

#[test]
fn a_peers_side_changes_and_its_display_does_not() {
    let mut config = config(vec![peer("a"), peer("b"), peer("b")]);
    assert_eq!(set_peer_side(&mut config, "b", Side::Bottom), Ok(()));
    assert_eq!((config.peers[1].position, config.peers[1].display), (Side::Bottom, Some(1)));
    assert_eq!(config.peers[0].position, Side::Top);
    assert_eq!(config.peers[2].position, Side::Top, "the first of a name");
    assert_eq!(set_peer_side(&mut config, "c", Side::Left), Err(ArrangeError::NoSuchPeer));
}

#[test]
fn sides_by_name() {
    assert_eq!(side_named("left"), Side::Left);
    assert_eq!(side_named("top"), Side::Top);
    assert_eq!(side_named("bottom"), Side::Bottom);
    assert_eq!(side_named("right"), Side::Right);
    assert_eq!(side_named("upwards"), Side::Right);
}

#[test]
fn the_argument_finder_adds_is_dropped() {
    assert!(!keeps_argument("-psn_0_123"));
    assert!(!keeps_argument("-psn_"));
    assert!(keeps_argument("-psn"));
    assert!(keeps_argument("--json"));
    assert!(keeps_argument("run"));
    assert!(keeps_argument("x-psn_0"));
}

#[test]
fn where_the_configured_peers_sit() {
    let places = places(&[peer("a"), Peer { display: None, ..peer("b") }]);
    assert_eq!(places.len(), 2);
    assert_eq!((places[0].name.as_str(), places[0].position, places[0].display), ("a", Side::Top, Some(1)));
    assert_eq!((places[1].name.as_str(), places[1].display), ("b", None));
}

#[test]
fn a_new_machine_listens_everywhere_and_knows_nobody() {
    let config = Config::new("mymac".into(), Role::Client);
    assert_eq!((config.name.as_str(), config.role), ("mymac", Role::Client));
    assert_eq!(config.listen, "0.0.0.0:4242");
    assert!(config.peers.is_empty());
}

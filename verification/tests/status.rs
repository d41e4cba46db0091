use glide::input::Label;
use glide::screens::Screen;
use glide::status::{escape, Millis, State, Status};

fn millis(ms: f64) -> Millis {
    Millis {
        bits: ms.to_bits(),
        tenths: format!("{ms:.1}"),
        hundredths: format!("{ms:.2}"),
        thousandths: format!("{ms:.3}"),
    }
}

fn state(peer: &str, mode: &str, rtt_ms: Option<f64>, denied: bool) -> State {
    State { peer: peer.into(), mode: mode.into(), rtt_ms: rtt_ms.map(millis), denied }
}

/// Reads a file whole, the time with it.
fn read(file: &str) -> State {
    let saved = State::decode(file);
    let rtt = saved.rtt_ms.as_ref().and_then(|t| t.parse().ok()).map(millis);
    saved.state(rtt)
}

#[test]
fn survives_a_round_trip() {
    let state = state("anorak", "sending", Some(1.844), true);
    assert_eq!(read(&state.encode()), state);
}

#[test]
fn missing_fields_fall_back_to_offline() {
    assert_eq!(read(""), State::default());
    assert_eq!(read("mode=local\npeer=x\nrtt_ms=\n").rtt_ms, None);
    assert_eq!(read("garbage").mode, "offline");
}

#[test]
fn json_stays_valid_when_a_peer_name_is_hostile() {
    let state = state("an\"ora\\k", "sending", None, false);
    let json = state.json(false);
    assert!(json.contains(r#"an\"ora\\k"#), "{json}");
    assert_eq!(json.matches(r#"":""#).count(), 3, "{json}");
}

#[test]
fn summaries_say_which_way_input_is_going() {
    let mut state = state("anorak", "local", Some(1.84), false);
    assert_eq!(state.summary(), "● 1.8ms");
    state.mode = "sending".into();
    assert_eq!(state.summary(), "→ anorak");
    state.mode = "receiving".into();
    assert_eq!(state.summary(), "← anorak");
    state.mode = "offline".into();
    assert_eq!(state.summary(), "✕ offline");
}

#[test]
fn the_badge_is_just_the_letter() {
    let state = state("anorak", "sending", Some(2.0), false);
    assert!(state.json(true).contains(r#""text":"G""#), "{}", state.json(true));
    assert!(state.json(false).contains("anorak"), "{}", state.json(false));
    // A denied machine says so through the class, whatever the mode is.
    let denied = State { denied: true, ..state };
    assert!(denied.json(true).contains(r#""class":"denied""#), "{}", denied.json(true));
}

#[test]
fn a_reconnect_cannot_erase_a_permission_problem() {
    let mut state = state("anorak", "local", Some(1.8), true);
    assert_eq!(state.summary(), "⚠ needs permission");
    // The link dropping and coming back only ever touches `mode`.
    state.mode = "offline".into();
    state.mode = "local".into();
    assert_eq!(state.summary(), "⚠ needs permission", "denial must survive a reconnect");
}

#[test]
fn every_line_of_every_state() {
    let offline = state("anorak", "offline", None, false);
    assert_eq!(offline.headline(), "Not connected");
    assert_eq!(offline.flow(), "Looking for anorak");
    assert_eq!(offline.speed(), "No timing yet");
    assert_eq!(offline.tooltip(), "glide: no peer connected");
    assert_eq!(offline.class(), "offline");

    let local = state("anorak", "local", None, false);
    assert_eq!(local.summary(), "● linked");
    assert_eq!(local.headline(), "Linked to anorak");
    assert_eq!(local.flow(), "Input stays on this Mac");
    assert_eq!(local.tooltip(), "glide: linked to anorak, input is local, no samples yet");
    assert_eq!(local.class(), "local");

    let sending = state("anorak", "sending", Some(2.371), false);
    assert_eq!(sending.flow(), "You are controlling anorak");
    assert_eq!(sending.speed(), "2.37 ms round trip");
    assert_eq!(sending.tooltip(), "glide: controlling anorak, 2.37 ms round trip");

    let receiving = state("anorak", "receiving", Some(1.0), false);
    assert_eq!(receiving.flow(), "anorak is controlling this Mac");
    assert_eq!(
        receiving.tooltip(),
        "glide: anorak is controlling this machine, 1.00 ms round trip"
    );

    let denied = state("anorak", "local", Some(1.0), true);
    assert_eq!(denied.headline(), "Input permission needed");
    assert_eq!(denied.flow(), "Grant Input Monitoring and Device Control");
    assert_eq!(
        denied.tooltip(),
        "glide: grant Input Monitoring and Device Control to Glide, then restart it"
    );
}

#[test]
fn one_json_object_on_one_line() {
    assert_eq!(
        state("anorak", "local", Some(1.84), false).json(false),
        "{\"text\":\"● 1.8ms\",\"tooltip\":\"glide: linked to anorak, input is local, 1.84 ms \
         round trip\",\"class\":\"local\"}"
    );
}

#[test]
fn quotes_and_backslashes_are_escaped() {
    assert_eq!(escape(r#"a"b\c"#), r#"a\"b\\c"#);
    assert_eq!(escape(r#"\""#), r#"\\\""#);
    assert_eq!(escape("plain"), "plain");
}

#[test]
fn what_the_file_holds() {
    assert_eq!(
        state("anorak", "sending", Some(1.8444), true).encode(),
        "mode=sending\npeer=anorak\nrtt_ms=1.844\ndenied=true\n"
    );
    assert_eq!(State::default().encode(), "mode=offline\npeer=\nrtt_ms=\ndenied=false\n");
}

#[test]
fn a_file_read_line_by_line() {
    let saved = State::decode("mode=local\r\npeer=a=b\nmode=sending\nother=x\ndenied=yes\nrtt_ms=2.5");
    assert_eq!(saved.mode, "sending", "the last line counts");
    assert_eq!(saved.peer, "a=b", "the first equals sign parts key from value");
    assert_eq!(saved.rtt_ms.as_deref(), Some("2.5"));
    assert!(!saved.denied, "only the word true denies");
    assert_eq!(State::decode("mode=local\r\n").mode, "local");
    assert_eq!(State::decode("mode=local\r").mode, "local\r", "no newline, nothing to trim");
    assert_eq!(State::decode("\n\nmode=x\n\n").mode, "x");
    assert!(State::decode("denied=true").denied);
}

#[test]
fn the_file_is_written_only_when_something_changed() {
    let mut status = Status::default();
    assert_eq!(status.allowed(true), None, "it was allowed all along");
    let file = status.offline("anorak").expect("the peer is new");
    assert_eq!(file, "mode=offline\npeer=anorak\nrtt_ms=\ndenied=false\n");
    assert_eq!(status.offline("anorak"), None);
    assert!(status.linked("anorak").unwrap().starts_with("mode=local\n"));
    assert_eq!(status.flows(Label::Local), None);
    assert!(status.flows(Label::Sending).unwrap().starts_with("mode=sending\n"));
    assert!(status.timed(Some(millis(1.5))).unwrap().contains("rtt_ms=1.500\n"));
    assert_eq!(status.timed(Some(millis(1.5))), None);
    assert!(status.timed(Some(millis(1.5001))).is_some(), "a finer change is a change");
    assert!(status.allowed(false).unwrap().contains("denied=true\n"));
}

#[test]
fn times_compare_as_numbers() {
    assert_eq!(millis(0.0), millis(-0.0));
    assert_ne!(millis(f64::NAN), millis(f64::NAN));
    assert_ne!(millis(1.0), millis(-1.0));
    assert_eq!(millis(f64::INFINITY), millis(f64::INFINITY));

    let mut status = Status::default();
    assert!(status.timed(Some(millis(0.0))).is_some());
    assert_eq!(status.timed(Some(millis(-0.0))), None, "zero is zero");
    assert!(status.timed(Some(millis(f64::NAN))).is_some());
    assert!(status.timed(Some(millis(f64::NAN))).is_some(), "never the same");
    assert!(status.allowed(true).is_some(), "whatever else is done");
}

#[test]
fn a_link_that_comes_up_leaves_the_flow_alone() {
    let mut status = Status::default();
    status.flows(Label::Receiving);
    status.linked("anorak");
    assert_eq!(status.snapshot().mode, "receiving");
    status.timed(Some(millis(1.0)));
    status.offline("goldengate");
    let state = status.snapshot();
    assert_eq!((state.mode.as_str(), state.peer.as_str()), ("offline", "goldengate"));
    assert_eq!(state.rtt_ms, None);
}

#[test]
fn any_change_can_be_made() {
    let mut status = Status::default();
    assert_eq!(status.set(|_| {}), None);
    let file = status.set(|s| s.peer = "anorak".into());
    assert_eq!(file.as_deref(), Some("mode=offline\npeer=anorak\nrtt_ms=\ndenied=false\n"));
    assert_eq!(status.snapshot().peer, "anorak");
}

#[test]
fn a_denial_outlives_the_link() {
    let mut status = Status::default();
    status.linked("anorak");
    status.allowed(false);
    status.offline("anorak");
    status.linked("anorak");
    assert_eq!(status.snapshot().summary(), "⚠ needs permission");
    status.allowed(true);
    assert_eq!(status.snapshot().summary(), "● linked");
}

#[test]
fn screens_are_kept_by_peer() {
    let mut status = Status::default();
    let screens = vec![Screen { name: "DP-1".into(), x: 0, y: 0, w: 1, h: 1 }];
    assert_eq!(status.screens_of("anorak"), vec![]);
    status.set_screens("anorak", screens.clone());
    assert_eq!(status.screens_of("anorak"), screens);
    assert_eq!(status.screens_of("goldengate"), vec![]);
    status.set_screens("anorak", vec![]);
    assert_eq!(status.screens_of("anorak"), vec![]);
}

#[test]
fn the_json_stays_on_one_line() {
    let hostile = "a\nb\u{0}\u{1f}\t\u{7f}é\"\\";
    assert_eq!(escape(hostile), "a\\u000ab\\u0000\\u001f\\u0009\u{7f}é\\\"\\\\");
    let state = state(hostile, hostile, Some(1.0), false);
    let line = state.json(false);
    assert!(!line.contains('\n'), "{line}");
    let read: serde_json::Value = serde_json::from_str(&line).unwrap();
    assert_eq!(read["text"], state.summary());
    assert_eq!(read["tooltip"], state.tooltip());
    assert_eq!(read["class"], state.class());
    assert_eq!(read.as_object().unwrap().len(), 3);

    let mode = self::state(hostile, "sending", None, false);
    let read: serde_json::Value = serde_json::from_str(&mode.json(false)).unwrap();
    assert_eq!(read["text"].as_str().unwrap(), format!("→ {hostile}"));
    assert_eq!(read["class"], "sending");
}

use glide::clipboard::Clip;
use glide::config::Side;
use glide::event::{Event, KeyboardEvent, PointerEvent};
use glide::proto::{decode_event, encode_event, DecodeError, Msg, Route};
use glide::screens::Screen;

fn motion(time: u32, dx: f64, dy: f64) -> Event {
    Event::Pointer(PointerEvent::Motion { time, dx: dx.to_bits(), dy: dy.to_bits() })
}

#[test]
fn every_message_survives_the_wire() {
    let messages = [
        Msg::Ping(12345),
        Msg::Pong(u64::MAX),
        Msg::Enter,
        Msg::Leave,
        Msg::Clipboard(Clip::Text("hello wörld".into())),
        Msg::Clipboard(Clip::Image { mime: "image/png".into(), bytes: vec![0x89, b'P', 0, 255] }),
        Msg::Clipboard(Clip::Image { mime: "image/jpeg".into(), bytes: Vec::new() }),
        Msg::Screens(vec![
            Screen { name: "Display 1".into(), x: 0, y: 0, w: 1512, h: 982 },
            Screen { name: "DP-1".into(), x: 1512, y: -200, w: 2560, h: 1440 },
        ]),
        Msg::Screens(vec![]),
        Msg::Arrange(Side::Left),
        Msg::Arrange(Side::Bottom),
        Msg::Input(motion(7, -1.5, 2.25)),
        Msg::Input(Event::Pointer(PointerEvent::Button { time: 8, button: 0x110, state: 1 })),
        Msg::Input(Event::Pointer(PointerEvent::Axis {
            time: 9,
            axis: 1,
            value: (-3.5f64).to_bits(),
        })),
        Msg::Input(Event::Pointer(PointerEvent::AxisDiscrete120 { axis: 0, value: -120 })),
        Msg::Input(Event::Keyboard(KeyboardEvent::Key { time: 10, key: 30, state: 1 })),
        Msg::Input(Event::Keyboard(KeyboardEvent::Modifiers {
            depressed: 4,
            latched: 0,
            locked: 2,
            group: 0,
        })),
    ];
    for msg in messages {
        assert_eq!(Msg::decode(&msg.encode()).unwrap(), msg, "{msg:?}");
    }
}

#[test]
fn every_message_goes_down_the_right_channel() {
    let motion = motion(0, 1.0, 0.0);
    assert_eq!(Msg::Ping(1).route(), Route::Datagram);
    assert_eq!(Msg::Input(motion).route(), Route::Datagram);
    let key = Event::Keyboard(KeyboardEvent::Key { time: 0, key: 1, state: 0 });
    assert_eq!(Msg::Input(key).route(), Route::Stream);
    assert_eq!(Msg::Enter.route(), Route::Stream);
    assert_eq!(Msg::Arrange(Side::Left).route(), Route::Stream);
    // Both kinds of clipboard, because text can be a megabyte too.
    assert_eq!(Msg::Clipboard(Clip::Text(String::new())).route(), Route::Bulk);
    let image = Clip::Image { mime: "image/png".into(), bytes: vec![0; 8] };
    assert_eq!(Msg::Clipboard(image).route(), Route::Bulk);
}

#[test]
fn truncated_messages_are_refused_not_panicked() {
    let full = Msg::Input(motion(1, 1.0, 1.0)).encode();
    for len in 0..full.len() {
        assert!(Msg::decode(&full[..len]).is_err(), "accepted {len} bytes");
    }
    assert!(Msg::decode(&[9, 9, 9]).is_err());
}

#[test]
fn every_truncated_list_of_screens_is_refused() {
    let full = Msg::Screens(vec![
        Screen { name: "eDP-1".into(), x: 0, y: 0, w: 1920, h: 1080 },
        Screen { name: "DP-2".into(), x: -5, y: 7, w: 800, h: 600 },
    ])
    .encode();
    for len in 0..full.len() {
        assert!(Msg::decode(&full[..len]).is_err(), "accepted {len} bytes");
    }
    assert!(Msg::decode(&full).is_ok());
}

#[test]
fn the_bytes_of_a_message() {
    assert_eq!(Msg::Ping(0x0102030405060708).encode(), [0, 8, 7, 6, 5, 4, 3, 2, 1]);
    assert_eq!(Msg::Pong(1).encode(), [1, 1, 0, 0, 0, 0, 0, 0, 0]);
    assert_eq!(Msg::Enter.encode(), [2]);
    assert_eq!(Msg::Leave.encode(), [3]);
    assert_eq!(Msg::Clipboard(Clip::Text("hi".into())).encode(), [5, b'h', b'i']);
    assert_eq!(
        Msg::Clipboard(Clip::Image { mime: "a/b".into(), bytes: vec![9, 8] }).encode(),
        [8, 3, b'a', b'/', b'b', 9, 8]
    );
    assert_eq!(Msg::Arrange(Side::Top).encode(), [7, 2]);
    assert_eq!(
        Msg::Screens(vec![Screen { name: "x".into(), x: -1, y: 2, w: 3, h: 4 }]).encode(),
        [6, 1, 255, 255, 255, 255, 2, 0, 0, 0, 3, 0, 0, 0, 4, 0, 0, 0, 1, b'x']
    );
    assert_eq!(
        Msg::Input(Event::Pointer(PointerEvent::AxisDiscrete120 { axis: 1, value: -120 })).encode(),
        [4, 3, 1, 136, 255, 255, 255]
    );
}

#[test]
fn each_refusal_says_why() {
    assert_eq!(Msg::decode(&[]), Err(DecodeError::EmptyMessage));
    assert_eq!(Msg::decode(&[0, 1, 2]), Err(DecodeError::TooShort));
    assert_eq!(Msg::decode(&[4]), Err(DecodeError::EmptyEvent));
    assert_eq!(Msg::decode(&[4, 2, 0, 0, 0, 0]), Err(DecodeError::ShortAxisEvent));
    assert_eq!(Msg::decode(&[4, 2, 0, 0]), Err(DecodeError::TooShort));
    assert_eq!(Msg::decode(&[4, 2, 0, 0, 0, 0, 1]), Err(DecodeError::TooShort));
    assert_eq!(Msg::decode(&[4, 3]), Err(DecodeError::ShortAxisEvent));
    assert_eq!(Msg::decode(&[4, 3, 1, 2]), Err(DecodeError::TooShort));
    assert_eq!(Msg::decode(&[4, 4, 0, 0, 0, 0, 0, 0, 0, 0]), Err(DecodeError::ShortKeyEvent));
    assert_eq!(Msg::decode(&[4, 6]), Err(DecodeError::UnknownEvent(6)));
    assert_eq!(
        Msg::decode(&[5, 0xff]),
        Err(DecodeError::NotText { index: 0, wrong: Some(1) })
    );
    assert_eq!(Msg::decode(&[8]), Err(DecodeError::NoMimeLength));
    assert_eq!(Msg::decode(&[8, 2, b'a']), Err(DecodeError::TruncatedMime));
    assert_eq!(
        Msg::decode(&[8, 3, b'a', b'b', 0xff]),
        Err(DecodeError::NotText { index: 2, wrong: Some(1) })
    );
    assert_eq!(Msg::decode(&[6]), Err(DecodeError::NoScreenCount));
    assert_eq!(Msg::decode(&[6, 1, 0]), Err(DecodeError::TruncatedScreen));
    assert_eq!(Msg::decode(&[7]), Err(DecodeError::NoSide));
    assert_eq!(Msg::decode(&[7, 4]), Err(DecodeError::UnknownSide(4)));
    assert_eq!(Msg::decode(&[9, 9, 9]), Err(DecodeError::UnknownTag(9)));
}

#[test]
fn refusals_in_words() {
    assert_eq!(DecodeError::EmptyMessage.message(), "empty message");
    assert_eq!(DecodeError::TooShort.message(), "message too short");
    assert_eq!(DecodeError::UnknownEvent(6).message(), "unknown event kind 6");
    assert_eq!(DecodeError::UnknownSide(4).message(), "unknown side 4");
    assert_eq!(DecodeError::UnknownTag(255).message(), "unknown message tag 255");
}

#[test]
fn bytes_that_are_no_text_say_where() {
    let cases: [&[u8]; 8] = [
        &[0xff],
        b"ab\xffcd",
        b"ab\xc3",
        b"\xe2\x82",
        b"\xe2\x82x",
        b"wxyz\xf0\x9f\x98",
        b"wxyz\xf0\x9f\x98!",
        b"twelve bytes\xed\xa0\x80",
    ];
    for bytes in cases {
        let expected = String::from_utf8(bytes.to_vec()).unwrap_err().to_string();
        let text = [&[5], bytes].concat();
        assert_eq!(Msg::decode(&text).unwrap_err().message(), expected);
        let image = [&[8, bytes.len() as u8], bytes, b"more"].concat();
        assert_eq!(Msg::decode(&image).unwrap_err().message(), expected);
    }
    assert_eq!(
        Msg::decode(b"\x05ab\xe2\x82x").unwrap_err().message(),
        "invalid utf-8 sequence of 2 bytes from index 2"
    );
    assert_eq!(
        Msg::decode(b"\x05ab\xc3").unwrap_err().message(),
        "incomplete utf-8 byte sequence from index 2"
    );
}

#[test]
fn motion_compares_as_numbers() {
    assert_eq!(motion(1, 1.5, 0.0), motion(1, 1.5, -0.0));
    assert_ne!(motion(1, 1.5, 0.0), motion(2, 1.5, 0.0));
    assert_ne!(motion(1, 1.5, 0.0), motion(1, -1.5, 0.0));
    assert_ne!(motion(1, f64::NAN, 0.0), motion(1, f64::NAN, 0.0));
    let scroll = |axis: u8, value: f64| {
        Event::Pointer(PointerEvent::Axis { time: 1, axis, value: value.to_bits() })
    };
    assert_eq!(scroll(0, 0.0), scroll(0, -0.0));
    assert_ne!(scroll(0, 0.0), scroll(1, 0.0));
    assert_ne!(scroll(0, f64::NAN), scroll(0, f64::NAN));
    assert_ne!(
        PointerEvent::Button { time: 1, button: 2, state: 0 },
        PointerEvent::Button { time: 1, button: 2, state: 1 }
    );
    assert_ne!(motion(1, 0.0, 0.0), scroll(0, 0.0));
    assert_eq!(Msg::Input(motion(1, 0.0, 2.0)), Msg::Input(motion(1, -0.0, 2.0)));
}

#[test]
fn what_follows_a_message_is_not_looked_at() {
    assert_eq!(Msg::decode(&[2, 9, 9]), Ok(Msg::Enter));
    assert_eq!(Msg::decode(&[7, 3, 0]), Ok(Msg::Arrange(Side::Bottom)));
    assert_eq!(Msg::decode(&[0, 5, 0, 0, 0, 0, 0, 0, 0, 7]), Ok(Msg::Ping(5)));
}

#[test]
fn lengths_past_a_byte_are_cut() {
    let screens: Vec<Screen> =
        (0..300).map(|i| Screen { name: String::new(), x: i, y: 0, w: 1, h: 1 }).collect();
    let bytes = Msg::Screens(screens).encode();
    assert_eq!(bytes[1], 255);
    match Msg::decode(&bytes).unwrap() {
        Msg::Screens(list) => {
            assert_eq!(list.len(), 255);
            assert_eq!(list[254].x, 254);
        }
        other => panic!("{other:?}"),
    }
    let long = Msg::Clipboard(Clip::Image { mime: "m".repeat(300), bytes: vec![1] });
    assert_eq!(
        Msg::decode(&long.encode()),
        Ok(Msg::Clipboard(Clip::Image { mime: "m".repeat(255), bytes: vec![1] }))
    );
}

#[test]
fn an_event_is_appended_and_read_from_the_front() {
    let event = Event::Keyboard(KeyboardEvent::Key { time: 1, key: 30, state: 1 });
    let mut out = vec![7];
    encode_event(&event, &mut out);
    assert_eq!(out, [7, 4, 1, 0, 0, 0, 30, 0, 0, 0, 1]);
    assert_eq!(decode_event(&out[1..]), Ok(event));
}

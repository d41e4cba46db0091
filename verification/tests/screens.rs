use glide::screens::{copy_all, from_displays, from_monitors, local, Display, Monitor, Screen};

#[test]
fn screens_survive_the_wire() {
    let screen = Screen { name: "DP-1".into(), x: -1920, y: 0, w: 2560, h: 1440 };
    let mut bytes = Vec::new();
    screen.encode(&mut bytes);
    let (decoded, used) = Screen::decode(&bytes).unwrap();
    assert_eq!(decoded, screen);
    assert_eq!(used, bytes.len());
}

#[test]
fn a_truncated_screen_is_refused() {
    let mut bytes = Vec::new();
    Screen { name: "x".into(), x: 0, y: 0, w: 1, h: 1 }.encode(&mut bytes);
    for len in 0..bytes.len() {
        assert!(Screen::decode(&bytes[..len]).is_none(), "accepted {len} bytes");
    }
}

#[test]
fn a_broken_name_is_repaired() {
    let mut bytes = Vec::new();
    Screen { name: "ab".into(), x: 0, y: 0, w: 1, h: 1 }.encode(&mut bytes);
    bytes[17] = 0xff;
    let (screen, used) = Screen::decode(&bytes).unwrap();
    assert_eq!(screen.name, "\u{fffd}b");
    assert_eq!(used, 19);
}

#[test]
fn a_name_past_a_byte_is_cut() {
    let mut bytes = Vec::new();
    Screen { name: "n".repeat(300), x: 0, y: 0, w: 1, h: 1 }.encode(&mut bytes);
    let (screen, used) = Screen::decode(&bytes).unwrap();
    assert_eq!(screen.name, "n".repeat(255));
    assert_eq!(used, 272);
}

#[test]
fn what_the_compositor_prints() {
    let printed = br#"[{"id":0,"name":"DP-1","x":-1920,"y":20,"width":2560,"height":1440},
        {"id":1,"x":"left","width":-5}, 7]"#;
    assert_eq!(
        local(printed),
        vec![
            Screen { name: "DP-1".into(), x: -1920, y: 20, w: 2560, h: 1440 },
            Screen { name: "display".into(), x: 0, y: 0, w: 0, h: 0 },
            Screen { name: "display".into(), x: 0, y: 0, w: 0, h: 0 },
        ]
    );
    assert_eq!(local(b"[]"), vec![]);
    assert_eq!(local(b"{}"), vec![]);
    assert_eq!(local(b"no such request"), vec![]);
}

#[test]
fn numbers_too_big_for_a_screen_keep_their_low_bits() {
    let monitors = [Monitor {
        name: Some("m".into()),
        x: Some((1 << 32) + 5),
        y: Some(0xffff_ffff),
        width: Some((1 << 32) + 7),
        height: None,
    }];
    assert_eq!(
        from_monitors(&monitors),
        vec![Screen { name: "m".into(), x: 5, y: -1, w: 7, h: 0 }]
    );
}

#[test]
fn displays_are_numbered_for_people() {
    let displays =
        [Display { x: 0, y: 0, w: 1512, h: 982 }, Display { x: -5, y: 40, w: 2560, h: 1440 }];
    assert_eq!(
        from_displays(&displays),
        vec![
            Screen { name: "Display 1".into(), x: 0, y: 0, w: 1512, h: 982 },
            Screen { name: "Display 2".into(), x: -5, y: 40, w: 2560, h: 1440 },
        ]
    );
}

#[test]
fn copies_are_alike() {
    let screens = vec![Screen { name: "a".into(), x: 1, y: 2, w: 3, h: 4 }];
    assert_eq!(copy_all(&screens), screens);
}

use std::collections::hash_map::DefaultHasher;
use std::hash::{Hash, Hasher};

use glide::clipboard::{
    image_type, next_turn, read, read_image, read_text, too_big, uti_for, Clip, LastSeen, Look, MAX_IMAGE, MAX_TEXT,
};

#[test]
fn a_change_of_any_kind_is_noticed() {
    let text = Clip::Text("hello".into());
    let same = Clip::Text("hello".into());
    let other = Clip::Text("hello!".into());
    assert_eq!(text.fingerprint(), same.fingerprint());
    assert_ne!(text.fingerprint(), other.fingerprint());

    let png = Clip::Image { mime: "image/png".into(), bytes: vec![1, 2, 3] };
    let jpeg = Clip::Image { mime: "image/jpeg".into(), bytes: vec![1, 2, 3] };
    assert_ne!(png.fingerprint(), jpeg.fingerprint(), "the type is part of the identity");
    assert_ne!(png.fingerprint(), text.fingerprint());
}

#[test]
fn a_fingerprint_is_the_hash_of_each_part() {
    let mut hasher = DefaultHasher::new();
    "hello".hash(&mut hasher);
    assert_eq!(Clip::Text("hello".into()).fingerprint(), hasher.finish());

    let bytes: Vec<u8> = vec![1, 2, 3];
    let mut hasher = DefaultHasher::new();
    "image/png".hash(&mut hasher);
    bytes.hash(&mut hasher);
    assert_eq!(
        Clip::Image { mime: "image/png".into(), bytes }.fingerprint(),
        hasher.finish()
    );
}

#[test]
fn oversized_images_are_refused() {
    assert!(too_big("image/png", MAX_IMAGE + 1));
    assert!(!too_big("image/png", MAX_IMAGE));
}

#[test]
fn caps_are_one_and_sixteen_megabytes() {
    assert_eq!(MAX_TEXT, 1048576);
    assert_eq!(MAX_IMAGE, 16777216);
}

#[test]
fn clips_describe_themselves() {
    assert_eq!(Clip::Text("wörld".into()).describe(), "6 bytes of text");
    let image = Clip::Image { mime: "image/gif".into(), bytes: vec![0; 1234] };
    assert_eq!(image.describe(), "1234 of image/gif");
}

#[test]
fn text_worth_sending() {
    assert_eq!(read_text(None), None);
    assert_eq!(read_text(Some(String::new())), None);
    assert_eq!(read_text(Some("x".repeat(MAX_TEXT + 1))), None);
    assert_eq!(read_text(Some("hi".into())), Some(Clip::Text("hi".into())));
    let longest = "x".repeat(MAX_TEXT);
    assert_eq!(read_text(Some(longest.clone())), Some(Clip::Text(longest)));
}

#[test]
fn the_first_image_type_on_offer_decides() {
    assert_eq!(image_type(0), Some("image/png"));
    assert_eq!(image_type(1), Some("image/jpeg"));
    assert_eq!(image_type(2), Some("image/gif"));
    assert_eq!(image_type(3), None);

    assert!(matches!(read_image("image/png", None), Look::Further));
    assert!(matches!(read_image("image/png", Some(vec![])), Look::Empty));
    assert!(matches!(read_image("image/png", Some(vec![0; MAX_IMAGE + 1])), Look::Settled(None)));
    match read_image("image/jpeg", Some(vec![1, 2])) {
        Look::Settled(Some(clip)) => {
            assert_eq!(clip, Clip::Image { mime: "image/jpeg".into(), bytes: vec![1, 2] });
        }
        _ => panic!("an image was refused"),
    }
}

#[test]
fn types_by_their_macos_name() {
    assert_eq!(uti_for("image/png"), "public.png");
    assert_eq!(uti_for("image/jpeg"), "public.jpeg");
    assert_eq!(uti_for("image/gif"), "com.compuserve.gif");
    assert_eq!(uti_for("image/webp"), "public.png");
}

#[test]
fn a_peers_clip_is_not_bounced_back() {
    let clip = Clip::Text("from the peer".into());
    let mine = Clip::Text("copied here".into());
    let mut seen = LastSeen::start(&None);
    seen.remember(&clip);
    assert!(!seen.changed(&clip), "it would go straight back");
    assert!(seen.changed(&mine));
    assert!(!seen.changed(&mine), "a copy is sent once");
    assert!(seen.changed(&clip), "copying it again is a new copy");
}

#[test]
fn what_is_there_at_startup_was_not_copied_just_now() {
    let clip = Clip::Text("old".into());
    let mut seen = LastSeen::start(&Some(clip.clone()));
    assert!(!seen.changed(&clip));
    let mut empty = LastSeen::start(&None);
    assert!(empty.changed(&clip));
}

#[test]
fn an_image_comes_before_text() {
    let image = Clip::Image { mime: "image/png".into(), bytes: vec![1] };
    let there = || Look::Settled(Some(image.clone()));
    let words = Some(Clip::Text("words".into()));
    assert_eq!(read(there(), None), Some(image.clone()));
    assert_eq!(read(there(), Some("words".into())), Some(image.clone()));
    assert_eq!(read(Look::Further, Some("words".into())), words);
    assert_eq!(read(Look::Empty, Some("words".into())), words);
    assert_eq!(read(Look::Further, Some(String::new())), None);
    assert_eq!(read(Look::Further, None), None);
}

/// Reads a clipboard that answers like this for each image type, turn by turn.
fn read_all(found: [Option<Vec<u8>>; 3], text: Option<&str>) -> Option<Clip> {
    let mut turn = Some(0);
    let mut look = Look::Further;
    while let Some(at) = turn {
        look = read_image(image_type(at).unwrap(), found[at].clone());
        turn = next_turn(at, &look);
    }
    read(look, text.map(String::from))
}

#[test]
fn a_clipboard_read_whole() {
    let gif = Clip::Image { mime: "image/gif".into(), bytes: vec![7] };
    assert_eq!(read_all([None, None, Some(vec![7])], Some("words")), Some(gif));
    let big = || Some(vec![0; MAX_IMAGE + 1]);
    assert_eq!(read_all([big(), None, None], Some("words")), None, "too big is not text");
    assert_eq!(read_all([None, big(), Some(vec![7])], None), None, "nor another image");
    let words = Some(Clip::Text("words".into()));
    assert_eq!(read_all([None, None, None], Some("words")), words);
    assert_eq!(read_all([Some(vec![]), None, None], Some("words")), words, "no image is there");
    assert_eq!(read_all([None, None, None], None), None);
}

#[test]
fn types_are_asked_for_in_turn() {
    assert_eq!(next_turn(0, &Look::Further), Some(1));
    assert_eq!(next_turn(1, &Look::Further), Some(2));
    assert_eq!(next_turn(2, &Look::Further), None);
    assert_eq!(next_turn(0, &Look::Empty), None);
    assert_eq!(next_turn(0, &Look::Settled(None)), None);
}

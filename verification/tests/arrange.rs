use glide::arrange::{
    boxes, centre_on, describe, landed_on, nearest, rect_of, settle, split_label, union, Rect, Seat,
    NUDGE,
};
use glide::config::Side;
use glide::screens::Screen;

fn rect(x: i64, y: i64, w: i64, h: i64) -> Rect {
    Rect { x, y, w, h }
}

fn screen(name: &str, x: i32, y: i32, w: u32, h: u32) -> Screen {
    Screen { name: name.into(), x, y, w, h }
}

fn span(d: f64) -> u64 {
    d.to_bits()
}

#[test]
fn a_union_covers_every_screen() {
    let boxes = vec![rect(0, 0, 100, 50), rect(-40, 20, 10, 90)];
    let u = union(&boxes).unwrap();
    assert_eq!((u.x, u.y), (-40, 0));
    assert_eq!((u.w, u.h), (140, 110));
    assert!(union(&[]).is_none());

    // As far out as a rectangle can be.
    let edge = [rect(i64::MAX - 1, i64::MIN, 1, 5), rect(i64::MAX, i64::MIN, 9, 7)];
    assert_eq!(union(&edge), Some(rect(i64::MAX - 1, i64::MIN, 10, 7)));
}

#[test]
fn a_group_centres_against_another() {
    // A 200-long group against a 1000-long one starts 400 in.
    assert_eq!(centre_on(0, 1000, 0, 200), 400);
    // Whatever the group's own origin, the offset takes it to the centre.
    assert_eq!(centre_on(0, 1000, -50, 200), 450);
}

#[test]
fn a_longer_group_sticks_out_on_both_ends() {
    assert_eq!(centre_on(0, 200, 0, 1000), -400);
    assert_eq!(centre_on(10, 200, 0, 1000), -390);
    // Lengths and places may be as large as they are, where the offset is not.
    assert_eq!(centre_on(i64::MAX, 0, i64::MAX, 2), -1);
    assert_eq!(centre_on(i64::MIN, i64::MAX, -1, i64::MIN + 1), 0);
}

#[test]
fn screens_are_drawn_in_half_points() {
    assert_eq!(rect_of(&screen("a", -3, 5, 7, 9)), rect(-6, 10, 14, 18));
}

#[test]
fn a_label_is_name_over_resolution() {
    let label = describe(&screen("DP-1", 0, 0, 2560, 1440));
    assert_eq!(label, "DP-1\n2560 × 1440");
    assert_eq!(split_label(&label), ("DP-1".to_string(), Some("2560 × 1440".to_string())));
    assert_eq!(split_label("screen"), ("screen".to_string(), None));
    assert_eq!(split_label("a\nb\nc"), ("a".to_string(), Some("b\nc".to_string())));
}

#[test]
fn the_peer_rests_against_each_side() {
    let local = [screen("mine", 0, 0, 1000, 600)];
    let peer = [screen("theirs", 70, -30, 400, 200)];
    let placed = |side| boxes(&local, &peer, side, None).1[0].rect;
    // Half points: twice the pixels.
    assert_eq!(placed(Side::Right), rect(2000, 400, 800, 400));
    assert_eq!(placed(Side::Left), rect(-800, 400, 800, 400));
    assert_eq!(placed(Side::Top), rect(600, -400, 800, 400));
    assert_eq!(placed(Side::Bottom), rect(600, 1200, 800, 400));
}

#[test]
fn an_odd_difference_centres_on_a_half_point() {
    let local = [screen("mine", 0, 0, 1000, 601)];
    let peer = [screen("theirs", 0, 0, 400, 200)];
    let (_, theirs) = boxes(&local, &peer, Side::Right, None);
    assert_eq!(theirs[0].rect.y, 401, "200.5 points");
}

#[test]
fn a_group_moves_as_one() {
    let local = [screen("mine", 0, 0, 1000, 600)];
    let peer = [screen("a", 0, 0, 100, 100), screen("b", 100, 0, 100, 300)];
    let (mine, theirs) = boxes(&local, &peer, Side::Right, None);
    assert_eq!(mine[0].label, "mine\n1000 × 600");
    assert_eq!(theirs[0].rect, rect(2000, 300, 200, 200));
    assert_eq!(theirs[1].rect, rect(2200, 300, 200, 600));
    assert_eq!(theirs[1].label, "b\n100 × 300");
}

#[test]
fn the_peer_rests_against_its_own_display() {
    let local = [screen("one", 0, 0, 1000, 600), screen("two", 1000, 0, 500, 400)];
    let peer = [screen("theirs", 0, 0, 100, 100)];
    let x = |display| boxes(&local, &peer, Side::Top, display).1[0].rect.x;
    assert_eq!(x(Some(1)), 900);
    assert_eq!(x(Some(2)), 2400);
    assert_eq!(x(None), 1400, "the whole desktop");
    assert_eq!(x(Some(3)), 1400, "no such display");
    assert_eq!(x(Some(0)), 1400, "nor is there one before the first");
}

#[test]
fn stand_ins_for_what_is_not_known() {
    let (mine, theirs) = boxes(&[], &[], Side::Right, None);
    assert!(mine.is_empty());
    assert_eq!(theirs.len(), 1);
    assert_eq!(theirs[0].label, "screen");
    // A plain 1440 by 900 desktop, and one 1920 by 1080 screen beside it.
    assert_eq!(theirs[0].rect, rect(2880, -180, 3840, 2160));
}

#[test]
fn the_nearest_screen_is_the_first_of_the_nearest() {
    let bits = |gaps: &[f64]| gaps.iter().map(|g| g.to_bits()).collect::<Vec<u64>>();
    assert_eq!(nearest(&bits(&[])), None);
    assert_eq!(nearest(&bits(&[30.5, 0.25, 7.0])), Some(1));
    assert_eq!(nearest(&bits(&[8.0, 3.0, 3.0])), Some(1));
    assert_eq!(nearest(&bits(&[0.0, 1e300])), Some(0));
    // In the total order: below zero first, then the two zeros, then what is
    // too large, and what is no number at either end.
    assert_eq!(nearest(&bits(&[1.0, -1.0, -2.0])), Some(2));
    assert_eq!(nearest(&bits(&[0.0, -0.0])), Some(1));
    assert_eq!(nearest(&bits(&[f64::NAN.abs(), f64::INFINITY])), Some(1));
    assert_eq!(nearest(&bits(&[f64::NEG_INFINITY, -(f64::NAN.abs())])), Some(1));
}

#[test]
fn the_nearest_follows_the_total_order() {
    let some = [
        0.0, -0.0, 1.5, -1.5, 1e-310, -1e-310, f64::MAX, f64::MIN, f64::INFINITY, f64::NEG_INFINITY,
        f64::NAN.abs(), -(f64::NAN.abs()),
    ];
    for a in some {
        for b in some {
            let second = b.total_cmp(&a).is_lt();
            assert_eq!(nearest(&[a.to_bits(), b.to_bits()]), Some(usize::from(second)), "{a} {b}");
        }
    }
}

const HERE: Seat = Seat { side: Side::Top, display: Some(2) };

fn far() -> (u64, u64) {
    (100.0f64.to_bits(), 0)
}

#[test]
fn a_slip_of_the_hand_moves_nothing() {
    assert_eq!(NUDGE, 12.0f64.to_bits());
    let slip = (11.9f64.to_bits(), 11.9f64.to_bits());
    assert_eq!(landed_on(HERE, slip, Some(0), 2, span(50.0), span(0.0)), HERE);
    let back = ((-11.9f64).to_bits(), (-0.0f64).to_bits());
    assert_eq!(landed_on(HERE, back, Some(0), 2, span(50.0), span(0.0)), HERE);
    let lost = (f64::NAN.to_bits(), 0);
    assert_ne!(landed_on(HERE, lost, Some(0), 2, span(50.0), span(0.0)), HERE);
    let push = (12.0f64.to_bits(), 0);
    assert_eq!(
        landed_on(HERE, push, Some(0), 2, span(50.0), span(0.0)),
        Seat { side: Side::Right, display: Some(1) }
    );
}

#[test]
fn a_drop_is_judged_by_where_it_ended_up() {
    let side = |dx, dy| landed_on(HERE, far(), Some(1), 2, span(dx), span(dy)).side;
    assert_eq!(side(50.0, 20.0), Side::Right);
    assert_eq!(side(-50.0, 20.0), Side::Left);
    assert_eq!(side(20.0, 50.0), Side::Bottom);
    assert_eq!(side(20.0, -50.0), Side::Top);
    assert_eq!(side(30.0, -30.0), Side::Right, "a draw goes sideways");
    assert_eq!(side(0.0, 0.0), Side::Left);
    assert_eq!(side(0.0, -0.0), Side::Left);
    // What is no number is not as far as anything, nor above zero.
    assert_eq!(side(f64::NAN, f64::NAN), Side::Top);
    assert_eq!(side(f64::NAN, 20.0), Side::Bottom);
    assert_eq!(side(50.0, f64::NAN), Side::Top);
}

#[test]
fn one_display_is_the_whole_desktop() {
    let display = |nearest, drawn| landed_on(HERE, far(), nearest, drawn, span(1.0), span(0.0)).display;
    assert_eq!(display(Some(0), 1), None);
    assert_eq!(display(Some(2), 3), Some(3));
    assert_eq!(display(None, 0), None);
}

#[test]
fn only_a_change_is_saved() {
    assert!(!settle(HERE, HERE));
    assert!(settle(HERE, Seat { side: Side::Left, ..HERE }));
    assert!(settle(HERE, Seat { display: None, ..HERE }));
}

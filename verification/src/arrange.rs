//! Where the screens of both machines are drawn, and which side a dragged
//! machine has been dropped on.
//!
//! What arranging can honestly control is which edge of this machine the other
//! one sits on. The capture backend grabs a whole screen side, so a peer dropped
//! anywhere to the right becomes "right": the drop snaps rather than aligning to
//! the pixel.
//!
//! Lengths are in half points, so that the middle of every screen is a whole
//! number. Distances on the drawing are doubles, of which only the order
//! matters: they are given by their bits.

use vstd::prelude::*;

use crate::config::Side;
use crate::double;
use crate::screens;
use crate::screens::{Screen, ScreenModel};
use crate::text;

verus! {

/// A rectangle; lengths run right and down.
#[derive(Debug, Clone, Copy, PartialEq, Eq, Structural)]
pub struct Rect {
    pub x: i64,
    pub y: i64,
    pub w: i64,
    pub h: i64,
}

/// Far more than any desktop, and far less than would overflow.
pub const FAR: i64 = 0x100_0000_0000;

/// Farther than any screen can be told to lie.
pub const EDGE: i64 = 0x4_0000_0000;

impl Rect {
    pub open spec fn right(self) -> int {
        self.x + self.w
    }

    pub open spec fn bottom(self) -> int {
        self.y + self.h
    }

    /// Whether another rectangle lies within this one.
    pub open spec fn covers(self, other: Rect) -> bool {
        self.x <= other.x && self.y <= other.y && other.right() <= self.right() && other.bottom()
            <= self.bottom()
    }

    /// Whether the rectangle lies no farther out than this.
    pub open spec fn within(self, limit: int) -> bool {
        -limit <= self.x && -limit <= self.y && 0 <= self.w && 0 <= self.h && self.right() <= limit
            && self.bottom() <= limit
    }
}

/// Whether all of these lie no farther out than this.
pub open spec fn all_within(rects: Seq<Rect>, limit: int) -> bool {
    forall|i: int| 0 <= i < rects.len() ==> (#[trigger] rects[i]).within(limit)
}

pub open spec fn least(a: int, b: int) -> int {
    if a <= b {
        a
    } else {
        b
    }
}

pub open spec fn most(a: int, b: int) -> int {
    if a >= b {
        a
    } else {
        b
    }
}

/// How far to the left any of these reaches.
pub open spec fn left_of(rects: Seq<Rect>) -> int
    decreases rects.len(),
{
    if rects.len() <= 1 {
        rects[0].x as int
    } else {
        least(left_of(rects.drop_last()), rects.last().x as int)
    }
}

/// How far up any of these reaches.
pub open spec fn top_of(rects: Seq<Rect>) -> int
    decreases rects.len(),
{
    if rects.len() <= 1 {
        rects[0].y as int
    } else {
        least(top_of(rects.drop_last()), rects.last().y as int)
    }
}

/// How far to the right any of these reaches.
pub open spec fn right_of(rects: Seq<Rect>) -> int
    decreases rects.len(),
{
    if rects.len() <= 1 {
        rects[0].right()
    } else {
        most(right_of(rects.drop_last()), rects.last().right())
    }
}

/// How far down any of these reaches.
pub open spec fn bottom_of(rects: Seq<Rect>) -> int
    decreases rects.len(),
{
    if rects.len() <= 1 {
        rects[0].bottom()
    } else {
        most(bottom_of(rects.drop_last()), rects.last().bottom())
    }
}

/// Whether the lengths of the whole are numbers that a rectangle can hold.
pub open spec fn fits(rects: Seq<Rect>) -> bool {
    rects.len() > 0 ==> right_of(rects) - left_of(rects) <= i64::MAX && bottom_of(rects) - top_of(
        rects,
    ) <= i64::MAX
}

/// The smallest rectangle around all of these, where there are any.
pub open spec fn union_of(rects: Seq<Rect>) -> Option<Rect> {
    if rects.len() == 0 {
        None
    } else {
        Some(
            Rect {
                x: left_of(rects) as i64,
                y: top_of(rects) as i64,
                w: (right_of(rects) - left_of(rects)) as i64,
                h: (bottom_of(rects) - top_of(rects)) as i64,
            },
        )
    }
}

/// None of these reaches farther than all of them, and one of them as far.
proof fn lemma_sides(rects: Seq<Rect>)
    requires
        rects.len() > 0,
    ensures
        forall|i: int|
            0 <= i < rects.len() ==> left_of(rects) <= (#[trigger] rects[i]).x && top_of(rects)
                <= rects[i].y && rects[i].right() <= right_of(rects) && rects[i].bottom()
                <= bottom_of(rects),
        exists|i: int| 0 <= i < rects.len() && (#[trigger] rects[i]).x == left_of(rects),
        exists|i: int| 0 <= i < rects.len() && (#[trigger] rects[i]).y == top_of(rects),
        exists|i: int| 0 <= i < rects.len() && (#[trigger] rects[i]).right() == right_of(rects),
        exists|i: int| 0 <= i < rects.len() && (#[trigger] rects[i]).bottom() == bottom_of(rects),
    decreases rects.len(),
{
    let rest = rects.drop_last();
    let n = rects.len() - 1;
    assert(rects[n] == rects.last());
    if rest.len() > 0 {
        lemma_sides(rest);
        assert forall|i: int| 0 <= i < rects.len() implies left_of(rects) <= (#[trigger] rects[i]).x
            && top_of(rects) <= rects[i].y && rects[i].right() <= right_of(rects)
            && rects[i].bottom() <= bottom_of(rects) by {
            if i < n {
                assert(rest[i] == rects[i]);
            }
        }
        let l = choose|i: int| 0 <= i < rest.len() && (#[trigger] rest[i]).x == left_of(rest);
        let t = choose|i: int| 0 <= i < rest.len() && (#[trigger] rest[i]).y == top_of(rest);
        let r = choose|i: int|
            0 <= i < rest.len() && (#[trigger] rest[i]).right() == right_of(rest);
        let b = choose|i: int|
            0 <= i < rest.len() && (#[trigger] rest[i]).bottom() == bottom_of(rest);
        assert(rects[l] == rest[l] && rects[t] == rest[t]);
        assert(rects[r] == rest[r] && rects[b] == rest[b]);
    }
}

/// A union lies no farther out than what it is the union of.
proof fn lemma_union_within(rects: Seq<Rect>, limit: int)
    requires
        rects.len() > 0,
        all_within(rects, limit),
        limit <= FAR,
    ensures
        fits(rects),
        union_of(rects) is Some,
        union_of(rects)->0.within(limit),
{
    lemma_sides(rects);
    assert(rects[0].within(limit));
}

/// The smallest rectangle around all of these.
pub fn union(rects: &[Rect]) -> (whole: Option<Rect>)
    requires
        fits(rects@),
    ensures
        whole == union_of(rects@),
{
    if rects.len() == 0 {
        return None;
    }
    let first = rects[0];
    let mut x0: i64 = first.x;
    let mut y0: i64 = first.y;
    let mut x1: i128 = first.x as i128 + first.w as i128;
    let mut y1: i128 = first.y as i128 + first.h as i128;
    let mut i: usize = 1;
    while i < rects.len()
        invariant
            1 <= i <= rects@.len(),
            x0 == left_of(rects@.take(i as int)),
            y0 == top_of(rects@.take(i as int)),
            x1 == right_of(rects@.take(i as int)),
            y1 == bottom_of(rects@.take(i as int)),
            2 * i64::MIN <= x1 <= 2 * i64::MAX,
            2 * i64::MIN <= y1 <= 2 * i64::MAX,
        decreases rects@.len() - i,
    {
        let r = rects[i];
        proof {
            assert(rects@.take(i + 1).drop_last() =~= rects@.take(i as int));
            assert(rects@.take(i + 1).last() == r);
        }
        if r.x < x0 {
            x0 = r.x;
        }
        if r.y < y0 {
            y0 = r.y;
        }
        let right: i128 = r.x as i128 + r.w as i128;
        if right > x1 {
            x1 = right;
        }
        let bottom: i128 = r.y as i128 + r.h as i128;
        if bottom > y1 {
            y1 = bottom;
        }
        i += 1;
    }
    proof {
        assert(rects@.take(i as int) =~= rects@);
        lemma_sides(rects@);
        assert(rects@[0] == first);
    }
    Some(Rect { x: x0, y: y0, w: (x1 - x0 as i128) as i64, h: (y1 - y0 as i128) as i64 })
}

/// A union covers every screen, and no more: each of its sides is a side of one
/// of the screens.
pub proof fn law_a_union_covers_every_screen(rects: Seq<Rect>)
    requires
        rects.len() > 0,
        fits(rects),
    ensures
        union_of(rects) is Some,
        forall|i: int| 0 <= i < rects.len() ==> union_of(rects)->0.covers(#[trigger] rects[i]),
        exists|i: int| 0 <= i < rects.len() && (#[trigger] rects[i]).x == union_of(rects)->0.x,
        exists|i: int| 0 <= i < rects.len() && (#[trigger] rects[i]).y == union_of(rects)->0.y,
        exists|i: int|
            0 <= i < rects.len() && (#[trigger] rects[i]).right() == union_of(rects)->0.right(),
        exists|i: int|
            0 <= i < rects.len() && (#[trigger] rects[i]).bottom() == union_of(rects)->0.bottom(),
{
    lemma_sides(rects);
    assert(union_of(rects)->0.right() == right_of(rects));
    assert(union_of(rects)->0.bottom() == bottom_of(rects));
}

/// The offset that centres a group of this length against another; an odd
/// half of a half point is dropped.
pub open spec fn centring(mine: int, mine_len: int, theirs: int, theirs_len: int) -> int {
    mine + (mine_len - theirs_len) / 2 - theirs
}

/// The offset that centres a group of this length against another.
pub fn centre_on(mine: i64, mine_len: i64, theirs: i64, theirs_len: i64) -> (offset: i64)
    requires
        i64::MIN <= centring(mine as int, mine_len as int, theirs as int, theirs_len as int)
            <= i64::MAX,
    ensures
        offset == centring(mine as int, mine_len as int, theirs as int, theirs_len as int),
{
    let spare: i128 = mine_len as i128 - theirs_len as i128;
    // Halved as a length above the least it can be, for a division that rounds
    // down.
    let half: i128 = ((spare + 0x2_0000_0000_0000_0000) as u128 / 2) as i128
        - 0x1_0000_0000_0000_0000;
    (mine as i128 + half - theirs as i128) as i64
}

/// A screen on the drawing: where it is, and what is written on it.
#[derive(Debug, PartialEq)]
pub struct Slab {
    pub rect: Rect,
    pub label: String,
}

/// A slab with its label as a sequence of characters.
pub struct SlabModel {
    pub rect: Rect,
    pub label: Seq<char>,
}

impl View for Slab {
    type V = SlabModel;

    open spec fn view(&self) -> SlabModel {
        SlabModel { rect: self.rect, label: self.label@ }
    }
}

/// The models of a list of slabs.
pub open spec fn models(slabs: Seq<Slab>) -> Seq<SlabModel> {
    slabs.map_values(|s: Slab| s@)
}

/// The rectangles of a list of slabs.
pub open spec fn rects_of(slabs: Seq<SlabModel>) -> Seq<Rect> {
    slabs.map_values(|s: SlabModel| s.rect)
}

/// Where the system puts a screen, in half points.
pub open spec fn rect_around(screen: ScreenModel) -> Rect {
    Rect {
        x: (2 * screen.x) as i64,
        y: (2 * screen.y) as i64,
        w: (2 * screen.w) as i64,
        h: (2 * screen.h) as i64,
    }
}

/// Name over resolution.
pub open spec fn label_on(screen: ScreenModel) -> Seq<char> {
    screen.name + "\n"@ + text::decimal(screen.w as int) + " × "@ + text::decimal(screen.h as int)
}

/// A machine's screens where its system puts them.
pub open spec fn slabs_of(list: Seq<ScreenModel>) -> Seq<SlabModel> {
    list.map_values(|s: ScreenModel| SlabModel { rect: rect_around(s), label: label_on(s) })
}

/// The other machine's screens where its system puts them; one stand-in where
/// it has not said what it has.
pub open spec fn peer_slabs(list: Seq<ScreenModel>) -> Seq<SlabModel> {
    if list.len() == 0 {
        seq![SlabModel { rect: Rect { x: 0, y: 0, w: 3840, h: 2160 }, label: "screen"@ }]
    } else {
        slabs_of(list)
    }
}

/// What the other machine rests against: the display that its edge belongs to,
/// so that the drawing matches where the barrier actually is, or else the whole
/// desktop. A machine without screens is drawn as if it had a plain one.
pub open spec fn resting_place(local: Seq<SlabModel>, display: Option<usize>) -> Rect {
    match display {
        Some(d) if 0 < d <= local.len() => local[d - 1].rect,
        _ => match union_of(rects_of(local)) {
            Some(whole) => whole,
            None => Rect { x: 0, y: 0, w: 2880, h: 1800 },
        },
    }
}

/// How far a group has to move to rest against this side of a place.
pub open spec fn resting_offset(place: Rect, group: Rect, side: Side) -> (int, int) {
    let across = centring(place.x as int, place.w as int, group.x as int, group.w as int);
    let down = centring(place.y as int, place.h as int, group.y as int, group.h as int);
    match side {
        Side::Left => (place.x - group.right(), down),
        Side::Right => (place.right() - group.x, down),
        Side::Top => (across, place.y - group.bottom()),
        Side::Bottom => (across, place.bottom() - group.y),
    }
}

/// A rectangle moved.
pub open spec fn moved(rect: Rect, by: (int, int)) -> Rect {
    Rect { x: (rect.x + by.0) as i64, y: (rect.y + by.1) as i64, ..rect }
}

/// Both machines in one space: this one where its system puts it, the other
/// resting against the chosen side.
pub open spec fn layout(
    local: Seq<ScreenModel>,
    peer: Seq<ScreenModel>,
    side: Side,
    display: Option<usize>,
) -> (Seq<SlabModel>, Seq<SlabModel>) {
    let mine = slabs_of(local);
    let theirs = peer_slabs(peer);
    let by = resting_offset(
        resting_place(mine, display),
        union_of(rects_of(theirs))->0,
        side,
    );
    (mine, theirs.map_values(|s: SlabModel| SlabModel { rect: moved(s.rect, by), ..s }))
}

/// Where the system puts a screen, in half points.
pub fn rect_of(screen: &Screen) -> (rect: Rect)
    ensures
        rect == rect_around(screen@),
        rect.within(EDGE as int),
{
    Rect {
        x: 2 * screen.x as i64,
        y: 2 * screen.y as i64,
        w: 2 * screen.w as i64,
        h: 2 * screen.h as i64,
    }
}

/// Name over resolution, the way the Displays pane labels them.
pub fn describe(screen: &Screen) -> (label: String)
    ensures
        label@ == label_on(screen@),
{
    let mut label = screen.name.clone();
    label.append("\n");
    label.append(text::number(screen.w as u64).as_str());
    label.append(" × ");
    label.append(text::number(screen.h as u64).as_str());
    label
}

/// The two lines of a label: the name, and the resolution where there is one.
pub fn split_label(label: &str) -> (lines: (String, Option<String>))
    ensures
        ({
            let end = text::first_of(label@, '\n');
            if end < label@.len() {
                lines.0@ == label@.take(end) && lines.1 is Some && lines.1->0@ == label@.skip(
                    end + 1,
                )
            } else {
                lines.0@ == label@ && lines.1 is None
            }
        }),
{
    let chars = text::chars_of(label);
    let end = text::find(&chars, 0, '\n');
    assert(chars@.skip(0) =~= chars@);
    if end < chars.len() {
        let name = text::text_of(vstd::slice::slice_subrange(&chars, 0, end));
        let size = text::text_of(vstd::slice::slice_subrange(&chars, end + 1, chars.len()));
        assert(name@ =~= label@.take(end as int));
        assert(size@ =~= label@.skip(end + 1));
        (name, Some(size))
    } else {
        (label.to_owned(), None)
    }
}

/// A machine's screens where its system puts them.
fn slabs(list: &[Screen]) -> (slabs: Vec<Slab>)
    ensures
        models(slabs@) == slabs_of(screens::models(list@)),
        all_within(rects_of(models(slabs@)), EDGE as int),
{
    let mut slabs: Vec<Slab> = Vec::new();
    let mut i: usize = 0;
    while i < list.len()
        invariant
            i <= list@.len(),
            slabs@.len() == i,
            forall|j: int|
                0 <= j < i ==> (#[trigger] slabs@[j])@ == (SlabModel {
                    rect: rect_around(list@[j]@),
                    label: label_on(list@[j]@),
                }) && slabs@[j].rect.within(EDGE as int),
        decreases list@.len() - i,
    {
        slabs.push(Slab { rect: rect_of(&list[i]), label: describe(&list[i]) });
        i += 1;
    }
    assert(models(slabs@) =~= slabs_of(screens::models(list@)));
    assert forall|j: int| 0 <= j < slabs@.len() implies (#[trigger] rects_of(
        models(slabs@),
    )[j]).within(EDGE as int) by {
        assert(slabs@[j].rect.within(EDGE as int));
    }
    slabs
}

/// The rectangles of a list of slabs.
fn rects(slabs: &[Slab]) -> (rects: Vec<Rect>)
    ensures
        rects@ == rects_of(models(slabs@)),
{
    let mut rects: Vec<Rect> = Vec::new();
    let mut i: usize = 0;
    while i < slabs.len()
        invariant
            i <= slabs@.len(),
            rects@.len() == i,
            forall|j: int| 0 <= j < i ==> #[trigger] rects@[j] == slabs@[j].rect,
        decreases slabs@.len() - i,
    {
        rects.push(slabs[i].rect);
        i += 1;
    }
    assert(rects@ =~= rects_of(models(slabs@)));
    rects
}

/// What the other machine rests against.
fn place_for(mine: &[Slab], display: Option<usize>) -> (place: Rect)
    requires
        all_within(rects_of(models(mine@)), EDGE as int),
    ensures
        place == resting_place(models(mine@), display),
        place.within(EDGE as int),
{
    if let Some(d) = display {
        if 0 < d && d <= mine.len() {
            proof {
                assert(rects_of(models(mine@))[d - 1].within(EDGE as int));
            }
            return mine[d - 1].rect;
        }
    }
    let mine_rects = rects(mine);
    proof {
        if mine_rects@.len() > 0 {
            lemma_union_within(mine_rects@, EDGE as int);
        }
    }
    match union(&mine_rects) {
        Some(whole) => whole,
        None => Rect { x: 0, y: 0, w: 2880, h: 1800 },
    }
}

/// The other machine's screens where its system puts them, or a stand-in.
fn peer_boxes(peer: &[Screen]) -> (theirs: Vec<Slab>)
    ensures
        models(theirs@) == peer_slabs(screens::models(peer@)),
        theirs@.len() > 0,
        all_within(rects_of(models(theirs@)), EDGE as int),
{
    if peer.len() == 0 {
        // The peer has not said what it has; draw one stand-in screen.
        let mut theirs: Vec<Slab> = Vec::new();
        theirs.push(
            Slab { rect: Rect { x: 0, y: 0, w: 3840, h: 2160 }, label: "screen".to_owned() },
        );
        assert(models(theirs@) =~= peer_slabs(screens::models(peer@)));
        return theirs;
    }
    slabs(peer)
}

/// How far a group has to move to rest against this side of a place.
fn offset(place: Rect, group: Rect, side: Side) -> (by: (i64, i64))
    requires
        place.within(EDGE as int),
        group.within(EDGE as int),
    ensures
        (by.0 as int, by.1 as int) == resting_offset(place, group, side),
        -4 * EDGE <= by.0 <= 4 * EDGE,
        -4 * EDGE <= by.1 <= 4 * EDGE,
{
    match side {
        Side::Left => (
            place.x - group.w - group.x,
            centre_on(place.y, place.h, group.y, group.h),
        ),
        Side::Right => (
            place.x + place.w - group.x,
            centre_on(place.y, place.h, group.y, group.h),
        ),
        Side::Top => (
            centre_on(place.x, place.w, group.x, group.w),
            place.y - group.h - group.y,
        ),
        Side::Bottom => (
            centre_on(place.x, place.w, group.x, group.w),
            place.y + place.h - group.y,
        ),
    }
}

/// The same slabs, all moved alike.
fn shifted(slabs: &[Slab], dx: i64, dy: i64) -> (placed: Vec<Slab>)
    requires
        all_within(rects_of(models(slabs@)), EDGE as int),
        -4 * EDGE <= dx <= 4 * EDGE,
        -4 * EDGE <= dy <= 4 * EDGE,
    ensures
        models(placed@) == models(slabs@).map_values(
            |s: SlabModel| SlabModel { rect: moved(s.rect, (dx as int, dy as int)), ..s },
        ),
        all_within(rects_of(models(placed@)), FAR as int),
{
    let ghost at_home = models(slabs@);
    let ghost by = (dx as int, dy as int);
    let mut placed: Vec<Slab> = Vec::new();
    let mut i: usize = 0;
    while i < slabs.len()
        invariant
            i <= slabs@.len(),
            at_home == models(slabs@),
            by == (dx as int, dy as int),
            all_within(rects_of(at_home), EDGE as int),
            -4 * EDGE <= dx <= 4 * EDGE,
            -4 * EDGE <= dy <= 4 * EDGE,
            placed@.len() == i,
            forall|j: int|
                0 <= j < i ==> (#[trigger] placed@[j])@ == (SlabModel {
                    rect: moved(at_home[j].rect, by),
                    ..at_home[j]
                }),
        decreases slabs@.len() - i,
    {
        let slab = &slabs[i];
        proof {
            assert(at_home[i as int] == slab@);
            assert(rects_of(at_home)[i as int].within(EDGE as int));
        }
        let rect = Rect { x: slab.rect.x + dx, y: slab.rect.y + dy, ..slab.rect };
        placed.push(Slab { rect, label: slab.label.clone() });
        i += 1;
    }
    assert(models(placed@) =~= at_home.map_values(
        |s: SlabModel| SlabModel { rect: moved(s.rect, by), ..s },
    ));
    assert forall|j: int| 0 <= j < placed@.len() implies (#[trigger] rects_of(
        models(placed@),
    )[j]).within(FAR as int) by {
        assert(rects_of(at_home)[j].within(EDGE as int));
        assert(placed@[j]@.rect == moved(at_home[j].rect, by));
    }
    placed
}

/// What is drawn fits, each machine for itself and both together.
proof fn lemma_both_fit(mine: Seq<Rect>, theirs: Seq<Rect>)
    requires
        all_within(mine, EDGE as int),
        all_within(theirs, FAR as int),
    ensures
        fits(mine),
        fits(theirs),
        fits(mine + theirs),
{
    let both = mine + theirs;
    if mine.len() > 0 {
        lemma_union_within(mine, EDGE as int);
    }
    if theirs.len() > 0 {
        lemma_union_within(theirs, FAR as int);
    }
    assert forall|i: int| 0 <= i < both.len() implies (#[trigger] both[i]).within(FAR as int) by {
        if i < mine.len() {
            assert(both[i] == mine[i]);
        } else {
            assert(both[i] == theirs[i - mine.len()]);
        }
    }
    if both.len() > 0 {
        lemma_union_within(both, FAR as int);
    }
}

/// Both machines in one space: this one where its system puts it, the other
/// resting against the chosen side. Displays are counted from 1, and one that is
/// not there stands for the whole desktop. Dragging moves the drawing, not this
/// layout, so the scale never jitters.
pub fn boxes(local: &[Screen], peer: &[Screen], side: Side, display: Option<usize>) -> (drawn: (
    Vec<Slab>,
    Vec<Slab>,
))
    ensures
        (models(drawn.0@), models(drawn.1@)) == layout(
            screens::models(local@),
            screens::models(peer@),
            side,
            display,
        ),
        fits(rects_of(models(drawn.0@))),
        fits(rects_of(models(drawn.1@))),
        fits(rects_of(models(drawn.0@)) + rects_of(models(drawn.1@))),
{
    let mine = slabs(local);
    let theirs = peer_boxes(peer);
    let place = place_for(&mine, display);
    let their_rects = rects(&theirs);
    proof {
        lemma_union_within(their_rects@, EDGE as int);
    }
    let group: Rect = match union(&their_rects) {
        Some(group) => group,
        None => place,
    };
    let (dx, dy) = offset(place, group, side);
    let placed = shifted(&theirs, dx, dy);
    proof {
        lemma_both_fit(rects_of(models(mine@)), rects_of(models(placed@)));
    }
    (mine, placed)
}

/// Whether a rectangle lies on whole points.
pub open spec fn whole(rect: Rect) -> bool {
    rect.x % 2 == 0 && rect.y % 2 == 0 && rect.w % 2 == 0 && rect.h % 2 == 0
}

/// A union of rectangles on whole points is on whole points.
proof fn lemma_union_is_whole(rects: Seq<Rect>)
    requires
        rects.len() > 0,
        all_within(rects, EDGE as int),
        forall|i: int| 0 <= i < rects.len() ==> whole(#[trigger] rects[i]),
    ensures
        whole(union_of(rects)->0),
{
    lemma_sides(rects);
    lemma_union_within(rects, EDGE as int);
}

/// Moving everything moves its sides.
proof fn lemma_sides_move_along(rects: Seq<Rect>, by: (int, int))
    requires
        rects.len() > 0,
        all_within(rects, EDGE as int),
        -4 * EDGE <= by.0 <= 4 * EDGE,
        -4 * EDGE <= by.1 <= 4 * EDGE,
    ensures
        ({
            let shifted = rects.map_values(|r: Rect| moved(r, by));
            &&& left_of(shifted) == left_of(rects) + by.0
            &&& top_of(shifted) == top_of(rects) + by.1
            &&& right_of(shifted) == right_of(rects) + by.0
            &&& bottom_of(shifted) == bottom_of(rects) + by.1
        }),
    decreases rects.len(),
{
    let shift = |r: Rect| moved(r, by);
    let rest = rects.drop_last();
    assert(rects.map_values(shift).drop_last() =~= rest.map_values(shift));
    assert(rects[rects.len() - 1].within(EDGE as int));
    if rest.len() > 0 {
        assert forall|i: int| 0 <= i < rest.len() implies (#[trigger] rest[i]).within(EDGE as int) by {
            assert(rest[i] == rects[i]);
        }
        lemma_sides_move_along(rest, by);
    }
}

/// Moving everything moves the union.
proof fn lemma_union_moves_along(rects: Seq<Rect>, by: (int, int))
    requires
        rects.len() > 0,
        all_within(rects, EDGE as int),
        -4 * EDGE <= by.0 <= 4 * EDGE,
        -4 * EDGE <= by.1 <= 4 * EDGE,
    ensures
        union_of(rects.map_values(|r: Rect| moved(r, by))) == Some(moved(union_of(rects)->0, by)),
{
    lemma_sides_move_along(rects, by);
    lemma_union_within(rects, EDGE as int);
}

/// Whether a group touches this side of a place from outside and is centred on it.
pub open spec fn rests(group: Rect, place: Rect, side: Side) -> bool {
    match side {
        Side::Left => group.right() == place.x && group.y + group.bottom() == place.y
            + place.bottom(),
        Side::Right => group.x == place.right() && group.y + group.bottom() == place.y
            + place.bottom(),
        Side::Top => group.bottom() == place.y && group.x + group.right() == place.x
            + place.right(),
        Side::Bottom => group.y == place.bottom() && group.x + group.right() == place.x
            + place.right(),
    }
}

/// Moving a group by its resting offset brings it to rest.
proof fn lemma_offset_brings_to_rest(place: Rect, group: Rect, side: Side)
    requires
        place.within(EDGE as int) && whole(place),
        group.within(EDGE as int) && whole(group),
    ensures
        rests(moved(group, resting_offset(place, group, side)), place, side),
        -4 * EDGE <= resting_offset(place, group, side).0 <= 4 * EDGE,
        -4 * EDGE <= resting_offset(place, group, side).1 <= 4 * EDGE,
{
}

/// The other machine rests against the chosen side: its screens, taken together,
/// touch that side of their resting place from outside and are centred on it.
pub proof fn law_the_peer_rests_against_its_edge(
    local: Seq<ScreenModel>,
    peer: Seq<ScreenModel>,
    side: Side,
    display: Option<usize>,
)
    ensures
        ({
            let (mine, theirs) = layout(local, peer, side, display);
            &&& union_of(rects_of(theirs)) is Some
            &&& rests(union_of(rects_of(theirs))->0, resting_place(mine, display), side)
        }),
{
    let mine = slabs_of(local);
    let theirs = peer_slabs(peer);
    let place = resting_place(mine, display);
    let rects = rects_of(theirs);
    let placed = layout(local, peer, side, display).1;
    lemma_peer_slabs_are_near(peer);
    lemma_place_is_near(local, display);
    lemma_union_within(rects, EDGE as int);
    lemma_union_is_whole(rects);
    let group = union_of(rects)->0;
    let by = resting_offset(place, group, side);
    lemma_offset_brings_to_rest(place, group, side);
    lemma_union_moves_along(rects, by);
    assert(rects_of(placed) =~= rects.map_values(|r: Rect| moved(r, by)));
}

/// The other machine's screens are drawn on whole points, somewhere a desktop
/// may be.
proof fn lemma_peer_slabs_are_near(list: Seq<ScreenModel>)
    ensures
        rects_of(peer_slabs(list)).len() > 0,
        all_within(rects_of(peer_slabs(list)), EDGE as int),
        forall|i: int|
            0 <= i < rects_of(peer_slabs(list)).len() ==> whole(
                #[trigger] rects_of(peer_slabs(list))[i],
            ),
{
    lemma_slabs_are_near(list);
}

/// Screens are drawn on whole points, somewhere a desktop may be.
proof fn lemma_slabs_are_near(list: Seq<ScreenModel>)
    ensures
        all_within(rects_of(slabs_of(list)), EDGE as int),
        forall|i: int|
            0 <= i < list.len() ==> whole(#[trigger] rects_of(slabs_of(list))[i]),
{
    let rects = rects_of(slabs_of(list));
    assert forall|i: int| 0 <= i < rects.len() implies (#[trigger] rects[i]).within(EDGE as int) by {
        assert(rects[i] == rect_around(list[i]));
    }
    assert forall|i: int| 0 <= i < list.len() implies whole(#[trigger] rects[i]) by {
        assert(rects[i] == rect_around(list[i]));
    }
}

/// So is the resting place.
proof fn lemma_place_is_near(local: Seq<ScreenModel>, display: Option<usize>)
    ensures
        resting_place(slabs_of(local), display).within(EDGE as int),
        whole(resting_place(slabs_of(local), display)),
{
    let mine = slabs_of(local);
    let rects = rects_of(mine);
    lemma_slabs_are_near(local);
    if let Some(d) = display {
        if 0 < d <= mine.len() {
            assert(rects[d - 1].within(EDGE as int));
            assert(whole(rects[d - 1]));
        }
    }
    if rects.len() > 0 {
        lemma_union_within(rects, EDGE as int);
        lemma_union_is_whole(rects);
    }
}

/// A drag shorter than this is a slip of the hand, not a rearrangement: twelve
/// points, as the bits of a double.
pub const NUDGE: u64 = 0x4028_0000_0000_0000;

/// Which of these distances, doubles given by their bits, comes first in their
/// total order, the first where several are alike.
pub open spec fn shortest(gaps: Seq<u64>) -> Option<int>
    decreases gaps.len(),
{
    if gaps.len() == 0 {
        None
    } else {
        match shortest(gaps.drop_last()) {
            None => Some(0),
            Some(i) => Some(if double::rank(gaps.last()) < double::rank(gaps[i]) {
                gaps.len() - 1
            } else {
                i
            }),
        }
    }
}

/// The screen that something was dropped nearest, by the distances to each.
pub fn nearest(gaps: &[u64]) -> (index: Option<usize>)
    ensures
        match index {
            Some(i) => shortest(gaps@) == Some(i as int) && i < gaps@.len(),
            None => shortest(gaps@) is None,
        },
{
    if gaps.len() == 0 {
        return None;
    }
    let mut best: usize = 0;
    let mut i: usize = 1;
    proof {
        reveal_with_fuel(shortest, 2);
        assert(gaps@.take(1).drop_last() =~= Seq::empty());
    }
    while i < gaps.len()
        invariant
            1 <= i <= gaps@.len(),
            best < i,
            shortest(gaps@.take(i as int)) == Some(best as int),
        decreases gaps@.len() - i,
    {
        assert(gaps@.take(i + 1).drop_last() =~= gaps@.take(i as int));
        if double::comes_before(gaps[i], gaps[best]) {
            best = i;
        }
        i += 1;
    }
    assert(gaps@.take(i as int) =~= gaps@);
    Some(best)
}

/// The nearest screen is no farther than any other, and nearer than every one
/// before it.
pub proof fn law_the_nearest_is_nearest(gaps: Seq<u64>)
    requires
        gaps.len() > 0,
    ensures
        shortest(gaps) is Some,
        0 <= shortest(gaps)->0 < gaps.len(),
        forall|i: int|
            0 <= i < gaps.len() ==> double::rank(gaps[shortest(gaps)->0]) <= double::rank(
                #[trigger] gaps[i],
            ),
        forall|i: int|
            0 <= i < shortest(gaps)->0 ==> double::rank(gaps[shortest(gaps)->0]) < double::rank(
                #[trigger] gaps[i],
            ),
    decreases gaps.len(),
{
    let rest = gaps.drop_last();
    if rest.len() > 0 {
        law_the_nearest_is_nearest(rest);
        let best = shortest(rest)->0;
        assert(gaps[best] == rest[best]);
        assert forall|i: int| 0 <= i < gaps.len() implies double::rank(gaps[shortest(gaps)->0])
            <= double::rank(#[trigger] gaps[i]) by {
            if i < rest.len() {
                assert(gaps[i] == rest[i]);
            }
        }
        assert forall|i: int| 0 <= i < shortest(gaps)->0 implies double::rank(
            gaps[shortest(gaps)->0],
        ) < double::rank(#[trigger] gaps[i]) by {
            assert(gaps[i] == rest[i]);
        }
    }
}

/// Where a peer sits: the side, and which display the edge belongs to.
#[derive(Debug, Clone, Copy, PartialEq, Eq, Structural)]
pub struct Seat {
    pub side: Side,
    pub display: Option<usize>,
}

/// The side that something this far across and down lies on: two doubles, given
/// by their bits.
pub open spec fn side_towards(across: u64, down: u64) -> Side {
    if double::as_long(across, down) {
        if double::positive(across) {
            Side::Right
        } else {
            Side::Left
        }
    } else if double::positive(down) {
        Side::Bottom
    } else {
        Side::Top
    }
}

/// Which edge of which display the peer has been dragged to, judged by where it
/// ended up rather than by how far the hand moved. `dragged` is how far it was
/// dragged across and down; `nearest` is the drawn screen it was dropped nearest,
/// of `drawn` screens; `across` and `down` are how far its middle lies from the
/// middle of that screen, or of them all where none is drawn. Each of these
/// distances is the bits of a double.
pub fn landed_on(
    seat: Seat,
    dragged: (u64, u64),
    nearest: Option<usize>,
    drawn: usize,
    across: u64,
    down: u64,
) -> (landed: Seat)
    requires
        nearest matches Some(i) ==> i < drawn,
    ensures
        landed == if double::shorter(dragged.0, NUDGE) && double::shorter(dragged.1, NUDGE) {
            seat
        } else {
            Seat {
                side: side_towards(across, down),
                display: match nearest {
                    // One display means the whole desktop is that display.
                    Some(i) if drawn > 1 => Some((i + 1) as usize),
                    _ => None,
                },
            }
        },
{
    if double::is_shorter(dragged.0, NUDGE) && double::is_shorter(dragged.1, NUDGE) {
        return seat;
    }
    let side = if double::is_as_long(across, down) {
        if double::is_positive(across) {
            Side::Right
        } else {
            Side::Left
        }
    } else if double::is_positive(down) {
        Side::Bottom
    } else {
        Side::Top
    };
    let display = match nearest {
        Some(i) => {
            if drawn > 1 {
                Some(i + 1)
            } else {
                None
            }
        },
        None => None,
    };
    Seat { side, display }
}

/// Whether a drop changes anything, and so has to be saved and said.
pub fn settle(seat: Seat, landed: Seat) -> (changed: bool)
    ensures
        changed == (landed != seat),
{
    landed != seat
}

/// Whether a drag is a slip of the hand depends on how far it went and not on
/// the way it went: shorter than twelve points, to either side, up or down.
pub proof fn law_a_slip_is_a_slip_in_every_direction(drag: u64)
    requires
        drag < 0x8000_0000_0000_0000,
    ensures
        double::shorter(drag, NUDGE) <==> drag < 0x4028_0000_0000_0000,
        double::shorter((drag + 0x8000_0000_0000_0000) as u64, NUDGE) <==> drag
            < 0x4028_0000_0000_0000,
{
    double::law_a_length_has_no_direction(drag, NUDGE);
    double::law_lengths_compare_as_their_bits(drag, NUDGE);
}

/// A drop lands on the side that it lies towards. Farther across than down, or
/// as far, it is to the right where it lies above zero and else to the left;
/// farther down than across, it is below or above in the same way. `across` and
/// `down` are how far, without a sign, and the two flags are the signs.
pub proof fn law_a_drop_lands_on_the_side_it_lies_towards(
    across: u64,
    down: u64,
    leftwards: bool,
    upwards: bool,
)
    requires
        across <= 0x7ff0_0000_0000_0000,
        down <= 0x7ff0_0000_0000_0000,
    ensures
        ({
            let sign: int = 0x8000_0000_0000_0000;
            let x = if leftwards {
                (across + sign) as u64
            } else {
                across
            };
            let y = if upwards {
                (down + sign) as u64
            } else {
                down
            };
            &&& across >= down && across > 0 && !leftwards ==> side_towards(x, y) == Side::Right
            &&& across >= down && leftwards ==> side_towards(x, y) == Side::Left
            &&& across < down && !upwards ==> side_towards(x, y) == Side::Bottom
            &&& across < down && upwards ==> side_towards(x, y) == Side::Top
            &&& across == 0 && down == 0 ==> side_towards(x, y) == Side::Left
        }),
{
}

/// What is no number is not as far as anything, nor above zero: such a drop is
/// judged up and down, and downwards only where that is a number above zero.
pub proof fn law_a_drop_nowhere_is_above(across: u64, down: u64)
    requires
        double::is_nan(across) || double::is_nan(down),
    ensures
        side_towards(across, down) == if double::positive(down) {
            Side::Bottom
        } else {
            Side::Top
        },
{
}

/// Where nothing is drawn, nothing is nearest.
pub proof fn law_nothing_is_nearest_among_none()
    ensures
        shortest(Seq::<u64>::empty()) is None,
{
}

/// Lengths fit where no two sides are farther apart than a rectangle can hold.
pub proof fn law_what_is_not_too_far_apart_fits(rects: Seq<Rect>)
    ensures
        fits(rects) <==> forall|i: int, j: int|
            0 <= i < rects.len() && 0 <= j < rects.len() ==> (#[trigger] rects[i]).x + rects[i].w - (
            #[trigger] rects[j]).x <= i64::MAX && rects[i].y + rects[i].h - rects[j].y <= i64::MAX,
        union_of(rects) is None <==> rects.len() == 0,
{
    if rects.len() > 0 {
        lemma_sides(rects);
        let l = choose|i: int| 0 <= i < rects.len() && (#[trigger] rects[i]).x == left_of(rects);
        let t = choose|i: int| 0 <= i < rects.len() && (#[trigger] rects[i]).y == top_of(rects);
        let r = choose|i: int|
            0 <= i < rects.len() && (#[trigger] rects[i]).right() == right_of(rects);
        let b = choose|i: int|
            0 <= i < rects.len() && (#[trigger] rects[i]).bottom() == bottom_of(rects);
        if forall|i: int, j: int|
            0 <= i < rects.len() && 0 <= j < rects.len() ==> (#[trigger] rects[i]).x + rects[i].w - (
            #[trigger] rects[j]).x <= i64::MAX && rects[i].y + rects[i].h - rects[j].y <= i64::MAX {
            assert(rects[r].x + rects[r].w - rects[l].x <= i64::MAX);
            assert(rects[b].y + rects[b].h - rects[t].y <= i64::MAX);
        }
    }
}

/// Centring brings two middles together: once a group has moved by its offset,
/// its middle lies on the middle of the other, or half a unit before it where
/// their lengths differ by an odd number.
pub proof fn law_centring_brings_the_middles_together(
    mine: int,
    mine_len: int,
    theirs: int,
    theirs_len: int,
)
    ensures
        ({
            let there = theirs + centring(mine, mine_len, theirs, theirs_len);
            let apart = (2 * mine + mine_len) - (2 * there + theirs_len);
            &&& apart == 0 || apart == 1
            &&& apart == 0 <==> (mine_len - theirs_len) % 2 == 0
        }),
{
}

/// A machine rests against one side of another where the two touch there and
/// their middles are level; and if this one rests on that side of the other, the
/// other rests on the facing side of this one.
pub proof fn law_resting_is_mutual(a: Rect, b: Rect, side: Side)
    ensures
        rests(a, b, side) == rests(b, a, side.facing()),
        rests(a, b, Side::Left) ==> a.x + a.w == b.x && 2 * a.y + a.h == 2 * b.y + b.h,
        rests(a, b, Side::Top) ==> a.y + a.h == b.y && 2 * a.x + a.w == 2 * b.x + b.w,
        rests(a, b, Side::Right) ==> a.x == b.x + b.w && 2 * a.y + a.h == 2 * b.y + b.h,
        rests(a, b, Side::Bottom) ==> a.y == b.y + b.h && 2 * a.x + a.w == 2 * b.x + b.w,
{
}

/// Every screen is drawn at its true size, twice its points, under its own label.
/// This machine's screens are drawn where its system puts them; the other's keep
/// their places among themselves.
pub proof fn law_screens_are_drawn_true_to_scale(
    local: Seq<ScreenModel>,
    peer: Seq<ScreenModel>,
    side: Side,
    display: Option<usize>,
)
    ensures
        ({
            let (mine, theirs) = layout(local, peer, side, display);
            &&& mine.len() == local.len()
            &&& forall|i: int|
                0 <= i < local.len() ==> {
                    &&& (#[trigger] mine[i]).rect.x == 2 * local[i].x && mine[i].rect.y == 2
                        * local[i].y
                    &&& mine[i].rect.w == 2 * local[i].w && mine[i].rect.h == 2 * local[i].h
                    &&& mine[i].label == label_on(local[i])
                }
            &&& peer.len() > 0 ==> theirs.len() == peer.len()
            &&& forall|i: int|
                0 <= i < peer.len() ==> {
                    &&& (#[trigger] theirs[i]).rect.w == 2 * peer[i].w && theirs[i].rect.h == 2
                        * peer[i].h
                    &&& theirs[i].label == label_on(peer[i])
                    &&& theirs[i].rect.x - theirs[0].rect.x == 2 * (peer[i].x - peer[0].x)
                    &&& theirs[i].rect.y - theirs[0].rect.y == 2 * (peer[i].y - peer[0].y)
                }
            &&& peer.len() == 0 ==> theirs.len() == 1 && theirs[0].label == "screen"@
                && theirs[0].rect.w == 3840 && theirs[0].rect.h == 2160
        }),
{
    let mine = slabs_of(local);
    let at_home = peer_slabs(peer);
    let rects = rects_of(at_home);
    lemma_peer_slabs_are_near(peer);
    lemma_place_is_near(local, display);
    lemma_union_within(rects, EDGE as int);
    lemma_union_is_whole(rects);
    lemma_offset_brings_to_rest(resting_place(mine, display), union_of(rects)->0, side);
    assert forall|i: int| 0 <= i < at_home.len() implies (#[trigger] at_home[i]).rect.within(
        EDGE as int,
    ) by {
        assert(rects[i].within(EDGE as int));
    }
}

/// What the other machine rests against: the display that it was given, counting
/// from 1, where there is one of that number; the whole desktop where there is
/// not, or none was given; and a plain desktop where there are no screens at all.
pub proof fn law_the_peer_rests_against_its_display(
    local: Seq<ScreenModel>,
    display: Option<usize>,
)
    ensures
        ({
            let place = resting_place(slabs_of(local), display);
            let rects = rects_of(slabs_of(local));
            let given = display is Some && 1 <= display->0 <= local.len();
            &&& given ==> place.x == 2 * local[display->0 - 1].x && place.y == 2 * local[display->0
                - 1].y && place.w == 2 * local[display->0 - 1].w && place.h == 2
                * local[display->0 - 1].h
            &&& !given && local.len() > 0 ==> union_of(rects) == Some(place)
            &&& local.len() == 0 ==> place == (Rect { x: 0, y: 0, w: 2880, h: 1800 })
        }),
{
}

/// A label is the name, whatever it holds, then a line break, and the two lengths
/// in points. A name of one line is split off it again as it was.
pub proof fn law_a_label_names_and_measures(screen: ScreenModel)
    ensures
        ({
            let label = label_on(screen);
            let n = screen.name.len() as int;
            &&& n < label.len() && label[n] == '\n'
            &&& label.take(n) == screen.name
            &&& label.skip(n + 1) == text::decimal(screen.w as int) + " × "@ + text::decimal(
                screen.h as int,
            )
            &&& !screen.name.contains('\n') ==> text::first_of(label, '\n') == n
        }),
{
    reveal_strlit("\n");
    let size = text::decimal(screen.w as int) + " × "@ + text::decimal(screen.h as int);
    assert("\n"@ =~= seq!['\n']);
    assert(label_on(screen) =~= screen.name + seq!['\n'] + size);
    if !screen.name.contains('\n') {
        text::lemma_first_of(screen.name, '\n', size);
    }
    assert(label_on(screen).take(screen.name.len() as int) =~= screen.name);
    assert(label_on(screen).skip(screen.name.len() as int + 1) =~= size);
}

/// A union reaches from the outermost side to the outermost side: no rectangle
/// sticks out of it, and none of its sides can come in without one sticking out.
pub proof fn law_a_union_reaches_from_side_to_side(rects: Seq<Rect>, smaller: Rect)
    requires
        rects.len() > 0,
        fits(rects),
    ensures
        ({
            let whole = union_of(rects)->0;
            &&& forall|i: int|
                0 <= i < rects.len() ==> whole.x <= (#[trigger] rects[i]).x && whole.y <= rects[i].y
                    && rects[i].x + rects[i].w <= whole.x + whole.w && rects[i].y + rects[i].h
                    <= whole.y + whole.h
            &&& (forall|i: int|
                0 <= i < rects.len() ==> smaller.x <= (#[trigger] rects[i]).x && smaller.y
                    <= rects[i].y && rects[i].x + rects[i].w <= smaller.x + smaller.w && rects[i].y
                    + rects[i].h <= smaller.y + smaller.h) ==> smaller.x <= whole.x && smaller.y
                <= whole.y && whole.x + whole.w <= smaller.x + smaller.w && whole.y + whole.h
                <= smaller.y + smaller.h
        }),
{
    let whole = union_of(rects)->0;
    law_a_union_covers_every_screen(rects);
    assert forall|i: int| 0 <= i < rects.len() implies whole.x <= (#[trigger] rects[i]).x && whole.y
        <= rects[i].y && rects[i].x + rects[i].w <= whole.x + whole.w && rects[i].y + rects[i].h
        <= whole.y + whole.h by {
        assert(whole.covers(rects[i]));
    }
}

/// A slab's model is the slab, and the models and rectangles of slabs are those
/// of each of them, in their order.
pub proof fn law_a_slab_is_what_its_model_says(slabs: Seq<Slab>, i: int)
    requires
        0 <= i < slabs.len(),
    ensures
        models(slabs).len() == slabs.len() && rects_of(models(slabs)).len() == slabs.len(),
        models(slabs)[i].label == slabs[i].label@,
        models(slabs)[i].rect == slabs[i].rect && rects_of(models(slabs))[i] == slabs[i].rect,
{
}

/// A drag of twelve points or more, to either side, up or down, lands: by where
/// it ended up, on the display that it was dropped nearest, counted from 1, or on
/// the whole desktop where only one is drawn. A shorter one leaves everything
/// where it was. `far` is how far it went one way, without a sign.
pub proof fn law_a_drag_lands_whichever_way_it_went(
    seat: Seat,
    far: u64,
    near: u64,
    nearest: Option<usize>,
    drawn: usize,
    across: u64,
    down: u64,
    dragged: (u64, u64),
    landed: Seat,
)
    requires
        far < 0x8000_0000_0000_0000,
        near < 0x4028_0000_0000_0000,
        nearest matches Some(i) ==> i < drawn,
        ({
            let back = (far + 0x8000_0000_0000_0000) as u64;
            ||| dragged == (far, near)
            ||| dragged == (back, near)
            ||| dragged == (near, far)
            ||| dragged == (near, back)
        }),
        call_ensures(landed_on, (seat, dragged, nearest, drawn, across, down), landed),
    ensures
        far < 0x4028_0000_0000_0000 ==> landed == seat,
        far >= 0x4028_0000_0000_0000 ==> {
            &&& landed.side == side_towards(across, down)
            &&& nearest is Some && drawn > 1 ==> landed.display is Some && landed.display->0
                == nearest->0 + 1
            &&& nearest is None || drawn <= 1 ==> landed.display is None
        },
{
    law_a_slip_is_a_slip_in_every_direction(far);
    law_a_slip_is_a_slip_in_every_direction(near);
}

/// A label is split where it was joined: the name on one line and the two
/// lengths on the other.
pub proof fn law_a_label_is_split_where_it_was_joined(
    screen: Screen,
    label: String,
    seen: &str,
    lines: (String, Option<String>),
)
    requires
        !screen.name@.contains('\n'),
        call_ensures(describe, (&screen,), label),
        seen@ == label@,
        call_ensures(split_label, (seen,), lines),
    ensures
        lines.0@ == screen.name@,
        lines.1 is Some && lines.1->0@ == text::decimal(screen.w as int) + " × "@ + text::decimal(
            screen.h as int,
        ),
{
    law_a_label_names_and_measures(screen@);
}

/// Only a drop that changes the side or the display is saved.
pub proof fn law_only_a_change_is_saved(seat: Seat, landed: Seat, changed: bool)
    requires
        call_ensures(settle, (seat, landed), changed),
    ensures
        !changed <==> landed.side == seat.side && landed.display == seat.display,
{
}

} // verus!

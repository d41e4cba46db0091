//! What screens each machine has, so the arrange window can draw the real
//! layout instead of four abstract compass points.

use vstd::prelude::*;
use vstd::utf8::*;

use crate::text;
use crate::wire;

verus! {

#[derive(Clone, Debug, PartialEq)]
pub struct Screen {
    pub name: String,
    pub x: i32,
    pub y: i32,
    pub w: u32,
    pub h: u32,
}

/// A screen with its name as a sequence of characters.
pub struct ScreenModel {
    pub name: Seq<char>,
    pub x: i32,
    pub y: i32,
    pub w: u32,
    pub h: u32,
}

impl View for Screen {
    type V = ScreenModel;

    open spec fn view(&self) -> ScreenModel {
        ScreenModel { name: self.name@, x: self.x, y: self.y, w: self.w, h: self.h }
    }
}

/// The models of a list of screens.
pub open spec fn models(screens: Seq<Screen>) -> Seq<ScreenModel> {
    screens.map_values(|s: Screen| s@)
}

impl ScreenModel {
    /// On the wire: position and size, then the name behind its length.
    pub open spec fn bytes(self) -> Seq<u8> {
        wire::le_i32(self.x) + wire::le_i32(self.y) + wire::le_u32(self.w) + wire::le_u32(self.h)
            + wire::short(encode_utf8(self.name))
    }

    /// Whether the name fits behind a one-byte length, so that all of it travels.
    pub open spec fn fits(self) -> bool {
        encode_utf8(self.name).len() <= 255
    }
}

/// How many bytes the screen at the front of `b` takes, if all of it is there.
pub open spec fn screen_len(b: Seq<u8>) -> Option<int> {
    if b.len() >= 17 && b.len() >= 17 + b[16] {
        Some(17 + b[16])
    } else {
        None
    }
}

/// The screen at the front of `b`.
pub open spec fn screen_at(b: Seq<u8>) -> ScreenModel {
    ScreenModel {
        x: wire::i32_from(b, 0),
        y: wire::i32_from(b, 4),
        w: wire::u32_from(b, 8),
        h: wire::u32_from(b, 12),
        name: wire::lossy(b.subrange(17, 17 + b[16])),
    }
}

impl Screen {
    pub fn encode(&self, out: &mut Vec<u8>)
        ensures
            final(out)@ == old(out)@ + self@.bytes(),
    {
        wire::put_i32(out, self.x);
        wire::put_i32(out, self.y);
        wire::put_u32(out, self.w);
        wire::put_u32(out, self.h);
        wire::put_short(out, self.name.as_str().as_bytes());
        assert(out@ =~= old(out)@ + self@.bytes());
    }

    /// Returns the screen and how many bytes it used.
    pub fn decode(b: &[u8]) -> (screen: Option<(Screen, usize)>)
        ensures
            screen is Some <==> screen_len(b@) is Some,
            screen matches Some((s, used)) ==> s@ == screen_at(b@) && Some(used as int)
                == screen_len(b@),
    {
        let (x, y, w, h) = match (
            wire::i32_at(b, 0),
            wire::i32_at(b, 4),
            wire::u32_at(b, 8),
            wire::u32_at(b, 12),
        ) {
            (Some(x), Some(y), Some(w), Some(h)) => (x, y, w, h),
            _ => return None,
        };
        if b.len() < 17 {
            return None;
        }
        let len: usize = b[16] as usize;
        if b.len() < 17 + len {
            return None;
        }
        let name = wire::text_lossy(&b[17..17 + len]);
        Some((Screen { name, x, y, w, h }, 17 + len))
    }

    /// A screen with the same name, place and size.
    pub fn copy(&self) -> (screen: Screen)
        ensures
            screen@ == self@,
    {
        Screen { name: self.name.clone(), x: self.x, y: self.y, w: self.w, h: self.h }
    }
}

/// Copies a list of screens.
pub fn copy_all(screens: &[Screen]) -> (copies: Vec<Screen>)
    ensures
        models(copies@) == models(screens@),
{
    let mut copies: Vec<Screen> = Vec::new();
    let mut i: usize = 0;
    while i < screens.len()
        invariant
            i <= screens@.len(),
            copies@.len() == i,
            forall|j: int| 0 <= j < i ==> copies@[j]@ == screens@[j]@,
        decreases screens@.len() - i,
    {
        copies.push(screens[i].copy());
        i += 1;
    }
    assert(models(copies@) =~= models(screens@));
    copies
}

/// The bytes of a screen announce their own length, whatever follows them.
pub proof fn lemma_screen_len(screen: ScreenModel, rest: Seq<u8>)
    ensures
        screen_len(screen.bytes() + rest) == Some(screen.bytes().len() as int),
        screen.bytes().len() >= 17,
{
    let b = screen.bytes() + rest;
    assert(b[16] == wire::short(encode_utf8(screen.name))[0]);
}

/// A screen survives the wire, whatever follows it there: reading its bytes
/// back gives the screen and uses up exactly those bytes.
pub proof fn law_screens_survive_the_wire(screen: ScreenModel, rest: Seq<u8>)
    requires
        screen.fits(),
    ensures
        screen_len(screen.bytes() + rest) == Some(screen.bytes().len() as int),
        screen_at(screen.bytes() + rest) == screen,
{
    lemma_screen_len(screen, rest);
    let name = encode_utf8(screen.name);
    let b = screen.bytes() + rest;
    let e = Seq::<u8>::empty();
    let x = wire::le_i32(screen.x);
    let y = wire::le_i32(screen.y);
    let w = wire::le_u32(screen.w);
    let h = wire::le_u32(screen.h);
    let n = wire::short(name);
    assert(b =~= e + x + (y + w + h + n + rest));
    assert(b =~= x + y + (w + h + n + rest));
    assert(b =~= (x + y) + w + (h + n + rest));
    assert(b =~= (x + y + w) + h + (n + rest));
    wire::lemma_u32_round_trip(wire::twos(screen.x), e, y + w + h + n + rest);
    wire::lemma_u32_round_trip(wire::twos(screen.y), x, w + h + n + rest);
    wire::lemma_u32_round_trip(screen.w, x + y, h + n + rest);
    wire::lemma_u32_round_trip(screen.h, x + y + w, n + rest);
    wire::lemma_twos_round_trip(screen.x);
    wire::lemma_twos_round_trip(screen.y);
    assert(b[16] == n[0]);
    assert(b.subrange(17, 17 + b[16]) =~= name);
    encode_utf8_valid_utf8(screen.name);
    encode_utf8_decode_utf8(screen.name);
}

/// A truncated screen is refused: no proper prefix of a screen's bytes reads as
/// a screen.
pub proof fn law_truncated_screens_are_refused(screen: ScreenModel, len: int)
    requires
        0 <= len < screen.bytes().len(),
    ensures
        screen_len(screen.bytes().take(len)) is None,
{
    let b = screen.bytes();
    if len >= 17 {
        assert(b[16] == wire::short(encode_utf8(screen.name))[0]);
        assert(b.take(len)[16] == b[16]);
    }
}

/// A monitor as the compositor reports it; a field is absent where the report
/// lacks it or holds something else there.
pub struct Monitor {
    pub name: Option<String>,
    pub x: Option<i64>,
    pub y: Option<i64>,
    pub width: Option<u64>,
    pub height: Option<u64>,
}

impl View for Monitor {
    type V = (Option<Seq<char>>, Option<i64>, Option<i64>, Option<u64>, Option<u64>);

    open spec fn view(&self) -> Self::V {
        (
            match self.name {
                Some(name) => Some(name@),
                None => None,
            },
            self.x,
            self.y,
            self.width,
            self.height,
        )
    }
}

/// What the JSON in `bytes` says of each monitor in turn; `None` where it is
/// not a JSON array. For each element: the string under the first key, the
/// integers under the second and third, and the unsigned integers under the
/// fourth and fifth.
pub uninterp spec fn json_monitors(
    bytes: Seq<u8>,
    name: Seq<char>,
    x: Seq<char>,
    y: Seq<char>,
    width: Seq<char>,
    height: Seq<char>,
) -> Option<Seq<(Option<Seq<char>>, Option<i64>, Option<i64>, Option<u64>, Option<u64>)>>;

/// `serde_json::from_slice` into a list of values, each then read by these keys.
/// The result depends on the bytes and the keys alone; what JSON is, is not said
/// here.
#[verifier::external_body]
fn parse_monitors(
    bytes: &[u8],
    name: &str,
    x: &str,
    y: &str,
    width: &str,
    height: &str,
) -> (monitors: Option<Vec<Monitor>>)
    ensures
        monitors is Some <==> json_monitors(bytes@, name@, x@, y@, width@, height@) is Some,
        monitors matches Some(m) ==> m@.map_values(|m: Monitor| m@) == json_monitors(
            bytes@,
            name@,
            x@,
            y@,
            width@,
            height@,
        )->0,
{
    let values = serde_json::from_slice::<Vec<serde_json::Value>>(bytes).ok()?;
    let monitor = |m: &serde_json::Value| Monitor {
        name: m[name].as_str().map(str::to_string),
        x: m[x].as_i64(),
        y: m[y].as_i64(),
        width: m[width].as_u64(),
        height: m[height].as_u64(),
    };
    Some(values.iter().map(monitor).collect())
}

/// What the compositor's report says of each monitor, under the names it uses.
pub open spec fn reported(printed: Seq<u8>) -> Option<
    Seq<(Option<Seq<char>>, Option<i64>, Option<i64>, Option<u64>, Option<u64>)>,
> {
    json_monitors(printed, "name"@, "x"@, "y"@, "width"@, "height"@)
}

/// The screen that a monitor's report describes: what is missing is zero, and
/// a monitor without a name is a "display". Numbers too big for a screen keep
/// their low 32 bits.
pub open spec fn monitor_screen(
    m: (Option<Seq<char>>, Option<i64>, Option<i64>, Option<u64>, Option<u64>),
) -> ScreenModel {
    ScreenModel {
        name: match m.0 {
            Some(name) => name,
            None => "display"@,
        },
        x: match m.1 {
            Some(x) => wire::wrapped_i32(x as int),
            None => 0,
        },
        y: match m.2 {
            Some(y) => wire::wrapped_i32(y as int),
            None => 0,
        },
        w: match m.3 {
            Some(w) => (w % 0x1_0000_0000) as u32,
            None => 0,
        },
        h: match m.4 {
            Some(h) => (h % 0x1_0000_0000) as u32,
            None => 0,
        },
    }
}

/// The screens that these monitors are, in the order of the report.
pub fn from_monitors(monitors: &[Monitor]) -> (screens: Vec<Screen>)
    ensures
        models(screens@) == monitors@.map_values(|m: Monitor| monitor_screen(m@)),
{
    let mut screens: Vec<Screen> = Vec::new();
    let mut i: usize = 0;
    while i < monitors.len()
        invariant
            i <= monitors@.len(),
            screens@.len() == i,
            forall|j: int| 0 <= j < i ==> screens@[j]@ == monitor_screen(#[trigger] monitors@[j]@),
        decreases monitors@.len() - i,
    {
        let m = &monitors[i];
        let name = match &m.name {
            Some(name) => name.clone(),
            None => "display".to_owned(),
        };
        let x: i32 = match m.x {
            Some(x) => wire::wrap_i32(x),
            None => 0,
        };
        let y: i32 = match m.y {
            Some(y) => wire::wrap_i32(y),
            None => 0,
        };
        let w: u32 = match m.width {
            Some(w) => wire::wrap_u32(w),
            None => 0,
        };
        let h: u32 = match m.height {
            Some(h) => wire::wrap_u32(h),
            None => 0,
        };
        screens.push(Screen { name, x, y, w, h });
        i += 1;
    }
    assert(models(screens@) =~= monitors@.map_values(|m: Monitor| monitor_screen(m@)));
    screens
}

/// The screens attached to this machine, from what the compositor printed when
/// asked for its monitors. None, where that was not a JSON list.
pub fn local(printed: &[u8]) -> (screens: Vec<Screen>)
    ensures
        models(screens@) == match reported(printed@) {
            Some(monitors) => monitors.map_values(
                |m: (Option<Seq<char>>, Option<i64>, Option<i64>, Option<u64>, Option<u64>)|
                    monitor_screen(m),
            ),
            None => Seq::<ScreenModel>::empty(),
        },
{
    match parse_monitors(printed, "name", "x", "y", "width", "height") {
        Some(monitors) => {
            let screens = from_monitors(&monitors);
            proof {
                let named = reported(printed@)->0;
                assert forall|i: int| 0 <= i < monitors@.len() implies #[trigger] monitors@[i]@
                    == named[i] by {
                    assert(monitors@.map_values(|m: Monitor| m@)[i] == monitors@[i]@);
                }
                assert(monitors@.map_values(|m: Monitor| m@).len() == monitors@.len());
                assert(models(screens@) =~= named.map_values(
                    |m: (Option<Seq<char>>, Option<i64>, Option<i64>, Option<u64>, Option<u64>)|
                        monitor_screen(m),
                ));
            }
            screens
        },
        None => {
            let none: Vec<Screen> = Vec::new();
            assert(models(none@) =~= Seq::<ScreenModel>::empty());
            none
        },
    }
}

/// A display as the system bounds it.
#[derive(Debug, Clone, Copy, PartialEq, Eq, Structural)]
pub struct Display {
    pub x: i32,
    pub y: i32,
    pub w: u32,
    pub h: u32,
}

/// The screen that the display at this place in the system's list is. Displays
/// have no names of their own there, and people count from 1.
pub open spec fn display_screen(index: int, display: Display) -> ScreenModel {
    ScreenModel {
        name: "Display "@ + text::decimal(index + 1),
        x: display.x,
        y: display.y,
        w: display.w,
        h: display.h,
    }
}

/// The screens that these displays are, left to right as the system sees them.
pub fn from_displays(displays: &[Display]) -> (screens: Vec<Screen>)
    ensures
        models(screens@) == Seq::new(
            displays@.len(),
            |i: int| display_screen(i, displays@[i]),
        ),
{
    let mut screens: Vec<Screen> = Vec::new();
    let count: usize = displays.len();
    let mut i: usize = 0;
    while i < count
        invariant
            i <= count == displays@.len(),
            screens@.len() == i,
            forall|j: int| 0 <= j < i ==> (#[trigger] screens@[j])@ == display_screen(j, displays@[j]),
        decreases count - i,
    {
        let d = displays[i];
        let mut name = "Display ".to_owned();
        name.append(text::number(i as u64 + 1).as_str());
        screens.push(Screen { name, x: d.x, y: d.y, w: d.w, h: d.h });
        i += 1;
    }
    assert(models(screens@) =~= Seq::new(
        displays@.len(),
        |i: int| display_screen(i, displays@[i]),
    ));
    screens
}

/// Where a screen stands on the wire: its place and its size, each a number of
/// four bytes with the lowest first, and then its name behind its length.
pub proof fn law_where_a_screen_stands(screen: ScreenModel)
    ensures
        ({
            let b = screen.bytes();
            &&& b.len() >= 17
            &&& wire::little(b.subrange(0, 4)) == screen.x as int % 0x1_0000_0000
            &&& wire::little(b.subrange(4, 8)) == screen.y as int % 0x1_0000_0000
            &&& wire::little(b.subrange(8, 12)) == screen.w
            &&& wire::little(b.subrange(12, 16)) == screen.h
            &&& b.skip(16) == wire::short(encode_utf8(screen.name))
        }),
{
    let b = screen.bytes();
    wire::law_numbers_are_written_lowest_byte_first(screen.w, 0, screen.x);
    wire::law_numbers_are_written_lowest_byte_first(screen.h, 0, screen.y);
    assert(b.subrange(0, 4) =~= wire::le_i32(screen.x));
    assert(b.subrange(4, 8) =~= wire::le_i32(screen.y));
    assert(b.subrange(8, 12) =~= wire::le_u32(screen.w));
    assert(b.subrange(12, 16) =~= wire::le_u32(screen.h));
    assert(b.skip(16) =~= wire::short(encode_utf8(screen.name)));
}

/// A screen is read from the front: it takes seventeen bytes and as many as the
/// last of these says, and is there only where all of them are.
pub proof fn law_a_screen_is_read_from_the_front(b: Seq<u8>)
    ensures
        screen_len(b) is Some <==> b.len() >= 17 && b.len() - 17 >= b[16],
        screen_len(b) matches Some(used) ==> {
            let screen = screen_at(b);
            &&& used == 17 + b[16]
            &&& screen.x as int % 0x1_0000_0000 == wire::little(b.subrange(0, 4))
            &&& screen.y as int % 0x1_0000_0000 == wire::little(b.subrange(4, 8))
            &&& screen.w == wire::little(b.subrange(8, 12))
            &&& screen.h == wire::little(b.subrange(12, 16))
            &&& screen.name == wire::lossy(b.subrange(17, used))
        },
{
    if b.len() >= 17 {
        wire::law_numbers_are_read_lowest_byte_first(b, 0);
        wire::law_numbers_are_read_lowest_byte_first(b, 4);
        wire::law_numbers_are_read_lowest_byte_first(b, 8);
        wire::law_numbers_are_read_lowest_byte_first(b, 12);
    }
}

/// A monitor is drawn where and as large as it is reported, under the name that
/// it is reported with. Numbers are cut to 32 bits, what is missing is zero, and
/// a monitor without a name is a "display".
pub proof fn law_a_monitor_is_drawn_as_reported(
    m: (Option<Seq<char>>, Option<i64>, Option<i64>, Option<u64>, Option<u64>),
)
    ensures
        ({
            let screen = monitor_screen(m);
            &&& m.0 matches Some(name) ==> screen.name == name
            &&& m.0 is None ==> screen.name == "display"@
            &&& m.1 matches Some(x) ==> (x - screen.x) % 0x1_0000_0000 == 0
            &&& m.2 matches Some(y) ==> (y - screen.y) % 0x1_0000_0000 == 0
            &&& m.3 matches Some(w) ==> (w - screen.w) % 0x1_0000_0000 == 0
            &&& m.4 matches Some(h) ==> (h - screen.h) % 0x1_0000_0000 == 0
            &&& m.1 is None ==> screen.x == 0
            &&& m.2 is None ==> screen.y == 0
            &&& m.3 is None ==> screen.w == 0
            &&& m.4 is None ==> screen.h == 0
        }),
{
    if m.1 is Some {
        wire::law_cutting_keeps_the_low_bits(m.1->0 as int);
    }
    if m.2 is Some {
        wire::law_cutting_keeps_the_low_bits(m.2->0 as int);
    }
}

/// The compositor's report is read under the names that it uses.
pub proof fn law_a_report_is_read_by_its_names(printed: Seq<u8>)
    ensures
        reported(printed) == json_monitors(printed, "name"@, "x"@, "y"@, "width"@, "height"@),
{
}

/// A display keeps its place and its size, and is named by its number, counting
/// from 1: two displays at different places in the list have different names.
pub proof fn law_displays_are_numbered(i: int, j: int, display: Display)
    requires
        0 <= i,
        0 <= j,
    ensures
        ({
            let screen = display_screen(i, display);
            let prefix = "Display "@.len() as int;
            &&& (screen.x, screen.y, screen.w, screen.h) == (
                display.x,
                display.y,
                display.w,
                display.h,
            )
            &&& screen.name.take(prefix) == "Display "@
            &&& text::counted_by(screen.name.skip(prefix)) == i + 1
            &&& i != j ==> screen.name != display_screen(j, display).name
        }),
{
    let prefix = "Display "@;
    text::law_a_number_reads_back(i + 1);
    text::law_a_number_reads_back(j + 1);
    let a = display_screen(i, display).name;
    let b = display_screen(j, display).name;
    assert(a.take(prefix.len() as int) =~= prefix);
    assert(a.skip(prefix.len() as int) =~= text::decimal(i + 1));
    assert(b.skip(prefix.len() as int) =~= text::decimal(j + 1));
}

/// A screen's model is the screen, and the models of screens are those of each
/// of them, in their order.
pub proof fn law_a_screen_is_what_its_model_says(screen: Screen, list: Seq<Screen>)
    ensures
        screen@.name == screen.name@ && screen@.x == screen.x && screen@.y == screen.y && screen@.w
            == screen.w && screen@.h == screen.h,
        models(list).len() == list.len(),
        forall|i: int| 0 <= i < list.len() ==> #[trigger] models(list)[i] == list[i]@,
{
}

/// A monitor's model is the monitor.
pub proof fn law_a_monitor_is_what_its_model_says(monitor: Monitor)
    ensures
        monitor.name is None <==> monitor@.0 is None,
        monitor.name matches Some(name) ==> monitor@.0 == Some(name@),
        (monitor@.1, monitor@.2) == (monitor.x, monitor.y),
        (monitor@.3, monitor@.4) == (monitor.width, monitor.height),
{
}

} // verus!

//! What one machine says to another, and how it goes on the wire.
//!
//! Pointer motion and pings travel as datagrams: they are worthless once late,
//! so a lost one is better dropped than retransmitted. Key presses, buttons and
//! who has the cursor go on a reliable stream, because a dropped key-up leaves a
//! modifier stuck down on the peer. The clipboard gets a stream to itself: it is
//! the only message that can run to megabytes, and anything queued behind it
//! would wait for all of them.

use vstd::prelude::*;
use vstd::utf8::*;

use crate::clipboard::{Clip, ClipModel};
use crate::config::Side;
use crate::event::{Event, KeyboardEvent, PointerEvent};
use crate::screens;
use crate::screens::{Screen, ScreenModel};
use crate::text;
use crate::wire;

verus! {

#[derive(Debug, PartialEq, Clone)]
pub enum Msg {
    /// Latency probe carrying the sender's monotonic nanoseconds.
    Ping(u64),
    /// The same number, echoed back.
    Pong(u64),
    /// "I have the cursor now, here comes input."
    Enter,
    /// "You have the cursor back."
    Leave,
    Input(Event),
    /// Whatever was copied: text, or an image in the bytes the clipboard
    /// already held.
    Clipboard(Clip),
    /// The screens this machine has, sent once per connection so the other end
    /// can draw the real layout.
    Screens(Vec<Screen>),
    /// "You are on this side of me": sent when one end is rearranged, so both
    /// ends agree which edges face each other.
    Arrange(Side),
}

/// A message with its text and lists as sequences.
pub enum MsgModel {
    Ping(u64),
    Pong(u64),
    Enter,
    Leave,
    Input(Event),
    Clipboard(ClipModel),
    Screens(Seq<ScreenModel>),
    Arrange(Side),
}

impl View for Msg {
    type V = MsgModel;

    open spec fn view(&self) -> MsgModel {
        match self {
            Msg::Ping(t) => MsgModel::Ping(*t),
            Msg::Pong(t) => MsgModel::Pong(*t),
            Msg::Enter => MsgModel::Enter,
            Msg::Leave => MsgModel::Leave,
            Msg::Input(event) => MsgModel::Input(*event),
            Msg::Clipboard(clip) => MsgModel::Clipboard(clip@),
            Msg::Screens(list) => MsgModel::Screens(screens::models(list@)),
            Msg::Arrange(side) => MsgModel::Arrange(*side),
        }
    }
}

/// Which of the connection's three channels a message belongs on.
#[derive(Debug, PartialEq, Eq, Clone, Copy, Structural)]
pub enum Route {
    /// Droppable and worthless once late.
    Datagram,
    /// Must arrive, and small enough that the next one is never held up.
    Stream,
    /// Must arrive, may be megabytes: gets a stream of its own.
    Bulk,
}

/// Why bytes are not a message.
#[derive(Debug, PartialEq, Eq, Clone, Copy, Structural)]
pub enum DecodeError {
    EmptyMessage,
    TooShort,
    EmptyEvent,
    ShortAxisEvent,
    ShortKeyEvent,
    UnknownEvent(u8),
    /// Text that is UTF-8 only up to this byte, with the number of bytes that
    /// are wrong there; none where the text ends within a character.
    NotText { index: usize, wrong: Option<usize> },
    NoMimeLength,
    TruncatedMime,
    NoScreenCount,
    TruncatedScreen,
    NoSide,
    UnknownSide(u8),
    UnknownTag(u8),
}

impl DecodeError {
    /// The refusal in words.
    pub fn message(&self) -> (words: String)
        ensures
            words@ == match *self {
                DecodeError::EmptyMessage => "empty message"@,
                DecodeError::TooShort => "message too short"@,
                DecodeError::EmptyEvent => "empty event"@,
                DecodeError::ShortAxisEvent => "short axis event"@,
                DecodeError::ShortKeyEvent => "short key event"@,
                DecodeError::UnknownEvent(kind) => "unknown event kind "@ + text::decimal(
                    kind as int,
                ),
                DecodeError::NotText { index, wrong: Some(wrong) } => "invalid utf-8 sequence of "@
                    + text::decimal(wrong as int) + " bytes from index "@ + text::decimal(
                    index as int,
                ),
                DecodeError::NotText { index, wrong: None } =>
                    "incomplete utf-8 byte sequence from index "@ + text::decimal(index as int),
                DecodeError::NoMimeLength => "no mime length"@,
                DecodeError::TruncatedMime => "truncated mime type"@,
                DecodeError::NoScreenCount => "no screen count"@,
                DecodeError::TruncatedScreen => "truncated screen"@,
                DecodeError::NoSide => "no side"@,
                DecodeError::UnknownSide(side) => "unknown side "@ + text::decimal(side as int),
                DecodeError::UnknownTag(tag) => "unknown message tag "@ + text::decimal(tag as int),
            },
    {
        match self {
            DecodeError::EmptyMessage => "empty message".to_owned(),
            DecodeError::TooShort => "message too short".to_owned(),
            DecodeError::EmptyEvent => "empty event".to_owned(),
            DecodeError::ShortAxisEvent => "short axis event".to_owned(),
            DecodeError::ShortKeyEvent => "short key event".to_owned(),
            DecodeError::UnknownEvent(kind) => numbered("unknown event kind ", *kind as u64),
            DecodeError::NotText { index, wrong: Some(wrong) } => {
                let mut words = numbered("invalid utf-8 sequence of ", *wrong as u64);
                words.append(" bytes from index ");
                words.append(text::number(*index as u64).as_str());
                words
            },
            DecodeError::NotText { index, wrong: None } => numbered(
                "incomplete utf-8 byte sequence from index ",
                *index as u64,
            ),
            DecodeError::NoMimeLength => "no mime length".to_owned(),
            DecodeError::TruncatedMime => "truncated mime type".to_owned(),
            DecodeError::NoScreenCount => "no screen count".to_owned(),
            DecodeError::TruncatedScreen => "truncated screen".to_owned(),
            DecodeError::NoSide => "no side".to_owned(),
            DecodeError::UnknownSide(side) => numbered("unknown side ", *side as u64),
            DecodeError::UnknownTag(tag) => numbered("unknown message tag ", *tag as u64),
        }
    }
}

/// Words, then a number.
fn numbered(words: &str, n: u64) -> (text: String)
    ensures
        text@ == words@ + text::decimal(n as int),
{
    let mut text = words.to_owned();
    text.append(text::number(n).as_str());
    text
}

/// The number that stands for a side.
pub open spec fn side_code(side: Side) -> u8 {
    match side {
        Side::Left => 0,
        Side::Right => 1,
        Side::Top => 2,
        Side::Bottom => 3,
    }
}

/// An event's bytes: its kind, then its fields.
pub open spec fn event_bytes(event: Event) -> Seq<u8> {
    match event {
        Event::Pointer(PointerEvent::Motion { time, dx, dy }) => seq![0u8] + wire::le_u32(time)
            + wire::le_u64(dx) + wire::le_u64(dy),
        Event::Pointer(PointerEvent::Button { time, button, state }) => seq![1u8] + wire::le_u32(
            time,
        ) + wire::le_u32(button) + wire::le_u32(state),
        Event::Pointer(PointerEvent::Axis { time, axis, value }) => seq![2u8] + wire::le_u32(time)
            + seq![axis] + wire::le_u64(value),
        Event::Pointer(PointerEvent::AxisDiscrete120 { axis, value }) => seq![3u8, axis]
            + wire::le_i32(value),
        Event::Keyboard(KeyboardEvent::Key { time, key, state }) => seq![4u8] + wire::le_u32(time)
            + wire::le_u32(key) + seq![state],
        Event::Keyboard(KeyboardEvent::Modifiers { depressed, latched, locked, group }) => seq![5u8]
            + wire::le_u32(depressed) + wire::le_u32(latched) + wire::le_u32(locked)
            + wire::le_u32(group),
    }
}

/// The bytes of screens one after another.
pub open spec fn screens_bytes(list: Seq<ScreenModel>) -> Seq<u8>
    decreases list.len(),
{
    if list.len() == 0 {
        Seq::empty()
    } else {
        screens_bytes(list.drop_last()) + list.last().bytes()
    }
}

/// As many screens as a one-byte count can announce.
pub open spec fn counted(list: Seq<ScreenModel>) -> Seq<ScreenModel> {
    if list.len() <= 255 {
        list
    } else {
        list.take(255)
    }
}

impl MsgModel {
    /// A message's bytes: its tag, then what it carries.
    pub open spec fn bytes(self) -> Seq<u8> {
        match self {
            MsgModel::Ping(t) => seq![0u8] + wire::le_u64(t),
            MsgModel::Pong(t) => seq![1u8] + wire::le_u64(t),
            MsgModel::Enter => seq![2u8],
            MsgModel::Leave => seq![3u8],
            MsgModel::Input(event) => seq![4u8] + event_bytes(event),
            MsgModel::Clipboard(ClipModel::Text(text)) => seq![5u8] + encode_utf8(text),
            MsgModel::Screens(list) => seq![6u8, counted(list).len() as u8] + screens_bytes(
                counted(list),
            ),
            MsgModel::Arrange(side) => seq![7u8, side_code(side)],
            MsgModel::Clipboard(ClipModel::Image { mime, bytes }) => seq![8u8] + wire::short(
                encode_utf8(mime),
            ) + bytes,
        }
    }

    /// Whether the message's one-byte lengths can announce all that it carries.
    pub open spec fn fits(self) -> bool {
        match self {
            MsgModel::Clipboard(ClipModel::Image { mime, bytes }) => encode_utf8(mime).len() <= 255,
            MsgModel::Screens(list) => list.len() <= 255 && (forall|i: int|
                0 <= i < list.len() ==> (#[trigger] list[i]).fits()),
            _ => true,
        }
    }

    /// The channel a message travels on.
    pub open spec fn channel(self) -> Route {
        match self {
            MsgModel::Ping(_) | MsgModel::Pong(_) => Route::Datagram,
            MsgModel::Input(Event::Pointer(PointerEvent::Motion { .. })) => Route::Datagram,
            MsgModel::Clipboard(_) => Route::Bulk,
            _ => Route::Stream,
        }
    }
}

/// The event in these bytes, or why there is none.
pub open spec fn event_from(b: Seq<u8>) -> Result<Event, DecodeError> {
    if b.len() == 0 {
        Err(DecodeError::EmptyEvent)
    } else {
        let f = b.skip(1);
        if b[0] == 0 {
            if f.len() < 20 {
                Err(DecodeError::TooShort)
            } else {
                Ok(
                    Event::Pointer(
                        PointerEvent::Motion {
                            time: wire::u32_from(f, 0),
                            dx: wire::u64_from(f, 4),
                            dy: wire::u64_from(f, 12),
                        },
                    ),
                )
            }
        } else if b[0] == 1 {
            if f.len() < 12 {
                Err(DecodeError::TooShort)
            } else {
                Ok(
                    Event::Pointer(
                        PointerEvent::Button {
                            time: wire::u32_from(f, 0),
                            button: wire::u32_from(f, 4),
                            state: wire::u32_from(f, 8),
                        },
                    ),
                )
            }
        } else if b[0] == 2 {
            if f.len() == 4 {
                Err(DecodeError::ShortAxisEvent)
            } else if f.len() < 13 {
                Err(DecodeError::TooShort)
            } else {
                Ok(
                    Event::Pointer(
                        PointerEvent::Axis {
                            time: wire::u32_from(f, 0),
                            axis: f[4],
                            value: wire::u64_from(f, 5),
                        },
                    ),
                )
            }
        } else if b[0] == 3 {
            if f.len() == 0 {
                Err(DecodeError::ShortAxisEvent)
            } else if f.len() < 5 {
                Err(DecodeError::TooShort)
            } else {
                Ok(
                    Event::Pointer(
                        PointerEvent::AxisDiscrete120 { axis: f[0], value: wire::i32_from(f, 1) },
                    ),
                )
            }
        } else if b[0] == 4 {
            if f.len() < 8 {
                Err(DecodeError::TooShort)
            } else if f.len() == 8 {
                Err(DecodeError::ShortKeyEvent)
            } else {
                Ok(
                    Event::Keyboard(
                        KeyboardEvent::Key {
                            time: wire::u32_from(f, 0),
                            key: wire::u32_from(f, 4),
                            state: f[8],
                        },
                    ),
                )
            }
        } else if b[0] == 5 {
            if f.len() < 16 {
                Err(DecodeError::TooShort)
            } else {
                Ok(
                    Event::Keyboard(
                        KeyboardEvent::Modifiers {
                            depressed: wire::u32_from(f, 0),
                            latched: wire::u32_from(f, 4),
                            locked: wire::u32_from(f, 8),
                            group: wire::u32_from(f, 12),
                        },
                    ),
                )
            }
        } else {
            Err(DecodeError::UnknownEvent(b[0]))
        }
    }
}

/// The next `count` screens in these bytes, unless they end before that.
pub open spec fn screens_from(b: Seq<u8>, count: nat) -> Option<Seq<ScreenModel>>
    decreases count,
{
    if count == 0 {
        Some(Seq::empty())
    } else {
        match screens::screen_len(b) {
            None => None,
            Some(used) => match screens_from(b.skip(used), (count - 1) as nat) {
                None => None,
                Some(list) => Some(seq![screens::screen_at(b)] + list),
            },
        }
    }
}

/// Why these bytes are no text: where they stop being UTF-8.
pub open spec fn not_text(bytes: Seq<u8>) -> DecodeError {
    DecodeError::NotText {
        index: wire::valid_up_to(bytes) as usize,
        wrong: wire::wrong_bytes(bytes),
    }
}

/// The message in these bytes, or why there is none. What follows a complete
/// message is not looked at.
pub open spec fn msg_from(b: Seq<u8>) -> Result<MsgModel, DecodeError> {
    if b.len() == 0 {
        Err(DecodeError::EmptyMessage)
    } else {
        let rest = b.skip(1);
        if b[0] == 0 || b[0] == 1 {
            if rest.len() < 8 {
                Err(DecodeError::TooShort)
            } else if b[0] == 0 {
                Ok(MsgModel::Ping(wire::u64_from(rest, 0)))
            } else {
                Ok(MsgModel::Pong(wire::u64_from(rest, 0)))
            }
        } else if b[0] == 2 {
            Ok(MsgModel::Enter)
        } else if b[0] == 3 {
            Ok(MsgModel::Leave)
        } else if b[0] == 4 {
            match event_from(rest) {
                Ok(event) => Ok(MsgModel::Input(event)),
                Err(e) => Err(e),
            }
        } else if b[0] == 5 {
            if valid_utf8(rest) {
                Ok(MsgModel::Clipboard(ClipModel::Text(decode_utf8(rest))))
            } else {
                Err(not_text(rest))
            }
        } else if b[0] == 6 {
            if rest.len() == 0 {
                Err(DecodeError::NoScreenCount)
            } else {
                match screens_from(rest.skip(1), rest[0] as nat) {
                    Some(list) => Ok(MsgModel::Screens(list)),
                    None => Err(DecodeError::TruncatedScreen),
                }
            }
        } else if b[0] == 7 {
            if rest.len() == 0 {
                Err(DecodeError::NoSide)
            } else if rest[0] == 0 {
                Ok(MsgModel::Arrange(Side::Left))
            } else if rest[0] == 1 {
                Ok(MsgModel::Arrange(Side::Right))
            } else if rest[0] == 2 {
                Ok(MsgModel::Arrange(Side::Top))
            } else if rest[0] == 3 {
                Ok(MsgModel::Arrange(Side::Bottom))
            } else {
                Err(DecodeError::UnknownSide(rest[0]))
            }
        } else if b[0] == 8 {
            if rest.len() == 0 {
                Err(DecodeError::NoMimeLength)
            } else if rest.len() < 1 + rest[0] {
                Err(DecodeError::TruncatedMime)
            } else {
                let mime = rest.subrange(1, 1 + rest[0]);
                if valid_utf8(mime) {
                    Ok(
                        MsgModel::Clipboard(
                            ClipModel::Image {
                                mime: decode_utf8(mime),
                                bytes: rest.skip(1 + rest[0]),
                            },
                        ),
                    )
                } else {
                    Err(not_text(mime))
                }
            }
        } else {
            Err(DecodeError::UnknownTag(b[0]))
        }
    }
}

impl Msg {
    pub fn route(&self) -> (route: Route)
        ensures
            route == self@.channel(),
    {
        match self {
            Msg::Ping(_) | Msg::Pong(_) => Route::Datagram,
            Msg::Input(Event::Pointer(PointerEvent::Motion { .. })) => Route::Datagram,
            Msg::Clipboard(_) => Route::Bulk,
            _ => Route::Stream,
        }
    }

    pub fn encode(&self) -> (out: Vec<u8>)
        ensures
            out@ == self@.bytes(),
    {
        let mut out: Vec<u8> = Vec::with_capacity(24);
        match self {
            Msg::Ping(t) => {
                out.push(0);
                wire::put_u64(&mut out, *t);
            },
            Msg::Pong(t) => {
                out.push(1);
                wire::put_u64(&mut out, *t);
            },
            Msg::Enter => out.push(2),
            Msg::Leave => out.push(3),
            Msg::Input(event) => {
                out.push(4);
                encode_event(event, &mut out);
            },
            Msg::Clipboard(Clip::Text(text)) => {
                out.push(5);
                wire::put_bytes(&mut out, text.as_str().as_bytes());
            },
            Msg::Clipboard(Clip::Image { mime, bytes }) => {
                out.push(8);
                wire::put_short(&mut out, mime.as_str().as_bytes());
                wire::put_bytes(&mut out, bytes);
            },
            Msg::Arrange(side) => {
                out.push(7);
                out.push(
                    match side {
                        Side::Left => 0,
                        Side::Right => 1,
                        Side::Top => 2,
                        Side::Bottom => 3,
                    },
                );
            },
            Msg::Screens(list) => {
                out.push(6);
                let count: usize = if list.len() <= 255 { list.len() } else { 255 };
                out.push(count as u8);
                let ghost all = screens::models(list@);
                let ghost head = seq![6u8, count as u8];
                let mut i: usize = 0;
                assert(all.take(0) =~= Seq::empty());
                assert(out@ =~= head + screens_bytes(all.take(0)));
                while i < count
                    invariant
                        i <= count <= list@.len(),
                        all == screens::models(list@),
                        head == seq![6u8, count as u8],
                        out@ == head + screens_bytes(all.take(i as int)),
                    decreases count - i,
                {
                    let ghost before = all.take(i as int);
                    list[i].encode(&mut out);
                    i += 1;
                    proof {
                        assert(all.take(i as int).drop_last() =~= before);
                        assert(out@ =~= head + screens_bytes(all.take(i as int)));
                    }
                }
                assert(all.take(count as int) =~= counted(all));
            },
        }
        assert(out@ =~= self@.bytes());
        out
    }

    pub fn decode(bytes: &[u8]) -> (msg: Result<Msg, DecodeError>)
        ensures
            match msg {
                Ok(m) => msg_from(bytes@) == Ok::<MsgModel, DecodeError>(m@),
                Err(e) => msg_from(bytes@) == Err::<MsgModel, DecodeError>(e),
            },
    {
        if bytes.len() == 0 {
            return Err(DecodeError::EmptyMessage);
        }
        let tag = bytes[0];
        let rest = &bytes[1..bytes.len()];
        assert(rest@ =~= bytes@.skip(1));
        match tag {
            0 => match wire::u64_at(rest, 0) {
                Some(t) => Ok(Msg::Ping(t)),
                None => Err(DecodeError::TooShort),
            },
            1 => match wire::u64_at(rest, 0) {
                Some(t) => Ok(Msg::Pong(t)),
                None => Err(DecodeError::TooShort),
            },
            2 => Ok(Msg::Enter),
            3 => Ok(Msg::Leave),
            4 => match decode_event(rest) {
                Ok(event) => Ok(Msg::Input(event)),
                Err(e) => Err(e),
            },
            5 => match wire::text_from(rest) {
                Ok(text) => Ok(Msg::Clipboard(Clip::Text(text))),
                Err((index, wrong)) => Err(DecodeError::NotText { index, wrong }),
            },
            6 => {
                if rest.len() == 0 {
                    return Err(DecodeError::NoScreenCount);
                }
                match decode_screens(&rest[1..rest.len()], rest[0]) {
                    Some(list) => {
                        assert(rest@.subrange(1, rest@.len() as int) =~= rest@.skip(1));
                        Ok(Msg::Screens(list))
                    },
                    None => {
                        assert(rest@.subrange(1, rest@.len() as int) =~= rest@.skip(1));
                        Err(DecodeError::TruncatedScreen)
                    },
                }
            },
            7 => {
                if rest.len() == 0 {
                    return Err(DecodeError::NoSide);
                }
                match rest[0] {
                    0 => Ok(Msg::Arrange(Side::Left)),
                    1 => Ok(Msg::Arrange(Side::Right)),
                    2 => Ok(Msg::Arrange(Side::Top)),
                    3 => Ok(Msg::Arrange(Side::Bottom)),
                    other => Err(DecodeError::UnknownSide(other)),
                }
            },
            8 => {
                if rest.len() == 0 {
                    return Err(DecodeError::NoMimeLength);
                }
                let len: usize = rest[0] as usize;
                if rest.len() < 1 + len {
                    return Err(DecodeError::TruncatedMime);
                }
                match wire::text_from(&rest[1..1 + len]) {
                    Ok(mime) => {
                        let image = vstd::slice::slice_to_vec(&rest[1 + len..rest.len()]);
                        assert(image@ =~= rest@.skip(1 + rest@[0]));
                        Ok(Msg::Clipboard(Clip::Image { mime, bytes: image }))
                    },
                    Err((index, wrong)) => Err(DecodeError::NotText { index, wrong }),
                }
            },
            _ => Err(DecodeError::UnknownTag(tag)),
        }
    }
}

/// Reads `count` screens, one after another.
fn decode_screens(b: &[u8], count: u8) -> (list: Option<Vec<Screen>>)
    ensures
        match list {
            Some(l) => screens_from(b@, count as nat) == Some(screens::models(l@)),
            None => screens_from(b@, count as nat) is None,
        },
{
    let mut list: Vec<Screen> = Vec::new();
    let mut at: usize = 0;
    let mut left: u8 = count;
    let ghost whole = screens_from(b@, count as nat);
    assert(b@.skip(0) =~= b@);
    assert(whole is Some ==> whole->0 =~= screens::models(list@) + whole->0);
    while left > 0
        invariant
            at <= b@.len(),
            whole == screens_from(b@, count as nat),
            whole is Some <==> screens_from(b@.skip(at as int), left as nat) is Some,
            whole is Some ==> whole->0 == screens::models(list@) + screens_from(
                b@.skip(at as int),
                left as nat,
            )->0,
        decreases left,
    {
        let rest = &b[at..b.len()];
        assert(rest@ =~= b@.skip(at as int));
        match Screen::decode(rest) {
            Some((screen, used)) => {
                let ghost before = screens::models(list@);
                let ghost tail = screens_from(b@.skip(at + used), (left - 1) as nat);
                assert(rest@.skip(used as int) =~= b@.skip(at + used));
                let ghost model = screen@;
                list.push(screen);
                at += used;
                left -= 1;
                proof {
                    assert(screens::models(list@) =~= before.push(model));
                    if whole is Some {
                        assert(before + (seq![model] + tail->0) =~= before.push(model) + tail->0);
                    }
                }
            },
            None => return None,
        }
    }
    assert(whole->0 =~= screens::models(list@));
    Some(list)
}

/// Appends an event: its kind, then its fields.
pub fn encode_event(event: &Event, out: &mut Vec<u8>)
    ensures
        final(out)@ == old(out)@ + event_bytes(*event),
{
    match event {
        Event::Pointer(PointerEvent::Motion { time, dx, dy }) => {
            out.push(0);
            wire::put_u32(out, *time);
            wire::put_u64(out, *dx);
            wire::put_u64(out, *dy);
        },
        Event::Pointer(PointerEvent::Button { time, button, state }) => {
            out.push(1);
            wire::put_u32(out, *time);
            wire::put_u32(out, *button);
            wire::put_u32(out, *state);
        },
        Event::Pointer(PointerEvent::Axis { time, axis, value }) => {
            out.push(2);
            wire::put_u32(out, *time);
            out.push(*axis);
            wire::put_u64(out, *value);
        },
        Event::Pointer(PointerEvent::AxisDiscrete120 { axis, value }) => {
            out.push(3);
            out.push(*axis);
            wire::put_i32(out, *value);
        },
        Event::Keyboard(KeyboardEvent::Key { time, key, state }) => {
            out.push(4);
            wire::put_u32(out, *time);
            wire::put_u32(out, *key);
            out.push(*state);
        },
        Event::Keyboard(KeyboardEvent::Modifiers { depressed, latched, locked, group }) => {
            out.push(5);
            wire::put_u32(out, *depressed);
            wire::put_u32(out, *latched);
            wire::put_u32(out, *locked);
            wire::put_u32(out, *group);
        },
    }
    assert(out@ =~= old(out)@ + event_bytes(*event));
}

/// Reads the event at the front of these bytes.
pub fn decode_event(b: &[u8]) -> (event: Result<Event, DecodeError>)
    ensures
        event == event_from(b@),
{
    if b.len() == 0 {
        return Err(DecodeError::EmptyEvent);
    }
    let kind = b[0];
    let f = &b[1..b.len()];
    assert(f@ =~= b@.skip(1));
    match kind {
        0 => match (wire::u32_at(f, 0), wire::u64_at(f, 4), wire::u64_at(f, 12)) {
            (Some(time), Some(dx), Some(dy)) => Ok(
                Event::Pointer(PointerEvent::Motion { time, dx, dy }),
            ),
            _ => Err(DecodeError::TooShort),
        },
        1 => match (wire::u32_at(f, 0), wire::u32_at(f, 4), wire::u32_at(f, 8)) {
            (Some(time), Some(button), Some(state)) => Ok(
                Event::Pointer(PointerEvent::Button { time, button, state }),
            ),
            _ => Err(DecodeError::TooShort),
        },
        2 => match wire::u32_at(f, 0) {
            None => Err(DecodeError::TooShort),
            Some(time) => {
                if f.len() < 5 {
                    return Err(DecodeError::ShortAxisEvent);
                }
                let axis = f[4];
                match wire::u64_at(f, 5) {
                    Some(value) => Ok(Event::Pointer(PointerEvent::Axis { time, axis, value })),
                    None => Err(DecodeError::TooShort),
                }
            },
        },
        3 => {
            if f.len() == 0 {
                return Err(DecodeError::ShortAxisEvent);
            }
            let axis = f[0];
            match wire::i32_at(f, 1) {
                Some(value) => Ok(Event::Pointer(PointerEvent::AxisDiscrete120 { axis, value })),
                None => Err(DecodeError::TooShort),
            }
        },
        4 => match (wire::u32_at(f, 0), wire::u32_at(f, 4)) {
            (Some(time), Some(key)) => {
                if f.len() < 9 {
                    return Err(DecodeError::ShortKeyEvent);
                }
                Ok(Event::Keyboard(KeyboardEvent::Key { time, key, state: f[8] }))
            },
            _ => Err(DecodeError::TooShort),
        },
        5 => match (
            wire::u32_at(f, 0),
            wire::u32_at(f, 4),
            wire::u32_at(f, 8),
            wire::u32_at(f, 12),
        ) {
            (Some(depressed), Some(latched), Some(locked), Some(group)) => Ok(
                Event::Keyboard(KeyboardEvent::Modifiers { depressed, latched, locked, group }),
            ),
            _ => Err(DecodeError::TooShort),
        },
        _ => Err(DecodeError::UnknownEvent(kind)),
    }
}

/// The same bytes, taken from the front instead of from the back.
proof fn lemma_screens_bytes_from_front(list: Seq<ScreenModel>)
    requires
        list.len() > 0,
    ensures
        screens_bytes(list) == list[0].bytes() + screens_bytes(list.drop_first()),
    decreases list.len(),
{
    if list.len() == 1 {
        assert(list.drop_last() =~= Seq::empty());
        assert(list.drop_first() =~= Seq::empty());
        assert(screens_bytes(list) =~= list[0].bytes() + screens_bytes(list.drop_first()));
    } else {
        lemma_screens_bytes_from_front(list.drop_last());
        assert(list.drop_first().drop_last() =~= list.drop_last().drop_first());
        assert(screens_bytes(list) =~= list[0].bytes() + (screens_bytes(
            list.drop_last().drop_first(),
        ) + list.last().bytes()));
    }
}

/// Reading the first screen, then the others.
proof fn lemma_screens_step(b: Seq<u8>, used: int, others: Seq<ScreenModel>)
    requires
        screens::screen_len(b) == Some(used),
        screens_from(b.skip(used), others.len()) == Some(others),
    ensures
        screens_from(b, others.len() + 1) == Some(seq![screens::screen_at(b)] + others),
{
}

/// Screens read back one after another, whatever follows them.
proof fn lemma_screens_round_trip(list: Seq<ScreenModel>, rest: Seq<u8>)
    requires
        forall|i: int| 0 <= i < list.len() ==> (#[trigger] list[i]).fits(),
    ensures
        screens_from(screens_bytes(list) + rest, list.len()) == Some(list),
    decreases list.len(),
{
    if list.len() == 0 {
        assert(list =~= Seq::empty());
    } else {
        let b = screens_bytes(list) + rest;
        let others = list.drop_first();
        let after = screens_bytes(others) + rest;
        let head = list[0].bytes();
        assert(b == head + after) by {
            lemma_screens_bytes_from_front(list);
            assert(b =~= head + after);
        }
        assert(screens_from(after, others.len()) == Some(others)) by {
            assert forall|i: int| 0 <= i < others.len() implies (#[trigger] others[i]).fits() by {
                assert(others[i] == list[i + 1]);
            }
            lemma_screens_round_trip(others, rest);
        }
        assert(b.skip(head.len() as int) =~= after);
        screens::law_screens_survive_the_wire(list[0], after);
        lemma_screens_step(b, head.len() as int, others);
        assert(seq![list[0]] + others =~= list);
    }
}

/// Screens whose bytes break off do not read back.
proof fn lemma_screens_truncated(list: Seq<ScreenModel>, len: int)
    requires
        0 <= len < screens_bytes(list).len(),
    ensures
        screens_from(screens_bytes(list).take(len), list.len()) is None,
    decreases list.len(),
{
    if list.len() > 0 {
        lemma_screens_bytes_from_front(list);
        let head = list[0].bytes();
        let tail = screens_bytes(list.drop_first());
        let b = screens_bytes(list).take(len);
        screens::lemma_screen_len(list[0], Seq::empty());
        if len < head.len() {
            assert(b =~= head.take(len));
            screens::law_truncated_screens_are_refused(list[0], len);
        } else {
            let left = tail.take(len - head.len());
            assert(b =~= head + left);
            screens::lemma_screen_len(list[0], left);
            assert(b.skip(head.len() as int) =~= left);
            lemma_screens_truncated(list.drop_first(), len - head.len());
        }
    }
}

/// Three fields behind a kind, seen from each of the fields.
proof fn lemma_three_fields(kind: u8, x: Seq<u8>, y: Seq<u8>, z: Seq<u8>)
    ensures
        (seq![kind] + x + y + z).skip(1) == Seq::<u8>::empty() + x + (y + z),
        (seq![kind] + x + y + z).skip(1) == x + y + z,
        (seq![kind] + x + y + z).skip(1) == (x + y) + z + Seq::<u8>::empty(),
{
    let f = (seq![kind] + x + y + z).skip(1);
    assert(f =~= Seq::<u8>::empty() + x + (y + z));
    assert(f =~= x + y + z);
    assert(f =~= (x + y) + z + Seq::<u8>::empty());
}

/// Four fields behind a kind, seen from each of the fields.
proof fn lemma_four_fields(kind: u8, w: Seq<u8>, x: Seq<u8>, y: Seq<u8>, z: Seq<u8>)
    ensures
        (seq![kind] + w + x + y + z).skip(1) == Seq::<u8>::empty() + w + (x + y + z),
        (seq![kind] + w + x + y + z).skip(1) == w + x + (y + z),
        (seq![kind] + w + x + y + z).skip(1) == (w + x) + y + z,
        (seq![kind] + w + x + y + z).skip(1) == (w + x + y) + z + Seq::<u8>::empty(),
{
    let f = (seq![kind] + w + x + y + z).skip(1);
    assert(f =~= Seq::<u8>::empty() + w + (x + y + z));
    assert(f =~= w + x + (y + z));
    assert(f =~= (w + x) + y + z);
    assert(f =~= (w + x + y) + z + Seq::<u8>::empty());
}

/// A motion event reads back from its own bytes.
proof fn lemma_motion_round_trip(time: u32, dx: u64, dy: u64)
    ensures
        ({
            let event = Event::Pointer(PointerEvent::Motion { time, dx, dy });
            event_from(event_bytes(event)) == Ok::<Event, DecodeError>(event)
        }),
{
    let e = Seq::<u8>::empty();
    let (t, x, y) = (wire::le_u32(time), wire::le_u64(dx), wire::le_u64(dy));
    lemma_three_fields(0, t, x, y);
    wire::lemma_u32_round_trip(time, e, x + y);
    wire::lemma_u64_round_trip(dx, t, y);
    wire::lemma_u64_round_trip(dy, t + x, e);
}

/// A button event reads back from its own bytes.
proof fn lemma_button_round_trip(time: u32, button: u32, state: u32)
    ensures
        ({
            let event = Event::Pointer(PointerEvent::Button { time, button, state });
            event_from(event_bytes(event)) == Ok::<Event, DecodeError>(event)
        }),
{
    let e = Seq::<u8>::empty();
    let (t, x, y) = (wire::le_u32(time), wire::le_u32(button), wire::le_u32(state));
    lemma_three_fields(1, t, x, y);
    wire::lemma_u32_round_trip(time, e, x + y);
    wire::lemma_u32_round_trip(button, t, y);
    wire::lemma_u32_round_trip(state, t + x, e);
}

/// A scroll event reads back from its own bytes.
proof fn lemma_axis_round_trip(time: u32, axis: u8, value: u64)
    ensures
        ({
            let event = Event::Pointer(PointerEvent::Axis { time, axis, value });
            event_from(event_bytes(event)) == Ok::<Event, DecodeError>(event)
        }),
{
    let e = Seq::<u8>::empty();
    let (t, x, y) = (wire::le_u32(time), seq![axis], wire::le_u64(value));
    lemma_three_fields(2, t, x, y);
    wire::lemma_u32_round_trip(time, e, x + y);
    wire::lemma_u64_round_trip(value, t + x, e);
}

/// A wheel event reads back from its own bytes.
proof fn lemma_wheel_round_trip(axis: u8, value: i32)
    ensures
        ({
            let event = Event::Pointer(PointerEvent::AxisDiscrete120 { axis, value });
            event_from(event_bytes(event)) == Ok::<Event, DecodeError>(event)
        }),
{
    let e = Seq::<u8>::empty();
    let f = event_bytes(Event::Pointer(PointerEvent::AxisDiscrete120 { axis, value })).skip(1);
    assert(f =~= seq![axis] + wire::le_u32(wire::twos(value)) + e);
    wire::lemma_u32_round_trip(wire::twos(value), seq![axis], e);
    wire::lemma_twos_round_trip(value);
}

/// A key event reads back from its own bytes.
proof fn lemma_key_round_trip(time: u32, key: u32, state: u8)
    ensures
        ({
            let event = Event::Keyboard(KeyboardEvent::Key { time, key, state });
            event_from(event_bytes(event)) == Ok::<Event, DecodeError>(event)
        }),
{
    let e = Seq::<u8>::empty();
    let (t, x, y) = (wire::le_u32(time), wire::le_u32(key), seq![state]);
    lemma_three_fields(4, t, x, y);
    wire::lemma_u32_round_trip(time, e, x + y);
    wire::lemma_u32_round_trip(key, t, y);
}

/// A modifiers event reads back from its own bytes.
proof fn lemma_modifiers_round_trip(depressed: u32, latched: u32, locked: u32, group: u32)
    ensures
        ({
            let event = Event::Keyboard(
                KeyboardEvent::Modifiers { depressed, latched, locked, group },
            );
            event_from(event_bytes(event)) == Ok::<Event, DecodeError>(event)
        }),
{
    let e = Seq::<u8>::empty();
    let (w, x, y, z) = (
        wire::le_u32(depressed),
        wire::le_u32(latched),
        wire::le_u32(locked),
        wire::le_u32(group),
    );
    lemma_four_fields(5, w, x, y, z);
    wire::lemma_u32_round_trip(depressed, e, x + y + z);
    wire::lemma_u32_round_trip(latched, w, y + z);
    wire::lemma_u32_round_trip(locked, w + x, z);
    wire::lemma_u32_round_trip(group, w + x + y, e);
}

/// An event reads back from its own bytes.
proof fn lemma_event_round_trip(event: Event)
    ensures
        event_from(event_bytes(event)) == Ok::<Event, DecodeError>(event),
{
    match event {
        Event::Pointer(PointerEvent::Motion { time, dx, dy }) => {
            lemma_motion_round_trip(time, dx, dy);
        },
        Event::Pointer(PointerEvent::Button { time, button, state }) => {
            lemma_button_round_trip(time, button, state);
        },
        Event::Pointer(PointerEvent::Axis { time, axis, value }) => {
            lemma_axis_round_trip(time, axis, value);
        },
        Event::Pointer(PointerEvent::AxisDiscrete120 { axis, value }) => {
            lemma_wheel_round_trip(axis, value);
        },
        Event::Keyboard(KeyboardEvent::Key { time, key, state }) => {
            lemma_key_round_trip(time, key, state);
        },
        Event::Keyboard(KeyboardEvent::Modifiers { depressed, latched, locked, group }) => {
            lemma_modifiers_round_trip(depressed, latched, locked, group);
        },
    }
}

/// How many bytes an event of this kind takes.
spec fn event_len(kind: u8) -> int {
    if kind == 0 {
        21
    } else if kind == 1 {
        13
    } else if kind == 2 {
        14
    } else if kind == 3 {
        6
    } else if kind == 4 {
        10
    } else {
        17
    }
}

/// Fewer bytes than an event of their kind takes are no event.
proof fn lemma_short_event(b: Seq<u8>)
    requires
        b.len() == 0 || b.len() < event_len(b[0]),
    ensures
        event_from(b) is Err,
{
}

/// An event's bytes are as many as its kind takes.
proof fn lemma_event_len(event: Event)
    ensures
        event_bytes(event).len() == event_len(event_bytes(event)[0]),
{
}

/// An event whose bytes break off does not read back.
proof fn lemma_event_truncated(event: Event, len: int)
    requires
        0 <= len < event_bytes(event).len(),
    ensures
        event_from(event_bytes(event).take(len)) is Err,
{
    let b = event_bytes(event);
    lemma_event_len(event);
    lemma_short_event(b.take(len));
}

/// A ping or a pong reads back from its own bytes.
proof fn lemma_probe_round_trip(msg: MsgModel)
    requires
        msg is Ping || msg is Pong,
    ensures
        msg_from(msg.bytes()) == Ok::<MsgModel, DecodeError>(msg),
{
    let e = Seq::<u8>::empty();
    let t = match msg {
        MsgModel::Ping(t) | MsgModel::Pong(t) => t,
        _ => 0,
    };
    assert(msg.bytes().skip(1) =~= e + wire::le_u64(t) + e);
    wire::lemma_u64_round_trip(t, e, e);
}

/// Screens read back from their own bytes.
proof fn lemma_screens_message_round_trip(list: Seq<ScreenModel>)
    requires
        MsgModel::Screens(list).fits(),
    ensures
        msg_from(MsgModel::Screens(list).bytes()) == Ok::<MsgModel, DecodeError>(
            MsgModel::Screens(list),
        ),
{
    let e = Seq::<u8>::empty();
    let rest = MsgModel::Screens(list).bytes().skip(1);
    assert(rest.skip(1) =~= screens_bytes(list) + e);
    lemma_screens_round_trip(list, e);
}

/// A clip reads back from its own bytes.
proof fn lemma_clip_round_trip(clip: ClipModel)
    requires
        MsgModel::Clipboard(clip).fits(),
    ensures
        msg_from(MsgModel::Clipboard(clip).bytes()) == Ok::<MsgModel, DecodeError>(
            MsgModel::Clipboard(clip),
        ),
{
    let rest = MsgModel::Clipboard(clip).bytes().skip(1);
    match clip {
        ClipModel::Text(text) => {
            assert(rest =~= encode_utf8(text));
            encode_utf8_valid_utf8(text);
            encode_utf8_decode_utf8(text);
        },
        ClipModel::Image { mime, bytes } => {
            let name = encode_utf8(mime);
            assert(rest =~= wire::short(name) + bytes);
            assert(rest.subrange(1, 1 + rest[0]) =~= name);
            assert(rest.skip(1 + rest[0]) =~= bytes);
            encode_utf8_valid_utf8(mime);
            encode_utf8_decode_utf8(mime);
        },
    }
}

/// Every message survives the wire: what one machine encodes, the other decodes
/// to the same message. The one-byte lengths have to be able to announce what
/// the message carries: at most 255 screens, and at most 255 bytes for a
/// screen's name or an image's type.
pub proof fn law_every_message_survives_the_wire(msg: MsgModel)
    requires
        msg.fits(),
    ensures
        msg_from(msg.bytes()) == Ok::<MsgModel, DecodeError>(msg),
{
    match msg {
        MsgModel::Ping(_) | MsgModel::Pong(_) => lemma_probe_round_trip(msg),
        MsgModel::Enter | MsgModel::Leave | MsgModel::Arrange(_) => {},
        MsgModel::Input(event) => {
            assert(msg.bytes().skip(1) =~= event_bytes(event));
            lemma_event_round_trip(event);
        },
        MsgModel::Clipboard(clip) => lemma_clip_round_trip(clip),
        MsgModel::Screens(list) => lemma_screens_message_round_trip(list),
    }
}

/// Truncated messages are refused: no proper prefix of a message's bytes reads
/// as a message. A clipboard is the exception, for it runs to the end of
/// whatever it came in.
pub proof fn law_truncated_messages_are_refused(msg: MsgModel, len: int)
    requires
        !(msg is Clipboard),
        0 <= len < msg.bytes().len(),
    ensures
        msg_from(msg.bytes().take(len)) is Err,
{
    let b = msg.bytes().take(len);
    if len > 0 {
        match msg {
            MsgModel::Screens(list) => {
                if len > 1 {
                    let all = screens_bytes(counted(list));
                    assert(b.skip(1).skip(1) =~= all.take(len - 2));
                    assert(b.skip(1)[0] == counted(list).len());
                    lemma_screens_truncated(counted(list), len - 2);
                }
            },
            MsgModel::Input(event) => {
                assert(b.skip(1) =~= event_bytes(event).take(len - 1));
                lemma_event_truncated(event, len - 1);
            },
            _ => {},
        }
    }
}

/// The right channel for every message. What a newer one makes worthless may be
/// lost: probes, their echoes and motion. What may be large goes apart: the
/// clipboard. Everything else must arrive, in order: buttons, scrolling, keys and
/// modifiers, who has the cursor, where a peer sits and what it has attached.
pub proof fn law_every_message_has_its_channel(msg: MsgModel)
    ensures
        msg.channel() == Route::Datagram <==> {
            ||| msg is Ping
            ||| msg is Pong
            ||| msg matches MsgModel::Input(Event::Pointer(event)) && event is Motion
        },
        msg.channel() == Route::Bulk <==> msg is Clipboard,
        msg is Enter || msg is Leave || msg is Arrange || msg is Screens ==> msg.channel()
            == Route::Stream,
        msg matches MsgModel::Input(Event::Keyboard(_)) ==> msg.channel() == Route::Stream,
        msg matches MsgModel::Input(Event::Pointer(event)) && !(event is Motion) ==> msg.channel()
            == Route::Stream,
{
}

/// Where the fields of an event stand: its kind first, and then its numbers in
/// their order, each with its lowest byte first.
pub proof fn law_where_the_fields_of_an_event_stand(event: Event)
    ensures
        ({
            let b = event_bytes(event);
            let n = |from: int, to: int| wire::little(b.subrange(from, to));
            match event {
                Event::Pointer(PointerEvent::Motion { time, dx, dy }) => b.len() == 21 && b[0] == 0
                    && n(1, 5) == time && n(5, 13) == dx && n(13, 21) == dy,
                Event::Pointer(PointerEvent::Button { time, button, state }) => b.len() == 13
                    && b[0] == 1 && n(1, 5) == time && n(5, 9) == button && n(9, 13) == state,
                Event::Pointer(PointerEvent::Axis { time, axis, value }) => b.len() == 14 && b[0]
                    == 2 && n(1, 5) == time && b[5] == axis && n(6, 14) == value,
                Event::Pointer(PointerEvent::AxisDiscrete120 { axis, value }) => b.len() == 6
                    && b[0] == 3 && b[1] == axis && n(2, 6) == value as int % 0x1_0000_0000,
                Event::Keyboard(KeyboardEvent::Key { time, key, state }) => b.len() == 10 && b[0]
                    == 4 && n(1, 5) == time && n(5, 9) == key && b[9] == state,
                Event::Keyboard(
                    KeyboardEvent::Modifiers { depressed, latched, locked, group },
                ) => b.len() == 17 && b[0] == 5 && n(1, 5) == depressed && n(5, 9) == latched && n(
                    9,
                    13,
                ) == locked && n(13, 17) == group,
            }
        }),
{
    let b = event_bytes(event);
    match event {
        Event::Pointer(PointerEvent::Motion { time, dx, dy }) => {
            wire::law_numbers_are_written_lowest_byte_first(time, dx, 0);
            wire::law_numbers_are_written_lowest_byte_first(time, dy, 0);
            assert(b.subrange(1, 5) =~= wire::le_u32(time));
            assert(b.subrange(5, 13) =~= wire::le_u64(dx));
            assert(b.subrange(13, 21) =~= wire::le_u64(dy));
        },
        Event::Pointer(PointerEvent::Button { time, button, state }) => {
            assert(b.take(13) =~= seq![b[0]] + wire::le_u32(time) + wire::le_u32(button)
                + wire::le_u32(state));
            lemma_three_numbers(b, time, button, state);
        },
        Event::Pointer(PointerEvent::Axis { time, axis, value }) => {
            wire::law_numbers_are_written_lowest_byte_first(time, value, 0);
            assert(b.subrange(1, 5) =~= wire::le_u32(time));
            assert(b.subrange(6, 14) =~= wire::le_u64(value));
        },
        Event::Pointer(PointerEvent::AxisDiscrete120 { axis, value }) => {
            wire::law_numbers_are_written_lowest_byte_first(0, 0, value);
            assert(b.subrange(2, 6) =~= wire::le_i32(value));
        },
        Event::Keyboard(KeyboardEvent::Key { time, key, state }) => {
            wire::law_numbers_are_written_lowest_byte_first(time, 0, 0);
            wire::law_numbers_are_written_lowest_byte_first(key, 0, 0);
            assert(b.subrange(1, 5) =~= wire::le_u32(time));
            assert(b.subrange(5, 9) =~= wire::le_u32(key));
        },
        Event::Keyboard(KeyboardEvent::Modifiers { depressed, latched, locked, group }) => {
            assert(b.take(13) =~= seq![b[0]] + wire::le_u32(depressed) + wire::le_u32(latched)
                + wire::le_u32(locked));
            lemma_three_numbers(b, depressed, latched, locked);
            wire::law_numbers_are_written_lowest_byte_first(group, 0, 0);
            assert(b.subrange(13, 17) =~= wire::le_u32(group));
        },
    }
}

/// Three numbers of four bytes behind a kind.
proof fn lemma_three_numbers(b: Seq<u8>, x: u32, y: u32, z: u32)
    requires
        b.len() >= 13,
        b.take(13) == seq![b[0]] + wire::le_u32(x) + wire::le_u32(y) + wire::le_u32(z),
    ensures
        wire::little(b.subrange(1, 5)) == x,
        wire::little(b.subrange(5, 9)) == y,
        wire::little(b.subrange(9, 13)) == z,
{
    let c = b.take(13);
    wire::law_numbers_are_written_lowest_byte_first(x, 0, 0);
    wire::law_numbers_are_written_lowest_byte_first(y, 0, 0);
    wire::law_numbers_are_written_lowest_byte_first(z, 0, 0);
    assert(b.subrange(1, 5) =~= c.subrange(1, 5));
    assert(b.subrange(5, 9) =~= c.subrange(5, 9));
    assert(b.subrange(9, 13) =~= c.subrange(9, 13));
    assert(c.subrange(1, 5) =~= wire::le_u32(x));
    assert(c.subrange(5, 9) =~= wire::le_u32(y));
    assert(c.subrange(9, 13) =~= wire::le_u32(z));
}

/// Each kind of message has a tag of its own, and what it carries stands behind
/// it.
pub proof fn law_what_stands_behind_a_tag(msg: MsgModel)
    ensures
        ({
            let b = msg.bytes();
            let rest = b.skip(1);
            &&& b.len() > 0
            &&& match msg {
                MsgModel::Ping(t) => b[0] == 0 && rest.len() == 8 && wire::little(rest) == t,
                MsgModel::Pong(t) => b[0] == 1 && rest.len() == 8 && wire::little(rest) == t,
                MsgModel::Enter => b[0] == 2 && rest.len() == 0,
                MsgModel::Leave => b[0] == 3 && rest.len() == 0,
                MsgModel::Input(event) => b[0] == 4 && rest == event_bytes(event),
                MsgModel::Clipboard(ClipModel::Text(text)) => b[0] == 5 && rest == encode_utf8(
                    text,
                ),
                MsgModel::Screens(list) => b[0] == 6 && rest.len() > 0 && rest[0] == if list.len()
                    <= 255 {
                    list.len() as int
                } else {
                    255
                },
                MsgModel::Arrange(side) => b[0] == 7 && rest.len() == 1 && rest[0] == match side {
                    Side::Left => 0int,
                    Side::Right => 1,
                    Side::Top => 2,
                    Side::Bottom => 3,
                },
                MsgModel::Clipboard(ClipModel::Image { mime, bytes }) => b[0] == 8 && rest
                    == wire::short(encode_utf8(mime)) + bytes,
            }
        }),
{
    let rest = msg.bytes().skip(1);
    match msg {
        MsgModel::Ping(t) | MsgModel::Pong(t) => {
            wire::law_numbers_are_written_lowest_byte_first(0, t, 0);
            assert(rest =~= wire::le_u64(t));
        },
        MsgModel::Input(event) => assert(rest =~= event_bytes(event)),
        MsgModel::Clipboard(ClipModel::Text(text)) => assert(rest =~= encode_utf8(text)),
        MsgModel::Clipboard(ClipModel::Image { mime, bytes }) => assert(rest =~= wire::short(
            encode_utf8(mime),
        ) + bytes),
        _ => {},
    }
}

/// Screens stand one after another behind their number; those that a byte cannot
/// count are left out, from the end.
pub proof fn law_screens_stand_one_after_another(list: Seq<ScreenModel>, screen: ScreenModel)
    ensures
        list.len() == 0 ==> MsgModel::Screens(list).bytes().len() == 2,
        list.len() < 255 ==> MsgModel::Screens(list.push(screen)).bytes().skip(2)
            == MsgModel::Screens(list).bytes().skip(2) + screen.bytes(),
        list.len() > 255 ==> MsgModel::Screens(list).bytes() == MsgModel::Screens(
            list.take(255),
        ).bytes(),
{
    if list.len() < 255 {
        assert(list.push(screen).drop_last() =~= list);
        assert(MsgModel::Screens(list).bytes().skip(2) =~= screens_bytes(list));
        assert(MsgModel::Screens(list.push(screen)).bytes().skip(2) =~= screens_bytes(
            list.push(screen),
        ));
    }
}

/// An event in front reads the same whatever follows it.
proof fn lemma_event_in_front(b: Seq<u8>, rest: Seq<u8>)
    requires
        event_from(b) is Ok,
    ensures
        event_from(b + rest) == event_from(b),
{
    let f = b.skip(1);
    assert((b + rest).skip(1) =~= f + rest);
    assert((b + rest)[0] == b[0]);
    if f.len() >= 4 {
        wire::lemma_numbers_in_front(f, rest, 0);
    }
    if f.len() >= 5 {
        wire::lemma_numbers_in_front(f, rest, 1);
    }
    if f.len() >= 8 {
        wire::lemma_numbers_in_front(f, rest, 4);
    }
    if f.len() >= 12 {
        wire::lemma_numbers_in_front(f, rest, 8);
    }
    if f.len() >= 13 {
        wire::lemma_numbers_in_front(f, rest, 5);
    }
    if f.len() >= 16 {
        wire::lemma_numbers_in_front(f, rest, 12);
    }
}

/// Screens in front read the same whatever follows them.
proof fn lemma_screens_in_front(b: Seq<u8>, rest: Seq<u8>, count: nat)
    requires
        screens_from(b, count) is Some,
    ensures
        screens_from(b + rest, count) == screens_from(b, count),
    decreases count,
{
    if count > 0 {
        let used = screens::screen_len(b)->0;
        let whole = b + rest;
        assert(whole[16] == b[16]);
        assert(whole.subrange(17, 17 + b[16]) =~= b.subrange(17, 17 + b[16]));
        wire::lemma_numbers_in_front(b, rest, 0);
        wire::lemma_numbers_in_front(b, rest, 4);
        wire::lemma_numbers_in_front(b, rest, 8);
        wire::lemma_numbers_in_front(b, rest, 12);
        assert(whole.skip(used) =~= b.skip(used) + rest);
        lemma_screens_in_front(b.skip(used), rest, (count - 1) as nat);
    }
}

/// What follows a complete message is not looked at. A clipboard is the
/// exception, for it runs to the end of whatever it came in.
pub proof fn law_what_follows_a_message_is_not_looked_at(b: Seq<u8>, rest: Seq<u8>)
    requires
        msg_from(b) matches Ok(msg) && !(msg is Clipboard),
    ensures
        msg_from(b + rest) == msg_from(b),
{
    let tail = b.skip(1);
    assert((b + rest).skip(1) =~= tail + rest);
    assert((b + rest)[0] == b[0]);
    if b[0] <= 1 {
        wire::lemma_numbers_in_front(tail, rest, 0);
    } else if b[0] == 4 {
        lemma_event_in_front(tail, rest);
    } else if b[0] == 6 {
        assert((tail + rest).skip(1) =~= tail.skip(1) + rest);
        lemma_screens_in_front(tail.skip(1), rest, tail[0] as nat);
    }
}

/// An event's bytes are the ones that it was read from.
proof fn lemma_event_was_said(b: Seq<u8>)
    ensures
        event_from(b) matches Ok(event) ==> {
            let n = event_bytes(event).len() as int;
            n <= b.len() && b.take(n) == event_bytes(event)
        },
{
    if event_from(b) is Ok {
        let event = event_from(b)->Ok_0;
        let f = b.skip(1);
        let said = event_bytes(event);
        let n = said.len() as int;
        match event {
            Event::Pointer(PointerEvent::Motion { time, dx, dy }) => {
                wire::lemma_u32_bytes(f, 0);
                wire::lemma_u64_bytes(f, 4);
                wire::lemma_u64_bytes(f, 12);
                assert(b.take(n) =~= seq![b[0]] + f.subrange(0, 4) + f.subrange(4, 12)
                    + f.subrange(12, 20));
            },
            Event::Pointer(PointerEvent::Button { time, button, state }) => {
                wire::lemma_u32_bytes(f, 0);
                wire::lemma_u32_bytes(f, 4);
                wire::lemma_u32_bytes(f, 8);
                assert(b.take(n) =~= seq![b[0]] + f.subrange(0, 4) + f.subrange(4, 8) + f.subrange(
                    8,
                    12,
                ));
            },
            Event::Pointer(PointerEvent::Axis { time, axis, value }) => {
                wire::lemma_u32_bytes(f, 0);
                wire::lemma_u64_bytes(f, 5);
                assert(b.take(n) =~= seq![b[0]] + f.subrange(0, 4) + seq![f[4]] + f.subrange(
                    5,
                    13,
                ));
            },
            Event::Pointer(PointerEvent::AxisDiscrete120 { axis, value }) => {
                wire::lemma_i32_bytes(f, 1);
                assert(b.take(n) =~= seq![b[0], f[0]] + f.subrange(1, 5));
            },
            Event::Keyboard(KeyboardEvent::Key { time, key, state }) => {
                wire::lemma_u32_bytes(f, 0);
                wire::lemma_u32_bytes(f, 4);
                assert(b.take(n) =~= seq![b[0]] + f.subrange(0, 4) + f.subrange(4, 8)
                    + seq![f[8]]);
            },
            Event::Keyboard(KeyboardEvent::Modifiers { depressed, latched, locked, group }) => {
                wire::lemma_u32_bytes(f, 0);
                wire::lemma_u32_bytes(f, 4);
                wire::lemma_u32_bytes(f, 8);
                wire::lemma_u32_bytes(f, 12);
                assert(b.take(n) =~= seq![b[0]] + f.subrange(0, 4) + f.subrange(4, 8) + f.subrange(
                    8,
                    12,
                ) + f.subrange(12, 16));
            },
        }
    }
}

/// Nothing is heard that was not said: bytes that read as a message begin with
/// the bytes of that message, and end there where it is a clipboard. Screens are
/// the exception, for their names are repaired where they are not UTF-8.
pub proof fn law_nothing_is_heard_that_was_not_said(b: Seq<u8>)
    ensures
        msg_from(b) matches Ok(msg) ==> msg is Screens || {
            let n = msg.bytes().len() as int;
            &&& msg.fits()
            &&& n <= b.len() && b.take(n) == msg.bytes()
            &&& msg is Clipboard ==> n == b.len()
        },
{
    if msg_from(b) is Ok {
        let msg = msg_from(b)->Ok_0;
        let rest = b.skip(1);
        let n = msg.bytes().len() as int;
        match msg {
            MsgModel::Ping(t) | MsgModel::Pong(t) => {
                wire::lemma_u64_bytes(rest, 0);
                assert(b.take(n) =~= seq![b[0]] + rest.subrange(0, 8));
            },
            MsgModel::Input(event) => {
                lemma_event_was_said(rest);
                assert(b.take(n) =~= seq![b[0]] + rest.take(n - 1));
            },
            MsgModel::Clipboard(ClipModel::Text(text)) => {
                decode_utf8_encode_utf8(rest);
                assert(b.take(n) =~= seq![b[0]] + rest);
            },
            MsgModel::Clipboard(ClipModel::Image { mime, bytes }) => {
                let name = rest.subrange(1, 1 + rest[0]);
                decode_utf8_encode_utf8(name);
                assert(b.take(n) =~= seq![b[0]] + (seq![rest[0]] + name) + bytes);
            },
            MsgModel::Enter | MsgModel::Leave | MsgModel::Arrange(_) => {
                assert(b.take(n) =~= msg.bytes());
            },
            MsgModel::Screens(_) => {},
        }
    }
}

/// Screens are read one after another, each from behind the one before it, and
/// as many as were announced.
pub proof fn law_screens_are_read_one_after_another(b: Seq<u8>, count: nat)
    ensures
        screens_from(b, 0) == Some(Seq::<ScreenModel>::empty()),
        count > 0 ==> match screens_from(b, count) {
            Some(list) => {
                &&& list.len() == count
                &&& screens::screen_len(b) is Some
                &&& list[0] == screens::screen_at(b)
                &&& screens_from(b.skip(screens::screen_len(b)->0), (count - 1) as nat) == Some(
                    list.drop_first(),
                )
            },
            None => screens::screen_len(b) is None || screens_from(
                b.skip(screens::screen_len(b)->0),
                (count - 1) as nat,
            ) is None,
        },
    decreases count,
{
    if count > 0 {
        match screens::screen_len(b) {
            Some(used) => {
                law_screens_are_read_one_after_another(b.skip(used), (count - 1) as nat);
                if screens_from(b, count) is Some {
                    let list = screens_from(b, count)->0;
                    assert(list.drop_first() =~= screens_from(
                        b.skip(used),
                        (count - 1) as nat,
                    )->0);
                }
            },
            None => {},
        }
    }
}

/// Why bytes are refused as a message, kind by kind. What is complete is never
/// refused, and nothing else is refused for another reason.
pub proof fn law_each_refusal_says_why(b: Seq<u8>)
    ensures
        ({
            let n = b.len();
            let rest = b.skip(1);
            let said = msg_from(b);
            &&& n == 0 <==> said == Err::<MsgModel, DecodeError>(DecodeError::EmptyMessage)
            &&& n > 0 && b[0] > 8 ==> said == Err::<MsgModel, DecodeError>(
                DecodeError::UnknownTag(b[0]),
            )
            &&& n > 0 && b[0] <= 1 ==> (said is Err <==> n < 9)
            &&& 0 < n < 9 && b[0] <= 1 ==> said == Err::<MsgModel, DecodeError>(
                DecodeError::TooShort,
            )
            &&& n > 0 && (b[0] == 2 || b[0] == 3) ==> said is Ok
            &&& n > 0 && b[0] == 4 ==> match event_from(rest) {
                Ok(event) => said == Ok::<MsgModel, DecodeError>(MsgModel::Input(event)),
                Err(e) => said == Err::<MsgModel, DecodeError>(e),
            }
            &&& n > 0 && b[0] == 5 && !valid_utf8(rest) ==> said == Err::<MsgModel, DecodeError>(
                not_text(rest),
            )
            &&& n > 0 && b[0] == 5 && valid_utf8(rest) ==> said is Ok
            &&& n == 1 && b[0] == 6 ==> said == Err::<MsgModel, DecodeError>(
                DecodeError::NoScreenCount,
            )
            &&& n > 1 && b[0] == 6 ==> match screens_from(rest.skip(1), b[1] as nat) {
                Some(list) => said == Ok::<MsgModel, DecodeError>(MsgModel::Screens(list)),
                None => said == Err::<MsgModel, DecodeError>(DecodeError::TruncatedScreen),
            }
            &&& n == 1 && b[0] == 7 ==> said == Err::<MsgModel, DecodeError>(DecodeError::NoSide)
            &&& n > 1 && b[0] == 7 && b[1] > 3 ==> said == Err::<MsgModel, DecodeError>(
                DecodeError::UnknownSide(b[1]),
            )
            &&& n > 1 && b[0] == 7 && b[1] <= 3 ==> said is Ok
            &&& n == 1 && b[0] == 8 ==> said == Err::<MsgModel, DecodeError>(
                DecodeError::NoMimeLength,
            )
            &&& n > 1 && b[0] == 8 && n - 2 < b[1] ==> said == Err::<MsgModel, DecodeError>(
                DecodeError::TruncatedMime,
            )
            &&& n > 1 && b[0] == 8 && n - 2 >= b[1] ==> {
                let mime = b.subrange(2, 2 + b[1]);
                &&& valid_utf8(mime) ==> said is Ok
                &&& !valid_utf8(mime) ==> said == Err::<MsgModel, DecodeError>(not_text(mime))
            }
        }),
{
    if b.len() > 1 && b[0] == 8 && b.len() - 2 >= b[1] {
        assert(b.skip(1).subrange(1, 1 + b[1]) =~= b.subrange(2, 2 + b[1]));
    }
}

/// What is no text is refused with where it stops being text.
pub proof fn law_what_is_no_text_says_where(bytes: Seq<u8>)
    requires
        bytes.len() <= usize::MAX,
    ensures
        not_text(bytes) matches DecodeError::NotText { index, wrong } && {
            &&& index <= bytes.len() && valid_utf8(bytes.take(index as int))
            &&& forall|n: int| index < n <= bytes.len() ==> !valid_utf8(#[trigger] bytes.take(n))
            &&& wrong == wire::wrong_bytes(bytes)
        },
{
    wire::law_the_longest_text_in_front(bytes);
}

/// Why bytes are refused as an event, kind by kind: each kind has its length, and
/// what stops at the one byte among its numbers is told apart from what stops
/// elsewhere. From that length on an event is never refused.
pub proof fn law_each_refused_event_says_why(b: Seq<u8>)
    ensures
        ({
            let n = b.len();
            let said = event_from(b);
            let least = if n == 0 {
                1int
            } else if b[0] == 0 {
                21
            } else if b[0] == 1 {
                13
            } else if b[0] == 2 {
                14
            } else if b[0] == 3 {
                6
            } else if b[0] == 4 {
                10
            } else {
                17
            };
            &&& n == 0 ==> said == Err::<Event, DecodeError>(DecodeError::EmptyEvent)
            &&& n > 0 && b[0] > 5 ==> said == Err::<Event, DecodeError>(
                DecodeError::UnknownEvent(b[0]),
            )
            &&& n > 0 && b[0] <= 5 ==> (said is Ok <==> n >= least)
            &&& n > 0 && b[0] <= 5 && n < least ==> said == Err::<Event, DecodeError>(
                if b[0] == 2 && n == 5 || b[0] == 3 && n == 1 {
                    DecodeError::ShortAxisEvent
                } else if b[0] == 4 && n == 9 {
                    DecodeError::ShortKeyEvent
                } else {
                    DecodeError::TooShort
                },
            )
        }),
{
}

/// What a message can carry whole: any, but for an image whose type, or screens
/// whose number or names, are more than one byte can announce.
pub proof fn law_what_a_message_can_carry(msg: MsgModel)
    ensures
        msg.fits() <==> match msg {
            MsgModel::Clipboard(ClipModel::Image { mime, bytes }) => encode_utf8(mime).len() < 256,
            MsgModel::Screens(list) => list.len() < 256 && forall|i: int|
                0 <= i < list.len() ==> encode_utf8((#[trigger] list[i]).name).len() < 256,
            _ => true,
        },
{
}

/// A message's model is the message, its text and lists as sequences.
pub proof fn law_a_message_is_what_its_model_says(msg: Msg)
    ensures
        match msg {
            Msg::Ping(t) => msg@ == MsgModel::Ping(t),
            Msg::Pong(t) => msg@ == MsgModel::Pong(t),
            Msg::Enter => msg@ is Enter,
            Msg::Leave => msg@ is Leave,
            Msg::Input(event) => msg@ == MsgModel::Input(event),
            Msg::Clipboard(Clip::Text(text)) => msg@ == MsgModel::Clipboard(
                ClipModel::Text(text@),
            ),
            Msg::Clipboard(Clip::Image { mime, bytes }) => msg@ == MsgModel::Clipboard(
                ClipModel::Image { mime: mime@, bytes: bytes@ },
            ),
            Msg::Screens(list) => msg@ matches MsgModel::Screens(models) && models.len()
                == list@.len() && forall|i: int|
                0 <= i < list@.len() ==> #[trigger] models[i] == list@[i]@,
            Msg::Arrange(side) => msg@ == MsgModel::Arrange(side),
        },
{
}

/// The channel of a message, by what it is: only probes, echoes and motion may be
/// lost, only the clipboard goes apart, and the rest is on the stream.
pub proof fn law_a_message_is_routed_by_what_it_is(msg: Msg, route: Route)
    requires
        call_ensures(Msg::route, (&msg,), route),
    ensures
        route == match msg {
            Msg::Ping(_) | Msg::Pong(_) => Route::Datagram,
            Msg::Input(Event::Pointer(PointerEvent::Motion { time, dx, dy })) => Route::Datagram,
            Msg::Input(Event::Pointer(PointerEvent::Button { time, button, state }))
                => Route::Stream,
            Msg::Input(Event::Pointer(PointerEvent::Axis { time, axis, value })) => Route::Stream,
            Msg::Input(Event::Pointer(PointerEvent::AxisDiscrete120 { axis, value }))
                => Route::Stream,
            Msg::Input(Event::Keyboard(_)) => Route::Stream,
            Msg::Enter | Msg::Leave | Msg::Screens(_) | Msg::Arrange(_) => Route::Stream,
            Msg::Clipboard(_) => Route::Bulk,
        },
{
}

/// What one end encodes, the other end decodes to the same message.
pub proof fn law_what_is_encoded_is_decoded(
    msg: Msg,
    bytes: Vec<u8>,
    seen: &[u8],
    read: Result<Msg, DecodeError>,
)
    requires
        msg@.fits(),
        call_ensures(Msg::encode, (&msg,), bytes),
        seen@ == bytes@,
        call_ensures(Msg::decode, (seen,), read),
    ensures
        read matches Ok(m) && m@ == msg@,
{
    law_every_message_survives_the_wire(msg@);
}

} // verus!

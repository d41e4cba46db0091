//! Input as it travels: what a pointer or a keyboard did.
//!
//! Motion and scrolling are doubles. They are only ever compared, and carried
//! from one machine to the other, so they are held as the bits of the double.

use vstd::prelude::*;

use crate::double;

verus! {

#[allow(inconsistent_fields)]
#[derive(Debug, Clone, Copy)]
pub enum PointerEvent {
    /// Relative motion; `dx` and `dy` are the bits of doubles.
    Motion { time: u32, dx: u64, dy: u64 },
    Button { time: u32, button: u32, state: u32 },
    /// Scrolling on a touchpad; `value` is the bits of a double.
    Axis { time: u32, axis: u8, value: u64 },
    /// Scrolling on a wheel, 120 to the tick.
    AxisDiscrete120 { axis: u8, value: i32 },
}

/// Whether two pointer events are equal, what is a double compared as one.
pub open spec fn same_pointer(a: PointerEvent, b: PointerEvent) -> bool {
    match (a, b) {
        (
            PointerEvent::Motion { time: at, dx, dy },
            PointerEvent::Motion { time, dx: x, dy: y },
        ) => at == time && double::equal(dx, x) && double::equal(dy, y),
        (
            PointerEvent::Axis { time: at, axis: along, value },
            PointerEvent::Axis { time, axis, value: far },
        ) => at == time && along == axis && double::equal(value, far),
        _ => a == b,
    }
}

impl PartialEq for PointerEvent {
    fn eq(&self, other: &PointerEvent) -> (equal: bool) {
        match (*self, *other) {
            (
                PointerEvent::Motion { time: at, dx, dy },
                PointerEvent::Motion { time, dx: x, dy: y },
            ) => at == time && double::are_equal(dx, x) && double::are_equal(dy, y),
            (
                PointerEvent::Axis { time: at, axis: along, value },
                PointerEvent::Axis { time, axis, value: far },
            ) => at == time && along == axis && double::are_equal(value, far),
            (
                PointerEvent::Button { time: at, button: pressed, state: now },
                PointerEvent::Button { time, button, state },
            ) => at == time && pressed == button && now == state,
            (
                PointerEvent::AxisDiscrete120 { axis: along, value },
                PointerEvent::AxisDiscrete120 { axis, value: far },
            ) => along == axis && value == far,
            _ => false,
        }
    }
}

impl vstd::std_specs::cmp::PartialEqSpecImpl for PointerEvent {
    open spec fn obeys_eq_spec() -> bool {
        true
    }

    open spec fn eq_spec(&self, other: &PointerEvent) -> bool {
        same_pointer(*self, *other)
    }
}

#[derive(Debug, Clone, Copy, PartialEq, Eq, Structural)]
pub enum KeyboardEvent {
    Key { time: u32, key: u32, state: u8 },
    Modifiers { depressed: u32, latched: u32, locked: u32, group: u32 },
}

#[derive(Debug, Clone, Copy, PartialEq)]
pub enum Event {
    Pointer(PointerEvent),
    Keyboard(KeyboardEvent),
}

/// Two motions are equal where their times are and each of their doubles is, as
/// doubles; so with scrolling on a touchpad, along the same axis. Buttons and
/// wheels, which hold no doubles, are equal where they are the same, and events
/// of different kinds never are.
pub proof fn law_events_compare_by_what_they_hold(
    time: u32,
    axis: u8,
    a: (u64, u64),
    b: (u64, u64),
    other: PointerEvent,
)
    ensures
        same_pointer(
            PointerEvent::Motion { time, dx: a.0, dy: a.1 },
            PointerEvent::Motion { time, dx: b.0, dy: b.1 },
        ) <==> double::equal(a.0, b.0) && double::equal(a.1, b.1),
        same_pointer(
            PointerEvent::Axis { time, axis, value: a.0 },
            PointerEvent::Axis { time, axis, value: b.0 },
        ) <==> double::equal(a.0, b.0),
        other matches PointerEvent::Motion { time: at, dx, dy } ==> (at != time ==> !same_pointer(
            PointerEvent::Motion { time, dx: a.0, dy: a.1 },
            other,
        )) && !same_pointer(PointerEvent::Axis { time, axis, value: a.0 }, other),
        other matches PointerEvent::Axis { time: at, axis: along, value } ==> (at != time || along
            != axis ==> !same_pointer(PointerEvent::Axis { time, axis, value: a.0 }, other))
            && !same_pointer(PointerEvent::Motion { time, dx: a.0, dy: a.1 }, other),
        !(other is Motion) && !(other is Axis) ==> forall|e: PointerEvent|
            #[trigger] same_pointer(e, other) <==> e == other,
{
}

} // verus!

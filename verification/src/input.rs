//! Who owns the keyboard and mouse right now, and where their events go.
//!
//! Input flows one way. The **server** is the machine whose keyboard and mouse
//! are shared: it watches its own screen edges, and when the cursor leaves one
//! it starts sending. The **client** only types what arrives, and builds no
//! capture of its own to send from.
//!
//! A client does arm one screen edge, but only to hand control back. Crossing
//! it sends a single `Leave` and nothing else, no key and no motion, because
//! otherwise there is no way back: the server's capture holds the cursor until
//! something tells it to let go, and a client that shares no input has nothing
//! else to say.

use vstd::prelude::*;

use crate::config::Side;

verus! {

/// The keys that, held together, hand input back to this machine even if the
/// peer never answers again: left Ctrl, Shift, Alt and Meta, as Linux numbers
/// them. The way out of a wedged remote session.
pub fn release_chord() -> (keys: [u32; 4])
    ensures
        keys@ == seq![29u32, 42, 56, 125],
{
    [29, 42, 56, 125]
}

#[derive(PartialEq, Eq, Debug, Clone, Copy, Structural)]
pub enum Mode {
    /// Input belongs to this machine.
    Local,
    /// This machine has the cursor and is feeding the peer at this handle.
    Sending(u64),
    /// The peer at this handle has the cursor and we type what it sends.
    Receiving(u64),
}

/// Which way input is flowing, for showing.
#[derive(PartialEq, Eq, Debug, Clone, Copy, Structural)]
pub enum Label {
    Local,
    Sending,
    Receiving,
}

impl Label {
    pub open spec fn word(self) -> Seq<char> {
        match self {
            Label::Local => "local"@,
            Label::Sending => "sending"@,
            Label::Receiving => "receiving"@,
        }
    }

    pub fn name(&self) -> (name: &'static str)
        ensures
            name@ == self.word(),
    {
        match self {
            Label::Local => "local",
            Label::Sending => "sending",
            Label::Receiving => "receiving",
        }
    }
}

impl Mode {
    pub open spec fn label(self) -> Label {
        match self {
            Mode::Local => Label::Local,
            Mode::Sending(_) => Label::Sending,
            Mode::Receiving(_) => Label::Receiving,
        }
    }
}

/// What crossing an armed edge means. Decided apart from the backends, because
/// getting it wrong strands the cursor and the keyboard with it.
#[derive(PartialEq, Eq, Debug, Clone, Copy, Structural)]
pub enum Crossing {
    /// Take the cursor and start feeding the peer.
    Send,
    /// Give the cursor back to the server. All a client's edge ever means.
    HandBack,
    /// Let go. Holding the cursor with nowhere to send it swallows every key
    /// and leaves no way to reach the menu bar and quit.
    Stay,
}

/// Only a server with a live link takes the cursor; a client's edge is the way
/// back, link or no link.
pub fn crossing(server: bool, linked: bool) -> (crossing: Crossing)
    ensures
        crossing == if !server {
            Crossing::HandBack
        } else if linked {
            Crossing::Send
        } else {
            Crossing::Stay
        },
{
    match (server, linked) {
        (false, _) => Crossing::HandBack,
        (true, true) => Crossing::Send,
        (true, false) => Crossing::Stay,
    }
}

/// What has to be undone when control moves away from us.
#[derive(PartialEq, Eq, Debug, Clone, Copy, Structural)]
pub enum Cleanup {
    Nothing,
    /// Stop grabbing local input.
    ReleaseCapture,
    /// Lift any key the peer left held down here.
    ReleaseKeys,
}

/// The rule for who owns input, kept apart from the backends so that it stands
/// without a compositor.
#[derive(PartialEq, Eq, Debug, Clone, Copy, Structural)]
pub struct Handover {
    pub mode: Mode,
    /// Whether a peer is allowed to drive this machine at all. False on a
    /// server: its keyboard and mouse are the ones being shared, and nothing
    /// arriving over the link may type here.
    pub driven: bool,
}

impl Handover {
    /// Ownership once the peer says that it has the cursor.
    pub open spec fn entered(self, handle: u64) -> Handover {
        if self.driven {
            Handover { mode: Mode::Receiving(handle), ..self }
        } else {
            self
        }
    }

    /// Ownership once the peer has handed control back, or its link has died.
    pub open spec fn left(self, handle: u64) -> Handover {
        if self.mode == Mode::Receiving(handle) || self.mode == Mode::Sending(handle) {
            Handover { mode: Mode::Local, ..self }
        } else {
            self
        }
    }

    /// Whether input from this peer is typed here.
    pub open spec fn accepts(self, handle: u64) -> bool {
        self.driven && (self.mode == Mode::Local || self.mode == Mode::Receiving(handle))
    }

    /// Ownership once input from this peer has arrived.
    pub open spec fn fed(self, handle: u64) -> Handover {
        if self.accepts(handle) {
            Handover { mode: Mode::Receiving(handle), ..self }
        } else {
            self
        }
    }

    pub fn new(driven: bool) -> (handover: Handover)
        ensures
            handover == (Handover { mode: Mode::Local, driven }),
    {
        Handover { mode: Mode::Local, driven }
    }

    pub fn label(&self) -> (label: Label)
        ensures
            label == self.mode.label(),
    {
        match self.mode {
            Mode::Local => Label::Local,
            Mode::Sending(_) => Label::Sending,
            Mode::Receiving(_) => Label::Receiving,
        }
    }

    pub fn name(&self) -> (name: &'static str)
        ensures
            name@ == self.mode.label().word(),
    {
        self.label().name()
    }

    /// Our own capture grabbed the cursor at this edge.
    pub fn began(&mut self, handle: u64)
        ensures
            *final(self) == (Handover { mode: Mode::Sending(handle), ..*old(self) }),
    {
        self.mode = Mode::Sending(handle);
    }

    pub fn forwarding(&self, handle: u64) -> (forwarding: bool)
        ensures
            forwarding == (self.mode == Mode::Sending(handle)),
    {
        self.mode == Mode::Sending(handle)
    }

    /// The peer says it has the cursor. True when our capture must let go.
    pub fn peer_entered(&mut self, handle: u64) -> (let_go: bool)
        ensures
            *final(self) == old(self).entered(handle),
            let_go == (old(self).driven && old(self).mode is Sending),
    {
        if !self.driven {
            return false;
        }
        let was_sending = matches!(self.mode, Mode::Sending(_));
        self.mode = Mode::Receiving(handle);
        was_sending
    }

    /// The peer handed control back, or its link died.
    pub fn peer_left(&mut self, handle: u64) -> (cleanup: Cleanup)
        ensures
            *final(self) == old(self).left(handle),
            cleanup == if old(self).mode == Mode::Receiving(handle) {
                Cleanup::ReleaseKeys
            } else if old(self).mode == Mode::Sending(handle) {
                Cleanup::ReleaseCapture
            } else {
                Cleanup::Nothing
            },
    {
        match self.mode {
            Mode::Receiving(h) => {
                if h == handle {
                    self.mode = Mode::Local;
                    return Cleanup::ReleaseKeys;
                }
            },
            // The link dropped while we were driving that peer: our capture is
            // still holding the cursor hostage with nowhere to send it.
            Mode::Sending(h) => {
                if h == handle {
                    self.mode = Mode::Local;
                    return Cleanup::ReleaseCapture;
                }
            },
            Mode::Local => {},
        }
        Cleanup::Nothing
    }

    /// Input arrived from a peer. True when it should be typed here.
    ///
    /// Motion rides unreliable datagrams and can overtake the `Enter` that
    /// announced it, so input from a peer while we are idle is taken as the
    /// announcement: only a pinned peer can send it at all.
    pub fn peer_input(&mut self, handle: u64) -> (typed: bool)
        ensures
            typed == old(self).accepts(handle),
            *final(self) == old(self).fed(handle),
    {
        if !self.driven {
            return false;
        }
        match self.mode {
            Mode::Receiving(h) => h == handle,
            Mode::Local => {
                self.mode = Mode::Receiving(handle);
                true
            },
            Mode::Sending(_) => false,
        }
    }

    /// The release chord: take input back whatever the peer thinks.
    pub fn take_back(&mut self)
        ensures
            *final(self) == (Handover { mode: Mode::Local, ..*old(self) }),
    {
        self.mode = Mode::Local;
    }
}

/// Asked for from outside the daemon, such as from the macOS menu bar.
#[derive(PartialEq, Eq, Debug, Clone, Copy, Structural)]
pub enum Control {
    /// Move a peer's screen to another edge, optionally of one display only.
    SetPosition(u64, Side, Option<usize>),
    /// Try the input backends again, after permission was granted.
    RetryBackends,
}

/// Who may drive this machine. One that is driven is driven by whoever says so,
/// and then types for them and for nobody else; idle, it types for anyone, who
/// then has it. One that feeds a peer, or is not driven at all, types for nobody.
pub proof fn law_who_may_drive_this_machine(handover: Handover, handle: u64, other: u64)
    requires
        handle != other,
    ensures
        ({
            let told = handover.entered(handle);
            &&& told.driven == handover.driven
            &&& handover.driven ==> told.mode == Mode::Receiving(handle)
            &&& handover.driven ==> told.accepts(handle) && !told.accepts(other)
            &&& !handover.driven ==> told == handover && !handover.accepts(handle)
            &&& handover.driven && handover.mode is Local ==> handover.accepts(handle)
                && handover.accepts(other)
            &&& handover.mode is Sending ==> !handover.accepts(handle)
            &&& handover.accepts(handle) ==> handover.fed(handle) == told
            &&& !handover.accepts(handle) ==> handover.fed(handle) == handover
        }),
{
}

/// A peer that leaves takes nothing with it but its own hold: control that was
/// with it is back here, and control that was not stays where it was. Whether
/// this machine may be driven does not change.
pub proof fn law_leaving_ends_only_ones_own_hold(handover: Handover, handle: u64)
    ensures
        ({
            let left = handover.left(handle);
            let held = match handover.mode {
                Mode::Local => false,
                Mode::Sending(h) => h == handle,
                Mode::Receiving(h) => h == handle,
            };
            &&& left.driven == handover.driven
            &&& held ==> left.mode is Local
            &&& !held ==> left == handover
        }),
{
}

/// Three flows, three words: each mode is shown as what it is.
pub proof fn law_each_flow_has_its_word(mode: Mode, handle: u64)
    ensures
        Mode::Local.label().word() == "local"@,
        Mode::Sending(handle).label().word() == "sending"@,
        Mode::Receiving(handle).label().word() == "receiving"@,
        mode.label() == Label::Local <==> mode is Local,
        mode.label() == Label::Sending <==> mode is Sending,
        mode.label() == Label::Receiving <==> mode is Receiving,
{
}

/// What crossing an edge means, whatever the answer: only a server with a live
/// link sends, a client always hands back, and only a server without a link
/// stays.
pub proof fn law_what_crossing_an_edge_means(server: bool, linked: bool, answer: Crossing)
    requires
        call_ensures(crossing, (server, linked), answer),
    ensures
        answer == Crossing::Send <==> server && linked,
        answer == Crossing::HandBack <==> !server,
        answer == Crossing::Stay <==> server && !linked,
{
}

/// The release chord is four keys, on the left of the keyboard: Ctrl, Shift, Alt
/// and Meta.
pub proof fn law_the_release_chord_is_four_keys(keys: [u32; 4])
    requires
        call_ensures(release_chord, (), keys),
    ensures
        keys@.len() == 4,
        keys@.contains(29) && keys@.contains(42) && keys@.contains(56) && keys@.contains(125),
{
    assert(keys@[0] == 29 && keys@[1] == 42 && keys@[2] == 56 && keys@[3] == 125);
}

} // verus!

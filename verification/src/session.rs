//! What happens between the moment input, a message or a link shows up and the
//! moment something is done about it.
//!
//! Capturing and typing belong to the platform, and sending to the links. A
//! [`Session`] is told what happened there, keeps track of who owns the cursor
//! and which screen edges are watched, and answers with what to do.

use vstd::prelude::*;

use crate::clipboard::{Clip, ClipModel, LastSeen};
use crate::config::{Peer, Side};
use crate::event::{Event, KeyboardEvent};
use crate::input::{crossing, Cleanup, Crossing, Handover, Label, Mode};
use crate::link;
use crate::proto::{Msg, MsgModel};
use crate::screens;
use crate::screens::{Screen, ScreenModel};
use crate::text;

verus! {

/// What the capture backend reports.
#[derive(PartialEq, Debug, Clone, Copy)]
pub enum Captured {
    /// The cursor crossed an armed edge and is held there.
    Begin,
    /// Something happened while the cursor is held.
    Input(Event),
}

/// Where a peer's screen sits.
#[derive(Debug)]
pub struct Place {
    pub name: String,
    pub position: Side,
    /// Which of this machine's displays the edge belongs to, counting from 1.
    pub display: Option<usize>,
}

/// A place with its name as a sequence of characters.
pub struct PlaceModel {
    pub name: Seq<char>,
    pub position: Side,
    pub display: Option<usize>,
}

impl View for Place {
    type V = PlaceModel;

    open spec fn view(&self) -> PlaceModel {
        PlaceModel { name: self.name@, position: self.position, display: self.display }
    }
}

/// Where the peers in a configuration sit.
pub fn places(peers: &[Peer]) -> (places: Vec<Place>)
    ensures
        places@.map_values(|p: Place| p@) == peers@.map_values(
            |p: Peer| PlaceModel { name: p.name@, position: p.position, display: p.display },
        ),
{
    let mut places: Vec<Place> = Vec::new();
    let mut i: usize = 0;
    while i < peers.len()
        invariant
            i <= peers@.len(),
            places@.len() == i,
            forall|j: int|
                0 <= j < i ==> (#[trigger] places@[j])@ == (PlaceModel {
                    name: peers@[j].name@,
                    position: peers@[j].position,
                    display: peers@[j].display,
                }),
        decreases peers@.len() - i,
    {
        places.push(
            Place {
                name: peers[i].name.clone(),
                position: peers[i].position,
                display: peers[i].display,
            },
        );
        i += 1;
    }
    assert(places@.map_values(|p: Place| p@) =~= peers@.map_values(
        |p: Peer| PlaceModel { name: p.name@, position: p.position, display: p.display },
    ));
    places
}

/// What a session asks the platform, the links or the status to do. Peers are
/// meant by their handle: their place in the configuration.
#[derive(Debug, PartialEq)]
pub enum Action {
    /// Send this message to a peer.
    Send(u64, Msg),
    /// Let the captured cursor go.
    ReleaseCapture,
    /// Send this machine's clipboard to a peer, off the hot path.
    PushClipboard(u64),
    /// Make the next edge belong to one display only, counting from 0.
    Restrict(Option<usize>),
    /// Watch a screen edge for a peer.
    Create(u64, Side),
    /// Stop watching a peer's edge.
    Destroy(u64),
    /// Prepare to type for a peer.
    CreateEmulation(u64),
    /// Lift every key a peer holds down here.
    ReleaseKeys(u64),
    /// Type what a peer sent.
    Type(u64, Event),
    /// Put a peer's clip on the clipboard.
    WriteClipboard(Clip),
    /// Remember where a peer says it sits.
    SaveSide(u64, Side),
    /// Keep the screens a peer says it has.
    KeepScreens(u64, Vec<Screen>),
    /// Show which way input flows, where that changed, and whether this machine
    /// can capture and type.
    Publish { mode: Option<Label>, allowed: bool },
}

/// An action with its text and lists as sequences.
pub enum ActionModel {
    Send(u64, MsgModel),
    ReleaseCapture,
    PushClipboard(u64),
    Restrict(Option<usize>),
    Create(u64, Side),
    Destroy(u64),
    CreateEmulation(u64),
    ReleaseKeys(u64),
    Type(u64, Event),
    WriteClipboard(ClipModel),
    SaveSide(u64, Side),
    KeepScreens(u64, Seq<ScreenModel>),
    Publish { mode: Option<Label>, allowed: bool },
}

impl View for Action {
    type V = ActionModel;

    open spec fn view(&self) -> ActionModel {
        match self {
            Action::Send(handle, msg) => ActionModel::Send(*handle, msg@),
            Action::ReleaseCapture => ActionModel::ReleaseCapture,
            Action::PushClipboard(handle) => ActionModel::PushClipboard(*handle),
            Action::Restrict(display) => ActionModel::Restrict(*display),
            Action::Create(handle, side) => ActionModel::Create(*handle, *side),
            Action::Destroy(handle) => ActionModel::Destroy(*handle),
            Action::CreateEmulation(handle) => ActionModel::CreateEmulation(*handle),
            Action::ReleaseKeys(handle) => ActionModel::ReleaseKeys(*handle),
            Action::Type(handle, event) => ActionModel::Type(*handle, *event),
            Action::WriteClipboard(clip) => ActionModel::WriteClipboard(clip@),
            Action::SaveSide(handle, side) => ActionModel::SaveSide(*handle, *side),
            Action::KeepScreens(handle, list) => ActionModel::KeepScreens(
                *handle,
                screens::models(list@),
            ),
            Action::Publish { mode, allowed } => ActionModel::Publish {
                mode: *mode,
                allowed: *allowed,
            },
        }
    }
}

/// The models of a list of actions.
pub open spec fn actions_of(actions: Seq<Action>) -> Seq<ActionModel> {
    actions.map_values(|a: Action| a@)
}

/// Everything the session knows.
pub struct Session {
    /// Whether this machine's keyboard and mouse are the ones being shared.
    pub server: bool,
    pub places: Vec<Place>,
    /// For each peer, whether its screen edge is being watched.
    pub armed: Vec<bool>,
    pub handover: Handover,
    /// Whether this machine can capture input.
    pub capture: bool,
    /// Whether this machine can type.
    pub emulation: bool,
    /// What was last shown.
    pub shown: Option<Label>,
}

/// A session with its lists as sequences.
#[verifier::ext_equal]
pub struct SessionModel {
    pub server: bool,
    pub places: Seq<PlaceModel>,
    pub armed: Seq<bool>,
    pub handover: Handover,
    pub capture: bool,
    pub emulation: bool,
    pub shown: Option<Label>,
}

impl View for Session {
    type V = SessionModel;

    open spec fn view(&self) -> SessionModel {
        SessionModel {
            server: self.server,
            places: self.places@.map_values(|p: Place| p@),
            armed: self.armed@,
            handover: self.handover,
            capture: self.capture,
            emulation: self.emulation,
            shown: self.shown,
        }
    }
}

/// What can happen to a session.
pub enum Step {
    /// The capture backend, where there is one, reported something at a peer's
    /// edge; `linked` says whether a live link to that peer exists.
    Captured { handle: u64, event: Captured, linked: bool },
    /// The keys held after such a report have been looked at; `held` is those
    /// keys, in any order, where the release chord was among them.
    Looked { handle: u64, held: Option<Seq<u32>> },
    /// A link came up or went down.
    LinkChanged { name: Seq<char>, up: bool },
    /// Someone moved a peer's screen.
    Moved { handle: u64, side: Side, display: Option<usize> },
    /// A second try at capturing input worked.
    CaptureOpened,
    /// A second try at typing worked.
    EmulationOpened,
    /// The second tries are over.
    Retried,
    /// A peer said something.
    Incoming { name: Seq<char>, msg: MsgModel },
}

/// A display numbered for people counts from 1; the backend counts from 0.
pub open spec fn from_zero(display: Option<usize>) -> Option<usize> {
    match display {
        Some(d) => Some(if d == 0 {
            0
        } else {
            (d - 1) as usize
        }),
        None => None,
    }
}

/// The place of the first peer with this name.
pub open spec fn place_of(places: Seq<PlaceModel>, name: Seq<char>) -> Option<u64>
    decreases places.len(),
{
    if places.len() == 0 {
        None
    } else if place_of(places.drop_last(), name) is Some {
        place_of(places.drop_last(), name)
    } else if places.last().name == name {
        Some((places.len() - 1) as u64)
    } else {
        None
    }
}

/// The keys held, as a sequence.
pub open spec fn keys_of(held: Option<Vec<u32>>) -> Option<Seq<u32>> {
    match held {
        Some(keys) => Some(keys@),
        None => None,
    }
}

/// Lifting keys on a peer: it saw them go down and will never see them come up.
pub open spec fn key_ups(handle: u64, held: Seq<u32>) -> Seq<ActionModel> {
    held.map_values(
        |key: u32|
            ActionModel::Send(
                handle,
                MsgModel::Input(Event::Keyboard(KeyboardEvent::Key { time: 0, key, state: 0 })),
            ),
    )
}

/// Preparing to type for the first `count` peers.
pub open spec fn emulation_for(count: nat) -> Seq<ActionModel> {
    Seq::new(count, |i: int| ActionModel::CreateEmulation(i as u64))
}

/// Watching the edges of the armed ones among the first `count` peers.
pub open spec fn edges_for(places: Seq<PlaceModel>, armed: Seq<bool>, count: nat) -> Seq<
    ActionModel,
>
    decreases count,
{
    if count == 0 {
        Seq::empty()
    } else {
        let i = count - 1;
        let before = edges_for(places, armed, i as nat);
        if armed[i] {
            before + seq![
                ActionModel::Restrict(from_zero(places[i].display)),
                ActionModel::Create(i as u64, places[i].position),
            ]
        } else {
            before
        }
    }
}

impl SessionModel {
    /// What holds of every session.
    pub open spec fn valid(self) -> bool {
        &&& self.armed.len() == self.places.len()
        &&& self.places.len() <= usize::MAX
        // Only a client is driven, and only a client can type.
        &&& self.handover.driven == !self.server
        &&& self.server ==> !(self.handover.mode is Receiving)
        &&& self.server ==> !self.emulation
        // A client never sends, and nothing is sent that was not captured.
        &&& self.handover.mode is Sending ==> self.server && self.capture
        // No edge is watched without a capture to watch it.
        &&& !self.capture ==> forall|i: int| 0 <= i < self.armed.len() ==> !#[trigger] self.armed[i]
        // Control is only ever with a peer that exists.
        &&& match self.handover.mode {
            Mode::Local => true,
            Mode::Sending(h) | Mode::Receiving(h) => h < self.places.len(),
        }
    }

    /// Whether something this machine's role needs is missing.
    pub open spec fn degraded(self) -> bool {
        !self.capture || (!self.server && !self.emulation)
    }

    /// The peer with this name.
    pub open spec fn handle_of(self, name: Seq<char>) -> Option<u64> {
        place_of(self.places, name)
    }

    /// Letting the cursor go, where there is a capture that may hold it.
    pub open spec fn release(self) -> Seq<ActionModel> {
        if self.capture {
            seq![ActionModel::ReleaseCapture]
        } else {
            Seq::empty()
        }
    }

    /// Whether this peer's edge is being watched right now.
    pub open spec fn watching(self, handle: u64) -> bool {
        self.capture && self.armed[handle as int]
    }

    /// Showing what is so.
    pub open spec fn publish(self) -> ActionModel {
        let now = self.handover.mode.label();
        ActionModel::Publish {
            mode: if self.shown == Some(now) {
                None
            } else {
                Some(now)
            },
            allowed: !self.degraded(),
        }
    }

    /// The session once that has been shown.
    pub open spec fn published(self) -> SessionModel {
        SessionModel { shown: Some(self.handover.mode.label()), ..self }
    }

    /// The session with another rule of ownership.
    pub open spec fn owning(self, handover: Handover) -> SessionModel {
        SessionModel { handover, ..self }
    }

    /// The session right after it starts: nothing armed, input local.
    pub open spec fn initial(
        server: bool,
        places: Seq<PlaceModel>,
        capture: bool,
        emulation: bool,
    ) -> SessionModel {
        SessionModel {
            server,
            places,
            armed: Seq::new(places.len(), |i: int| false),
            handover: Handover { mode: Mode::Local, driven: !server },
            capture,
            emulation: emulation && !server,
            shown: Some(Label::Local),
        }
    }

    /// What a starting session asks for: the state is shown, and every peer can
    /// be typed for where this machine can type at all. No edge is armed. An
    /// edge with no link behind it grabs the cursor and feeds it to nobody.
    pub open spec fn opening(self) -> Seq<ActionModel> {
        let allowed = !self.degraded();
        seq![ActionModel::Publish { mode: None, allowed }] + (if self.emulation {
            emulation_for(self.places.len())
        } else {
            Seq::empty()
        }) + seq![ActionModel::Publish { mode: Some(Label::Local), allowed }]
    }

    /// The session after a peer has said something.
    pub open spec fn told(self, handle: u64, msg: MsgModel) -> SessionModel {
        match msg {
            MsgModel::Enter => self.owning(self.handover.entered(handle)),
            MsgModel::Leave => self.owning(self.handover.left(handle)),
            MsgModel::Input(_) => self.owning(self.handover.fed(handle)),
            _ => self,
        }
    }

    /// What a peer's message asks for.
    pub open spec fn reply(self, handle: u64, msg: MsgModel) -> Seq<ActionModel> {
        match msg {
            MsgModel::Enter => if self.handover.driven && self.handover.mode is Sending {
                self.release()
            } else {
                Seq::empty()
            },
            MsgModel::Leave => if self.handover.mode == Mode::Receiving(handle) && self.emulation {
                // Never leave a modifier held down here because the link
                // dropped mid-chord.
                seq![ActionModel::ReleaseKeys(handle)]
            } else if self.handover.mode == Mode::Sending(handle) {
                self.release()
            } else {
                Seq::empty()
            },
            MsgModel::Input(event) => if self.handover.accepts(handle) && self.emulation {
                seq![ActionModel::Type(handle, event)]
            } else {
                Seq::empty()
            },
            MsgModel::Clipboard(clip) => seq![ActionModel::WriteClipboard(clip)],
            MsgModel::Arrange(side) => if self.watching(handle) {
                seq![
                    ActionModel::SaveSide(handle, side),
                    ActionModel::Destroy(handle),
                    ActionModel::Create(handle, side),
                ]
            } else {
                seq![ActionModel::SaveSide(handle, side)]
            },
            MsgModel::Screens(list) => seq![ActionModel::KeepScreens(handle, list)],
            MsgModel::Ping(_) | MsgModel::Pong(_) => Seq::empty(),
        }
    }

    /// The session after a step.
    pub open spec fn after(self, step: Step) -> SessionModel {
        match step {
            Step::Captured { handle, event, linked } => if self.capture && handle
                < self.places.len() && event is Begin && self.server && linked {
                self.owning(Handover { mode: Mode::Sending(handle), ..self.handover })
            } else {
                self
            },
            Step::Looked { handle, held } => if handle >= self.places.len() {
                self
            } else if held is Some && self.server && self.capture {
                self.owning(Handover { mode: Mode::Local, ..self.handover }).published()
            } else {
                self.published()
            },
            Step::LinkChanged { name, up } => match self.handle_of(name) {
                Some(handle) if self.capture => SessionModel {
                    armed: self.armed.update(handle as int, up),
                    ..self
                },
                _ => self,
            },
            Step::Moved { .. } => self,
            Step::CaptureOpened => SessionModel { capture: true, ..self },
            Step::EmulationOpened => SessionModel { emulation: !self.server, ..self },
            Step::Retried => self.published(),
            Step::Incoming { name, msg } => match self.handle_of(name) {
                Some(handle) => self.told(handle, msg).published(),
                None => self,
            },
        }
    }

    /// What a step asks for.
    pub open spec fn asks(self, step: Step) -> Seq<ActionModel> {
        match step {
            Step::Captured { handle, event, linked } => if !self.capture || handle
                >= self.places.len() {
                Seq::empty()
            } else {
                match event {
                    Captured::Begin => if !self.server {
                        // Says "you have it back" and nothing else.
                        seq![
                            ActionModel::Send(handle, MsgModel::Leave),
                            ActionModel::ReleaseCapture,
                        ]
                    } else if linked {
                        seq![
                            ActionModel::Send(handle, MsgModel::Enter),
                            ActionModel::PushClipboard(handle),
                        ]
                    } else {
                        seq![ActionModel::ReleaseCapture]
                    },
                    Captured::Input(event) => if self.server && self.handover.mode
                        == Mode::Sending(handle) {
                        seq![ActionModel::Send(handle, MsgModel::Input(event))]
                    } else {
                        Seq::empty()
                    },
                }
            },
            Step::Looked { handle, held } => if handle >= self.places.len() {
                Seq::empty()
            } else if held is Some && self.server && self.capture {
                // The peer saw these keys go down but will never see them come
                // up, so that is said before anything else.
                key_ups(handle, held->0) + seq![
                    ActionModel::Send(handle, MsgModel::Leave),
                    ActionModel::ReleaseCapture,
                    self.owning(Handover { mode: Mode::Local, ..self.handover }).publish(),
                ]
            } else {
                seq![self.publish()]
            },
            Step::LinkChanged { name, up } => match self.handle_of(name) {
                Some(handle) if self.capture && self.armed[handle as int] != up => if up {
                    let place = self.places[handle as int];
                    seq![
                        ActionModel::Restrict(from_zero(place.display)),
                        ActionModel::Create(handle, place.position),
                    ]
                } else {
                    seq![ActionModel::Destroy(handle)]
                },
                _ => Seq::empty(),
            },
            Step::Moved { handle, side, display } => if handle >= self.places.len() {
                Seq::empty()
            } else {
                (if self.watching(handle) {
                    seq![
                        ActionModel::Destroy(handle),
                        ActionModel::Restrict(from_zero(display)),
                        ActionModel::Create(handle, side),
                    ]
                } else {
                    Seq::empty()
                }) + seq![ActionModel::Send(handle, MsgModel::Arrange(side.facing()))]
            },
            Step::CaptureOpened => edges_for(self.places, self.armed, self.places.len()),
            Step::EmulationOpened => if self.server {
                Seq::empty()
            } else {
                emulation_for(self.places.len())
            },
            Step::Retried => seq![self.publish()],
            Step::Incoming { name, msg } => match self.handle_of(name) {
                Some(handle) => self.reply(handle, msg) + seq![self.told(handle, msg).publish()],
                None => Seq::empty(),
            },
        }
    }
}

/// What a display numbered for people is to the backend.
fn zero_based(display: Option<usize>) -> (index: Option<usize>)
    ensures
        index == from_zero(display),
{
    match display {
        Some(d) => Some(d.saturating_sub(1)),
        None => None,
    }
}

impl Session {
    /// What holds of every session.
    pub open spec fn inv(self) -> bool {
        self@.valid()
    }

    /// A session with no edge armed, and what it asks for first. A server
    /// types nothing, whatever it could.
    pub fn start(server: bool, places: Vec<Place>, capture: bool, emulation: bool) -> (begun: (
        Session,
        Vec<Action>,
    ))
        ensures
            begun.0.inv(),
            begun.0@ == SessionModel::initial(
                server,
                places@.map_values(|p: Place| p@),
                capture,
                emulation,
            ),
            actions_of(begun.1@) == begun.0@.opening(),
    {
        let mut armed: Vec<bool> = Vec::new();
        let count: usize = places.len();
        let emulation = emulation && !server;
        let allowed = capture && (server || emulation);
        let mut actions: Vec<Action> = Vec::new();
        actions.push(Action::Publish { mode: None, allowed });
        let mut i: usize = 0;
        while i < count
            invariant
                i <= count == places@.len(),
                armed@ =~= Seq::new(i as nat, |j: int| false),
                actions_of(actions@) =~= seq![ActionModel::Publish { mode: None, allowed }] + (
                if emulation {
                    emulation_for(i as nat)
                } else {
                    Seq::empty()
                }),
            decreases count - i,
        {
            armed.push(false);
            let ghost before = actions@;
            if emulation {
                actions.push(Action::CreateEmulation(i as u64));
            }
            i += 1;
            proof {
                lemma_appended(before, Action::CreateEmulation((i - 1) as u64));
                assert(emulation_for(i as nat) =~= emulation_for((i - 1) as nat).push(
                    ActionModel::CreateEmulation((i - 1) as u64),
                ));
            }
        }
        actions.push(Action::Publish { mode: Some(Label::Local), allowed });
        let session = Session {
            server,
            places,
            armed,
            handover: Handover::new(!server),
            capture,
            emulation,
            shown: Some(Label::Local),
        };
        assert(session@ =~= SessionModel::initial(
            server,
            places@.map_values(|p: Place| p@),
            capture,
            emulation,
        ));
        assert(actions_of(actions@) =~= session@.opening());
        (session, actions)
    }

    /// The handle of the peer with this name: its place in the configuration.
    pub fn handle_of(&self, name: &str) -> (handle: Option<u64>)
        ensures
            handle == self@.handle_of(name@),
            handle matches Some(h) ==> h < self@.places.len() && self@.places[h as int].name
                == name@,
    {
        let ghost places = self@.places;
        let mut i: usize = 0;
        assert(places.take(0) =~= Seq::empty());
        while i < self.places.len()
            invariant
                i <= self.places@.len(),
                places == self@.places,
                place_of(places.take(i as int), name@) is None,
            decreases self.places@.len() - i,
        {
            let found = text::same(self.places[i].name.as_str(), name);
            proof {
                assert(places.take(i + 1).drop_last() =~= places.take(i as int));
                assert(places[i as int] == self.places@[i as int]@);
            }
            if found {
                proof {
                    lemma_first_place(places, name@, i as int);
                }
                return Some(i as u64);
            }
            i += 1;
        }
        assert(places.take(i as int) =~= places);
        None
    }

    /// Whether something this machine's role needs is missing.
    fn degraded(&self) -> (degraded: bool)
        ensures
            degraded == self@.degraded(),
    {
        !self.capture || (!self.server && !self.emulation)
    }

    /// Asks for what is so to be shown. Every captured motion event comes by
    /// here, and only a change is worth comparing strings for.
    fn publish(&mut self) -> (action: Action)
        ensures
            final(self)@ == old(self)@.published(),
            action@ == old(self)@.publish(),
    {
        let now = self.handover.label();
        let changed = match self.shown {
            Some(shown) => shown != now,
            None => true,
        };
        let mode = if changed {
            Some(now)
        } else {
            None
        };
        self.shown = Some(now);
        Action::Publish { mode, allowed: !self.degraded() }
    }

    /// Whether the release chord means anything here.
    pub fn watches_chord(&self) -> (watches: bool)
        ensures
            watches == (self@.server && self@.capture),
    {
        self.server && self.capture
    }

    /// The capture backend reported something.
    pub fn captured(&mut self, handle: u64, event: Captured, linked: bool) -> (actions: Vec<Action>)
        requires
            old(self).inv(),
        ensures
            final(self).inv(),
            final(self)@ == old(self)@.after(Step::Captured { handle, event, linked }),
            actions_of(actions@) == old(self)@.asks(Step::Captured { handle, event, linked }),
    {
        let mut actions: Vec<Action> = Vec::new();
        if self.capture && handle < self.places.len() as u64 {
            match event {
                Captured::Begin => match crossing(self.server, linked) {
                    Crossing::HandBack => {
                        actions.push(Action::Send(handle, Msg::Leave));
                        actions.push(Action::ReleaseCapture);
                    },
                    Crossing::Stay => actions.push(Action::ReleaseCapture),
                    Crossing::Send => {
                        self.handover.began(handle);
                        actions.push(Action::Send(handle, Msg::Enter));
                        actions.push(Action::PushClipboard(handle));
                    },
                },
                Captured::Input(event) => {
                    if self.server && self.handover.forwarding(handle) {
                        actions.push(Action::Send(handle, Msg::Input(event)));
                    }
                },
            }
        }
        proof {
            law_every_step_keeps_a_session_valid(old(self)@, Step::Captured { handle, event, linked });
        }
        assert(actions_of(actions@) =~= old(self)@.asks(Step::Captured { handle, event, linked }));
        actions
    }

    /// The keys held after a report from the capture backend have been looked
    /// at: `held` is all of them where the release chord is among them.
    pub fn looked(&mut self, handle: u64, held: Option<Vec<u32>>) -> (actions: Vec<Action>)
        requires
            old(self).inv(),
        ensures
            final(self).inv(),
            final(self)@ == old(self)@.after(Step::Looked { handle, held: keys_of(held) }),
            actions_of(actions@) == old(self)@.asks(Step::Looked { handle, held: keys_of(held) }),
    {
        let ghost step = Step::Looked { handle, held: keys_of(held) };
        let mut actions: Vec<Action> = Vec::new();
        if handle >= self.places.len() as u64 {
            assert(actions_of(actions@) =~= old(self)@.asks(step));
            return actions;
        }
        if self.watches_chord() {
            if let Some(keys) = &held {
                let mut i: usize = 0;
                while i < keys.len()
                    invariant
                        i <= keys@.len(),
                        actions_of(actions@) =~= key_ups(handle, keys@.take(i as int)),
                    decreases keys@.len() - i,
                {
                    let ghost before = actions@;
                    let up = Event::Keyboard(
                        KeyboardEvent::Key { time: 0, key: keys[i], state: 0 },
                    );
                    actions.push(Action::Send(handle, Msg::Input(up)));
                    i += 1;
                    proof {
                        lemma_appended(before, Action::Send(handle, Msg::Input(up)));
                        assert(keys@.take(i as int) =~= keys@.take(i - 1).push(keys@[i - 1]));
                        assert(key_ups(handle, keys@.take(i as int)) =~= key_ups(
                            handle,
                            keys@.take(i - 1),
                        ).push(ActionModel::Send(handle, MsgModel::Input(up))));
                    }
                }
                assert(keys@.take(i as int) =~= keys@);
                actions.push(Action::Send(handle, Msg::Leave));
                self.handover.take_back();
                actions.push(Action::ReleaseCapture);
            }
        }
        actions.push(self.publish());
        proof {
            law_every_step_keeps_a_session_valid(old(self)@, step);
        }
        assert(actions_of(actions@) =~= old(self)@.asks(step));
        actions
    }

    /// A link came up or went down: its edge is armed, or dropped.
    pub fn link_changed(&mut self, name: &str, up: bool) -> (actions: Vec<Action>)
        requires
            old(self).inv(),
        ensures
            final(self).inv(),
            final(self)@ == old(self)@.after(Step::LinkChanged { name: name@, up }),
            actions_of(actions@) == old(self)@.asks(Step::LinkChanged { name: name@, up }),
    {
        let mut actions: Vec<Action> = Vec::new();
        if self.capture {
            if let Some(handle) = self.handle_of(name) {
                let at: usize = handle as usize;
                if self.armed[at] != up {
                    self.armed.set(at, up);
                    if up {
                        actions.push(Action::Restrict(zero_based(self.places[at].display)));
                        actions.push(Action::Create(handle, self.places[at].position));
                    } else {
                        actions.push(Action::Destroy(handle));
                    }
                }
            }
        }
        assert(actions_of(actions@) =~= old(self)@.asks(Step::LinkChanged { name: name@, up }));
        proof {
            law_every_step_keeps_a_session_valid(old(self)@, Step::LinkChanged { name: name@, up });
        }
        assert(self@ =~= old(self)@.after(Step::LinkChanged { name: name@, up }));
        actions
    }

    /// Someone moved a peer's screen. The capture backend keys a grab to a
    /// screen side, so the edge is dropped and taken anew; and the peer is told
    /// which of its own edges faces us now, so that both ends agree.
    pub fn moved(&self, handle: u64, side: Side, display: Option<usize>) -> (actions: Vec<Action>)
        requires
            self.inv(),
        ensures
            actions_of(actions@) == self@.asks(Step::Moved { handle, side, display }),
    {
        let mut actions: Vec<Action> = Vec::new();
        if handle < self.places.len() as u64 {
            if self.capture && self.armed[handle as usize] {
                actions.push(Action::Destroy(handle));
                actions.push(Action::Restrict(zero_based(display)));
                actions.push(Action::Create(handle, side));
            }
            actions.push(Action::Send(handle, Msg::Arrange(side.opposite())));
        }
        assert(actions_of(actions@) =~= self@.asks(Step::Moved { handle, side, display }));
        actions
    }

    /// Whether to try opening the capture backend again.
    pub fn wants_capture(&self) -> (wants: bool)
        ensures
            wants == !self@.capture,
    {
        !self.capture
    }

    /// Whether to try opening the emulation backend again.
    pub fn wants_emulation(&self) -> (wants: bool)
        ensures
            wants == (!self@.server && !self@.emulation),
    {
        !self.server && !self.emulation
    }

    /// The capture backend works now: the armed edges are watched.
    pub fn capture_opened(&mut self) -> (actions: Vec<Action>)
        requires
            old(self).inv(),
        ensures
            final(self).inv(),
            final(self)@ == old(self)@.after(Step::CaptureOpened),
            actions_of(actions@) == old(self)@.asks(Step::CaptureOpened),
    {
        self.capture = true;
        proof {
            law_every_step_keeps_a_session_valid(old(self)@, Step::CaptureOpened);
        }
        let mut actions: Vec<Action> = Vec::new();
        let mut i: usize = 0;
        let ghost places = self@.places;
        while i < self.places.len()
            invariant
                i <= self.places@.len() == self.armed@.len(),
                places == self@.places,
                actions_of(actions@) =~= edges_for(places, self.armed@, i as nat),
            decreases self.places@.len() - i,
        {
            if self.armed[i] {
                assert(places[i as int] == self.places@[i as int]@);
                actions.push(Action::Restrict(zero_based(self.places[i].display)));
                actions.push(Action::Create(i as u64, self.places[i].position));
            }
            i += 1;
        }
        actions
    }

    /// The emulation backend works now: every peer can be typed for.
    pub fn emulation_opened(&mut self) -> (actions: Vec<Action>)
        requires
            old(self).inv(),
        ensures
            final(self).inv(),
            final(self)@ == old(self)@.after(Step::EmulationOpened),
            actions_of(actions@) == old(self)@.asks(Step::EmulationOpened),
    {
        let mut actions: Vec<Action> = Vec::new();
        self.emulation = !self.server;
        if !self.server {
            let mut i: usize = 0;
            while i < self.places.len()
                invariant
                    i <= self.places@.len(),
                    actions_of(actions@) =~= emulation_for(i as nat),
                decreases self.places@.len() - i,
            {
                let ghost before = actions@;
                actions.push(Action::CreateEmulation(i as u64));
                i += 1;
                proof {
                    lemma_appended(before, Action::CreateEmulation((i - 1) as u64));
                    assert(emulation_for(i as nat) =~= emulation_for((i - 1) as nat).push(
                        ActionModel::CreateEmulation((i - 1) as u64),
                    ));
                }
            }
        }
        proof {
            law_every_step_keeps_a_session_valid(old(self)@, Step::EmulationOpened);
        }
        assert(actions_of(actions@) =~= old(self)@.asks(Step::EmulationOpened));
        actions
    }

    /// The second tries at the backends are over, whatever came of them.
    pub fn retried(&mut self) -> (actions: Vec<Action>)
        requires
            old(self).inv(),
        ensures
            final(self).inv(),
            final(self)@ == old(self)@.after(Step::Retried),
            actions_of(actions@) == old(self)@.asks(Step::Retried),
    {
        let mut actions: Vec<Action> = Vec::new();
        actions.push(self.publish());
        proof {
            law_every_step_keeps_a_session_valid(old(self)@, Step::Retried);
        }
        assert(actions_of(actions@) =~= old(self)@.asks(Step::Retried));
        actions
    }

    /// A peer said something.
    pub fn incoming(&mut self, name: &str, msg: Msg) -> (actions: Vec<Action>)
        requires
            old(self).inv(),
        ensures
            final(self).inv(),
            final(self)@ == old(self)@.after(Step::Incoming { name: name@, msg: msg@ }),
            actions_of(actions@) == old(self)@.asks(Step::Incoming { name: name@, msg: msg@ }),
    {
        let ghost step = Step::Incoming { name: name@, msg: msg@ };
        let mut actions: Vec<Action> = Vec::new();
        let handle = match self.handle_of(name) {
            Some(handle) => handle,
            None => {
                assert(actions_of(actions@) =~= old(self)@.asks(step));
                return actions;
            },
        };
        match msg {
            Msg::Enter => {
                if self.handover.peer_entered(handle) && self.capture {
                    actions.push(Action::ReleaseCapture);
                }
            },
            Msg::Leave => match self.handover.peer_left(handle) {
                Cleanup::ReleaseKeys => {
                    if self.emulation {
                        actions.push(Action::ReleaseKeys(handle));
                    }
                },
                Cleanup::ReleaseCapture => {
                    if self.capture {
                        actions.push(Action::ReleaseCapture);
                    }
                },
                Cleanup::Nothing => {},
            },
            // On a server `peer_input` is always false, so a client that sends
            // input anyway is ignored rather than obeyed.
            Msg::Input(event) => {
                if self.handover.peer_input(handle) && self.emulation {
                    actions.push(Action::Type(handle, event));
                }
            },
            Msg::Clipboard(clip) => actions.push(Action::WriteClipboard(clip)),
            Msg::Arrange(side) => {
                actions.push(Action::SaveSide(handle, side));
                if self.capture && self.armed[handle as usize] {
                    actions.push(Action::Destroy(handle));
                    actions.push(Action::Create(handle, side));
                }
            },
            Msg::Screens(list) => actions.push(Action::KeepScreens(handle, list)),
            Msg::Ping(_) | Msg::Pong(_) => {},
        }
        actions.push(self.publish());
        proof {
            law_every_step_keeps_a_session_valid(old(self)@, step);
        }
        assert(actions_of(actions@) =~= old(self)@.asks(step));
        actions
    }
}

/// One more action in a list is one more action in its model.
proof fn lemma_appended(actions: Seq<Action>, action: Action)
    ensures
        actions_of(actions.push(action)) == actions_of(actions).push(action@),
{
    assert(actions_of(actions.push(action)) =~= actions_of(actions).push(action@));
}

/// The first place with a name is the place of that name.
proof fn lemma_first_place(places: Seq<PlaceModel>, name: Seq<char>, at: int)
    requires
        0 <= at < places.len(),
        place_of(places.take(at), name) is None,
        places[at].name == name,
    ensures
        place_of(places, name) == Some(at as u64),
    decreases places.len(),
{
    if at == places.len() - 1 {
        assert(places.take(at) =~= places.drop_last());
    } else {
        assert(places.drop_last().take(at) =~= places.take(at));
        lemma_first_place(places.drop_last(), name, at);
    }
}

/// The place of a name is a place that has it.
proof fn lemma_place_has_name(places: Seq<PlaceModel>, name: Seq<char>)
    requires
        places.len() <= usize::MAX,
    ensures
        place_of(places, name) matches Some(h) ==> h < places.len() && places[h as int].name
            == name,
    decreases places.len(),
{
    if places.len() > 0 {
        lemma_place_has_name(places.drop_last(), name);
    }
}

/// Whatever happens to a session, it keeps what holds of every session: only a
/// client is driven, only a server sends, and an edge is armed only where it is
/// watched.
pub proof fn law_every_step_keeps_a_session_valid(session: SessionModel, step: Step)
    requires
        session.valid(),
    ensures
        session.after(step).valid(),
{
    match step {
        Step::LinkChanged { name, up } => lemma_place_has_name(session.places, name),
        Step::Incoming { name, msg } => lemma_place_has_name(session.places, name),
        _ => {},
    }
}

/// The session after all of these steps.
pub open spec fn run(session: SessionModel, steps: Seq<Step>) -> SessionModel
    decreases steps.len(),
{
    if steps.len() == 0 {
        session
    } else {
        run(session, steps.drop_last()).after(steps.last())
    }
}

/// However a session goes, from its start on: it stays the server or the client
/// it started as, and keeps what holds of every session.
pub proof fn law_every_session_is_valid(
    server: bool,
    places: Seq<PlaceModel>,
    capture: bool,
    emulation: bool,
    steps: Seq<Step>,
)
    requires
        places.len() <= usize::MAX,
    ensures
        run(SessionModel::initial(server, places, capture, emulation), steps).valid(),
        run(SessionModel::initial(server, places, capture, emulation), steps).server == server,
    decreases steps.len(),
{
    if steps.len() > 0 {
        law_every_session_is_valid(server, places, capture, emulation, steps.drop_last());
        law_every_step_keeps_a_session_valid(
            run(SessionModel::initial(server, places, capture, emulation), steps.drop_last()),
            steps.last(),
        );
    }
}

/// A server is never driven by its peer: whatever happens, nothing is typed
/// here and the server never takes itself to be receiving.
pub proof fn law_a_server_is_never_driven_by_its_peer(session: SessionModel, step: Step)
    requires
        session.valid(),
        session.server,
    ensures
        !(session.after(step).handover.mode is Receiving),
        forall|i: int| 0 <= i < session.asks(step).len() ==> !(#[trigger] session.asks(step)[i]
            is Type),
{
    law_every_step_keeps_a_session_valid(session, step);
    lemma_edges_are_edges(session.places, session.armed, session.places.len());
}

/// A client shares no input of its own: whatever happens, all it ever says to a
/// peer is that control is handed back, or on which side that peer sits.
pub proof fn law_a_client_shares_no_input(session: SessionModel, step: Step)
    requires
        session.valid(),
        !session.server,
    ensures
        !(session.after(step).handover.mode is Sending),
        forall|i: int|
            0 <= i < session.asks(step).len() ==> match #[trigger] session.asks(step)[i] {
                ActionModel::Send(_, msg) => msg is Leave || msg is Arrange,
                ActionModel::PushClipboard(_) => false,
                _ => true,
            },
{
    law_every_step_keeps_a_session_valid(session, step);
    lemma_edges_are_edges(session.places, session.armed, session.places.len());
}

/// Watching edges is all that watching edges asks for.
proof fn lemma_edges_are_edges(places: Seq<PlaceModel>, armed: Seq<bool>, count: nat)
    ensures
        forall|i: int|
            0 <= i < edges_for(places, armed, count).len() ==> (#[trigger] edges_for(
                places,
                armed,
                count,
            )[i] is Restrict || edges_for(places, armed, count)[i] is Create),
    decreases count,
{
    if count > 0 {
        lemma_edges_are_edges(places, armed, (count - 1) as nat);
    }
}

/// Input is forwarded to the peer whose edge was crossed, and to nobody else.
pub proof fn law_input_follows_the_cursor(
    session: SessionModel,
    handle: u64,
    event: Event,
    linked: bool,
)
    requires
        session.valid(),
    ensures
        session.asks(Step::Captured { handle, event: Captured::Input(event), linked }) == if session
            .handover.mode == Mode::Sending(handle) {
            seq![ActionModel::Send(handle, MsgModel::Input(event))]
        } else {
            Seq::empty()
        },
{
}

/// An edge never traps the cursor. Crossing it either starts feeding a peer
/// with a live link, or lets the cursor go and leaves everything as it was.
pub proof fn law_an_edge_never_traps_the_cursor(session: SessionModel, handle: u64, linked: bool)
    requires
        session.valid(),
        session.capture,
        handle < session.places.len(),
    ensures
        ({
            let step = Step::Captured { handle, event: Captured::Begin, linked };
            if session.server && linked {
                session.after(step).handover.mode == Mode::Sending(handle)
            } else {
                session.asks(step).last() == ActionModel::ReleaseCapture && session.after(step)
                    == session
            }
        }),
{
}

/// A dead link never leaves input stuck: once a peer has left, it neither
/// drives this machine nor is driven by it, the cursor is let go if it was held
/// for that peer, and the keys that the peer held here are lifted.
pub proof fn law_a_dead_link_never_leaves_input_stuck(session: SessionModel, name: Seq<char>)
    requires
        session.valid(),
        session.handle_of(name) is Some,
    ensures
        ({
            let handle = session.handle_of(name)->0;
            let step = Step::Incoming { name, msg: MsgModel::Leave };
            let mode = session.handover.mode;
            &&& session.after(step).handover.mode != Mode::Sending(handle)
            &&& session.after(step).handover.mode != Mode::Receiving(handle)
            &&& mode == Mode::Sending(handle) ==> session.asks(step)[0]
                == ActionModel::ReleaseCapture
            &&& mode == Mode::Receiving(handle) && session.emulation ==> session.asks(step)[0]
                == ActionModel::ReleaseKeys(handle)
        }),
{
}

/// The release chord wins: input is local again, whatever the peer thinks. The
/// peer is first told that every held key is up, then that control is back here,
/// and the cursor is let go.
pub proof fn law_the_release_chord_wins(session: SessionModel, handle: u64, held: Seq<u32>)
    requires
        session.valid(),
        session.server,
        session.capture,
        handle < session.places.len(),
    ensures
        ({
            let step = Step::Looked { handle, held: Some(held) };
            let asked = session.asks(step);
            let n = held.len() as int;
            &&& session.after(step).handover.mode == Mode::Local
            &&& asked.len() == n + 3
            &&& forall|i: int|
                0 <= i < n ==> #[trigger] asked[i] == ActionModel::Send(
                    handle,
                    MsgModel::Input(
                        Event::Keyboard(KeyboardEvent::Key { time: 0, key: held[i], state: 0 }),
                    ),
                )
            &&& asked[n] == ActionModel::Send(handle, MsgModel::Leave)
            &&& asked[n + 1] == ActionModel::ReleaseCapture
        }),
{
}

/// Motion that overtakes its announcement still lands: input from a peer while
/// this client is idle is typed, and the peer has the cursor from then on.
pub proof fn law_motion_that_overtakes_its_announcement_still_lands(
    session: SessionModel,
    name: Seq<char>,
    event: Event,
)
    requires
        session.valid(),
        !session.server,
        session.emulation,
        session.handover.mode == Mode::Local,
        session.handle_of(name) is Some,
    ensures
        ({
            let handle = session.handle_of(name)->0;
            let step = Step::Incoming { name, msg: MsgModel::Input(event) };
            &&& session.asks(step)[0] == ActionModel::Type(handle, event)
            &&& session.after(step).handover.mode == Mode::Receiving(handle)
        }),
{
}

/// A move reaches both ends: when a peer is moved to one side here, it is told
/// to take this machine to sit on the facing side, and remembers that.
pub proof fn law_a_move_reaches_both_ends(
    here: SessionModel,
    there: SessionModel,
    handle: u64,
    side: Side,
    display: Option<usize>,
    name: Seq<char>,
)
    requires
        here.valid(),
        there.valid(),
        handle < here.places.len(),
        there.handle_of(name) is Some,
    ensures
        ({
            let told = MsgModel::Arrange(side.facing());
            &&& here.asks(Step::Moved { handle, side, display }).last() == ActionModel::Send(
                handle,
                told,
            )
            &&& there.asks(Step::Incoming { name, msg: told })[0] == ActionModel::SaveSide(
                there.handle_of(name)->0,
                side.facing(),
            )
        }),
{
}

/// What is shown is what is so: ownership changes hands where the capture
/// reports something or a peer says something, and what is shown follows before
/// the next thing happens.
pub proof fn law_what_is_shown_is_what_is_so(session: SessionModel, step: Step)
    ensures
        match step {
            Step::Captured { .. } => true,
            Step::Looked { handle, .. } => handle < session.places.len() ==> session.after(step).shown
                == Some(session.after(step).handover.mode.label()),
            Step::Retried => session.after(step).shown == Some(
                session.after(step).handover.mode.label(),
            ),
            Step::Incoming { name, .. } => session.handle_of(name) is Some ==> session.after(
                step,
            ).shown == Some(session.after(step).handover.mode.label()),
            _ => session.after(step).shown == session.shown && session.after(step).handover
                == session.handover,
        },
{
}

/// The edges being watched once this action has been performed, or `None`
/// where an edge would be taken that is already watched, or dropped that is not.
pub open spec fn touched(edges: Set<u64>, action: ActionModel) -> Option<Set<u64>> {
    match action {
        ActionModel::Create(handle, _) => if edges.contains(handle) {
            None
        } else {
            Some(edges.insert(handle))
        },
        ActionModel::Destroy(handle) => if edges.contains(handle) {
            Some(edges.remove(handle))
        } else {
            None
        },
        _ => Some(edges),
    }
}

/// The same for all of these actions, one after another.
pub open spec fn watched(edges: Set<u64>, actions: Seq<ActionModel>) -> Option<Set<u64>>
    decreases actions.len(),
{
    if actions.len() == 0 {
        Some(edges)
    } else {
        match touched(edges, actions[0]) {
            None => None,
            Some(next) => watched(next, actions.drop_first()),
        }
    }
}

impl SessionModel {
    /// The armed edges.
    pub open spec fn edges(self) -> Set<u64> {
        Set::new(|h: u64| h < self.armed.len() && self.armed[h as int])
    }
}

/// Actions that neither take nor drop an edge leave the edges alone.
proof fn lemma_edges_untouched(edges: Set<u64>, actions: Seq<ActionModel>)
    requires
        forall|i: int|
            0 <= i < actions.len() ==> !(#[trigger] actions[i] is Create) && !(actions[i]
                is Destroy),
    ensures
        watched(edges, actions) == Some(edges),
    decreases actions.len(),
{
    if actions.len() > 0 {
        let rest = actions.drop_first();
        assert forall|i: int| 0 <= i < rest.len() implies !(#[trigger] rest[i] is Create) && !(
        rest[i] is Destroy) by {
            assert(rest[i] == actions[i + 1]);
        }
        lemma_edges_untouched(edges, rest);
    }
}

/// One action more in front.
proof fn lemma_watched_from(edges: Set<u64>, action: ActionModel, rest: Seq<ActionModel>)
    ensures
        watched(edges, seq![action] + rest) == match touched(edges, action) {
            None => None,
            Some(next) => watched(next, rest),
        },
{
    assert((seq![action] + rest).drop_first() =~= rest);
}

/// Dropping an edge and taking it again leaves the edges as they were.
proof fn lemma_edge_retaken(
    edges: Set<u64>,
    first: ActionModel,
    handle: u64,
    then: ActionModel,
    side: Side,
    rest: ActionModel,
)
    requires
        edges.contains(handle),
        !(first is Create) && !(first is Destroy),
        !(then is Create) && !(then is Destroy),
        !(rest is Create) && !(rest is Destroy),
    ensures
        watched(
            edges,
            seq![first, ActionModel::Destroy(handle), then, ActionModel::Create(handle, side), rest],
        ) == Some(edges),
        watched(
            edges,
            seq![first, ActionModel::Destroy(handle), ActionModel::Create(handle, side), rest],
        ) == Some(edges),
        watched(
            edges,
            seq![ActionModel::Destroy(handle), then, ActionModel::Create(handle, side), rest],
        ) == Some(edges),
{
    let drop = ActionModel::Destroy(handle);
    let take = ActionModel::Create(handle, side);
    let without = edges.remove(handle);
    assert(without.insert(handle) =~= edges);
    lemma_edges_untouched(edges, seq![rest]);
    lemma_watched_from(without, take, seq![rest]);
    lemma_watched_from(without, then, seq![take] + seq![rest]);
    lemma_watched_from(edges, drop, seq![take] + seq![rest]);
    lemma_watched_from(edges, drop, seq![then] + (seq![take] + seq![rest]));
    lemma_watched_from(edges, first, seq![drop] + (seq![take] + seq![rest]));
    lemma_watched_from(edges, first, seq![drop] + (seq![then] + (seq![take] + seq![rest])));
    assert(seq![first, drop, then, take, rest] =~= seq![first] + (seq![drop] + (seq![then] + (
    seq![take] + seq![rest]))));
    assert(seq![first, drop, take, rest] =~= seq![first] + (seq![drop] + (seq![take]
        + seq![rest])));
    assert(seq![drop, then, take, rest] =~= seq![drop] + (seq![then] + (seq![take]
        + seq![rest])));
}

/// The backend's edges are the armed ones, always: no step takes an edge that
/// is already watched or drops one that is not, and after the step exactly the
/// armed edges are watched.
pub proof fn law_the_watched_edges_are_the_armed_ones(session: SessionModel, step: Step)
    requires
        session.valid(),
        step is CaptureOpened ==> !session.capture,
    ensures
        watched(session.edges(), session.asks(step)) == Some(session.after(step).edges()),
{
    let edges = session.edges();
    let asked = session.asks(step);
    match step {
        Step::LinkChanged { name, up } => {
            lemma_place_has_name(session.places, name);
            lemma_link_changed_edges(session, name, up);
        },
        Step::Moved { handle, side, display } => {
            if handle < session.places.len() && session.watching(handle) {
                let restrict = ActionModel::Restrict(from_zero(display));
                let tell = ActionModel::Send(handle, MsgModel::Arrange(side.facing()));
                lemma_edge_retaken(edges, tell, handle, restrict, side, tell);
                assert(asked =~= seq![
                    ActionModel::Destroy(handle),
                    restrict,
                    ActionModel::Create(handle, side),
                    tell,
                ]);
            } else {
                lemma_edges_untouched(edges, asked);
            }
        },
        Step::Incoming { name, msg } => {
            lemma_place_has_name(session.places, name);
            match (session.handle_of(name), msg) {
                (Some(handle), MsgModel::Arrange(side)) if session.watching(handle) => {
                    let save = ActionModel::SaveSide(handle, side);
                    let show = session.told(handle, msg).publish();
                    lemma_edge_retaken(edges, save, handle, show, side, show);
                    assert(asked =~= seq![
                        save,
                        ActionModel::Destroy(handle),
                        ActionModel::Create(handle, side),
                        show,
                    ]);
                },
                _ => lemma_edges_untouched(edges, asked),
            }
        },
        Step::CaptureOpened => {
            lemma_nothing_armed(session.places, session.armed, session.places.len());
        },
        _ => {
            lemma_edges_untouched(edges, asked);
        },
    }
}

/// A link that comes up takes its edge, and one that goes down drops it.
proof fn lemma_link_changed_edges(session: SessionModel, name: Seq<char>, up: bool)
    requires
        session.valid(),
    ensures
        watched(session.edges(), session.asks(Step::LinkChanged { name, up })) == Some(
            session.after(Step::LinkChanged { name, up }).edges(),
        ),
{
    let step = Step::LinkChanged { name, up };
    let edges = session.edges();
    let asked = session.asks(step);
    let after = session.after(step).edges();
    lemma_place_has_name(session.places, name);
    match session.handle_of(name) {
        Some(handle) if session.capture && session.armed[handle as int] != up => {
            let none = Seq::<ActionModel>::empty();
            if up {
                let place = session.places[handle as int];
                let restrict = ActionModel::Restrict(from_zero(place.display));
                let take = ActionModel::Create(handle, place.position);
                lemma_watched_from(edges, restrict, seq![take] + none);
                lemma_watched_from(edges, take, none);
                assert(asked =~= seq![restrict] + (seq![take] + none));
                assert(after =~= edges.insert(handle));
            } else {
                lemma_watched_from(edges, ActionModel::Destroy(handle), none);
                assert(asked =~= seq![ActionModel::Destroy(handle)] + none);
                assert(after =~= edges.remove(handle));
            }
        },
        Some(handle) if session.capture => {
            assert(session.armed.update(handle as int, up) =~= session.armed);
        },
        _ => {},
    }
}

/// Where nothing is armed, no edge is taken.
proof fn lemma_nothing_armed(places: Seq<PlaceModel>, armed: Seq<bool>, count: nat)
    requires
        count <= armed.len(),
        forall|i: int| 0 <= i < armed.len() ==> !#[trigger] armed[i],
    ensures
        edges_for(places, armed, count) == Seq::<ActionModel>::empty(),
    decreases count,
{
    if count > 0 {
        lemma_nothing_armed(places, armed, (count - 1) as nat);
    }
}

/// The keyboard follows the cursor: while this machine feeds a peer, whatever is
/// captured here goes to that peer, arrives there as it was, and is typed there.
pub proof fn law_what_is_captured_here_is_typed_there(
    here: SessionModel,
    there: SessionModel,
    handle: u64,
    event: Event,
    linked: bool,
    name: Seq<char>,
)
    requires
        here.valid(),
        here.handover.mode == Mode::Sending(handle),
        there.valid(),
        !there.server,
        there.emulation,
        there.handle_of(name) is Some,
        there.handover.mode == Mode::Local || there.handover.mode == Mode::Receiving(
            there.handle_of(name)->0,
        ),
    ensures
        ({
            let msg = MsgModel::Input(event);
            let captured = Step::Captured { handle, event: Captured::Input(event), linked };
            &&& here.asks(captured) == seq![ActionModel::Send(handle, msg)]
            &&& link::on_arrival(msg.channel(), msg.bytes()) == seq![link::DoingModel::Deliver(msg)]
            &&& there.asks(Step::Incoming { name, msg })[0] == ActionModel::Type(
                there.handle_of(name)->0,
                event,
            )
        }),
{
    link::law_what_is_said_is_heard(MsgModel::Input(event));
}

/// There is always a way back: crossing the client's edge makes the server let
/// the cursor go and take input to be local again.
pub proof fn law_the_clients_edge_is_the_way_back(
    server: SessionModel,
    client: SessionModel,
    handle: u64,
    linked: bool,
    name: Seq<char>,
)
    requires
        client.valid(),
        !client.server,
        client.capture,
        handle < client.places.len(),
        server.valid(),
        server.handle_of(name) is Some,
        server.handover.mode == Mode::Sending(server.handle_of(name)->0),
    ensures
        ({
            let crossed = Step::Captured { handle, event: Captured::Begin, linked };
            let told = Step::Incoming { name, msg: MsgModel::Leave };
            &&& client.asks(crossed)[0] == ActionModel::Send(handle, MsgModel::Leave)
            &&& link::on_arrival(MsgModel::Leave.channel(), MsgModel::Leave.bytes()) == seq![
                link::DoingModel::Deliver(MsgModel::Leave),
            ]
            &&& server.asks(told)[0] == ActionModel::ReleaseCapture
            &&& server.after(told).handover.mode == Mode::Local
        }),
{
    link::law_what_is_said_is_heard(MsgModel::Leave);
}

/// Copy here, paste there: a clip that is sent arrives as it was and is put on
/// the clipboard there, where it is then not taken for a new copy.
pub proof fn law_a_copy_here_can_be_pasted_there(
    there: SessionModel,
    name: Seq<char>,
    clip: ClipModel,
)
    requires
        MsgModel::Clipboard(clip).fits(),
        there.handle_of(name) is Some,
    ensures
        ({
            let msg = MsgModel::Clipboard(clip);
            &&& link::on_arrival(msg.channel(), msg.bytes()) == seq![link::DoingModel::Deliver(msg)]
            &&& there.asks(Step::Incoming { name, msg })[0] == ActionModel::WriteClipboard(clip)
            &&& !LastSeen::having_seen(clip).is_new(clip)
        }),
{
    link::law_what_is_said_is_heard(MsgModel::Clipboard(clip));
}

/// A name means the first peer that has it, and nobody where none has.
pub proof fn law_a_name_means_the_first_peer_that_has_it(places: Seq<PlaceModel>, name: Seq<char>)
    requires
        places.len() <= usize::MAX,
    ensures
        match place_of(places, name) {
            Some(h) => {
                &&& h < places.len()
                &&& places[h as int].name == name
                &&& forall|i: int| 0 <= i < h ==> (#[trigger] places[i]).name != name
            },
            None => forall|i: int| 0 <= i < places.len() ==> (#[trigger] places[i]).name != name,
        },
    decreases places.len(),
{
    if places.len() > 0 {
        let rest = places.drop_last();
        law_a_name_means_the_first_peer_that_has_it(rest, name);
        assert forall|i: int| 0 <= i < rest.len() implies #[trigger] places[i] == rest[i] by {}
        if place_of(rest, name) is None {
            assert forall|i: int| 0 <= i < places.len() - 1 implies (#[trigger] places[i]).name
                != name by {
                assert(rest[i].name != name);
            }
        } else {
            let h = place_of(rest, name)->0;
            assert forall|i: int| 0 <= i < h implies (#[trigger] places[i]).name != name by {
                assert(rest[i].name != name);
            }
        }
    }
}

/// The first peer that has a name is the one that the name means.
proof fn lemma_means(session: SessionModel, name: Seq<char>, at: u64)
    requires
        session.valid(),
        at < session.places.len(),
        session.places[at as int].name == name,
        forall|i: int| 0 <= i < at ==> (#[trigger] session.places[i]).name != name,
    ensures
        session.handle_of(name) == Some(at),
{
    law_a_name_means_the_first_peer_that_has_it(session.places, name);
    if session.handle_of(name) is Some {
        let h = session.handle_of(name)->0;
        assert(session.places[h as int].name == name);
        if h < at {
            assert(session.places[h as int].name != name);
        } else if at < h {
            assert(session.places[at as int].name != name);
        }
    } else {
        assert(session.places[at as int].name != name);
    }
}

/// A name that no peer has means nobody.
proof fn lemma_means_nobody(session: SessionModel, name: Seq<char>)
    requires
        session.valid(),
        forall|i: int| 0 <= i < session.places.len() ==> (#[trigger] session.places[i]).name != name,
    ensures
        session.handle_of(name) is None,
{
    law_a_name_means_the_first_peer_that_has_it(session.places, name);
}

/// People count displays from 1 and the backend counts from 0; the number 0,
/// which nobody should use, is the first display too.
pub proof fn law_displays_are_counted_from_one(d: usize)
    ensures
        from_zero(None) is None,
        from_zero(Some(d)) is Some,
        d >= 1 ==> from_zero(Some(d))->0 + 1 == d,
        d == 0 ==> from_zero(Some(d))->0 == 0,
{
}

/// Crossing a linked peer's edge hands everything to that peer and to nobody
/// else: it is the one told that it has the cursor, the one that gets the
/// clipboard, and the one that whatever is captured next goes to. Nothing else
/// about the session changes. A client that is told so by its peer takes itself
/// to be driven by that peer.
pub proof fn law_crossing_an_edge_hands_over_to_that_peer(
    here: SessionModel,
    handle: u64,
    there: SessionModel,
    name: Seq<char>,
    at: u64,
)
    requires
        here.valid(),
        here.server,
        here.capture,
        handle < here.places.len(),
        there.valid(),
        !there.server,
        at < there.places.len(),
        there.places[at as int].name == name,
        forall|i: int| 0 <= i < at ==> (#[trigger] there.places[i]).name != name,
    ensures
        ({
            let crossed = Step::Captured { handle, event: Captured::Begin, linked: true };
            let after = here.after(crossed);
            &&& here.asks(crossed) == seq![
                ActionModel::Send(handle, MsgModel::Enter),
                ActionModel::PushClipboard(handle),
            ]
            &&& after == (SessionModel {
                handover: Handover {
                    mode: Mode::Sending(handle),
                    driven: here.handover.driven,
                },
                ..here
            })
            &&& forall|other: u64, event: Event, linked: bool| #[trigger]
                after.asks(
                    Step::Captured { handle: other, event: Captured::Input(event), linked },
                ) == if other == handle {
                    seq![ActionModel::Send(handle, MsgModel::Input(event))]
                } else {
                    Seq::empty()
                }
        }),
        link::on_arrival(MsgModel::Enter.channel(), MsgModel::Enter.bytes()) == seq![
            link::DoingModel::Deliver(MsgModel::Enter),
        ],
        there.after(Step::Incoming { name, msg: MsgModel::Enter }).handover == (Handover {
            mode: Mode::Receiving(at),
            driven: true,
        }),
{
    lemma_means(there, name, at);
    link::law_what_is_said_is_heard(MsgModel::Enter);
}

/// Crossing an edge that leads nowhere. A server without a live link lets the
/// cursor go and says nothing. A client, linked or not, says that control is
/// handed back to that peer, and then lets the cursor go. Neither changes
/// anything about the session.
pub proof fn law_an_edge_that_leads_nowhere_lets_go(
    session: SessionModel,
    handle: u64,
    linked: bool,
)
    requires
        session.valid(),
        session.capture,
        handle < session.places.len(),
        session.server ==> !linked,
    ensures
        ({
            let crossed = Step::Captured { handle, event: Captured::Begin, linked };
            &&& session.after(crossed) == session
            &&& session.server ==> session.asks(crossed) == seq![ActionModel::ReleaseCapture]
            &&& !session.server ==> session.asks(crossed) == seq![
                ActionModel::Send(handle, MsgModel::Leave),
                ActionModel::ReleaseCapture,
            ]
        }),
{
}

/// A report without a capture, or at the edge of a peer that is not there, means
/// nothing; and what is captured at an edge is passed on without changing who
/// owns input.
pub proof fn law_only_crossing_an_edge_moves_control(
    session: SessionModel,
    handle: u64,
    event: Captured,
    linked: bool,
)
    requires
        session.valid(),
        !session.capture || handle >= session.places.len() || event is Input,
    ensures
        session.after(Step::Captured { handle, event, linked }) == session,
        !session.capture || handle >= session.places.len() ==> session.asks(
            Step::Captured { handle, event, linked },
        ) == Seq::<ActionModel>::empty(),
{
}

/// Looking at the keys held. Only on a server that captures does the release
/// chord mean anything: there it puts input back here, whatever it was before.
/// Everywhere else, and without the chord, who owns input is left alone. Either
/// way what is so is shown at the end, and nothing else about the session
/// changes.
pub proof fn law_only_the_chord_takes_input_back(
    session: SessionModel,
    handle: u64,
    held: Option<Seq<u32>>,
)
    requires
        session.valid(),
    ensures
        ({
            let step = Step::Looked { handle, held };
            let after = session.after(step);
            let chord = session.server && session.capture && held is Some;
            let there = handle < session.places.len();
            &&& after == (SessionModel {
                handover: after.handover,
                shown: after.shown,
                ..session
            })
            &&& after.handover == (Handover {
                mode: if there && chord {
                    Mode::Local
                } else {
                    session.handover.mode
                },
                driven: session.handover.driven,
            })
            &&& !there ==> after == session && session.asks(step) == Seq::<ActionModel>::empty()
            &&& there ==> session.asks(step).last() is Publish
            &&& there && !chord ==> session.asks(step).len() == 1
        }),
{
}

/// What a session shows is what is so, and a missing permission is never hidden.
/// Whatever is shown after a step says that this machine is allowed to work
/// exactly where it can capture and, on a client, can type. It names the flow of
/// input where that is not what was shown before, and only then.
pub proof fn law_a_missing_permission_is_always_shown(session: SessionModel, step: Step)
    requires
        session.valid(),
    ensures
        forall|i: int|
            0 <= i < session.asks(step).len() ==> match #[trigger] session.asks(step)[i] {
                ActionModel::Publish { mode, allowed } => {
                    let now = session.after(step).handover.mode;
                    let flow = if now is Sending {
                        Label::Sending
                    } else if now is Receiving {
                        Label::Receiving
                    } else {
                        Label::Local
                    };
                    &&& allowed == (session.capture && (session.server || session.emulation))
                    &&& mode == if session.shown == Some(flow) {
                        None
                    } else {
                        Some(flow)
                    }
                    &&& session.after(step).shown == Some(flow)
                    &&& i == session.asks(step).len() - 1
                },
                _ => true,
            },
{
    lemma_edges_are_edges(session.places, session.armed, session.places.len());
}

/// The second tries at the backends end with what is so being shown, and with
/// nothing else.
pub proof fn law_the_second_tries_end_in_a_showing(session: SessionModel)
    requires
        session.valid(),
    ensures
        session.asks(Step::Retried).len() == 1,
        session.asks(Step::Retried)[0] is Publish,
        session.after(Step::Retried) == (SessionModel {
            shown: session.after(Step::Retried).shown,
            ..session
        }),
{
}

/// A session starts with input local, nothing armed, and the server typing
/// nothing. It first and last shows whether this machine can work: where it can
/// capture and, on a client, can type. Between the two a client that can type
/// prepares to type for every peer, in their order; a server prepares nothing.
pub proof fn law_a_session_starts_at_rest(
    server: bool,
    places: Seq<PlaceModel>,
    capture: bool,
    emulation: bool,
)
    requires
        places.len() <= usize::MAX,
    ensures
        ({
            let session = SessionModel::initial(server, places, capture, emulation);
            let asked = session.opening();
            let able = capture && (server || emulation);
            let types = !server && emulation;
            &&& session.server == server && session.places == places && session.capture == capture
            &&& session.emulation == types
            &&& session.handover == (Handover { mode: Mode::Local, driven: !server })
            &&& session.shown == Some(Label::Local)
            &&& session.armed.len() == places.len()
            &&& forall|i: int| 0 <= i < places.len() ==> !#[trigger] session.armed[i]
            &&& asked.len() == 2 + if types {
                places.len() as int
            } else {
                0
            }
            &&& asked[0] == (ActionModel::Publish { mode: None, allowed: able })
            &&& asked.last() == (ActionModel::Publish {
                mode: Some(Label::Local),
                allowed: able,
            })
            &&& types ==> forall|i: int|
                0 <= i < places.len() ==> #[trigger] asked[i + 1] == ActionModel::CreateEmulation(
                    i as u64,
                )
        }),
{
}

/// A peer's edge is watched exactly while there is a link to it. A link that
/// comes up has that peer's edge taken, on the side and the display where the
/// peer sits; one that goes down has it dropped. No other edge is touched, and
/// nothing else about the session changes. A link that is already known to be up
/// or down, one to a stranger, and one where nothing can be captured ask for
/// nothing.
pub proof fn law_an_edge_is_armed_while_its_link_is_up(
    session: SessionModel,
    name: Seq<char>,
    at: u64,
    up: bool,
)
    requires
        session.valid(),
        session.capture,
        at < session.places.len(),
        session.places[at as int].name == name,
        forall|i: int| 0 <= i < at ==> (#[trigger] session.places[i]).name != name,
    ensures
        ({
            let step = Step::LinkChanged { name, up };
            let after = session.after(step);
            let place = session.places[at as int];
            &&& after.armed.len() == session.armed.len()
            &&& after.armed[at as int] == up
            &&& forall|i: int|
                0 <= i < session.armed.len() && i != at ==> #[trigger] after.armed[i]
                    == session.armed[i]
            &&& after == (SessionModel { armed: after.armed, ..session })
            &&& session.armed[at as int] == up ==> session.asks(step) == Seq::<ActionModel>::empty()
            &&& !session.armed[at as int] && up ==> session.asks(step) == seq![
                ActionModel::Restrict(from_zero(place.display)),
                ActionModel::Create(at, place.position),
            ]
            &&& session.armed[at as int] && !up ==> session.asks(step) == seq![
                ActionModel::Destroy(at),
            ]
        }),
{
    lemma_means(session, name, at);
}

/// A stranger means nothing here: a link to one, or a message from one, asks for
/// nothing and changes nothing. Nor does a link where nothing can be captured.
pub proof fn law_a_stranger_means_nothing(
    session: SessionModel,
    name: Seq<char>,
    up: bool,
    msg: MsgModel,
)
    requires
        session.valid(),
    ensures
        (forall|i: int|
            0 <= i < session.places.len() ==> (#[trigger] session.places[i]).name != name) ==> {
            &&& session.after(Step::Incoming { name, msg }) == session
            &&& session.asks(Step::Incoming { name, msg }) == Seq::<ActionModel>::empty()
            &&& session.after(Step::LinkChanged { name, up }) == session
            &&& session.asks(Step::LinkChanged { name, up }) == Seq::<ActionModel>::empty()
        },
        !session.capture ==> {
            &&& session.after(Step::LinkChanged { name, up }) == session
            &&& session.asks(Step::LinkChanged { name, up }) == Seq::<ActionModel>::empty()
        },
{
    if forall|i: int|
        0 <= i < session.places.len() ==> (#[trigger] session.places[i]).name != name {
        lemma_means_nobody(session, name);
    }
}

/// Moving a peer's screen. An edge that is being watched is dropped and taken
/// anew, on the new side of the new display; and the peer, watched or not, is
/// told that this machine now sits on the side across from there. The session
/// itself does not change, and a peer that is not there cannot be moved.
pub proof fn law_a_moved_peer_has_its_edge_moved(
    session: SessionModel,
    handle: u64,
    side: Side,
    display: Option<usize>,
)
    requires
        session.valid(),
    ensures
        ({
            let step = Step::Moved { handle, side, display };
            let across = match side {
                Side::Left => Side::Right,
                Side::Right => Side::Left,
                Side::Top => Side::Bottom,
                Side::Bottom => Side::Top,
            };
            let tell = ActionModel::Send(handle, MsgModel::Arrange(across));
            let there = handle < session.places.len();
            let armed = session.capture && session.armed[handle as int];
            &&& session.after(step) == session
            &&& !there ==> session.asks(step) == Seq::<ActionModel>::empty()
            &&& there && armed ==> session.asks(step) == seq![
                ActionModel::Destroy(handle),
                ActionModel::Restrict(from_zero(display)),
                ActionModel::Create(handle, side),
                tell,
            ]
            &&& there && !armed ==> session.asks(step) == seq![tell]
        }),
{
    let step = Step::Moved { handle, side, display };
    if handle < session.places.len() {
        let tell = ActionModel::Send(handle, MsgModel::Arrange(side.facing()));
        if session.capture && session.armed[handle as int] {
            assert(session.asks(step) =~= seq![
                ActionModel::Destroy(handle),
                ActionModel::Restrict(from_zero(display)),
                ActionModel::Create(handle, side),
                tell,
            ]);
        } else {
            assert(session.asks(step) =~= seq![tell]);
        }
    }
}

/// A backend that opens late. Capturing becomes possible, and as no edge was
/// armed without it, none is taken yet. Typing becomes possible on a client,
/// which then prepares to type for every peer; a server still types nothing.
/// Nothing else about the session changes.
pub proof fn law_a_backend_that_opens_late_is_used(session: SessionModel)
    requires
        session.valid(),
    ensures
        session.after(Step::CaptureOpened) == (SessionModel { capture: true, ..session }),
        !session.capture ==> session.asks(Step::CaptureOpened) == Seq::<ActionModel>::empty(),
        session.after(Step::EmulationOpened) == (SessionModel {
            emulation: !session.server,
            ..session
        }),
        session.server ==> session.asks(Step::EmulationOpened) == Seq::<ActionModel>::empty(),
        !session.server ==> {
            let asked = session.asks(Step::EmulationOpened);
            &&& asked.len() == session.places.len()
            &&& forall|i: int|
                0 <= i < asked.len() ==> #[trigger] asked[i] == ActionModel::CreateEmulation(
                    i as u64,
                )
        },
{
    if !session.capture {
        lemma_nothing_armed(session.places, session.armed, session.places.len());
    }
}

/// Taking the armed edges takes each of them, on the side and the display where
/// its peer sits, and no other.
pub proof fn law_taking_edges_takes_the_armed_ones(
    places: Seq<PlaceModel>,
    armed: Seq<bool>,
    count: nat,
)
    requires
        count <= places.len() <= usize::MAX,
        armed.len() == places.len(),
    ensures
        ({
            let asked = edges_for(places, armed, count);
            &&& forall|h: int|
                0 <= h < count && #[trigger] armed[h] ==> exists|k: int|
                    0 < k < asked.len() && #[trigger] asked[k] == ActionModel::Create(
                        h as u64,
                        places[h].position,
                    )
            &&& forall|k: int|
                0 <= k < asked.len() ==> match #[trigger] asked[k] {
                    ActionModel::Create(h, side) => {
                        &&& h < count && armed[h as int] && side == places[h as int].position
                        &&& k > 0 && asked[k - 1] == ActionModel::Restrict(
                            from_zero(places[h as int].display),
                        )
                    },
                    ActionModel::Restrict(_) => true,
                    _ => false,
                }
        }),
    decreases count,
{
    if count > 0 {
        let i = count - 1;
        let before = edges_for(places, armed, i as nat);
        let asked = edges_for(places, armed, count);
        law_taking_edges_takes_the_armed_ones(places, armed, i as nat);
        assert forall|h: int| 0 <= h < count && #[trigger] armed[h] implies exists|k: int|
            0 < k < asked.len() && #[trigger] asked[k] == ActionModel::Create(
                h as u64,
                places[h].position,
            ) by {
            if h < i {
                let k = choose|k: int|
                    0 < k < before.len() && #[trigger] before[k] == ActionModel::Create(
                        h as u64,
                        places[h].position,
                    );
                assert(asked[k] == before[k]);
            } else {
                let k = before.len() + 1;
                assert(asked[k as int] == ActionModel::Create(h as u64, places[h].position));
            }
        }
        assert forall|k: int| 0 <= k < asked.len() implies match #[trigger] asked[k] {
            ActionModel::Create(h, side) => {
                &&& h < count && armed[h as int] && side == places[h as int].position
                &&& k > 0 && asked[k - 1] == ActionModel::Restrict(
                    from_zero(places[h as int].display),
                )
            },
            ActionModel::Restrict(_) => true,
            _ => false,
        } by {
            if k < before.len() {
                assert(asked[k] == before[k]);
                if k > 0 {
                    assert(asked[k - 1] == before[k - 1]);
                }
            }
        }
    }
}

/// A client is driven by whoever says so last, and types what they send: a peer
/// that says it has the cursor gets it, and input counts as saying so where
/// nobody has it. Input from any other peer is dropped. A server is driven by
/// nobody: neither word nor input from a peer changes anything there.
pub proof fn law_a_client_types_for_whoever_has_the_cursor(
    session: SessionModel,
    name: Seq<char>,
    at: u64,
    event: Event,
)
    requires
        session.valid(),
        at < session.places.len(),
        session.places[at as int].name == name,
        forall|i: int| 0 <= i < at ==> (#[trigger] session.places[i]).name != name,
    ensures
        ({
            let enter = Step::Incoming { name, msg: MsgModel::Enter };
            let input = Step::Incoming { name, msg: MsgModel::Input(event) };
            let mode = session.handover.mode;
            let heard = !session.server && (mode is Local || mode == Mode::Receiving(at));
            &&& session.after(enter).handover.mode == if session.server {
                mode
            } else {
                Mode::Receiving(at)
            }
            &&& session.asks(enter).len() == 1 && session.asks(enter)[0] is Publish
            &&& session.after(input).handover.mode == if heard {
                Mode::Receiving(at)
            } else {
                mode
            }
            &&& heard && session.emulation ==> session.asks(input).len() == 2
                && session.asks(input)[0] == ActionModel::Type(at, event)
            &&& !(heard && session.emulation) ==> session.asks(input).len() == 1
            &&& session.asks(input).last() is Publish
        }),
{
    lemma_means(session, name, at);
}

/// A peer that leaves gives back what it had, and only that: the keys it held
/// here are lifted where it was typing, the cursor is let go where it was being
/// fed, and input is local. A peer that had neither changes nothing by leaving.
pub proof fn law_a_peer_that_leaves_gives_back_what_it_had(
    session: SessionModel,
    name: Seq<char>,
    at: u64,
)
    requires
        session.valid(),
        at < session.places.len(),
        session.places[at as int].name == name,
        forall|i: int| 0 <= i < at ==> (#[trigger] session.places[i]).name != name,
    ensures
        ({
            let left = Step::Incoming { name, msg: MsgModel::Leave };
            let mode = session.handover.mode;
            let asked = session.asks(left);
            let fed = mode == Mode::Sending(at);
            let typed = mode == Mode::Receiving(at);
            &&& session.after(left).handover.mode == if fed || typed {
                Mode::Local
            } else {
                mode
            }
            &&& asked.last() is Publish
            &&& asked.len() == if fed || (typed && session.emulation) {
                2int
            } else {
                1
            }
            &&& fed ==> asked[0] == ActionModel::ReleaseCapture
            &&& typed && session.emulation ==> asked[0] == ActionModel::ReleaseKeys(at)
        }),
{
    lemma_means(session, name, at);
}

/// What else a peer may say. A clip is put on the clipboard, screens are kept as
/// that peer's, and a side is remembered as that peer's, whose edge, where it is
/// being watched, is dropped and taken on that side. A probe asks for nothing.
/// Each ends with what is so being shown, and none moves control.
pub proof fn law_what_else_a_peer_says_is_done(
    session: SessionModel,
    name: Seq<char>,
    at: u64,
    clip: ClipModel,
    list: Seq<ScreenModel>,
    side: Side,
    probe: u64,
)
    requires
        session.valid(),
        at < session.places.len(),
        session.places[at as int].name == name,
        forall|i: int| 0 <= i < at ==> (#[trigger] session.places[i]).name != name,
    ensures
        ({
            let copied = session.asks(Step::Incoming { name, msg: MsgModel::Clipboard(clip) });
            let attached = session.asks(Step::Incoming { name, msg: MsgModel::Screens(list) });
            let sits = session.asks(Step::Incoming { name, msg: MsgModel::Arrange(side) });
            let armed = session.capture && session.armed[at as int];
            &&& copied.len() == 2 && copied[0] == ActionModel::WriteClipboard(clip)
            &&& attached.len() == 2 && attached[0] == ActionModel::KeepScreens(at, list)
            &&& sits[0] == ActionModel::SaveSide(at, side)
            &&& armed ==> sits.len() == 4 && sits[1] == ActionModel::Destroy(at) && sits[2]
                == ActionModel::Create(at, side)
            &&& !armed ==> sits.len() == 2
            &&& copied.last() is Publish && attached.last() is Publish && sits.last() is Publish
            &&& session.asks(Step::Incoming { name, msg: MsgModel::Ping(probe) }).len() == 1
            &&& session.asks(Step::Incoming { name, msg: MsgModel::Pong(probe) }).len() == 1
        }),
        forall|msg: MsgModel|
            !(msg is Enter) && !(msg is Leave) && !(msg is Input) ==> (#[trigger] session.after(
                Step::Incoming { name, msg },
            )).handover == session.handover,
{
    lemma_means(session, name, at);
}

/// A message changes at most who owns input and what is shown; the rest of the
/// session stays as it is, and a machine's role with it.
pub proof fn law_a_message_changes_only_ownership(
    session: SessionModel,
    name: Seq<char>,
    msg: MsgModel,
)
    requires
        session.valid(),
    ensures
        ({
            let after = session.after(Step::Incoming { name, msg });
            &&& after == (SessionModel {
                handover: Handover { mode: after.handover.mode, driven: session.handover.driven },
                shown: after.shown,
                ..session
            })
        }),
{
}

/// A valid session, in plain words: there is one flag for each peer, only a
/// client is driven or types, only a server that captures sends, control is only
/// with a peer that exists, and nothing is armed without a capture.
pub proof fn law_what_holds_of_every_session(session: SessionModel)
    ensures
        session.valid() <==> {
            &&& session.armed.len() == session.places.len() <= usize::MAX
            &&& session.handover.driven != session.server
            &&& session.server ==> !session.emulation
            &&& session.capture || !session.armed.contains(true)
            &&& match session.handover.mode {
                Mode::Local => true,
                Mode::Sending(h) => h < session.places.len() && session.server && session.capture,
                Mode::Receiving(h) => h < session.places.len() && !session.server,
            }
        },
{
    assert(session.armed.contains(true) <==> exists|i: int|
        0 <= i < session.armed.len() && #[trigger] session.armed[i]);
}

/// An action's model is the action, its text and lists as sequences.
pub proof fn law_an_action_is_what_its_model_says(action: Action)
    ensures
        match action {
            Action::Send(h, msg) => action@ == ActionModel::Send(h, msg@),
            Action::ReleaseCapture => action@ is ReleaseCapture,
            Action::PushClipboard(h) => action@ == ActionModel::PushClipboard(h),
            Action::Restrict(display) => action@ == ActionModel::Restrict(display),
            Action::Create(h, side) => action@ == ActionModel::Create(h, side),
            Action::Destroy(h) => action@ == ActionModel::Destroy(h),
            Action::CreateEmulation(h) => action@ == ActionModel::CreateEmulation(h),
            Action::ReleaseKeys(h) => action@ == ActionModel::ReleaseKeys(h),
            Action::Type(h, event) => action@ == ActionModel::Type(h, event),
            Action::WriteClipboard(clip) => action@ == ActionModel::WriteClipboard(clip@),
            Action::SaveSide(h, side) => action@ == ActionModel::SaveSide(h, side),
            Action::KeepScreens(h, list) => action@ matches ActionModel::KeepScreens(of, models)
                && of == h && models.len() == list@.len() && forall|i: int|
                0 <= i < list@.len() ==> #[trigger] models[i] == list@[i]@,
            Action::Publish { mode, allowed } => action@ == (ActionModel::Publish {
                mode,
                allowed,
            }),
        },
{
}

/// A session's model is the session, and the models of actions are those of
/// each of them, in their order.
pub proof fn law_a_session_is_what_its_model_says(session: Session, actions: Seq<Action>)
    ensures
        session@.server == session.server && session@.capture == session.capture,
        session@.emulation == session.emulation && session@.shown == session.shown,
        session@.handover == session.handover && session@.armed == session.armed@,
        session@.places.len() == session.places@.len(),
        forall|i: int|
            0 <= i < session.places@.len() ==> #[trigger] session@.places[i] == (PlaceModel {
                name: session.places@[i].name@,
                position: session.places@[i].position,
                display: session.places@[i].display,
            }),
        actions_of(actions).len() == actions.len(),
        forall|i: int| 0 <= i < actions.len() ==> #[trigger] actions_of(actions)[i] == actions[i]@,
{
}

/// The keys held are the keys held, in their order.
pub proof fn law_the_keys_held_are_the_keys_held(held: Option<Vec<u32>>)
    ensures
        keys_of(held) is Some <==> held is Some,
        held matches Some(keys) ==> keys_of(held)->0 == keys@,
{
}

/// What a session is told to do when the cursor crosses an edge, action by
/// action: the peer at that edge, and no other, is sent word that it has the
/// cursor, and then the clipboard.
pub proof fn law_the_peer_at_the_edge_is_told(handle: u64)
    ensures
        forall|s: &mut Session, asked: Vec<Action>|
            s.inv() && s.server && s.capture && handle < s.places@.len() && #[trigger] call_ensures(
                Session::captured,
                (s, handle, Captured::Begin, true),
                asked,
            ) ==> {
                &&& asked@.len() == 2
                &&& asked@[0] matches Action::Send(to, msg) && to == handle && msg is Enter
                &&& asked@[1] matches Action::PushClipboard(to) && to == handle
                &&& final(s).handover.mode == Mode::Sending(handle)
            },
{
    assert forall|s: &mut Session, asked: Vec<Action>|
        s.inv() && s.server && s.capture && handle < s.places@.len() && #[trigger] call_ensures(
            Session::captured,
            (s, handle, Captured::Begin, true),
            asked,
        ) implies {
        &&& asked@.len() == 2
        &&& asked@[0] matches Action::Send(to, msg) && to == handle && msg is Enter
        &&& asked@[1] matches Action::PushClipboard(to) && to == handle
        &&& final(s).handover.mode == Mode::Sending(handle)
    } by {
        let models = actions_of(asked@);
        assert(models.len() == 2);
        assert(models[0] == asked@[0]@ && models[1] == asked@[1]@);
        assert(final(s)@.handover == final(s).handover);
    }
}

/// What a session still wants, and whether the release chord means anything to
/// it: a capture where it has none, a way to type only on a client that has none,
/// and the chord only on a server that captures.
pub proof fn law_what_a_session_still_wants(
    session: Session,
    capture: bool,
    emulation: bool,
    chord: bool,
)
    requires
        call_ensures(Session::wants_capture, (&session,), capture),
        call_ensures(Session::wants_emulation, (&session,), emulation),
        call_ensures(Session::watches_chord, (&session,), chord),
    ensures
        capture <==> !session.capture,
        emulation <==> !session.server && !session.emulation,
        chord <==> session.server && session.capture,
{
}

} // verus!

//! The link between two machines: which peers can be talked to, what goes down
//! a connection and comes out of it, and how a peer is dialed.
//!
//! Both machines dial each other; whichever connection lands first is the one
//! that gets used. One end being firewalled costs nothing this way.

use tokio::sync::mpsc::error::SendError;
use tokio::sync::mpsc::UnboundedSender;
use vstd::hash_map::StringHashMap;
use vstd::prelude::*;

use crate::clipboard::{Clip, ClipModel, MAX_IMAGE};
use crate::proto;
use crate::proto::{DecodeError, Msg, MsgModel, Route};
use crate::screens;
use crate::screens::Screen;
use crate::timing;
use crate::timing::{round_trip, Samples, Summary};
use crate::wire;

verus! {

#[verifier::external_type_specification]
#[verifier::external_body]
#[verifier::reject_recursive_types(T)]
pub struct ExUnboundedSender<T>(tokio::sync::mpsc::UnboundedSender<T>);

/// `UnboundedSender::is_closed` says whether the receiving end is gone. That
/// may change at any time, so nothing is said of the answer.
pub assume_specification<T>[ UnboundedSender::<T>::is_closed ](tx: &UnboundedSender<T>) -> (closed:
    bool);

#[verifier::external_type_specification]
#[verifier::external_body]
#[verifier::reject_recursive_types(T)]
pub struct ExSendError<T>(tokio::sync::mpsc::error::SendError<T>);

/// `UnboundedSender::send`: the message is queued, or comes back inside the
/// error where the receiving end is gone. Which of the two depends on the other
/// end, so nothing is said of it; the error is not looked into, and what is
/// queued there is not seen from here.
pub assume_specification<T>[ UnboundedSender::<T>::send ](
    tx: &UnboundedSender<T>,
    message: T,
) -> (sent: Result<(), SendError<T>>);

/// What became of a message.
#[derive(Debug, Clone, Copy, PartialEq, Eq, Structural)]
pub enum Delivery {
    /// The peer is not connected: a message for a machine that just dropped off
    /// has nowhere useful to go.
    NoLink,
    /// It is on its way.
    Queued,
    /// The link went down at the last moment.
    Closed,
}

/// What became of a message, by what a link said when it was handed over.
pub open spec fn outcome(sent: Result<(), SendError<Msg>>) -> Delivery {
    match sent {
        Ok(_) => Delivery::Queued,
        Err(_) => Delivery::Closed,
    }
}

/// What became of a message that was handed to a link, if there was one.
pub fn delivery(handed: Option<Result<(), SendError<Msg>>>) -> (delivery: Delivery)
    ensures
        delivery == match handed {
            None => Delivery::NoLink,
            Some(sent) => outcome(sent),
        },
{
    match handed {
        None => Delivery::NoLink,
        Some(Ok(_)) => Delivery::Queued,
        Some(Err(_)) => Delivery::Closed,
    }
}

/// Whether a link that may be there, and may be closed, is a live one.
pub fn alive(closed: Option<bool>) -> (alive: bool)
    ensures
        alive == (closed == Some(false)),
{
    match closed {
        Some(closed) => !closed,
        None => false,
    }
}

/// Every peer this machine can currently talk to, by name.
pub struct Links {
    pub peers: StringHashMap<UnboundedSender<Msg>>,
}

impl View for Links {
    type V = Map<Seq<char>, UnboundedSender<Msg>>;

    open spec fn view(&self) -> Map<Seq<char>, UnboundedSender<Msg>> {
        self.peers@
    }
}

impl Default for Links {
    fn default() -> (links: Links)
        ensures
            links@ == Map::<Seq<char>, UnboundedSender<Msg>>::empty(),
    {
        Links { peers: StringHashMap::new() }
    }
}

/// Whether a claim on a peer's link is granted; `live` says whether the link
/// that is there, if any, still works.
pub open spec fn granted(
    links: Map<Seq<char>, UnboundedSender<Msg>>,
    peer: Seq<char>,
    live: bool,
) -> bool {
    !(links.contains_key(peer) && live)
}

/// The links after a claim.
pub open spec fn after_claim(
    links: Map<Seq<char>, UnboundedSender<Msg>>,
    peer: Seq<char>,
    tx: UnboundedSender<Msg>,
    live: bool,
) -> Map<Seq<char>, UnboundedSender<Msg>> {
    if granted(links, peer, live) {
        links.insert(peer, tx)
    } else {
        links
    }
}

/// Whether `UnboundedSender::send` was called on this link with this message,
/// and this is what became of it.
pub open spec fn handed_over(tx: UnboundedSender<Msg>, msg: Msg, delivery: Delivery) -> bool {
    exists|sent: Result<(), SendError<Msg>>|
        #[trigger] call_ensures(UnboundedSender::<Msg>::send, (&tx, msg), sent) && delivery
            == outcome(sent)
}

/// Whether this link was handed a message that carries this clip.
pub open spec fn clip_sent(tx: UnboundedSender<Msg>, clip: ClipModel, delivery: Delivery) -> bool {
    exists|msg: Msg|
        msg@ == MsgModel::Clipboard(clip) && #[trigger] handed_over(tx, msg, delivery)
}

impl Links {
    /// Send to one peer: where there is a link to it, the message is handed to
    /// that link. Does nothing when that peer is not connected.
    pub fn send(&self, peer: &str, msg: Msg) -> (delivery: Delivery)
        ensures
            delivery is NoLink <==> !self@.contains_key(peer@),
            self@.contains_key(peer@) ==> handed_over(self@[peer@], msg, delivery),
    {
        match self.peers.get(peer) {
            Some(tx) => delivery(Some(tx.send(msg))),
            None => delivery(None),
        }
    }

    /// Sends a clip to each of these peers: where there is a link to one, a
    /// message with the clip in it is handed to that link.
    pub fn share(&self, peers: &[String], clip: &Clip) -> (deliveries: Vec<Delivery>)
        ensures
            deliveries@.len() == peers@.len(),
            forall|i: int|
                0 <= i < peers@.len() ==> (#[trigger] deliveries@[i] is NoLink
                    <==> !self@.contains_key(peers@[i]@)),
            forall|i: int|
                0 <= i < peers@.len() && self@.contains_key((#[trigger] peers@[i])@) ==> clip_sent(
                    self@[peers@[i]@],
                    clip@,
                    deliveries@[i],
                ),
    {
        let mut deliveries: Vec<Delivery> = Vec::new();
        let mut i: usize = 0;
        while i < peers.len()
            invariant
                i <= peers@.len(),
                deliveries@.len() == i,
                forall|j: int|
                    0 <= j < i ==> (#[trigger] deliveries@[j] is NoLink
                        <==> !self@.contains_key(peers@[j]@)),
                forall|j: int|
                    0 <= j < i && self@.contains_key((#[trigger] peers@[j])@) ==> clip_sent(
                        self@[peers@[j]@],
                        clip@,
                        deliveries@[j],
                    ),
            decreases peers@.len() - i,
        {
            let msg = Msg::Clipboard(clip.copy());
            let ghost sent = msg;
            let delivery = self.send(peers[i].as_str(), msg);
            deliveries.push(delivery);
            proof {
                assert(sent@ == MsgModel::Clipboard(clip@));
                if self@.contains_key(peers@[i as int]@) {
                    assert(handed_over(self@[peers@[i as int]@], sent, delivery));
                }
            }
            i += 1;
        }
        deliveries
    }

    /// Whether a live link to this peer already exists: there is a link, and
    /// asked whether it is closed, that link said no.
    pub fn connected(&self, peer: &str) -> (connected: bool)
        ensures
            connected ==> self@.contains_key(peer@),
            self@.contains_key(peer@) ==> call_ensures(
                UnboundedSender::<Msg>::is_closed,
                (&self@[peer@],),
                !connected,
            ),
    {
        match self.peers.get(peer) {
            Some(tx) => alive(Some(tx.is_closed())),
            None => alive(None),
        }
    }

    /// Claim the link to this peer. False when a live one already exists: both
    /// machines dial each other, and the loser of that race hangs up. Whether
    /// the one that is there lives, is asked of that link.
    pub fn try_register(&mut self, peer: &str, tx: UnboundedSender<Msg>) -> (claimed: bool)
        ensures
            exists|live: bool|
                claimed == #[trigger] granted(old(self)@, peer@, live) && final(self)@
                    == after_claim(old(self)@, peer@, tx, live) && (old(self)@.contains_key(peer@)
                    ==> call_ensures(
                    UnboundedSender::<Msg>::is_closed,
                    (&old(self)@[peer@],),
                    !live,
                )),
    {
        let live = self.connected(peer);
        self.claim(peer, tx, live)
    }

    /// Claim the link to this peer, knowing whether one that is there is live.
    pub fn claim(&mut self, peer: &str, tx: UnboundedSender<Msg>, live: bool) -> (claimed: bool)
        ensures
            claimed == granted(old(self)@, peer@, live),
            final(self)@ == after_claim(old(self)@, peer@, tx, live),
    {
        if self.peers.contains_key(peer) && live {
            return false;
        }
        self.peers.insert(peer.to_owned(), tx);
        true
    }

    pub fn unregister(&mut self, peer: &str)
        ensures
            final(self)@ == old(self)@.remove(peer@),
    {
        self.peers.remove(peer);
    }
}

/// Of two connections to one peer the first is kept: while its link lives, a
/// second claim is refused and changes nothing.
pub proof fn law_a_second_link_is_refused(
    links: Map<Seq<char>, UnboundedSender<Msg>>,
    peer: Seq<char>,
    first: UnboundedSender<Msg>,
    second: UnboundedSender<Msg>,
    live: bool,
)
    requires
        granted(links, peer, live),
    ensures
        ({
            let linked = after_claim(links, peer, first, live);
            &&& linked.contains_key(peer) && linked[peer] == first
            &&& !granted(linked, peer, true)
            &&& after_claim(linked, peer, second, true) == linked
        }),
{
}

/// A peer that is gone can be claimed anew, and other peers' links are not
/// touched by one coming or going.
pub proof fn law_links_come_and_go_alone(
    links: Map<Seq<char>, UnboundedSender<Msg>>,
    peer: Seq<char>,
    other: Seq<char>,
    tx: UnboundedSender<Msg>,
    live: bool,
)
    requires
        peer != other,
    ensures
        !links.remove(peer).contains_key(peer),
        granted(links.remove(peer), peer, live),
        links.remove(peer).contains_key(other) == links.contains_key(other),
        after_claim(links, peer, tx, live).contains_key(other) == links.contains_key(other),
        links.contains_key(other) ==> links.remove(peer)[other] == links[other] && after_claim(
            links,
            peer,
            tx,
            live,
        )[other] == links[other],
{
}

/// Refuse absurd frames rather than allocating for them. A clipboard image is
/// the largest thing that legitimately crosses, so this tracks its cap.
pub const MAX_FRAME: usize = MAX_IMAGE + 64 * 1024;

/// A length as the four bytes in front of a frame, highest first.
pub open spec fn header_of(len: int) -> Seq<u8> {
    seq![
        (len / 16777216) as u8,
        (len / 65536 % 256) as u8,
        (len / 256 % 256) as u8,
        (len % 256) as u8,
    ]
}

/// The length that the bytes in front of a frame announce.
pub open spec fn announced(header: Seq<u8>) -> int {
    16777216 * header[0] + 65536 * header[1] + 256 * header[2] + header[3]
}

/// What goes in front of a frame of this many bytes, unless it is too large to
/// be announced at all.
pub fn frame_header(len: usize) -> (header: Option<[u8; 4]>)
    ensures
        header is Some <==> len <= u32::MAX,
        header matches Some(h) ==> h@ == header_of(len as int),
{
    if len > u32::MAX as usize {
        return None;
    }
    let header = [
        (len / 16777216) as u8,
        (len / 65536 % 256) as u8,
        (len / 256 % 256) as u8,
        (len % 256) as u8,
    ];
    assert(header@ =~= header_of(len as int));
    Some(header)
}

/// How many bytes follow this header; an error where that is too many to take,
/// which holds that number.
pub fn frame_len(header: [u8; 4]) -> (len: Result<usize, u32>)
    ensures
        match len {
            Ok(l) => l == announced(header@) && l <= MAX_FRAME,
            Err(l) => l == announced(header@) && l > MAX_FRAME,
        },
{
    let len: u32 = 16777216 * header[0] as u32 + 65536 * header[1] as u32 + 256
        * header[2] as u32 + header[3] as u32;
    if len > MAX_FRAME as u32 {
        return Err(len);
    }
    Ok(len as usize)
}

/// A frame's length survives its header.
pub proof fn law_a_frame_announces_its_length(len: int)
    requires
        0 <= len <= u32::MAX,
    ensures
        announced(header_of(len)) == len,
{
}

/// A list of screens takes no more than so many bytes.
proof fn lemma_screens_are_short(list: Seq<screens::ScreenModel>)
    ensures
        proto::screens_bytes(list).len() <= 272 * list.len(),
    decreases list.len(),
{
    if list.len() > 0 {
        lemma_screens_are_short(list.drop_last());
        let name = vstd::utf8::encode_utf8(list.last().name);
        assert(wire::short(name).len() <= 256);
    }
}

/// No legitimate message is refused for its size: a clipboard no larger than its
/// kind may be, and everything that is not a clipboard, fits in a frame.
pub proof fn law_every_message_fits_in_a_frame(msg: MsgModel)
    requires
        msg matches MsgModel::Clipboard(clip) ==> clip.within_limits(),
    ensures
        0 < msg.bytes().len() <= MAX_FRAME,
{
    match msg {
        MsgModel::Screens(list) => lemma_screens_are_short(proto::counted(list)),
        MsgModel::Clipboard(ClipModel::Image { mime, bytes }) => {
            assert(wire::short(vstd::utf8::encode_utf8(mime)).len() <= 256);
        },
        _ => {},
    }
}

/// What the end that dials writes first: opening a stream only reaches the peer
/// once something is written, so an empty frame gets it accepted there.
pub fn opening(dialer: bool) -> (bytes: Option<[u8; 4]>)
    ensures
        bytes is Some <==> dialer,
        bytes matches Some(b) ==> b@ == header_of(0),
{
    if dialer {
        frame_header(0)
    } else {
        None
    }
}

/// A message ready to go.
#[derive(Debug, PartialEq)]
pub struct Packed {
    /// The channel it belongs on.
    pub route: Route,
    pub bytes: Vec<u8>,
}

/// Makes a message ready to go.
pub fn pack(msg: &Msg) -> (packed: Packed)
    ensures
        packed.route == msg@.channel(),
        packed.bytes@ == msg@.bytes(),
{
    Packed { route: msg.route(), bytes: msg.encode() }
}

/// What a connection asks for.
#[derive(Debug, PartialEq)]
pub enum Doing {
    /// Send this to the peer.
    Queue(Msg),
    /// Hand this to the session, in the peer's name.
    Deliver(Msg),
    /// Tell the session whether there is a live link.
    Announce(bool),
    /// Show that this peer is linked.
    ShowLinked,
    /// Show that this peer is gone.
    ShowOffline,
    /// Give the link up, so that it can be claimed again.
    Unregister,
    /// Note that something came that is no message.
    Refuse(DecodeError),
}

/// What a connection asks for, with text and lists as sequences.
pub enum DoingModel {
    Queue(MsgModel),
    Deliver(MsgModel),
    Announce(bool),
    ShowLinked,
    ShowOffline,
    Unregister,
    Refuse(DecodeError),
}

impl View for Doing {
    type V = DoingModel;

    open spec fn view(&self) -> DoingModel {
        match self {
            Doing::Queue(msg) => DoingModel::Queue(msg@),
            Doing::Deliver(msg) => DoingModel::Deliver(msg@),
            Doing::Announce(up) => DoingModel::Announce(*up),
            Doing::ShowLinked => DoingModel::ShowLinked,
            Doing::ShowOffline => DoingModel::ShowOffline,
            Doing::Unregister => DoingModel::Unregister,
            Doing::Refuse(e) => DoingModel::Refuse(*e),
        }
    }
}

/// The models of a list of things to do.
pub open spec fn doings_of(doings: Seq<Doing>) -> Seq<DoingModel> {
    doings.map_values(|d: Doing| d@)
}

/// What a connection asks for when something arrives. A probe is answered at
/// once, an echo is only timed, and the rest is for the session. Probes travel
/// as datagrams; an empty frame is the one that opened the stream.
pub open spec fn on_arrival(route: Route, bytes: Seq<u8>) -> Seq<DoingModel> {
    if route != Route::Datagram && bytes.len() == 0 {
        Seq::empty()
    } else {
        match proto::msg_from(bytes) {
            Err(e) => seq![DoingModel::Refuse(e)],
            Ok(MsgModel::Ping(t)) if route == Route::Datagram => seq![
                DoingModel::Queue(MsgModel::Pong(t)),
            ],
            Ok(MsgModel::Pong(_)) if route == Route::Datagram => Seq::empty(),
            Ok(msg) => seq![DoingModel::Deliver(msg)],
        }
    }
}

/// The samples after something has arrived at this time.
pub open spec fn timed(samples: Seq<u64>, route: Route, bytes: Seq<u8>, now: u64) -> Seq<u64> {
    match proto::msg_from(bytes) {
        Ok(MsgModel::Pong(sent)) if route == Route::Datagram => timing::latest(
            samples.push(
                if now >= sent {
                    (now - sent) as u64
                } else {
                    0
                },
            ),
        ),
        _ => samples,
    }
}

/// The latency so far.
#[derive(Debug, Clone, Copy, PartialEq, Eq, Structural)]
pub struct Report {
    pub summary: Summary,
    /// The typical round trip, for the status.
    pub typical: u64,
}

/// One connection being served.
#[derive(Debug)]
pub struct Serving {
    pub samples: Samples,
}

impl Serving {
    pub open spec fn inv(self) -> bool {
        self.samples.inv()
    }

    /// The link to a peer has been claimed, or was refused because there is one
    /// already. A duplicate hangs up and touches nothing. Otherwise the peer is
    /// told what this machine has attached, so that it can draw real screens.
    pub fn begin(claimed: bool, screens: Vec<Screen>) -> (begun: Option<(Serving, Vec<Doing>)>)
        ensures
            begun is Some <==> claimed,
            begun matches Some((serving, doings)) ==> {
                &&& serving.inv()
                &&& serving.samples@ == Seq::<u64>::empty()
                &&& doings_of(doings@) == seq![
                    DoingModel::ShowLinked,
                    DoingModel::Announce(true),
                    DoingModel::Queue(MsgModel::Screens(screens::models(screens@))),
                ]
            },
    {
        if !claimed {
            return None;
        }
        let mut doings: Vec<Doing> = Vec::new();
        doings.push(Doing::ShowLinked);
        doings.push(Doing::Announce(true));
        doings.push(Doing::Queue(Msg::Screens(screens)));
        assert(doings_of(doings@) =~= seq![
            DoingModel::ShowLinked,
            DoingModel::Announce(true),
            DoingModel::Queue(MsgModel::Screens(screens::models(screens@))),
        ]);
        Some((Serving { samples: Samples::new() }, doings))
    }

    /// Something arrived on one of the channels.
    pub fn arrived(&mut self, route: Route, bytes: &[u8], now: u64) -> (doings: Vec<Doing>)
        requires
            old(self).inv(),
        ensures
            final(self).inv(),
            doings_of(doings@) == on_arrival(route, bytes@),
            final(self).samples@ == timed(old(self).samples@, route, bytes@, now),
    {
        let mut doings: Vec<Doing> = Vec::new();
        let datagram = route == Route::Datagram;
        if datagram || bytes.len() > 0 {
            match Msg::decode(bytes) {
                Err(e) => doings.push(Doing::Refuse(e)),
                Ok(Msg::Ping(t)) => {
                    if datagram {
                        doings.push(Doing::Queue(Msg::Pong(t)));
                    } else {
                        doings.push(Doing::Deliver(Msg::Ping(t)));
                    }
                },
                Ok(Msg::Pong(t)) => {
                    if datagram {
                        self.samples.push(round_trip(t, now));
                    } else {
                        doings.push(Doing::Deliver(Msg::Pong(t)));
                    }
                },
                Ok(msg) => doings.push(Doing::Deliver(msg)),
            }
        }
        assert(doings_of(doings@) =~= on_arrival(route, bytes@));
        doings
    }

    /// The latency so far, once there is any.
    pub fn report(&self) -> (report: Option<Report>)
        requires
            self.inv(),
        ensures
            report == if self.samples@.len() == 0 {
                None
            } else {
                Some(
                    Report {
                        summary: timing::summary_of(self.samples@),
                        typical: timing::ordered(self.samples@)[(self.samples@.len() - 1) / 2],
                    },
                )
            },
    {
        match (self.samples.summary(), self.samples.p50()) {
            (Some(summary), Some(typical)) => Some(Report { summary, typical }),
            _ => None,
        }
    }

    /// The connection is gone. Whoever had the cursor, they no longer do; the
    /// session puts input back where it belongs rather than leaving it pointed
    /// at a dead link.
    pub fn end(self) -> (doings: Vec<Doing>)
        ensures
            doings_of(doings@) == seq![
                DoingModel::ShowOffline,
                DoingModel::Unregister,
                DoingModel::Announce(false),
                DoingModel::Deliver(MsgModel::Leave),
            ],
    {
        let mut doings: Vec<Doing> = Vec::new();
        doings.push(Doing::ShowOffline);
        doings.push(Doing::Unregister);
        doings.push(Doing::Announce(false));
        doings.push(Doing::Deliver(Msg::Leave));
        assert(doings_of(doings@) =~= seq![
            DoingModel::ShowOffline,
            DoingModel::Unregister,
            DoingModel::Announce(false),
            DoingModel::Deliver(MsgModel::Leave),
        ]);
        doings
    }
}

/// What is said at one end reaches the session at the other: a message that
/// fits the wire, packed here and arriving there on the channel it belongs on,
/// is delivered as it was. Probes are the exception.
pub proof fn law_what_is_said_is_heard(msg: MsgModel)
    requires
        msg.fits(),
        !(msg is Ping) && !(msg is Pong),
    ensures
        on_arrival(msg.channel(), msg.bytes()) == seq![DoingModel::Deliver(msg)],
{
    proto::law_every_message_survives_the_wire(msg);
    lemma_bytes_are_there(msg);
}

/// A message is never empty on the wire.
proof fn lemma_bytes_are_there(msg: MsgModel)
    ensures
        msg.bytes().len() > 0,
{
}

/// A probe comes back and is timed: the peer answers it with its own number,
/// and the answer counts as the time since it was sent.
pub proof fn law_a_probe_comes_back_and_is_timed(samples: Seq<u64>, sent: u64, now: u64)
    requires
        sent <= now,
    ensures
        on_arrival(MsgModel::Ping(sent).channel(), MsgModel::Ping(sent).bytes()) == seq![
            DoingModel::Queue(MsgModel::Pong(sent)),
        ],
        on_arrival(MsgModel::Pong(sent).channel(), MsgModel::Pong(sent).bytes()) == Seq::<
            DoingModel,
        >::empty(),
        timed(samples, MsgModel::Pong(sent).channel(), MsgModel::Pong(sent).bytes(), now)
            == timing::latest(samples.push((now - sent) as u64)),
{
    proto::law_every_message_survives_the_wire(MsgModel::Ping(sent));
    proto::law_every_message_survives_the_wire(MsgModel::Pong(sent));
}

/// What came of trying one address.
#[derive(Debug, Clone, Copy, PartialEq, Eq, Structural)]
pub enum Attempt {
    /// The peer answered there.
    Answered,
    /// It did not.
    Failed,
    /// The address cannot be tried at all.
    Impossible,
}

/// What to do next about reaching a peer.
#[derive(Debug, Clone, Copy, PartialEq, Eq, Structural)]
pub enum DialStep {
    /// Try the address at this place in the list.
    Try(usize),
    /// Keep the connection.
    Use,
    /// Give up for now.
    Fail,
}

/// The step after what came of the latest try, the one before place `next`.
pub open spec fn dial_step(count: int, next: int, last: Option<Attempt>) -> DialStep {
    match last {
        Some(Attempt::Answered) => DialStep::Use,
        _ => if next < count {
            DialStep::Try(next as usize)
        } else {
            DialStep::Fail
        },
    }
}

/// Which address ends up being used when each would come out like this.
pub open spec fn dialed(outcomes: Seq<Attempt>, next: int, last: Option<Attempt>) -> Option<int>
    decreases outcomes.len() - next,
{
    if next < 0 || next > outcomes.len() {
        None
    } else {
        match dial_step(outcomes.len() as int, next, last) {
            DialStep::Try(_) => if next < outcomes.len() {
                dialed(outcomes, next + 1, Some(outcomes[next]))
            } else {
                None
            },
            DialStep::Use => Some(next - 1),
            DialStep::Fail => None,
        }
    }
}

/// Whether the address at this place answers, and none before it does.
pub open spec fn first_to_answer(outcomes: Seq<Attempt>, at: int) -> bool {
    &&& 0 <= at < outcomes.len()
    &&& outcomes[at] == Attempt::Answered
    &&& forall|i: int| 0 <= i < at ==> #[trigger] outcomes[i] != Attempt::Answered
}

/// Goes through every address a peer lists, in their order, and keeps the one
/// that answers first, so a wired link is used when it is up and a wireless one
/// takes over when it is not. `last` is what came of the latest try, the one
/// before place `next`.
pub fn dial(count: usize, next: usize, last: Option<Attempt>) -> (step: DialStep)
    ensures
        step == dial_step(count as int, next as int, last),
{
    match last {
        Some(Attempt::Answered) => DialStep::Use,
        _ => {
            if next < count {
                DialStep::Try(next)
            } else {
                DialStep::Fail
            }
        },
    }
}

/// What to say of a peer that lists no addresses at all.
pub fn no_addresses(peer: &str) -> (words: String)
    ensures
        words@ == "peer "@ + peer@ + " has no addresses"@,
{
    let mut words = "peer ".to_owned();
    words.append(peer);
    words.append(" has no addresses");
    words
}

/// Dialing on from a place before which nothing has answered.
proof fn lemma_dialing_on(outcomes: Seq<Attempt>, next: int, last: Option<Attempt>)
    requires
        0 <= next <= outcomes.len() <= usize::MAX,
        last != Some(Attempt::Answered),
        forall|i: int| 0 <= i < next ==> #[trigger] outcomes[i] != Attempt::Answered,
    ensures
        match dialed(outcomes, next, last) {
            Some(at) => first_to_answer(outcomes, at),
            None => forall|i: int|
                0 <= i < outcomes.len() ==> #[trigger] outcomes[i] != Attempt::Answered,
        },
    decreases outcomes.len() - next,
{
    if next < outcomes.len() {
        if outcomes[next] == Attempt::Answered {
            reveal_with_fuel(dialed, 2);
        } else {
            lemma_dialing_on(outcomes, next + 1, Some(outcomes[next]));
        }
    }
}

/// The first address that answers is the one that is used, whatever came of
/// those before it; and dialing fails only where every address was tried and
/// none answered.
pub proof fn law_the_first_to_answer_is_used(outcomes: Seq<Attempt>)
    requires
        outcomes.len() <= usize::MAX,
    ensures
        match dialed(outcomes, 0, None) {
            Some(at) => first_to_answer(outcomes, at),
            None => forall|i: int|
                0 <= i < outcomes.len() ==> #[trigger] outcomes[i] != Attempt::Answered,
        },
{
    lemma_dialing_on(outcomes, 0, None);
}

/// Whether a failure to reach a peer has been said out loud. An unreachable peer
/// is usually a firewall or a missing permission, and silence there is hard to
/// debug; so it is said once, and then again only after the peer was reached.
#[derive(Debug, Clone, Copy, PartialEq, Eq, Structural)]
pub struct Dialer {
    pub complained: bool,
}

impl Dialer {
    pub fn new() -> (dialer: Dialer)
        ensures
            dialer == (Dialer { complained: false }),
    {
        Dialer { complained: false }
    }

    /// The peer may have dialed us first. That link is left alone instead of
    /// building a second one.
    pub fn should_dial(&self, connected: bool) -> (dial: bool)
        ensures
            dial == !connected,
    {
        !connected
    }

    /// The peer was reached.
    pub fn reached(&mut self)
        ensures
            *final(self) == (Dialer { complained: false }),
    {
        self.complained = false;
    }

    /// The peer was not reached. True where that should be said out loud.
    pub fn missed(&mut self) -> (loud: bool)
        ensures
            loud == !old(self).complained,
            *final(self) == (Dialer { complained: true }),
    {
        let loud = !self.complained;
        self.complained = true;
        loud
    }
}

/// A message is on its way exactly where its link took it, and the link is down
/// exactly where it did not.
pub proof fn law_a_message_is_on_its_way_where_it_was_taken(sent: Result<(), SendError<Msg>>)
    ensures
        outcome(sent) == Delivery::Queued <==> sent is Ok,
        outcome(sent) == Delivery::Closed <==> sent is Err,
{
}

/// A claim is refused exactly where there is a link and it lives. A link that is
/// dead gives way. The claim that is granted is the link from then on, and one
/// that is refused changes nothing.
pub proof fn law_only_a_live_link_is_in_the_way(
    links: Map<Seq<char>, UnboundedSender<Msg>>,
    peer: Seq<char>,
    tx: UnboundedSender<Msg>,
    live: bool,
)
    ensures
        granted(links, peer, live) <==> !links.dom().contains(peer) || !live,
        links.dom().contains(peer) && live ==> after_claim(links, peer, tx, live) == links,
        !links.dom().contains(peer) || !live ==> {
            let after = after_claim(links, peer, tx, live);
            &&& after.dom() == links.dom().insert(peer)
            &&& after[peer] == tx
            &&& after.remove(peer) == links.remove(peer)
        },
{
    if !links.dom().contains(peer) || !live {
        assert(after_claim(links, peer, tx, live).remove(peer) =~= links.remove(peer));
    }
}

/// A length stands in front of a frame with its highest byte first, and is read
/// so. Frames of up to sixteen megabytes and 64 kilobytes are taken.
pub proof fn law_a_length_is_written_highest_byte_first(len: int, header: Seq<u8>)
    requires
        0 <= len <= u32::MAX,
        header.len() == 4,
    ensures
        header_of(len).len() == 4,
        ({
            let h = header_of(len);
            ((h[0] * 256 + h[1]) * 256 + h[2]) * 256 + h[3] == len
        }),
        announced(header) == ((header[0] * 256 + header[1]) * 256 + header[2]) * 256 + header[3],
        MAX_FRAME == 16 * 1048576 + 65536,
{
}

/// What arrives, case by case. An empty frame opened the stream and means
/// nothing; an empty datagram is refused, as is whatever reads as no message,
/// with the reason. Only as a datagram is a probe answered, with its own number,
/// and an echo kept back. Everything else is for the session, as it was said.
pub proof fn law_what_arrives_is_answered_timed_or_delivered(
    route: Route,
    bytes: Seq<u8>,
    samples: Seq<u64>,
    now: u64,
)
    ensures
        ({
            let done = on_arrival(route, bytes);
            let after = timed(samples, route, bytes, now);
            let datagram = route == Route::Datagram;
            match proto::msg_from(bytes) {
                Err(e) => {
                    &&& after == samples
                    &&& bytes.len() == 0 && !datagram ==> done == Seq::<DoingModel>::empty()
                    &&& bytes.len() > 0 || datagram ==> done == seq![DoingModel::Refuse(e)]
                },
                Ok(msg) => {
                    &&& datagram && msg is Ping ==> done == seq![
                        DoingModel::Queue(MsgModel::Pong(msg->Ping_0)),
                    ]
                    &&& datagram && msg is Pong ==> {
                        let took = if now >= msg->Pong_0 {
                            now - msg->Pong_0
                        } else {
                            0
                        };
                        &&& done == Seq::<DoingModel>::empty()
                        &&& after == timing::latest(samples.push(took as u64))
                    }
                    &&& !(datagram && (msg is Ping || msg is Pong)) ==> done == seq![
                        DoingModel::Deliver(msg),
                    ]
                    &&& !(datagram && msg is Pong) ==> after == samples
                },
            }
        }),
{
}

/// The next step of dialing. An address that answered is used; otherwise the
/// next in the list is tried, whatever came of the last; and only past the end
/// of the list is it given up.
pub proof fn law_addresses_are_tried_in_their_order(count: int, next: int, last: Option<Attempt>)
    requires
        0 <= next <= count <= usize::MAX,
    ensures
        dial_step(count, next, last) == DialStep::Use <==> last == Some(Attempt::Answered),
        last != Some(Attempt::Answered) && next < count ==> (dial_step(count, next, last)
            matches DialStep::Try(at) && at == next),
        last != Some(Attempt::Answered) && next == count ==> dial_step(count, next, last)
            == DialStep::Fail,
{
}

/// The address that is used answered, and each one before it was tried and did
/// not; where none is used, each one was tried and did not answer.
pub proof fn law_the_address_used_is_the_first_that_answers(outcomes: Seq<Attempt>, at: int)
    requires
        outcomes.len() <= usize::MAX,
        0 <= at < outcomes.len(),
        outcomes[at] == Attempt::Answered,
        forall|i: int| 0 <= i < at ==> #[trigger] outcomes[i] != Attempt::Answered,
    ensures
        dialed(outcomes, 0, None) == Some(at),
        first_to_answer(outcomes, at),
{
    law_the_first_to_answer_is_used(outcomes);
    if dialed(outcomes, 0, None) is Some {
        let used = dialed(outcomes, 0, None)->0;
        if used < at {
            assert(outcomes[used] != Attempt::Answered);
        }
    } else {
        assert(outcomes[at] != Attempt::Answered);
    }
}

/// A frame holds a megabyte of text, and sixteen megabytes of an image of any
/// type, with what goes in front of them.
pub proof fn law_the_largest_clip_fits_in_a_frame(clip: ClipModel)
    requires
        match clip {
            ClipModel::Text(text) => vstd::utf8::encode_utf8(text).len() <= 1048576,
            ClipModel::Image { mime, bytes } => bytes.len() <= 16777216,
        },
    ensures
        0 < MsgModel::Clipboard(clip).bytes().len() <= MAX_FRAME,
{
    law_every_message_fits_in_a_frame(MsgModel::Clipboard(clip));
}

/// What a connection asks for is what its model says, and the models of such
/// things are those of each of them, in their order.
pub proof fn law_a_doing_is_what_its_model_says(doing: Doing, doings: Seq<Doing>)
    ensures
        match doing {
            Doing::Queue(msg) => doing@ == DoingModel::Queue(msg@),
            Doing::Deliver(msg) => doing@ == DoingModel::Deliver(msg@),
            Doing::Announce(up) => doing@ == DoingModel::Announce(up),
            Doing::ShowLinked => doing@ is ShowLinked,
            Doing::ShowOffline => doing@ is ShowOffline,
            Doing::Unregister => doing@ is Unregister,
            Doing::Refuse(e) => doing@ == DoingModel::Refuse(e),
        },
        doings_of(doings).len() == doings.len(),
        forall|i: int| 0 <= i < doings.len() ==> #[trigger] doings_of(doings)[i] == doings[i]@,
{
}

/// A message counts as handed over only where it, and no other, was given to
/// that link, and what became of it is what the link said.
pub proof fn law_a_message_is_handed_to_its_link(
    tx: UnboundedSender<Msg>,
    msg: Msg,
    delivery: Delivery,
    clip: ClipModel,
)
    ensures
        handed_over(tx, msg, delivery) <==> {
            ||| delivery == Delivery::Queued && exists|sent: Result<(), SendError<Msg>>|
                sent is Ok && #[trigger] call_ensures(
                    UnboundedSender::<Msg>::send,
                    (&tx, msg),
                    sent,
                )
            ||| delivery == Delivery::Closed && exists|sent: Result<(), SendError<Msg>>|
                sent is Err && #[trigger] call_ensures(
                    UnboundedSender::<Msg>::send,
                    (&tx, msg),
                    sent,
                )
        },
        clip_sent(tx, clip, delivery) <==> exists|carrier: Msg|
            carrier@ == MsgModel::Clipboard(clip) && #[trigger] handed_over(tx, carrier, delivery),
{
    if delivery == Delivery::Queued && exists|sent: Result<(), SendError<Msg>>|
        sent is Ok && #[trigger] call_ensures(UnboundedSender::<Msg>::send, (&tx, msg), sent) {
        let sent = choose|sent: Result<(), SendError<Msg>>|
            sent is Ok && #[trigger] call_ensures(UnboundedSender::<Msg>::send, (&tx, msg), sent);
        assert(outcome(sent) == delivery);
    }
    if delivery == Delivery::Closed && exists|sent: Result<(), SendError<Msg>>|
        sent is Err && #[trigger] call_ensures(UnboundedSender::<Msg>::send, (&tx, msg), sent) {
        let sent = choose|sent: Result<(), SendError<Msg>>|
            sent is Err && #[trigger] call_ensures(UnboundedSender::<Msg>::send, (&tx, msg), sent);
        assert(outcome(sent) == delivery);
    }
}

/// The links' model is the links, and a connection's samples stay in their
/// window.
pub proof fn law_links_are_what_their_model_says(links: Links, serving: Serving)
    ensures
        links@ == links.peers@,
        serving.inv() <==> serving.samples.values@.len() <= 200,
{
}

/// A failure is said out loud once: the first miss is, every further one is not,
/// and after the peer was reached the next miss is again.
pub proof fn law_a_failure_is_said_once(connected: bool, dial: bool)
    ensures
        forall|d: &mut Dialer, loud: bool| #[trigger]
            call_ensures(Dialer::missed, (d,), loud) ==> (loud <==> !d.complained)
                && final(d).complained,
        forall|d: &mut Dialer| #[trigger]
            call_ensures(Dialer::reached, (d,), ()) ==> !final(d).complained,
        forall|d: Dialer| #[trigger] call_ensures(Dialer::new, (), d) ==> !d.complained,
        forall|d: Dialer| #[trigger]
            call_ensures(Dialer::should_dial, (&d, connected), dial) ==> (dial <==> !connected),
{
}

/// A frame's header is read back as the length it was made for, and taken only
/// up to the largest frame.
pub proof fn law_a_header_is_read_back(
    len: usize,
    header: Option<[u8; 4]>,
    read: Result<usize, u32>,
)
    requires
        call_ensures(frame_header, (len,), header),
        header is Some ==> call_ensures(frame_len, (header->0,), read),
    ensures
        header is None <==> len > 0xffff_ffff,
        len <= 16 * 1048576 + 65536 ==> (read matches Ok(l) && l == len),
        16 * 1048576 + 65536 < len <= 0xffff_ffff ==> (read matches Err(l) && l == len),
{
    if header is Some {
        law_a_frame_announces_its_length(len as int);
    }
}

/// Only the end that dials writes first, and what it writes announces nothing.
pub proof fn law_only_the_dialing_end_opens(dialer: bool, bytes: Option<[u8; 4]>)
    requires
        call_ensures(opening, (dialer,), bytes),
    ensures
        bytes is Some <==> dialer,
        bytes matches Some(b) ==> announced(b@) == 0,
{
    law_a_frame_announces_its_length(0);
}

/// A link lives where there is one and it is not closed; a message without a
/// link goes nowhere.
pub proof fn law_no_link_is_no_live_link(
    closed: Option<bool>,
    lives: bool,
    handed: Option<Result<(), SendError<Msg>>>,
    became: Delivery,
)
    requires
        call_ensures(alive, (closed,), lives),
        call_ensures(delivery, (handed,), became),
    ensures
        closed is None ==> !lives,
        closed matches Some(c) ==> (lives <==> !c),
        handed is None <==> became is NoLink,
        handed matches Some(sent) ==> (sent is Ok <==> became is Queued) && (sent is Err <==> became
            is Closed),
{
}

/// A connection that begins shows the link, says that it is up and tells the peer
/// of this machine's screens; a duplicate does nothing at all. One that ends shows
/// that the peer is gone, gives the link up, says that it is down, and has the
/// peer leave, so that nobody is left holding the cursor.
pub proof fn law_a_connection_begins_and_ends(
    claimed: bool,
    screens: Vec<Screen>,
    begun: Option<(Serving, Vec<Doing>)>,
    serving: Serving,
    ended: Vec<Doing>,
)
    requires
        call_ensures(Serving::begin, (claimed, screens), begun),
        call_ensures(Serving::end, (serving,), ended),
    ensures
        begun is Some <==> claimed,
        begun matches Some((s, doings)) ==> {
            &&& s.samples.values@.len() == 0
            &&& doings@.len() == 3
            &&& doings@[0] is ShowLinked
            &&& doings@[1] matches Doing::Announce(up) && up
            &&& doings@[2] matches Doing::Queue(msg) && msg@ == MsgModel::Screens(
                screens::models(screens@),
            )
        },
        ended@.len() == 4,
        ended@[0] is ShowOffline,
        ended@[1] is Unregister,
        ended@[2] matches Doing::Announce(up) && !up,
        ended@[3] matches Doing::Deliver(msg) && msg is Leave,
{
    let last = doings_of(ended@);
    assert(last.len() == 4);
    assert(last[0] == ended@[0]@ && last[1] == ended@[1]@);
    assert(last[2] == ended@[2]@ && last[3] == ended@[3]@);
    if begun is Some {
        let (_, doings) = begun->0;
        let first = doings_of(doings@);
        assert(first.len() == 3);
        assert(first[0] == doings@[0]@ && first[1] == doings@[1]@ && first[2] == doings@[2]@);
    }
}

/// What is packed is the message, on the channel that it belongs on.
pub proof fn law_what_is_packed_is_the_message(msg: Msg, packed: Packed)
    requires
        call_ensures(pack, (&msg,), packed),
    ensures
        packed.bytes@ == msg@.bytes(),
        packed.route is Bulk <==> msg is Clipboard,
        packed.route is Datagram <==> {
            ||| msg is Ping
            ||| msg is Pong
            ||| msg matches Msg::Input(crate::event::Event::Pointer(event)) && event is Motion
        },
{
}

} // verus!

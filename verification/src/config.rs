//! Who this machine is, whom it talks to, and where the other screens sit.

use vstd::prelude::*;

use crate::text;

verus! {

/// An edge of a screen.
#[derive(Debug, Clone, Copy, PartialEq, Eq, Structural)]
pub enum Side {
    Left,
    Right,
    Top,
    Bottom,
}

impl Side {
    /// The edge that faces this one.
    pub open spec fn facing(self) -> Side {
        match self {
            Side::Left => Side::Right,
            Side::Right => Side::Left,
            Side::Top => Side::Bottom,
            Side::Bottom => Side::Top,
        }
    }

    /// If a peer sits above me, I sit below it. Both machines have to agree, or
    /// the cursor goes out one edge and can only come back through another.
    pub fn opposite(self) -> (side: Side)
        ensures
            side == self.facing(),
    {
        match self {
            Side::Left => Side::Right,
            Side::Right => Side::Left,
            Side::Top => Side::Bottom,
            Side::Bottom => Side::Top,
        }
    }
}

/// Two machines that each take the other to sit opposite agree: facing twice
/// is the edge one began with, and no edge faces itself.
pub proof fn law_opposite_sides_agree(side: Side)
    ensures
        side.facing().facing() == side,
        side.facing() != side,
        Side::Left.facing() == Side::Right,
        Side::Top.facing() == Side::Bottom,
{
}

/// Which end of the link a machine is. Input flows one way: the machine with
/// the keyboard and mouse is the server, and the machine it drives is the
/// client. Nothing types on a server, and a client's own screen edge only ever
/// hands control back, so neither end can take the other over by surprise.
#[derive(Debug, Clone, Copy, PartialEq, Eq, Structural)]
pub enum Role {
    /// This machine's keyboard and mouse are the ones being shared.
    Server,
    /// This machine is driven by the server, and shares no input of its own.
    Client,
}

/// What a configuration file says. Addresses are kept as written.
#[derive(Debug)]
pub struct Config {
    /// Name of this machine.
    pub name: String,
    /// Which end of the link this machine is.
    pub role: Role,
    /// Address to listen on.
    pub listen: String,
    pub peers: Vec<Peer>,
}

#[derive(Debug)]
pub struct Peer {
    pub name: String,
    /// Every address this peer may be reachable on: wired first, then wireless.
    pub addrs: Vec<String>,
    /// The peer's certificate fingerprint, as that machine prints it.
    pub fingerprint: String,
    /// Which edge of this screen the peer's screen sits on.
    pub position: Side,
    /// Which of this machine's displays that edge belongs to, counting from 1
    /// as the arrange window labels them. Left out, the edge belongs to the
    /// whole desktop.
    pub display: Option<usize>,
}

/// A peer with its text as sequences.
pub struct PeerModel {
    pub name: Seq<char>,
    pub addrs: Seq<Seq<char>>,
    pub fingerprint: Seq<char>,
    pub position: Side,
    pub display: Option<usize>,
}

impl View for Peer {
    type V = PeerModel;

    open spec fn view(&self) -> PeerModel {
        PeerModel {
            name: self.name@,
            addrs: self.addrs@.map_values(|a: String| a@),
            fingerprint: self.fingerprint@,
            position: self.position,
            display: self.display,
        }
    }
}

/// The models of a list of peers.
pub open spec fn models(peers: Seq<Peer>) -> Seq<PeerModel> {
    peers.map_values(|p: Peer| p@)
}

/// A configuration with its text and lists as sequences.
#[verifier::ext_equal]
pub struct ConfigModel {
    pub name: Seq<char>,
    pub role: Role,
    pub listen: Seq<char>,
    pub peers: Seq<PeerModel>,
}

impl View for Config {
    type V = ConfigModel;

    open spec fn view(&self) -> ConfigModel {
        ConfigModel {
            name: self.name@,
            role: self.role,
            listen: self.listen@,
            peers: models(self.peers@),
        }
    }
}

impl Config {
    /// What a machine's configuration says before any peer is added to it: it
    /// listens on every address.
    pub fn new(name: String, role: Role) -> (config: Config)
        ensures
            config@ == (ConfigModel {
                name: name@,
                role,
                listen: "0.0.0.0:4242"@,
                peers: Seq::empty(),
            }),
    {
        let config = Config { name, role, listen: default_listen(), peers: Vec::new() };
        assert(config@.peers =~= Seq::empty());
        config
    }
}

/// Where a machine listens, unless told otherwise.
pub fn default_listen() -> (address: String)
    ensures
        address@ == "0.0.0.0:4242"@,
{
    "0.0.0.0:4242".to_owned()
}

/// Why an arrangement cannot be saved.
#[derive(Debug, Clone, Copy, PartialEq, Eq, Structural)]
pub enum ArrangeError {
    /// There are no peers to arrange.
    NoPeers,
    /// There is no peer of that name.
    NoSuchPeer,
}

/// The place of the first peer with this name.
pub open spec fn first_named(peers: Seq<PeerModel>, name: Seq<char>) -> Option<int>
    decreases peers.len(),
{
    if peers.len() == 0 {
        None
    } else if peers[0].name == name {
        Some(0)
    } else {
        match first_named(peers.drop_first(), name) {
            Some(i) => Some(i + 1),
            None => None,
        }
    }
}

impl ConfigModel {
    /// The configuration with the first peer moved to another edge.
    pub open spec fn rearranged(self, side: Side, display: Option<usize>) -> Result<
        ConfigModel,
        ArrangeError,
    > {
        if self.peers.len() == 0 {
            Err(ArrangeError::NoPeers)
        } else {
            Ok(
                ConfigModel {
                    peers: self.peers.update(
                        0,
                        PeerModel { position: side, display, ..self.peers[0] },
                    ),
                    ..self
                },
            )
        }
    }

    /// The configuration with a peer on another side, of the same display.
    pub open spec fn with_side(self, peer: Seq<char>, side: Side) -> Result<
        ConfigModel,
        ArrangeError,
    > {
        match first_named(self.peers, peer) {
            None => Err(ArrangeError::NoSuchPeer),
            Some(i) => Ok(
                ConfigModel {
                    peers: self.peers.update(i, PeerModel { position: side, ..self.peers[i] }),
                    ..self
                },
            ),
        }
    }
}

/// Moves the peer's screen to another edge. With several peers, the first is
/// the one being arranged.
pub fn set_position(config: &mut Config, side: Side, display: Option<usize>) -> (done: Result<
    (),
    ArrangeError,
>)
    ensures
        match done {
            Ok(_) => old(config)@.rearranged(side, display) == Ok::<ConfigModel, ArrangeError>(
                final(config)@,
            ),
            Err(e) => old(config)@.rearranged(side, display) == Err::<ConfigModel, ArrangeError>(e)
                && final(config)@ == old(config)@,
        },
{
    if config.peers.len() == 0 {
        return Err(ArrangeError::NoPeers);
    }
    config.peers[0].position = side;
    config.peers[0].display = display;
    proof {
        assert(config@ =~= old(config)@.rearranged(side, display)->Ok_0);
    }
    Ok(())
}

/// Remembers where a peer says it sits, leaving which display alone.
pub fn set_peer_side(config: &mut Config, peer: &str, side: Side) -> (done: Result<
    (),
    ArrangeError,
>)
    ensures
        match done {
            Ok(_) => old(config)@.with_side(peer@, side) == Ok::<ConfigModel, ArrangeError>(
                final(config)@,
            ),
            Err(e) => old(config)@.with_side(peer@, side) == Err::<ConfigModel, ArrangeError>(e)
                && final(config)@ == old(config)@,
        },
{
    match find_peer(&config.peers, peer) {
        None => Err(ArrangeError::NoSuchPeer),
        Some(i) => {
            config.peers[i].position = side;
            proof {
                assert(config@ =~= old(config)@.with_side(peer@, side)->Ok_0);
            }
            Ok(())
        },
    }
}

/// Finds the first peer with this name.
fn find_peer(peers: &Vec<Peer>, name: &str) -> (index: Option<usize>)
    ensures
        match index {
            Some(i) => first_named(models(peers@), name@) == Some(i as int) && i < peers@.len(),
            None => first_named(models(peers@), name@) is None,
        },
{
    let ghost all = models(peers@);
    let mut i: usize = 0;
    assert(all.skip(0) =~= all);
    while i < peers.len()
        invariant
            i <= peers@.len(),
            all == models(peers@),
            first_named(all, name@) == match first_named(all.skip(i as int), name@) {
                Some(k) => Some(i + k),
                None => None,
            },
        decreases peers@.len() - i,
    {
        proof {
            assert(all.skip(i as int)[0] == peers@[i as int]@);
            assert(all.skip(i as int).drop_first() =~= all.skip(i + 1));
        }
        if text::same(peers[i].name.as_str(), name) {
            return Some(i);
        }
        i += 1;
    }
    None
}

/// An arrangement survives: what is saved is what is read, nothing else about
/// the peer changes, and no other peer changes at all.
pub proof fn law_only_the_arrangement_changes(
    config: ConfigModel,
    side: Side,
    display: Option<usize>,
    peer: Seq<char>,
)
    ensures
        config.rearranged(side, display) matches Ok(moved) ==> {
            &&& moved.peers.len() == config.peers.len()
            &&& moved.peers[0].position == side && moved.peers[0].display == display
            &&& moved.peers[0].fingerprint == config.peers[0].fingerprint
            &&& moved.name == config.name && moved.role == config.role
            &&& forall|i: int|
                1 <= i < config.peers.len() ==> moved.peers[i] == #[trigger] config.peers[i]
        },
        config.with_side(peer, side) matches Ok(told) ==> {
            let at = first_named(config.peers, peer)->0;
            &&& told.peers.len() == config.peers.len()
            &&& 0 <= at < config.peers.len() && config.peers[at].name == peer
            &&& told.peers[at].position == side
            &&& told.peers[at].display == config.peers[at].display
            &&& told.peers[at].fingerprint == config.peers[at].fingerprint
            &&& told.name == config.name && told.role == config.role
            &&& forall|i: int|
                0 <= i < config.peers.len() && i != at ==> told.peers[i]
                    == #[trigger] config.peers[i]
        },
{
    lemma_first_named(config.peers, peer);
}

/// The first peer with a name has that name.
proof fn lemma_first_named(peers: Seq<PeerModel>, name: Seq<char>)
    ensures
        first_named(peers, name) matches Some(i) ==> 0 <= i < peers.len() && peers[i].name == name,
    decreases peers.len(),
{
    if peers.len() > 0 {
        lemma_first_named(peers.drop_first(), name);
    }
}

/// The side that a word means; anything unknown is the right.
pub fn side_named(word: &str) -> (side: Side)
    ensures
        side == if word@ == "left"@ {
            Side::Left
        } else if word@ == "top"@ {
            Side::Top
        } else if word@ == "bottom"@ {
            Side::Bottom
        } else {
            Side::Right
        },
{
    if text::same(word, "left") {
        Side::Left
    } else if text::same(word, "top") {
        Side::Top
    } else if text::same(word, "bottom") {
        Side::Bottom
    } else {
        Side::Right
    }
}

/// Whether a command-line argument is meant for us. Finder hands a launched app
/// a `-psn_0_123` argument that is not.
pub fn keeps_argument(argument: &str) -> (keeps: bool)
    ensures
        keeps == !(argument@.len() >= 5 && argument@.take(5) == "-psn_"@),
{
    let chars = text::chars_of(argument);
    proof {
        reveal_strlit("-psn_");
    }
    let dropped = chars.len() >= 5 && chars[0] == '-' && chars[1] == 'p' && chars[2] == 's'
        && chars[3] == 'n' && chars[4] == '_';
    proof {
        if argument@.len() >= 5 {
            let front = argument@.take(5);
            if dropped {
                assert(front =~= "-psn_"@);
            } else if front == "-psn_"@ {
                assert(front[0] == '-' && front[1] == 'p' && front[2] == 's' && front[3] == 'n'
                    && front[4] == '_');
            }
        }
    }
    !dropped
}

/// Moving the first peer moves it and changes nothing else in the file: not its
/// name, its addresses or its fingerprint, not the other peers, and nothing about
/// this machine. It fails only where there is no peer.
pub proof fn law_arranging_moves_the_first_peer(
    config: ConfigModel,
    side: Side,
    display: Option<usize>,
)
    ensures
        config.peers.len() == 0 <==> config.rearranged(side, display) is Err,
        config.peers.len() == 0 ==> config.rearranged(side, display) == Err::<
            ConfigModel,
            ArrangeError,
        >(ArrangeError::NoPeers),
        config.rearranged(side, display) matches Ok(moved) ==> {
            let before = config.peers[0];
            &&& moved.name == config.name && moved.role == config.role && moved.listen
                == config.listen
            &&& moved.peers.len() == config.peers.len()
            &&& moved.peers[0] == (PeerModel {
                name: before.name,
                addrs: before.addrs,
                fingerprint: before.fingerprint,
                position: side,
                display,
            })
            &&& moved.peers.drop_first() == config.peers.drop_first()
        },
{
    if config.peers.len() > 0 {
        let moved = config.rearranged(side, display)->Ok_0;
        assert(moved.peers.drop_first() =~= config.peers.drop_first());
    }
}

/// Remembering a peer's side remembers it for the first peer of that name, and
/// changes nothing else in the file. It fails only where nobody has that name.
pub proof fn law_a_side_is_remembered_for_its_peer(
    config: ConfigModel,
    peer: Seq<char>,
    side: Side,
)
    ensures
        match config.with_side(peer, side) {
            Err(e) => e == ArrangeError::NoSuchPeer && forall|i: int|
                0 <= i < config.peers.len() ==> (#[trigger] config.peers[i]).name != peer,
            Ok(told) => exists|at: int|
                {
                    let before = config.peers[at];
                    &&& 0 <= at < config.peers.len() && before.name == peer
                    &&& forall|i: int|
                        0 <= i < at ==> (#[trigger] config.peers[i]).name != peer
                    &&& told.name == config.name && told.role == config.role && told.listen
                        == config.listen
                    &&& told.peers.len() == config.peers.len()
                    &&& #[trigger] told.peers[at] == (PeerModel {
                        name: before.name,
                        addrs: before.addrs,
                        fingerprint: before.fingerprint,
                        position: side,
                        display: before.display,
                    })
                    &&& forall|i: int|
                        0 <= i < config.peers.len() && i != at ==> #[trigger] told.peers[i]
                            == config.peers[i]
                },
        },
{
    law_the_first_of_a_name(config.peers, peer);
    if config.with_side(peer, side) is Ok {
        let told = config.with_side(peer, side)->Ok_0;
        let at = first_named(config.peers, peer)->0;
        let before = config.peers[at];
        assert(told.peers[at] == (PeerModel {
            name: before.name,
            addrs: before.addrs,
            fingerprint: before.fingerprint,
            position: side,
            display: before.display,
        }));
    }
}

/// A name means the first peer that has it, and nobody where none has.
pub proof fn law_the_first_of_a_name(peers: Seq<PeerModel>, name: Seq<char>)
    ensures
        match first_named(peers, name) {
            Some(at) => {
                &&& 0 <= at < peers.len() && peers[at].name == name
                &&& forall|i: int| 0 <= i < at ==> (#[trigger] peers[i]).name != name
            },
            None => forall|i: int| 0 <= i < peers.len() ==> (#[trigger] peers[i]).name != name,
        },
    decreases peers.len(),
{
    if peers.len() > 0 {
        let rest = peers.drop_first();
        law_the_first_of_a_name(rest, name);
        assert forall|i: int| 1 <= i < peers.len() implies #[trigger] peers[i] == rest[i - 1] by {}
        match first_named(rest, name) {
            Some(at) => {
                assert forall|i: int| 1 <= i < at + 1 implies (#[trigger] peers[i]).name
                    != name by {
                    assert(rest[i - 1].name != name);
                }
            },
            None => {
                assert forall|i: int| 1 <= i < peers.len() implies (#[trigger] peers[i]).name
                    != name by {
                    assert(rest[i - 1].name != name);
                }
            },
        }
    }
}

/// A configuration's model is the configuration, its text and lists as sequences.
pub proof fn law_a_configuration_is_what_its_model_says(config: Config, i: int, j: int)
    ensures
        config@.name == config.name@ && config@.role == config.role && config@.listen
            == config.listen@,
        config@.peers.len() == config.peers@.len(),
        0 <= i < config.peers@.len() ==> {
            let peer = config.peers@[i];
            let model = config@.peers[i];
            &&& model.name == peer.name@ && model.fingerprint == peer.fingerprint@
            &&& model.position == peer.position && model.display == peer.display
            &&& model.addrs.len() == peer.addrs@.len()
            &&& 0 <= j < peer.addrs@.len() ==> model.addrs[j] == peer.addrs@[j]@
        },
{
}

/// Each side is meant by its own word, and a word that means none of the others
/// means the right.
pub proof fn law_each_side_has_its_word(word: &str, side: Side)
    requires
        call_ensures(side_named, (word,), side),
    ensures
        word@ == "left"@ ==> side == Side::Left,
        word@ == "top"@ ==> side == Side::Top,
        word@ == "bottom"@ ==> side == Side::Bottom,
        word@ == "right"@ ==> side == Side::Right,
        side != Side::Right ==> word@ == "left"@ || word@ == "top"@ || word@ == "bottom"@,
{
    reveal_strlit("left");
    reveal_strlit("top");
    reveal_strlit("bottom");
    reveal_strlit("right");
    assert("left"@[0] == 'l' && "top"@[0] == 't' && "bottom"@[0] == 'b' && "right"@[0] == 'r');
}

/// What the system adds to a command line is dropped and everything else is kept:
/// an argument is dropped exactly where it is that beginning with anything behind
/// it.
pub proof fn law_only_what_the_system_adds_is_dropped(argument: &str, keeps: bool)
    requires
        call_ensures(keeps_argument, (argument,), keeps),
    ensures
        !keeps <==> exists|rest: Seq<char>| argument@ == #[trigger] ("-psn_"@ + rest),
{
    reveal_strlit("-psn_");
    if !keeps {
        assert(argument@ =~= "-psn_"@ + argument@.skip(5));
    }
    if exists|rest: Seq<char>| argument@ == #[trigger] ("-psn_"@ + rest) {
        let rest = choose|rest: Seq<char>| argument@ == #[trigger] ("-psn_"@ + rest);
        assert(argument@.take(5) =~= "-psn_"@);
    }
}

/// A new configuration is this machine's name and role, without peers, and it
/// listens on every address.
pub proof fn law_a_new_configuration_has_no_peers(name: String, role: Role, config: Config)
    requires
        call_ensures(Config::new, (name, role), config),
    ensures
        config.name@ == name@,
        config.role == role,
        config.peers@.len() == 0,
        config.listen@ == "0.0.0.0:4242"@,
{
    assert(config@.peers.len() == config.peers@.len());
}

} // verus!

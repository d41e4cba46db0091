//! The clipboard is kept the same on both machines, in both directions: copy
//! here, paste there, and the other way round.
//!
//! Images travel as whatever bytes the clipboard already holds. A screenshot is
//! PNG on both platforms, and passing it through untouched is smaller, faster
//! and lossless compared with decoding it to pixels and re-encoding.

use std::collections::hash_map::DefaultHasher;
use std::hash::{BuildHasher, BuildHasherDefault};

use vstd::prelude::*;
use vstd::utf8::*;

use crate::text;

verus! {

/// Text past this is a file dump, not something worth syncing on every copy.
pub const MAX_TEXT: usize = 1024 * 1024;

/// Images get more room: a retina screenshot is a couple of megabytes.
pub const MAX_IMAGE: usize = 16 * 1024 * 1024;

#[derive(Debug, Clone, PartialEq)]
pub enum Clip {
    Text(String),
    Image { mime: String, bytes: Vec<u8> },
}

/// A clip as sequences of characters and bytes.
pub enum ClipModel {
    Text(Seq<char>),
    Image { mime: Seq<char>, bytes: Seq<u8> },
}

impl View for Clip {
    type V = ClipModel;

    open spec fn view(&self) -> ClipModel {
        match self {
            Clip::Text(text) => ClipModel::Text(text@),
            Clip::Image { mime, bytes } => ClipModel::Image { mime: mime@, bytes: bytes@ },
        }
    }
}

impl ClipModel {
    /// What a clip is hashed from: its text, or its type and then its bytes.
    pub open spec fn parts(self) -> (Seq<char>, Option<Seq<u8>>) {
        match self {
            ClipModel::Text(text) => (text, None),
            ClipModel::Image { mime, bytes } => (mime, Some(bytes)),
        }
    }

    /// The identity by which one clip is told from another.
    pub open spec fn identity(self) -> u64 {
        hash_of(self.parts().0, self.parts().1)
    }

    /// Whether this clip is no larger than its kind may be.
    pub open spec fn within_limits(self) -> bool {
        match self {
            ClipModel::Text(text) => encode_utf8(text).len() <= MAX_TEXT,
            ClipModel::Image { mime, bytes } => bytes.len() <= MAX_IMAGE,
        }
    }

    /// Whether the clipboard reader lets this clip through.
    pub open spec fn admitted(self) -> bool {
        match self {
            ClipModel::Text(text) => 0 < encode_utf8(text).len() <= MAX_TEXT,
            ClipModel::Image { mime, bytes } => 0 < bytes.len() <= MAX_IMAGE,
        }
    }
}

/// What a fresh `DefaultHasher` makes of a text, and of the bytes behind it
/// where there are any.
pub uninterp spec fn hash_of(text: Seq<char>, bytes: Option<Seq<u8>>) -> u64;

/// `BuildHasher::hash_one` with the default hasher, on a text. Hashers that are
/// made without a seed are all alike, so within one release of the standard
/// library the hash depends on the text alone. Which number it is, is not said
/// here.
#[verifier::external_body]
fn hash_text(text: &str) -> (h: u64)
    ensures
        h == hash_of(text@, None),
{
    BuildHasherDefault::<DefaultHasher>::default().hash_one(text)
}

/// The same on a text and bytes: a tuple is hashed part by part, each into the
/// same hasher.
#[verifier::external_body]
fn hash_text_and_bytes(text: &str, bytes: &[u8]) -> (h: u64)
    ensures
        h == hash_of(text@, Some(bytes@)),
{
    BuildHasherDefault::<DefaultHasher>::default().hash_one((text, bytes))
}

impl Clip {
    /// A cheap identity for change detection. Image bytes are already
    /// compressed, so hashing them costs little.
    pub fn fingerprint(&self) -> (identity: u64)
        ensures
            identity == self@.identity(),
    {
        match self {
            Clip::Text(text) => hash_text(text.as_str()),
            Clip::Image { mime, bytes } => hash_text_and_bytes(mime.as_str(), bytes),
        }
    }

    /// A clip with the same content.
    pub fn copy(&self) -> (clip: Clip)
        ensures
            clip@ == self@,
    {
        match self {
            Clip::Text(text) => Clip::Text(text.clone()),
            Clip::Image { mime, bytes } => Clip::Image {
                mime: mime.clone(),
                bytes: vstd::slice::slice_to_vec(bytes),
            },
        }
    }

    /// How large the clip is, and of what kind.
    pub fn describe(&self) -> (words: String)
        ensures
            words@ == match self@ {
                ClipModel::Text(text) => text::decimal(encode_utf8(text).len() as int)
                    + " bytes of text"@,
                ClipModel::Image { mime, bytes } => text::decimal(bytes.len() as int) + " of "@
                    + mime,
            },
    {
        match self {
            Clip::Text(text) => {
                let mut words = text::number(text.as_str().as_bytes().len() as u64);
                words.append(" bytes of text");
                words
            },
            Clip::Image { mime, bytes } => {
                let mut words = text::number(bytes.len() as u64);
                words.append(" of ");
                words.append(mime.as_str());
                words
            },
        }
    }
}

/// Whether an image of this type and length is too big to send. The type has no
/// say in it.
pub fn too_big(_mime: &str, len: usize) -> (big: bool)
    ensures
        big == (len > MAX_IMAGE),
{
    len > MAX_IMAGE
}

/// The text on the clipboard as a clip. Nothing where it could not be read, is
/// empty, or is too long: none of these is worth interrupting input sharing for.
pub fn read_text(found: Option<String>) -> (clip: Option<Clip>)
    ensures
        match found {
            Some(text) => match clip {
                Some(c) => c@ == ClipModel::Text(text@) && c@.admitted(),
                None => !ClipModel::Text(text@).admitted(),
            },
            None => clip is None,
        },
        clip is Some <==> found is Some && 0 < encode_utf8(found->0@).len() <= 1024 * 1024,
        clip matches Some(c) ==> c == Clip::Text(found->0),
{
    match found {
        Some(text) => {
            let len = text.as_str().as_bytes().len();
            if len == 0 || len > MAX_TEXT {
                None
            } else {
                Some(Clip::Text(text))
            }
        },
        None => None,
    }
}

/// The image types worth carrying, in the order they are asked for.
pub open spec fn image_types() -> Seq<Seq<char>> {
    seq!["image/png"@, "image/jpeg"@, "image/gif"@]
}

/// The image type to ask for at the given turn, while there is one.
pub fn image_type(turn: usize) -> (mime: Option<&'static str>)
    ensures
        mime is Some <==> turn < image_types().len(),
        mime matches Some(m) ==> m@ == image_types()[turn as int],
        turn == 0 ==> mime is Some && mime->0@ == "image/png"@,
        turn == 1 ==> mime is Some && mime->0@ == "image/jpeg"@,
        turn == 2 ==> mime is Some && mime->0@ == "image/gif"@,
        turn > 2 ==> mime is None,
{
    match turn {
        0 => Some("image/png"),
        1 => Some("image/jpeg"),
        2 => Some("image/gif"),
        _ => None,
    }
}

/// What came of asking for one image type.
#[derive(Debug, PartialEq)]
pub enum Look {
    /// The clipboard does not offer this type: ask for the next.
    Further,
    /// The type is offered with nothing in it, so no image is there.
    Empty,
    /// There is an image: the clip it makes, or nothing where it is too big.
    Settled(Option<Clip>),
}

/// What came of asking, with clips as sequences.
pub enum LookModel {
    Further,
    Empty,
    Settled(Option<ClipModel>),
}

impl View for Look {
    type V = LookModel;

    open spec fn view(&self) -> LookModel {
        match self {
            Look::Further => LookModel::Further,
            Look::Empty => LookModel::Empty,
            Look::Settled(Some(clip)) => LookModel::Settled(Some(clip@)),
            Look::Settled(None) => LookModel::Settled(None),
        }
    }
}

/// What the clipboard's answer for one image type comes to.
pub open spec fn look_at(mime: Seq<char>, found: Option<Seq<u8>>) -> LookModel {
    match found {
        None => LookModel::Further,
        Some(bytes) => if bytes.len() == 0 {
            LookModel::Empty
        } else if bytes.len() > MAX_IMAGE {
            LookModel::Settled(None)
        } else {
            LookModel::Settled(Some(ClipModel::Image { mime, bytes }))
        },
    }
}

/// The model of bytes that may be missing.
pub open spec fn bytes_model(found: Option<Vec<u8>>) -> Option<Seq<u8>> {
    match found {
        Some(bytes) => Some(bytes@),
        None => None,
    }
}

/// Judges what the clipboard gave for one image type.
pub fn read_image(mime: &str, found: Option<Vec<u8>>) -> (look: Look)
    ensures
        look@ == look_at(mime@, bytes_model(found)),
        look is Further <==> found is None,
        look is Empty <==> found is Some && found->0@.len() == 0,
        look matches Look::Settled(image) ==> {
            &&& image is Some <==> found->0@.len() <= 16 * 1024 * 1024
            &&& image matches Some(clip) ==> clip matches Clip::Image { mime: m, bytes } && m@
                == mime@ && bytes == found->0
        },
{
    match found {
        Some(bytes) => {
            if bytes.len() == 0 {
                Look::Empty
            } else if too_big(mime, bytes.len()) {
                Look::Settled(None)
            } else {
                Look::Settled(Some(Clip::Image { mime: mime.to_owned(), bytes }))
            }
        },
        None => Look::Further,
    }
}

/// Whether to ask for the next image type: while there is one, and the types
/// asked for so far were not on offer.
pub open spec fn asks_on(turn: int, look: LookModel) -> bool {
    look is Further && turn + 1 < image_types().len()
}

/// The turn to ask at next, after what came of this one.
pub fn next_turn(turn: usize, look: &Look) -> (next: Option<usize>)
    ensures
        next == if asks_on(turn as int, look@) {
            Some((turn + 1) as usize)
        } else {
            None
        },
{
    match look {
        Look::Further => {
            if turn < 2 {
                Some(turn + 1)
            } else {
                None
            }
        },
        _ => None,
    }
}

/// What asking turn by turn comes to, from this turn on, where the clipboard
/// would answer like this.
pub open spec fn looked(found: Seq<Option<Seq<u8>>>, turn: int) -> LookModel
    decreases image_types().len() - turn,
{
    let look = look_at(image_types()[turn], found[turn]);
    if asks_on(turn, look) {
        looked(found, turn + 1)
    } else {
        look
    }
}

/// What is on the clipboard, by what came of looking for an image and by the
/// text that is there.
pub open spec fn taken(look: LookModel, text: Option<Seq<char>>) -> Option<ClipModel> {
    match (look, text) {
        (LookModel::Settled(image), _) => image,
        (_, Some(t)) => if ClipModel::Text(t).admitted() {
            Some(ClipModel::Text(t))
        } else {
            None
        },
        (_, None) => None,
    }
}

/// What is on the clipboard: an image if one is there, otherwise text. Nothing
/// where it holds neither, or where what it holds is too big: an image that is
/// too big does not make way for text.
pub fn read(look: Look, text: Option<String>) -> (clip: Option<Clip>)
    ensures
        look matches Look::Settled(image) ==> clip == image,
        !(look is Settled) ==> match text {
            Some(text) => match clip {
                Some(c) => c@ == ClipModel::Text(text@) && c@.admitted(),
                None => !ClipModel::Text(text@).admitted(),
            },
            None => clip is None,
        },
        match clip {
            Some(c) => taken(look@, text::optional(text)) == Some(c@),
            None => taken(look@, text::optional(text)) is None,
        },
        !(look is Settled) ==> (clip is Some <==> text is Some && 0 < encode_utf8(
            text->0@,
        ).len() <= 1024 * 1024),
        !(look is Settled) && clip is Some ==> clip->0 == Clip::Text(text->0),
{
    match look {
        Look::Settled(image) => image,
        Look::Further | Look::Empty => read_text(text),
    }
}

/// The first image type on offer decides. An image in it that is not too big is
/// taken as it is, and one that is too big means that nothing is taken, whatever
/// text there is; text is taken only where no type is on offer, or the first
/// that is has nothing in it.
pub proof fn law_the_first_image_on_offer_decides(
    found: Seq<Option<Seq<u8>>>,
    text: Option<Seq<char>>,
    at: int,
)
    requires
        found.len() == image_types().len(),
    ensures
        0 <= at < found.len() && found[at] is Some && (forall|i: int|
            0 <= i < at ==> (#[trigger] found[i]) is None) ==> {
            let bytes = found[at]->0;
            let image = ClipModel::Image { mime: image_types()[at], bytes };
            &&& 0 < bytes.len() <= MAX_IMAGE ==> taken(looked(found, 0), text) == Some(image)
            &&& bytes.len() > MAX_IMAGE ==> taken(looked(found, 0), text) is None
            &&& bytes.len() == 0 ==> taken(looked(found, 0), text) == taken(
                LookModel::Further,
                text,
            )
        },
        (forall|i: int| 0 <= i < found.len() ==> (#[trigger] found[i]) is None) ==> taken(
            looked(found, 0),
            text,
        ) == taken(LookModel::Further, text),
{
    reveal_with_fuel(looked, 3);
    if 0 <= at < found.len() && found[at] is Some && (forall|i: int|
        0 <= i < at ==> (#[trigger] found[i]) is None) {
        assert(at == 0 || found[0] is None);
        assert(at <= 1 || found[1] is None);
    }
    if forall|i: int| 0 <= i < found.len() ==> (#[trigger] found[i]) is None {
        assert(found[0] is None && found[1] is None && found[2] is None);
    }
}

/// macOS names types by UTI, not by MIME type.
pub fn uti_for(mime: &str) -> (uti: &'static str)
    ensures
        uti@ == if mime@ == "image/jpeg"@ {
            "public.jpeg"@
        } else if mime@ == "image/gif"@ {
            "com.compuserve.gif"@
        } else {
            "public.png"@
        },
{
    if text::same(mime, "image/jpeg") {
        "public.jpeg"
    } else if text::same(mime, "image/gif") {
        "com.compuserve.gif"
    } else {
        "public.png"
    }
}

/// What sat on the clipboard last, whether it was read locally or written from
/// a peer. Without this, writing a peer's clipboard looks like a local copy and
/// gets sent straight back.
pub struct LastSeen {
    pub identity: Option<u64>,
}

impl LastSeen {
    /// What is remembered once this clip has been seen.
    pub open spec fn having_seen(clip: ClipModel) -> LastSeen {
        LastSeen { identity: Some(clip.identity()) }
    }

    /// Whether this clip passes for a new copy.
    pub open spec fn is_new(self, clip: ClipModel) -> bool {
        self.identity != Some(clip.identity())
    }

    /// Whatever is on the clipboard at startup was not copied just now.
    pub fn start(found: &Option<Clip>) -> (seen: LastSeen)
        ensures
            seen == match found {
                Some(clip) => LastSeen::having_seen(clip@),
                None => (LastSeen { identity: None }),
            },
    {
        match found {
            Some(clip) => LastSeen { identity: Some(clip.fingerprint()) },
            None => LastSeen { identity: None },
        }
    }

    /// Remembers a clip that a peer sent, before it lands here.
    pub fn remember(&mut self, clip: &Clip)
        ensures
            *final(self) == LastSeen::having_seen(clip@),
    {
        self.identity = Some(clip.fingerprint());
    }

    /// Whether this clip is new here, and so goes to the peers. Either way it
    /// is the one seen last from now on.
    pub fn changed(&mut self, clip: &Clip) -> (changed: bool)
        ensures
            changed == old(self).is_new(clip@),
            *final(self) == LastSeen::having_seen(clip@),
    {
        let now = clip.fingerprint();
        let changed = match self.identity {
            Some(last) => last != now,
            None => true,
        };
        if changed {
            self.identity = Some(now);
        }
        changed
    }
}

/// A clip is sent once: after it has been sent, or has been written here for a
/// peer, the same clip is not new, so it is never bounced back to where it came
/// from. With nothing seen yet, every clip is new.
pub proof fn law_a_clip_is_never_sent_back(clip: ClipModel)
    ensures
        !LastSeen::having_seen(clip).is_new(clip),
        (LastSeen { identity: None }).is_new(clip),
{
}

/// A change of any kind reaches the identity: clips that differ in kind, type,
/// text or bytes are hashed from different parts, so only a collision of the
/// hash can hide a change.
pub proof fn law_a_change_of_any_kind_is_noticed(a: ClipModel, b: ClipModel)
    ensures
        a.parts() == b.parts() ==> a == b,
        LastSeen::having_seen(a).is_new(b) <==> hash_of(a.parts().0, a.parts().1) != hash_of(
            b.parts().0,
            b.parts().1,
        ),
{
}

/// Text goes across by its length alone: at least one byte of it, and at most a
/// megabyte. What it says, how many lines it has and whatever else it holds make
/// no difference, and it goes across as it is.
pub proof fn law_text_goes_across_by_its_length_alone(text: Seq<char>, look: LookModel)
    requires
        !(look is Settled),
    ensures
        ({
            let len = encode_utf8(text).len();
            &&& ClipModel::Text(text).admitted() <==> 1 <= len <= 1048576
            &&& 1 <= len <= 1048576 ==> taken(look, Some(text)) == Some(ClipModel::Text(text))
            &&& len == 0 || len > 1048576 ==> taken(look, Some(text)) is None
        }),
        forall|other: Seq<char>|
            encode_utf8(other).len() == encode_utf8(text).len() ==> (#[trigger] taken(
                look,
                Some(other),
            ) is Some <==> taken(look, Some(text)) is Some),
        taken(look, None) is None,
{
}

/// An image goes across by its length alone, whatever its type and its bytes: at
/// least one byte, and at most sixteen megabytes. It goes across as it is, under
/// the type that it was found as, and whatever text there is beside it.
pub proof fn law_an_image_goes_across_by_its_length_alone(
    mime: Seq<char>,
    bytes: Seq<u8>,
    text: Option<Seq<char>>,
)
    ensures
        ({
            let image = ClipModel::Image { mime, bytes };
            let look = look_at(mime, Some(bytes));
            &&& image.admitted() <==> 1 <= bytes.len() <= 16777216
            &&& 1 <= bytes.len() <= 16777216 ==> taken(look, text) == Some(image)
            &&& bytes.len() > 16777216 ==> taken(look, text) is None
            &&& bytes.len() == 0 ==> taken(look, text) == taken(look_at(mime, None), text)
            &&& !(look is Further)
        }),
        look_at(mime, None) is Further,
{
}

/// Limits are limits: what the reader lets through is within them, and they are
/// a megabyte of text and sixteen of an image.
pub proof fn law_what_goes_across_is_within_limits(clip: ClipModel)
    ensures
        clip.admitted() ==> clip.within_limits(),
        clip.within_limits() <==> match clip {
            ClipModel::Text(text) => encode_utf8(text).len() <= 1048576,
            ClipModel::Image { mime, bytes } => bytes.len() <= 16777216,
        },
{
}

/// The three image types are asked for in turn, each only where none before it
/// was on offer, and after the third there is nothing left to ask for.
pub proof fn law_three_types_are_asked_for_in_turn(turn: int, look: LookModel)
    requires
        0 <= turn < 3,
    ensures
        image_types().len() == 3,
        image_types()[0] == "image/png"@,
        image_types()[1] == "image/jpeg"@,
        image_types()[2] == "image/gif"@,
        asks_on(turn, look) <==> look is Further && turn < 2,
{
}

/// Looking goes on exactly while nothing is on offer: what it comes to is what
/// the first type on offer comes to.
pub proof fn law_looking_ends_with_the_first_on_offer(found: Seq<Option<Seq<u8>>>)
    requires
        found.len() == 3,
    ensures
        looked(found, 0) == if found[0] is Some {
            look_at("image/png"@, found[0])
        } else if found[1] is Some {
            look_at("image/jpeg"@, found[1])
        } else {
            look_at("image/gif"@, found[2])
        },
{
    reveal_with_fuel(looked, 3);
}

/// A clip is known by the hash of all of it: of its text, or of its type and its
/// bytes. What was seen last is that hash, and a clip is new exactly where its
/// hash is another, or nothing was seen yet.
pub proof fn law_a_clip_is_known_by_all_of_it(
    text: Seq<char>,
    mime: Seq<char>,
    bytes: Seq<u8>,
    clip: ClipModel,
    last: u64,
)
    ensures
        ClipModel::Text(text).identity() == hash_of(text, None),
        (ClipModel::Image { mime, bytes }).identity() == hash_of(mime, Some(bytes)),
        LastSeen::having_seen(clip).identity == Some(clip.identity()),
        (LastSeen { identity: Some(last) }).is_new(clip) <==> clip.identity() != last,
        (LastSeen { identity: None }).is_new(clip),
{
}

/// A clip's model is the clip, and what came of looking is what its model says.
pub proof fn law_a_clip_is_what_its_model_says(clip: Clip, look: Look, found: Option<Vec<u8>>)
    ensures
        clip matches Clip::Text(text) ==> clip@ == ClipModel::Text(text@),
        clip matches Clip::Image { mime, bytes } ==> clip@ == (ClipModel::Image {
            mime: mime@,
            bytes: bytes@,
        }),
        look is Further <==> look@ is Further,
        look is Empty <==> look@ is Empty,
        look matches Look::Settled(image) ==> look@ matches LookModel::Settled(model) && match (
            image,
            model,
        ) {
            (Some(i), Some(m)) => m == i@,
            (None, None) => true,
            _ => false,
        },
        bytes_model(found) is Some <==> found is Some,
        found matches Some(bytes) ==> bytes_model(found)->0 == bytes@,
{
}

/// An image is too big by its length alone, whatever its type; macOS knows each
/// of the three types by a name of its own, and any other as the first; and the
/// types are asked for one after another, only while nothing was on offer.
pub proof fn law_types_and_sizes(
    mime: &str,
    len: usize,
    big: bool,
    uti: &'static str,
    turn: usize,
    look: Look,
    next: Option<usize>,
)
    requires
        call_ensures(too_big, (mime, len), big),
        call_ensures(uti_for, (mime,), uti),
        call_ensures(next_turn, (turn, &look), next),
    ensures
        big <==> len > 16777216,
        mime@ == "image/jpeg"@ ==> uti@ == "public.jpeg"@,
        mime@ == "image/gif"@ ==> uti@ == "com.compuserve.gif"@,
        mime@ != "image/jpeg"@ && mime@ != "image/gif"@ ==> uti@ == "public.png"@,
        next is Some <==> look is Further && turn < 2,
        next matches Some(n) ==> n == turn + 1,
{
    reveal_strlit("image/jpeg");
    reveal_strlit("image/gif");
    assert("image/jpeg"@[6] == 'j' && "image/gif"@[6] == 'g');
}

/// A clip that came from a peer is not sent back: remembered before it lands, it
/// is no change when it is read. Any clip is a change at most once in a row.
pub proof fn law_a_remembered_clip_is_no_change(clip: Clip, twin: Clip)
    requires
        clip@ == twin@,
    ensures
        forall|seen: &mut LastSeen| #[trigger]
            call_ensures(LastSeen::remember, (seen, &clip), ()) ==> !final(seen).is_new(twin@),
        forall|seen: &mut LastSeen, changed: bool| #[trigger]
            call_ensures(LastSeen::changed, (seen, &clip), changed) ==> !final(seen).is_new(twin@)
                && (changed <==> seen.is_new(twin@)),
        forall|seen: LastSeen| #[trigger]
            call_ensures(LastSeen::start, (&Some(clip),), seen) ==> !seen.is_new(twin@),
        forall|seen: LastSeen| #[trigger]
            call_ensures(LastSeen::start, (&None,), seen) ==> seen.is_new(twin@),
{
}

} // verus!

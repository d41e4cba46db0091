//! What the daemon is doing, for anything that wants to show it: `glide status`,
//! the macOS menu bar, a waybar module. The daemon keeps it in a small file, so
//! that it can be shown without talking to the daemon or costing it a thread.

use vstd::hash_map::StringHashMap;
use vstd::prelude::*;

use crate::double;
use crate::input::Label;
use crate::screens;
use crate::screens::{Screen, ScreenModel};
use crate::text;

verus! {

/// A time in milliseconds, held as the bits of a double, along with how it is
/// written to one, two and three decimals.
#[derive(Debug, Clone)]
pub struct Millis {
    pub bits: u64,
    pub tenths: String,
    pub hundredths: String,
    pub thousandths: String,
}

/// A time with its writings as sequences of characters.
pub struct MillisModel {
    pub bits: u64,
    pub tenths: Seq<char>,
    pub hundredths: Seq<char>,
    pub thousandths: Seq<char>,
}

impl View for Millis {
    type V = MillisModel;

    open spec fn view(&self) -> MillisModel {
        MillisModel {
            bits: self.bits,
            tenths: self.tenths@,
            hundredths: self.hundredths@,
            thousandths: self.thousandths@,
        }
    }
}

impl Millis {
    fn copy(&self) -> (millis: Millis)
        ensures
            millis@ == self@,
    {
        Millis {
            bits: self.bits,
            tenths: self.tenths.clone(),
            hundredths: self.hundredths.clone(),
            thousandths: self.thousandths.clone(),
        }
    }

}

/// Times compare as the doubles they are.
impl PartialEq for Millis {
    fn eq(&self, other: &Millis) -> (equal: bool) {
        double::are_equal(self.bits, other.bits)
    }
}

impl vstd::std_specs::cmp::PartialEqSpecImpl for Millis {
    open spec fn obeys_eq_spec() -> bool {
        true
    }

    open spec fn eq_spec(&self, other: &Millis) -> bool {
        double::equal(self.bits, other.bits)
    }
}

#[derive(Debug, Clone)]
pub struct State {
    pub peer: String,
    /// One of: offline, local, sending, receiving.
    pub mode: String,
    pub rtt_ms: Option<Millis>,
    /// This machine cannot capture or type. Kept apart from `mode` because a
    /// link that drops and reconnects must not erase a permission problem.
    pub denied: bool,
}

/// A state with its text as sequences of characters.
pub struct StateModel {
    pub peer: Seq<char>,
    pub mode: Seq<char>,
    pub rtt_ms: Option<MillisModel>,
    pub denied: bool,
}

/// The model of a time that may be missing.
pub open spec fn millis_model(rtt: Option<Millis>) -> Option<MillisModel> {
    match rtt {
        Some(millis) => Some(millis@),
        None => None,
    }
}

impl View for State {
    type V = StateModel;

    open spec fn view(&self) -> StateModel {
        StateModel {
            peer: self.peer@,
            mode: self.mode@,
            rtt_ms: millis_model(self.rtt_ms),
            denied: self.denied,
        }
    }
}

/// Whether two times, which may be missing, are equal as doubles.
pub open spec fn same_time(a: Option<MillisModel>, b: Option<MillisModel>) -> bool {
    match (a, b) {
        (Some(a), Some(b)) => double::equal(a.bits, b.bits),
        (None, None) => true,
        _ => false,
    }
}

/// States are equal where nothing in them has changed.
impl PartialEq for State {
    fn eq(&self, other: &State) -> (equal: bool) {
        let timing = match (&self.rtt_ms, &other.rtt_ms) {
            (Some(a), Some(b)) => a == b,
            (None, None) => true,
            _ => false,
        };
        timing && self.denied == other.denied && text::same(
            self.mode.as_str(),
            other.mode.as_str(),
        ) && text::same(self.peer.as_str(), other.peer.as_str())
    }
}

impl vstd::std_specs::cmp::PartialEqSpecImpl for State {
    open spec fn obeys_eq_spec() -> bool {
        true
    }

    open spec fn eq_spec(&self, other: &State) -> bool {
        self@.same(other@)
    }
}

impl StateModel {
    /// Whether two states are equal, their times as doubles: a time that is no
    /// number is never the same, and zero has two signs.
    pub open spec fn same(self, other: StateModel) -> bool {
        self.peer == other.peer && self.mode == other.mode && self.denied == other.denied
            && same_time(self.rtt_ms, other.rtt_ms)
    }

    /// One line fit for a menu bar or a status bar.
    pub open spec fn summary(self) -> Seq<char> {
        if self.denied {
            "⚠ needs permission"@
        } else if self.mode == "sending"@ {
            "→ "@ + self.peer
        } else if self.mode == "receiving"@ {
            "← "@ + self.peer
        } else if self.mode == "local"@ {
            match self.rtt_ms {
                Some(rtt) => "● "@ + rtt.tenths + "ms"@,
                None => "● linked"@,
            }
        } else {
            "✕ offline"@
        }
    }

    /// Who this machine is linked to, and whether it is linked at all.
    pub open spec fn headline(self) -> Seq<char> {
        if self.denied {
            "Input permission needed"@
        } else if self.mode == "offline"@ {
            "Not connected"@
        } else {
            "Linked to "@ + self.peer
        }
    }

    /// Which way input is flowing right now.
    pub open spec fn flow(self) -> Seq<char> {
        if self.denied {
            "Grant Input Monitoring and Device Control"@
        } else if self.mode == "sending"@ {
            "You are controlling "@ + self.peer
        } else if self.mode == "receiving"@ {
            self.peer + " is controlling this Mac"@
        } else if self.mode == "local"@ {
            "Input stays on this Mac"@
        } else {
            "Looking for "@ + self.peer
        }
    }

    /// The round trip, spelled out.
    pub open spec fn speed(self) -> Seq<char> {
        match self.rtt_ms {
            Some(rtt) => rtt.hundredths + " ms round trip"@,
            None => "No timing yet"@,
        }
    }

    /// The round trip as part of a longer line.
    pub open spec fn timing(self) -> Seq<char> {
        match self.rtt_ms {
            Some(rtt) => rtt.hundredths + " ms round trip"@,
            None => "no samples yet"@,
        }
    }

    /// All of it in one sentence.
    pub open spec fn tooltip(self) -> Seq<char> {
        if self.denied {
            "glide: grant Input Monitoring and Device Control to Glide, then restart it"@
        } else if self.mode == "sending"@ {
            "glide: controlling "@ + self.peer + ", "@ + self.timing()
        } else if self.mode == "receiving"@ {
            "glide: "@ + self.peer + " is controlling this machine, "@ + self.timing()
        } else if self.mode == "local"@ {
            "glide: linked to "@ + self.peer + ", input is local, "@ + self.timing()
        } else {
            "glide: no peer connected"@
        }
    }

    /// What a stylesheet keys off: the flow, or the problem.
    pub open spec fn class(self) -> Seq<char> {
        if self.denied {
            "denied"@
        } else {
            self.mode
        }
    }

    /// The text of the JSON object: the summary, or the app's letter.
    pub open spec fn shown(self, badge: bool) -> Seq<char> {
        if badge {
            "G"@
        } else {
            self.summary()
        }
    }

    /// One JSON object on one line.
    pub open spec fn json(self, badge: bool) -> Seq<char> {
        "{\"text\":\""@ + escaped(self.shown(badge)) + "\",\"tooltip\":\""@ + escaped(
            self.tooltip(),
        ) + "\",\"class\":\""@ + escaped(self.class()) + "\"}"@
    }

    /// The round trip as the file has it: nothing where there is none.
    pub open spec fn saved_rtt(self) -> Seq<char> {
        match self.rtt_ms {
            Some(rtt) => rtt.thousandths,
            None => Seq::empty(),
        }
    }

    /// What the status file holds.
    pub open spec fn file(self) -> Seq<char> {
        "mode="@ + self.mode + "\npeer="@ + self.peer + "\nrtt_ms="@ + self.saved_rtt()
            + "\ndenied="@ + (if self.denied {
            "true"@
        } else {
            "false"@
        }) + "\n"@
    }

    /// The state once the link to a peer is gone.
    pub open spec fn offline(self, peer: Seq<char>) -> StateModel {
        StateModel { peer, mode: "offline"@, rtt_ms: None, denied: self.denied }
    }

    /// The state once a peer is linked.
    pub open spec fn linked(self, peer: Seq<char>) -> StateModel {
        StateModel {
            peer,
            mode: if self.mode == "offline"@ {
                "local"@
            } else {
                self.mode
            },
            ..self
        }
    }
}

/// Whether a character is one of those that JSON takes only by their number:
/// the control characters below the space.
pub open spec fn is_control(c: char) -> bool {
    (c as int) < 32
}

/// A character's number is the same as an integer and as a machine number.
proof fn lemma_number_of_char(c: char)
    ensures
        0 <= c as int,
        c as int == c as u32,
{
}

/// A character inside a quoted string: a backslash goes in front of what would
/// otherwise mean something, and a control character is written by its number.
pub open spec fn escaped_char(c: char) -> Seq<char> {
    if c == '\\' || c == '"' {
        seq!['\\', c]
    } else if is_control(c) {
        seq![
            '\\',
            'u',
            '0',
            '0',
            text::hex_digit(c as int / 16),
            text::hex_digit(c as int % 16),
        ]
    } else {
        seq![c]
    }
}

/// Text inside a quoted string.
pub open spec fn escaped(text: Seq<char>) -> Seq<char>
    decreases text.len(),
{
    if text.len() == 0 {
        Seq::empty()
    } else {
        escaped(text.drop_last()) + escaped_char(text.last())
    }
}

/// Text made fit for a quoted string.
pub fn escape(text: &str) -> (quoted: String)
    ensures
        quoted@ == escaped(text@),
{
    let mut quoted = String::new();
    for c in it: text.chars()
        invariant
            it.seq() == text@,
            quoted@ == escaped(text@.take(it.index() as int)),
    {
        proof {
            assert(text@.take(it.index() + 1).drop_last() =~= text@.take(it.index() as int));
        }
        let ghost before = quoted@;
        proof {
            lemma_number_of_char(c);
        }
        if c == '\\' || c == '"' {
            quoted.push('\\');
            quoted.push(c);
        } else if (c as u32) < 32 {
            let code: u8 = (c as u32) as u8;
            quoted.push('\\');
            quoted.push('u');
            quoted.push('0');
            quoted.push('0');
            quoted.push(text::hex_char(code / 16));
            quoted.push(text::hex_char(code % 16));
        } else {
            quoted.push(c);
        }
        assert(quoted@ =~= before + escaped_char(c));
    }
    assert(text@.take(text@.len() as int) =~= text@);
    quoted
}

/// Text in two parts.
fn pair(a: &str, b: &str) -> (text: String)
    ensures
        text@ == a@ + b@,
{
    let mut text = a.to_owned();
    text.append(b);
    text
}

/// Text in three parts.
fn joined(a: &str, b: &str, c: &str) -> (text: String)
    ensures
        text@ == a@ + b@ + c@,
{
    let mut text = a.to_owned();
    text.append(b);
    text.append(c);
    text
}

impl Default for State {
    fn default() -> (state: State)
        ensures
            state@ == (StateModel {
                peer: Seq::empty(),
                mode: "offline"@,
                rtt_ms: None,
                denied: false,
            }),
    {
        State { peer: String::new(), mode: "offline".to_owned(), rtt_ms: None, denied: false }
    }
}

impl State {
    /// One line fit for a menu bar or a status bar.
    pub fn summary(&self) -> (line: String)
        ensures
            line@ == self@.summary(),
    {
        let mode = self.mode.as_str();
        if self.denied {
            return "⚠ needs permission".to_owned();
        }
        if text::same(mode, "sending") {
            pair("→ ", self.peer.as_str())
        } else if text::same(mode, "receiving") {
            pair("← ", self.peer.as_str())
        } else if text::same(mode, "local") {
            match &self.rtt_ms {
                Some(rtt) => joined("● ", rtt.tenths.as_str(), "ms"),
                None => "● linked".to_owned(),
            }
        } else {
            "✕ offline".to_owned()
        }
    }

    /// Who this machine is linked to, and whether it is linked at all.
    pub fn headline(&self) -> (line: String)
        ensures
            line@ == self@.headline(),
    {
        if self.denied {
            "Input permission needed".to_owned()
        } else if text::same(self.mode.as_str(), "offline") {
            "Not connected".to_owned()
        } else {
            pair("Linked to ", self.peer.as_str())
        }
    }

    /// Which way input is flowing right now.
    pub fn flow(&self) -> (line: String)
        ensures
            line@ == self@.flow(),
    {
        let mode = self.mode.as_str();
        if self.denied {
            return "Grant Input Monitoring and Device Control".to_owned();
        }
        if text::same(mode, "sending") {
            pair("You are controlling ", self.peer.as_str())
        } else if text::same(mode, "receiving") {
            pair(self.peer.as_str(), " is controlling this Mac")
        } else if text::same(mode, "local") {
            "Input stays on this Mac".to_owned()
        } else {
            pair("Looking for ", self.peer.as_str())
        }
    }

    /// The round trip, spelled out.
    pub fn speed(&self) -> (line: String)
        ensures
            line@ == self@.speed(),
    {
        match &self.rtt_ms {
            Some(rtt) => pair(rtt.hundredths.as_str(), " ms round trip"),
            None => "No timing yet".to_owned(),
        }
    }

    /// All of it in one sentence.
    pub fn tooltip(&self) -> (line: String)
        ensures
            line@ == self@.tooltip(),
    {
        let rtt = match &self.rtt_ms {
            Some(rtt) => pair(rtt.hundredths.as_str(), " ms round trip"),
            None => "no samples yet".to_owned(),
        };
        let mode = self.mode.as_str();
        let peer = self.peer.as_str();
        if self.denied {
            return "glide: grant Input Monitoring and Device Control to Glide, then restart it"
                .to_owned();
        }
        if text::same(mode, "sending") {
            let mut line = joined("glide: controlling ", peer, ", ");
            line.append(rtt.as_str());
            line
        } else if text::same(mode, "receiving") {
            let mut line = joined("glide: ", peer, " is controlling this machine, ");
            line.append(rtt.as_str());
            line
        } else if text::same(mode, "local") {
            let mut line = joined("glide: linked to ", peer, ", input is local, ");
            line.append(rtt.as_str());
            line
        } else {
            "glide: no peer connected".to_owned()
        }
    }

    /// waybar and friends want one JSON object per line. `badge` swaps the
    /// wordy text for the app's letter, which a stylesheet can then draw as the
    /// same rounded square the Mac shows in its menu bar.
    pub fn json(&self, badge: bool) -> (line: String)
        ensures
            line@ == self@.json(badge),
            !line@.contains('\n'),
    {
        proof {
            law_json_is_one_line(self@, badge);
        }
        let shown = if badge {
            "G".to_owned()
        } else {
            self.summary()
        };
        let mut line = joined("{\"text\":\"", escape(shown.as_str()).as_str(), "\",\"tooltip\":\"");
        line.append(escape(self.tooltip().as_str()).as_str());
        line.append("\",\"class\":\"");
        line.append(escape(self.class().as_str()).as_str());
        line.append("\"}");
        line
    }

    /// What a stylesheet keys off: the flow, or the problem.
    pub fn class(&self) -> (class: String)
        ensures
            class@ == self@.class(),
    {
        if self.denied {
            "denied".to_owned()
        } else {
            self.mode.clone()
        }
    }

    /// What the status file holds.
    pub fn encode(&self) -> (file: String)
        ensures
            file@ == self@.file(),
    {
        let mut file = joined("mode=", self.mode.as_str(), "\npeer=");
        file.append(self.peer.as_str());
        file.append("\nrtt_ms=");
        match &self.rtt_ms {
            Some(rtt) => file.append(rtt.thousandths.as_str()),
            None => {
                assert(file@ + Seq::<char>::empty() =~= file@);
            },
        }
        file.append("\ndenied=");
        if self.denied {
            file.append("true");
        } else {
            file.append("false");
        }
        file.append("\n");
        file
    }
}

/// A line that ended in a newline, without the carriage return that may have
/// stood before it.
pub open spec fn trimmed(line: Seq<char>) -> Seq<char> {
    if line.len() > 0 && line.last() == '\r' {
        line.drop_last()
    } else {
        line
    }
}

/// The lines of a text. The last may lack its newline.
pub open spec fn lines_of(text: Seq<char>) -> Seq<Seq<char>>
    decreases text.len(),
{
    if text.len() == 0 {
        Seq::empty()
    } else {
        let end = text::first_of(text, '\n');
        if 0 <= end < text.len() {
            seq![trimmed(text.take(end))] + lines_of(text.skip(end + 1))
        } else {
            seq![text]
        }
    }
}

/// What stands behind `key=` in the last of these lines that begins so.
pub open spec fn last_value(lines: Seq<Seq<char>>, key: Seq<char>) -> Option<Seq<char>>
    decreases lines.len(),
{
    if lines.len() == 0 {
        None
    } else {
        let line = lines.last();
        let at = text::first_of(line, '=');
        if at < line.len() && line.take(at) == key {
            Some(line.skip(at + 1))
        } else {
            last_value(lines.drop_last(), key)
        }
    }
}

/// What a status file says.
#[derive(Debug)]
pub struct Saved {
    pub peer: String,
    pub mode: String,
    /// The round trip as written, where the file has a line for it.
    pub rtt_ms: Option<String>,
    pub denied: bool,
}

/// What a status file says, with text as sequences of characters.
pub struct SavedModel {
    pub peer: Seq<char>,
    pub mode: Seq<char>,
    pub rtt_ms: Option<Seq<char>>,
    pub denied: bool,
}

impl View for Saved {
    type V = SavedModel;

    open spec fn view(&self) -> SavedModel {
        SavedModel {
            peer: self.peer@,
            mode: self.mode@,
            rtt_ms: match self.rtt_ms {
                Some(rtt) => Some(rtt@),
                None => None,
            },
            denied: self.denied,
        }
    }
}

/// What these lines say: the last line for a field counts, and one that is
/// missing is as it would be with nothing running.
pub open spec fn saved_in(lines: Seq<Seq<char>>) -> SavedModel {
    SavedModel {
        peer: match last_value(lines, "peer"@) {
            Some(peer) => peer,
            None => Seq::empty(),
        },
        mode: match last_value(lines, "mode"@) {
            Some(mode) => mode,
            None => "offline"@,
        },
        rtt_ms: last_value(lines, "rtt_ms"@),
        denied: last_value(lines, "denied"@) == Some("true"@),
    }
}

/// Cuts a text into its lines.
fn lines(text: &str) -> (lines: Vec<Vec<char>>)
    ensures
        lines@.map_values(|l: Vec<char>| l@) == lines_of(text@),
{
    let chars = text::chars_of(text);
    let ghost view = |l: Vec<char>| l@;
    let mut lines: Vec<Vec<char>> = Vec::new();
    let mut from: usize = 0;
    assert(chars@.skip(0) =~= chars@);
    assert(lines@.map_values(view) =~= Seq::empty());
    while from < chars.len()
        invariant
            from <= chars@.len(),
            view == (|l: Vec<char>| l@),
            lines_of(chars@) == lines@.map_values(view) + lines_of(chars@.skip(from as int)),
        decreases chars@.len() - from,
    {
        let end = text::find(&chars, from, '\n');
        let ghost rest = chars@.skip(from as int);
        let ghost before = lines@;
        let mut stop: usize = end;
        if end < chars.len() && end > from && chars[end - 1] == '\r' {
            stop = end - 1;
        }
        let line = vstd::slice::slice_to_vec(vstd::slice::slice_subrange(&chars, from, stop));
        let ghost found = line@;
        lines.push(line);
        proof {
            assert(lines@.map_values(view) =~= before.map_values(view).push(found));
            if end < chars@.len() {
                let at = end - from;
                assert(rest.take(at) =~= chars@.subrange(from as int, end as int));
                assert(found =~= trimmed(rest.take(at)));
                assert(rest.skip(at + 1) =~= chars@.skip(end + 1));
                assert(before.map_values(view) + (seq![found] + lines_of(rest.skip(at + 1)))
                    =~= lines@.map_values(view) + lines_of(chars@.skip(end + 1)));
            } else {
                assert(found =~= rest);
                assert(chars@.skip(chars@.len() as int) =~= Seq::empty());
                assert(before.map_values(view) + seq![rest] =~= lines@.map_values(view)
                    + lines_of(chars@.skip(chars@.len() as int)));
            }
        }
        if end < chars.len() {
            from = end + 1;
        } else {
            from = end;
        }
    }
    assert(chars@.skip(from as int) =~= Seq::empty());
    assert(lines@.map_values(view) =~= lines_of(chars@));
    lines
}

impl State {
    /// Reads a status file. What stands for the round trip is left as written.
    pub fn decode(file: &str) -> (saved: Saved)
        ensures
            saved@ == saved_in(lines_of(file@)),
    {
        let lines = lines(file);
        let ghost view = |l: Vec<char>| l@;
        let ghost all = lines@.map_values(view);
        let mut saved = Saved {
            peer: String::new(),
            mode: "offline".to_owned(),
            rtt_ms: None,
            denied: false,
        };
        let mut i: usize = 0;
        while i < lines.len()
            invariant
                i <= lines@.len(),
                view == (|l: Vec<char>| l@),
                all == lines@.map_values(view),
                saved@ == saved_in(all.take(i as int)),
            decreases lines@.len() - i,
        {
            let line = &lines[i];
            let at = text::find(line, 0, '=');
            proof {
                assert(line@.skip(0) =~= line@);
                assert(all.take(i + 1).drop_last() =~= all.take(i as int));
                assert(all.take(i + 1).last() == line@);
            }
            if at < line.len() {
                let key = text::text_of(vstd::slice::slice_subrange(line, 0, at));
                let value = text::text_of(vstd::slice::slice_subrange(line, at + 1, line.len()));
                proof {
                    assert(key@ =~= line@.take(at as int));
                    assert(value@ =~= line@.skip(at + 1));
                    lemma_keys_differ();
                }
                if text::same(key.as_str(), "mode") {
                    saved.mode = value;
                } else if text::same(key.as_str(), "peer") {
                    saved.peer = value;
                } else if text::same(key.as_str(), "rtt_ms") {
                    saved.rtt_ms = Some(value);
                } else if text::same(key.as_str(), "denied") {
                    saved.denied = text::same(value.as_str(), "true");
                }
            }
            i += 1;
        }
        assert(all.take(i as int) =~= all);
        saved
    }
}

/// The four fields have different names, without an equals sign or a newline.
proof fn lemma_keys_differ()
    ensures
        "mode"@ != "peer"@,
        "mode"@ != "rtt_ms"@,
        "mode"@ != "denied"@,
        "peer"@ != "rtt_ms"@,
        "peer"@ != "denied"@,
        "rtt_ms"@ != "denied"@,
{
    reveal_strlit("mode");
    reveal_strlit("peer");
    reveal_strlit("rtt_ms");
    reveal_strlit("denied");
    assert("mode"@[0] == 'm');
    assert("peer"@[0] == 'p');
    assert("rtt_ms"@[0] == 'r');
    assert("denied"@[0] == 'd');
}

impl Saved {
    /// The state that the file describes, given what its round trip reads as.
    pub fn state(self, rtt_ms: Option<Millis>) -> (state: State)
        ensures
            state@ == (StateModel {
                peer: self@.peer,
                mode: self@.mode,
                rtt_ms: millis_model(rtt_ms),
                denied: self@.denied,
            }),
    {
        State { peer: self.peer, mode: self.mode, rtt_ms, denied: self.denied }
    }
}

impl State {
    fn copy(&self) -> (state: State)
        ensures
            state@ == self@,
    {
        let rtt_ms = match &self.rtt_ms {
            Some(rtt) => Some(rtt.copy()),
            None => None,
        };
        State { peer: self.peer.clone(), mode: self.mode.clone(), rtt_ms, denied: self.denied }
    }
}

/// What the daemon knows, and what each peer says it has attached. Only the
/// first goes to the status file: the second changes rarely and nothing else
/// wants it.
pub struct Status {
    pub current: State,
    pub peer_screens: StringHashMap<Vec<Screen>>,
}

/// What each peer says it has, as sequences.
pub open spec fn screens_by_peer(screens: Map<Seq<char>, Vec<Screen>>) -> Map<
    Seq<char>,
    Seq<ScreenModel>,
> {
    screens.map_values(|list: Vec<Screen>| screens::models(list@))
}

/// A status as its state and its peers' screens.
pub struct StatusModel {
    pub state: StateModel,
    pub screens: Map<Seq<char>, Seq<ScreenModel>>,
}

impl View for Status {
    type V = StatusModel;

    open spec fn view(&self) -> StatusModel {
        StatusModel { state: self.current@, screens: screens_by_peer(self.peer_screens@) }
    }
}

/// What is written to the status file when one state follows another: the whole
/// file, and only where something changed, so that a quiet session hardly
/// touches the disk.
pub open spec fn written(before: StateModel, after: StateModel) -> Option<Seq<char>> {
    if after.same(before) {
        None
    } else {
        Some(after.file())
    }
}

impl Default for Status {
    fn default() -> (status: Status)
        ensures
            status@.state == (StateModel {
                peer: Seq::empty(),
                mode: "offline"@,
                rtt_ms: None,
                denied: false,
            }),
            status@.screens == Map::<Seq<char>, Seq<ScreenModel>>::empty(),
    {
        let status = Status { current: State::default(), peer_screens: StringHashMap::new() };
        assert(status@.screens =~= Map::<Seq<char>, Seq<ScreenModel>>::empty());
        status
    }
}

impl Status {
    /// Changes the state. What the status file must hold now comes back, where
    /// that is something else than before.
    pub fn set(&mut self, change: impl FnOnce(&mut State)) -> (file: Option<String>)
        requires
            forall|s: &mut State| call_requires(change, (s,)),
        ensures
            exists|s: &mut State|
                *s == old(self).current && *final(s) == final(self).current
                    && #[trigger] call_ensures(change, (s,), ()),
            text::optional(file) == written(old(self)@.state, final(self)@.state),
            final(self)@.screens == old(self)@.screens,
    {
        let before = self.current.copy();
        change(&mut self.current);
        self.file_since(&before)
    }

    /// What the status file must hold now, where that is something else than it
    /// was with an earlier state.
    fn file_since(&self, before: &State) -> (file: Option<String>)
        ensures
            text::optional(file) == written(before@, self@.state),
    {
        if self.current == *before {
            None
        } else {
            Some(self.current.encode())
        }
    }

    /// What the daemon knows right now, for a reader in the same process.
    pub fn snapshot(&self) -> (state: State)
        ensures
            state@ == self@.state,
    {
        self.current.copy()
    }

    /// Keeps what a peer says it has attached.
    pub fn set_screens(&mut self, peer: &str, list: Vec<Screen>)
        ensures
            final(self)@.state == old(self)@.state,
            final(self)@.screens == old(self)@.screens.insert(peer@, screens::models(list@)),
    {
        self.peer_screens.insert(peer.to_owned(), list);
        assert(self@.screens =~= old(self)@.screens.insert(peer@, screens::models(list@)));
    }

    /// What a peer has attached: nothing, until it says so.
    pub fn screens_of(&self, peer: &str) -> (list: Vec<Screen>)
        ensures
            screens::models(list@) == if self@.screens.contains_key(peer@) {
                self@.screens[peer@]
            } else {
                Seq::empty()
            },
    {
        match self.peer_screens.get(peer) {
            Some(list) => screens::copy_all(list),
            None => {
                let none: Vec<Screen> = Vec::new();
                assert(screens::models(none@) =~= Seq::<ScreenModel>::empty());
                none
            },
        }
    }

    /// The link to this peer is gone, or was never there.
    pub fn offline(&mut self, peer: &str) -> (file: Option<String>)
        ensures
            final(self)@ == (StatusModel { state: old(self)@.state.offline(peer@), ..old(self)@ }),
            text::optional(file) == written(old(self)@.state, final(self)@.state),
    {
        let before = self.current.copy();
        self.current.mode = "offline".to_owned();
        self.current.peer = peer.to_owned();
        self.current.rtt_ms = None;
        self.file_since(&before)
    }

    /// This peer is linked. Which way input flows is for the session to say,
    /// unless nothing was linked before.
    pub fn linked(&mut self, peer: &str) -> (file: Option<String>)
        ensures
            final(self)@ == (StatusModel { state: old(self)@.state.linked(peer@), ..old(self)@ }),
            text::optional(file) == written(old(self)@.state, final(self)@.state),
    {
        let before = self.current.copy();
        self.current.peer = peer.to_owned();
        if text::same(self.current.mode.as_str(), "offline") {
            self.current.mode = "local".to_owned();
        }
        self.file_since(&before)
    }

    /// Whether this machine can capture and type at all.
    pub fn allowed(&mut self, allowed: bool) -> (file: Option<String>)
        ensures
            final(self)@ == (StatusModel {
                state: StateModel { denied: !allowed, ..old(self)@.state },
                ..old(self)@
            }),
            text::optional(file) == written(old(self)@.state, final(self)@.state),
    {
        let before = self.current.copy();
        self.current.denied = !allowed;
        self.file_since(&before)
    }

    /// Input flows another way now.
    pub fn flows(&mut self, label: Label) -> (file: Option<String>)
        ensures
            final(self)@ == (StatusModel {
                state: StateModel { mode: label.word(), ..old(self)@.state },
                ..old(self)@
            }),
            text::optional(file) == written(old(self)@.state, final(self)@.state),
    {
        let before = self.current.copy();
        self.current.mode = label.name().to_owned();
        self.file_since(&before)
    }

    /// The round trip was measured.
    pub fn timed(&mut self, rtt_ms: Option<Millis>) -> (file: Option<String>)
        ensures
            final(self)@ == (StatusModel {
                state: StateModel { rtt_ms: millis_model(rtt_ms), ..old(self)@.state },
                ..old(self)@
            }),
            text::optional(file) == written(old(self)@.state, final(self)@.state),
    {
        let before = self.current.copy();
        self.current.rtt_ms = rtt_ms;
        self.file_since(&before)
    }
}

/// A reconnect cannot erase a permission problem: a link that drops and comes
/// back leaves it as it was, and as long as it is there it is what is shown.
pub proof fn law_a_reconnect_cannot_erase_a_permission_problem(
    state: StateModel,
    dropped: Seq<char>,
    linked: Seq<char>,
)
    requires
        state.denied,
    ensures
        state.offline(dropped).denied,
        state.linked(linked).denied,
        state.offline(dropped).linked(linked).denied,
        state.summary() == "⚠ needs permission"@,
        state.offline(dropped).linked(linked).summary() == "⚠ needs permission"@,
        state.offline(dropped).linked(linked).class() == "denied"@,
{
}

/// Whether a mode is one that a stylesheet knows.
pub open spec fn known_mode(mode: Seq<char>) -> bool {
    mode == "offline"@ || mode == "local"@ || mode == "sending"@ || mode == "receiving"@
}

/// A stylesheet only ever meets five classes: the four modes, and a problem.
/// The status starts with a known mode, and nothing that happens to a link or
/// to input gives it another.
pub proof fn law_there_are_five_classes(state: StateModel, peer: Seq<char>, label: Label)
    requires
        known_mode(state.mode),
    ensures
        known_mode("offline"@),
        known_mode(state.offline(peer).mode),
        known_mode(state.linked(peer).mode),
        known_mode(label.word()),
        known_mode(state.class()) || state.class() == "denied"@,
{
}

/// Whether a text stays on its line: it has no newline, and no carriage return
/// at its end.
pub open spec fn one_line(text: Seq<char>) -> bool {
    !text.contains('\n') && (text.len() > 0 ==> text.last() != '\r')
}

/// A line in front of other text is the first of its lines.
proof fn lemma_line_in_front(line: Seq<char>, rest: Seq<char>)
    requires
        one_line(line),
    ensures
        lines_of(line + seq!['\n'] + rest) == seq![line] + lines_of(rest),
{
    let whole = line + seq!['\n'] + rest;
    text::lemma_first_of(line, '\n', rest);
    assert(whole.take(line.len() as int) =~= line);
    assert(whole.skip(line.len() as int + 1) =~= rest);
}

/// A line for a field gives that field's value, and no other's.
proof fn lemma_value_of_line(lines: Seq<Seq<char>>, key: Seq<char>, value: Seq<char>)
    requires
        !key.contains('='),
    ensures
        last_value(lines.push(key + seq!['='] + value), key) == Some(value),
        forall|other: Seq<char>|
            other != key ==> #[trigger] last_value(lines.push(key + seq!['='] + value), other)
                == last_value(lines, other),
{
    let line = key + seq!['='] + value;
    text::lemma_first_of(key, '=', value);
    assert(line.take(key.len() as int) =~= key);
    assert(line.skip(key.len() as int + 1) =~= value);
    assert(lines.push(line).drop_last() =~= lines);
}

/// What the daemon writes is what anyone reads: the mode, the peer and whether
/// something is denied come back from the file as they were, and the round trip
/// as it was written. The mode, the peer and the written time must each keep to
/// one line.
pub proof fn law_the_file_survives_a_round_trip(state: StateModel)
    requires
        one_line(state.mode),
        one_line(state.peer),
        one_line(state.saved_rtt()),
    ensures
        saved_in(lines_of(state.file())) == (SavedModel {
            peer: state.peer,
            mode: state.mode,
            rtt_ms: Some(state.saved_rtt()),
            denied: state.denied,
        }),
{
    let eq = seq!['='];
    let nl = seq!['\n'];
    let none = Seq::<char>::empty();
    let word = if state.denied {
        "true"@
    } else {
        "false"@
    };
    lemma_file_words();
    lemma_keys_differ();
    let mode = "mode"@ + eq + state.mode;
    let peer = "peer"@ + eq + state.peer;
    let rtt = "rtt_ms"@ + eq + state.saved_rtt();
    let denied = "denied"@ + eq + word;
    lemma_field_on_one_line("mode"@, state.mode);
    lemma_field_on_one_line("peer"@, state.peer);
    lemma_field_on_one_line("rtt_ms"@, state.saved_rtt());
    lemma_field_on_one_line("denied"@, word);
    let after_rtt = denied + nl + none;
    let after_peer = rtt + nl + after_rtt;
    let after_mode = peer + nl + after_peer;
    assert(state.file() =~= mode + nl + after_mode);
    lemma_line_in_front(mode, after_mode);
    lemma_line_in_front(peer, after_peer);
    lemma_line_in_front(rtt, after_rtt);
    lemma_line_in_front(denied, none);
    let empty = Seq::<Seq<char>>::empty();
    let lines = empty.push(mode).push(peer).push(rtt).push(denied);
    assert(lines_of(state.file()) =~= lines);
    lemma_value_of_line(empty, "mode"@, state.mode);
    lemma_value_of_line(empty.push(mode), "peer"@, state.peer);
    lemma_value_of_line(empty.push(mode).push(peer), "rtt_ms"@, state.saved_rtt());
    lemma_value_of_line(empty.push(mode).push(peer).push(rtt), "denied"@, word);
}

/// How the words of the file are spelled.
proof fn lemma_file_words()
    ensures
        "mode="@ == "mode"@ + seq!['='],
        "\npeer="@ == seq!['\n'] + "peer"@ + seq!['='],
        "\nrtt_ms="@ == seq!['\n'] + "rtt_ms"@ + seq!['='],
        "\ndenied="@ == seq!['\n'] + "denied"@ + seq!['='],
        "\n"@ == seq!['\n'],
        !"mode"@.contains('=') && one_line("mode"@),
        !"peer"@.contains('=') && one_line("peer"@),
        !"rtt_ms"@.contains('=') && one_line("rtt_ms"@),
        !"denied"@.contains('=') && one_line("denied"@),
        one_line("true"@) && one_line("false"@),
        "true"@ != "false"@,
{
    reveal_strlit("mode");
    reveal_strlit("peer");
    reveal_strlit("rtt_ms");
    reveal_strlit("denied");
    reveal_strlit("mode=");
    reveal_strlit("\npeer=");
    reveal_strlit("\nrtt_ms=");
    reveal_strlit("\ndenied=");
    reveal_strlit("\n");
    reveal_strlit("true");
    reveal_strlit("false");
    assert("mode="@ =~= "mode"@ + seq!['=']);
    assert("\npeer="@ =~= seq!['\n'] + "peer"@ + seq!['=']);
    assert("\nrtt_ms="@ =~= seq!['\n'] + "rtt_ms"@ + seq!['=']);
    assert("\ndenied="@ =~= seq!['\n'] + "denied"@ + seq!['=']);
    assert("\n"@ =~= seq!['\n']);
    assert("true"@.len() != "false"@.len());
}

/// A field whose key and value keep to one line does too.
proof fn lemma_field_on_one_line(key: Seq<char>, value: Seq<char>)
    requires
        one_line(key),
        one_line(value),
    ensures
        one_line(key + seq!['='] + value),
{
    let line = key + seq!['='] + value;
    if line.contains('\n') {
        let i = choose|i: int| 0 <= i < line.len() && line[i] == '\n';
        if i < key.len() {
            assert(key[i] == '\n');
        } else if i > key.len() {
            assert(value[i - key.len() - 1] == '\n');
        }
    }
}

/// The number that four hexadecimal digits make.
pub open spec fn four_digits(d: Seq<char>) -> int {
    4096 * text::hex_value(d[0]) + 256 * text::hex_value(d[1]) + 16 * text::hex_value(d[2])
        + text::hex_value(d[3])
}

/// What the escape at the front of a JSON string's inside means, and how many
/// characters it takes. Half of a surrogate pair is no character by itself and
/// is refused here.
pub open spec fn escape_meaning(text: Seq<char>) -> Option<(char, int)> {
    if text.len() < 2 {
        None
    } else if text[1] == '"' || text[1] == '\\' || text[1] == '/' {
        Some((text[1], 2))
    } else if text[1] == 'b' {
        Some(('\u{8}', 2))
    } else if text[1] == 'f' {
        Some(('\u{c}', 2))
    } else if text[1] == 'n' {
        Some(('\n', 2))
    } else if text[1] == 'r' {
        Some(('\r', 2))
    } else if text[1] == 't' {
        Some(('\t', 2))
    } else if text[1] == 'u' && text.len() >= 6 && text::is_hex(text[2]) && text::is_hex(text[3])
        && text::is_hex(text[4]) && text::is_hex(text[5]) && !(0xD800 <= four_digits(
        text.skip(2),
    ) <= 0xDFFF) {
        Some((four_digits(text.skip(2)) as char, 6))
    } else {
        None
    }
}

/// Reads a JSON string from just behind its opening quote: what it says, and
/// what follows its closing quote. `None` where it does not close, or holds a
/// control character or an escape that means nothing. Whatever this reads is a
/// JSON string; of those that JSON allows, it leaves out surrogate pairs.
pub open spec fn unquoted(text: Seq<char>) -> Option<(Seq<char>, Seq<char>)>
    decreases text.len(),
{
    if text.len() == 0 || is_control(text[0]) {
        None
    } else if text[0] == '"' {
        Some((Seq::empty(), text.skip(1)))
    } else if text[0] == '\\' {
        match escape_meaning(text) {
            Some((c, used)) => match unquoted(text.skip(used)) {
                Some((said, rest)) => Some((seq![c] + said, rest)),
                None => None,
            },
            None => None,
        }
    } else {
        match unquoted(text.skip(1)) {
            Some((said, rest)) => Some((seq![text[0]] + said, rest)),
            None => None,
        }
    }
}

/// A control character reads back from its number.
proof fn lemma_control_reads_back(c: char, tail: Seq<char>)
    requires
        is_control(c),
    ensures
        escape_meaning(escaped_char(c) + tail) == Some((c, 6int)),
{
    let whole = escaped_char(c) + tail;
    let high = c as int / 16;
    let low = c as int % 16;
    assert(whole[0] == '\\' && whole[1] == 'u' && whole[2] == '0' && whole[3] == '0');
    assert(whole[4] == text::hex_digit(high) && whole[5] == text::hex_digit(low));
    assert(text::hex_value(text::hex_digit(high)) == high);
    assert(text::hex_value(text::hex_digit(low)) == low);
    let d = whole.skip(2);
    assert(d[0] == '0' && d[1] == '0' && d[2] == whole[4] && d[3] == whole[5]);
    assert(four_digits(d) == c as int);
}

/// Escaping from the front is escaping from the back.
proof fn lemma_escaped_from_front(text: Seq<char>)
    requires
        text.len() > 0,
    ensures
        escaped(text) == escaped_char(text[0]) + escaped(text.drop_first()),
    decreases text.len(),
{
    if text.len() == 1 {
        assert(text.drop_last() =~= Seq::empty());
        assert(text.drop_first() =~= Seq::empty());
        assert(escaped(text) =~= escaped_char(text[0]) + escaped(text.drop_first()));
    } else {
        lemma_escaped_from_front(text.drop_last());
        assert(text.drop_first().drop_last() =~= text.drop_last().drop_first());
        assert(escaped(text) =~= escaped_char(text[0]) + (escaped(text.drop_last().drop_first())
            + escaped_char(text.last())));
    }
}

/// Quoting never breaks out of its quotes: whatever a text holds, escaped and
/// closed with a quote it reads back as that text, and the reader goes on with
/// whatever follows the closing quote.
pub proof fn law_quoted_text_reads_back(text: Seq<char>, rest: Seq<char>)
    ensures
        unquoted(escaped(text) + seq!['"'] + rest) == Some((text, rest)),
    decreases text.len(),
{
    let whole = escaped(text) + seq!['"'] + rest;
    if text.len() == 0 {
        assert(whole.skip(1) =~= rest);
        assert(text =~= Seq::empty());
    } else {
        let others = text.drop_first();
        let c = text[0];
        lemma_escaped_from_front(text);
        law_quoted_text_reads_back(others, rest);
        let tail = escaped(others) + seq!['"'] + rest;
        assert(whole =~= escaped_char(c) + tail);
        assert(seq![c] + others =~= text);
        if c == '\\' || c == '"' {
            assert(whole.skip(2) =~= tail);
            assert(whole[0] == '\\' && whole[1] == c);
        } else if is_control(c) {
            lemma_control_reads_back(c, tail);
            assert(whole.skip(6) =~= tail);
            assert(whole[0] == '\\');
        } else {
            assert(whole.skip(1) =~= tail);
            assert(whole[0] == c);
        }
    }
}

/// What follows a text's beginning, where it begins so.
pub open spec fn behind(text: Seq<char>, beginning: Seq<char>) -> Option<Seq<char>> {
    if beginning.len() <= text.len() && text.take(beginning.len() as int) == beginning {
        Some(text.skip(beginning.len() as int))
    } else {
        None
    }
}

/// Reads a quoted string behind a given beginning.
pub open spec fn field_behind(text: Seq<char>, beginning: Seq<char>) -> Option<
    (Seq<char>, Seq<char>),
> {
    match behind(text, beginning) {
        Some(rest) => unquoted(rest),
        None => None,
    }
}

/// The three strings of a JSON object on one line.
pub open spec fn json_fields(line: Seq<char>) -> Option<(Seq<char>, Seq<char>, Seq<char>)> {
    match field_behind(line, "{\"text\":\""@) {
        Some((shown, rest)) => match field_behind(rest, ",\"tooltip\":\""@) {
            Some((tooltip, rest)) => match field_behind(rest, ",\"class\":\""@) {
                Some((class, rest)) => if rest == "}"@ {
                    Some((shown, tooltip, class))
                } else {
                    None
                },
                None => None,
            },
            None => None,
        },
        None => None,
    }
}

/// A quoted string behind a beginning reads back.
proof fn lemma_field_behind(beginning: Seq<char>, said: Seq<char>, rest: Seq<char>)
    ensures
        field_behind(beginning + escaped(said) + seq!['"'] + rest, beginning) == Some((said, rest)),
{
    let whole = beginning + escaped(said) + seq!['"'] + rest;
    assert(whole.take(beginning.len() as int) =~= beginning);
    assert(whole.skip(beginning.len() as int) =~= escaped(said) + seq!['"'] + rest);
    law_quoted_text_reads_back(said, rest);
}

/// The JSON stays an object of three strings, however hostile a peer's name:
/// reading the line gives back the text, the tooltip and the class.
pub proof fn law_json_reads_back(state: StateModel, badge: bool)
    ensures
        json_fields(state.json(badge)) == Some(
            (state.shown(badge), state.tooltip(), state.class()),
        ),
{
    let quote = seq!['"'];
    reveal_strlit("\",\"tooltip\":\"");
    reveal_strlit(",\"tooltip\":\"");
    reveal_strlit("\",\"class\":\"");
    reveal_strlit(",\"class\":\"");
    reveal_strlit("\"}");
    reveal_strlit("}");
    assert("\",\"tooltip\":\""@ =~= quote + ",\"tooltip\":\""@);
    assert("\",\"class\":\""@ =~= quote + ",\"class\":\""@);
    assert("\"}"@ =~= quote + "}"@);
    let last = ",\"class\":\""@ + escaped(state.class()) + quote + "}"@;
    let middle = ",\"tooltip\":\""@ + escaped(state.tooltip()) + quote + last;
    assert(state.json(badge) =~= "{\"text\":\""@ + escaped(state.shown(badge)) + quote + middle);
    lemma_field_behind("{\"text\":\""@, state.shown(badge), middle);
    lemma_field_behind(",\"tooltip\":\""@, state.tooltip(), last);
    lemma_field_behind(",\"class\":\""@, state.class(), "}"@);
}

/// Whether a text holds no control characters.
pub open spec fn no_controls(text: Seq<char>) -> bool {
    forall|i: int| 0 <= i < text.len() ==> !is_control(#[trigger] text[i])
}

/// Escaped text holds no control characters.
proof fn lemma_escaped_has_no_controls(text: Seq<char>)
    ensures
        no_controls(escaped(text)),
    decreases text.len(),
{
    if text.len() > 0 {
        lemma_escaped_has_no_controls(text.drop_last());
        let c = text.last();
        let before = escaped(text.drop_last());
        lemma_number_of_char(c);
        if is_control(c) {
            assert(!is_control(text::hex_digit(c as int / 16)));
            assert(!is_control(text::hex_digit(c as int % 16)));
        }
        assert(no_controls(escaped_char(c)));
        assert forall|i: int| 0 <= i < escaped(text).len() implies !is_control(
            #[trigger] escaped(text)[i],
        ) by {
            if i < before.len() {
                assert(!is_control(before[i]));
            } else {
                assert(!is_control(escaped_char(c)[i - before.len()]));
            }
        }
    }
}

/// Joining texts without control characters brings in none.
proof fn lemma_joined_without_controls(a: Seq<char>, b: Seq<char>)
    requires
        no_controls(a),
        no_controls(b),
    ensures
        no_controls(a + b),
{
    assert forall|i: int| 0 <= i < (a + b).len() implies !is_control(#[trigger] (a + b)[i]) by {
        if i < a.len() {
            assert(!is_control(a[i]));
        } else {
            assert(!is_control(b[i - a.len()]));
        }
    }
}

/// What stands around the strings holds no control characters.
proof fn lemma_frame_has_no_controls()
    ensures
        no_controls("{\"text\":\""@),
        no_controls("\",\"tooltip\":\""@),
        no_controls("\",\"class\":\""@),
        no_controls("\"}"@),
{
    reveal_strlit("{\"text\":\"");
    reveal_strlit("\",\"tooltip\":\"");
    reveal_strlit("\",\"class\":\"");
    reveal_strlit("\"}");
}

/// The JSON is one line, whatever the peer's name and the mode hold: there is no
/// newline in it, nor any other control character.
pub proof fn law_json_is_one_line(state: StateModel, badge: bool)
    ensures
        no_controls(state.json(badge)),
        !state.json(badge).contains('\n'),
{
    let shown = escaped(state.shown(badge));
    let tooltip = escaped(state.tooltip());
    let class = escaped(state.class());
    lemma_frame_has_no_controls();
    lemma_escaped_has_no_controls(state.shown(badge));
    lemma_escaped_has_no_controls(state.tooltip());
    lemma_escaped_has_no_controls(state.class());
    let a = "{\"text\":\""@ + shown;
    let b = a + "\",\"tooltip\":\""@;
    let c = b + tooltip;
    let d = c + "\",\"class\":\""@;
    let e = d + class;
    lemma_joined_without_controls("{\"text\":\""@, shown);
    lemma_joined_without_controls(a, "\",\"tooltip\":\""@);
    lemma_joined_without_controls(b, tooltip);
    lemma_joined_without_controls(c, "\",\"class\":\""@);
    lemma_joined_without_controls(d, class);
    lemma_joined_without_controls(e, "\"}"@);
    if state.json(badge).contains('\n') {
        let i = choose|i: int| 0 <= i < state.json(badge).len() && state.json(badge)[i] == '\n';
        assert(!is_control(state.json(badge)[i]));
    }
}

/// The four modes are four different words.
proof fn lemma_modes_differ()
    ensures
        "sending"@ != "receiving"@,
        "sending"@ != "local"@,
        "sending"@ != "offline"@,
        "receiving"@ != "local"@,
        "receiving"@ != "offline"@,
        "local"@ != "offline"@,
{
    reveal_strlit("sending");
    reveal_strlit("receiving");
    reveal_strlit("local");
    reveal_strlit("offline");
    assert("sending"@[0] == 's');
    assert("receiving"@[0] == 'r');
    assert("local"@[0] == 'l');
    assert("offline"@[0] == 'o');
}

/// While this machine controls a peer, every line says so and names that peer.
pub proof fn law_sending_is_shown_as_sending(state: StateModel)
    requires
        !state.denied,
        state.mode == "sending"@,
    ensures
        state.summary() == "→ "@ + state.peer,
        state.headline() == "Linked to "@ + state.peer,
        state.flow() == "You are controlling "@ + state.peer,
        state.tooltip() == "glide: controlling "@ + state.peer + ", "@ + state.timing(),
        state.class() == "sending"@,
{
    lemma_modes_differ();
}

/// While a peer controls this machine, every line says so and names that peer.
pub proof fn law_receiving_is_shown_as_receiving(state: StateModel)
    requires
        !state.denied,
        state.mode == "receiving"@,
    ensures
        state.summary() == "← "@ + state.peer,
        state.headline() == "Linked to "@ + state.peer,
        state.flow() == state.peer + " is controlling this Mac"@,
        state.tooltip() == "glide: "@ + state.peer + " is controlling this machine, "@
            + state.timing(),
        state.class() == "receiving"@,
{
    lemma_modes_differ();
}

/// While input is local, the lines say that there is a link and to whom, and how
/// fast it is, where that is known.
pub proof fn law_local_is_shown_as_linked(state: StateModel)
    requires
        !state.denied,
        state.mode == "local"@,
    ensures
        state.rtt_ms matches Some(rtt) ==> state.summary() == "● "@ + rtt.tenths + "ms"@,
        state.rtt_ms is None ==> state.summary() == "● linked"@,
        state.headline() == "Linked to "@ + state.peer,
        state.flow() == "Input stays on this Mac"@,
        state.tooltip() == "glide: linked to "@ + state.peer + ", input is local, "@
            + state.timing(),
        state.class() == "local"@,
{
    lemma_modes_differ();
}

/// Without a link, every line says so, and the flow says whom it is looking for.
/// A mode that nobody knows is shown like that too, but for the headline and the
/// class, which tell only the one word.
pub proof fn law_offline_is_shown_as_offline(state: StateModel)
    requires
        !state.denied,
        state.mode != "sending"@,
        state.mode != "receiving"@,
        state.mode != "local"@,
    ensures
        state.summary() == "✕ offline"@,
        state.flow() == "Looking for "@ + state.peer,
        state.tooltip() == "glide: no peer connected"@,
        state.headline() == if state.mode == "offline"@ {
            "Not connected"@
        } else {
            "Linked to "@ + state.peer
        },
        state.class() == state.mode,
{
}

/// A missing permission is what every line says, whatever else is so: the lines
/// are the same whichever way input flows, with whichever peer.
pub proof fn law_a_missing_permission_is_all_that_is_said(state: StateModel, other: StateModel)
    requires
        state.denied,
        other.denied,
    ensures
        state.summary() == "⚠ needs permission"@,
        state.headline() == "Input permission needed"@,
        state.flow() == "Grant Input Monitoring and Device Control"@,
        state.tooltip()
            == "glide: grant Input Monitoring and Device Control to Glide, then restart it"@,
        state.class() == "denied"@,
        state.summary() == other.summary() && state.tooltip() == other.tooltip(),
{
}

/// The round trip is written to two decimals where it is known, and else said
/// to be unknown; the file has it to three decimals, or has nothing there.
pub proof fn law_the_round_trip_is_spelled_out(state: StateModel)
    ensures
        state.rtt_ms matches Some(rtt) ==> {
            &&& state.speed() == rtt.hundredths + " ms round trip"@
            &&& state.timing() == rtt.hundredths + " ms round trip"@
            &&& state.saved_rtt() == rtt.thousandths
        },
        state.rtt_ms is None ==> {
            &&& state.speed() == "No timing yet"@
            &&& state.timing() == "no samples yet"@
            &&& state.saved_rtt().len() == 0
        },
{
}

/// The badge is the letter and nothing else; without it the summary is shown.
pub proof fn law_the_badge_is_the_letter(state: StateModel)
    ensures
        state.shown(true) == "G"@,
        state.shown(false) == state.summary(),
        state.json(true) == "{\"text\":\""@ + escaped("G"@) + "\",\"tooltip\":\""@ + escaped(
            state.tooltip(),
        ) + "\",\"class\":\""@ + escaped(state.class()) + "\"}"@,
        state.json(false) == "{\"text\":\""@ + escaped(state.summary()) + "\",\"tooltip\":\""@
            + escaped(state.tooltip()) + "\",\"class\":\""@ + escaped(state.class()) + "\"}"@,
{
}

/// The file is four lines: the mode, the peer, the round trip, and whether
/// something is denied, each behind its key.
pub proof fn law_the_file_is_four_lines(state: StateModel)
    ensures
        ({
            let line = |key: Seq<char>, value: Seq<char>| key + seq!['='] + value + seq!['\n'];
            let denied = if state.denied {
                "true"@
            } else {
                "false"@
            };
            state.file() == line("mode"@, state.mode) + line("peer"@, state.peer) + line(
                "rtt_ms"@,
                state.saved_rtt(),
            ) + line("denied"@, denied)
        }),
{
    let line = |key: Seq<char>, value: Seq<char>| key + seq!['='] + value + seq!['\n'];
    let denied = if state.denied {
        "true"@
    } else {
        "false"@
    };
    lemma_file_words();
    assert(state.file() =~= line("mode"@, state.mode) + line("peer"@, state.peer) + line(
        "rtt_ms"@,
        state.saved_rtt(),
    ) + line("denied"@, denied));
}

/// A link that goes leaves the peer's name and whether something is denied, and
/// nothing else: there is no flow, and no round trip. A link that comes leaves
/// everything as it was but the peer's name, and the flow only where there was
/// none: then input is local.
pub proof fn law_a_link_that_comes_or_goes(state: StateModel, peer: Seq<char>)
    ensures
        ({
            let gone = state.offline(peer);
            let here = state.linked(peer);
            &&& gone.peer == peer && gone.mode == "offline"@ && gone.rtt_ms is None && gone.denied
                == state.denied
            &&& here.peer == peer && here.rtt_ms == state.rtt_ms && here.denied == state.denied
            &&& state.mode == "offline"@ ==> here.mode == "local"@
            &&& state.mode != "offline"@ ==> here.mode == state.mode
        }),
{
}

/// The file is written exactly where something changed: the peer, the mode,
/// whether something is denied, or the round trip, which is a double. What is
/// written is the whole file as it is now.
pub proof fn law_the_file_is_written_where_something_changed(
    before: StateModel,
    after: StateModel,
)
    ensures
        written(before, after) is None <==> {
            &&& before.peer == after.peer && before.mode == after.mode && before.denied
                == after.denied
            &&& match (before.rtt_ms, after.rtt_ms) {
                (Some(a), Some(b)) => double::equal(b.bits, a.bits),
                (None, None) => true,
                _ => false,
            }
        },
        written(before, after) matches Some(file) ==> file == after.file(),
        after.same(before) <==> written(before, after) is None,
{
}

/// Quoting goes character by character. A quote and a backslash get a backslash
/// in front, a control character is written as six characters that end in its
/// number, and every other character stays as it is.
pub proof fn law_quoting_goes_character_by_character(text: Seq<char>, c: char)
    ensures
        escaped(Seq::<char>::empty()).len() == 0,
        escaped(text.push(c)) == escaped(text) + escaped_char(c),
        c == '"' || c == '\\' ==> escaped_char(c) == seq!['\\', c],
        c as u32 >= 32 && c != '"' && c != '\\' ==> escaped_char(c) == seq![c],
        (c as u32) < 32 ==> {
            let e = escaped_char(c);
            &&& e.len() == 6
            &&& e[0] == '\\' && e[1] == 'u' && e[2] == '0' && e[3] == '0'
            &&& text::is_lower_hex(e[4]) && text::is_lower_hex(e[5])
            &&& 16 * text::hex_value(e[4]) + text::hex_value(e[5]) == c as u32
        },
{
    lemma_number_of_char(c);
    assert(text.push(c).drop_last() =~= text);
}

/// The lines of a text. Each ends with a newline, with or without a carriage
/// return before it, and the last may lack both; what stands between is the line
/// as it is.
pub proof fn law_lines_end_with_a_newline(line: Seq<char>, rest: Seq<char>)
    requires
        !line.contains('\n'),
    ensures
        lines_of(Seq::<char>::empty()).len() == 0,
        line.len() > 0 ==> lines_of(line) == seq![line],
        line.len() == 0 || line.last() != '\r' ==> lines_of(line + seq!['\n'] + rest) == seq![line]
            + lines_of(rest),
        lines_of(line + seq!['\r'] + seq!['\n'] + rest) == seq![line] + lines_of(rest),
{
    if line.len() == 0 || line.last() != '\r' {
        lemma_line_in_front(line, rest);
    }
    let returned = line + seq!['\r'];
    assert(!returned.contains('\n')) by {
        if returned.contains('\n') {
            let i = choose|i: int| 0 <= i < returned.len() && returned[i] == '\n';
            assert(i < line.len());
            assert(line[i] == '\n');
        }
    }
    let whole = returned + seq!['\n'] + rest;
    text::lemma_first_of(returned, '\n', rest);
    assert(whole.take(returned.len() as int) =~= returned);
    assert(whole.skip(returned.len() as int + 1) =~= rest);
    assert(returned.drop_last() =~= line);
    if line.len() > 0 {
        text::law_the_first_comes_first(line, '\n');
        if text::first_of(line, '\n') < line.len() {
            assert(line.contains(line[text::first_of(line, '\n')]));
        }
    }
}

/// The last line for a field counts, and a line for one field says nothing of
/// another. A line without an equals sign says nothing at all.
pub proof fn law_the_last_line_for_a_field_counts(
    lines: Seq<Seq<char>>,
    key: Seq<char>,
    other: Seq<char>,
    value: Seq<char>,
    line: Seq<char>,
)
    requires
        !key.contains('='),
        key != other,
        !line.contains('='),
    ensures
        last_value(Seq::<Seq<char>>::empty(), key) is None,
        last_value(lines.push(key + seq!['='] + value), key) == Some(value),
        last_value(lines.push(key + seq!['='] + value), other) == last_value(lines, other),
        last_value(lines.push(line), key) == last_value(lines, key),
{
    lemma_value_of_line(lines, key, value);
    text::law_the_first_comes_first(line, '=');
    if text::first_of(line, '=') < line.len() {
        assert(line.contains(line[text::first_of(line, '=')]));
    }
    assert(lines.push(line).drop_last() =~= lines);
}

/// What a file says: what its lines say of each field, and where they say
/// nothing, what is so with nothing running. Something is denied only where the
/// file says "true", to the letter.
pub proof fn law_what_a_file_says(lines: Seq<Seq<char>>)
    ensures
        ({
            let saved = saved_in(lines);
            &&& last_value(lines, "peer"@) matches Some(peer) ==> saved.peer == peer
            &&& last_value(lines, "mode"@) matches Some(mode) ==> saved.mode == mode
            &&& last_value(lines, "peer"@) is None ==> saved.peer.len() == 0
            &&& last_value(lines, "mode"@) is None ==> saved.mode == "offline"@
            &&& saved.rtt_ms == last_value(lines, "rtt_ms"@)
            &&& saved.denied <==> last_value(lines, "denied"@) is Some && last_value(
                lines,
                "denied"@,
            )->0 == "true"@
        }),
{
}

/// The models of a state, of a status and of what a file says are these, their
/// text as sequences.
pub proof fn law_a_status_is_what_its_model_says(
    status: Status,
    saved: Saved,
    millis: Millis,
    peer: Seq<char>,
)
    ensures
        status@.state.peer == status.current.peer@ && status@.state.mode == status.current.mode@
            && status@.state.denied == status.current.denied,
        status.current.rtt_ms is None <==> status@.state.rtt_ms is None,
        status.current.rtt_ms matches Some(rtt) ==> status@.state.rtt_ms == Some(rtt@),
        millis@.bits == millis.bits && millis@.tenths == millis.tenths@ && millis@.hundredths
            == millis.hundredths@ && millis@.thousandths == millis.thousandths@,
        status@.screens.contains_key(peer) <==> status.peer_screens@.contains_key(peer),
        status@.screens.contains_key(peer) ==> status@.screens[peer] == screens::models(
            status.peer_screens@[peer]@,
        ),
        saved@.peer == saved.peer@ && saved@.mode == saved.mode@ && saved@.denied == saved.denied,
        saved.rtt_ms is None <==> saved@.rtt_ms is None,
        saved.rtt_ms matches Some(rtt) ==> saved@.rtt_ms == Some(rtt@),
{
}

/// What the daemon writes, a reader finds: the peer, the mode and whether
/// something is denied.
pub proof fn law_what_is_written_is_found(
    state: State,
    file: String,
    seen: &str,
    saved: Saved,
)
    requires
        one_line(state.mode@),
        one_line(state.peer@),
        one_line(state@.saved_rtt()),
        call_ensures(State::encode, (&state,), file),
        seen@ == file@,
        call_ensures(State::decode, (seen,), saved),
    ensures
        saved.peer@ == state.peer@,
        saved.mode@ == state.mode@,
        saved.denied == state.denied,
{
    law_the_file_survives_a_round_trip(state@);
}

/// Each change to the status changes what it is about and nothing else.
pub proof fn law_each_change_changes_one_thing(allowed: bool, label: Label, rtt_ms: Option<Millis>)
    ensures
        forall|s: &mut Status, file: Option<String>| #[trigger]
            call_ensures(Status::allowed, (s, allowed), file) ==> {
                let (before, after) = (s.current@, final(s).current@);
                &&& after.denied == !allowed
                &&& after.peer == before.peer && after.mode == before.mode && after.rtt_ms
                    == before.rtt_ms
            },
        forall|s: &mut Status, file: Option<String>| #[trigger]
            call_ensures(Status::flows, (s, label), file) ==> {
                let (before, after) = (s.current@, final(s).current@);
                &&& label == Label::Local ==> after.mode == "local"@
                &&& label == Label::Sending ==> after.mode == "sending"@
                &&& label == Label::Receiving ==> after.mode == "receiving"@
                &&& after.peer == before.peer && after.denied == before.denied && after.rtt_ms
                    == before.rtt_ms
            },
        forall|s: &mut Status, file: Option<String>| #[trigger]
            call_ensures(Status::timed, (s, rtt_ms), file) ==> {
                let (before, after) = (s.current@, final(s).current@);
                &&& after.rtt_ms == millis_model(rtt_ms)
                &&& after.peer == before.peer && after.denied == before.denied && after.mode
                    == before.mode
            },
{
    assert forall|s: &mut Status, file: Option<String>| #[trigger]
        call_ensures(Status::allowed, (s, allowed), file) implies {
        let (before, after) = (s.current@, final(s).current@);
        &&& after.denied == !allowed
        &&& after.peer == before.peer && after.mode == before.mode && after.rtt_ms == before.rtt_ms
    } by {
        assert(final(s)@.state == final(s).current@);
    }
    assert forall|s: &mut Status, file: Option<String>| #[trigger]
        call_ensures(Status::flows, (s, label), file) implies {
        let (before, after) = (s.current@, final(s).current@);
        &&& label == Label::Local ==> after.mode == "local"@
        &&& label == Label::Sending ==> after.mode == "sending"@
        &&& label == Label::Receiving ==> after.mode == "receiving"@
        &&& after.peer == before.peer && after.denied == before.denied && after.rtt_ms
            == before.rtt_ms
    } by {
        assert(final(s)@.state == final(s).current@);
    }
    assert forall|s: &mut Status, file: Option<String>| #[trigger]
        call_ensures(Status::timed, (s, rtt_ms), file) implies {
        let (before, after) = (s.current@, final(s).current@);
        &&& after.rtt_ms == millis_model(rtt_ms)
        &&& after.peer == before.peer && after.denied == before.denied && after.mode == before.mode
    } by {
        assert(final(s)@.state == final(s).current@);
    }
}

} // verus!

//! The command line: input lines, and what is printed of events.

use vstd::prelude::*;
use vstd::utf8::encode_utf8;
use crate::clipboard::{ClipboardContent, ContentView};
use crate::discovery::{Peer, PeerView};
use crate::filenames::{self, is_control};
use crate::sync::{EngineEvent, EngineEventView};
use crate::text::{self, decimal_text, head, is_space, opt_view, trimmed, views};

verus! {

/// Length of a printed text, in characters.
pub const PREVIEW_MAX: usize = 60;

/// Length of a short fingerprint.
pub const SHORT_FINGERPRINT: usize = 8;

/// The short form of a fingerprint: its first eight characters.
pub fn fp8(fingerprint: &str) -> (r: String)
    ensures
        r@ == head(fingerprint@, SHORT_FINGERPRINT as nat),
{
    let chars: Vec<char> = text::chars_of(fingerprint);
    text::head_of(chars.as_slice(), SHORT_FINGERPRINT)
}

/// A text on one line: every control character becomes a dot.
pub open spec fn flat(s: Seq<char>) -> Seq<char> {
    s.map_values(
        |c: char|
            if is_control(c) {
                '·'
            } else {
                c
            },
    )
}

/// The printed form of a text: flat, cut to the limit, with the size when it
/// is cut.
pub open spec fn printed(s: Seq<char>) -> Seq<char> {
    if s.len() <= PREVIEW_MAX {
        flat(s)
    } else {
        flat(s).take(PREVIEW_MAX as int) + "… ("@ + decimal_text(encode_utf8(s).len()) + " 字节)"@
    }
}

/// The printed form of a text.
pub fn preview(s: &str) -> (r: String)
    ensures
        r@ == printed(s@),
{
    let chars: Vec<char> = text::chars_of(s);
    let mut out: Vec<char> = Vec::new();
    let mut i: usize = 0;
    while i < chars.len()
        invariant
            i <= chars.len(),
            chars@ == s@,
            out.len() == i,
            forall|j: int| 0 <= j < i ==> #[trigger] out@[j] == flat(s@)[j],
        decreases chars.len() - i,
    {
        if filenames::control(chars[i]) {
            out.push('·');
        } else {
            out.push(chars[i]);
        }
        i += 1;
    }
    proof {
        assert(out@ =~= flat(s@));
    }
    let mut shown = text::head_of(out.as_slice(), PREVIEW_MAX);
    if chars.len() > PREVIEW_MAX {
        shown.append("… (");
        let size = text::decimal(s.as_bytes().len() as u64);
        shown.append(size.as_str());
        shown.append(" 字节)");
    }
    shown
}

/// Whether a text starts with another.
pub open spec fn has_prefix(s: Seq<char>, prefix: Seq<char>) -> bool {
    prefix.len() <= s.len() && s.take(prefix.len() as int) == prefix
}

fn starts_with(s: &[char], prefix: &[char]) -> (r: bool)
    ensures
        r == has_prefix(s@, prefix@),
{
    if prefix.len() > s.len() {
        return false;
    }
    let mut i: usize = 0;
    while i < prefix.len()
        invariant
            i <= prefix.len(),
            prefix.len() <= s.len(),
            forall|j: int| 0 <= j < i ==> s@[j] == prefix@[j],
        decreases prefix.len() - i,
    {
        if s[i] != prefix[i] {
            proof {
                assert(s@.take(prefix@.len() as int)[i as int] != prefix@[i as int]);
            }
            return false;
        }
        i += 1;
    }
    proof {
        assert(s@.take(prefix@.len() as int) =~= prefix@);
    }
    true
}

/// A text without the prefix, however often it is there.
pub open spec fn stripped(s: Seq<char>, prefix: Seq<char>) -> Seq<char>
    decreases s.len(),
{
    if prefix.len() > 0 && has_prefix(s, prefix) {
        stripped(s.skip(prefix.len() as int), prefix)
    } else {
        s
    }
}

fn strip(s: &[char], prefix: &str) -> (r: Vec<char>)
    ensures
        r@ == stripped(s@, prefix@),
{
    let p: Vec<char> = text::chars_of(prefix);
    let mut start: usize = 0;
    proof {
        assert(s@.skip(0) =~= s@);
    }
    let mut rest = vstd::slice::slice_subrange(s, 0, s.len());
    proof {
        assert(rest@ =~= s@);
    }
    while p.len() > 0 && starts_with(rest, p.as_slice())
        invariant
            p@ == prefix@,
            start <= s.len(),
            rest@ == s@.skip(start as int),
            stripped(rest@, prefix@) == stripped(s@, prefix@),
        decreases s.len() - start,
    {
        proof {
            assert(rest@.skip(p@.len() as int) =~= s@.skip(start + p@.len()));
        }
        start = start + p.len();
        rest = vstd::slice::slice_subrange(s, start, s.len());
        proof {
            assert(rest@ =~= s@.skip(start as int));
        }
    }
    let mut out: Vec<char> = Vec::new();
    let mut i: usize = 0;
    while i < rest.len()
        invariant
            i <= rest.len(),
            out@ == rest@.take(i as int),
        decreases rest.len() - i,
    {
        out.push(rest[i]);
        proof {
            assert(rest@.take(i + 1) =~= rest@.take(i as int).push(rest@[i as int]));
        }
        i += 1;
    }
    proof {
        assert(rest@.take(rest.len() as int) =~= rest@);
    }
    out
}

/// The words of a text, without the white space between them. `word` is the
/// word that the text goes on with.
pub open spec fn words_of(s: Seq<char>) -> Seq<Seq<char>> {
    kept_words(pieces(s))
}

/// The pieces between white space characters, empty ones included.
pub open spec fn pieces(s: Seq<char>) -> Seq<Seq<char>>
    decreases s.len(),
{
    if s.len() == 0 {
        seq![Seq::<char>::empty()]
    } else {
        let before = pieces(s.drop_last());
        if is_space(s.last()) {
            before.push(Seq::<char>::empty())
        } else {
            before.drop_last().push(before.last().push(s.last()))
        }
    }
}

/// The pieces that are not empty.
pub open spec fn kept_words(list: Seq<Seq<char>>) -> Seq<Seq<char>>
    decreases list.len(),
{
    if list.len() == 0 {
        Seq::empty()
    } else {
        let before = kept_words(list.drop_last());
        if list.last().len() > 0 {
            before.push(list.last())
        } else {
            before
        }
    }
}

fn finish_word(out: &mut Vec<String>, word: &Vec<char>, Ghost(done): Ghost<Seq<Seq<char>>>)
    requires
        views(old(out)@) == kept_words(done),
    ensures
        views(final(out)@) == kept_words(done.push(word@)),
{
    proof {
        assert(done.push(word@).drop_last() =~= done);
    }
    if word.len() > 0 {
        let ghost before = out@;
        out.push(text::string_of(word.as_slice()));
        proof {
            assert(views(out@) =~= views(before).push(word@));
        }
    }
}

fn split_words(chars: &[char]) -> (r: Vec<String>)
    ensures
        views(r@) == words_of(chars@),
{
    let mut out: Vec<String> = Vec::new();
    let mut word: Vec<char> = Vec::new();
    let ghost mut done: Seq<Seq<char>> = Seq::empty();
    let mut i: usize = 0;
    proof {
        assert(views(out@) =~= kept_words(done));
        assert(done.push(word@) =~= pieces(chars@.take(0)));
    }
    while i < chars.len()
        invariant
            i <= chars.len(),
            views(out@) == kept_words(done),
            done.push(word@) == pieces(chars@.take(i as int)),
        decreases chars.len() - i,
    {
        proof {
            assert(chars@.take(i + 1).drop_last() =~= chars@.take(i as int));
            assert(done.push(word@).drop_last() =~= done);
            assert(done.push(word@).last() == word@);
        }
        if text::space(chars[i]) {
            finish_word(&mut out, &word, Ghost(done));
            proof {
                done = done.push(word@);
            }
            word = Vec::new();
            proof {
                assert(done.push(word@) =~= pieces(chars@.take(i + 1)));
            }
        } else {
            word.push(chars[i]);
        }
        i += 1;
    }
    proof {
        assert(chars@.take(chars.len() as int) =~= chars@);
    }
    finish_word(&mut out, &word, Ghost(done));
    out
}

/// Whether a character separates width and height.
pub open spec fn is_cross(c: char) -> bool {
    c == 'x' || c == 'X' || c == '×'
}

/// The value of decimal digits; nothing when something else is among them.
pub open spec fn digits_value(s: Seq<char>) -> Option<nat>
    decreases s.len(),
{
    if s.len() == 0 {
        Some(0)
    } else {
        match digits_value(s.drop_last()) {
            Some(n) => if '0' <= s.last() && s.last() <= '9' {
                Some(n * 10 + (s.last() as nat - 48) as nat)
            } else {
                None
            },
            None => None,
        }
    }
}

/// A positive number in decimal digits, with an optional plus sign.
pub open spec fn number(s: Seq<char>) -> Option<nat> {
    let digits = if s.len() > 0 && s[0] == '+' {
        s.skip(1)
    } else {
        s
    };
    if digits.len() == 0 {
        None
    } else {
        match digits_value(digits) {
            Some(n) => if 0 < n <= usize::MAX {
                Some(n)
            } else {
                None
            },
            None => None,
        }
    }
}

/// Width and height of a text like `64x48`; both have to be positive.
pub open spec fn dims(s: Seq<char>) -> Option<(nat, nat)> {
    match first_cross(s) {
        Some(i) => match (number(trimmed(s.take(i))), number(trimmed(s.skip(i + 1)))) {
            (Some(w), Some(h)) => Some((w, h)),
            _ => None,
        },
        None => None,
    }
}

/// The first separator.
pub open spec fn first_cross(s: Seq<char>) -> Option<int>
    decreases s.len(),
{
    if s.len() == 0 {
        None
    } else {
        match first_cross(s.drop_last()) {
            Some(i) => Some(i),
            None => if is_cross(s.last()) {
                Some(s.len() - 1)
            } else {
                None
            },
        }
    }
}

proof fn lemma_first_cross(s: Seq<char>, i: int)
    requires
        0 <= i < s.len(),
        is_cross(s[i]),
        forall|j: int| 0 <= j < i ==> !is_cross(#[trigger] s[j]),
    ensures
        first_cross(s) == Some(i),
    decreases s.len(),
{
    let before = s.drop_last();
    if i < before.len() {
        assert(before[i] == s[i]);
        assert forall|j: int| 0 <= j < i implies !is_cross(#[trigger] before[j]) by {
            assert(before[j] == s[j]);
        }
        lemma_first_cross(before, i);
    } else {
        assert forall|j: int| 0 <= j < before.len() implies !is_cross(#[trigger] before[j]) by {
            assert(before[j] == s[j]);
        }
        lemma_no_cross(before);
    }
}

proof fn lemma_no_cross(s: Seq<char>)
    requires
        forall|j: int| 0 <= j < s.len() ==> !is_cross(#[trigger] s[j]),
    ensures
        first_cross(s) is None,
    decreases s.len(),
{
    if s.len() > 0 {
        let before = s.drop_last();
        assert forall|j: int| 0 <= j < before.len() implies !is_cross(#[trigger] before[j]) by {
            assert(before[j] == s[j]);
        }
        lemma_no_cross(before);
        assert(!is_cross(s[s.len() - 1]));
    }
}

proof fn lemma_digits_prefix(s: Seq<char>, n: int)
    requires
        0 <= n <= s.len(),
    ensures
        digits_value(s.take(n)) is None ==> digits_value(s) is None,
        digits_value(s) is Some && digits_value(s.take(n)) is Some ==> digits_value(s.take(n))->0
            <= digits_value(s)->0,
    decreases s.len(),
{
    if n == s.len() {
        assert(s.take(n) =~= s);
    } else {
        assert(s.drop_last().take(n) =~= s.take(n));
        lemma_digits_prefix(s.drop_last(), n);
    }
}

fn parse_number(s: &str) -> (r: Option<usize>)
    ensures
        match r {
            Some(n) => number(s@) == Some(n as nat),
            None => number(s@) is None,
        },
{
    let chars: Vec<char> = text::chars_of(s);
    let start: usize = if chars.len() > 0 && chars[0] == '+' {
        1
    } else {
        0
    };
    let ghost digits = chars@.skip(start as int);
    proof {
        assert(start == 0 ==> digits =~= s@);
    }
    if chars.len() == start {
        return None;
    }
    let mut value: u128 = 0;
    let mut i: usize = start;
    while i < chars.len()
        invariant
            start <= i <= chars.len(),
            digits == chars@.skip(start as int),
            digits_value(digits.take(i - start)) == Some(value as nat),
            value <= usize::MAX,
            digits.len() > 0,
            digits == (if s@.len() > 0 && s@[0] == '+' {
                s@.skip(1)
            } else {
                s@
            }),
        decreases chars.len() - i,
    {
        let c: char = chars[i];
        proof {
            let k = i - start;
            assert(digits[k] == c);
            assert(digits.take(k + 1).drop_last() =~= digits.take(k));
            assert(digits.take(k + 1).last() == c);
            lemma_digits_prefix(digits, k + 1);
        }
        if !('0' <= c && c <= '9') {
            return None;
        }
        let code: u32 = c as u32;
        proof {
            vstd::utf8::char_u32_cast(c, code);
        }
        value = value * 10 + (code - 48) as u128;
        if value > usize::MAX as u128 {
            return None;
        }
        i += 1;
    }
    proof {
        assert(digits.take(i - start) =~= digits);
    }
    if value == 0 {
        None
    } else {
        Some(value as usize)
    }
}

/// Width and height of a text like `64x48`; both have to be positive.
pub fn parse_dims(raw: &str) -> (r: Option<(usize, usize)>)
    ensures
        match r {
            Some(size) => dims(raw@) == Some((size.0 as nat, size.1 as nat)),
            None => dims(raw@) is None,
        },
{
    let chars: Vec<char> = text::chars_of(raw);
    let mut i: usize = 0;
    while i < chars.len() && chars[i] != 'x' && chars[i] != 'X' && chars[i] != '×'
        invariant
            i <= chars.len(),
            chars@ == raw@,
            forall|j: int| 0 <= j < i ==> !is_cross(#[trigger] chars@[j]),
        decreases chars.len() - i,
    {
        i += 1;
    }
    if i == chars.len() {
        proof {
            lemma_no_cross(raw@);
        }
        return None;
    }
    proof {
        lemma_first_cross(raw@, i as int);
    }
    let left = vstd::slice::slice_subrange(chars.as_slice(), 0, i);
    let right = vstd::slice::slice_subrange(chars.as_slice(), i + 1, chars.len());
    proof {
        assert(left@ =~= raw@.take(i as int));
        assert(right@ =~= raw@.skip(i + 1));
    }
    let w = text::trim_chars(left);
    let h = text::trim_chars(right);
    match parse_number(w.as_str()) {
        None => None,
        Some(width) => match parse_number(h.as_str()) {
            None => None,
            Some(height) => Some((width, height)),
        },
    }
}

/// Whether a target names the peer: its name, its device ID, or the start of
/// its fingerprint.
pub open spec fn names(peer: PeerView, target: Seq<char>) -> bool {
    peer.info.name == target || peer.info.device_id == target || has_prefix(
        peer.info.fingerprint,
        target,
    )
}

/// Whether the peer is the first one that a target names.
pub open spec fn first_named(peers: Seq<PeerView>, target: Seq<char>, peer: PeerView) -> bool {
    exists|i: int|
        0 <= i < peers.len() && peer == (#[trigger] peers[i]) && names(peer, target) && forall|j: int|
            0 <= j < i ==> !names(#[trigger] peers[j], target)
}

/// Whether a target names none of the peers.
pub open spec fn none_named(peers: Seq<PeerView>, target: Seq<char>) -> bool {
    forall|i: int| 0 <= i < peers.len() ==> !names(#[trigger] peers[i], target)
}

/// Finds the first peer that a target names.
pub fn find_target(peers: &Vec<Peer>, target: &str) -> (r: Option<Peer>)
    ensures
        match r {
            Some(p) => first_named(views(peers@), target@, p@),
            None => none_named(views(peers@), target@),
        },
{
    let wanted: Vec<char> = text::chars_of(target);
    let ghost all = views(peers@);
    let mut i: usize = 0;
    while i < peers.len()
        invariant
            i <= peers.len(),
            all == views(peers@),
            wanted@ == target@,
            forall|j: int| 0 <= j < i ==> !names(#[trigger] all[j], target@),
        decreases peers.len() - i,
    {
        proof {
            assert(all[i as int] == peers@[i as int]@);
        }
        let info = &peers[i].info;
        let fingerprint: Vec<char> = text::chars_of(info.fingerprint.as_str());
        if text::same(info.name.as_str(), target) || text::same(info.device_id.as_str(), target)
            || starts_with(fingerprint.as_slice(), wanted.as_slice()) {
            let found = peers[i].duplicate();
            proof {
                assert(found@ == all[i as int]);
                assert(names(all[i as int], target@));
            }
            return Some(found);
        }
        i += 1;
    }
    None
}

/// How the search for a peer goes on.
#[derive(Debug, PartialEq, Eq)]
pub enum Seek {
    /// Pair with the peer
    Pair(Peer),
    /// The time is up
    GiveUp,
    /// Wait and look again
    Wait,
}

/// How the search for a target goes on: a peer that is there is taken even when
/// the time is up.
pub fn seek(peers: &Vec<Peer>, target: &str, now: u64, deadline: u64) -> (r: Seek)
    ensures
        match r {
            Seek::Pair(p) => first_named(views(peers@), target@, p@),
            Seek::GiveUp => none_named(views(peers@), target@) && now >= deadline,
            Seek::Wait => none_named(views(peers@), target@) && now < deadline,
        },
{
    match find_target(peers, target) {
        Some(peer) => Seek::Pair(peer),
        None => {
            if now >= deadline {
                Seek::GiveUp
            } else {
                Seek::Wait
            }
        },
    }
}

/// What an input line asks for.
#[derive(Debug, PartialEq, Eq)]
pub enum LineCommand {
    /// Nothing
    Nothing,
    /// Quit
    Quit,
    /// Pair with a target
    Pair(String),
    /// Answer the pairing request
    Answer(bool),
    /// List the peers
    Peers,
    /// List the pairings
    Paired,
    /// Inject an image of that size
    Image { width: usize, height: usize },
    /// Inject file references
    Files(Vec<String>),
    /// File references without a path
    FilesUsage,
    /// A command that is not known
    Unknown,
    /// Inject a text
    Text(String),
}

/// What a [`LineCommand`] stands for.
#[verifier::ext_equal]
pub enum LineView {
    Nothing,
    Quit,
    Pair(Seq<char>),
    Answer(bool),
    Peers,
    Paired,
    Image { width: nat, height: nat },
    Files(Seq<Seq<char>>),
    FilesUsage,
    Unknown,
    Text(Seq<char>),
}

impl View for LineCommand {
    type V = LineView;

    open spec fn view(&self) -> LineView {
        match *self {
            LineCommand::Nothing => LineView::Nothing,
            LineCommand::Quit => LineView::Quit,
            LineCommand::Pair(t) => LineView::Pair(t@),
            LineCommand::Answer(b) => LineView::Answer(b),
            LineCommand::Peers => LineView::Peers,
            LineCommand::Paired => LineView::Paired,
            LineCommand::Image { width, height } => LineView::Image {
                width: width as nat,
                height: height as nat,
            },
            LineCommand::Files(f) => LineView::Files(views(f@)),
            LineCommand::FilesUsage => LineView::FilesUsage,
            LineCommand::Unknown => LineView::Unknown,
            LineCommand::Text(t) => LineView::Text(t@),
        }
    }
}

/// What an input line asks for.
pub open spec fn asked(line: Seq<char>) -> LineView {
    let cmd = trimmed(line);
    if cmd.len() == 0 {
        LineView::Nothing
    } else if cmd == "/quit"@ {
        LineView::Quit
    } else if has_prefix(cmd, "/pair "@) {
        LineView::Pair(trimmed(stripped(cmd, "/pair "@)))
    } else if cmd == "/y"@ || cmd == "/n"@ {
        LineView::Answer(cmd == "/y"@)
    } else if cmd == "/peers"@ {
        LineView::Peers
    } else if cmd == "/paired"@ {
        LineView::Paired
    } else if has_prefix(cmd, "/image"@) {
        match dims(trimmed(stripped(cmd, "/image"@))) {
            Some(size) => LineView::Image { width: size.0, height: size.1 },
            None => LineView::Image { width: 64, height: 48 },
        }
    } else if has_prefix(cmd, "/file "@) {
        let paths = words_of(stripped(cmd, "/file "@));
        if paths.len() == 0 {
            LineView::FilesUsage
        } else {
            LineView::Files(paths)
        }
    } else if cmd[0] == '/' {
        LineView::Unknown
    } else {
        LineView::Text(line)
    }
}

fn begins(chars: &Vec<char>, prefix: &str) -> (r: bool)
    ensures
        r == has_prefix(chars@, prefix@),
{
    let p: Vec<char> = text::chars_of(prefix);
    starts_with(chars.as_slice(), p.as_slice())
}

/// What an input line asks for.
pub fn parse_line(line: &str) -> (r: LineCommand)
    ensures
        r@ == asked(line@),
{
    let cmd = text::trim(line);
    let chars: Vec<char> = text::chars_of(cmd.as_str());
    if chars.len() == 0 {
        return LineCommand::Nothing;
    }
    if text::same(cmd.as_str(), "/quit") {
        return LineCommand::Quit;
    }
    if begins(&chars, "/pair ") {
        let rest = strip(chars.as_slice(), "/pair ");
        return LineCommand::Pair(text::trim_chars(rest.as_slice()));
    }
    if text::same(cmd.as_str(), "/y") {
        return LineCommand::Answer(true);
    }
    if text::same(cmd.as_str(), "/n") {
        return LineCommand::Answer(false);
    }
    if text::same(cmd.as_str(), "/peers") {
        return LineCommand::Peers;
    }
    if text::same(cmd.as_str(), "/paired") {
        return LineCommand::Paired;
    }
    if begins(&chars, "/image") {
        let rest = strip(chars.as_slice(), "/image");
        let size = text::trim_chars(rest.as_slice());
        return match parse_dims(size.as_str()) {
            Some((width, height)) => LineCommand::Image { width, height },
            None => LineCommand::Image { width: 64, height: 48 },
        };
    }
    if begins(&chars, "/file ") {
        let rest = strip(chars.as_slice(), "/file ");
        let paths = split_words(rest.as_slice());
        return if paths.len() == 0 {
            LineCommand::FilesUsage
        } else {
            LineCommand::Files(paths)
        };
    }
    if chars[0] == '/' {
        LineCommand::Unknown
    } else {
        LineCommand::Text(line.to_owned())
    }
}

/// The pixels of the test image: a fixed pattern, fully opaque.
pub open spec fn pattern(n: int) -> Seq<u8> {
    Seq::new(
        (n * 4) as nat,
        |i: int|
            if i % 4 == 0 {
                ((i / 4) * 7 % 251) as u8
            } else if i % 4 == 1 {
                ((i / 4) * 11 % 241) as u8
            } else if i % 4 == 2 {
                ((i / 4) * 13 % 239) as u8
            } else {
                0xffu8
            },
    )
}

/// Whether the test image of that size can be made.
pub fn image_fits(width: usize, height: usize) -> (r: bool)
    ensures
        r == (width * height * 13 <= usize::MAX),
{
    assert(width * height <= usize::MAX * usize::MAX) by (nonlinear_arith)
        requires
            width <= usize::MAX,
            height <= usize::MAX,
    ;
    assert(0 <= width * height) by (nonlinear_arith)
        requires
            width >= 0,
            height >= 0,
    ;
    match width.checked_mul(height) {
        None => false,
        Some(n) => n <= usize::MAX / 13,
    }
}

/// The test image of that size.
pub fn pattern_image(width: usize, height: usize) -> (r: ClipboardContent)
    requires
        width * height * 13 <= usize::MAX,
    ensures
        r@ == (ContentView::Image { width, height, rgba: pattern(width * height) }),
{
    let ghost area = width * height;
    assert(0 <= area) by (nonlinear_arith)
        requires
            area == width * height,
            width >= 0,
            height >= 0,
    ;
    let n: usize = width * height;
    let mut rgba: Vec<u8> = Vec::new();
    let mut k: usize = 0;
    proof {
        assert(rgba@ =~= pattern(0));
    }
    while k < n
        invariant
            k <= n,
            n * 13 <= usize::MAX,
            rgba@ == pattern(k as int),
        decreases n - k,
    {
        rgba.push((k * 7 % 251) as u8);
        rgba.push((k * 11 % 241) as u8);
        rgba.push((k * 13 % 239) as u8);
        rgba.push(0xff);
        proof {
            assert(rgba@ =~= pattern(k + 1));
        }
        k += 1;
    }
    ClipboardContent::Image { width, height, rgba }
}

/// How a line is printed.
#[derive(PartialEq, Eq, Structural, Clone, Copy, Debug)]
pub enum Style {
    /// Success
    Good,
    /// Information
    Info,
    /// Warning
    Warn,
    /// An event, with its symbol
    Event(char),
}

/// A line to print.
#[derive(Debug, PartialEq, Eq)]
pub struct Line {
    /// How it is printed
    pub style: Style,
    /// Its text
    pub text: String,
}

/// What a [`Line`] stands for.
#[verifier::ext_equal]
pub struct PrintView {
    pub style: Style,
    pub text: Seq<char>,
}

impl View for Line {
    type V = PrintView;

    open spec fn view(&self) -> PrintView {
        PrintView { style: self.style, text: self.text@ }
    }
}

/// What an event of the engine leads to.
#[derive(Debug, PartialEq, Eq)]
pub struct Reaction {
    /// What is printed
    pub line: Line,
    /// The pairing request to accept
    pub accept: Option<String>,
    /// What is written to the clipboard, under its echo hash
    pub write: Option<(ClipboardContent, String)>,
}

/// What a [`Reaction`] stands for.
#[verifier::ext_equal]
pub struct ReactionView {
    pub line: PrintView,
    pub accept: Option<Seq<char>>,
    pub write: Option<(ContentView, Seq<char>)>,
}

impl View for Reaction {
    type V = ReactionView;

    open spec fn view(&self) -> ReactionView {
        ReactionView {
            line: self.line@,
            accept: opt_view(self.accept),
            write: match self.write {
                Some(w) => Some((w.0@, w.1@)),
                None => None,
            },
        }
    }
}

/// The short form of a fingerprint in brackets.
pub open spec fn tag(fingerprint: Seq<char>) -> Seq<char> {
    "["@ + head(fingerprint, SHORT_FINGERPRINT as nat) + "]"@
}

/// The printed description of copied content.
pub open spec fn copied_text(content: ContentView) -> Seq<char> {
    match content {
        ContentView::Text(t) => printed(t),
        ContentView::Image { width, height, .. } => "图像 "@ + decimal_text(width as nat) + "x"@
            + decimal_text(height as nat),
        ContentView::Files(paths) => "文件 x"@ + decimal_text(paths.len()),
        ContentView::ImageUnread => "图像(未读取)"@,
    }
}

/// A reaction that only prints.
pub open spec fn prints(style: Style, text: Seq<char>) -> ReactionView {
    ReactionView { line: PrintView { style, text }, accept: None, write: None }
}

/// What remote content leads to.
pub open spec fn received(content: ContentView, from: Seq<char>, hash: Seq<char>, use_clipboard: bool) -> ReactionView {
    let text = match content {
        ContentView::Text(t) => "来自 "@ + from + " 的剪贴板: "@ + printed(t),
        ContentView::Image { width, height, .. } => "来自 "@ + from + " 的图像 "@ + decimal_text(
            width as nat,
        ) + "×"@ + decimal_text(height as nat),
        ContentView::Files(paths) => "来自 "@ + from + " 的文件 ×"@ + decimal_text(paths.len()),
        ContentView::ImageUnread => "未知的远端内容类型: "@ + content.kind(),
    };
    if content is ImageUnread {
        prints(Style::Warn, text)
    } else {
        ReactionView {
            write: if use_clipboard {
                Some((content, hash))
            } else {
                None
            },
            ..prints(Style::Event('⇣'), text)
        }
    }
}

/// What an event leads to. `addrs` is the text of a peer's addresses.
pub open spec fn reaction(
    event: EngineEventView,
    auto_accept: bool,
    use_clipboard: bool,
    addrs: Seq<char>,
) -> ReactionView {
    match event {
        EngineEventView::PeerUp(peer) => prints(
            Style::Event('▲'),
            "上线 "@ + peer.info.name + " "@ + tag(peer.info.fingerprint) + " "@ + addrs,
        ),
        EngineEventView::PeerDown(fp) => prints(Style::Event('▼'), "下线 "@ + tag(fp)),
        EngineEventView::PairRequested { peer } => if auto_accept {
            ReactionView {
                accept: Some(peer.fingerprint),
                ..prints(
                    Style::Good,
                    "已自动接受 "@ + peer.name + " 的配对请求(指纹 "@ + head(
                        peer.fingerprint,
                        SHORT_FINGERPRINT as nat,
                    ) + ")"@,
                )
            }
        } else {
            prints(
                Style::Warn,
                peer.name + " 请求配对, 指纹 "@ + head(peer.fingerprint, SHORT_FINGERPRINT as nat)
                    + " —— 输入 /y 接受, /n 拒绝"@,
            )
        },
        EngineEventView::Paired { peer } => prints(
            Style::Good,
            "已与 "@ + peer.name + " 配对 "@ + tag(peer.fingerprint),
        ),
        EngineEventView::Unpaired { fingerprint } => prints(
            Style::Event('✂'),
            "配对已解除 "@ + tag(fingerprint),
        ),
        EngineEventView::LocalCopied { content, .. } => prints(
            Style::Event('⇡'),
            "本机复制 ["@ + content.kind() + "] "@ + copied_text(content),
        ),
        EngineEventView::ApplyRemote { content, from, timestamp_ms, hash } => received(
            content,
            from.name,
            hash,
            use_clipboard,
        ),
        EngineEventView::SyncSent { to, failure } => match failure {
            None => prints(Style::Event('→'), "已同步至 "@ + to.name),
            Some(e) => prints(Style::Warn, "同步至 "@ + to.name + " 失败: "@ + e),
        },
    }
}

/// The pairing request that the next answer is for.
pub open spec fn pending_after(event: EngineEventView, auto_accept: bool, pending: Option<Seq<char>>) -> Option<
    Seq<char>,
> {
    match event {
        EngineEventView::PairRequested { peer } => if auto_accept {
            pending
        } else {
            Some(peer.fingerprint)
        },
        _ => pending,
    }
}

fn say(style: Style, text: String) -> (r: Reaction)
    ensures
        r@ == prints(style, text@),
{
    Reaction { line: Line { style, text }, accept: None, write: None }
}

fn tagged(fingerprint: &str) -> (r: String)
    ensures
        r@ == tag(fingerprint@),
{
    let short = fp8(fingerprint);
    let mut out = text::join("[", short.as_str());
    out.append("]");
    out
}

fn describe_copy(content: &ClipboardContent) -> (r: String)
    ensures
        r@ == copied_text(content@),
{
    match content {
        ClipboardContent::Text(t) => preview(t.as_str()),
        ClipboardContent::Image { width, height, .. } => {
            let w = text::decimal(*width as u64);
            let h = text::decimal(*height as u64);
            let mut out = text::join("图像 ", w.as_str());
            out.append("x");
            out.append(h.as_str());
            out
        },
        ClipboardContent::Files(list) => {
            let n = text::decimal(list.len() as u64);
            text::join("文件 x", n.as_str())
        },
        ClipboardContent::ImageUnread => "图像(未读取)".to_owned(),
    }
}

fn receive(content: ClipboardContent, from: &str, hash: String, use_clipboard: bool) -> (r: Reaction)
    ensures
        r@ == received(content@, from@, hash@, use_clipboard),
{
    let mut out = text::join("来自 ", from);
    match &content {
        ClipboardContent::Text(t) => {
            out.append(" 的剪贴板: ");
            let shown = preview(t.as_str());
            out.append(shown.as_str());
        },
        ClipboardContent::Image { width, height, .. } => {
            out.append(" 的图像 ");
            let w = text::decimal(*width as u64);
            let h = text::decimal(*height as u64);
            out.append(w.as_str());
            out.append("×");
            out.append(h.as_str());
        },
        ClipboardContent::Files(list) => {
            out.append(" 的文件 ×");
            let n = text::decimal(list.len() as u64);
            out.append(n.as_str());
        },
        ClipboardContent::ImageUnread => {
            return say(Style::Warn, text::join("未知的远端内容类型: ", content.kind()));
        },
    }
    let write = if use_clipboard {
        Some((content, hash))
    } else {
        None
    };
    Reaction { line: Line { style: Style::Event('⇣'), text: out }, accept: None, write }
}

/// What an event of the engine leads to.
pub fn react(
    event: EngineEvent,
    auto_accept: bool,
    use_clipboard: bool,
    addrs: &str,
    pending: &mut Option<String>,
) -> (r: Reaction)
    ensures
        r@ == reaction(event@, auto_accept, use_clipboard, addrs@),
        opt_view(*final(pending)) == pending_after(event@, auto_accept, opt_view(*old(pending))),
{
    match event {
        EngineEvent::PeerUp(peer) => {
            let mut out = text::join("上线 ", peer.info.name.as_str());
            out.append(" ");
            let t = tagged(peer.info.fingerprint.as_str());
            out.append(t.as_str());
            out.append(" ");
            out.append(addrs);
            say(Style::Event('▲'), out)
        },
        EngineEvent::PeerDown(fp) => {
            let t = tagged(fp.as_str());
            say(Style::Event('▼'), text::join("下线 ", t.as_str()))
        },
        EngineEvent::PairRequested { peer } => {
            let short = fp8(peer.fingerprint.as_str());
            if auto_accept {
                let mut out = text::join("已自动接受 ", peer.name.as_str());
                out.append(" 的配对请求(指纹 ");
                out.append(short.as_str());
                out.append(")");
                Reaction {
                    line: Line { style: Style::Good, text: out },
                    accept: Some(peer.fingerprint),
                    write: None,
                }
            } else {
                let mut out = text::join(peer.name.as_str(), " 请求配对, 指纹 ");
                out.append(short.as_str());
                out.append(" —— 输入 /y 接受, /n 拒绝");
                *pending = Some(peer.fingerprint);
                say(Style::Warn, out)
            }
        },
        EngineEvent::Paired { peer } => {
            let mut out = text::join("已与 ", peer.name.as_str());
            out.append(" 配对 ");
            let t = tagged(peer.fingerprint.as_str());
            out.append(t.as_str());
            say(Style::Good, out)
        },
        EngineEvent::Unpaired { fingerprint } => {
            let t = tagged(fingerprint.as_str());
            say(Style::Event('✂'), text::join("配对已解除 ", t.as_str()))
        },
        EngineEvent::LocalCopied {
            content,
            hash: _,
            timestamp_ms: _,
            suppress_record: _,
            record_files_excluded: _,
        } => {
            let mut out = text::join("本机复制 [", content.kind());
            out.append("] ");
            let t = describe_copy(&content);
            out.append(t.as_str());
            say(Style::Event('⇡'), out)
        },
        EngineEvent::ApplyRemote { content, from, timestamp_ms: _, hash } => receive(
            content,
            from.name.as_str(),
            hash,
            use_clipboard,
        ),
        EngineEvent::SyncSent { to, result } => match result {
            Ok(_) => say(Style::Event('→'), text::join("已同步至 ", to.name.as_str())),
            Err(e) => {
                let mut out = text::join("同步至 ", to.name.as_str());
                out.append(" 失败: ");
                out.append(e.as_str());
                say(Style::Warn, out)
            },
        },
    }
}

/// What follows a write to the clipboard.
#[derive(Debug, PartialEq, Eq)]
pub struct WriteEnd {
    /// The echo registration to take back
    pub cancel: Option<String>,
    /// What is printed
    pub line: Option<Line>,
}

/// What a [`WriteEnd`] stands for.
#[verifier::ext_equal]
pub struct WriteEndView {
    pub cancel: Option<Seq<char>>,
    pub line: Option<PrintView>,
}

impl View for WriteEnd {
    type V = WriteEndView;

    open spec fn view(&self) -> WriteEndView {
        WriteEndView { cancel: opt_view(self.cancel), line: opt_view(self.line) }
    }
}

/// What follows the write of remote content: a failed one takes its echo
/// registration back and says so.
pub fn conclude_write(hash: String, failure: Option<String>) -> (r: WriteEnd)
    ensures
        r@ == (match opt_view(failure) {
            Some(e) => WriteEndView {
                cancel: Some(hash@),
                line: Some(PrintView { style: Style::Warn, text: "写入系统剪贴板失败: "@ + e }),
            },
            None => WriteEndView { cancel: None, line: None },
        }),
{
    match failure {
        Some(e) => WriteEnd {
            cancel: Some(hash),
            line: Some(Line { style: Style::Warn, text: text::join("写入系统剪贴板失败: ", e.as_str()) }),
        },
        None => WriteEnd { cancel: None, line: None },
    }
}

/// What a watched change is printed as. `paths` is the text of the file list.
pub open spec fn watched(content: ContentView, hash: Seq<char>, paths: Seq<char>) -> Seq<char> {
    let what = match content {
        ContentView::Image { rgba, .. } => copied_text(content) + " ("@ + decimal_text(rgba.len())
            + " 字节 RGBA)"@,
        ContentView::Files(_) => paths,
        _ => copied_text(content),
    };
    "["@ + content.kind() + "] "@ + what + " hash="@ + head(hash, SHORT_FINGERPRINT as nat)
}

/// What a watched change is printed as.
pub fn watch_line(content: &ClipboardContent, hash: &str, paths: &str) -> (r: String)
    ensures
        r@ == watched(content@, hash@, paths@),
{
    let mut out = text::join("[", content.kind());
    out.append("] ");
    match content {
        ClipboardContent::Files(_) => {
            out.append(paths);
        },
        ClipboardContent::Image { width: _, height: _, rgba } => {
            let mut what = describe_copy(content);
            what.append(" (");
            let n = text::decimal(rgba.len() as u64);
            what.append(n.as_str());
            what.append(" 字节 RGBA)");
            out.append(what.as_str());
        },
        _ => {
            let what = describe_copy(content);
            out.append(what.as_str());
        },
    }
    out.append(" hash=");
    let short = fp8(hash);
    out.append(short.as_str());
    out
}

/// A line that is no command is taken as it is, space included.
pub proof fn law_plain_line_is_taken_exactly(line: Seq<char>)
    requires
        trimmed(line).len() > 0,
        trimmed(line)[0] != '/',
    ensures
        asked(line) == LineView::Text(line),
{
    reveal_strlit("/quit");
    reveal_strlit("/pair ");
    reveal_strlit("/y");
    reveal_strlit("/n");
    reveal_strlit("/peers");
    reveal_strlit("/paired");
    reveal_strlit("/image");
    reveal_strlit("/file ");
    let cmd = trimmed(line);
    assert("/quit"@[0] == '/' && "/y"@[0] == '/' && "/n"@[0] == '/' && "/peers"@[0] == '/' && "/paired"@[0]
        == '/');
    if has_prefix(cmd, "/pair "@) {
        assert(cmd.take("/pair "@.len() as int)[0] == '/');
    }
    if has_prefix(cmd, "/image"@) {
        assert(cmd.take("/image"@.len() as int)[0] == '/');
    }
    if has_prefix(cmd, "/file "@) {
        assert(cmd.take("/file "@.len() as int)[0] == '/');
    }
}

/// A request that comes in while another waits takes its place: the answer is
/// for the latest.
pub proof fn law_answer_is_for_the_latest_request(
    event: EngineEventView,
    pending: Option<Seq<char>>,
    auto_accept: bool,
)
    ensures
        event matches EngineEventView::PairRequested { peer } ==> if auto_accept {
            reaction(event, auto_accept, true, Seq::empty()).accept == Some(peer.fingerprint)
                && pending_after(event, auto_accept, pending) == pending
        } else {
            pending_after(event, auto_accept, pending) == Some(peer.fingerprint)
        },
{
}

proof fn lemma_digits(n: nat)
    ensures
        digits_value(decimal_text(n)) == Some(n),
        decimal_text(n).len() > 0,
        forall|i: int|
            0 <= i < decimal_text(n).len() ==> '0' <= #[trigger] decimal_text(n)[i]
                && decimal_text(n)[i] <= '9',
    decreases n,
{
    filenames::lemma_decimal_digits(n);
    let s = decimal_text(n);
    if n < 10 {
        assert(s.drop_last() =~= Seq::<char>::empty());
        reveal_with_fuel(digits_value, 2);
        assert(s.last() as nat == 48 + n);
    } else {
        lemma_digits(n / 10);
        assert(s.drop_last() =~= decimal_text(n / 10));
        assert(s.last() as nat == 48 + n % 10);
        assert(n == (n / 10) * 10 + n % 10);
    }
}

proof fn lemma_digits_are_a_number(n: nat)
    requires
        0 < n <= usize::MAX,
    ensures
        number(trimmed(decimal_text(n))) == Some(n),
        forall|i: int| 0 <= i < decimal_text(n).len() ==> !is_cross(#[trigger] decimal_text(n)[i]),
{
    lemma_digits(n);
    let s = decimal_text(n);
    let none = Seq::<char>::empty();
    assert(none + s + none =~= s);
    assert('0' <= s[0] && s[0] <= '9');
    assert('0' <= s[s.len() - 1] && s[s.len() - 1] <= '9');
    text::law_trimmed(none, s, none);
}

/// A size is written as width and height with a cross between them, in any of its
/// three forms.
pub proof fn law_size_is_width_and_height(width: nat, height: nat, cross: char)
    requires
        0 < width <= usize::MAX,
        0 < height <= usize::MAX,
        cross == 'x' || cross == 'X' || cross == '×',
    ensures
        dims(decimal_text(width).push(cross) + decimal_text(height)) == Some((width, height)),
        dims(decimal_text(width)) is None,
{
    let w = decimal_text(width);
    let h = decimal_text(height);
    let s = w.push(cross) + h;
    lemma_digits_are_a_number(width);
    lemma_digits_are_a_number(height);
    assert(s[w.len() as int] == cross);
    assert forall|j: int| 0 <= j < w.len() implies !is_cross(#[trigger] s[j]) by {
        assert(s[j] == w[j]);
    }
    lemma_first_cross(s, w.len() as int);
    assert(s.take(w.len() as int) =~= w);
    assert(s.skip(w.len() as int + 1) =~= h);
    lemma_no_cross(w);
}

/// A line that is a command and nothing else, whatever the space around it.
pub proof fn law_plain_commands(line: Seq<char>)
    ensures
        trimmed(line).len() == 0 ==> asked(line) == LineView::Nothing,
        trimmed(line) == "/quit"@ ==> asked(line) == LineView::Quit,
        trimmed(line) == "/y"@ ==> asked(line) == LineView::Answer(true),
        trimmed(line) == "/n"@ ==> asked(line) == LineView::Answer(false),
        trimmed(line) == "/peers"@ ==> asked(line) == LineView::Peers,
        trimmed(line) == "/paired"@ ==> asked(line) == LineView::Paired,
        trimmed(line) == "/image"@ ==> asked(line) is Image,
{
    reveal_strlit("/quit");
    reveal_strlit("/pair ");
    reveal_strlit("/y");
    reveal_strlit("/n");
    reveal_strlit("/peers");
    reveal_strlit("/paired");
    reveal_strlit("/image");
    reveal_strlit("/file ");
    assert("/quit"@.len() == 5 && "/y"@.len() == 2 && "/n"@.len() == 2 && "/peers"@.len() == 6
        && "/paired"@.len() == 7 && "/image"@.len() == 6 && "/pair "@.len() == 6);
    assert("/y"@[1] == 'y' && "/n"@[1] == 'n');
    assert("/peers"@[2] == 'e' && "/pair "@[2] == 'a' && "/image"@[1] == 'i');
    assert("/paired"@[5] == 'e' && "/pair "@[5] == ' ');
    if has_prefix("/peers"@, "/pair "@) {
        assert("/peers"@.take(6)[2] == "/pair "@[2]);
    }
    if has_prefix("/paired"@, "/pair "@) {
        assert("/paired"@.take(6)[5] == "/pair "@[5]);
    }
    if has_prefix("/image"@, "/pair "@) {
        assert("/image"@.take(6)[1] == "/pair "@[1]);
    }
    assert("/image"@.take(6) =~= "/image"@);
}

/// The target of a pairing is what follows the command, without the space around
/// it.
pub proof fn law_pair_names_its_target(line: Seq<char>, target: Seq<char>)
    requires
        target.len() > 0,
        !is_space(target[0]),
        !is_space(target.last()),
        target[0] != '/',
        trimmed(line) == "/pair "@ + target,
    ensures
        asked(line) == LineView::Pair(target),
{
    reveal_strlit("/pair ");
    reveal_strlit("/quit");
    let cmd = "/pair "@ + target;
    assert("/pair "@.len() == 6 && "/quit"@.len() == 5);
    assert(cmd.take(6) =~= "/pair "@);
    assert(cmd.skip(6) =~= target);
    if has_prefix(target, "/pair "@) {
        assert(target.take(6)[0] == "/pair "@[0]);
    }
    reveal_with_fuel(stripped, 2);
    let none = Seq::<char>::empty();
    assert(none + target + none =~= target);
    text::law_trimmed(none, target, none);
}

/// A target names a peer by its name, by its device ID or by the beginning of its
/// fingerprint.
pub proof fn law_targets(peer: PeerView, target: Seq<char>, rest: Seq<char>)
    ensures
        peer.info.name == target ==> names(peer, target),
        peer.info.device_id == target ==> names(peer, target),
        peer.info.fingerprint == target + rest ==> names(peer, target),
        names(peer, target) ==> peer.info.name == target || peer.info.device_id == target || exists|
            x: Seq<char>,
        |
            peer.info.fingerprint == #[trigger] (target + x),
{
    assert((target + rest).take(target.len() as int) =~= target);
    if has_prefix(peer.info.fingerprint, target) {
        let x = peer.info.fingerprint.skip(target.len() as int);
        assert(peer.info.fingerprint =~= target + x);
    }
}

/// A text is printed on one line: control characters become dots, and everything
/// else stays. What is longer than the limit is cut, and its size in bytes is
/// told.
pub proof fn law_printed_text(s: Seq<char>, i: int)
    requires
        0 <= i < s.len(),
        i < 60,
    ensures
        s.len() <= 60 ==> printed(s).len() == s.len(),
        is_control(s[i]) ==> printed(s)[i] == '·',
        !is_control(s[i]) ==> printed(s)[i] == s[i],
        s.len() > 60 ==> printed(s).skip(60) == "… ("@ + decimal_text(encode_utf8(s).len())
            + " 字节)"@,
{
    if s.len() > 60 {
        assert(printed(s).skip(60) =~= "… ("@ + decimal_text(encode_utf8(s).len()) + " 字节)"@);
    }
}

/// Nothing is accepted but a pairing request, and that only when asked to; nothing
/// is written but remote content, as it came and under its hash, and that only
/// when the clipboard is in use.
pub proof fn law_reactions(
    event: EngineEventView,
    auto_accept: bool,
    use_clipboard: bool,
    addrs: Seq<char>,
)
    ensures
        ({
            let r = reaction(event, auto_accept, use_clipboard, addrs);
            &&& r.accept is Some ==> auto_accept && event is PairRequested
            &&& event matches EngineEventView::PairRequested { peer } ==> (auto_accept ==> r.accept
                == Some(peer.fingerprint)) && (!auto_accept ==> r.accept is None)
            &&& r.write is Some ==> use_clipboard && event is ApplyRemote
            &&& event matches EngineEventView::ApplyRemote { content, from, timestamp_ms, hash }
                ==> (use_clipboard && !(content is ImageUnread) ==> r.write == Some((content, hash)))
        }),
{
}

proof fn lemma_pieces_add(a: Seq<char>, space: char, b: Seq<char>)
    requires
        is_space(space),
    ensures
        pieces(a.push(space) + b) == pieces(a) + pieces(b),
        pieces(b).len() > 0,
    decreases b.len(),
{
    let whole = a.push(space) + b;
    if b.len() == 0 {
        assert(whole =~= a.push(space));
        assert(whole.drop_last() =~= a);
        assert(pieces(whole) =~= pieces(a) + pieces(b));
    } else {
        let rest = b.drop_last();
        assert(whole.drop_last() =~= a.push(space) + rest);
        assert(whole.last() == b.last());
        lemma_pieces_add(a, space, rest);
        let x = pieces(a);
        let y = pieces(rest);
        assert((x + y).last() == y.last());
        assert((x + y).drop_last() =~= x + y.drop_last());
        assert(pieces(whole) =~= pieces(a) + pieces(b));
    }
}

proof fn lemma_kept_add(x: Seq<Seq<char>>, y: Seq<Seq<char>>)
    ensures
        kept_words(x + y) == kept_words(x) + kept_words(y),
    decreases y.len(),
{
    if y.len() == 0 {
        assert(x + y =~= x);
        assert(kept_words(x) + kept_words(y) =~= kept_words(x));
    } else {
        assert((x + y).drop_last() =~= x + y.drop_last());
        assert((x + y).last() == y.last());
        lemma_kept_add(x, y.drop_last());
        assert(kept_words(x + y) =~= kept_words(x) + kept_words(y));
    }
}

proof fn lemma_one_piece(word: Seq<char>)
    requires
        forall|i: int| 0 <= i < word.len() ==> !is_space(#[trigger] word[i]),
    ensures
        pieces(word) == seq![word],
    decreases word.len(),
{
    if word.len() > 0 {
        let rest = word.drop_last();
        assert(!is_space(word[word.len() - 1]));
        lemma_one_piece(rest);
        assert(rest.push(word.last()) =~= word);
        assert(pieces(word) =~= seq![word]);
    } else {
        assert(word =~= Seq::<char>::empty());
        assert(pieces(word) =~= seq![word]);
    }
}

/// Words are told apart by white space, however much of it: the words of a text
/// are those on either side of a space, in their order, and what holds no space is
/// one word.
pub proof fn law_words(a: Seq<char>, space: char, b: Seq<char>, word: Seq<char>)
    requires
        is_space(space),
        forall|i: int| 0 <= i < word.len() ==> !is_space(#[trigger] word[i]),
    ensures
        words_of(a.push(space) + b) == words_of(a) + words_of(b),
        word.len() > 0 ==> words_of(word) == seq![word],
        word.len() == 0 ==> words_of(word).len() == 0,
{
    lemma_pieces_add(a, space, b);
    lemma_kept_add(pieces(a), pieces(b));
    lemma_one_piece(word);
    assert(seq![word].drop_last() =~= Seq::<Seq<char>>::empty());
    reveal_with_fuel(kept_words, 2);
    assert(seq![word].last() == word);
    if word.len() > 0 {
        assert(words_of(word) =~= seq![word]);
    }
}

/// The files of a command are the words behind it.
pub proof fn law_file_command_lists_its_words(line: Seq<char>, rest: Seq<char>)
    requires
        trimmed(line) == "/file "@ + rest,
        rest.len() > 0,
        rest[0] != '/',
    ensures
        words_of(rest).len() > 0 ==> asked(line) == LineView::Files(words_of(rest)),
        words_of(rest).len() == 0 ==> asked(line) == LineView::FilesUsage,
{
    reveal_strlit("/file ");
    reveal_strlit("/pair ");
    reveal_strlit("/image");
    reveal_strlit("/quit");
    reveal_strlit("/y");
    reveal_strlit("/n");
    reveal_strlit("/peers");
    reveal_strlit("/paired");
    let cmd = "/file "@ + rest;
    assert("/file "@.len() == 6 && "/pair "@.len() == 6 && "/image"@.len() == 6);
    assert(cmd[1] == 'f');
    assert("/pair "@[1] == 'p' && "/image"@[1] == 'i' && "/quit"@[1] == 'q' && "/y"@[1] == 'y'
        && "/n"@[1] == 'n' && "/peers"@[1] == 'p' && "/paired"@[1] == 'p');
    if has_prefix(cmd, "/pair "@) {
        assert(cmd.take(6)[1] == "/pair "@[1]);
    }
    if has_prefix(cmd, "/image"@) {
        assert(cmd.take(6)[1] == "/image"@[1]);
    }
    assert(cmd.take(6) =~= "/file "@);
    assert(cmd.skip(6) =~= rest);
    if has_prefix(rest, "/file "@) {
        assert(rest.take(6)[0] == "/file "@[0]);
    }
    reveal_with_fuel(stripped, 2);
}

/// A watched change is told by its kind, by what it is, and by the beginning of its
/// hash.
pub proof fn law_watched_line(content: ContentView, hash: Seq<char>, paths: Seq<char>)
    ensures
        content matches ContentView::Text(t) ==> watched(content, hash, paths) == "["@ + "text"@
            + "] "@ + printed(t) + " hash="@ + head(hash, 8),
        content is Files ==> watched(content, hash, paths) == "["@ + "files"@ + "] "@ + paths
            + " hash="@ + head(hash, 8),
{
}

/// The peer that a target finds is one that it names, and no earlier one is.
pub proof fn law_first_named(peers: Seq<PeerView>, target: Seq<char>, i: int, peer: PeerView)
    ensures
        0 <= i < peers.len() && names(peers[i], target) && (forall|j: int|
            0 <= j < i ==> !names(#[trigger] peers[j], target)) ==> first_named(
            peers,
            target,
            peers[i],
        ),
        first_named(peers, target, peer) ==> names(peer, target) && peers.contains(peer)
            && !none_named(peers, target),
{
    if first_named(peers, target, peer) {
        let k = choose|k: int|
            0 <= k < peers.len() && peer == (#[trigger] peers[k]) && names(peer, target) && forall|
                j: int,
            |
                0 <= j < k ==> !names(#[trigger] peers[j], target);
        assert(names(peers[k], target));
    }
}

} // verus!

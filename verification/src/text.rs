//! Text primitives: strings as sequences of characters.

use vstd::prelude::*;

verus! {

/// `String::push` appends the given character at the end.
pub assume_specification[ String::push ](s: &mut String, c: char)
    ensures
        final(s)@ == old(s)@.push(c),
;

/// What the values of a sequence stand for.
pub open spec fn views<T: View>(s: Seq<T>) -> Seq<T::V> {
    s.map_values(|x: T| x@)
}

/// What an optional value stands for.
pub open spec fn opt_view<T: View>(o: Option<T>) -> Option<T::V> {
    match o {
        Some(x) => Some(x@),
        None => None,
    }
}

/// A copy of an optional text.
pub fn clone_opt(o: &Option<String>) -> (r: Option<String>)
    ensures
        r == *o,
{
    match o {
        Some(s) => Some(s.clone()),
        None => None,
    }
}

/// A copy of a list of texts.
pub fn clone_all(v: &Vec<String>) -> (r: Vec<String>)
    ensures
        r@ == v@,
{
    let mut out: Vec<String> = Vec::new();
    let mut i: usize = 0;
    while i < v.len()
        invariant
            i <= v.len(),
            out@ == v@.take(i as int),
        decreases v.len() - i,
    {
        proof {
            assert(v@.take(i + 1) =~= v@.take(i as int).push(v@[i as int]));
        }
        out.push(v[i].clone());
        i += 1;
    }
    proof {
        assert(v@.take(v.len() as int) =~= v@);
    }
    out
}

/// The characters of a string, in order.
pub fn chars_of(s: &str) -> (r: Vec<char>)
    ensures
        r@ == s@,
{
    let mut out: Vec<char> = Vec::new();
    for c in it: s.chars()
        invariant
            out@ == it.seq().take(it.index()),
            it.seq() == s@,
    {
        proof {
            assert(it.seq().take(it.index() + 1) =~= it.seq().take(it.index()).push(c));
        }
        out.push(c);
    }
    proof {
        assert(out@ =~= s@);
    }
    out
}

/// The string made of the given characters, in order.
pub fn string_of(chars: &[char]) -> (r: String)
    ensures
        r@ == chars@,
{
    let mut out = String::new();
    let mut i: usize = 0;
    while i < chars.len()
        invariant
            i <= chars.len(),
            out@ == chars@.take(i as int),
        decreases chars.len() - i,
    {
        proof {
            assert(chars@.take(i + 1) =~= chars@.take(i as int).push(chars@[i as int]));
        }
        out.push(chars[i]);
        i += 1;
    }
    proof {
        assert(chars@.take(chars.len() as int) =~= chars@);
    }
    out
}

/// Whether two texts hold the same characters.
pub fn same(a: &str, b: &str) -> (r: bool)
    ensures
        r == (a@ == b@),
{
    a.to_owned() == b.to_owned()
}

/// The decimal digit for a value below ten.
pub open spec fn digit(d: int) -> char {
    (48 + d) as char
}

/// The decimal notation of a natural number, without leading zeros.
pub open spec fn decimal_text(n: nat) -> Seq<char>
    decreases n,
{
    if n < 10 {
        seq![digit(n as int)]
    } else {
        decimal_text(n / 10).push(digit((n % 10) as int))
    }
}

/// Writes a number in decimal notation.
pub fn decimal(n: u64) -> (r: String)
    ensures
        r@ == decimal_text(n as nat),
    decreases n,
{
    let low: u8 = (n % 10) as u8;
    let c: char = (48u8 + low) as char;
    if n < 10 {
        let mut out = String::new();
        out.push(c);
        proof {
            assert(out@ =~= seq![c]);
        }
        out
    } else {
        let mut out = decimal(n / 10);
        out.push(c);
        out
    }
}

/// Appends `tail` to `head`.
pub fn join(head: &str, tail: &str) -> (r: String)
    ensures
        r@ == head@ + tail@,
{
    let mut out = head.to_owned();
    out.append(tail);
    out
}

/// Whether a text ends in another.
pub open spec fn has_suffix(s: Seq<char>, suffix: Seq<char>) -> bool {
    suffix.len() <= s.len() && s.skip(s.len() - suffix.len()) == suffix
}

/// Takes a suffix off a text.
pub fn strip_suffix(s: &str, suffix: &str) -> (r: Option<String>)
    ensures
        match r {
            Some(rest) => has_suffix(s@, suffix@) && rest@ == s@.take(s@.len() - suffix@.len()),
            None => !has_suffix(s@, suffix@),
        },
{
    let x: Vec<char> = chars_of(s);
    let y: Vec<char> = chars_of(suffix);
    if y.len() > x.len() {
        return None;
    }
    let cut: usize = x.len() - y.len();
    let mut i: usize = 0;
    while i < y.len()
        invariant
            x@ == s@,
            y@ == suffix@,
            cut == x.len() - y.len(),
            i <= y.len(),
            forall|j: int| 0 <= j < i ==> x@[cut + j] == y@[j],
        decreases y.len() - i,
    {
        if x[cut + i] != y[i] {
            proof {
                assert(s@.skip(cut as int)[i as int] != suffix@[i as int]);
            }
            return None;
        }
        i += 1;
    }
    proof {
        assert(s@.skip(cut as int) =~= suffix@);
    }
    Some(string_of(vstd::slice::slice_subrange(x.as_slice(), 0, cut)))
}

/// A text without the given characters at its end.
pub open spec fn trimmed_end(s: Seq<char>, drop: spec_fn(char) -> bool) -> Seq<char>
    decreases s.len(),
{
    if s.len() > 0 && drop(s.last()) {
        trimmed_end(s.drop_last(), drop)
    } else {
        s
    }
}

/// Whether a text occurs in another.
pub open spec fn occurs(needle: Seq<char>, s: Seq<char>) -> bool {
    exists|i: int| occurs_at(needle, s, i)
}

/// Whether a text occurs in another at the given place.
pub open spec fn occurs_at(needle: Seq<char>, s: Seq<char>, i: int) -> bool {
    0 <= i && i + needle.len() <= s.len() && s.subrange(i, i + needle.len()) == needle
}

/// Whether `needle` occurs in `s`.
pub fn contains(s: &str, needle: &str) -> (r: bool)
    ensures
        r == occurs(needle@, s@),
{
    let x: Vec<char> = chars_of(s);
    let y: Vec<char> = chars_of(needle);
    if y.len() > x.len() {
        return false;
    }
    let last: usize = x.len() - y.len();
    let mut i: usize = 0;
    while i <= last
        invariant
            x@ == s@,
            y@ == needle@,
            last == x.len() - y.len(),
            i <= last + 1,
            forall|k: int| 0 <= k < i ==> !occurs_at(needle@, s@, k),
        decreases last + 1 - i,
    {
        let mut j: usize = 0;
        while j < y.len() && x[i + j] == y[j]
            invariant
                x@ == s@,
                y@ == needle@,
                i + y.len() <= x.len(),
                j <= y.len(),
                forall|k: int| 0 <= k < j ==> x@[i + k] == y@[k],
            decreases y.len() - j,
        {
            j += 1;
        }
        if j == y.len() {
            proof {
                assert(s@.subrange(i as int, i + needle@.len()) =~= needle@);
                assert(occurs_at(needle@, s@, i as int));
            }
            return true;
        }
        proof {
            if occurs_at(needle@, s@, i as int) {
                assert(s@.subrange(i as int, i + needle@.len())[j as int] == needle@[j as int]);
            }
        }
        i += 1;
    }
    false
}

/// The lowercase form of a text.
pub uninterp spec fn lowercase(s: Seq<char>) -> Seq<char>;

/// `str::to_lowercase`. The result is a function of the text.
#[verifier::external_body]
pub(crate) fn to_lowercase(s: &str) -> (r: String)
    ensures
        r@ == lowercase(s@),
{
    s.to_lowercase()
}

/// The texts in order, with a separator between any two.
pub open spec fn separated(texts: Seq<Seq<char>>, separator: Seq<char>) -> Seq<char>
    decreases texts.len(),
{
    if texts.len() == 0 {
        Seq::empty()
    } else if texts.len() == 1 {
        texts[0]
    } else {
        separated(texts.drop_last(), separator) + separator + texts.last()
    }
}

/// Writes the texts in order, with a separator between any two.
pub fn separate(texts: &Vec<String>, separator: &str) -> (r: String)
    ensures
        r@ == separated(views(texts@), separator@),
{
    let mut out = String::new();
    let mut i: usize = 0;
    let ghost all = views(texts@);
    while i < texts.len()
        invariant
            i <= texts.len(),
            all == views(texts@),
            out@ == separated(all.take(i as int), separator@),
        decreases texts.len() - i,
    {
        proof {
            assert(all.take(i + 1).drop_last() =~= all.take(i as int));
            assert(all[i as int] == texts@[i as int]@);
        }
        if i > 0 {
            out.append(separator);
        }
        out.append(texts[i].as_str());
        proof {
            if i == 0 {
                assert(out@ =~= texts@[0]@);
            }
        }
        i += 1;
    }
    proof {
        assert(all.take(texts.len() as int) =~= all);
    }
    out
}

/// The first characters of a text, at most `n`.
pub open spec fn head(s: Seq<char>, n: nat) -> Seq<char> {
    if s.len() <= n {
        s
    } else {
        s.take(n as int)
    }
}

/// The first characters of a text, at most `n`.
pub fn head_of(s: &[char], n: usize) -> (r: String)
    ensures
        r@ == head(s@, n as nat),
{
    if s.len() <= n {
        string_of(s)
    } else {
        string_of(vstd::slice::slice_subrange(s, 0, n))
    }
}

/// The characters of the Unicode property White_Space.
pub open spec fn is_space(c: char) -> bool {
    ('\u{9}' <= c && c <= '\u{d}') || c == ' ' || c == '\u{85}' || c == '\u{a0}' || c == '\u{1680}' || (
    '\u{2000}' <= c && c <= '\u{200a}') || c == '\u{2028}' || c == '\u{2029}' || c == '\u{202f}' || c
        == '\u{205f}' || c == '\u{3000}'
}

/// Whether the character is white space.
pub fn space(c: char) -> (r: bool)
    ensures
        r == is_space(c),
{
    ('\u{9}' <= c && c <= '\u{d}') || c == ' ' || c == '\u{85}' || c == '\u{a0}' || c == '\u{1680}' || (
    '\u{2000}' <= c && c <= '\u{200a}') || c == '\u{2028}' || c == '\u{2029}' || c == '\u{202f}' || c
        == '\u{205f}' || c == '\u{3000}'
}

/// A text without the white space at its end.
pub open spec fn space_ended(s: Seq<char>) -> Seq<char>
    decreases s.len(),
{
    if s.len() > 0 && is_space(s.last()) {
        space_ended(s.drop_last())
    } else {
        s
    }
}

/// A text without the white space at its start.
pub open spec fn space_started(s: Seq<char>) -> Seq<char>
    decreases s.len(),
{
    if s.len() > 0 && is_space(s[0]) {
        space_started(s.drop_first())
    } else {
        s
    }
}

/// A text without the white space around it.
pub open spec fn trimmed(s: Seq<char>) -> Seq<char> {
    space_started(space_ended(s))
}

/// Takes the white space around a text off.
pub fn trim(s: &str) -> (r: String)
    ensures
        r@ == trimmed(s@),
{
    let chars: Vec<char> = chars_of(s);
    trim_chars(chars.as_slice())
}

/// Takes the white space around a text off.
pub fn trim_chars(chars: &[char]) -> (r: String)
    ensures
        r@ == trimmed(chars@),
{
    let mut end: usize = chars.len();
    proof {
        assert(chars@.take(end as int) =~= chars@);
    }
    while end > 0 && space(chars[end - 1])
        invariant
            end <= chars.len(),
            space_ended(chars@.take(end as int)) == space_ended(chars@),
        decreases end,
    {
        proof {
            assert(chars@.take(end as int).drop_last() =~= chars@.take(end - 1));
        }
        end -= 1;
    }
    let ghost cut = chars@.take(end as int);
    proof {
        if end > 0 {
            assert(cut.last() == chars@[end - 1]);
        }
        assert(space_ended(chars@) == cut);
        assert(cut.skip(0) =~= cut);
    }
    let mut start: usize = 0;
    while start < end && space(chars[start])
        invariant
            start <= end,
            end <= chars.len(),
            cut == chars@.take(end as int),
            space_started(cut.skip(start as int)) == space_started(cut),
        decreases end - start,
    {
        proof {
            assert(cut.skip(start as int).drop_first() =~= cut.skip(start + 1));
        }
        start += 1;
    }
    let kept = vstd::slice::slice_subrange(chars, start, end);
    proof {
        assert(kept@ =~= cut.skip(start as int));
    }
    string_of(kept)
}

proof fn lemma_space_ended(s: Seq<char>, behind: Seq<char>)
    requires
        forall|i: int| 0 <= i < behind.len() ==> is_space(#[trigger] behind[i]),
        s.len() > 0 ==> !is_space(s.last()),
    ensures
        space_ended(s + behind) == s,
    decreases behind.len(),
{
    let all = s + behind;
    if behind.len() > 0 {
        assert(all.last() == behind[behind.len() - 1]);
        assert(all.drop_last() =~= s + behind.drop_last());
        lemma_space_ended(s, behind.drop_last());
    } else {
        assert(all =~= s);
    }
}

proof fn lemma_space_started(before: Seq<char>, s: Seq<char>)
    requires
        forall|i: int| 0 <= i < before.len() ==> is_space(#[trigger] before[i]),
        s.len() > 0 ==> !is_space(s[0]),
    ensures
        space_started(before + s) == s,
    decreases before.len(),
{
    let all = before + s;
    if before.len() > 0 {
        assert(all[0] == before[0]);
        assert(all.drop_first() =~= before.drop_first() + s);
        lemma_space_started(before.drop_first(), s);
    } else {
        assert(all =~= s);
    }
}

/// Trimming takes the white space around a text off and leaves the text.
pub proof fn law_trimmed(before: Seq<char>, body: Seq<char>, behind: Seq<char>)
    requires
        forall|i: int| 0 <= i < before.len() ==> is_space(#[trigger] before[i]),
        forall|i: int| 0 <= i < behind.len() ==> is_space(#[trigger] behind[i]),
        body.len() > 0 ==> !is_space(body[0]) && !is_space(body.last()),
    ensures
        trimmed(before + body + behind) == body,
{
    if body.len() == 0 {
        let all = before + behind;
        assert(before + body + behind =~= Seq::<char>::empty() + all);
        assert forall|i: int| 0 <= i < all.len() implies is_space(#[trigger] all[i]) by {
            if i < before.len() {
                assert(all[i] == before[i]);
            } else {
                assert(all[i] == behind[i - before.len()]);
            }
        }
        lemma_space_ended(Seq::empty(), all);
        assert(body =~= Seq::<char>::empty());
    } else {
        let s = before + body;
        assert(s.last() == body.last());
        lemma_space_ended(s, behind);
        lemma_space_started(before, body);
    }
}

/// A number is written in decimal digits, the last digit last.
pub proof fn law_decimal(n: nat, d: nat)
    requires
        d < 10,
    ensures
        decimal_text(d) == seq![('0' as int + d) as char],
        n > 0 ==> decimal_text(n * 10 + d) == decimal_text(n).push(('0' as int + d) as char),
{
    assert((n * 10 + d) / 10 == n);
    assert((n * 10 + d) % 10 == d);
}

/// A text occurs in another exactly when the other is it with something around
/// it.
pub proof fn law_occurrence(needle: Seq<char>, before: Seq<char>, behind: Seq<char>, s: Seq<char>)
    ensures
        occurs(needle, before + needle + behind),
        occurs(needle, s) ==> exists|a: Seq<char>, b: Seq<char>| s == #[trigger] (a + needle + b),
        has_suffix(before + needle, needle),
        has_suffix(s, needle) ==> exists|a: Seq<char>| s == #[trigger] (a + needle),
{
    let all = before + needle + behind;
    let n = before.len() as int;
    assert(all.subrange(n, n + needle.len()) =~= needle);
    assert(occurs_at(needle, all, n));
    assert((before + needle).skip(n) =~= needle);
    if occurs(needle, s) {
        let i = choose|i: int| occurs_at(needle, s, i);
        let a = s.take(i);
        let b = s.skip(i + needle.len());
        assert(s =~= a + needle + b);
    }
    if has_suffix(s, needle) {
        let a = s.take(s.len() - needle.len());
        assert(s =~= a + needle);
    }
}

/// The head of a text is the text up to the limit.
pub proof fn law_head(s: Seq<char>, n: nat)
    ensures
        s.len() <= n ==> head(s, n) == s,
        s.len() > n ==> head(s, n) == s.take(n as int) && head(s, n).len() == n,
{
}

/// Texts are put together in their order, with the separator between any two.
pub proof fn law_separated(texts: Seq<Seq<char>>, more: Seq<char>, separator: Seq<char>)
    ensures
        separated(Seq::empty(), separator).len() == 0,
        texts.len() == 0 ==> separated(texts.push(more), separator) == more,
        texts.len() > 0 ==> separated(texts.push(more), separator) == separated(texts, separator)
            + separator + more,
{
    assert(texts.push(more).drop_last() =~= texts);
}

} // verus!

//! File name patterns: `*`, `?` and `[..]` classes, whatever the case of the
//! letters.

use vstd::prelude::*;
use crate::text;

verus! {

/// The lowercase form of one character; it may be several characters.
pub uninterp spec fn char_lowercase(c: char) -> Seq<char>;

/// `char::to_lowercase`. The result is a function of the character.
#[verifier::external_body]
fn char_to_lowercase(c: char) -> (r: Vec<char>)
    ensures
        r@ == char_lowercase(c),
{
    c.to_lowercase().collect()
}

/// A text with every character in lowercase.
pub open spec fn folded(s: Seq<char>) -> Seq<char>
    decreases s.len(),
{
    if s.len() == 0 {
        Seq::empty()
    } else {
        folded(s.drop_last()) + char_lowercase(s.last())
    }
}

/// Puts every character in lowercase.
fn fold(s: &str) -> (r: Vec<char>)
    ensures
        r@ == folded(s@),
{
    let chars: Vec<char> = text::chars_of(s);
    let mut out: Vec<char> = Vec::new();
    let mut i: usize = 0;
    while i < chars.len()
        invariant
            i <= chars.len(),
            chars@ == s@,
            out@ == folded(s@.take(i as int)),
        decreases chars.len() - i,
    {
        let mut lower = char_to_lowercase(chars[i]);
        out.append(&mut lower);
        proof {
            assert(s@.take(i + 1).drop_last() =~= s@.take(i as int));
        }
        i += 1;
    }
    proof {
        assert(s@.take(chars.len() as int) =~= s@);
    }
    out
}

/// A parsed class: its members as ranges, and the place behind its closing
/// bracket.
#[verifier::ext_equal]
pub struct Class {
    pub ranges: Seq<(char, char)>,
    pub end: int,
}

/// The class whose members go on at place `i`. A bracket in the leading place
/// is a member, and a `-` before the closing bracket is one too. Nothing when
/// the class never closes.
pub open spec fn class_members(p: Seq<char>, i: int, first: bool) -> Option<Class>
    decreases p.len() - i,
{
    if i < 0 || i >= p.len() {
        None
    } else if p[i] == ']' && !first {
        Some(Class { ranges: Seq::empty(), end: i + 1 })
    } else if i + 2 < p.len() && p[i + 1] == '-' && p[i + 2] != ']' {
        match class_members(p, i + 3, false) {
            Some(rest) => Some(
                Class { ranges: seq![(p[i], p[i + 2])] + rest.ranges, end: rest.end },
            ),
            None => None,
        }
    } else {
        match class_members(p, i + 1, false) {
            Some(rest) => Some(Class { ranges: seq![(p[i], p[i])] + rest.ranges, end: rest.end }),
            None => None,
        }
    }
}

/// Whether the class at the start of the pattern is a negated one.
pub open spec fn is_negated(p: Seq<char>, open: int) -> bool {
    open + 1 < p.len() && (p[open + 1] == '!' || p[open + 1] == '^')
}

/// The members and the end of the class that opens at the given place.
pub open spec fn class_at(p: Seq<char>, open: int) -> Option<Class> {
    class_members(
        p,
        if is_negated(p, open) {
            open + 2
        } else {
            open + 1
        },
        true,
    )
}

/// Whether a character lies in one of the ranges.
pub open spec fn in_ranges(ranges: Seq<(char, char)>, c: char) -> bool {
    exists|k: int| 0 <= k < ranges.len() && (#[trigger] ranges[k]).0 <= c && c <= ranges[k].1
}

/// Whether a character belongs to the class that opens at the given place.
pub open spec fn in_class(p: Seq<char>, open: int, c: char) -> bool {
    match class_at(p, open) {
        Some(class) => in_ranges(class.ranges, c) != is_negated(p, open),
        None => false,
    }
}

/// The place behind the pattern element at place `i`, for an element that
/// takes exactly one character.
pub open spec fn after(p: Seq<char>, i: int) -> Option<int> {
    if i < 0 || i >= p.len() || p[i] == '*' {
        None
    } else if p[i] == '[' {
        match class_at(p, i) {
            Some(class) => Some(class.end),
            None => None,
        }
    } else {
        Some(i + 1)
    }
}

/// Whether the pattern element at place `i` takes the character.
pub open spec fn takes(p: Seq<char>, i: int, c: char) -> bool {
    if p[i] == '?' {
        true
    } else if p[i] == '[' {
        in_class(p, i, c)
    } else {
        p[i] == c
    }
}

/// Whether the pattern from place `i` on matches the text from place `j` on.
pub open spec fn matches_from(p: Seq<char>, i: int, t: Seq<char>, j: int) -> bool
    decreases p.len() - i, t.len() - j,
{
    if i < 0 || j < 0 || i > p.len() || j > t.len() {
        false
    } else if i == p.len() {
        j == t.len()
    } else if p[i] == '*' {
        matches_from(p, i + 1, t, j) || (j < t.len() && matches_from(p, i, t, j + 1))
    } else {
        match after(p, i) {
            Some(next) => j < t.len() && i < next <= p.len() && takes(p, i, t[j]) && matches_from(p, next, t, j + 1),
            None => false,
        }
    }
}

/// Whether the pattern matches the text: `*` takes any run of characters, `?`
/// any one character, a class any of its members, anything else itself. A
/// class that never closes matches nothing.
pub open spec fn glob_matches(p: Seq<char>, t: Seq<char>) -> bool {
    matches_from(p, 0, t, 0)
}

proof fn lemma_class_end(p: Seq<char>, i: int, first: bool)
    ensures
        class_members(p, i, first) is Some ==> i < class_members(p, i, first)->0.end <= p.len(),
    decreases p.len() - i,
{
    if 0 <= i && i < p.len() && !(p[i] == ']' && !first) {
        if i + 2 < p.len() && p[i + 1] == '-' && p[i + 2] != ']' {
            lemma_class_end(p, i + 3, false);
        } else {
            lemma_class_end(p, i + 1, false);
        }
    }
}

proof fn lemma_after(p: Seq<char>, i: int)
    ensures
        after(p, i) is Some ==> i < after(p, i)->0 <= p.len(),
{
    lemma_class_end(p, i + 1, true);
    lemma_class_end(p, i + 2, true);
}

/// Matches one character against the class that opens at `open`: whether it
/// belongs, and the place behind the closing bracket. Nothing when the class
/// never closes.
pub fn match_class(pattern: &[char], open: usize, ch: char) -> (r: Option<(bool, usize)>)
    requires
        open < pattern.len(),
    ensures
        match class_at(pattern@, open as int) {
            Some(class) => r == Some((in_class(pattern@, open as int, ch), class.end as usize)) && class.end
                <= pattern.len(),
            None => r is None,
        },
{
    let ghost p = pattern@;
    let negated = open + 1 < pattern.len() && (pattern[open + 1] == '!' || pattern[open + 1] == '^');
    let mut i: usize = open + 1;
    if negated {
        i += 1;
    }
    let ghost start = i as int;
    let ghost mut done: Seq<(char, char)> = Seq::empty();
    let mut matched: bool = false;
    let mut first: bool = true;
    proof {
        match class_members(p, start, true) {
            Some(class) => {
                assert(done + class.ranges =~= class.ranges);
            },
            None => {},
        }
    }
    while i < pattern.len()
        invariant
            p == pattern@,
            0 <= start <= i,
            negated == is_negated(p, open as int),
            class_at(p, open as int) == class_members(p, start, true),
            matched == in_ranges(done, ch),
            class_members(p, start, true) == (match class_members(p, i as int, first) {
                Some(class) => Some(Class { ranges: done + class.ranges, end: class.end }),
                None => None,
            }),
        decreases pattern.len() - i,
    {
        let c: char = pattern[i];
        if c == ']' && !first {
            proof {
                assert(done + Seq::<(char, char)>::empty() =~= done);
                lemma_class_end(p, start, true);
            }
            return Some((matched != negated, i + 1));
        }
        let ghost was = done;
        if pattern.len() - i > 2 && pattern[i + 1] == '-' && pattern[i + 2] != ']' {
            let end: char = pattern[i + 2];
            proof {
                done = was.push((c, end));
                lemma_ranges_push(was, (c, end), ch);
                match class_members(p, i + 3, false) {
                    Some(class) => {
                        assert(was + (seq![(c, end)] + class.ranges) =~= done + class.ranges);
                    },
                    None => {},
                }
            }
            if c <= ch && ch <= end {
                matched = true;
            }
            i += 3;
        } else {
            proof {
                done = was.push((c, c));
                lemma_ranges_push(was, (c, c), ch);
                match class_members(p, i + 1, false) {
                    Some(class) => {
                        assert(was + (seq![(c, c)] + class.ranges) =~= done + class.ranges);
                    },
                    None => {},
                }
            }
            if c == ch {
                matched = true;
            }
            i += 1;
        }
        first = false;
    }
    None
}

proof fn lemma_ranges_push(ranges: Seq<(char, char)>, range: (char, char), c: char)
    ensures
        in_ranges(ranges.push(range), c) == (in_ranges(ranges, c) || (range.0 <= c && c <= range.1)),
{
    let all = ranges.push(range);
    if in_ranges(ranges, c) {
        let k = choose|k: int| 0 <= k < ranges.len() && (#[trigger] ranges[k]).0 <= c && c <= ranges[k].1;
        assert(all[k] == ranges[k]);
    }
    if range.0 <= c && c <= range.1 {
        assert(all[ranges.len() as int] == range);
    }
    if in_ranges(all, c) {
        let k = choose|k: int| 0 <= k < all.len() && (#[trigger] all[k]).0 <= c && c <= all[k].1;
        if k < ranges.len() {
            assert(ranges[k] == all[k]);
        }
    }
}

/// The place that `n` elements of one character each lead to.
spec fn walk(p: Seq<char>, from: int, n: int) -> Option<int>
    decreases n,
{
    if n <= 0 {
        Some(from)
    } else {
        match walk(p, from, n - 1) {
            Some(i) => after(p, i),
            None => None,
        }
    }
}

/// A match goes through every place that the elements lead to.
proof fn lemma_walk(p: Seq<char>, from: int, n: int, t: Seq<char>, j: int)
    requires
        0 <= n,
        walk(p, from, n) is Some,
        matches_from(p, from, t, j),
    ensures
        j + n <= t.len(),
        matches_from(p, walk(p, from, n)->0, t, j + n),
    decreases n,
{
    if n > 0 {
        lemma_walk(p, from, n - 1, t, j);
        let i = walk(p, from, n - 1)->0;
        assert(matches_from(p, i, t, j + n - 1));
        assert(after(p, i) is Some);
    }
}

/// Whether the pattern matches from some later place of the text.
spec fn later(p: Seq<char>, i: int, t: Seq<char>, from: int) -> bool {
    exists|k: int| from <= k && #[trigger] matches_from(p, i, t, k)
}

/// A star takes any run of characters.
proof fn lemma_star(p: Seq<char>, i: int, t: Seq<char>, j: int)
    requires
        0 <= i < p.len(),
        0 <= j <= t.len(),
        p[i] == '*',
    ensures
        matches_from(p, i, t, j) == later(p, i + 1, t, j),
    decreases t.len() - j,
{
    if j < t.len() {
        lemma_star(p, i, t, j + 1);
        if later(p, i + 1, t, j + 1) {
            let k = choose|k: int| j + 1 <= k && #[trigger] matches_from(p, i + 1, t, k);
            assert(later(p, i + 1, t, j));
        }
        if matches_from(p, i + 1, t, j) {
            assert(later(p, i + 1, t, j));
        }
        if later(p, i + 1, t, j) {
            let k = choose|k: int| j <= k && #[trigger] matches_from(p, i + 1, t, k);
            if k > j {
                assert(later(p, i + 1, t, j + 1));
            }
        }
    } else {
        if later(p, i + 1, t, j) {
            let k = choose|k: int| j <= k && #[trigger] matches_from(p, i + 1, t, k);
            assert(k == j);
        }
        if matches_from(p, i + 1, t, j) {
            assert(later(p, i + 1, t, j));
        }
    }
}

/// At the end of the text only stars may be left.
proof fn lemma_text_end(p: Seq<char>, i: int, t: Seq<char>)
    requires
        0 <= i <= p.len(),
    ensures
        matches_from(p, i, t, t.len() as int) == forall|k: int| i <= k < p.len() ==> #[trigger] p[k] == '*',
    decreases p.len() - i,
{
    if i < p.len() {
        lemma_text_end(p, i + 1, t);
        if p[i] == '*' {
            assert(matches_from(p, i, t, t.len() as int) == matches_from(p, i + 1, t, t.len() as int));
        }
    }
}

/// Whether the lowercase pattern matches the lowercase text.
pub fn glob_match_chars(pattern: &[char], text: &[char]) -> (r: bool)
    ensures
        r == glob_matches(pattern@, text@),
{
    let ghost pp = pattern@;
    let ghost tt = text@;
    let mut p: usize = 0;
    let mut t: usize = 0;
    let mut has_star: bool = false;
    let mut star_p: usize = 0;
    let mut star_t: usize = 0;
    while t < text.len()
        invariant
            pp == pattern@,
            tt == text@,
            p <= pattern.len(),
            t <= text.len(),
            !has_star ==> glob_matches(pp, tt) == matches_from(pp, p as int, tt, t as int),
            has_star ==> {
                &&& star_p < p
                &&& star_t <= t
                &&& pp[star_p as int] == '*'
                &&& walk(pp, star_p + 1, t - star_t) == Some(p as int)
                &&& glob_matches(pp, tt) == (matches_from(pp, p as int, tt, t as int) || later(
                    pp,
                    star_p + 1,
                    tt,
                    star_t + 1,
                ))
            },
        decreases
                if has_star {
                    text.len() - star_t
                } else {
                    text.len() + 1
                },
                pattern.len() - p,
    {
        let ghost held = matches_from(pp, p as int, tt, t as int);
        if p < pattern.len() {
            if pattern[p] == '*' {
                proof {
                    lemma_star(pp, p as int, tt, t as int);
                    if has_star && later(pp, star_p + 1, tt, star_t + 1) {
                        let k = choose|k: int|
                            star_t + 1 <= k && #[trigger] matches_from(pp, star_p + 1, tt, k);
                        let n = t - star_t;
                        lemma_walk(pp, star_p + 1, n, tt, k);
                        lemma_star(pp, p as int, tt, k + n);
                        let m = choose|m: int|
                            k + n <= m && #[trigger] matches_from(pp, p + 1, tt, m);
                        assert(matches_from(pp, p + 1, tt, m) && t <= m);
                        assert(later(pp, p + 1, tt, t as int));
                    }
                    assert(glob_matches(pp, tt) == later(pp, p + 1, tt, t as int));
                    assert(later(pp, p + 1, tt, t as int) == (matches_from(pp, p + 1, tt, t as int)
                        || later(pp, p + 1, tt, t + 1))) by {
                        if later(pp, p + 1, tt, t as int) {
                            let m = choose|m: int| t <= m && #[trigger] matches_from(pp, p + 1, tt, m);
                            if m > t {
                                assert(later(pp, p + 1, tt, t + 1));
                            }
                        }
                        if later(pp, p + 1, tt, t + 1) {
                            let m = choose|m: int|
                                t + 1 <= m && #[trigger] matches_from(pp, p + 1, tt, m);
                            assert(later(pp, p + 1, tt, t as int));
                        }
                    }
                }
                has_star = true;
                star_p = p;
                star_t = t;
                p += 1;
                continue ;
            }
            proof {
                lemma_after(pp, p as int);
                if has_star {
                    assert(walk(pp, star_p + 1, t + 1 - star_t) == after(pp, p as int));
                }
            }
            if pattern[p] == '[' {
                match match_class(pattern, p, text[t]) {
                    Some((hit, next)) => {
                        if hit {
                            p = next;
                            t += 1;
                            continue ;
                        }
                    },
                    None => {},
                }
            } else if pattern[p] == '?' || pattern[p] == text[t] {
                p += 1;
                t += 1;
                continue ;
            }
        }
        proof {
            assert(!held);
        }
        if !has_star {
            return false;
        }
        proof {
            assert(later(pp, star_p + 1, tt, star_t + 1) == (matches_from(
                pp,
                star_p + 1,
                tt,
                star_t + 1,
            ) || later(pp, star_p + 1, tt, star_t + 2))) by {
                if later(pp, star_p + 1, tt, star_t + 1) {
                    let m = choose|m: int|
                        star_t + 1 <= m && #[trigger] matches_from(pp, star_p + 1, tt, m);
                    if m > star_t + 1 {
                        assert(later(pp, star_p + 1, tt, star_t + 2));
                    }
                }
                if later(pp, star_p + 1, tt, star_t + 2) {
                    let m = choose|m: int|
                        star_t + 2 <= m && #[trigger] matches_from(pp, star_p + 1, tt, m);
                    assert(later(pp, star_p + 1, tt, star_t + 1));
                }
            }
        }
        p = star_p + 1;
        t = star_t + 1;
        star_t = star_t + 1;
    }
    proof {
        lemma_text_end(pp, p as int, tt);
        if has_star && later(pp, star_p + 1, tt, star_t + 1) {
            let k = choose|k: int| star_t + 1 <= k && #[trigger] matches_from(pp, star_p + 1, tt, k);
            lemma_walk(pp, star_p + 1, t - star_t, tt, k);
        }
    }
    while p < pattern.len()
        invariant
            pp == pattern@,
            tt == text@,
            p <= pattern.len(),
            glob_matches(pp, tt) == forall|k: int| p <= k < pp.len() ==> #[trigger] pp[k] == '*',
        decreases pattern.len() - p,
    {
        if pattern[p] != '*' {
            return false;
        }
        p += 1;
    }
    true
}

/// Whether the pattern matches the text, whatever the case of the letters.
pub fn glob_match(pattern: &str, text: &str) -> (r: bool)
    ensures
        r == glob_matches(folded(pattern@), folded(text@)),
{
    let p = fold(pattern);
    let t = fold(text);
    glob_match_chars(p.as_slice(), t.as_slice())
}

/// `*` alone matches every text.
pub proof fn law_star_matches_all(t: Seq<char>)
    ensures
        glob_matches(seq!['*'], t),
{
    let p = seq!['*'];
    lemma_star(p, 0, t, 0);
    assert(matches_from(p, 1, t, t.len() as int));
    assert(later(p, 1, t, 0));
}

/// A pattern without wildcards matches itself and nothing else.
pub proof fn law_plain_pattern_matches_itself(p: Seq<char>, t: Seq<char>)
    requires
        forall|i: int| 0 <= i < p.len() ==> #[trigger] p[i] != '*' && p[i] != '?' && p[i] != '[',
    ensures
        glob_matches(p, t) == (p == t),
{
    lemma_plain(p, t, 0);
    assert(p.skip(0) =~= p);
    assert(t.skip(0) =~= t);
}

proof fn lemma_plain(p: Seq<char>, t: Seq<char>, i: int)
    requires
        forall|i: int| 0 <= i < p.len() ==> #[trigger] p[i] != '*' && p[i] != '?' && p[i] != '[',
        0 <= i <= p.len(),
        i <= t.len(),
    ensures
        matches_from(p, i, t, i) == (p.skip(i) == t.skip(i)),
    decreases p.len() - i,
{
    let a = p.skip(i);
    let b = t.skip(i);
    if i == p.len() {
        if i == t.len() {
            assert(a =~= b);
        }
    } else if i < t.len() {
        lemma_plain(p, t, i + 1);
        assert(a.drop_first() =~= p.skip(i + 1));
        assert(b.drop_first() =~= t.skip(i + 1));
        assert(a[0] == p[i] && b[0] == t[i]);
        assert(a =~= seq![a[0]] + a.drop_first());
        assert(b =~= seq![b[0]] + b.drop_first());
        assert(after(p, i) == Some(i + 1));
        if a == b {
            assert(p.skip(i + 1) == t.skip(i + 1));
        }
    }
}

proof fn lemma_class_shift(q: Seq<char>, r: Seq<char>, i: int, first: bool)
    requires
        0 <= i,
    ensures
        match class_members(r, i, first) {
            Some(c) => class_members(q + r, q.len() + i, first) == Some(
                Class { ranges: c.ranges, end: c.end + q.len() },
            ),
            None => class_members(q + r, q.len() + i, first) is None,
        },
    decreases r.len() - i,
{
    let p = q + r;
    let k = q.len() + i;
    if i < r.len() {
        assert(p[k] == r[i]);
        if i + 1 < r.len() {
            assert(p[k + 1] == r[i + 1]);
        }
        if i + 2 < r.len() {
            assert(p[k + 2] == r[i + 2]);
        }
        if !(r[i] == ']' && !first) {
            if i + 2 < r.len() && r[i + 1] == '-' && r[i + 2] != ']' {
                lemma_class_shift(q, r, i + 3, false);
            } else {
                lemma_class_shift(q, r, i + 1, false);
            }
        }
    }
}

proof fn lemma_element_shift(q: Seq<char>, r: Seq<char>, i: int, c: char)
    requires
        0 <= i < r.len(),
    ensures
        takes(q + r, q.len() + i, c) == takes(r, i, c),
        match after(r, i) {
            Some(n) => after(q + r, q.len() + i) == Some(q.len() + n),
            None => after(q + r, q.len() + i) is None,
        },
{
    let p = q + r;
    let k = q.len() + i;
    assert(p[k] == r[i]);
    if i + 1 < r.len() {
        assert(p[k + 1] == r[i + 1]);
    }
    lemma_class_shift(q, r, i + 1, true);
    lemma_class_shift(q, r, i + 2, true);
}

proof fn lemma_match_shift(q: Seq<char>, r: Seq<char>, i: int, u: Seq<char>, t: Seq<char>, j: int)
    requires
        0 <= i <= r.len(),
        0 <= j <= t.len(),
    ensures
        matches_from(q + r, q.len() + i, u + t, u.len() + j) == matches_from(r, i, t, j),
    decreases r.len() - i, t.len() - j,
{
    let p = q + r;
    let s = u + t;
    if i < r.len() {
        assert(p[q.len() + i] == r[i]);
        if r[i] == '*' {
            lemma_match_shift(q, r, i + 1, u, t, j);
            if j < t.len() {
                lemma_match_shift(q, r, i, u, t, j + 1);
            }
        } else {
            if j < t.len() {
                assert(s[u.len() + j] == t[j]);
                lemma_element_shift(q, r, i, t[j]);
                lemma_after(r, i);
                match after(r, i) {
                    Some(n) => {
                        lemma_match_shift(q, r, n, u, t, j + 1);
                    },
                    None => {},
                }
            } else {
                lemma_element_shift(q, r, i, ' ');
            }
        }
    }
}

/// The empty pattern matches the empty text and no other.
pub proof fn law_empty_pattern(t: Seq<char>)
    ensures
        glob_matches(Seq::empty(), t) <==> t.len() == 0,
{
}

/// A question mark in front of a pattern takes any one character.
pub proof fn law_question_mark_takes_one(p: Seq<char>, t: Seq<char>)
    ensures
        glob_matches(seq!['?'] + p, t) <==> t.len() > 0 && glob_matches(p, t.skip(1)),
{
    let q = seq!['?'];
    let full = q + p;
    assert(full[0] == '?');
    if t.len() > 0 {
        let u = t.take(1);
        assert(t =~= u + t.skip(1));
        lemma_match_shift(q, p, 0, u, t.skip(1), 0);
    }
}

/// A character that is no wildcard takes itself.
pub proof fn law_character_takes_itself(c: char, p: Seq<char>, t: Seq<char>)
    requires
        c != '*',
        c != '?',
        c != '[',
    ensures
        glob_matches(seq![c] + p, t) <==> t.len() > 0 && t[0] == c && glob_matches(p, t.skip(1)),
{
    let q = seq![c];
    let full = q + p;
    assert(full[0] == c);
    if t.len() > 0 {
        let u = t.take(1);
        assert(t =~= u + t.skip(1));
        lemma_match_shift(q, p, 0, u, t.skip(1), 0);
    }
}

proof fn lemma_star_takes(p: Seq<char>, t: Seq<char>, j: int)
    requires
        0 <= j <= t.len(),
    ensures
        matches_from(seq!['*'] + p, 0, t, j) <==> exists|k: int|
            j <= k <= t.len() && glob_matches(p, #[trigger] t.skip(k)),
    decreases t.len() - j,
{
    let q = seq!['*'];
    let full = q + p;
    assert(full[0] == '*');
    let u = t.take(j);
    assert(t =~= u + t.skip(j));
    lemma_match_shift(q, p, 0, u, t.skip(j), 0);
    assert(matches_from(full, 1, t, j) == glob_matches(p, t.skip(j)));
    if j < t.len() {
        lemma_star_takes(p, t, j + 1);
    }
    if exists|k: int| j <= k <= t.len() && glob_matches(p, #[trigger] t.skip(k)) {
        let k = choose|k: int| j <= k <= t.len() && glob_matches(p, #[trigger] t.skip(k));
        if k > j {
            assert(matches_from(full, 0, t, j + 1));
        }
    }
}

/// A star in front of a pattern takes any run of characters, the empty one
/// included.
pub proof fn law_star_takes_any_run(p: Seq<char>, t: Seq<char>)
    ensures
        glob_matches(seq!['*'] + p, t) <==> exists|k: int|
            0 <= k <= t.len() && glob_matches(p, #[trigger] t.skip(k)),
{
    lemma_star_takes(p, t, 0);
}

/// A class of one range in front of a pattern takes one character of the range,
/// and with a mark in front one that is not of the range.
pub proof fn law_class_takes_one_of_its_range(a: char, b: char, p: Seq<char>, t: Seq<char>)
    requires
        a != '!',
        a != '^',
        a != ']',
        b != ']',
    ensures
        glob_matches(seq!['[', a, '-', b, ']'] + p, t) <==> t.len() > 0 && a <= t[0] && t[0] <= b
            && glob_matches(p, t.skip(1)),
        glob_matches(seq!['[', '!', a, '-', b, ']'] + p, t) <==> t.len() > 0 && !(a <= t[0] && t[0]
            <= b) && glob_matches(p, t.skip(1)),
{
    let q = seq!['[', a, '-', b, ']'];
    let n = seq!['[', '!', a, '-', b, ']'];
    let x = q + p;
    let y = n + p;
    assert(x[0] == '[' && x[1] == a && x[2] == '-' && x[3] == b && x[4] == ']');
    assert(y[0] == '[' && y[1] == '!' && y[2] == a && y[3] == '-' && y[4] == b && y[5] == ']');
    let one = seq![(a, b)];
    assert(one + Seq::<(char, char)>::empty() =~= one);
    assert(class_members(x, 4, false) == Some(Class { ranges: Seq::empty(), end: 5 }));
    assert(class_members(y, 5, false) == Some(Class { ranges: Seq::empty(), end: 6 }));
    assert(class_members(x, 1, true) == Some(Class { ranges: one, end: 5 }));
    assert(class_members(y, 2, true) == Some(Class { ranges: one, end: 6 }));
    if t.len() > 0 {
        let u = t.take(1);
        assert(t =~= u + t.skip(1));
        lemma_match_shift(q, p, 0, u, t.skip(1), 0);
        lemma_match_shift(n, p, 0, u, t.skip(1), 0);
        assert(one[0] == (a, b));
        assert(in_ranges(one, t[0]) <==> a <= t[0] && t[0] <= b);
    }
}

/// A class that never closes matches nothing.
pub proof fn law_open_class_matches_nothing(p: Seq<char>, t: Seq<char>)
    requires
        !p.contains(']'),
    ensures
        !glob_matches(seq!['['] + p, t),
{
    let full = seq!['['] + p;
    assert(full[0] == '[');
    assert forall|i: int| 0 <= i < full.len() implies full[i] != ']' by {
        if i > 0 {
            assert(full[i] == p[i - 1]);
        }
    }
    lemma_never_closes(full, 1, true);
    lemma_never_closes(full, 2, true);
}

proof fn lemma_never_closes(p: Seq<char>, i: int, first: bool)
    requires
        0 <= i,
        forall|k: int| 0 <= k < p.len() ==> p[k] != ']',
    ensures
        class_members(p, i, first) is None,
    decreases p.len() - i,
{
    if i < p.len() {
        lemma_never_closes(p, i + 1, false);
        if i + 2 < p.len() {
            lemma_never_closes(p, i + 3, false);
        }
    }
}

/// Letters are put in lowercase one by one, in their order.
pub proof fn law_folding(a: Seq<char>, b: Seq<char>, c: char)
    ensures
        folded(a + b) == folded(a) + folded(b),
        folded(a.push(c)) == folded(a) + char_lowercase(c),
    decreases b.len(),
{
    assert(a.push(c).drop_last() =~= a);
    if b.len() == 0 {
        assert(a + b =~= a);
        assert(folded(a) + folded(b) =~= folded(a));
    } else {
        assert((a + b).drop_last() =~= a + b.drop_last());
        law_folding(a, b.drop_last(), c);
        assert(folded(a + b) =~= folded(a) + folded(b));
    }
}

} // verus!

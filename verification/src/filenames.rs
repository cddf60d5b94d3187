//! Names of received files: what a peer sends is not trusted.

use vstd::prelude::*;
use crate::paths::{self, absolute, components, joined_path, kept, name_part, segments};
use crate::protocol::{FileMeta, FileMetaView};
use crate::text::{self, decimal_text, trimmed_end, views};

verus! {

/// Control characters.
pub open spec fn is_control(c: char) -> bool {
    (c as u32) <= 0x1f || (0x7f <= (c as u32) && (c as u32) <= 0x9f)
}

/// Characters that some platform does not allow in a file name.
pub open spec fn forbidden(c: char) -> bool {
    is_control(c) || c == '<' || c == '>' || c == ':' || c == '"' || c == '|' || c == '?' || c == '*'
        || c == '/' || c == '\\'
}

/// The character that stands for one of a raw name.
pub open spec fn cleaned_char(c: char) -> char {
    if forbidden(c) {
        '_'
    } else {
        c
    }
}

/// Characters that a name may not end in.
pub open spec fn trailing(c: char) -> bool {
    c == ' ' || c == '.'
}

/// The last component of a raw name with every forbidden character replaced
/// and without trailing dots and spaces.
pub open spec fn cleaned(raw: Seq<char>) -> Seq<char> {
    let base = match name_part(raw) {
        Some(n) => n,
        None => Seq::empty(),
    };
    trimmed_end(base.map_values(|c: char| cleaned_char(c)), |c: char| trailing(c))
}

/// The ASCII letters of a text in upper case.
pub open spec fn upper_char(c: char) -> char {
    if 'a' <= c && c <= 'z' {
        ((c as u8) - 32) as char
    } else {
        c
    }
}

/// The part of a name that Windows looks at: in front of the first dot, in
/// upper case.
pub open spec fn device_part(name: Seq<char>) -> Seq<char> {
    crate::protocol::major(name).map_values(|c: char| upper_char(c))
}

/// Device names that Windows reserves.
pub open spec fn reserved(part: Seq<char>) -> bool {
    part == "CON"@ || part == "PRN"@ || part == "AUX"@ || part == "NUL"@ || (part.len() == 4 && (
    part.take(3) == "COM"@ || part.take(3) == "LPT"@) && '0' <= part[3] && part[3] <= '9')
}

/// The name that a raw name becomes. Nothing is ever refused: a name of which
/// nothing is left becomes a numbered one.
pub open spec fn sanitized(raw: Seq<char>, fallback_index: nat) -> Seq<char> {
    let name = cleaned(raw);
    if name.len() == 0 {
        "file-"@ + decimal_text(fallback_index)
    } else if reserved(device_part(name)) {
        "_"@ + name
    } else {
        name
    }
}

/// Whether the character is a control character.
pub fn control(c: char) -> (r: bool)
    ensures
        r == is_control(c),
{
    let n: u32 = c as u32;
    proof {
        vstd::utf8::char_u32_cast(c, n);
    }
    n <= 0x1f || (0x7f <= n && n <= 0x9f)
}

fn is_forbidden(c: char) -> (r: bool)
    ensures
        r == forbidden(c),
{
    control(c) || c == '<' || c == '>' || c == ':' || c == '"' || c == '|'
        || c == '?' || c == '*' || c == '/' || c == '\\'
}

fn upper(c: char) -> (r: char)
    ensures
        r == upper_char(c),
{
    let n: u32 = c as u32;
    if 97 <= n && n <= 122 {
        let b: u8 = n as u8;
        (b - 32) as char
    } else {
        c
    }
}

fn is_reserved(part: &str) -> (r: bool)
    ensures
        r == reserved(part@),
{
    if text::same(part, "CON") || text::same(part, "PRN") || text::same(part, "AUX") || text::same(
        part,
        "NUL",
    ) {
        return true;
    }
    let chars: Vec<char> = text::chars_of(part);
    if chars.len() != 4 {
        return false;
    }
    let head: String = text::string_of(vstd::slice::slice_subrange(chars.as_slice(), 0, 3));
    let c: char = chars[3];
    let last: u32 = c as u32;
    proof {
        assert(head@ =~= part@.take(3));
        vstd::utf8::char_u32_cast(c, last);
    }
    (text::same(head.as_str(), "COM") || text::same(head.as_str(), "LPT")) && 48 <= last && last <= 57
}

/// Makes a safe file name out of a name that a peer sent.
pub fn sanitize_file_name(raw: &str, fallback_index: usize) -> (r: String)
    ensures
        r@ == sanitized(raw@, fallback_index as nat),
{
    let base: String = match paths::file_name(raw) {
        Some(n) => n,
        None => String::new(),
    };
    let source: Vec<char> = text::chars_of(base.as_str());
    let mut chars: Vec<char> = Vec::new();
    let ghost f = |c: char| cleaned_char(c);
    let mut i: usize = 0;
    while i < source.len()
        invariant
            i <= source.len(),
            source@ == base@,
            f == (|c: char| cleaned_char(c)),
            chars@ == base@.take(i as int).map_values(f),
        decreases source.len() - i,
    {
        let c: char = source[i];
        chars.push(
            if is_forbidden(c) {
                '_'
            } else {
                c
            },
        );
        proof {
            assert(chars@ =~= base@.take(i + 1).map_values(f));
        }
        i += 1;
    }
    proof {
        assert(base@.take(i as int) =~= base@);
    }
    let ghost full = chars@;
    let ghost drop = |c: char| trailing(c);
    while chars.len() > 0 && (chars[chars.len() - 1] == ' ' || chars[chars.len() - 1] == '.')
        invariant
            drop == (|c: char| trailing(c)),
            trimmed_end(chars@, drop) == trimmed_end(full, drop),
        decreases chars.len(),
    {
        proof {
            assert(drop(chars@.last()));
        }
        chars.pop();
    }
    proof {
        if chars.len() > 0 {
            assert(!drop(chars@.last()));
        }
        assert(chars@ == cleaned(raw@));
    }
    if chars.len() == 0 {
        return text::join("file-", text::decimal(fallback_index as u64).as_str());
    }
    let name: String = text::string_of(chars.as_slice());
    let stem: String = crate::protocol::major_of(name.as_str());
    let stem_chars: Vec<char> = text::chars_of(stem.as_str());
    let mut part: String = String::new();
    let ghost g = |c: char| upper_char(c);
    let mut k: usize = 0;
    while k < stem_chars.len()
        invariant
            k <= stem_chars.len(),
            stem_chars@ == stem@,
            g == (|c: char| upper_char(c)),
            part@ == stem@.take(k as int).map_values(g),
        decreases stem_chars.len() - k,
    {
        part.push(upper(stem_chars[k]));
        proof {
            assert(part@ =~= stem@.take(k + 1).map_values(g));
        }
        k += 1;
    }
    proof {
        assert(stem@.take(k as int) =~= stem@);
    }
    if is_reserved(part.as_str()) {
        text::join("_", name.as_str())
    } else {
        name
    }
}

/// A safe name: it is not empty, holds no forbidden character, does not end in
/// a dot or a space, and no platform takes it for a device.
pub open spec fn safe_name(name: Seq<char>) -> bool {
    &&& name.len() > 0
    &&& forall|i: int| 0 <= i < name.len() ==> !forbidden(#[trigger] name[i])
    &&& !trailing(name.last())
    &&& !reserved(device_part(name))
}

/// Whatever a peer sends, the name that comes out is safe.
pub proof fn law_sanitized_is_safe(raw: Seq<char>, fallback_index: nat)
    ensures
        safe_name(sanitized(raw, fallback_index)),
{
    let base = match name_part(raw) {
        Some(n) => n,
        None => Seq::empty(),
    };
    let all = base.map_values(|c: char| cleaned_char(c));
    let name = cleaned(raw);
    assert forall|i: int| 0 <= i < all.len() implies !forbidden(#[trigger] all[i]) by {
        assert(all[i] == cleaned_char(base[i]));
    }
    lemma_trimmed(all, |c: char| trailing(c));
    reveal_strlit("file-");
    reveal_strlit("_");
    reveal_strlit("CON");
    reveal_strlit("PRN");
    reveal_strlit("AUX");
    reveal_strlit("NUL");
    reveal_strlit("COM");
    reveal_strlit("LPT");
    if name.len() == 0 {
        lemma_decimal_digits(fallback_index);
        let digits = decimal_text(fallback_index);
        let out = "file-"@ + digits;
        assert forall|i: int| 0 <= i < out.len() implies !forbidden(#[trigger] out[i]) by {
            if i >= 5 {
                assert(out[i] == digits[i - 5]);
            }
        }
        assert(out.last() == digits.last());
        assert(digits.last() == digits[digits.len() - 1]);
        lemma_major_head(out);
        assert(device_part(out)[0] == 'F');
        assert(!reserved(device_part(out))) by {
            assert("CON"@[0] == 'C');
            assert("PRN"@[0] == 'P');
            assert("AUX"@[0] == 'A');
            assert("NUL"@[0] == 'N');
            if device_part(out).len() == 4 {
                assert(device_part(out).take(3)[0] == 'F');
                assert("COM"@[0] == 'C');
                assert("LPT"@[0] == 'L');
            }
        }
    } else if reserved(device_part(name)) {
        let out = "_"@ + name;
        assert forall|i: int| 0 <= i < out.len() implies !forbidden(#[trigger] out[i]) by {
            if i >= 1 {
                assert(out[i] == name[i - 1]);
            }
        }
        assert(out.last() == name.last());
        lemma_major_head(out);
        assert(device_part(out)[0] == '_');
        assert(!reserved(device_part(out))) by {
            assert("CON"@[0] == 'C');
            assert("PRN"@[0] == 'P');
            assert("AUX"@[0] == 'A');
            assert("NUL"@[0] == 'N');
            if device_part(out).len() == 4 {
                assert(device_part(out).take(3)[0] == '_');
                assert("COM"@[0] == 'C');
                assert("LPT"@[0] == 'L');
            }
        }
    }
}

proof fn lemma_major_head(name: Seq<char>)
    requires
        name.len() > 0,
        name[0] != '.',
    ensures
        crate::protocol::major(name).len() > 0,
        crate::protocol::major(name)[0] == name[0],
        device_part(name).len() > 0,
        device_part(name)[0] == upper_char(name[0]),
{
}

proof fn lemma_trimmed(s: Seq<char>, drop: spec_fn(char) -> bool)
    ensures
        trimmed_end(s, drop).len() <= s.len(),
        trimmed_end(s, drop) == s.take(trimmed_end(s, drop).len() as int),
        trimmed_end(s, drop).len() > 0 ==> !drop(trimmed_end(s, drop).last()),
    decreases s.len(),
{
    if s.len() > 0 && drop(s.last()) {
        lemma_trimmed(s.drop_last(), drop);
        let n = trimmed_end(s, drop).len() as int;
        assert(s.drop_last().take(n) =~= s.take(n));
    } else {
        assert(s.take(s.len() as int) =~= s);
    }
}

/// Decimal notation consists of digits.
pub proof fn lemma_decimal_digits(n: nat)
    ensures
        decimal_text(n).len() > 0,
        forall|i: int| 0 <= i < decimal_text(n).len() ==> '0' <= #[trigger] decimal_text(n)[i] && decimal_text(n)[i] <= '9',
    decreases n,
{
    if n >= 10 {
        lemma_decimal_digits(n / 10);
        let before = decimal_text(n / 10);
        assert forall|i: int| 0 <= i < decimal_text(n).len() implies '0' <= #[trigger] decimal_text(n)[i]
            && decimal_text(n)[i] <= '9' by {
            if i < before.len() {
                assert(decimal_text(n)[i] == before[i]);
            }
        }
    }
}

/// Different numbers have different notations.
pub proof fn lemma_decimal_injective(a: nat, b: nat)
    requires
        decimal_text(a) == decimal_text(b),
    ensures
        a == b,
    decreases a,
{
    lemma_decimal_digits(a / 10);
    lemma_decimal_digits(b / 10);
    let x = decimal_text(a);
    let y = decimal_text(b);
    assert(x.last() == text::digit((a % 10) as int));
    assert(y.last() == text::digit((b % 10) as int));
    assert(a % 10 == b % 10);
    if a >= 10 && b >= 10 {
        assert(x.drop_last() =~= decimal_text(a / 10));
        assert(y.drop_last() =~= decimal_text(b / 10));
        lemma_decimal_injective(a / 10, b / 10);
    }
}

/// Where the extension of a name starts: at its last dot. A name without a
/// dot, or with nothing in front of its last dot, has no extension.
pub open spec fn extension_at(name: Seq<char>) -> int {
    last_dot(name, name.len() as int)
}

/// The last dot in front of a place, or the whole length when there is none
/// that leaves a stem.
pub open spec fn last_dot(name: Seq<char>, end: int) -> int
    decreases end,
{
    if end <= 0 {
        name.len() as int
    } else if name[end - 1] == '.' {
        if end - 1 > 0 {
            end - 1
        } else {
            name.len() as int
        }
    } else {
        last_dot(name, end - 1)
    }
}

/// The n-th variant of a name: a counter between the stem and the extension.
pub open spec fn variant(name: Seq<char>, n: nat) -> Seq<char> {
    name.take(extension_at(name)) + " ("@ + decimal_text(n) + ")"@ + name.skip(extension_at(name))
}

/// `r` is the name itself when it is free, else the first free variant.
pub open spec fn first_free(used: Seq<Seq<char>>, name: Seq<char>, r: Seq<char>) -> bool {
    if !used.contains(name) {
        r == name
    } else {
        exists|n: nat|
            n >= 1 && r == #[trigger] variant(name, n) && !used.contains(r) && forall|m: nat|
                1 <= m < n ==> used.contains(#[trigger] variant(name, m))
    }
}

proof fn lemma_last_dot(name: Seq<char>, end: int)
    requires
        0 <= end <= name.len(),
    ensures
        0 <= last_dot(name, end) <= name.len(),
    decreases end,
{
    if end > 0 && name[end - 1] != '.' {
        lemma_last_dot(name, end - 1);
    }
}

/// Different counters make different names.
pub proof fn lemma_variant_injective(name: Seq<char>, a: nat, b: nat)
    requires
        variant(name, a) == variant(name, b),
    ensures
        a == b,
{
    reveal_strlit(" (");
    reveal_strlit(")");
    lemma_last_dot(name, name.len() as int);
    let cut = extension_at(name);
    let x = variant(name, a);
    let y = variant(name, b);
    let na = decimal_text(a).len() as int;
    let nb = decimal_text(b).len() as int;
    assert(x.len() == name.len() + 3 + na);
    assert(y.len() == name.len() + 3 + nb);
    assert(x.subrange(cut + 2, cut + 2 + na) =~= decimal_text(a));
    assert(y.subrange(cut + 2, cut + 2 + nb) =~= decimal_text(b));
    lemma_decimal_injective(a, b);
}

fn holds_name(used: &Vec<String>, name: &str) -> (r: bool)
    ensures
        r == views(used@).contains(name@),
{
    let mut i: usize = 0;
    while i < used.len()
        invariant
            i <= used.len(),
            forall|j: int| 0 <= j < i ==> views(used@)[j] != name@,
        decreases used.len() - i,
    {
        if text::same(used[i].as_str(), name) {
            proof {
                assert(views(used@)[i as int] == name@);
            }
            return true;
        }
        proof {
            assert(views(used@)[i as int] == used@[i as int]@);
        }
        i += 1;
    }
    false
}

/// The places of the first `count` variants among the used names are distinct,
/// so there cannot be more of them than used names.
proof fn lemma_variants_bounded(used: Seq<Seq<char>>, name: Seq<char>, count: nat)
    requires
        forall|m: nat| 1 <= m <= count ==> used.contains(#[trigger] variant(name, m)),
    ensures
        count <= used.len(),
{
    let at = Seq::new(
        count,
        |i: int| choose|j: int| 0 <= j < used.len() && used[j] == variant(name, (i + 1) as nat),
    );
    assert forall|i: int| 0 <= i < at.len() implies 0 <= #[trigger] at[i] < used.len() && used[at[i]]
        == variant(name, (i + 1) as nat) by {
        assert(used.contains(variant(name, (i + 1) as nat)));
    }
    assert(at.no_duplicates()) by {
        assert forall|i: int, j: int| 0 <= i < at.len() && 0 <= j < at.len() && i != j implies at[i] != at[j] by {
            if at[i] == at[j] {
                lemma_variant_injective(name, (i + 1) as nat, (j + 1) as nat);
            }
        }
    }
    at.unique_seq_to_set();
    let range = vstd::set_lib::set_int_range(0, used.len() as int);
    vstd::set_lib::lemma_int_range(0, used.len() as int);
    assert(at.to_set().subset_of(range)) by {
        assert forall|x: int| at.to_set().contains(x) implies range.contains(x) by {
            let i = choose|i: int| 0 <= i < at.len() && at[i] == x;
            assert(0 <= at[i] < used.len());
        }
    }
    vstd::set_lib::lemma_len_subset(at.to_set(), range);
}

/// Resolves a duplicate within a batch: `a.txt`, `a (1).txt`, `a (2).txt`.
pub fn unique_name(used: &mut Vec<String>, name: String) -> (r: String)
    requires
        old(used)@.len() < usize::MAX,
    ensures
        first_free(views(old(used)@), name@, r@),
        views(final(used)@) == views(old(used)@).push(r@),
{
    let ghost before = views(used@);
    if !holds_name(used, name.as_str()) {
        used.push(name.clone());
        proof {
            assert(views(used@) =~= before.push(name@));
        }
        return name;
    }
    let chars: Vec<char> = text::chars_of(name.as_str());
    let mut end: usize = chars.len();
    while end > 0 && chars[end - 1] != '.'
        invariant
            end <= chars.len(),
            chars@ == name@,
            extension_at(name@) == last_dot(name@, end as int),
        decreases end,
    {
        end -= 1;
    }
    let cut: usize = if end > 1 {
        end - 1
    } else {
        chars.len()
    };
    proof {
        assert(cut == extension_at(name@));
    }
    let stem: String = text::string_of(vstd::slice::slice_subrange(chars.as_slice(), 0, cut));
    let ext: String = text::string_of(
        vstd::slice::slice_subrange(chars.as_slice(), cut, chars.len()),
    );
    proof {
        assert(stem@ =~= name@.take(cut as int));
        assert(ext@ =~= name@.skip(cut as int));
    }
    let mut n: usize = 1;
    loop
        invariant
            1 <= n <= before.len() + 1,
            before == views(used@),
            before == views(old(used)@),
            before.len() < usize::MAX,
            before.contains(name@),
            stem@ == name@.take(extension_at(name@)),
            ext@ == name@.skip(extension_at(name@)),
            forall|m: nat| 1 <= m < n ==> before.contains(#[trigger] variant(name@, m)),
        decreases before.len() + 1 - n,
    {
        let mut candidate: String = stem.clone();
        candidate.append(" (");
        candidate.append(text::decimal(n as u64).as_str());
        candidate.append(")");
        candidate.append(ext.as_str());
        proof {
            assert(candidate@ =~= variant(name@, n as nat));
        }
        if !holds_name(used, candidate.as_str()) {
            used.push(candidate.clone());
            proof {
                assert(views(used@) =~= before.push(candidate@));
                assert(candidate@ == variant(name@, n as nat));
            }
            return candidate;
        }
        proof {
            assert forall|m: nat| 1 <= m <= n implies before.contains(#[trigger] variant(name@, m)) by {
                if m == n {
                    assert(candidate@ == variant(name@, m));
                }
            }
            lemma_variants_bounded(before, name@, n as nat);
        }
        n += 1;
    }
}

/// The names that a batch lands under: each sanitized, then made unique.
pub open spec fn landed(metas: Seq<FileMetaView>, names: Seq<Seq<char>>) -> bool {
    &&& names.len() == metas.len()
    &&& forall|i: int|
        0 <= i < names.len() ==> first_free(
            names.take(i),
            sanitized((#[trigger] metas[i]).name, i as nat),
            names[i],
        )
}

/// Names the files of a batch, in manifest order.
pub fn landing_names(metas: &Vec<FileMeta>) -> (r: Vec<String>)
    requires
        metas.len() < usize::MAX,
    ensures
        landed(views(metas@), views(r@)),
{
    let mut used: Vec<String> = Vec::new();
    let mut i: usize = 0;
    while i < metas.len()
        invariant
            i <= metas.len(),
            metas.len() < usize::MAX,
            used.len() == i,
            forall|j: int|
                0 <= j < i ==> first_free(
                    views(used@).take(j),
                    sanitized((#[trigger] metas@[j]).name@, j as nat),
                    views(used@)[j],
                ),
        decreases metas.len() - i,
    {
        let ghost before = views(used@);
        let clean: String = sanitize_file_name(metas[i].name.as_str(), i);
        let name: String = unique_name(&mut used, clean);
        proof {
            assert(views(used@).len() == used@.len());
            assert(before.len() == i);
            assert forall|j: int| 0 <= j < i + 1 implies first_free(
                views(used@).take(j),
                sanitized((#[trigger] metas@[j]).name@, j as nat),
                views(used@)[j],
            ) by {
                if j < i {
                    assert(views(used@).take(j) =~= before.take(j));
                    assert(views(used@)[j] == before[j]);
                } else {
                    assert(views(used@).take(j) =~= before);
                }
            }
        }
        i += 1;
    }
    proof {
        assert forall|j: int| 0 <= j < metas@.len() implies first_free(
            views(used@).take(j),
            sanitized((#[trigger] views(metas@)[j]).name, j as nat),
            views(used@)[j],
        ) by {
            assert(views(metas@)[j] == metas@[j]@);
            assert(metas@[j].name@ == views(metas@)[j].name);
        }
    }
    used
}

/// A name that is one plain path component.
pub open spec fn plain(name: Seq<char>) -> bool {
    &&& name.len() > 0
    &&& !name.contains('/')
    &&& name != seq!['.']
    &&& name != seq!['.', '.']
}

proof fn lemma_safe_is_plain(name: Seq<char>)
    requires
        safe_name(name),
    ensures
        plain(name),
{
    if name.contains('/') {
        let i = choose|i: int| 0 <= i < name.len() && name[i] == '/';
        assert(forbidden(name[i]));
    }
    if name == seq!['.'] || name == seq!['.', '.'] {
        assert(trailing(name.last()));
    }
}

proof fn lemma_variant_is_plain(name: Seq<char>, n: nat)
    requires
        plain(name),
    ensures
        plain(variant(name, n)),
{
    reveal_strlit(" (");
    reveal_strlit(")");
    lemma_last_dot(name, name.len() as int);
    lemma_decimal_digits(n);
    let cut = extension_at(name);
    let v = variant(name, n);
    let d = decimal_text(n);
    assert(v[cut + 1] == '(');
    assert(v.len() >= 4);
    if v.contains('/') {
        let i = choose|i: int| 0 <= i < v.len() && v[i] == '/';
        if i < cut {
            assert(name[i] == '/');
        } else if i < cut + 2 {
        } else if i < cut + 2 + d.len() {
            assert(v[i] == d[i - cut - 2]);
        } else if i == cut + 2 + d.len() {
        } else {
            assert(v[i] == name[i - 3 - d.len()]);
        }
    }
}

/// The names of a batch are all different, and each is one plain path
/// component.
pub proof fn law_landed_names(metas: Seq<FileMetaView>, names: Seq<Seq<char>>)
    requires
        landed(metas, names),
    ensures
        names.no_duplicates(),
        forall|i: int| 0 <= i < names.len() ==> plain(#[trigger] names[i]),
{
    assert forall|i: int, j: int| 0 <= i < j < names.len() implies names[i] != names[j] by {
        let earlier = names.take(j);
        let clean = sanitized(metas[j].name, j as nat);
        assert(first_free(earlier, clean, names[j]));
        assert(earlier[i] == names[i]);
        if names[i] == names[j] {
            assert(earlier.contains(names[j]));
        }
    }
    assert forall|i: int| 0 <= i < names.len() implies plain(#[trigger] names[i]) by {
        let clean = sanitized(metas[i].name, i as nat);
        assert(first_free(names.take(i), clean, names[i]));
        law_sanitized_is_safe(metas[i].name, i as nat);
        lemma_safe_is_plain(clean);
        if names.take(i).contains(clean) {
            let n = choose|n: nat|
                n >= 1 && names[i] == #[trigger] variant(clean, n) && !names.take(i).contains(names[i]) && forall|
                    m: nat,
                |
                    1 <= m < n ==> names.take(i).contains(#[trigger] variant(clean, m));
            lemma_variant_is_plain(clean, n);
        }
    }
}

/// A plain name below a directory is one component below it: received files
/// cannot leave the directory that they land in.
pub proof fn law_landing_stays_below(dir: Seq<char>, name: Seq<char>)
    requires
        plain(name),
    ensures
        components(joined_path(dir, name)) == components(dir).push(name),
        absolute(joined_path(dir, name)) == absolute(dir),
        paths::lies_under(joined_path(dir, name), dir),
        name_part(joined_path(dir, name)) == Some(name),
{
    let full = joined_path(dir, name);
    if dir.len() == 0 {
        lemma_segments_of_plain(name);
        assert(seq![name].drop_last() =~= Seq::<Seq<char>>::empty());
        assert(dir =~= Seq::<char>::empty());
        assert(seq![Seq::<char>::empty()].drop_last() =~= Seq::<Seq<char>>::empty());
        assert(!absolute(name)) by {
            if absolute(name) {
                assert(name[0] == '/');
            }
        }
    } else if dir.last() == '/' {
        lemma_segments_append(dir.drop_last(), name);
        assert(full =~= dir.drop_last().push('/') + name);
        let s = segments(dir.drop_last());
        assert(segments(dir) =~= s.push(Seq::<char>::empty()));
        assert(segments(dir).drop_last() =~= s);
        assert(kept(segments(dir)) == kept(s));
        assert(s.push(name).drop_last() =~= s);
        lemma_segments_some(dir.drop_last());
    } else {
        lemma_segments_append(dir, name);
        assert(full =~= dir.push('/') + name);
        let s = segments(dir);
        assert(s.push(name).drop_last() =~= s);
        lemma_segments_some(dir);
    }
    assert(components(full) =~= components(dir).push(name));
    assert(components(full).take(components(dir).len() as int) =~= components(dir));
    assert(dir.len() > 0 ==> full[0] == dir[0]);
}

proof fn lemma_segments_of_plain(name: Seq<char>)
    requires
        !name.contains('/'),
    ensures
        segments(name) == seq![name],
    decreases name.len(),
{
    if name.len() == 0 {
        assert(name =~= Seq::<char>::empty());
    } else {
        let init = name.drop_last();
        assert(!init.contains('/')) by {
            if init.contains('/') {
                let k = choose|k: int| 0 <= k < init.len() && init[k] == '/';
                assert(name[k] == '/');
            }
        }
        assert(name.last() != '/') by {
            assert(name.contains(name[name.len() - 1]));
        }
        lemma_segments_of_plain(init);
        assert(init.push(name.last()) =~= name);
        assert(segments(name) =~= seq![name]);
    }
}

proof fn lemma_segments_some(path: Seq<char>)
    ensures
        segments(path).len() > 0,
    decreases path.len(),
{
    if path.len() > 0 {
        lemma_segments_some(path.drop_last());
    }
}

proof fn lemma_segments_append(path: Seq<char>, name: Seq<char>)
    requires
        !name.contains('/'),
    ensures
        segments(path.push('/') + name) == segments(path).push(name),
    decreases name.len(),
{
    let full = path.push('/') + name;
    if name.len() == 0 {
        assert(name =~= Seq::<char>::empty());
        assert(full =~= path.push('/'));
        assert(full.drop_last() =~= path);
        assert(segments(full) =~= segments(path).push(name));
    } else {
        let init = name.drop_last();
        assert(!init.contains('/')) by {
            if init.contains('/') {
                let k = choose|k: int| 0 <= k < init.len() && init[k] == '/';
                assert(name[k] == '/');
            }
        }
        lemma_segments_append(path, init);
        assert(full.drop_last() =~= path.push('/') + init);
        assert(full.last() == name[name.len() - 1]);
        assert(full.last() != '/') by {
            assert(name.contains(name[name.len() - 1]));
        }
        let before = segments(path).push(init);
        assert(before.drop_last() =~= segments(path));
        assert(before.last() == init);
        assert(init.push(name.last()) =~= name);
        assert(segments(full.drop_last()) == before);
        assert(segments(full) == before.drop_last().push(before.last().push(full.last())));
        assert(segments(full) =~= segments(path).push(name));
    }
}

/// What no file name may hold: control characters, separators, and what some
/// platform reserves.
pub proof fn law_forbidden_characters(c: char)
    ensures
        forbidden(c) <==> (c as u32) < 32 || (127 <= (c as u32) && (c as u32) < 160) || seq![
            '<',
            '>',
            ':',
            '"',
            '|',
            '?',
            '*',
            '/',
            '\\',
        ].contains(c),
{
    let all = seq!['<', '>', ':', '"', '|', '?', '*', '/', '\\'];
    assert(all[0] == '<' && all[1] == '>' && all[2] == ':' && all[3] == '"' && all[4] == '|' && all[5]
        == '?' && all[6] == '*' && all[7] == '/' && all[8] == '\\');
}

proof fn lemma_own_name(name: Seq<char>)
    requires
        plain(name),
    ensures
        name_part(name) == Some(name),
{
    let none = Seq::<char>::empty();
    law_landing_stays_below(none, name);
    assert(joined_path(none, name) == name);
}

/// A safe name is kept as it is, wherever the sender had the file.
pub proof fn law_safe_names_are_kept(name: Seq<char>, dir: Seq<char>, fallback_index: nat)
    requires
        safe_name(name),
    ensures
        sanitized(name, fallback_index) == name,
        sanitized(joined_path(dir, name), fallback_index) == name,
{
    lemma_safe_is_plain(name);
    lemma_own_name(name);
    law_landing_stays_below(dir, name);
    let all = name.map_values(|c: char| cleaned_char(c));
    assert forall|i: int| 0 <= i < name.len() implies all[i] == name[i] by {
        assert(!forbidden(name[i]));
    }
    assert(all =~= name);
}

/// What a name may not hold is replaced, character by character, and the rest of
/// the name is kept.
pub proof fn law_forbidden_characters_are_replaced(
    name: Seq<char>,
    dir: Seq<char>,
    fallback_index: nat,
    i: int,
)
    requires
        plain(name),
        name.last() != ' ',
        name.last() != '.',
        !reserved(device_part(cleaned(name))),
        0 <= i < name.len(),
    ensures
        sanitized(joined_path(dir, name), fallback_index).len() == name.len(),
        forbidden(name[i]) ==> sanitized(joined_path(dir, name), fallback_index)[i] == '_',
        !forbidden(name[i]) ==> sanitized(joined_path(dir, name), fallback_index)[i] == name[i],
{
    lemma_own_name(name);
    law_landing_stays_below(dir, name);
    let all = name.map_values(|c: char| cleaned_char(c));
    assert(all.last() == cleaned_char(name.last()));
    assert(cleaned(name) == all);
    assert(cleaned(joined_path(dir, name)) == all);
    assert(all[i] == cleaned_char(name[i]));
}

/// Dots and spaces at the end of a name are taken off.
pub proof fn law_trailing_dots_are_taken_off(name: Seq<char>, c: char, fallback_index: nat)
    requires
        safe_name(name),
        c == '.' || c == ' ',
    ensures
        sanitized(name.push(c), fallback_index) == name,
{
    let longer = name.push(c);
    lemma_safe_is_plain(name);
    assert(plain(longer)) by {
        if longer.contains('/') {
            let i = choose|i: int| 0 <= i < longer.len() && longer[i] == '/';
            assert(name[i] == '/');
            assert(name.contains('/'));
        }
        if longer == seq!['.', '.'] {
            assert(longer.len() == 2 && longer[0] == '.');
            assert(name.len() == 1 && name[0] == longer[0]);
            assert(trailing(name.last()));
        }
        if longer == seq!['.'] {
            assert(longer.len() == 1);
        }
    }
    lemma_own_name(longer);
    let all = longer.map_values(|c: char| cleaned_char(c));
    assert forall|i: int| 0 <= i < name.len() implies all[i] == name[i] by {
        assert(!forbidden(name[i]));
    }
    assert(all =~= longer);
    let drop = |c: char| trailing(c);
    assert(longer.drop_last() =~= name);
    assert(drop(longer.last()));
    assert(!drop(name.last()));
    assert(trimmed_end(longer, drop) == trimmed_end(name, drop));
}

/// A reserved name is told apart by a mark in front of it, and a name of which
/// nothing is left is a number.
pub proof fn law_unusable_names_are_replaced(raw: Seq<char>, fallback_index: nat)
    ensures
        name_part(raw) is None ==> sanitized(raw, fallback_index) == "file-"@ + decimal_text(
            fallback_index,
        ),
        cleaned(raw).len() > 0 && reserved(device_part(cleaned(raw))) ==> sanitized(
            raw,
            fallback_index,
        ) == "_"@ + cleaned(raw),
{
    if name_part(raw) is None {
        let none = Seq::<char>::empty();
        assert(none.map_values(|c: char| cleaned_char(c)) =~= none);
    }
}

/// The reserved names, whatever the case and whatever follows a dot.
pub proof fn law_reserved_names(d: char, tail: Seq<char>)
    ensures
        reserved("CON"@) && reserved("PRN"@) && reserved("AUX"@) && reserved("NUL"@),
        '0' <= d && d <= '9' ==> reserved("COM"@.push(d)) && reserved("LPT"@.push(d)),
        !('0' <= d && d <= '9') ==> !reserved("COM"@.push(d)) && !reserved("LPT"@.push(d)),
        reserved(device_part("con"@)),
        reserved(device_part("con"@.push('.') + tail)),
        reserved(device_part("NUL"@.push('.') + tail)),
{
    reveal_strlit("CON");
    reveal_strlit("PRN");
    reveal_strlit("AUX");
    reveal_strlit("NUL");
    reveal_strlit("COM");
    reveal_strlit("LPT");
    reveal_strlit("con");
    assert("CON"@.len() == 3 && "PRN"@.len() == 3 && "AUX"@.len() == 3 && "NUL"@.len() == 3);
    assert("COM"@.push(d).take(3) =~= "COM"@);
    assert("LPT"@.push(d).take(3) =~= "LPT"@);
    assert("COM"@.push(d)[3] == d && "LPT"@.push(d)[3] == d);
    assert(!"con"@.contains('.'));
    assert(!"NUL"@.contains('.'));
    crate::protocol::law_major_decides("con"@, tail);
    crate::protocol::law_major_decides("NUL"@, tail);
    let up = |c: char| upper_char(c);
    assert("con"@.map_values(up) =~= "CON"@);
    assert("NUL"@.map_values(up) =~= "NUL"@);
}

proof fn lemma_no_dot(name: Seq<char>, end: int)
    requires
        0 <= end <= name.len(),
        forall|i: int| 0 <= i < end ==> name[i] != '.',
    ensures
        last_dot(name, end) == name.len(),
    decreases end,
{
    if end > 0 {
        lemma_no_dot(name, end - 1);
    }
}

proof fn lemma_dot_at(name: Seq<char>, at: int, end: int)
    requires
        0 < at < end <= name.len(),
        name[at] == '.',
        forall|i: int| at < i < end ==> name[i] != '.',
    ensures
        last_dot(name, end) == at,
    decreases end,
{
    if end - 1 > at {
        lemma_dot_at(name, at, end - 1);
    }
}

/// The counter of a variant stands behind the stem and in front of the extension;
/// without an extension it stands at the end.
pub proof fn law_variant_keeps_the_extension(stem: Seq<char>, ext: Seq<char>, n: nat)
    requires
        stem.len() > 0,
        !ext.contains('.'),
    ensures
        variant(stem.push('.') + ext, n) == stem + " ("@ + decimal_text(n) + ")"@ + seq!['.'] + ext,
        !stem.contains('.') ==> variant(stem, n) == stem + " ("@ + decimal_text(n) + ")"@,
{
    let name = stem.push('.') + ext;
    let at = stem.len() as int;
    assert(name[at] == '.');
    assert forall|i: int| at < i < name.len() implies name[i] != '.' by {
        assert(name[i] == ext[i - at - 1]);
    }
    lemma_dot_at(name, at, name.len() as int);
    assert(name.take(at) =~= stem);
    assert(name.skip(at) =~= seq!['.'] + ext);
    assert(variant(name, n) =~= stem + " ("@ + decimal_text(n) + ")"@ + seq!['.'] + ext);
    if !stem.contains('.') {
        assert forall|i: int| 0 <= i < stem.len() implies stem[i] != '.' by {}
        lemma_no_dot(stem, stem.len() as int);
        assert(stem.take(stem.len() as int) =~= stem);
        assert(stem.skip(stem.len() as int) =~= Seq::<char>::empty());
        assert(variant(stem, n) =~= stem + " ("@ + decimal_text(n) + ")"@);
    }
}

/// The first file of a batch keeps its safe name, and so does every later one
/// whose name is not taken.
pub proof fn law_free_names_are_kept(metas: Seq<FileMetaView>, names: Seq<Seq<char>>, i: int)
    requires
        landed(metas, names),
        0 <= i < names.len(),
        safe_name(metas[i].name),
        forall|j: int| 0 <= j < i ==> #[trigger] names[j] != metas[i].name,
    ensures
        names[i] == metas[i].name,
{
    law_safe_names_are_kept(metas[i].name, Seq::empty(), i as nat);
    assert(first_free(names.take(i), sanitized(metas[i].name, i as nat), names[i]));
    let earlier = names.take(i);
    assert(!earlier.contains(metas[i].name)) by {
        if earlier.contains(metas[i].name) {
            let j = choose|j: int| 0 <= j < earlier.len() && earlier[j] == metas[i].name;
            assert(names[j] == metas[i].name);
        }
    }
}

/// Paths are compared component by component: a file lies below its directory,
/// and below no other directory beside it, though the names begin alike.
pub proof fn law_neighbours_are_apart(dir: Seq<char>, a: Seq<char>, b: Seq<char>, name: Seq<char>)
    requires
        plain(a),
        plain(b),
        plain(name),
    ensures
        paths::lies_under(joined_path(joined_path(dir, a), name), joined_path(dir, a)),
        a != b ==> !paths::lies_under(joined_path(joined_path(dir, a), name), joined_path(dir, b)),
        !paths::lies_under(dir, joined_path(dir, a)),
        components(joined_path(dir, name)).last() == name,
        paths::parent_part(joined_path(dir, name)) is Some,
{
    law_landing_stays_below(dir, a);
    law_landing_stays_below(dir, b);
    law_landing_stays_below(joined_path(dir, a), name);
    law_landing_stays_below(dir, name);
    let n = components(dir).len() as int;
    let full = components(joined_path(joined_path(dir, a), name));
    assert(full[n] == a);
    assert(components(joined_path(dir, b))[n] == b);
    if a != b && paths::lies_under(joined_path(joined_path(dir, a), name), joined_path(dir, b)) {
        assert(full.take(n + 1)[n] == components(joined_path(dir, b))[n]);
    }
}

} // verus!

//! File paths as text: components, file names and containment.
//!
//! The separator is `/`. Empty segments and `.` segments (but for a leading
//! one) are no components.

use vstd::prelude::*;
use crate::text::{self, views};

verus! {

/// The text between the separators, empty segments included.
pub open spec fn segments(path: Seq<char>) -> Seq<Seq<char>>
    decreases path.len(),
{
    if path.len() == 0 {
        seq![Seq::<char>::empty()]
    } else {
        let before = segments(path.drop_last());
        if path.last() == '/' {
            before.push(Seq::<char>::empty())
        } else {
            before.drop_last().push(before.last().push(path.last()))
        }
    }
}

/// The segments that are components.
pub open spec fn kept(segs: Seq<Seq<char>>) -> Seq<Seq<char>>
    decreases segs.len(),
{
    if segs.len() == 0 {
        Seq::empty()
    } else {
        let before = kept(segs.drop_last());
        if segs.last().len() > 0 && (segs.last() != seq!['.'] || segs.len() == 1) {
            before.push(segs.last())
        } else {
            before
        }
    }
}

/// The components of a path.
pub open spec fn components(path: Seq<char>) -> Seq<Seq<char>> {
    kept(segments(path))
}

/// Whether the path starts at the root.
pub open spec fn absolute(path: Seq<char>) -> bool {
    path.len() > 0 && path[0] == '/'
}

/// The last component, where it names something.
pub open spec fn name_part(path: Seq<char>) -> Option<Seq<char>> {
    let c = components(path);
    if c.len() == 0 || c.last() == seq!['.', '.'] || c.last() == seq!['.'] {
        None
    } else {
        Some(c.last())
    }
}

/// Components written with one separator between two of them.
pub open spec fn joined(comps: Seq<Seq<char>>) -> Seq<char>
    decreases comps.len(),
{
    if comps.len() == 0 {
        Seq::empty()
    } else if comps.len() == 1 {
        comps[0]
    } else {
        joined(comps.drop_last()).push('/') + comps.last()
    }
}

/// The text of a path made of components.
pub open spec fn rendered(from_root: bool, comps: Seq<Seq<char>>) -> Seq<char> {
    if from_root {
        seq!['/'] + joined(comps)
    } else {
        joined(comps)
    }
}

/// The path without its last component; nothing for a path without
/// components.
pub open spec fn parent_part(path: Seq<char>) -> Option<Seq<char>> {
    let c = components(path);
    if c.len() == 0 {
        None
    } else {
        Some(rendered(absolute(path), c.drop_last()))
    }
}

/// Whether the path is the root directory or lies below it, component by
/// component.
pub open spec fn lies_under(path: Seq<char>, root: Seq<char>) -> bool {
    absolute(path) == absolute(root) && components(root).len() <= components(path).len()
        && components(path).take(components(root).len() as int) == components(root)
}

/// A name below a directory.
pub open spec fn joined_path(dir: Seq<char>, name: Seq<char>) -> Seq<char> {
    if dir.len() == 0 {
        name
    } else if dir.last() == '/' {
        dir + name
    } else {
        dir.push('/') + name
    }
}

/// Takes a finished segment in, if it is a component.
fn finish(out: &mut Vec<String>, segment: String, Ghost(done): Ghost<Seq<Seq<char>>>, first: bool)
    requires
        views(old(out)@) == kept(done),
        first == (done.len() == 0),
    ensures
        views(final(out)@) == kept(done.push(segment@)),
{
    proof {
        assert(done.push(segment@).drop_last() =~= done);
        reveal_strlit(".");
        assert("."@ =~= seq!['.']);
    }
    if segment.as_str().is_empty() {
        return;
    }
    if !first && text::same(segment.as_str(), ".") {
        return;
    }
    let ghost before = out@;
    out.push(segment);
    proof {
        assert(views(out@) =~= views(before).push(segment@));
    }
}

/// The components of a path, in order.
pub fn components_of(path: &str) -> (r: Vec<String>)
    ensures
        views(r@) == components(path@),
{
    let chars: Vec<char> = text::chars_of(path);
    let mut out: Vec<String> = Vec::new();
    let mut segment = String::new();
    let ghost mut done: Seq<Seq<char>> = Seq::empty();
    let mut first: bool = true;
    let mut i: usize = 0;
    proof {
        assert(chars@.take(0) =~= Seq::<char>::empty());
        assert(segments(chars@.take(0)) =~= done.push(segment@));
        assert(views(out@) =~= kept(done));
    }
    while i < chars.len()
        invariant
            chars@ == path@,
            i <= chars.len(),
            segments(chars@.take(i as int)) == done.push(segment@),
            views(out@) == kept(done),
            first == (done.len() == 0),
        decreases chars.len() - i,
    {
        proof {
            assert(chars@.take(i + 1).drop_last() =~= chars@.take(i as int));
            assert(chars@.take(i + 1).last() == chars@[i as int]);
            assert(done.push(segment@).drop_last() =~= done);
        }
        if chars[i] == '/' {
            let ghost full = segment@;
            finish(&mut out, segment, Ghost(done), first);
            segment = String::new();
            first = false;
            proof {
                done = done.push(full);
            }
        } else {
            segment.push(chars[i]);
        }
        i += 1;
    }
    proof {
        assert(chars@.take(i as int) =~= chars@);
    }
    finish(&mut out, segment, Ghost(done), first);
    out
}

/// Whether the path starts at the root.
pub fn is_absolute(path: &str) -> (r: bool)
    ensures
        r == absolute(path@),
{
    let chars: Vec<char> = text::chars_of(path);
    chars.len() > 0 && chars[0] == '/'
}

/// The file name of a path: the last component, unless it is `..`.
pub fn file_name(path: &str) -> (r: Option<String>)
    ensures
        text::opt_view(r) == name_part(path@),
{
    let mut comps: Vec<String> = components_of(path);
    let ghost all = comps@;
    proof {
        reveal_strlit("..");
        reveal_strlit(".");
        assert(".."@ =~= seq!['.', '.']);
        assert("."@ =~= seq!['.']);
    }
    match comps.pop() {
        None => None,
        Some(last) => {
            proof {
                assert(views(all).last() == last@);
            }
            if text::same(last.as_str(), "..") || text::same(last.as_str(), ".") {
                None
            } else {
                Some(last)
            }
        },
    }
}

/// The text of a path made of components.
pub fn render(from_root: bool, comps: &Vec<String>) -> (r: String)
    ensures
        r@ == rendered(from_root, views(comps@)),
{
    let ghost all = views(comps@);
    let mut out = String::new();
    if from_root {
        out.push('/');
    }
    let ghost head = out@;
    let mut i: usize = 0;
    proof {
        assert(out@ =~= head + joined(all.take(0)));
    }
    while i < comps.len()
        invariant
            i <= comps.len(),
            all == views(comps@),
            out@ == head + joined(all.take(i as int)),
        decreases comps.len() - i,
    {
        proof {
            assert(all.take(i + 1).drop_last() =~= all.take(i as int));
            assert(all.take(i + 1).last() == comps@[i as int]@);
        }
        if i > 0 {
            out.push('/');
        }
        out.append(comps[i].as_str());
        i += 1;
        proof {
            assert(out@ =~= head + joined(all.take(i as int)));
        }
    }
    proof {
        assert(all.take(i as int) =~= all);
        assert(head =~= if from_root { seq!['/'] } else { Seq::<char>::empty() });
        assert(out@ =~= rendered(from_root, all));
    }
    out
}

/// The directory that a path lies in.
pub fn parent(path: &str) -> (r: Option<String>)
    ensures
        text::opt_view(r) == parent_part(path@),
{
    let mut comps: Vec<String> = components_of(path);
    let ghost all = comps@;
    match comps.pop() {
        None => None,
        Some(_last) => {
            proof {
                assert(views(comps@) =~= views(all).drop_last());
            }
            Some(render(is_absolute(path), &comps))
        },
    }
}

/// Whether the path is the root directory or lies below it.
pub fn is_under(path: &str, root: &str) -> (r: bool)
    ensures
        r == lies_under(path@, root@),
{
    if is_absolute(path) != is_absolute(root) {
        return false;
    }
    let p: Vec<String> = components_of(path);
    let q: Vec<String> = components_of(root);
    if q.len() > p.len() {
        return false;
    }
    let mut i: usize = 0;
    while i < q.len()
        invariant
            i <= q.len(),
            q.len() <= p.len(),
            views(p@) == components(path@),
            views(q@) == components(root@),
            forall|j: int| 0 <= j < i ==> (#[trigger] views(p@)[j]) == views(q@)[j],
        decreases q.len() - i,
    {
        if !text::same(p[i].as_str(), q[i].as_str()) {
            proof {
                let n = components(root@).len() as int;
                assert(views(p@)[i as int] != views(q@)[i as int]);
                assert(components(path@).take(n)[i as int] != components(root@)[i as int]);
            }
            return false;
        }
        i += 1;
    }
    proof {
        assert(components(path@).take(q.len() as int) =~= components(root@));
    }
    true
}

/// A name below a directory.
pub fn join(dir: &str, name: &str) -> (r: String)
    ensures
        r@ == joined_path(dir@, name@),
{
    let chars: Vec<char> = text::chars_of(dir);
    let mut out = dir.to_owned();
    if chars.len() > 0 && chars[chars.len() - 1] != '/' {
        out.push('/');
    }
    out.append(name);
    proof {
        assert(out@ =~= joined_path(dir@, name@));
    }
    out
}

/// Whatever is joined to a directory lies under it, whether or not the name is
/// a plain one.
pub proof fn law_joined_lies_under(dir: Seq<char>, name: Seq<char>)
    requires
        dir.len() > 0,
    ensures
        lies_under(joined_path(dir, name), dir),
{
    let full = joined_path(dir, name);
    let head = if dir.last() == '/' {
        dir
    } else {
        dir.push('/')
    };
    assert(full =~= head + name);
    assert(head.drop_last().push('/') =~= head);
    let base = segments(head).drop_last();
    lemma_segments_prefix(head, name);
    if dir.last() == '/' {
        assert(segments(dir) =~= base.push(Seq::<char>::empty()));
        assert(base.push(Seq::<char>::empty()).drop_last() =~= base);
    } else {
        assert(head.drop_last() =~= dir);
        assert(segments(head) =~= segments(dir).push(Seq::<char>::empty()));
        assert(base =~= segments(dir));
    }
    assert(components(dir) == kept(base));
    lemma_kept_prefix(segments(full), base.len() as int);
    assert(full[0] == dir[0]);
}

/// Behind a separator the segments in front of it stay as they are.
proof fn lemma_segments_prefix(head: Seq<char>, name: Seq<char>)
    requires
        head.len() > 0,
        head.last() == '/',
    ensures
        segments(head).len() > 0,
        segments(head + name).len() >= segments(head).len(),
        segments(head + name).take(segments(head).len() - 1) == segments(head).drop_last(),
    decreases name.len(),
{
    let n = segments(head).len() - 1;
    lemma_segments_plain(head);
    if name.len() == 0 {
        assert(head + name =~= head);
        assert(segments(head).take(n) =~= segments(head).drop_last());
    } else {
        let full = head + name;
        lemma_segments_prefix(head, name.drop_last());
        assert(full.drop_last() =~= head + name.drop_last());
        let before = segments(full.drop_last());
        assert(before.len() > n);
        assert(segments(full).take(n) =~= before.take(n));
    }
}

proof fn lemma_kept_prefix(segs: Seq<Seq<char>>, n: int)
    requires
        0 <= n <= segs.len(),
    ensures
        kept(segs.take(n)).len() <= kept(segs).len(),
        kept(segs).take(kept(segs.take(n)).len() as int) == kept(segs.take(n)),
    decreases segs.len(),
{
    let first = kept(segs.take(n));
    if n == segs.len() {
        assert(segs.take(n) =~= segs);
        assert(kept(segs).take(first.len() as int) =~= first);
    } else {
        let init = segs.drop_last();
        assert(init.take(n) =~= segs.take(n));
        lemma_kept_prefix(init, n);
        assert(kept(segs).take(first.len() as int) =~= kept(init).take(first.len() as int));
    }
}

/// A file name has no separator, is not empty and is neither `.` nor `..`.
pub proof fn law_file_name_is_plain(path: Seq<char>)
    requires
        name_part(path) is Some,
    ensures
        name_part(path)->0.len() > 0,
        !name_part(path)->0.contains('/'),
        name_part(path)->0 != seq!['.'],
        name_part(path)->0 != seq!['.', '.'],
{
    lemma_segments_plain(path);
    lemma_kept_plain(segments(path));
    let c = components(path);
    assert(c[c.len() - 1] == c.last());
}

proof fn lemma_segments_plain(path: Seq<char>)
    ensures
        forall|i: int| 0 <= i < segments(path).len() ==> !(#[trigger] segments(path)[i]).contains('/'),
        segments(path).len() > 0,
    decreases path.len(),
{
    if path.len() > 0 {
        lemma_segments_plain(path.drop_last());
        let before = segments(path.drop_last());
        assert forall|i: int| 0 <= i < segments(path).len() implies !(#[trigger] segments(path)[i]).contains(
            '/',
        ) by {
            if i < before.len() - 1 {
                assert(segments(path)[i] == before[i]);
            } else if path.last() == '/' {
                if i < before.len() {
                    assert(segments(path)[i] == before[i]);
                }
            } else {
                let s = before.last().push(path.last());
                assert(!before[before.len() - 1].contains('/'));
                assert(segments(path)[i] == s);
                if s.contains('/') {
                    let k = choose|k: int| 0 <= k < s.len() && s[k] == '/';
                    assert(before.last()[k] == '/');
                }
            }
        }
    }
}

proof fn lemma_kept_plain(segs: Seq<Seq<char>>)
    requires
        forall|i: int| 0 <= i < segs.len() ==> !(#[trigger] segs[i]).contains('/'),
    ensures
        forall|i: int|
            0 <= i < kept(segs).len() ==> !(#[trigger] kept(segs)[i]).contains('/') && kept(segs)[i].len()
                > 0,
    decreases segs.len(),
{
    if segs.len() > 0 {
        assert forall|i: int| 0 <= i < segs.drop_last().len() implies !(#[trigger] segs.drop_last()[i]).contains(
            '/',
        ) by {
            assert(segs.drop_last()[i] == segs[i]);
        }
        lemma_kept_plain(segs.drop_last());
        let before = kept(segs.drop_last());
        assert forall|i: int| 0 <= i < kept(segs).len() implies !(#[trigger] kept(segs)[i]).contains('/')
            && kept(segs)[i].len() > 0 by {
            if i < before.len() {
                assert(kept(segs)[i] == before[i]);
            } else {
                assert(kept(segs)[i] == segs[segs.len() - 1]);
            }
        }
    }
}

/// Whether the texts can be the components of a path.
pub open spec fn are_components(from_root: bool, c: Seq<Seq<char>>) -> bool {
    forall|i: int|
        0 <= i < c.len() ==> (#[trigger] c[i]).len() > 0 && !c[i].contains('/') && (c[i] == seq!['.'] ==> i == 0
            && !from_root)
}

proof fn lemma_segments_extend(s: Seq<char>, t: Seq<char>)
    requires
        !t.contains('/'),
    ensures
        segments(s).len() > 0,
        segments(s + t) == segments(s).drop_last().push(segments(s).last() + t),
    decreases t.len(),
{
    lemma_segments_plain(s);
    if t.len() == 0 {
        assert(s + t =~= s);
        assert(segments(s).last() + t =~= segments(s).last());
        assert(segments(s).drop_last().push(segments(s).last()) =~= segments(s));
    } else {
        let u = t.drop_last();
        assert(!u.contains('/')) by {
            if u.contains('/') {
                let k = choose|k: int| 0 <= k < u.len() && u[k] == '/';
                assert(t[k] == '/');
            }
        }
        lemma_segments_extend(s, u);
        assert((s + t).drop_last() =~= s + u);
        assert((s + t).last() == t.last());
        assert(t.last() != '/') by {
            assert(t[t.len() - 1] == t.last());
        }
        assert((segments(s).last() + u).push(t.last()) =~= segments(s).last() + t);
        assert(segments(s + t) =~= segments(s).drop_last().push(segments(s).last() + t));
    }
}

proof fn lemma_segments_joined(from_root: bool, c: Seq<Seq<char>>)
    requires
        are_components(from_root, c),
        c.len() > 0,
    ensures
        segments(rendered(from_root, c)) == (if from_root {
            seq![Seq::<char>::empty()] + c
        } else {
            c
        }),
    decreases c.len(),
{
    let none = Seq::<char>::empty();
    assert(c[c.len() - 1] == c.last());
    if c.len() == 1 {
        if from_root {
            let root = seq!['/'];
            assert(root.drop_last() =~= none);
            assert(segments(none) =~= seq![none]);
            assert(segments(root) =~= seq![none, none]);
            lemma_segments_extend(root, c[0]);
            assert(none + c[0] =~= c[0]);
            assert(segments(root + c[0]) =~= seq![none] + c);
        } else {
            lemma_segments_extend(none, c[0]);
            assert(none + c[0] =~= c[0]);
            assert(segments(none) =~= seq![none]);
            assert(segments(c[0]) =~= c);
        }
    } else {
        let before = c.drop_last();
        assert forall|i: int| 0 <= i < before.len() implies (#[trigger] before[i]).len() > 0
            && !before[i].contains('/') && (before[i] == seq!['.'] ==> i == 0 && !from_root) by {
            assert(before[i] == c[i]);
        }
        lemma_segments_joined(from_root, before);
        let shorter = rendered(from_root, before);
        let ended = shorter.push('/');
        assert(ended.drop_last() =~= shorter);
        assert(segments(ended) == segments(shorter).push(none));
        lemma_segments_extend(ended, c.last());
        assert(none + c.last() =~= c.last());
        assert(rendered(from_root, c) =~= ended + c.last());
        if from_root {
            assert(segments(rendered(from_root, c)) =~= seq![none] + c);
        } else {
            assert(segments(rendered(from_root, c)) =~= c);
        }
    }
}

proof fn lemma_kept_all(from_root: bool, c: Seq<Seq<char>>)
    requires
        are_components(from_root, c),
    ensures
        !from_root ==> kept(c) == c,
        from_root ==> kept(seq![Seq::<char>::empty()] + c) == c,
    decreases c.len(),
{
    let none = Seq::<char>::empty();
    if c.len() == 0 {
        assert(seq![none] + c =~= seq![none]);
        assert(seq![none].drop_last() =~= Seq::<Seq<char>>::empty());
        assert(kept(Seq::<Seq<char>>::empty()) =~= Seq::<Seq<char>>::empty());
        assert(kept(seq![none]) =~= Seq::<Seq<char>>::empty());
        assert(c =~= Seq::<Seq<char>>::empty());
    } else {
        let before = c.drop_last();
        assert forall|i: int| 0 <= i < before.len() implies (#[trigger] before[i]).len() > 0
            && !before[i].contains('/') && (before[i] == seq!['.'] ==> i == 0 && !from_root) by {
            assert(before[i] == c[i]);
        }
        lemma_kept_all(from_root, before);
        assert(c[c.len() - 1] == c.last());
        assert(before.push(c.last()) =~= c);
        let all = seq![none] + c;
        assert(all.drop_last() =~= seq![none] + before);
        assert(all.last() == c.last());
    }
}

/// Rendering components and taking them apart again gives the same components.
pub proof fn law_rendered_components(from_root: bool, c: Seq<Seq<char>>)
    requires
        are_components(from_root, c),
    ensures
        components(rendered(from_root, c)) == c,
        absolute(rendered(from_root, c)) == from_root,
{
    let none = Seq::<char>::empty();
    lemma_kept_all(from_root, c);
    if c.len() > 0 {
        lemma_segments_joined(from_root, c);
        lemma_joined_start(c);
    } else {
        assert(joined(c) =~= none);
        if from_root {
            let root = seq!['/'];
            assert(rendered(from_root, c) =~= root);
            assert(root.drop_last() =~= none);
            assert(segments(none) =~= seq![none]);
            assert(segments(root) =~= seq![none, none]);
            assert(seq![none, none].drop_last() =~= seq![none]);
            assert(seq![none].drop_last() =~= Seq::<Seq<char>>::empty());
            assert(kept(Seq::<Seq<char>>::empty()) =~= Seq::<Seq<char>>::empty());
            assert(kept(seq![none]) =~= Seq::<Seq<char>>::empty());
            assert(components(root) =~= c);
        } else {
            assert(segments(none) =~= seq![none]);
            assert(seq![none].drop_last() =~= Seq::<Seq<char>>::empty());
            assert(kept(Seq::<Seq<char>>::empty()) =~= Seq::<Seq<char>>::empty());
            assert(kept(seq![none]) =~= Seq::<Seq<char>>::empty());
            assert(components(none) =~= c);
        }
    }
}

proof fn lemma_joined_start(c: Seq<Seq<char>>)
    requires
        c.len() > 0,
        c[0].len() > 0,
        !c[0].contains('/'),
    ensures
        joined(c).len() > 0,
        joined(c)[0] != '/',
    decreases c.len(),
{
    if c.len() > 1 {
        assert(c.drop_last()[0] == c[0]);
        lemma_joined_start(c.drop_last());
    } else {
        assert(c[0].contains(c[0][0]));
    }
}

/// The components of a path can be those of a path.
pub proof fn lemma_components_are(path: Seq<char>)
    ensures
        are_components(absolute(path), components(path)),
{
    lemma_segments_plain(path);
    lemma_kept_plain(segments(path));
    let c = components(path);
    assert forall|i: int| 0 <= i < c.len() && c[i] == seq!['.'] implies i == 0 && !absolute(path) by {
        lemma_kept_dot(segments(path), i);
        if absolute(path) {
            lemma_absolute_start(path);
        }
    }
    assert forall|i: int| 0 <= i < c.len() implies (#[trigger] c[i]).len() > 0 && !c[i].contains('/') && (
    c[i] == seq!['.'] ==> i == 0 && !absolute(path)) by {}
}

proof fn lemma_kept_dot(segs: Seq<Seq<char>>, i: int)
    requires
        0 <= i < kept(segs).len(),
        kept(segs)[i] == seq!['.'],
    ensures
        i == 0,
        segs.len() > 0,
        segs[0] == seq!['.'],
    decreases segs.len(),
{
    let before = kept(segs.drop_last());
    if i < before.len() {
        assert(kept(segs)[i] == before[i]);
        lemma_kept_dot(segs.drop_last(), i);
        assert(segs.drop_last()[0] == segs[0]);
    } else {
        assert(kept(segs)[i] == segs.last());
        assert(segs.len() == 1);
        assert(before =~= Seq::<Seq<char>>::empty());
    }
}

proof fn lemma_absolute_start(path: Seq<char>)
    requires
        absolute(path),
    ensures
        segments(path).len() > 1,
        segments(path)[0] == Seq::<char>::empty(),
    decreases path.len(),
{
    let none = Seq::<char>::empty();
    if path.len() == 1 {
        assert(path.drop_last() =~= none);
        assert(segments(none) =~= seq![none]);
        assert(path.last() == '/');
        assert(segments(path) =~= seq![none, none]);
    } else {
        assert(path.drop_last()[0] == path[0]);
        lemma_absolute_start(path.drop_last());
    }
}

/// The directory that holds a path has the path's components but the last.
pub proof fn law_parent_components(path: Seq<char>)
    requires
        parent_part(path) is Some,
    ensures
        components(parent_part(path)->0) == components(path).drop_last(),
        absolute(parent_part(path)->0) == absolute(path),
{
    lemma_components_are(path);
    let c = components(path);
    let before = c.drop_last();
    assert forall|i: int| 0 <= i < before.len() implies (#[trigger] before[i]).len() > 0
        && !before[i].contains('/') && (before[i] == seq!['.'] ==> i == 0 && !absolute(path)) by {
        assert(before[i] == c[i]);
    }
    law_rendered_components(absolute(path), before);
}

/// A path is read segment by segment: a further one is a further component, but
/// for an empty one and a dot, which lead nowhere. Two dots are a component, and
/// so is a leading dot.
pub proof fn law_segment_by_segment(path: Seq<char>, segment: Seq<char>)
    requires
        !segment.contains('/'),
    ensures
        components(path.push('/') + segment) == (if segment.len() == 0 || segment == seq!['.'] {
            components(path)
        } else {
            components(path).push(segment)
        }),
        components(segment) == (if segment.len() == 0 {
            Seq::<Seq<char>>::empty()
        } else {
            seq![segment]
        }),
        path.len() > 0 ==> absolute(path.push('/') + segment) == absolute(path),
{
    let none = Seq::<char>::empty();
    let open = path.push('/');
    let full = open + segment;
    lemma_segments_plain(path);
    assert(open.drop_last() =~= path);
    assert(segments(open) =~= segments(path).push(none));
    lemma_segments_extend(open, segment);
    assert(none + segment =~= segment);
    assert(segments(full) =~= segments(path).push(segment));
    assert(segments(full).drop_last() =~= segments(path));
    lemma_segments_extend(none, segment);
    assert(none + segment =~= segment);
    assert(segments(segment) =~= seq![segment]);
    assert(seq![segment].drop_last() =~= Seq::<Seq<char>>::empty());
    assert(seq![segment].last() == segment);
    reveal_with_fuel(kept, 2);
    assert(components(segment) =~= (if segment.len() == 0 {
        Seq::<Seq<char>>::empty()
    } else {
        seq![segment]
    }));
}

} // verus!

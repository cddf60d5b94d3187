//! Ignore rules: what is kept out of the sync and out of the history.
//!
//! Applications and expressions act on text, file patterns on file lists,
//! pasteboard types on everything. File patterns filter: the rest of a batch
//! goes through.

use vstd::prelude::*;
use crate::clipboard::{self, ClipboardContent, ContentView, FilePath, FilePathView};
use crate::glob::{self, folded, glob_matches};
use crate::paths::{self, components, name_part};
use crate::settings::{IgnoreSettings, IgnoreView, IgnoredAppView};
use crate::text::{self, occurs, opt_view, trimmed, views};

verus! {

/// A compiled regular expression of the `regex` crate.
#[verifier::external_type_specification]
#[verifier::external_body]
pub struct ExRegex(regex::Regex);

/// The error of the `regex` crate.
#[verifier::external_type_specification]
#[verifier::external_body]
pub struct ExRegexError(regex::Error);

/// Whether the pattern compiles.
pub uninterp spec fn regex_compiles(pattern: Seq<char>) -> bool;

/// The pattern that an expression was compiled from.
pub uninterp spec fn regex_source(re: regex::Regex) -> Seq<char>;

/// Whether the expression occurs anywhere in the text.
pub uninterp spec fn regex_found(pattern: Seq<char>, text: Seq<char>) -> bool;

/// `regex::Regex::new`: compiles the pattern. Whether it does is a function of
/// the pattern, and so is what the expression matches.
#[verifier::external_body]
fn compile(pattern: &str) -> (r: Result<regex::Regex, regex::Error>)
    ensures
        match r {
            Ok(re) => regex_compiles(pattern@) && regex_source(re) == pattern@,
            Err(_) => !regex_compiles(pattern@),
        },
{
    regex::Regex::new(pattern)
}

/// `regex::Regex::is_match`: whether there is a match anywhere in the text, a
/// function of the pattern and the text.
#[verifier::external_body]
fn is_match(re: &regex::Regex, text: &str) -> (r: bool)
    ensures
        r == regex_found(regex_source(*re), text@),
{
    re.is_match(text)
}

/// The verdict on one clipboard change.
#[derive(Debug, PartialEq, Eq)]
pub struct IgnoreVerdict {
    /// Keep it out of the sync
    pub suppress_sync: bool,
    /// Keep it out of the history
    pub suppress_record: bool,
    /// Paths to keep out of the sync
    pub broadcast_files_excluded: Vec<FilePath>,
    /// Paths to keep out of the history
    pub record_files_excluded: Vec<FilePath>,
}

/// What an [`IgnoreVerdict`] stands for.
#[verifier::ext_equal]
pub struct IgnoreVerdictView {
    pub suppress_sync: bool,
    pub suppress_record: bool,
    pub broadcast_files_excluded: Seq<FilePathView>,
    pub record_files_excluded: Seq<FilePathView>,
}

impl View for IgnoreVerdict {
    type V = IgnoreVerdictView;

    open spec fn view(&self) -> IgnoreVerdictView {
        IgnoreVerdictView {
            suppress_sync: self.suppress_sync,
            suppress_record: self.suppress_record,
            broadcast_files_excluded: views(self.broadcast_files_excluded@),
            record_files_excluded: views(self.record_files_excluded@),
        }
    }
}

/// The verdict that lets everything through.
pub open spec fn clean() -> IgnoreVerdictView {
    IgnoreVerdictView {
        suppress_sync: false,
        suppress_record: false,
        broadcast_files_excluded: Seq::empty(),
        record_files_excluded: Seq::empty(),
    }
}

impl Default for IgnoreVerdict {
    fn default() -> (r: Self)
        ensures
            r@ == clean(),
    {
        let r = IgnoreVerdict {
            suppress_sync: false,
            suppress_record: false,
            broadcast_files_excluded: Vec::new(),
            record_files_excluded: Vec::new(),
        };
        proof {
            assert(r@ =~= clean());
        }
        r
    }
}

/// The lines of a text.
pub open spec fn lines_of(s: Seq<char>) -> Seq<Seq<char>>
    decreases s.len(),
{
    if s.len() == 0 {
        seq![Seq::<char>::empty()]
    } else {
        let before = lines_of(s.drop_last());
        if s.last() == '\n' {
            before.push(Seq::<char>::empty())
        } else {
            before.drop_last().push(before.last().push(s.last()))
        }
    }
}

/// The file patterns among the lines: without the space around them, blank
/// lines and `#` comments left out.
pub open spec fn patterns_among(lines: Seq<Seq<char>>) -> Seq<Seq<char>>
    decreases lines.len(),
{
    if lines.len() == 0 {
        Seq::empty()
    } else {
        let before = patterns_among(lines.drop_last());
        let line = trimmed(lines.last());
        if line.len() > 0 && line[0] != '#' {
            before.push(line)
        } else {
            before
        }
    }
}

/// The file patterns of a text, one per line.
pub open spec fn patterns_of(s: Seq<char>) -> Seq<Seq<char>> {
    patterns_among(lines_of(s))
}

/// What a pattern is held against: the full path if it has a separator, the
/// file name otherwise.
pub open spec fn target_of(pattern: Seq<char>, full: Seq<char>) -> Seq<char> {
    if pattern.contains('/') {
        full
    } else {
        match name_part(full) {
            Some(name) => name,
            None => Seq::empty(),
        }
    }
}

/// Whether a file pattern matches a path.
pub open spec fn pattern_takes(pattern: Seq<char>, full: Seq<char>) -> bool {
    glob_matches(folded(pattern), folded(target_of(pattern, full)))
}

/// Whether one of the patterns matches the path.
pub open spec fn some_pattern_takes(patterns: Seq<Seq<char>>, full: Seq<char>) -> bool {
    exists|k: int| 0 <= k < patterns.len() && pattern_takes(#[trigger] patterns[k], full)
}

/// Whether an expression matches a text; one that does not compile counts as
/// a literal text.
pub open spec fn expression_hits(pattern: Seq<char>, text: Seq<char>) -> bool {
    if regex_compiles(pattern) {
        regex_found(pattern, text)
    } else {
        occurs(pattern, text)
    }
}

/// Whether one of the expressions matches the text; empty ones are left out.
pub open spec fn some_expression_hits(patterns: Seq<Seq<char>>, text: Seq<char>) -> bool {
    exists|k: int|
        0 <= k < patterns.len() && (#[trigger] patterns[k]).len() > 0 && expression_hits(
            patterns[k],
            text,
        )
}

/// Whether an application is in the list.
pub open spec fn has_app(apps: Seq<IgnoredAppView>, id: Seq<char>) -> bool {
    exists|i: int| 0 <= i < apps.len() && (#[trigger] apps[i]).id == id
}

impl IgnoreView {
    /// Whether a type of the change is ignored.
    pub open spec fn type_hit(self, types: Seq<Seq<char>>) -> bool {
        exists|i: int| 0 <= i < types.len() && self.types.contains(#[trigger] types[i])
    }

    /// Whether the application is ignored.
    pub open spec fn app_hit(self, app: Option<Seq<char>>) -> bool {
        match app {
            Some(id) => has_app(self.apps, id),
            None => false,
        }
    }

    /// Whether the text is ignored.
    pub open spec fn text_hit(self, text: Seq<char>) -> bool {
        some_expression_hits(self.regexes, text)
    }

    /// The paths that the file patterns match.
    pub open spec fn file_hits(self, paths: Seq<FilePathView>) -> Seq<FilePathView> {
        paths.filter(self.takes_path())
    }

    /// Whether a file pattern matches the path.
    pub open spec fn takes_path(self) -> spec_fn(FilePathView) -> bool {
        |p: FilePathView| some_pattern_takes(patterns_of(self.file_patterns), p.lossy())
    }

    /// The verdict on a change: every kind of rule that matches adds its
    /// toggles.
    pub open spec fn verdict(
        self,
        content: ContentView,
        types: Seq<Seq<char>>,
        app: Option<Seq<char>>,
    ) -> IgnoreVerdictView {
        let text = match content {
            ContentView::Text(t) => Some(t),
            _ => None,
        };
        let by_type = self.type_hit(types);
        let by_app = text is Some && self.app_hit(app);
        let by_text = text is Some && self.text_hit(text->0);
        let hits = match content {
            ContentView::Files(paths) => self.file_hits(paths),
            _ => Seq::empty(),
        };
        IgnoreVerdictView {
            suppress_sync: by_type && self.types_sync || by_app && self.apps_sync || by_text
                && self.regex_sync,
            suppress_record: by_type && self.types_record || by_app && self.apps_record || by_text
                && self.regex_record,
            broadcast_files_excluded: if self.files_sync {
                hits
            } else {
                Seq::empty()
            },
            record_files_excluded: if self.files_record {
                hits
            } else {
                Seq::empty()
            },
        }
    }
}

/// The patterns that the expressions were compiled from.
spec fn sources(res: Seq<regex::Regex>) -> Seq<Seq<char>> {
    res.map_values(|re: regex::Regex| regex_source(re))
}

/// The expressions stand for the patterns that compile.
spec fn stand_for(sources: Seq<Seq<char>>, all: Seq<Seq<char>>, compiling: bool) -> bool {
    &&& forall|i: int|
        0 <= i < all.len() && (#[trigger] all[i]).len() > 0 && regex_compiles(all[i]) == compiling
            ==> sources.contains(all[i])
    &&& forall|k: int|
        0 <= k < sources.len() ==> (#[trigger] sources[k]).len() > 0 && regex_compiles(sources[k])
            == compiling && all.contains(sources[k])
}

/// The rules, compiled.
pub struct IgnoreRules {
    config: IgnoreSettings,
    regexes: Vec<regex::Regex>,
    literals: Vec<String>,
    patterns: Vec<String>,
}

impl View for IgnoreRules {
    type V = IgnoreView;

    closed spec fn view(&self) -> IgnoreView {
        self.config@
    }
}

/// Takes a finished line in, if it is a pattern.
fn finish_line(out: &mut Vec<String>, line: &Vec<char>, Ghost(done): Ghost<Seq<Seq<char>>>)
    requires
        views(old(out)@) == patterns_among(done),
    ensures
        views(final(out)@) == patterns_among(done.push(line@)),
{
    proof {
        assert(done.push(line@).drop_last() =~= done);
    }
    let trim = text::trim_chars(line.as_slice());
    let chars: Vec<char> = text::chars_of(trim.as_str());
    if chars.len() > 0 && chars[0] != '#' {
        let ghost before = out@;
        out.push(trim);
        proof {
            assert(views(out@) =~= views(before).push(trim@));
        }
    }
}

/// The file patterns of a text, one per line.
pub fn parse_patterns(s: &str) -> (r: Vec<String>)
    ensures
        views(r@) == patterns_of(s@),
{
    let chars: Vec<char> = text::chars_of(s);
    let mut out: Vec<String> = Vec::new();
    let mut line: Vec<char> = Vec::new();
    let ghost mut done: Seq<Seq<char>> = Seq::empty();
    let mut i: usize = 0;
    proof {
        assert(views(out@) =~= patterns_among(done));
        assert(done.push(line@) =~= lines_of(s@.take(0)));
    }
    while i < chars.len()
        invariant
            i <= chars.len(),
            chars@ == s@,
            views(out@) == patterns_among(done),
            done.push(line@) == lines_of(s@.take(i as int)),
        decreases chars.len() - i,
    {
        proof {
            assert(s@.take(i + 1).drop_last() =~= s@.take(i as int));
            assert(done.push(line@).drop_last() =~= done);
            assert(done.push(line@).last() == line@);
        }
        if chars[i] == '\n' {
            finish_line(&mut out, &line, Ghost(done));
            proof {
                done = done.push(line@);
            }
            line = Vec::new();
            proof {
                assert(done.push(line@) =~= lines_of(s@.take(i + 1)));
            }
        } else {
            line.push(chars[i]);
        }
        i += 1;
    }
    proof {
        assert(s@.take(chars.len() as int) =~= s@);
    }
    finish_line(&mut out, &line, Ghost(done));
    out
}

fn has_slash(s: &str) -> (r: bool)
    ensures
        r == s@.contains('/'),
{
    let chars: Vec<char> = text::chars_of(s);
    let mut i: usize = 0;
    while i < chars.len()
        invariant
            i <= chars.len(),
            chars@ == s@,
            forall|j: int| 0 <= j < i ==> s@[j] != '/',
        decreases chars.len() - i,
    {
        if chars[i] == '/' {
            return true;
        }
        i += 1;
    }
    false
}

fn holds_text(list: &Vec<String>, s: &str) -> (r: bool)
    ensures
        r == views(list@).contains(s@),
{
    let mut i: usize = 0;
    while i < list.len()
        invariant
            i <= list.len(),
            forall|j: int| 0 <= j < i ==> list@[j]@ != s@,
        decreases list.len() - i,
    {
        if text::same(list[i].as_str(), s) {
            proof {
                assert(views(list@)[i as int] == s@);
            }
            return true;
        }
        i += 1;
    }
    proof {
        assert forall|j: int| 0 <= j < views(list@).len() implies views(list@)[j] != s@ by {
            assert(list@[j]@ != s@);
        }
    }
    false
}

impl IgnoreRules {
    /// The compiled parts belong to the settings.
    #[verifier::type_invariant]
    spec fn wf(self) -> bool {
        &&& stand_for(sources(self.regexes@), self.config@.regexes, true)
        &&& stand_for(views(self.literals@), self.config@.regexes, false)
        &&& views(self.patterns@) == patterns_of(self.config@.file_patterns)
    }

    /// Compiles the rules.
    pub fn new(settings: &IgnoreSettings) -> (r: IgnoreRules)
        ensures
            r@ == settings@,
    {
        let config = settings.duplicate();
        let ghost all = config@.regexes;
        let mut regexes: Vec<regex::Regex> = Vec::new();
        let mut literals: Vec<String> = Vec::new();
        let mut i: usize = 0;
        proof {
            assert(views(config.regexes@) =~= all);
        }
        while i < config.regexes.len()
            invariant
                i <= config.regexes.len(),
                all == views(config.regexes@),
                stand_for(sources(regexes@), all.take(i as int), true),
                stand_for(views(literals@), all.take(i as int), false),
            decreases config.regexes.len() - i,
        {
            let ghost p = all[i as int];
            let ghost before = all.take(i as int);
            let ghost had = sources(regexes@);
            let ghost kept = views(literals@);
            proof {
                assert(p == config.regexes@[i as int]@);
                assert(all.take(i + 1) =~= before.push(p));
            }
            if !config.regexes[i].as_str().is_empty() {
                match compile(config.regexes[i].as_str()) {
                    Ok(re) => {
                        regexes.push(re);
                        proof {
                            assert(sources(regexes@) =~= had.push(p));
                            lemma_stand_for_taken(had, before, p, true);
                            lemma_stand_for_passed(kept, before, p, false);
                        }
                    },
                    Err(_) => {
                        literals.push(config.regexes[i].clone());
                        proof {
                            assert(views(literals@) =~= kept.push(p));
                            lemma_stand_for_taken(kept, before, p, false);
                            lemma_stand_for_passed(had, before, p, true);
                        }
                    },
                }
            } else {
                proof {
                    lemma_stand_for_passed(had, before, p, true);
                    lemma_stand_for_passed(kept, before, p, false);
                }
            }
            i += 1;
        }
        proof {
            assert(all.take(config.regexes.len() as int) =~= all);
        }
        let patterns = parse_patterns(config.file_patterns.as_str());
        IgnoreRules { config, regexes, literals, patterns }
    }

    /// Whether some application rule can match at all.
    pub fn wants_source_app(&self) -> (r: bool)
        ensures
            r == (self@.apps.len() > 0 && (self@.apps_sync || self@.apps_record)),
    {
        self.config.apps.len() > 0 && (self.config.apps_sync || self.config.apps_record)
    }

    fn matches_text(&self, s: &str) -> (r: bool)
        ensures
            r == self@.text_hit(s@),
    {
        proof {
            use_type_invariant(&*self);
        }
        let ghost all = self.config@.regexes;
        let ghost lits = views(self.literals@);
        let ghost srcs = sources(self.regexes@);
        let mut i: usize = 0;
        while i < self.literals.len()
            invariant
                i <= self.literals.len(),
                lits == views(self.literals@),
                all == self.config@.regexes,
                stand_for(lits, all, false),
                forall|j: int| 0 <= j < i ==> !occurs(#[trigger] lits[j], s@),
            decreases self.literals.len() - i,
        {
            proof {
                assert(lits[i as int] == self.literals@[i as int]@);
            }
            if text::contains(s, self.literals[i].as_str()) {
                proof {
                    let p = lits[i as int];
                    assert(all.contains(p));
                    let k = choose|k: int| 0 <= k < all.len() && all[k] == p;
                    assert(all[k].len() > 0 && expression_hits(all[k], s@));
                }
                return true;
            }
            i += 1;
        }
        let mut j: usize = 0;
        while j < self.regexes.len()
            invariant
                j <= self.regexes.len(),
                srcs == sources(self.regexes@),
                all == self.config@.regexes,
                stand_for(srcs, all, true),
                forall|k: int| 0 <= k < j ==> !regex_found(#[trigger] srcs[k], s@),
            decreases self.regexes.len() - j,
        {
            proof {
                assert(srcs[j as int] == regex_source(self.regexes@[j as int]));
            }
            if is_match(&self.regexes[j], s) {
                proof {
                    let p = srcs[j as int];
                    assert(all.contains(p));
                    let k = choose|k: int| 0 <= k < all.len() && all[k] == p;
                    assert(all[k].len() > 0 && expression_hits(all[k], s@));
                }
                return true;
            }
            j += 1;
        }
        proof {
            if some_expression_hits(all, s@) {
                let k = choose|k: int|
                    0 <= k < all.len() && (#[trigger] all[k]).len() > 0 && expression_hits(all[k], s@);
                if regex_compiles(all[k]) {
                    assert(srcs.contains(all[k]));
                    let m = choose|m: int| 0 <= m < srcs.len() && srcs[m] == all[k];
                    assert(!regex_found(srcs[m], s@));
                } else {
                    assert(lits.contains(all[k]));
                    let m = choose|m: int| 0 <= m < lits.len() && lits[m] == all[k];
                    assert(!occurs(lits[m], s@));
                }
            }
        }
        false
    }

    fn matches_file(&self, path: &FilePath) -> (r: bool)
        ensures
            r == self@.takes_path()(path@),
    {
        proof {
            use_type_invariant(&*self);
        }
        let full = path.lossy();
        let name = match paths::file_name(full) {
            Some(name) => name,
            None => String::new(),
        };
        let ghost pats = patterns_of(self.config@.file_patterns);
        let mut i: usize = 0;
        while i < self.patterns.len()
            invariant
                i <= self.patterns.len(),
                pats == views(self.patterns@),
                pats == patterns_of(self@.file_patterns),
                full@ == path@.lossy(),
                name@ == (match name_part(full@) {
                    Some(n) => n,
                    None => Seq::empty(),
                }),
                forall|j: int| 0 <= j < i ==> !pattern_takes(#[trigger] pats[j], full@),
            decreases self.patterns.len() - i,
        {
            proof {
                assert(pats[i as int] == self.patterns@[i as int]@);
            }
            let pattern = self.patterns[i].as_str();
            let hit = if has_slash(pattern) {
                glob::glob_match(pattern, full)
            } else {
                glob::glob_match(pattern, name.as_str())
            };
            if hit {
                proof {
                    assert(pattern_takes(pats[i as int], full@));
                }
                return true;
            }
            i += 1;
        }
        false
    }

    fn matched_files(&self, list: &Vec<FilePath>) -> (r: Vec<FilePath>)
        ensures
            views(r@) == self@.file_hits(views(list@)),
    {
        let ghost all = views(list@);
        let ghost p = self@.takes_path();
        let mut out: Vec<FilePath> = Vec::new();
        let mut i: usize = 0;
        proof {
            reveal(Seq::filter);
            assert(views(out@) =~= all.take(0).filter(p));
        }
        while i < list.len()
            invariant
                i <= list.len(),
                all == views(list@),
                p == self@.takes_path(),
                views(out@) == all.take(i as int).filter(p),
            decreases list.len() - i,
        {
            let ghost before = out@;
            proof {
                reveal(Seq::filter);
                assert(all.take(i + 1).drop_last() =~= all.take(i as int));
                assert(all[i as int] == list@[i as int]@);
            }
            if self.matches_file(&list[i]) {
                out.push(list[i].duplicate());
                proof {
                    assert(views(out@) =~= views(before).push(list@[i as int]@));
                }
            }
            i += 1;
        }
        proof {
            assert(all.take(list.len() as int) =~= all);
        }
        out
    }

    fn matches_types(&self, types: &Vec<String>) -> (r: bool)
        ensures
            r == self@.type_hit(views(types@)),
    {
        let ghost all = views(types@);
        let mut i: usize = 0;
        while i < types.len()
            invariant
                i <= types.len(),
                all == views(types@),
                forall|j: int| 0 <= j < i ==> !self@.types.contains(#[trigger] all[j]),
            decreases types.len() - i,
        {
            proof {
                assert(all[i as int] == types@[i as int]@);
            }
            if holds_text(&self.config.types, types[i].as_str()) {
                proof {
                    assert(self@.types.contains(all[i as int]));
                }
                return true;
            }
            i += 1;
        }
        false
    }

    fn matches_app(&self, app: &Option<String>) -> (r: bool)
        ensures
            r == self@.app_hit(opt_view(*app)),
    {
        match app {
            None => false,
            Some(id) => {
                let ghost all = self@.apps;
                let mut i: usize = 0;
                while i < self.config.apps.len()
                    invariant
                        i <= self.config.apps.len(),
                        all == self@.apps,
                        all == views(self.config.apps@),
                        opt_view(*app) == Some(id@),
                        forall|j: int| 0 <= j < i ==> (#[trigger] all[j]).id != id@,
                    decreases self.config.apps.len() - i,
                {
                    proof {
                        assert(all[i as int] == self.config.apps@[i as int]@);
                    }
                    if text::same(self.config.apps[i].id.as_str(), id.as_str()) {
                        proof {
                            assert(all[i as int].id == id@);
                            assert(has_app(all, id@));
                        }
                        return true;
                    }
                    i += 1;
                }
                false
            },
        }
    }

    /// Judges one clipboard change. Without an application the application
    /// rules do not apply.
    pub fn evaluate(&self, content: &ClipboardContent, types: &Vec<String>, app: &Option<String>) -> (r: IgnoreVerdict)
        ensures
            r@ == self@.verdict(content@, views(types@), opt_view(*app)),
    {
        let by_type = self.matches_types(types);
        let mut by_app = false;
        let mut by_text = false;
        let mut broadcast: Vec<FilePath> = Vec::new();
        let mut record: Vec<FilePath> = Vec::new();
        proof {
            assert(views(broadcast@) =~= Seq::<FilePathView>::empty());
        }
        match content {
            ClipboardContent::Text(t) => {
                by_app = self.matches_app(app);
                by_text = self.matches_text(t.as_str());
            },
            ClipboardContent::Files(list) => {
                let hits = self.matched_files(list);
                if self.config.files_sync {
                    broadcast = clipboard::duplicate_paths(&hits);
                }
                if self.config.files_record {
                    record = hits;
                }
            },
            _ => {},
        }
        IgnoreVerdict {
            suppress_sync: by_type && self.config.types_sync || by_app && self.config.apps_sync
                || by_text && self.config.regex_sync,
            suppress_record: by_type && self.config.types_record || by_app && self.config.apps_record
                || by_text && self.config.regex_record,
            broadcast_files_excluded: broadcast,
            record_files_excluded: record,
        }
    }
}

proof fn lemma_stand_for_taken(had: Seq<Seq<char>>, all: Seq<Seq<char>>, p: Seq<char>, compiling: bool)
    requires
        stand_for(had, all, compiling),
        p.len() > 0,
        regex_compiles(p) == compiling,
    ensures
        stand_for(had.push(p), all.push(p), compiling),
{
    let more = all.push(p);
    let now = had.push(p);
    assert(now[had.len() as int] == p);
    assert(more[all.len() as int] == p);
    assert forall|i: int|
        0 <= i < more.len() && (#[trigger] more[i]).len() > 0 && regex_compiles(more[i]) == compiling
        implies now.contains(more[i]) by {
        if i < all.len() {
            assert(more[i] == all[i]);
            assert(had.contains(all[i]));
            let k = choose|k: int| 0 <= k < had.len() && had[k] == all[i];
            assert(now[k] == all[i]);
        }
    }
    assert forall|k: int| 0 <= k < now.len() implies (#[trigger] now[k]).len() > 0 && regex_compiles(
        now[k],
    ) == compiling && more.contains(now[k]) by {
        if k < had.len() {
            assert(now[k] == had[k]);
            assert(all.contains(had[k]));
            let i = choose|i: int| 0 <= i < all.len() && all[i] == had[k];
            assert(more[i] == had[k]);
        }
    }
}

proof fn lemma_stand_for_passed(had: Seq<Seq<char>>, all: Seq<Seq<char>>, p: Seq<char>, compiling: bool)
    requires
        stand_for(had, all, compiling),
        p.len() == 0 || regex_compiles(p) != compiling,
    ensures
        stand_for(had, all.push(p), compiling),
{
    let more = all.push(p);
    assert forall|i: int|
        0 <= i < more.len() && (#[trigger] more[i]).len() > 0 && regex_compiles(more[i]) == compiling
        implies had.contains(more[i]) by {
        if i < all.len() {
            assert(more[i] == all[i]);
            assert(had.contains(all[i]));
        }
    }
    assert forall|k: int| 0 <= k < had.len() implies (#[trigger] had[k]).len() > 0 && regex_compiles(
        had[k],
    ) == compiling && more.contains(had[k]) by {
        assert(all.contains(had[k]));
        let i = choose|i: int| 0 <= i < all.len() && all[i] == had[k];
        assert(more[i] == had[k]);
    }
}

/// A kind of rule with both toggles off changes nothing.
pub proof fn law_switched_off_rules_are_inert(
    s: IgnoreView,
    content: ContentView,
    types: Seq<Seq<char>>,
    app: Option<Seq<char>>,
)
    requires
        !s.types_sync && !s.types_record,
        !s.apps_sync && !s.apps_record,
        !s.regex_sync && !s.regex_record,
        !s.files_sync && !s.files_record,
    ensures
        s.verdict(content, types, app) == clean(),
{
}

/// File patterns filter: on a file list, only pasteboard types can keep the
/// whole change out.
pub proof fn law_file_rules_only_filter(
    s: IgnoreView,
    paths: Seq<FilePathView>,
    types: Seq<Seq<char>>,
    app: Option<Seq<char>>,
)
    requires
        !s.type_hit(types),
    ensures
        !s.verdict(ContentView::Files(paths), types, app).suppress_sync,
        !s.verdict(ContentView::Files(paths), types, app).suppress_record,
{
}

/// The application rule acts on text only, and without an application on
/// nothing.
pub proof fn law_application_rule_acts_on_text(
    s: IgnoreView,
    content: ContentView,
    types: Seq<Seq<char>>,
    app: Option<Seq<char>>,
)
    ensures
        !(content is Text) ==> s.verdict(content, types, app) == s.verdict(content, types, None),
{
}

/// A text that an expression matches is kept out of every leg that the toggles
/// of the expressions name. An expression that compiles matches where it is
/// found; one that does not is looked for as it is written.
pub proof fn law_matching_expression_suppresses(
    s: IgnoreView,
    text: Seq<char>,
    types: Seq<Seq<char>>,
    app: Option<Seq<char>>,
    k: int,
    before: Seq<char>,
    behind: Seq<char>,
)
    requires
        0 <= k < s.regexes.len(),
        s.regexes[k].len() > 0,
        if regex_compiles(s.regexes[k]) {
            regex_found(s.regexes[k], text)
        } else {
            text == before + s.regexes[k] + behind
        },
    ensures
        s.regex_sync ==> s.verdict(ContentView::Text(text), types, app).suppress_sync,
        s.regex_record ==> s.verdict(ContentView::Text(text), types, app).suppress_record,
{
    let p = s.regexes[k];
    if !regex_compiles(p) {
        assert(text.subrange(before.len() as int, (before.len() + p.len()) as int) =~= p);
        assert(text::occurs_at(p, text, before.len() as int));
    }
    assert(expression_hits(s.regexes[k], text));
}

/// Text out of an ignored application is kept out of every leg that the
/// toggles of the applications name.
pub proof fn law_ignored_application_suppresses(
    s: IgnoreView,
    text: Seq<char>,
    types: Seq<Seq<char>>,
    i: int,
)
    requires
        0 <= i < s.apps.len(),
    ensures
        s.apps_sync ==> s.verdict(ContentView::Text(text), types, Some(s.apps[i].id)).suppress_sync,
        s.apps_record ==> s.verdict(
            ContentView::Text(text),
            types,
            Some(s.apps[i].id),
        ).suppress_record,
{
    assert(has_app(s.apps, s.apps[i].id));
}

/// A change that carries an ignored type, whatever its content, is kept out of
/// every leg that the toggles of the types name.
pub proof fn law_ignored_type_suppresses(
    s: IgnoreView,
    content: ContentView,
    types: Seq<Seq<char>>,
    app: Option<Seq<char>>,
    i: int,
    k: int,
)
    requires
        0 <= i < types.len(),
        0 <= k < s.types.len(),
        types[i] == s.types[k],
    ensures
        s.types_sync ==> s.verdict(content, types, app).suppress_sync,
        s.types_record ==> s.verdict(content, types, app).suppress_record,
{
    assert(s.types.contains(types[i]));
}

/// None of the types that a change carries is ignored.
pub open spec fn types_spared(s: IgnoreView, types: Seq<Seq<char>>) -> bool {
    forall|i: int, k: int|
        0 <= i < types.len() && 0 <= k < s.types.len() ==> #[trigger] types[i] != #[trigger] s.types[k]
}

/// The change is no text, or the application that it came from is not known or
/// not ignored.
pub open spec fn app_spared(s: IgnoreView, content: ContentView, app: Option<Seq<char>>) -> bool {
    content is Text && app is Some ==> forall|i: int|
        0 <= i < s.apps.len() ==> (#[trigger] s.apps[i]).id != app->0
}

/// The change is no text, or no expression matches it.
pub open spec fn text_spared(s: IgnoreView, content: ContentView) -> bool {
    match content {
        ContentView::Text(t) => forall|k: int|
            0 <= k < s.regexes.len() && (#[trigger] s.regexes[k]).len() > 0 ==> if regex_compiles(
                s.regexes[k],
            ) {
                !regex_found(s.regexes[k], t)
            } else {
                forall|a: Seq<char>, b: Seq<char>| t != #[trigger] (a + s.regexes[k] + b)
            },
        _ => true,
    }
}

/// A leg is suppressed only where some kind of rule that matches has the toggle
/// of that leg on.
pub proof fn law_suppression_has_a_cause(
    s: IgnoreView,
    content: ContentView,
    types: Seq<Seq<char>>,
    app: Option<Seq<char>>,
)
    ensures
        s.verdict(content, types, app).suppress_sync ==> {
            ||| s.types_sync && !types_spared(s, types)
            ||| s.apps_sync && !app_spared(s, content, app)
            ||| s.regex_sync && !text_spared(s, content)
        },
        s.verdict(content, types, app).suppress_record ==> {
            ||| s.types_record && !types_spared(s, types)
            ||| s.apps_record && !app_spared(s, content, app)
            ||| s.regex_record && !text_spared(s, content)
        },
{
    if s.type_hit(types) {
        let i = choose|i: int| 0 <= i < types.len() && s.types.contains(#[trigger] types[i]);
        let k = choose|k: int| 0 <= k < s.types.len() && s.types[k] == types[i];
        assert(types[i] == s.types[k]);
    }
    match content {
        ContentView::Text(t) => {
            if s.text_hit(t) {
                let k = choose|k: int|
                    0 <= k < s.regexes.len() && (#[trigger] s.regexes[k]).len() > 0
                        && expression_hits(s.regexes[k], t);
                let p = s.regexes[k];
                if !regex_compiles(p) {
                    let i = choose|i: int| text::occurs_at(p, t, i);
                    let a = t.take(i);
                    let b = t.skip(i + p.len());
                    assert(t =~= a + s.regexes[k] + b);
                }
            }
        },
        _ => {},
    }
}

/// The kinds of rules do not look at one another: what the toggles and lists of
/// one leg are makes no difference to the other leg.
pub proof fn law_legs_are_independent(
    s: IgnoreView,
    content: ContentView,
    types: Seq<Seq<char>>,
    app: Option<Seq<char>>,
    a: bool,
    b: bool,
    c: bool,
    d: bool,
)
    ensures
        ({
            let v = s.verdict(content, types, app);
            let other = IgnoreView {
                types_sync: a,
                apps_sync: b,
                regex_sync: c,
                files_sync: d,
                ..s
            }.verdict(content, types, app);
            &&& other.suppress_record == v.suppress_record
            &&& other.record_files_excluded == v.record_files_excluded
        }),
        ({
            let v = s.verdict(content, types, app);
            let other = IgnoreView {
                types_record: a,
                apps_record: b,
                regex_record: c,
                files_record: d,
                ..s
            }.verdict(content, types, app);
            &&& other.suppress_sync == v.suppress_sync
            &&& other.broadcast_files_excluded == v.broadcast_files_excluded
        }),
{
    match content {
        ContentView::Files(paths) => {
            let x = IgnoreView { types_sync: a, apps_sync: b, regex_sync: c, files_sync: d, ..s };
            let y = IgnoreView {
                types_record: a,
                apps_record: b,
                regex_record: c,
                files_record: d,
                ..s
            };
            assert(x.takes_path() =~= s.takes_path());
            assert(y.takes_path() =~= s.takes_path());
        },
        _ => {},
    }
}

/// A file is left out of a leg exactly where the toggle of that leg is on and
/// one of the file patterns takes its path. Whatever is left out is one of the
/// files, and nothing but a file list has anything left out.
pub proof fn law_file_patterns_filter(
    s: IgnoreView,
    content: ContentView,
    types: Seq<Seq<char>>,
    app: Option<Seq<char>>,
    path: FilePathView,
)
    ensures
        ({
            let v = s.verdict(content, types, app);
            let matched = exists|k: int|
                0 <= k < patterns_of(s.file_patterns).len() && pattern_takes(
                    #[trigger] patterns_of(s.file_patterns)[k],
                    path.lossy(),
                );
            let listed = match content {
                ContentView::Files(paths) => paths.contains(path),
                _ => false,
            };
            &&& v.broadcast_files_excluded.contains(path) <==> s.files_sync && listed && matched
            &&& v.record_files_excluded.contains(path) <==> s.files_record && listed && matched
            &&& s.files_sync && s.files_record ==> v.broadcast_files_excluded
                == v.record_files_excluded
            &&& content is Files ==> v.broadcast_files_excluded.len() <= content->Files_0.len()
            &&& !s.files_sync || !(content is Files) ==> v.broadcast_files_excluded.len() == 0
            &&& !s.files_record || !(content is Files) ==> v.record_files_excluded.len() == 0
        }),
{
    match content {
        ContentView::Files(paths) => {
            let p = s.takes_path();
            let hits = paths.filter(p);
            paths.lemma_filter_len(p);
            if paths.contains(path) && p(path) {
                let i = choose|i: int| 0 <= i < paths.len() && paths[i] == path;
                paths.lemma_filter_contains(p, i);
            }
            if hits.contains(path) {
                let j = choose|j: int| 0 <= j < hits.len() && hits[j] == path;
                paths.lemma_filter_pred(p, j);
                paths.lemma_filter_contains_rev(p, path);
            }
        },
        _ => {},
    }
}

proof fn lemma_patterns_add(x: Seq<Seq<char>>, y: Seq<Seq<char>>)
    ensures
        patterns_among(x + y) == patterns_among(x) + patterns_among(y),
    decreases y.len(),
{
    if y.len() == 0 {
        assert(x + y =~= x);
        assert(patterns_among(x) + patterns_among(y) =~= patterns_among(x));
    } else {
        assert((x + y).drop_last() =~= x + y.drop_last());
        assert((x + y).last() == y.last());
        lemma_patterns_add(x, y.drop_last());
        assert(patterns_among(x + y) =~= patterns_among(x) + patterns_among(y));
    }
}

proof fn lemma_lines_add(a: Seq<char>, b: Seq<char>)
    ensures
        lines_of(a.push('\n') + b) == lines_of(a) + lines_of(b),
        lines_of(b).len() > 0,
    decreases b.len(),
{
    let whole = a.push('\n') + b;
    if b.len() == 0 {
        assert(whole =~= a.push('\n'));
        assert(whole.drop_last() =~= a);
        assert(lines_of(whole) =~= lines_of(a) + lines_of(b));
    } else {
        let rest = b.drop_last();
        assert(whole.drop_last() =~= a.push('\n') + rest);
        assert(whole.last() == b.last());
        lemma_lines_add(a, rest);
        let x = lines_of(a);
        let y = lines_of(rest);
        assert((x + y).last() == y.last());
        assert((x + y).drop_last() =~= x + y.drop_last());
        assert(lines_of(whole) =~= lines_of(a) + lines_of(b));
    }
}

/// File patterns are read line by line: those of a text are those of its lines,
/// in their order.
pub proof fn law_patterns_come_line_by_line(a: Seq<char>, b: Seq<char>)
    ensures
        patterns_of(a.push('\n') + b) == patterns_of(a) + patterns_of(b),
{
    lemma_lines_add(a, b);
    lemma_patterns_add(lines_of(a), lines_of(b));
}

proof fn lemma_one_line(s: Seq<char>)
    requires
        !s.contains('\n'),
    ensures
        lines_of(s) == seq![s],
    decreases s.len(),
{
    if s.len() > 0 {
        let rest = s.drop_last();
        assert forall|i: int| 0 <= i < rest.len() implies rest[i] != '\n' by {
            assert(s[i] == rest[i]);
        }
        assert(s[s.len() - 1] != '\n');
        lemma_one_line(rest);
        assert(rest.push(s.last()) =~= s);
        assert(lines_of(s) =~= seq![s]);
    } else {
        assert(s =~= Seq::<char>::empty());
        assert(lines_of(s) =~= seq![s]);
    }
}

/// A line holds one pattern, without the white space around it. A comment
/// holds none, and neither does a line of white space.
pub proof fn law_line_holds_one_pattern(before: Seq<char>, body: Seq<char>, behind: Seq<char>)
    requires
        forall|i: int| 0 <= i < before.len() ==> text::is_space(#[trigger] before[i]),
        forall|i: int| 0 <= i < behind.len() ==> text::is_space(#[trigger] behind[i]),
        !(before + body + behind).contains('\n'),
        body.len() > 0 ==> !text::is_space(body[0]) && !text::is_space(body.last()),
    ensures
        patterns_of(before + body + behind) == (if body.len() > 0 && body[0] != '#' {
            seq![body]
        } else {
            Seq::empty()
        }),
{
    let line = before + body + behind;
    lemma_one_line(line);
    text::law_trimmed(before, body, behind);
    assert(seq![line].drop_last() =~= Seq::<Seq<char>>::empty());
    assert(seq![line].last() == line);
    reveal_with_fuel(patterns_among, 2);
    assert(patterns_of(line) =~= (if body.len() > 0 && body[0] != '#' {
        seq![body]
    } else {
        Seq::empty()
    }));
}

/// A pattern without a separator looks at the last component of a path alone; one with a
/// separator looks at the whole path. Neither looks at the case of the letters.
pub proof fn law_pattern_target(pattern: Seq<char>, full: Seq<char>, other: Seq<char>)
    ensures
        pattern.contains('/') ==> pattern_takes(pattern, full) == glob_matches(
            folded(pattern),
            folded(full),
        ),
        !pattern.contains('/') && components(full).len() > 0 && components(full).last() != seq![
            '.',
        ] && components(full).last() != seq!['.', '.'] ==> pattern_takes(pattern, full)
            == glob_matches(folded(pattern), folded(components(full).last())),
        !pattern.contains('/') && name_part(full) == name_part(other) ==> pattern_takes(pattern, full)
            == pattern_takes(pattern, other),
{
}

} // verus!

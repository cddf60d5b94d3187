//! What the platforms differ in: change stamps, markers, the source
//! application and the paste keystroke.

use vstd::prelude::*;
use crate::text::{self, lowercase, opt_view, views};

verus! {

/// A desktop platform.
#[derive(PartialEq, Eq, Structural, Clone, Copy, Debug)]
pub enum Platform {
    /// macOS
    MacOs,
    /// Windows
    Windows,
    /// Linux and the rest
    Linux,
}

/// Marker of concealed content on macOS.
pub const CONCEALED_TYPE: &'static str = "org.nspasteboard.ConcealedType";

/// Marker of concealed content on Windows.
pub const EXCLUDE_FORMAT: &'static str = "ExcludeClipboardContentFromMonitorProcessing";

/// Older marker of concealed content on Windows.
pub const VIEWER_IGNORE_FORMAT: &'static str = "Clipboard Viewer Ignore";

/// Whether the platform has a cheap change stamp.
pub fn supported(platform: Platform) -> (r: bool)
    ensures
        r == (platform != Platform::Linux),
{
    platform != Platform::Linux
}

/// The change stamp, where there is one.
pub fn read(platform: Platform, stamp: i64) -> (r: Option<i64>)
    ensures
        r == (if platform == Platform::Linux {
            None
        } else {
            Some(stamp)
        }),
{
    if supported(platform) {
        Some(stamp)
    } else {
        None
    }
}

/// Whether the clipboard types mark the content as concealed.
pub open spec fn concealed(platform: Platform, types: Seq<Seq<char>>) -> bool {
    match platform {
        Platform::MacOs => types.contains(CONCEALED_TYPE@),
        Platform::Windows => types.contains(EXCLUDE_FORMAT@) || types.contains(VIEWER_IGNORE_FORMAT@),
        Platform::Linux => false,
    }
}

fn holds(types: &Vec<String>, name: &str) -> (r: bool)
    ensures
        r == views(types@).contains(name@),
{
    let mut i: usize = 0;
    while i < types.len()
        invariant
            i <= types.len(),
            forall|j: int| 0 <= j < i ==> types@[j]@ != name@,
        decreases types.len() - i,
    {
        if text::same(types[i].as_str(), name) {
            proof {
                assert(views(types@)[i as int] == name@);
            }
            return true;
        }
        i += 1;
    }
    proof {
        assert forall|j: int| 0 <= j < views(types@).len() implies views(types@)[j] != name@ by {
            assert(types@[j]@ != name@);
        }
    }
    false
}

/// Whether the clipboard types mark the content as concealed.
pub fn is_concealed(platform: Platform, types: &Vec<String>) -> (r: bool)
    ensures
        r == concealed(platform, views(types@)),
{
    match platform {
        Platform::MacOs => holds(types, CONCEALED_TYPE),
        Platform::Windows => holds(types, EXCLUDE_FORMAT) || holds(types, VIEWER_IGNORE_FORMAT),
        Platform::Linux => false,
    }
}

/// Whether the clipboard carries an image, given what the system says. Where
/// images are never read the answer is no.
pub fn has_image(platform: Platform, available: bool) -> (r: bool)
    ensures
        r == (platform != Platform::Linux && available),
{
    platform != Platform::Linux && available
}

/// The application in front, as the system describes it.
#[derive(Debug, PartialEq, Eq)]
pub struct FrontApp {
    /// Whether it is this process
    pub own: bool,
    /// Display name (macOS)
    pub name: Option<String>,
    /// Bundle identifier (macOS)
    pub bundle_id: Option<String>,
    /// Path of the executable (Windows)
    pub exe_path: Option<String>,
}

/// What a [`FrontApp`] stands for.
#[verifier::ext_equal]
pub struct FrontView {
    pub own: bool,
    pub name: Option<Seq<char>>,
    pub bundle_id: Option<Seq<char>>,
    pub exe_path: Option<Seq<char>>,
}

impl View for FrontApp {
    type V = FrontView;

    open spec fn view(&self) -> FrontView {
        FrontView {
            own: self.own,
            name: opt_view(self.name),
            bundle_id: opt_view(self.bundle_id),
            exe_path: opt_view(self.exe_path),
        }
    }
}

/// Whether a character separates the components of a Windows path. A verbatim
/// path knows the backslash only.
pub open spec fn separates(c: char, verbatim: bool) -> bool {
    c == '\\' || (c == '/' && !verbatim)
}

/// Whether a Windows path is verbatim: it starts with `\\?\`.
pub open spec fn is_verbatim(path: Seq<char>) -> bool {
    path.len() >= 4 && path[0] == '\\' && path[1] == '\\' && path[2] == '?' && path[3] == '\\'
}

/// The place of the first separator from a place on; the end where there is
/// none.
pub open spec fn part_end(path: Seq<char>, from: int, verbatim: bool) -> int
    decreases path.len() - from,
{
    if from >= path.len() {
        path.len() as int
    } else if separates(path[from], verbatim) {
        from
    } else {
        part_end(path, from + 1, verbatim)
    }
}

/// The end of the prefix of a Windows path: a drive (`C:`), a share
/// (`\\server\share`), a device (`\\.\COM1`), or one of the verbatim forms
/// (`\\?\C:`, `\\?\UNC\server\share`).
pub open spec fn prefix_end(path: Seq<char>) -> int {
    let n = path.len();
    if is_verbatim(path) {
        if n >= 8 && path[4] == 'U' && path[5] == 'N' && path[6] == 'C' && path[7] == '\\' {
            part_end(path, part_end(path, 8, true) + 1, true)
        } else {
            part_end(path, 4, true)
        }
    } else if n >= 2 && separates(path[0], false) && separates(path[1], false) {
        if n >= 4 && path[2] == '.' && separates(path[3], false) {
            part_end(path, 4, false)
        } else {
            let server = part_end(path, 2, false);
            let share = part_end(path, server + 1, false);
            if server > 2 && share > server + 1 {
                share
            } else {
                0
            }
        }
    } else if n >= 2 && is_letter(path[0]) && path[1] == ':' {
        2
    } else {
        0
    }
}

/// An ASCII letter.
pub open spec fn is_letter(c: char) -> bool {
    ('a' <= c && c <= 'z') || ('A' <= c && c <= 'Z')
}

/// The place behind the last separator.
pub open spec fn name_start(path: Seq<char>, verbatim: bool) -> int
    decreases path.len(),
{
    if path.len() == 0 {
        0
    } else if separates(path.last(), verbatim) {
        path.len() as int
    } else {
        name_start(path.drop_last(), verbatim)
    }
}

/// The last component: empty parts are none, and neither is a single dot,
/// unless the path is verbatim.
pub open spec fn last_part(path: Seq<char>, verbatim: bool) -> Option<Seq<char>>
    decreases path.len(),
{
    let start = name_start(path, verbatim);
    let part = path.skip(start);
    if part.len() > 0 && (verbatim || part != seq!['.']) {
        Some(part)
    } else if start <= 0 || start > path.len() {
        None
    } else {
        last_part(path.take(start - 1), verbatim)
    }
}

/// The executable's file name: the last component behind the prefix, where it
/// names something.
pub open spec fn exe_file(path: Seq<char>) -> Option<Seq<char>> {
    match last_part(path.skip(prefix_end(path)), is_verbatim(path)) {
        Some(part) => if part == seq!['.'] || part == seq!['.', '.'] {
            None
        } else {
            Some(part)
        },
        None => None,
    }
}

/// The place of the last dot of a name, where something stands before it.
pub open spec fn stem_end(name: Seq<char>) -> int
    decreases name.len(),
{
    if name.len() <= 1 {
        -1
    } else if name.last() == '.' {
        name.len() - 1
    } else {
        stem_end(name.drop_last())
    }
}

/// A file name without its extension.
pub open spec fn stem(name: Seq<char>) -> Seq<char> {
    if stem_end(name) < 0 {
        name
    } else {
        name.take(stem_end(name))
    }
}

/// The display name of the application that content came from: this process
/// is no source, and Linux does not tell.
pub open spec fn source_name(platform: Platform, app: Option<FrontView>) -> Option<Seq<char>> {
    match app {
        None => None,
        Some(a) => if a.own {
            None
        } else {
            match platform {
                Platform::MacOs => a.name,
                Platform::Windows => match a.exe_path {
                    Some(path) => match exe_file(path) {
                        Some(name) => Some(stem(name)),
                        None => None,
                    },
                    None => None,
                },
                Platform::Linux => None,
            }
        },
    }
}

/// The stable identifier of the application that content came from.
pub open spec fn source_id(platform: Platform, app: Option<FrontView>) -> Option<Seq<char>> {
    match app {
        None => None,
        Some(a) => if a.own {
            None
        } else {
            match platform {
                Platform::MacOs => a.bundle_id,
                Platform::Windows => match a.exe_path {
                    Some(path) => match exe_file(path) {
                        Some(name) => Some(lowercase(name)),
                        None => None,
                    },
                    None => None,
                },
                Platform::Linux => None,
            }
        },
    }
}

fn does_separate(c: char, verbatim: bool) -> (r: bool)
    ensures
        r == separates(c, verbatim),
{
    c == '\\' || (c == '/' && !verbatim)
}

fn end_of_part(path: &[char], from: usize, verbatim: bool) -> (r: usize)
    ensures
        r == part_end(path@, from as int, verbatim),
        r <= path@.len(),
{
    if from >= path.len() {
        return path.len();
    }
    let mut i: usize = from;
    while i < path.len() && !does_separate(path[i], verbatim)
        invariant
            from <= i <= path@.len(),
            part_end(path@, i as int, verbatim) == part_end(path@, from as int, verbatim),
        decreases path@.len() - i,
    {
        i += 1;
    }
    i
}

fn begins_verbatim(path: &[char]) -> (r: bool)
    ensures
        r == is_verbatim(path@),
{
    path.len() >= 4 && path[0] == '\\' && path[1] == '\\' && path[2] == '?' && path[3] == '\\'
}

fn end_of_prefix(path: &[char]) -> (r: usize)
    ensures
        r == prefix_end(path@),
        r <= path@.len(),
{
    let n: usize = path.len();
    if begins_verbatim(path) {
        if n >= 8 && path[4] == 'U' && path[5] == 'N' && path[6] == 'C' && path[7] == '\\' {
            let server: usize = end_of_part(path, 8, true);
            if server >= n {
                return n;
            }
            end_of_part(path, server + 1, true)
        } else {
            end_of_part(path, 4, true)
        }
    } else if n >= 2 && does_separate(path[0], false) && does_separate(path[1], false) {
        if n >= 4 && path[2] == '.' && does_separate(path[3], false) {
            end_of_part(path, 4, false)
        } else {
            let server: usize = end_of_part(path, 2, false);
            if server <= 2 || server >= n {
                return 0;
            }
            let share: usize = end_of_part(path, server + 1, false);
            if share > server + 1 {
                share
            } else {
                0
            }
        }
    } else if n >= 2 && (('a' <= path[0] && path[0] <= 'z') || ('A' <= path[0] && path[0] <= 'Z'))
        && path[1] == ':' {
        2
    } else {
        0
    }
}

fn last_of(path: &[char], verbatim: bool) -> (r: Option<String>)
    ensures
        opt_view(r) == last_part(path@, verbatim),
{
    let ghost all = path@;
    let mut end: usize = path.len();
    proof {
        assert(all.take(end as int) =~= all);
    }
    while end > 0
        invariant
            all == path@,
            end <= all.len(),
            last_part(all.take(end as int), verbatim) == last_part(all, verbatim),
        decreases end,
    {
        let ghost whole = all.take(end as int);
        let mut start: usize = end;
        while start > 0 && !does_separate(path[start - 1], verbatim)
            invariant
                all == path@,
                start <= end <= all.len(),
                name_start(all.take(start as int), verbatim) == name_start(all.take(end as int), verbatim),
            decreases start,
        {
            proof {
                assert(all.take(start as int).drop_last() =~= all.take(start - 1));
                assert(all.take(start as int).last() == all[start - 1]);
            }
            start -= 1;
        }
        proof {
            if start > 0 {
                assert(all.take(start as int).last() == all[start - 1]);
            }
            assert(name_start(whole, verbatim) == start);
        }
        let part = vstd::slice::slice_subrange(path, start, end);
        proof {
            assert(part@ =~= whole.skip(start as int));
            assert((part@.len() == 1 && part@[0] == '.') == (part@ =~= seq!['.']));
        }
        if part.len() > 0 && (verbatim || !(part.len() == 1 && part[0] == '.')) {
            return Some(text::string_of(part));
        }
        if start == 0 {
            return None;
        }
        proof {
            assert(whole.take(start - 1) =~= all.take(start - 1));
        }
        end = start - 1;
    }
    proof {
        assert(all.take(0) =~= Seq::<char>::empty());
    }
    None
}

fn file_of(path: &str) -> (r: Option<String>)
    ensures
        opt_view(r) == exe_file(path@),
{
    let chars: Vec<char> = text::chars_of(path);
    let start: usize = end_of_prefix(chars.as_slice());
    let rest = vstd::slice::slice_subrange(chars.as_slice(), start, chars.len());
    proof {
        assert(rest@ =~= path@.skip(start as int));
    }
    match last_of(rest, begins_verbatim(chars.as_slice())) {
        None => None,
        Some(part) => {
            proof {
                reveal_strlit(".");
                reveal_strlit("..");
                assert("."@ =~= seq!['.']);
                assert(".."@ =~= seq!['.', '.']);
            }
            if text::same(part.as_str(), ".") || text::same(part.as_str(), "..") {
                None
            } else {
                Some(part)
            }
        },
    }
}

fn stem_of(name: &str) -> (r: String)
    ensures
        r@ == stem(name@),
{
    let chars: Vec<char> = text::chars_of(name);
    let mut end: usize = chars.len();
    proof {
        assert(chars@.take(end as int) =~= chars@);
    }
    while end > 1 && chars[end - 1] != '.'
        invariant
            end <= chars.len(),
            chars@ == name@,
            stem_end(name@.take(end as int)) == stem_end(name@),
        decreases end,
    {
        proof {
            assert(name@.take(end as int).drop_last() =~= name@.take(end - 1));
        }
        end -= 1;
    }
    if end <= 1 {
        proof {
            assert(stem_end(name@) < 0);
        }
        name.to_owned()
    } else {
        proof {
            assert(name@.take(end as int).last() == '.');
            assert(stem_end(name@) == end - 1);
        }
        text::string_of(vstd::slice::slice_subrange(chars.as_slice(), 0, end - 1))
    }
}

/// The display name of the application that content came from.
pub fn frontmost_app_name(platform: Platform, app: &Option<FrontApp>) -> (r: Option<String>)
    ensures
        opt_view(r) == source_name(platform, opt_view(*app)),
{
    match app {
        None => None,
        Some(a) => {
            if a.own {
                return None;
            }
            match platform {
                Platform::MacOs => text::clone_opt(&a.name),
                Platform::Windows => match &a.exe_path {
                    Some(path) => match file_of(path.as_str()) {
                        Some(name) => Some(stem_of(name.as_str())),
                        None => None,
                    },
                    None => None,
                },
                Platform::Linux => None,
            }
        },
    }
}

/// The stable identifier of the application that content came from.
pub fn frontmost_app_id(platform: Platform, app: &Option<FrontApp>) -> (r: Option<String>)
    ensures
        opt_view(r) == source_id(platform, opt_view(*app)),
{
    match app {
        None => None,
        Some(a) => {
            if a.own {
                return None;
            }
            match platform {
                Platform::MacOs => text::clone_opt(&a.bundle_id),
                Platform::Windows => match &a.exe_path {
                    Some(path) => match file_of(path.as_str()) {
                        Some(name) => Some(text::to_lowercase(name.as_str())),
                        None => None,
                    },
                    None => None,
                },
                Platform::Linux => None,
            }
        },
    }
}

/// The icon of the application in front, where the platform hands one out;
/// this process has none.
pub fn frontmost_app_icon_png(platform: Platform, own: bool, icon: Option<Vec<u8>>) -> (r: Option<Vec<u8>>)
    ensures
        opt_view(r) == (if platform == Platform::Linux || own {
            None
        } else {
            opt_view(icon)
        }),
{
    if platform == Platform::Linux || own {
        None
    } else {
        icon
    }
}

/// How far a width is from the icon size of the preview card.
pub open spec fn icon_distance(width: i64) -> int {
    if width >= 32 {
        width - 32
    } else {
        32 - width
    }
}

/// Picks the representation whose width is nearest to 32 pixels, the first of
/// equals.
pub fn pick_icon(widths: &Vec<i64>) -> (r: Option<usize>)
    ensures
        match r {
            Some(i) => i < widths.len() && (forall|j: int|
                0 <= j < widths.len() ==> icon_distance(widths@[i as int]) <= icon_distance(
                    #[trigger] widths@[j],
                )) && (forall|j: int|
                0 <= j < i ==> icon_distance(widths@[i as int]) < icon_distance(
                    #[trigger] widths@[j],
                )),
            None => widths.len() == 0,
        },
{
    let mut best: Option<usize> = None;
    let mut best_distance: u64 = 0;
    let mut i: usize = 0;
    while i < widths.len()
        invariant
            i <= widths.len(),
            match best {
                Some(k) => k < i && best_distance == icon_distance(widths@[k as int]) && (forall|j: int|
                    0 <= j < i ==> icon_distance(widths@[k as int]) <= icon_distance(
                        #[trigger] widths@[j],
                    )) && (forall|j: int|
                    0 <= j < k ==> icon_distance(widths@[k as int]) < icon_distance(
                        #[trigger] widths@[j],
                    )),
                None => i == 0,
            },
        decreases widths.len() - i,
    {
        let w: i64 = widths[i];
        let wide: i128 = w as i128 - 32;
        let distance: u64 = if wide >= 0 {
            wide as u64
        } else {
            (0 - wide) as u64
        };
        match best {
            None => {
                best = Some(i);
                best_distance = distance;
            },
            Some(_) => {
                if distance < best_distance {
                    best = Some(i);
                    best_distance = distance;
                }
            },
        }
        i += 1;
    }
    best
}

/// Whether the system's answer about an icon bitmap makes sense.
pub fn icon_size_is_sane(width: i32, height: i32) -> (r: bool)
    ensures
        r == (0 < width <= 512 && 0 < height <= 512),
{
    width > 0 && height > 0 && width <= 512 && height <= 512
}

/// A key of the paste keystroke.
#[derive(PartialEq, Eq, Structural, Clone, Copy, Debug)]
pub enum Key {
    /// V, with the command key held
    CommandV,
    /// V
    V,
    /// Control
    Control,
}

/// One half of a keystroke.
#[derive(PartialEq, Eq, Structural, Clone, Copy, Debug)]
pub struct KeyEvent {
    /// The key
    pub key: Key,
    /// Pressed or released
    pub down: bool,
}

/// Whether the platform can synthesize the paste keystroke.
pub fn is_supported(platform: Platform) -> (r: bool)
    ensures
        r == (platform != Platform::Linux),
{
    platform != Platform::Linux
}

/// Whether the system allows the keystroke: macOS asks for a permission,
/// Windows for none, Linux has nothing to synthesize it with.
pub fn is_permitted(platform: Platform, trusted: bool) -> (r: bool)
    ensures
        r == (platform == Platform::Windows || (platform == Platform::MacOs && trusted)),
{
    match platform {
        Platform::MacOs => trusted,
        Platform::Windows => true,
        Platform::Linux => false,
    }
}

/// The state of the permission after asking for it, given what the system
/// answered.
pub fn request_permission(platform: Platform, granted: bool) -> (r: bool)
    ensures
        r == (platform == Platform::Windows || (platform == Platform::MacOs && granted)),
{
    is_permitted(platform, granted)
}

/// The key events of a paste.
pub open spec fn paste_events(platform: Platform) -> Seq<KeyEvent> {
    match platform {
        Platform::MacOs => seq![
            KeyEvent { key: Key::CommandV, down: true },
            KeyEvent { key: Key::CommandV, down: false },
        ],
        Platform::Windows => seq![
            KeyEvent { key: Key::Control, down: true },
            KeyEvent { key: Key::V, down: true },
            KeyEvent { key: Key::V, down: false },
            KeyEvent { key: Key::Control, down: false },
        ],
        Platform::Linux => Seq::empty(),
    }
}

/// The key events that make a paste, in order.
pub fn send_paste(platform: Platform) -> (r: Vec<KeyEvent>)
    ensures
        r@ == paste_events(platform),
{
    let mut keys: Vec<KeyEvent> = Vec::new();
    match platform {
        Platform::MacOs => {
            keys.push(KeyEvent { key: Key::CommandV, down: true });
            keys.push(KeyEvent { key: Key::CommandV, down: false });
        },
        Platform::Windows => {
            keys.push(KeyEvent { key: Key::Control, down: true });
            keys.push(KeyEvent { key: Key::V, down: true });
            keys.push(KeyEvent { key: Key::V, down: false });
            keys.push(KeyEvent { key: Key::Control, down: false });
        },
        Platform::Linux => {},
    }
    proof {
        assert(keys@ =~= paste_events(platform));
    }
    keys
}

/// A paste leaves no key held down: every press is followed by its release.
pub proof fn law_paste_releases_its_keys(platform: Platform, i: int)
    requires
        0 <= i < paste_events(platform).len(),
        paste_events(platform)[i].down,
    ensures
        exists|j: int|
            i < j < paste_events(platform).len() && (#[trigger] paste_events(platform)[j]).key
                == paste_events(platform)[i].key && !paste_events(platform)[j].down,
{
    let keys = paste_events(platform);
    match platform {
        Platform::MacOs => {
            assert(!keys[1].down);
        },
        Platform::Windows => {
            assert(!keys[2].down && !keys[3].down);
            if i == 0 {
                assert(keys[3].key == keys[0].key);
            } else {
                assert(keys[2].key == keys[1].key);
            }
        },
        Platform::Linux => {},
    }
}

/// Whether auto-paste can work.
#[derive(PartialEq, Eq, Structural, Clone, Copy, Debug)]
pub struct AutoPasteStatus {
    /// Whether the platform can synthesize the keystroke
    pub supported: bool,
    /// Whether the system allows it
    pub permitted: bool,
}

impl AutoPasteStatus {
    /// The state on a platform.
    pub fn current(platform: Platform, trusted: bool) -> (r: AutoPasteStatus)
        ensures
            r.supported == (platform != Platform::Linux),
            r.permitted == (platform == Platform::Windows || (platform == Platform::MacOs && trusted)),
    {
        AutoPasteStatus {
            supported: is_supported(platform),
            permitted: is_permitted(platform, trusted),
        }
    }

    /// Whether a paste goes out.
    pub fn pastes(&self) -> (r: bool)
        ensures
            r == (self.supported && self.permitted),
    {
        self.supported && self.permitted
    }
}

/// Content is concealed where a type says so that the platform knows; a type of
/// another platform says nothing.
pub proof fn law_concealed_types(types: Seq<Seq<char>>)
    ensures
        concealed(Platform::MacOs, types) <==> types.contains("org.nspasteboard.ConcealedType"@),
        concealed(Platform::Windows, types) <==> types.contains(
            "ExcludeClipboardContentFromMonitorProcessing"@,
        ) || types.contains("Clipboard Viewer Ignore"@),
        !concealed(Platform::Linux, types),
{
}

proof fn lemma_name_start(head: Seq<char>, name: Seq<char>)
    requires
        forall|i: int| 0 <= i < name.len() ==> #[trigger] name[i] != '\\' && name[i] != '/',
    ensures
        name_start(head.push('\\') + name, false) == head.len() + 1,
    decreases name.len(),
{
    let path = head.push('\\') + name;
    if name.len() == 0 {
        assert(path =~= head.push('\\'));
        assert(path.last() == '\\');
    } else {
        assert(path.last() == name[name.len() - 1]);
        assert(path.drop_last() =~= head.push('\\') + name.drop_last());
        lemma_name_start(head, name.drop_last());
    }
}

/// The executable on a drive is named by the last component of its path.
pub proof fn law_executable_is_the_last_component(drive: char, head: Seq<char>, name: Seq<char>)
    requires
        is_letter(drive),
        name.len() > 0,
        name != seq!['.'],
        name != seq!['.', '.'],
        forall|i: int| 0 <= i < name.len() ==> #[trigger] name[i] != '\\' && name[i] != '/',
    ensures
        exe_file(seq![drive, ':'] + head.push('\\') + name) == Some(name),
{
    let path = seq![drive, ':'] + head.push('\\') + name;
    let rest = head.push('\\') + name;
    assert(path[0] == drive && path[1] == ':');
    assert(drive != '\\' && drive != '/');
    assert(path.skip(2) =~= rest);
    lemma_name_start(head, name);
    assert(rest.skip(head.len() as int + 1) =~= name);
}

proof fn lemma_stem_end(base: Seq<char>, ext: Seq<char>)
    requires
        base.len() > 0,
        !ext.contains('.'),
    ensures
        stem_end(base.push('.') + ext) == base.len(),
    decreases ext.len(),
{
    let name = base.push('.') + ext;
    if ext.len() == 0 {
        assert(name =~= base.push('.'));
    } else {
        let rest = ext.drop_last();
        assert forall|i: int| 0 <= i < rest.len() implies rest[i] != '.' by {
            assert(ext[i] == rest[i]);
        }
        assert(ext[ext.len() - 1] != '.');
        assert(name.last() == ext[ext.len() - 1]);
        assert(name.drop_last() =~= base.push('.') + rest);
        lemma_stem_end(base, rest);
    }
}

proof fn lemma_no_stem_end(name: Seq<char>)
    requires
        !name.contains('.'),
    ensures
        stem_end(name) < 0,
    decreases name.len(),
{
    if name.len() > 1 {
        let rest = name.drop_last();
        assert forall|i: int| 0 <= i < rest.len() implies rest[i] != '.' by {
            assert(name[i] == rest[i]);
        }
        assert(name[name.len() - 1] != '.');
        lemma_no_stem_end(rest);
    }
}

/// The stem of a name is what stands in front of its last dot; a name without a
/// dot is its own stem.
pub proof fn law_stem_is_without_the_extension(base: Seq<char>, ext: Seq<char>)
    requires
        base.len() > 0,
        !ext.contains('.'),
    ensures
        stem(base.push('.') + ext) == base,
        stem(ext) == ext,
{
    lemma_stem_end(base, ext);
    let name = base.push('.') + ext;
    assert(name.take(base.len() as int) =~= base);
    lemma_no_stem_end(ext);
}

/// This process is never the source of content, and neither is an application on
/// a platform that does not tell. Where the platform tells, the name and the
/// identifier are those of the application.
pub proof fn law_source_of_content(app: FrontView, platform: Platform)
    ensures
        source_name(platform, None) is None && source_id(platform, None) is None,
        app.own ==> source_name(platform, Some(app)) is None && source_id(platform, Some(app)) is None,
        source_name(Platform::Linux, Some(app)) is None,
        source_id(Platform::Linux, Some(app)) is None,
        !app.own ==> source_name(Platform::MacOs, Some(app)) == app.name,
        !app.own ==> source_id(Platform::MacOs, Some(app)) == app.bundle_id,
        !app.own && app.exe_path is Some && exe_file(app.exe_path->0) is Some ==> source_name(
            Platform::Windows,
            Some(app),
        ) == Some(stem(exe_file(app.exe_path->0)->0)) && source_id(Platform::Windows, Some(app))
            == Some(lowercase(exe_file(app.exe_path->0)->0)),
        !app.own && (app.exe_path is None || exe_file(app.exe_path->0) is None) ==> source_name(
            Platform::Windows,
            Some(app),
        ) is None && source_id(Platform::Windows, Some(app)) is None,
{
}

/// A paste presses V with its modifier: the modifier goes down first and comes up
/// last. Where nothing can be synthesized nothing is pressed.
pub proof fn law_paste_presses_v(platform: Platform)
    ensures
        platform == Platform::MacOs ==> paste_events(platform).len() == 2 && (paste_events(
            platform,
        )[0]) == (KeyEvent { key: Key::CommandV, down: true }),
        platform == Platform::Windows ==> ({
            let keys = paste_events(platform);
            &&& keys.len() == 4
            &&& keys[0] == (KeyEvent { key: Key::Control, down: true })
            &&& keys[1] == (KeyEvent { key: Key::V, down: true })
            &&& keys[2] == (KeyEvent { key: Key::V, down: false })
            &&& keys[3] == (KeyEvent { key: Key::Control, down: false })
        }),
        platform == Platform::Linux ==> paste_events(platform).len() == 0,
{
}

/// The distance of a width from the icon size is how much it is off, either way.
pub proof fn law_icon_distance(width: i64, off: int)
    ensures
        width == 32 + off && off >= 0 ==> icon_distance(width) == off,
        width == 32 - off && off >= 0 ==> icon_distance(width) == off,
{
}

} // verus!

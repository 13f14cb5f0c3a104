//! Building file paths from a base directory and a file name, the way
//! `PathBuf::push` joins components, on Unix or on Windows.
use vstd::prelude::*;
use crate::pattern::{
    compile_pattern, is_slash_or_backslash, slash_class, split_at_slashes, split_by_pattern,
    string_views,
};

verus! {

/// The separator conventions of a platform.
#[derive(Debug, Clone, Copy, PartialEq, Eq, Structural)]
pub enum PathStyle {
    /// `/` separates components.
    Unix,
    /// `\` separates components and `/` is read as one too; a path may begin
    /// with a prefix such as a drive (`C:`) or `\\server\share`.
    Windows,
}

impl PathStyle {
    /// The separator this style puts between components.
    pub open spec fn separator(self) -> char {
        match self {
            PathStyle::Unix => '/',
            PathStyle::Windows => '\\',
        }
    }

    /// Whether this style reads `c` as a separator.
    pub open spec fn is_separator(self, c: char) -> bool {
        match self {
            PathStyle::Unix => c == '/',
            PathStyle::Windows => c == '/' || c == '\\',
        }
    }

    /// The style whose main separator is `separator`: Windows for `\`, Unix otherwise.
    pub fn from_separator(separator: char) -> (style: PathStyle)
        ensures
            style == (if separator == '\\' { PathStyle::Windows } else { PathStyle::Unix }),
    {
        if separator == '\\' {
            PathStyle::Windows
        } else {
            PathStyle::Unix
        }
    }

    fn reads_as_separator(&self, c: char) -> (sep: bool)
        ensures
            sep == self.is_separator(c),
    {
        match self {
            PathStyle::Unix => c == '/',
            PathStyle::Windows => c == '/' || c == '\\',
        }
    }

    fn separator_text(&self) -> (text: &'static str)
        ensures
            text@ == seq![self.separator()],
    {
        proof {
            reveal_strlit("/");
            reveal_strlit("\\");
        }
        match self {
            PathStyle::Unix => "/",
            PathStyle::Windows => "\\",
        }
    }
}

/// A component that starts with a separator of the style.
pub open spec fn is_rooted(style: PathStyle, part: Seq<char>) -> bool {
    part.len() > 0 && style.is_separator(part[0])
}

/// `/` or `\`, the separators of Windows paths.
pub open spec fn is_windows_separator(c: char) -> bool {
    c == '/' || c == '\\'
}

/// An ASCII letter.
pub open spec fn is_ascii_letter(c: char) -> bool {
    ('a' <= c && c <= 'z') || ('A' <= c && c <= 'Z')
}

/// A path that begins with a Windows drive such as `C:`.
pub open spec fn has_drive(p: Seq<char>) -> bool {
    p.len() >= 2 && is_ascii_letter(p[0]) && p[1] == ':'
}

/// A path that is a Windows drive and nothing more.
pub open spec fn is_bare_drive(p: Seq<char>) -> bool {
    p.len() == 2 && has_drive(p)
}

/// The length of the drive at the start of `p`, if any.
pub open spec fn drive_len(p: Seq<char>) -> int {
    if has_drive(p) { 2 } else { 0 }
}

/// The position of the first Windows separator in `p` at or after `k`, or the
/// length of `p` when there is none.
pub open spec fn next_separator(p: Seq<char>, k: int) -> int
    decreases p.len() - k,
{
    if k < 0 || k >= p.len() {
        p.len() as int
    } else if is_windows_separator(p[k]) {
        k
    } else {
        next_separator(p, k + 1)
    }
}

/// A path that begins with a `\\server\share` prefix: two separators, then a
/// non-empty server name, a separator and a non-empty share name.
pub open spec fn has_unc_prefix(p: Seq<char>) -> bool {
    let i = next_separator(p, 2);
    &&& p.len() >= 2
    &&& is_windows_separator(p[0])
    &&& is_windows_separator(p[1])
    &&& i > 2
    &&& i + 1 < p.len()
    &&& !is_windows_separator(p[i + 1])
}

/// A path that begins with a Windows prefix: a drive (`C:`), a verbatim prefix
/// (`\\?\`), a device prefix (`\\.\`) or a `\\server\share` prefix.
pub open spec fn has_windows_prefix(p: Seq<char>) -> bool {
    ||| has_drive(p)
    ||| (p.len() >= 4 && p[0] == '\\' && p[1] == '\\' && p[2] == '?' && p[3] == '\\')
    ||| (p.len() >= 4 && is_windows_separator(p[0]) && is_windows_separator(p[1]) && p[2] == '.'
        && is_windows_separator(p[3]))
    ||| has_unc_prefix(p)
}

/// A component that replaces the whole path when pushed: on Unix one that starts
/// with `/`, on Windows one that begins with a prefix.
pub open spec fn replaces_path(style: PathStyle, part: Seq<char>) -> bool {
    match style {
        PathStyle::Unix => is_rooted(style, part),
        PathStyle::Windows => has_windows_prefix(part),
    }
}

/// `buf` extended by one component, as `PathBuf::push` does.
/// - A component that replaces the path is the result.
/// - On Windows, a component that starts with a separator keeps only the drive of `buf`.
/// - Otherwise the style's separator goes between them when `buf` is not empty,
///   does not end in a separator and, on Windows, is not a bare drive.
/// On Windows `buf` stands for a path whose prefix, if any, is a drive, as every
/// path built from components without separators is.
pub open spec fn push_component(style: PathStyle, buf: Seq<char>, part: Seq<char>) -> Seq<char> {
    if replaces_path(style, part) {
        part
    } else if style == PathStyle::Windows && is_rooted(style, part) {
        buf.take(drive_len(buf)) + part
    } else if buf.len() > 0 && !style.is_separator(buf.last()) && !(style == PathStyle::Windows
        && is_bare_drive(buf)) {
        buf + seq![style.separator()] + part
    } else {
        buf + part
    }
}

/// The path obtained by pushing `parts`, in order, onto an empty path.
pub open spec fn push_all(style: PathStyle, parts: Seq<Seq<char>>) -> Seq<char>
    decreases parts.len(),
{
    if parts.len() == 0 {
        Seq::empty()
    } else {
        push_component(style, push_all(style, parts.drop_last()), parts.last())
    }
}

/// The path made of the directory components `parts` followed by `target`.
pub open spec fn joined_path(style: PathStyle, parts: Seq<Seq<char>>, target: Seq<char>) -> Seq<char> {
    push_all(style, parts.push(target))
}

/// The path of `target` inside `base`, whose components are separated by `/` or `\`.
pub open spec fn path_in(style: PathStyle, base: Seq<char>, target: Seq<char>) -> Seq<char> {
    joined_path(style, split_at_slashes(base), target)
}

/// The base directory for HTML pages: the configured value when it is set and
/// non-empty, `src/html` otherwise.
pub open spec fn html_base(configured: Option<&str>) -> Seq<char> {
    match configured {
        Some(dir) => if dir@.len() > 0 { dir@ } else { "src/html"@ },
        None => "src/html"@,
    }
}

/// The components separated by single separators of the style.
pub open spec fn separator_join(style: PathStyle, parts: Seq<Seq<char>>) -> Seq<char>
    decreases parts.len(),
{
    if parts.len() == 0 {
        Seq::empty()
    } else if parts.len() == 1 {
        parts[0]
    } else {
        separator_join(style, parts.drop_last()) + seq![style.separator()] + parts.last()
    }
}

/// The components that are not empty, in order.
pub open spec fn non_empty_parts(parts: Seq<Seq<char>>) -> Seq<Seq<char>>
    decreases parts.len(),
{
    if parts.len() == 0 {
        parts
    } else if parts.last().len() == 0 {
        non_empty_parts(parts.drop_last())
    } else {
        non_empty_parts(parts.drop_last()).push(parts.last())
    }
}

/// A component in which the style reads no separator.
pub open spec fn separator_free(style: PathStyle, part: Seq<char>) -> bool {
    forall|i: int| 0 <= i < part.len() ==> !style.is_separator(#[trigger] part[i])
}

fn is_windows_separator_char(c: char) -> (sep: bool)
    ensures
        sep == is_windows_separator(c),
{
    c == '/' || c == '\\'
}

fn starts_with_drive(p: &str) -> (drive: bool)
    ensures
        drive == has_drive(p@),
{
    if p.unicode_len() < 2 {
        return false;
    }
    let c = p.get_char(0);
    (('a' <= c && c <= 'z') || ('A' <= c && c <= 'Z')) && p.get_char(1) == ':'
}

fn starts_with_unc_prefix(p: &str) -> (unc: bool)
    ensures
        unc == has_unc_prefix(p@),
{
    let n = p.unicode_len();
    if n < 2 || !is_windows_separator_char(p.get_char(0)) || !is_windows_separator_char(p.get_char(1)) {
        return false;
    }
    let mut i: usize = 2;
    while i < n && !is_windows_separator_char(p.get_char(i))
        invariant
            n == p@.len(),
            2 <= i <= n,
            next_separator(p@, 2) == next_separator(p@, i as int),
        decreases n - i,
    {
        i = i + 1;
    }
    i > 2 && i < n && i + 1 < n && !is_windows_separator_char(p.get_char(i + 1))
}

fn starts_with_windows_prefix(p: &str) -> (prefixed: bool)
    ensures
        prefixed == has_windows_prefix(p@),
{
    if starts_with_drive(p) {
        return true;
    }
    let n = p.unicode_len();
    if n >= 4 {
        let c0 = p.get_char(0);
        let c1 = p.get_char(1);
        let c2 = p.get_char(2);
        let c3 = p.get_char(3);
        if c0 == '\\' && c1 == '\\' && c2 == '?' && c3 == '\\' {
            return true;
        }
        if is_windows_separator_char(c0) && is_windows_separator_char(c1) && c2 == '.'
            && is_windows_separator_char(c3) {
            return true;
        }
    }
    starts_with_unc_prefix(p)
}

fn push_component_onto(style: PathStyle, buf: &mut String, part: &str)
    ensures
        final(buf)@ == push_component(style, old(buf)@, part@),
{
    let part_len = part.unicode_len();
    let rooted = part_len > 0 && style.reads_as_separator(part.get_char(0));
    let replaces = match style {
        PathStyle::Unix => rooted,
        PathStyle::Windows => starts_with_windows_prefix(part),
    };
    if replaces {
        *buf = part.to_owned();
    } else if style == PathStyle::Windows && rooted {
        let keep: usize = if starts_with_drive(buf.as_str()) { 2 } else { 0 };
        let mut kept = buf.as_str().substring_char(0, keep).to_owned();
        kept.append(part);
        *buf = kept;
    } else {
        let buf_len = buf.as_str().unicode_len();
        let bare_drive = style == PathStyle::Windows && buf_len == 2 && starts_with_drive(buf.as_str());
        if buf_len > 0 && !style.reads_as_separator(buf.as_str().get_char(buf_len - 1)) && !bare_drive {
            buf.append(style.separator_text());
        }
        buf.append(part);
    }
}

/// Pushes each of `parts` and then `target` onto an empty path. The parts are
/// pieces of a directory between its separators, so none holds `/` or `\`.
pub fn join_path_parts(parts: &Vec<String>, target: &str, style: PathStyle) -> (path: String)
    requires
        forall|i: int, j: int|
            0 <= i < parts@.len() && 0 <= j < parts@[i]@.len() ==> !is_slash_or_backslash(
                #[trigger] parts@[i]@[j],
            ),
    ensures
        path@ == joined_path(style, string_views(parts@), target@),
{
    let ghost views = string_views(parts@);
    let mut path = String::new();
    let mut i: usize = 0;
    while i < parts.len()
        invariant
            i <= parts.len(),
            views == string_views(parts@),
            path@ == push_all(style, views.take(i as int)),
        decreases parts.len() - i,
    {
        push_component_onto(style, &mut path, parts[i].as_str());
        proof {
            assert(views.take(i + 1).drop_last() =~= views.take(i as int));
        }
        i = i + 1;
    }
    proof {
        assert(views.take(parts.len() as int) =~= views);
        assert(views.push(target@).drop_last() =~= views);
    }
    push_component_onto(style, &mut path, target);
    path
}

/// The path of `target` inside the directory `base_path`, whose components may
/// be separated by `/` or `\`, joined in the given style.
pub fn get_path(base_path: &str, target: String, style: PathStyle) -> (path: String)
    ensures
        path@ == path_in(style, base_path@, target@),
{
    let pattern = r"[\\/]";
    proof {
        reveal_strlit(r"[\\/]");
        assert(pattern@ =~= slash_class());
    }
    match compile_pattern(pattern) {
        Some(separators) => {
            let parts = split_by_pattern(&separators, base_path);
            proof {
                lemma_split_pieces_hold_no_slash(base_path@);
                assert forall|i: int, j: int|
                    0 <= i < parts@.len() && 0 <= j < parts@[i]@.len() implies !is_slash_or_backslash(
                        #[trigger] parts@[i]@[j],
                    ) by {
                    assert(parts@[i]@ == string_views(parts@)[i]);
                }
            }
            join_path_parts(&parts, target.as_str(), style)
        },
        None => {
            proof {
                assert(false);
            }
            String::new()
        },
    }
}

/// The directory that holds the HTML pages, given the configured directory if any.
pub fn html_base_path(configured: Option<&str>) -> (base: String)
    ensures
        base@ == html_base(configured),
{
    match configured {
        Some(dir) => {
            if dir.unicode_len() > 0 {
                dir.to_owned()
            } else {
                "src/html".to_owned()
            }
        },
        None => "src/html".to_owned(),
    }
}

/// The path of the HTML page `target`, given the configured page directory if any.
pub fn get_html_path(configured: Option<&str>, target: String, style: PathStyle) -> (path: String)
    ensures
        path@ == path_in(style, html_base(configured), target@),
{
    let base = html_base_path(configured);
    get_path(base.as_str(), target, style)
}

/// When the file name is not empty and neither starts with a separator nor (on
/// Windows) begins with a prefix, the built path ends with that name, and
/// anything before it ends with a separator or (on Windows) is a bare drive.
pub proof fn lemma_path_ends_with_target(style: PathStyle, parts: Seq<Seq<char>>, target: Seq<char>)
    requires
        target.len() > 0,
        !is_rooted(style, target),
        !replaces_path(style, target),
    ensures
        ({
            let path = joined_path(style, parts, target);
            let before = path.take(path.len() - target.len());
            &&& path.len() >= target.len()
            &&& path.subrange(path.len() - target.len(), path.len() as int) == target
            &&& before.len() > 0 ==> style.is_separator(before.last()) || (style == PathStyle::Windows
                && is_bare_drive(before))
        }),
{
    let all = parts.push(target);
    assert(all.drop_last() =~= parts);
    let buf = push_all(style, parts);
    let path = joined_path(style, parts, target);
    if buf.len() > 0 && !style.is_separator(buf.last()) && !(style == PathStyle::Windows
        && is_bare_drive(buf)) {
        assert(path == buf + seq![style.separator()] + target);
        assert(path.subrange(path.len() - target.len(), path.len() as int) =~= target);
        assert(path.take(path.len() - target.len()) =~= buf + seq![style.separator()]);
    } else {
        assert(path == buf + target);
        assert(path.subrange(path.len() - target.len(), path.len() as int) =~= target);
        assert(path.take(path.len() - target.len()) =~= buf);
    }
}

/// A file name that starts with `/` on Unix, or with a prefix on Windows,
/// replaces the directory entirely.
pub proof fn lemma_replacing_target(style: PathStyle, parts: Seq<Seq<char>>, target: Seq<char>)
    requires
        replaces_path(style, target),
    ensures
        joined_path(style, parts, target) == target,
{
    assert(parts.push(target).last() == target);
}

/// On Windows a file name that starts with a separator and has no prefix keeps
/// only the drive of the directory, if it has one.
pub proof fn lemma_rooted_target_keeps_drive(parts: Seq<Seq<char>>, target: Seq<char>)
    requires
        is_rooted(PathStyle::Windows, target),
        !has_windows_prefix(target),
    ensures
        ({
            let dir = push_all(PathStyle::Windows, parts);
            joined_path(PathStyle::Windows, parts, target) == dir.take(drive_len(dir)) + target
        }),
{
    let all = parts.push(target);
    assert(all.drop_last() =~= parts);
    assert(all.last() == target);
}

/// A component in which the style reads no separator and which, on Windows,
/// does not begin with a drive.
pub open spec fn is_ordinary_component(style: PathStyle, part: Seq<char>) -> bool {
    separator_free(style, part) && (style == PathStyle::Windows ==> !has_drive(part))
}

proof fn lemma_ordinary_component_is_pushed_plainly(style: PathStyle, part: Seq<char>)
    requires
        is_ordinary_component(style, part),
    ensures
        !replaces_path(style, part),
        !is_rooted(style, part),
{
    if part.len() > 0 {
        assert(!style.is_separator(part[0]));
    }
}

proof fn lemma_ordinary_push_all(style: PathStyle, parts: Seq<Seq<char>>)
    requires
        forall|i: int| 0 <= i < parts.len() ==> is_ordinary_component(style, #[trigger] parts[i]),
    ensures
        ({
            let path = push_all(style, parts);
            let joined = separator_join(style, non_empty_parts(parts));
            &&& style == PathStyle::Windows ==> !has_drive(path)
            &&& non_empty_parts(parts).len() == 0 ==> path.len() == 0
            &&& non_empty_parts(parts).len() > 0 ==> {
                &&& joined.len() > 0
                &&& !style.is_separator(joined.last())
                &&& (path == joined || path == joined + seq![style.separator()])
            }
        }),
    decreases parts.len(),
{
    if parts.len() > 0 {
        let rest = parts.drop_last();
        let last = parts.last();
        assert(is_ordinary_component(style, parts[parts.len() - 1]));
        assert forall|i: int| 0 <= i < rest.len() implies is_ordinary_component(style, #[trigger] rest[i]) by {
            assert(rest[i] == parts[i]);
        }
        lemma_ordinary_push_all(style, rest);
        lemma_ordinary_component_is_pushed_plainly(style, last);
        let buf = push_all(style, rest);
        let path = push_all(style, parts);
        let before = non_empty_parts(rest);
        if last.len() > 0 {
            assert(!style.is_separator(last[0]));
            assert(!style.is_separator(last[last.len() - 1]));
            let now = non_empty_parts(parts);
            assert(now == before.push(last));
            if before.len() > 0 {
                assert(now.drop_last() =~= before);
                assert(now.last() == last);
            } else {
                assert(now =~= seq![last]);
            }
        } else {
            assert(non_empty_parts(parts) == before);
            assert(last =~= Seq::<char>::empty());
        }
        if style == PathStyle::Windows {
            if buf.len() >= 2 {
                assert(path[0] == buf[0] && path[1] == buf[1]);
            } else if buf.len() == 1 {
                if !style.is_separator(buf[0]) {
                    assert(path == buf + seq![style.separator()] + last);
                    assert(path[1] == '\\');
                } else {
                    assert(path[0] == buf[0]);
                }
            } else {
                assert(buf.len() == 0);
                assert(path =~= last);
            }
        }
    }
}

/// When no component holds a separator of the style or (on Windows) begins with
/// a drive, and the file name is not empty and neither starts with a separator
/// nor begins with a prefix, the path is the non-empty components and the file
/// name joined by single separators: empty components, such as those around a
/// leading, trailing or doubled separator, leave no trace.
pub proof fn lemma_ordinary_components_join(style: PathStyle, parts: Seq<Seq<char>>, target: Seq<char>)
    requires
        forall|i: int| 0 <= i < parts.len() ==> is_ordinary_component(style, #[trigger] parts[i]),
        target.len() > 0,
        !is_rooted(style, target),
        !replaces_path(style, target),
    ensures
        joined_path(style, parts, target) == separator_join(style, non_empty_parts(parts).push(target)),
{
    lemma_ordinary_push_all(style, parts);
    let all = parts.push(target);
    assert(all.drop_last() =~= parts);
    assert(all.last() == target);
    let before = non_empty_parts(parts);
    let goal = before.push(target);
    assert(non_empty_parts(all) == goal);
    let buf = push_all(style, parts);
    if style == PathStyle::Windows {
        assert(!is_bare_drive(buf));
    }
    if before.len() > 0 {
        assert(goal.drop_last() =~= before);
    } else {
        assert(goal =~= seq![target]);
        assert(buf =~= Seq::<char>::empty());
    }
}

/// Every piece between the `/` and `\` characters of a text holds neither.
pub proof fn lemma_split_pieces_hold_no_slash(text: Seq<char>)
    ensures
        split_at_slashes(text).len() > 0,
        forall|i: int, j: int|
            0 <= i < split_at_slashes(text).len() && 0 <= j < split_at_slashes(text)[i].len()
                ==> !is_slash_or_backslash(#[trigger] split_at_slashes(text)[i][j]),
    decreases text.len(),
{
    if text.len() > 0 {
        lemma_split_pieces_hold_no_slash(text.drop_last());
        let before = split_at_slashes(text.drop_last());
        let now = split_at_slashes(text);
        if !is_slash_or_backslash(text.last()) {
            assert forall|i: int, j: int|
                0 <= i < now.len() && 0 <= j < now[i].len() implies !is_slash_or_backslash(#[trigger] now[i][j]) by {
                if i == now.len() - 1 && j == now[i].len() - 1 {
                    assert(now[i][j] == text.last());
                } else if i == now.len() - 1 {
                    assert(now[i][j] == before[i][j]);
                } else {
                    assert(now[i] == before[i]);
                }
            }
        } else {
            assert forall|i: int, j: int|
                0 <= i < now.len() && 0 <= j < now[i].len() implies !is_slash_or_backslash(#[trigger] now[i][j]) by {
                if i < now.len() - 1 {
                    assert(now[i] == before[i]);
                }
            }
        }
    }
}

/// The path of a file name inside a base directory whose components (the text
/// between its `/` and `\` characters) do not begin with a drive on Windows, for
/// a non-empty file name that starts with neither `/` nor `\` and (on Windows)
/// does not begin with a drive, is the base's non-empty components and the file
/// name, joined by single separators of the style: `src/html` and `hello.html`
/// give `src/html/hello.html` on Unix and `src\html\hello.html` on Windows, and
/// `a\\b/` gives the same as `a/b`.
pub proof fn lemma_path_in_joins_base_components(style: PathStyle, base: Seq<char>, target: Seq<char>)
    requires
        target.len() > 0,
        !is_slash_or_backslash(target[0]),
        style == PathStyle::Windows ==> !has_drive(target),
        style == PathStyle::Windows ==> forall|i: int|
            0 <= i < split_at_slashes(base).len() ==> !has_drive(#[trigger] split_at_slashes(base)[i]),
    ensures
        path_in(style, base, target) == separator_join(
            style,
            non_empty_parts(split_at_slashes(base)).push(target),
        ),
{
    let pieces = split_at_slashes(base);
    lemma_split_pieces_hold_no_slash(base);
    assert forall|i: int| 0 <= i < pieces.len() implies is_ordinary_component(style, #[trigger] pieces[i]) by {
        assert forall|j: int| 0 <= j < pieces[i].len() implies !style.is_separator(#[trigger] pieces[i][j]) by {
            assert(!is_slash_or_backslash(pieces[i][j]));
        }
    }
    lemma_ordinary_components_join(style, pieces, target);
}

/// Pushing a component that neither starts with a separator nor (on Windows)
/// begins with a prefix never removes anything already in the path: the result
/// is the path followed by the component, with at most one separator between
/// them, and a separator is put in only after a non-empty path that does not
/// already end in one.
pub proof fn lemma_push_extends_path(style: PathStyle, buf: Seq<char>, part: Seq<char>)
    requires
        !is_rooted(style, part),
        !replaces_path(style, part),
    ensures
        push_component(style, buf, part) == buf + part || push_component(style, buf, part) == buf
            + seq![style.separator()] + part,
        push_component(style, buf, part) == buf + seq![style.separator()] + part ==> buf.len() > 0
            && !style.is_separator(buf.last()),
        buf.len() == 0 ==> push_component(style, buf, part) == part,
{
    if buf.len() == 0 {
        assert(buf + part =~= part);
    }
    let result = push_component(style, buf, part);
    let with_separator = buf + seq![style.separator()] + part;
    if !(buf.len() > 0 && !style.is_separator(buf.last()) && !(style == PathStyle::Windows
        && is_bare_drive(buf))) {
        assert(result == buf + part);
        assert(result.len() != with_separator.len());
    }
}

/// Pushing an empty component keeps the path, or adds one separator to it.
pub proof fn lemma_empty_component_keeps_path(style: PathStyle, buf: Seq<char>)
    ensures
        push_component(style, buf, Seq::empty()) == buf || push_component(style, buf, Seq::empty())
            == buf.push(style.separator()),
{
    let empty = Seq::<char>::empty();
    assert(!has_drive(empty));
    assert(!has_unc_prefix(empty));
    lemma_push_extends_path(style, buf, empty);
    assert(buf + empty =~= buf);
    assert(buf + seq![style.separator()] + empty =~= buf.push(style.separator()));
}

proof fn lemma_push_after_drive(drive: Seq<char>, buf: Seq<char>, part: Seq<char>)
    requires
        is_bare_drive(drive),
        !has_drive(buf),
        !is_rooted(PathStyle::Windows, part),
        !replaces_path(PathStyle::Windows, part),
    ensures
        push_component(PathStyle::Windows, drive + buf, part) == drive + push_component(
            PathStyle::Windows,
            buf,
            part,
        ),
{
    let style = PathStyle::Windows;
    let whole = drive + buf;
    if buf.len() == 0 {
        assert(whole =~= drive);
        assert(buf + part =~= part);
        assert(drive + part =~= drive + (buf + part));
    } else {
        assert(whole.last() == buf.last());
        assert(!is_bare_drive(whole));
        assert(!is_bare_drive(buf));
        assert(whole + part =~= drive + (buf + part));
        assert(whole + seq![style.separator()] + part =~= drive + (buf + seq![style.separator()] + part));
    }
}

proof fn lemma_push_all_after_drive(drive: Seq<char>, parts: Seq<Seq<char>>)
    requires
        is_bare_drive(drive),
        forall|i: int| 0 <= i < parts.len() ==> is_ordinary_component(PathStyle::Windows, #[trigger] parts[i]),
    ensures
        push_all(PathStyle::Windows, seq![drive] + parts) == drive + push_all(PathStyle::Windows, parts),
    decreases parts.len(),
{
    let style = PathStyle::Windows;
    let whole = seq![drive] + parts;
    if parts.len() == 0 {
        assert(whole =~= seq![drive]);
        assert(whole.drop_last() =~= Seq::<Seq<char>>::empty());
        assert(drive + Seq::<char>::empty() =~= drive);
    } else {
        let rest = parts.drop_last();
        assert forall|i: int| 0 <= i < rest.len() implies is_ordinary_component(style, #[trigger] rest[i]) by {
            assert(rest[i] == parts[i]);
        }
        assert(whole.drop_last() =~= seq![drive] + rest);
        assert(whole.last() == parts.last());
        assert(is_ordinary_component(style, parts[parts.len() - 1]));
        lemma_push_all_after_drive(drive, rest);
        lemma_ordinary_push_all(style, rest);
        lemma_ordinary_component_is_pushed_plainly(style, parts.last());
        lemma_push_after_drive(drive, push_all(style, rest), parts.last());
    }
}

/// On Windows, a directory made of a bare drive (such as `C:`) followed by
/// components without separators or drives gives the drive, then the non-empty
/// components and the file name joined by single `\`: empty components (from
/// trailing or doubled separators) change nothing, and nothing goes between the
/// drive and the first component.
pub proof fn lemma_drive_directory_join(drive: Seq<char>, parts: Seq<Seq<char>>, target: Seq<char>)
    requires
        is_bare_drive(drive),
        forall|i: int| 0 <= i < parts.len() ==> is_ordinary_component(PathStyle::Windows, #[trigger] parts[i]),
        target.len() > 0,
        !is_rooted(PathStyle::Windows, target),
        !replaces_path(PathStyle::Windows, target),
    ensures
        joined_path(PathStyle::Windows, seq![drive] + parts, target) == drive + separator_join(
            PathStyle::Windows,
            non_empty_parts(parts).push(target),
        ),
{
    let style = PathStyle::Windows;
    let all = (seq![drive] + parts).push(target);
    assert(all.drop_last() =~= seq![drive] + parts);
    assert(all.last() == target);
    lemma_push_all_after_drive(drive, parts);
    lemma_ordinary_push_all(style, parts);
    lemma_push_after_drive(drive, push_all(style, parts), target);
    assert(parts.push(target).drop_last() =~= parts);
    assert(parts.push(target).last() == target);
    lemma_ordinary_components_join(style, parts, target);
}

/// The HTML base directory is the configured directory whenever that is set and
/// not empty, and `src/html` exactly when it is unset or empty.
pub proof fn lemma_html_base_choice(configured: Option<&str>)
    ensures
        configured matches Some(dir) ==> (dir@.len() > 0 ==> html_base(configured) == dir@),
        configured is None || configured->0@.len() == 0 ==> html_base(configured) == "src/html"@,
{
}

} // verus!

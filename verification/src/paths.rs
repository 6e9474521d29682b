//! Paths as text: components between separators, with one at the start of an absolute path.
//!
//! A component `.` other than the first one, a repeated separator and one at the end mean nothing.
//! On Windows a path can start with a prefix: a drive, a share or a device.

use crate::text::{
    concat2, concat3, eq_ignore_case, equal_ignoring_case, find_last, folded, last_index_of,
    lemma_last_index_is, lemma_last_index_of, slice_text, to_chars,
};
use vstd::prelude::*;

verus! {

/// How the paths of a system are written.
#[derive(Clone, Copy, Debug, PartialEq, Eq, Structural)]
pub enum PathStyle {
    /// With slashes alone.
    Slashes,
    /// With slashes or backslashes, and a prefix before them or not.
    Windows,
}

/// Whether a character separates components of a path of Windows. In a verbatim path only the
/// backslash does.
pub open spec fn separates(c: char, verbatim: bool) -> bool {
    c == '\\' || (c == '/' && !verbatim)
}

fn is_separator(c: char, verbatim: bool) -> (r: bool)
    ensures
        r == separates(c, verbatim),
{
    c == '\\' || (c == '/' && !verbatim)
}

/// Where the component that starts at a position ends.
pub open spec fn component_end(p: Seq<char>, from: int, verbatim: bool) -> int
    decreases p.len() - from,
{
    if 0 <= from < p.len() && !separates(p[from], verbatim) {
        component_end(p, from + 1, verbatim)
    } else {
        from
    }
}

fn find_component_end(p: &Vec<char>, from: usize, verbatim: bool) -> (end: usize)
    requires
        from <= p@.len(),
    ensures
        from <= end <= p@.len(),
        end == component_end(p@, from as int, verbatim),
{
    let mut end: usize = from;
    while end < p.len() && !is_separator(p[end], verbatim)
        invariant
            from <= end <= p@.len(),
            component_end(p@, end as int, verbatim) == component_end(p@, from as int, verbatim),
        decreases p@.len() - end,
    {
        end = end + 1;
    }
    end
}

/// Whether a drive letter and a colon stand at a position.
pub open spec fn has_drive(p: Seq<char>, at: int) -> bool {
    p.len() >= at + 2 && 0x61 <= folded(p[at]) <= 0x7a && p[at + 1] == ':'
}

/// Whether a character is an ASCII letter.
fn is_letter(c: char) -> (r: bool)
    ensures
        r == (0x61 <= folded(c) <= 0x7a),
{
    let n: u32 = c as u32;
    (0x41 <= n && n <= 0x5a) || (0x61 <= n && n <= 0x7a)
}

fn is_drive(p: &Vec<char>, at: usize) -> (r: bool)
    requires
        at <= 4,
    ensures
        r == has_drive(p@, at as int),
{
    if p.len() < at + 2 {
        return false;
    }
    is_letter(p[at]) && p[at + 1] == ':'
}

/// Whether a path is verbatim: it starts with `\\?\`.
pub open spec fn is_verbatim(p: Seq<char>) -> bool {
    p.len() >= 4 && p[0] == '\\' && p[1] == '\\' && p[2] == '?' && p[3] == '\\'
}

/// Where a server and a share end that start at a position; the server alone, without a share.
pub open spec fn share_end(p: Seq<char>, from: int, verbatim: bool) -> int {
    let server = component_end(p, from, verbatim);
    let share = component_end(p, server + 1, verbatim);
    if share > server + 1 {
        share
    } else {
        server
    }
}

/// How long the prefix of a verbatim path is: a share after `\\?\UNC\`, a drive, or one component.
pub open spec fn verbatim_prefix_len(p: Seq<char>) -> int {
    if p.len() >= 8 && p[4] == 'U' && p[5] == 'N' && p[6] == 'C' && separates(p[7], false) {
        share_end(p, 8, true)
    } else if has_drive(p, 4) && (p.len() == 6 || separates(p[6], false)) {
        6
    } else {
        component_end(p, 4, true)
    }
}

/// How long the prefix of a path is that starts with two separators: a device after `\\.\`, or a
/// server and a share.
pub open spec fn share_prefix_len(p: Seq<char>) -> int {
    if p.len() >= 4 && p[2] == '.' && separates(p[3], false) {
        component_end(p, 4, false)
    } else {
        let server = component_end(p, 2, false);
        let end = share_end(p, 2, false);
        if server > 2 && end > server {
            end
        } else {
            0
        }
    }
}

/// How long the prefix of a path is.
pub open spec fn prefix_len(style: PathStyle, p: Seq<char>) -> int {
    if style is Slashes {
        0
    } else if is_verbatim(p) {
        verbatim_prefix_len(p)
    } else if p.len() >= 2 && separates(p[0], false) && separates(p[1], false) {
        share_prefix_len(p)
    } else if has_drive(p, 0) {
        2
    } else {
        0
    }
}

/// Whether a component `.` counts wherever it stands.
pub open spec fn keeps_dots(style: PathStyle, p: Seq<char>) -> bool {
    style is Windows && is_verbatim(p)
}

fn find_share_end(p: &Vec<char>, from: usize, verbatim: bool) -> (end: usize)
    requires
        from <= p@.len(),
    ensures
        from <= end <= p@.len(),
        end == share_end(p@, from as int, verbatim),
{
    let server = find_component_end(p, from, verbatim);
    if server == p.len() {
        return server;
    }
    let share = find_component_end(p, server + 1, verbatim);
    if share > server + 1 {
        share
    } else {
        server
    }
}

fn starts_verbatim(p: &Vec<char>) -> (r: bool)
    ensures
        r == is_verbatim(p@),
{
    p.len() >= 4 && p[0] == '\\' && p[1] == '\\' && p[2] == '?' && p[3] == '\\'
}

/// Finds the prefix of a path.
fn find_prefix(style: PathStyle, p: &Vec<char>) -> (len: usize)
    ensures
        len <= p@.len(),
        len == prefix_len(style, p@),
{
    match style {
        PathStyle::Slashes => 0,
        PathStyle::Windows => if starts_verbatim(p) {
            if p.len() >= 8 && p[4] == 'U' && p[5] == 'N' && p[6] == 'C' && is_separator(p[7], false) {
                find_share_end(p, 8, true)
            } else if is_drive(p, 4) && (p.len() == 6 || is_separator(p[6], false)) {
                6
            } else {
                find_component_end(p, 4, true)
            }
        } else if p.len() >= 2 && is_separator(p[0], false) && is_separator(p[1], false) {
            if p.len() >= 4 && p[2] == '.' && is_separator(p[3], false) {
                find_component_end(p, 4, false)
            } else {
                let server = find_component_end(p, 2, false);
                let end = find_share_end(p, 2, false);
                if server > 2 && end > server {
                    end
                } else {
                    0
                }
            }
        } else if is_drive(p, 0) {
            2
        } else {
            0
        },
    }
}

/// What stands for a character when a path of Windows is written with slashes alone: a slash for
/// what separates, and a backslash for a slash that does not.
pub open spec fn slash_for(c: char, verbatim: bool) -> char {
    if separates(c, verbatim) {
        '/'
    } else if c == '/' {
        '\\'
    } else {
        c
    }
}

/// A path without its prefix, written with slashes alone.
pub open spec fn with_slashes(style: PathStyle, p: Seq<char>) -> Seq<char> {
    if style is Slashes {
        p
    } else {
        Seq::new(
            (p.len() - prefix_len(style, p)) as nat,
            |i: int| slash_for(p[prefix_len(style, p) + i], is_verbatim(p)),
        )
    }
}

/// Writes what follows the prefix of a path with slashes alone.
fn use_slashes(style: PathStyle, p: &Vec<char>, prefix: usize) -> (plain: Vec<char>)
    requires
        prefix == prefix_len(style, p@),
        prefix <= p@.len(),
    ensures
        plain@ == with_slashes(style, p@),
        plain@.len() == p@.len() - prefix,
{
    let verbatim = starts_verbatim(p);
    let ghost all = with_slashes(style, p@);
    let mut plain: Vec<char> = Vec::new();
    let mut i: usize = prefix;
    while i < p.len()
        invariant
            prefix <= i <= p@.len(),
            prefix == prefix_len(style, p@),
            verbatim == is_verbatim(p@),
            all == with_slashes(style, p@),
            all.len() == p@.len() - prefix,
            plain@ == all.take(i - prefix),
        decreases p@.len() - i,
    {
        let c = p[i];
        assert(all[i - prefix] == (if style is Slashes { c } else { slash_for(c, verbatim) }));
        match style {
            PathStyle::Slashes => plain.push(c),
            PathStyle::Windows => if is_separator(c, verbatim) {
                plain.push('/')
            } else if c == '/' {
                plain.push('\\')
            } else {
                plain.push(c)
            },
        }
        i = i + 1;
        assert(plain@ =~= all.take(i - prefix));
    }
    assert(all.take(i - prefix) =~= all);
    plain
}

/// Whether the end of a path means nothing: a slash, or a component `.` that does not count, after
/// something else.
pub open spec fn has_idle_tail(p: Seq<char>, dots: bool) -> bool {
    p.len() >= 2 && (p.last() == '/' || (!dots && p.last() == '.' && p[p.len() - 2] == '/'))
}

/// A path without the slashes and the components `.` at its end that mean nothing.
pub open spec fn trim_tail(p: Seq<char>, dots: bool) -> Seq<char>
    decreases p.len(),
{
    if has_idle_tail(p, dots) {
        trim_tail(p.drop_last(), dots)
    } else {
        p
    }
}

/// Where the last component of a path stands, behind the prefix.
pub open spec fn last_component(style: PathStyle, p: Seq<char>) -> (int, int) {
    let path = trim_tail(with_slashes(style, p), keeps_dots(style, p));
    (last_index_of(path, '/') + 1, path.len() as int)
}

/// The file that a path names: its last component, unless that is the root, `.` or `..`.
pub open spec fn file_name_of(style: PathStyle, p: Seq<char>) -> Option<Seq<char>> {
    let (start, end) = last_component(style, p);
    let prefix = prefix_len(style, p);
    let name = p.subrange(prefix + start, prefix + end);
    if name.len() == 0 || name == seq!['.'] || name == seq!['.', '.'] {
        None
    } else {
        Some(name)
    }
}

/// What stands after the last full stop of a file name that does not stand at its start.
pub open spec fn extension_of_name(name: Seq<char>) -> Option<Seq<char>> {
    let dot = last_index_of(name, '.');
    if dot <= 0 {
        None
    } else {
        Some(name.skip(dot + 1))
    }
}

/// The extension of the file that a path names.
pub open spec fn extension_of(style: PathStyle, p: Seq<char>) -> Option<Seq<char>> {
    match file_name_of(style, p) {
        Some(name) => extension_of_name(name),
        None => None,
    }
}

/// Whether a path names a file with the given extension, in small or capital letters.
pub open spec fn names_extension(style: PathStyle, p: Seq<char>, extension: Seq<char>) -> bool {
    extension_of(style, p) matches Some(found) && equal_ignoring_case(found, extension)
}

/// Whether a path names a file with one of the given extensions.
pub open spec fn names_any_extension(
    style: PathStyle,
    p: Seq<char>,
    extensions: Seq<Seq<char>>,
) -> bool {
    exists|i: int| 0 <= i < extensions.len() && names_extension(style, p, #[trigger] extensions[i])
}

/// A path without its last component; the empty path, the root and a prefix have no parent.
pub open spec fn parent_of(style: PathStyle, p: Seq<char>) -> Option<Seq<char>> {
    let path = trim_tail(with_slashes(style, p), keeps_dots(style, p));
    if path.len() == 0 || path == seq!['/'] {
        None
    } else {
        let above = trim_tail(path.take(last_index_of(path, '/') + 1), keeps_dots(style, p));
        Some(p.take(prefix_len(style, p) + above.len()))
    }
}

/// Whether a path is a drive and nothing else.
pub open spec fn is_bare_drive(p: Seq<char>) -> bool {
    p.len() == 2 && has_drive(p, 0)
}

/// A directory with what has to stand between it and a name.
pub open spec fn opened(style: PathStyle, directory: Seq<char>) -> Seq<char> {
    match style {
        PathStyle::Slashes => if directory.len() == 0 || directory.last() == '/' {
            directory
        } else {
            directory + "/"@
        },
        PathStyle::Windows => if directory.len() == 0 || is_bare_drive(directory) || separates(
            directory.last(),
            is_verbatim(directory),
        ) {
            directory
        } else {
            directory + "\\"@
        },
    }
}

/// A path continued by another one. An absolute one takes its place; on Windows, one with a prefix
/// takes the place of all of it, and one without takes the place of what follows the prefix.
pub open spec fn joined(style: PathStyle, directory: Seq<char>, name: Seq<char>) -> Seq<char> {
    match style {
        PathStyle::Slashes => if name.len() > 0 && name[0] == '/' {
            name
        } else {
            opened(style, directory) + name
        },
        PathStyle::Windows => if prefix_len(style, name) > 0 {
            name
        } else if name.len() > 0 && separates(name[0], false) {
            directory.take(prefix_len(style, directory)) + name
        } else {
            opened(style, directory) + name
        },
    }
}

/// Whether a text is the name of one file: one component, neither `.` nor `..`, and no prefix.
pub open spec fn is_file_name(style: PathStyle, name: Seq<char>) -> bool {
    &&& name.len() > 0
    &&& !name.contains('/')
    &&& style is Windows ==> !name.contains('\\')
    &&& name != seq!['.']
    &&& name != seq!['.', '.']
    &&& prefix_len(style, name) == 0
}

/// The number of characters that are left without the tail that means nothing.
fn trimmed_len(chars: &Vec<char>, from: usize, dots: bool) -> (len: usize)
    requires
        from <= chars@.len(),
    ensures
        len <= from,
        chars@.take(len as int) == trim_tail(chars@.take(from as int), dots),
{
    let mut len: usize = from;
    while len >= 2 && (chars[len - 1] == '/' || (!dots && chars[len - 1] == '.' && chars[len - 2]
        == '/'))
        invariant
            len <= from <= chars@.len(),
            trim_tail(chars@.take(len as int), dots) == trim_tail(chars@.take(from as int), dots),
        decreases len,
    {
        assert(chars@.take(len as int).drop_last() =~= chars@.take(len - 1));
        len = len - 1;
    }
    len
}

/// What follows the prefix of a path, with slashes alone, and without the tail that means nothing.
fn trimmed_path(style: PathStyle, chars: &Vec<char>, prefix: usize) -> (path: Vec<char>)
    requires
        prefix == prefix_len(style, chars@),
        prefix <= chars@.len(),
    ensures
        path@ == trim_tail(with_slashes(style, chars@), keeps_dots(style, chars@)),
        prefix + path@.len() <= chars.len(),
{
    let mut path = use_slashes(style, chars, prefix);
    let dots = match style {
        PathStyle::Slashes => false,
        PathStyle::Windows => starts_verbatim(chars),
    };
    let len = trimmed_len(&path, path.len(), dots);
    assert(path@.take(path@.len() as int) =~= path@);
    path.truncate(len);
    assert(path@ =~= trim_tail(with_slashes(style, chars@), keeps_dots(style, chars@)));
    path
}

/// The file that a path names, if it names one.
pub fn file_name(style: PathStyle, path: &str) -> (name: Option<String>)
    ensures
        match name {
            Some(name) => file_name_of(style, path@) == Some(name@),
            None => file_name_of(style, path@) is None,
        },
{
    let chars = to_chars(path);
    let prefix = find_prefix(style, &chars);
    let plain = trimmed_path(style, &chars, prefix);
    let end: usize = prefix + plain.len();
    let start: usize = match find_last(&plain, '/') {
        Some(slash) => prefix + slash + 1,
        None => prefix,
    };
    let size = end - start;
    let ghost name = chars@.subrange(start as int, end as int);
    assert(name.len() == size);
    if size == 0 {
        return None;
    }
    if size == 1 && chars[start] == '.' {
        assert(name =~= seq!['.']);
        return None;
    }
    if size == 2 && chars[start] == '.' && chars[start + 1] == '.' {
        assert(name =~= seq!['.', '.']);
        return None;
    }
    assert(name != seq!['.']) by {
        assert(name[0] == chars@[start as int]);
    }
    assert(name != seq!['.', '.']) by {
        assert(name[0] == chars@[start as int]);
        assert(size >= 2 ==> name[1] == chars@[start + 1]);
    }
    Some(slice_text(&chars, start, end))
}

/// The extension of the file that a path names, if it has one.
pub fn extension(style: PathStyle, path: &str) -> (found: Option<String>)
    ensures
        match found {
            Some(found) => extension_of(style, path@) == Some(found@),
            None => extension_of(style, path@) is None,
        },
{
    match file_name(style, path) {
        Some(name) => {
            let chars = to_chars(name.as_str());
            let end = chars.len();
            match find_last(&chars, '.') {
                Some(dot) => {
                    if dot == 0 {
                        None
                    } else {
                        assert(chars@.subrange(dot + 1, chars@.len() as int) =~= chars@.skip(
                            dot + 1,
                        ));
                        Some(slice_text(&chars, dot + 1, end))
                    }
                },
                None => None,
            }
        },
        None => None,
    }
}

/// Whether a path names a file with the given extension, in small or capital letters.
pub fn has_extension(style: PathStyle, path: &str, wanted: &str) -> (r: bool)
    ensures
        r == names_extension(style, path@, wanted@),
{
    match extension(style, path) {
        Some(found) => eq_ignore_case(&to_chars(found.as_str()), &to_chars(wanted)),
        None => false,
    }
}

/// The texts of a list.
pub open spec fn texts(list: Seq<&str>) -> Seq<Seq<char>> {
    list.map_values(|text: &str| text@)
}

/// Whether a path names a file with one of the given extensions.
pub fn has_any_extension(style: PathStyle, path: &str, wanted: &[&str]) -> (r: bool)
    ensures
        r == names_any_extension(style, path@, texts(wanted@)),
{
    let mut i: usize = 0;
    while i < wanted.len()
        invariant
            i <= wanted@.len(),
            forall|j: int|
                0 <= j < i ==> !names_extension(style, path@, #[trigger] texts(wanted@)[j]),
        decreases wanted@.len() - i,
    {
        if has_extension(style, path, wanted[i]) {
            assert(names_extension(style, path@, texts(wanted@)[i as int]));
            return true;
        }
        i = i + 1;
    }
    false
}

/// A path without its last component, if it has one.
pub fn parent(style: PathStyle, path: &str) -> (above: Option<String>)
    ensures
        match above {
            Some(above) => parent_of(style, path@) == Some(above@),
            None => parent_of(style, path@) is None,
        },
{
    let chars = to_chars(path);
    let prefix = find_prefix(style, &chars);
    let plain = trimmed_path(style, &chars, prefix);
    if plain.len() == 0 {
        return None;
    }
    if plain.len() == 1 && plain[0] == '/' {
        assert(plain@ =~= seq!['/']);
        return None;
    }
    let cut: usize = match find_last(&plain, '/') {
        Some(slash) => slash + 1,
        None => 0,
    };
    let dots = match style {
        PathStyle::Slashes => false,
        PathStyle::Windows => starts_verbatim(&chars),
    };
    let end: usize = prefix + trimmed_len(&plain, cut, dots);
    assert(chars@.subrange(0, end as int) =~= chars@.take(end as int));
    Some(slice_text(&chars, 0, end))
}

/// Continues a path by another one.
pub fn join(style: PathStyle, directory: &str, name: &str) -> (path: String)
    ensures
        path@ == joined(style, directory@, name@),
{
    let above = to_chars(directory);
    let below = to_chars(name);
    match style {
        PathStyle::Slashes => if below.len() > 0 && below[0] == '/' {
            name.to_owned()
        } else if above.len() == 0 || above[above.len() - 1] == '/' {
            concat2(directory, name)
        } else {
            concat3(directory, "/", name)
        },
        PathStyle::Windows => if find_prefix(style, &below) > 0 {
            name.to_owned()
        } else if below.len() > 0 && is_separator(below[0], false) {
            let prefix = find_prefix(style, &above);
            assert(above@.subrange(0, prefix as int) =~= above@.take(prefix as int));
            concat2(slice_text(&above, 0, prefix).as_str(), name)
        } else if above.len() == 0 || (above.len() == 2 && is_drive(&above, 0)) || is_separator(
            above[above.len() - 1],
            starts_verbatim(&above),
        ) {
            concat2(directory, name)
        } else {
            concat3(directory, "\\", name)
        },
    }
}

proof fn lemma_component_end(p: Seq<char>, from: int, verbatim: bool)
    requires
        0 <= from,
    ensures
        from <= component_end(p, from, verbatim),
        from <= p.len() ==> component_end(p, from, verbatim) <= p.len(),
    decreases p.len() - from,
{
    if from < p.len() && !separates(p[from], verbatim) {
        lemma_component_end(p, from + 1, verbatim);
    }
}

/// A prefix is part of its path, and that of a verbatim path is longer than its start.
proof fn lemma_prefix(style: PathStyle, p: Seq<char>)
    ensures
        0 <= prefix_len(style, p) <= p.len(),
        style is Windows && is_verbatim(p) ==> prefix_len(style, p) >= 4,
{
    if p.len() >= 2 {
        lemma_component_end(p, 2, false);
        lemma_component_end(p, component_end(p, 2, false) + 1, false);
    }
    if p.len() >= 4 {
        lemma_component_end(p, 4, false);
        lemma_component_end(p, 4, true);
    }
    if p.len() >= 8 {
        lemma_component_end(p, 8, true);
        lemma_component_end(p, component_end(p, 8, true) + 1, true);
    }
}

proof fn lemma_trim_tail(p: Seq<char>, dots: bool)
    ensures
        trim_tail(p, dots).len() <= p.len(),
        trim_tail(p, dots) == p.take(trim_tail(p, dots).len() as int),
    decreases p.len(),
{
    if has_idle_tail(p, dots) {
        lemma_trim_tail(p.drop_last(), dots);
        let len = trim_tail(p, dots).len() as int;
        assert(p.drop_last().take(len) =~= p.take(len));
    } else {
        assert(p.take(p.len() as int) =~= p);
    }
}

/// A file name is one component of the path that it ends: nothing in it separates.
pub proof fn lemma_file_name_is_plain(style: PathStyle, p: Seq<char>)
    ensures
        file_name_of(style, p) matches Some(name) ==> {
            &&& name.len() > 0
            &&& name != seq!['.']
            &&& name != seq!['.', '.']
            &&& !keeps_dots(style, p) ==> !name.contains('/')
            &&& style is Windows ==> !name.contains('\\')
        },
{
    let plain = with_slashes(style, p);
    let path = trim_tail(plain, keeps_dots(style, p));
    lemma_prefix(style, p);
    lemma_trim_tail(plain, keeps_dots(style, p));
    lemma_last_index_of(path, '/');
    let prefix = prefix_len(style, p);
    let (start, end) = last_component(style, p);
    let name = p.subrange(prefix + start, prefix + end);
    assert forall|i: int| 0 <= i < name.len() implies (!keeps_dots(style, p) ==> name[i] != '/') && (
    style is Windows ==> #[trigger] name[i] != '\\') by {
        assert(name[i] == p[prefix + start + i]);
        assert(path[start + i] == plain[start + i]);
    }
}

/// Whether a directory keeps its prefix when it is continued by a name: it does unless the two make a
/// share or a device together.
pub open spec fn keeps_prefix(style: PathStyle, directory: Seq<char>, name: Seq<char>) -> bool {
    prefix_len(style, joined(style, directory, name)) <= directory.len()
}

/// A directory is continued by a file name as it is.
pub proof fn lemma_joined(style: PathStyle, directory: Seq<char>, name: Seq<char>)
    requires
        is_file_name(style, name),
    ensures
        joined(style, directory, name) == opened(style, directory) + name,
{
    assert(name.contains(name[0]));
}

/// A file name at the end of a path is the file that the path names, where it stands right behind the
/// prefix or a separator.
#[verifier::rlimit(60)]
proof fn lemma_last_name(style: PathStyle, above: Seq<char>, name: Seq<char>)
    requires
        is_file_name(style, name),
        prefix_len(style, above + name) <= above.len(),
        prefix_len(style, above + name) < above.len() ==> ({
            let c = above.last();
            if style is Slashes {
                c == '/'
            } else {
                separates(c, is_verbatim(above + name))
            }
        }),
    ensures
        file_name_of(style, above + name) == Some(name),
{
    let path = above + name;
    let prefix = prefix_len(style, path);
    lemma_prefix(style, path);
    let start = above.len() - prefix;
    let plain = with_slashes(style, path);
    assert forall|i: int| 0 <= i < name.len() implies plain[start + i] == #[trigger] name[i] && name[i]
        != '/' by {
        assert(name.contains(name[i]));
        assert(path[above.len() + i] == name[i]);
    }
    assert forall|i: int| start <= i < plain.len() implies #[trigger] plain[i] != '/' by {
        assert(plain[start + (i - start)] == name[i - start]);
    }
    assert(plain.len() == start + name.len());
    if start > 0 {
        assert(path[above.len() - 1] == above.last());
        assert(plain[start - 1] == '/');
    }
    assert(!has_idle_tail(plain, keeps_dots(style, path))) by {
        if plain.last() == '.' && plain.len() >= 2 && plain[plain.len() - 2] == '/' {
            assert(plain.len() - 2 < start);
            assert(plain[start] == name[0]);
            assert(name =~= seq!['.']);
        }
    }
    lemma_last_index_is(plain, '/', start - 1);
    assert(path.subrange(above.len() as int, path.len() as int) =~= name);
}

/// A file in a directory keeps its name: the path that joins the two names that file.
pub proof fn law_join_keeps_file_name(style: PathStyle, directory: Seq<char>, name: Seq<char>)
    requires
        is_file_name(style, name),
        keeps_prefix(style, directory, name),
    ensures
        file_name_of(style, joined(style, directory, name)) == Some(name),
{
    reveal_strlit("/");
    reveal_strlit("\\");
    let above = opened(style, directory);
    let path = above + name;
    lemma_joined(style, directory, name);
    lemma_prefix(style, path);
    if style is Windows && above == directory {
        assert(forall|i: int| 0 <= i < directory.len() ==> path[i] == directory[i]);
        if directory.len() < 4 {
            assert(!is_verbatim(path));
        }
        if is_bare_drive(directory) {
            assert(has_drive(path, 0));
        }
    }
    lemma_last_name(style, above, name);
}

/// A file name alone names that file.
pub proof fn lemma_lone_file_name(style: PathStyle, name: Seq<char>)
    requires
        is_file_name(style, name),
    ensures
        file_name_of(style, name) == Some(name),
{
    lemma_joined(style, Seq::empty(), name);
    assert(Seq::empty() + name =~= name);
    law_join_keeps_file_name(style, Seq::empty(), name);
}

/// What stands behind the last slash of a path is the file that it names, and so is a path without
/// slashes; but not where that is empty, `.` or `..`.
pub proof fn law_file_name(above: Seq<char>, name: Seq<char>)
    requires
        !name.contains('/'),
    ensures
        ({
            let found = if name.len() == 0 || name == seq!['.'] || name == seq!['.', '.'] {
                None
            } else {
                Some(name)
            };
            &&& file_name_of(PathStyle::Slashes, name) == found
            &&& name.len() > 0 && name != seq!['.'] ==> file_name_of(
                PathStyle::Slashes,
                above.push('/') + name,
            ) == found
        }),
{
    let style = PathStyle::Slashes;
    let path = above.push('/') + name;
    if name.len() == 0 || name == seq!['.'] || name == seq!['.', '.'] {
        assert(!has_idle_tail(name, false));
        assert forall|i: int| 0 <= i < name.len() implies name[i] != '/' by {
            assert(name.contains(name[i]));
        }
        lemma_last_index_is(name, '/', -1);
        assert(name.subrange(0, name.len() as int) =~= name);
        if name == seq!['.', '.'] {
            assert(path.last() == '.' && path[path.len() - 2] == '.');
            assert(!has_idle_tail(path, false));
            assert forall|i: int| above.len() < i < path.len() implies path[i] != '/' by {
                assert(path[i] == name[i - above.len() - 1]);
            }
            assert(path[above.len() as int] == '/');
            lemma_last_index_is(path, '/', above.len() as int);
            assert(path.subrange(above.len() as int + 1, path.len() as int) =~= name);
        }
    } else {
        lemma_last_name(style, above.push('/'), name);
        lemma_last_name(style, Seq::empty(), name);
        assert(Seq::<char>::empty() + name =~= name);
    }
}

proof fn lemma_idle_tail(p: Seq<char>)
    requires
        p.len() > 0,
    ensures
        trim_tail(p.push('/'), false) == trim_tail(p, false),
        trim_tail(p.push('/').push('.'), false) == trim_tail(p, false),
{
    assert(p.push('/').drop_last() =~= p);
    assert(p.push('/').push('.').drop_last() =~= p.push('/'));
    assert(p.push('/').push('.')[p.len() as int] == '/');
}

/// A slash at the end of a path changes neither the file that it names nor its parent, and neither
/// does a component `.`.
pub proof fn law_idle_tail(p: Seq<char>)
    requires
        p.len() > 0,
    ensures
        file_name_of(PathStyle::Slashes, p.push('/')) == file_name_of(PathStyle::Slashes, p),
        file_name_of(PathStyle::Slashes, p.push('/').push('.')) == file_name_of(
            PathStyle::Slashes,
            p,
        ),
        parent_of(PathStyle::Slashes, p.push('/')) == parent_of(PathStyle::Slashes, p),
        parent_of(PathStyle::Slashes, p.push('/').push('.')) == parent_of(PathStyle::Slashes, p),
{
    lemma_idle_tail(p);
    let path = trim_tail(p, false);
    lemma_trim_tail(p, false);
    lemma_last_index_of(path, '/');
    let start = last_index_of(path, '/') + 1;
    let end = path.len() as int;
    assert(p.push('/').subrange(start, end) =~= p.subrange(start, end));
    assert(p.push('/').push('.').subrange(start, end) =~= p.subrange(start, end));
    lemma_trim_tail(path.take(start), false);
    let len = trim_tail(path.take(start), false).len() as int;
    assert(p.push('/').take(len) =~= p.take(len));
    assert(p.push('/').push('.').take(len) =~= p.take(len));
}

/// The parent of a path is what stands before its last slash: nothing where there is no slash, and
/// the root where nothing stands before it. The empty path and the root have no parent.
#[verifier::rlimit(60)]
pub proof fn law_parent(above: Seq<char>, name: Seq<char>)
    requires
        name.len() > 0,
        !name.contains('/'),
        name != seq!['.'],
        above.len() > 0 ==> above.last() != '/',
        above.len() > 1 ==> !(above.last() == '.' && above[above.len() - 2] == '/'),
    ensures
        parent_of(PathStyle::Slashes, above.push('/') + name) == Some(
            if above.len() == 0 {
                seq!['/']
            } else {
                above
            },
        ),
        parent_of(PathStyle::Slashes, name) == Some(Seq::<char>::empty()),
        parent_of(PathStyle::Slashes, Seq::empty()) is None,
        parent_of(PathStyle::Slashes, seq!['/']) is None,
{
    let path = above.push('/') + name;
    let cut = above.push('/');
    assert forall|i: int| 0 <= i < name.len() implies name[i] != '/' by {
        assert(name.contains(name[i]));
    }
    assert forall|i: int| above.len() < i < path.len() implies path[i] != '/' by {
        assert(path[i] == name[i - above.len() - 1]);
    }
    assert(path[above.len() as int] == '/');
    lemma_last_index_is(path, '/', above.len() as int);
    lemma_last_index_is(name, '/', -1);
    assert(path.last() == name.last());
    assert(!has_idle_tail(path, false)) by {
        if path.last() == '.' && path[path.len() - 2] == '/' {
            assert(name =~= seq!['.']);
        }
    }
    assert(!has_idle_tail(name, false)) by {
        if name.len() >= 2 {
            assert(name[name.len() - 2] != '/');
        }
    }
    assert(path != seq!['/']) by {
        assert(path.len() >= 2);
    }
    assert(name != seq!['/']) by {
        assert(name[0] != '/');
    }
    assert(trim_tail(path, false) == path);
    assert(path.take(above.len() as int + 1) =~= cut);
    assert(cut.drop_last() =~= above);
    if above.len() == 0 {
        assert(cut =~= seq!['/']);
        assert(!has_idle_tail(cut, false));
        assert(path.take(1) =~= seq!['/']);
    } else {
        assert(has_idle_tail(cut, false));
        assert(!has_idle_tail(above, false));
        assert(trim_tail(cut, false) == trim_tail(cut.drop_last(), false));
        assert(trim_tail(above, false) == above);
        assert(path.take(above.len() as int) =~= above);
    }
    assert(name.take(0) =~= Seq::<char>::empty());
    assert(!has_idle_tail(Seq::<char>::empty(), false));
    assert(!has_idle_tail(seq!['/'], false));
}

/// A name is put behind a directory as it is: the path starts with the directory and ends with the
/// name, and between them stands nothing, or one separator where the directory is not empty and does
/// not end with one. A path that starts at the root takes the place of the directory.
pub proof fn law_joined(directory: Seq<char>, name: Seq<char>)
    ensures
        ({
            let path = joined(PathStyle::Slashes, directory, name);
            if name.len() > 0 && name[0] == '/' {
                path == name
            } else {
                let gap = path.len() - directory.len() - name.len();
                &&& gap == if directory.len() > 0 && directory.last() != '/' {
                    1int
                } else {
                    0int
                }
                &&& path.take(directory.len() as int) == directory
                &&& path.skip(path.len() - name.len()) == name
                &&& gap == 1 ==> path[directory.len() as int] == '/'
            }
        }),
{
    reveal_strlit("/");
    let path = joined(PathStyle::Slashes, directory, name);
    if name.len() == 0 || name[0] != '/' {
        assert(path.take(directory.len() as int) =~= directory);
        assert(path.skip(path.len() - name.len()) =~= name);
    }
}

/// On Windows a file name is put behind a directory as it is, and between them stands nothing where
/// the directory is empty, ends with a separator or is a drive alone; else one backslash.
pub proof fn law_joined_on_windows(directory: Seq<char>, name: Seq<char>)
    requires
        name.len() > 0,
        !name.contains('/'),
        !name.contains('\\'),
        name.len() > 1 ==> name[1] != ':',
    ensures
        ({
            let path = joined(PathStyle::Windows, directory, name);
            let gap = path.len() - directory.len() - name.len();
            &&& 0 <= gap <= 1
            &&& path.take(directory.len() as int) == directory
            &&& path.skip(path.len() - name.len()) == name
            &&& gap == 1 ==> path[directory.len() as int] == '\\'
            &&& directory.len() == 0 ==> gap == 0
            &&& directory.len() > 0 && directory.last() == '\\' ==> gap == 0
            &&& directory.len() > 0 && directory.last() != '\\' && directory.last() != '/' && (
            directory.len() != 2 || directory[1] != ':') ==> gap == 1
        }),
{
    reveal_strlit("\\");
    let path = joined(PathStyle::Windows, directory, name);
    assert(name.contains(name[0]));
    assert(path.take(directory.len() as int) =~= directory);
    assert(path.skip(path.len() - name.len()) =~= name);
}

/// What stands behind the last full stop of a file name is its extension, unless nothing stands
/// before that full stop; a name without full stops has none.
pub proof fn law_extension(style: PathStyle, path: Seq<char>, stem: Seq<char>, extension: Seq<char>)
    requires
        !extension.contains('.'),
    ensures
        file_name_of(style, path) == Some(stem.push('.') + extension) ==> extension_of(style, path)
            == if stem.len() > 0 {
            Some(extension)
        } else {
            None
        },
        file_name_of(style, path) == Some(extension) ==> extension_of(style, path) is None,
        file_name_of(style, path) is None ==> extension_of(style, path) is None,
{
    let name = stem.push('.') + extension;
    let dot = stem.len() as int;
    assert(name[dot] == '.');
    assert forall|i: int| 0 <= i < extension.len() implies extension[i] != '.' by {
        assert(extension.contains(extension[i]));
    }
    assert forall|i: int| dot < i < name.len() implies name[i] != '.' by {
        assert(name[i] == extension[i - dot - 1]);
    }
    lemma_last_index_is(name, '.', dot);
    lemma_last_index_is(extension, '.', -1);
    assert(name.skip(dot + 1) =~= extension);
}

/// A path has a wanted extension if and only if its own is the same but for the case of letters.
pub proof fn law_names_extension(style: PathStyle, path: Seq<char>, wanted: Seq<char>)
    ensures
        names_extension(style, path, wanted) <==> exists|found: Seq<char>|
            extension_of(style, path) == Some(found) && #[trigger] equal_ignoring_case(
                found,
                wanted,
            ),
{
}

/// A path with its backslashes turned into slashes.
pub open spec fn turned(p: Seq<char>) -> Seq<char> {
    Seq::new(
        p.len(),
        |i: int|
            if p[i] == '\\' {
                '/'
            } else {
                p[i]
            },
    )
}

#[verifier::rlimit(60)]
proof fn lemma_behind_prefix(p: Seq<char>)
    requires
        !is_verbatim(p),
    ensures
        ({
            let rest = p.skip(prefix_len(PathStyle::Windows, p));
            &&& file_name_of(PathStyle::Windows, p) == file_name_of(
                PathStyle::Slashes,
                turned(rest),
            )
            &&& match parent_of(PathStyle::Slashes, turned(rest)) {
                Some(above) => parent_of(PathStyle::Windows, p) == Some(
                    p.take(prefix_len(PathStyle::Windows, p) + above.len()),
                ),
                None => parent_of(PathStyle::Windows, p) is None,
            }
        }),
{
    lemma_prefix(PathStyle::Windows, p);
    let prefix = prefix_len(PathStyle::Windows, p);
    let rest = p.skip(prefix);
    let plain = with_slashes(PathStyle::Windows, p);
    assert(plain =~= turned(rest));
    let path = trim_tail(plain, false);
    lemma_trim_tail(plain, false);
    lemma_last_index_of(path, '/');
    let start = last_index_of(path, '/') + 1;
    let end = path.len() as int;
    let name = p.subrange(prefix + start, prefix + end);
    assert(name =~= plain.subrange(start, end)) by {
        assert forall|i: int| 0 <= i < end - start implies name[i] == plain[start + i] by {
            assert(path[start + i] == plain[start + i]);
            assert(path[start + i] != '/');
        }
    }
    lemma_trim_tail(path.take(start), false);
    let len = trim_tail(path.take(start), false).len() as int;
    assert(plain.take(len).len() == len);
}

/// On Windows a path without a drive, and with no two separators at its start, is read like the same
/// path with slashes.
pub proof fn law_plain_path_on_windows(p: Seq<char>)
    requires
        p.len() > 1 ==> !(p[1] == ':' && ('a' <= p[0] <= 'z' || 'A' <= p[0] <= 'Z')),
        p.len() > 1 ==> !((p[0] == '/' || p[0] == '\\') && (p[1] == '/' || p[1] == '\\')),
    ensures
        file_name_of(PathStyle::Windows, p) == file_name_of(PathStyle::Slashes, turned(p)),
        match parent_of(PathStyle::Slashes, turned(p)) {
            Some(above) => parent_of(PathStyle::Windows, p) == Some(p.take(above.len() as int)),
            None => parent_of(PathStyle::Windows, p) is None,
        },
{
    lemma_behind_prefix(p);
    assert(prefix_len(PathStyle::Windows, p) == 0);
    assert(p.skip(0) =~= p);
}

/// On Windows the file behind a drive is that of the path without the drive.
pub proof fn law_drive_on_windows(drive: char, rest: Seq<char>)
    requires
        'a' <= drive <= 'z' || 'A' <= drive <= 'Z',
    ensures
        file_name_of(PathStyle::Windows, seq![drive, ':'] + rest) == file_name_of(
            PathStyle::Slashes,
            turned(rest),
        ),
        match parent_of(PathStyle::Slashes, turned(rest)) {
            Some(above) => parent_of(PathStyle::Windows, seq![drive, ':'] + rest) == Some(
                seq![drive, ':'] + rest.take(above.len() as int),
            ),
            None => parent_of(PathStyle::Windows, seq![drive, ':'] + rest) is None,
        },
{
    let p = seq![drive, ':'] + rest;
    assert(p[0] == drive && p[1] == ':');
    lemma_behind_prefix(p);
    assert(prefix_len(PathStyle::Windows, p) == 2);
    assert(p.skip(2) =~= rest);
    let plain = turned(rest);
    let path = trim_tail(plain, false);
    lemma_trim_tail(plain, false);
    lemma_last_index_of(path, '/');
    lemma_trim_tail(path.take(last_index_of(path, '/') + 1), false);
    if let Some(above) = parent_of(PathStyle::Slashes, plain) {
        assert(above.len() <= rest.len());
        assert(p.take(2 + above.len() as int) =~= seq![drive, ':'] + rest.take(above.len() as int));
    }
}

proof fn lemma_component_end_is(p: Seq<char>, from: int, end: int, verbatim: bool)
    requires
        0 <= from <= end <= p.len(),
        forall|i: int| from <= i < end ==> !separates(#[trigger] p[i], verbatim),
        end < p.len() ==> separates(p[end], verbatim),
    ensures
        component_end(p, from, verbatim) == end,
    decreases end - from,
{
    if from < end {
        assert(!separates(p[from], verbatim));
        lemma_component_end_is(p, from + 1, end, verbatim);
    }
}

/// On Windows the file behind a server and a share is that of what follows the share; a share alone
/// names no file.
#[verifier::rlimit(60)]
pub proof fn law_share_on_windows(
    a: char,
    b: char,
    server: Seq<char>,
    c: char,
    share: Seq<char>,
    rest: Seq<char>,
)
    requires
        a == '/' || a == '\\',
        b == '/' || b == '\\',
        c == '/' || c == '\\',
        server.len() > 0,
        server != seq!['.'],
        server != seq!['?'],
        share.len() > 0,
        forall|i: int| 0 <= i < server.len() ==> #[trigger] server[i] != '/' && server[i] != '\\',
        forall|i: int| 0 <= i < share.len() ==> #[trigger] share[i] != '/' && share[i] != '\\',
        rest.len() > 0 ==> rest[0] == '/' || rest[0] == '\\',
    ensures
        ({
            let path = seq![a, b] + server + seq![c] + share + rest;
            &&& file_name_of(PathStyle::Windows, path) == file_name_of(
                PathStyle::Slashes,
                turned(rest),
            )
            &&& match parent_of(PathStyle::Slashes, turned(rest)) {
                Some(above) => parent_of(PathStyle::Windows, path) == Some(
                    path.take(path.len() - rest.len() + above.len()),
                ),
                None => parent_of(PathStyle::Windows, path) is None,
            }
        }),
{
    let p = seq![a, b] + server + seq![c] + share + rest;
    let first = 2 + server.len() as int;
    let second = first + 1 + share.len();
    assert(p[0] == a && p[1] == b);
    assert forall|i: int| 2 <= i < first implies !separates(#[trigger] p[i], false) by {
        assert(p[i] == server[i - 2]);
    }
    assert(p[first] == c);
    assert forall|i: int| first < i < second implies !separates(#[trigger] p[i], false) by {
        assert(p[i] == share[i - first - 1]);
    }
    if rest.len() > 0 {
        assert(p[second] == rest[0]);
    }
    assert(p.skip(second) =~= rest);
    assert(p[2] == server[0]);
    if server.len() == 1 {
        assert(server[0] != '.') by {
            if server[0] == '.' {
                assert(server =~= seq!['.']);
            }
        }
        assert(server[0] != '?') by {
            if server[0] == '?' {
                assert(server =~= seq!['?']);
            }
        }
    } else {
        assert(p[3] == server[1]);
    }
    lemma_component_end_is(p, 2, first, false);
    lemma_component_end_is(p, first + 1, second, false);
    lemma_behind_prefix(p);
}

/// The root names no file. Separators that are repeated, and a component `.` between others, change
/// neither the file that a path names nor its parent.
#[verifier::rlimit(60)]
pub proof fn law_idle_components(above: Seq<char>, name: Seq<char>)
    requires
        name.len() > 0,
        !name.contains('/'),
        name != seq!['.'],
    ensures
        file_name_of(PathStyle::Slashes, seq!['/']) is None,
        parent_of(PathStyle::Slashes, above.push('/').push('/') + name) == parent_of(
            PathStyle::Slashes,
            above.push('/') + name,
        ),
        parent_of(PathStyle::Slashes, above.push('/').push('.').push('/') + name) == parent_of(
            PathStyle::Slashes,
            above.push('/') + name,
        ),
        file_name_of(PathStyle::Slashes, above.push('/').push('/') + name) == file_name_of(
            PathStyle::Slashes,
            above.push('/') + name,
        ),
        file_name_of(PathStyle::Slashes, above.push('/').push('.').push('/') + name)
            == file_name_of(PathStyle::Slashes, above.push('/') + name),
{
    let one = above.push('/');
    let two = one.push('/');
    let dot = one.push('.');
    let three = dot.push('/');
    law_file_name(above, name);
    law_file_name(one, name);
    law_file_name(dot, name);
    lemma_idle_tail(one);
    lemma_idle_tail(dot);
    assert(dot.drop_last() =~= one);
    assert(has_idle_tail(dot, false));
    assert(trim_tail(dot, false) == trim_tail(one, false));
    lemma_parent_cut(above, name);
    lemma_parent_cut(one, name);
    lemma_parent_cut(dot, name);
    lemma_trim_tail(one, false);
    let len = trim_tail(one, false).len() as int;
    assert((two + name).take(len) =~= (one + name).take(len));
    assert((three + name).take(len) =~= (one + name).take(len));
    assert(!has_idle_tail(seq!['/'], false));
    lemma_last_index_is(seq!['/'], '/', 0);
    assert(seq!['/'].subrange(1, 1).len() == 0);
}

/// The parent of a path is what is left of all up to its last slash.
proof fn lemma_parent_cut(above: Seq<char>, name: Seq<char>)
    requires
        name.len() > 0,
        !name.contains('/'),
        name != seq!['.'],
    ensures
        parent_of(PathStyle::Slashes, above.push('/') + name) == Some(
            (above.push('/') + name).take(trim_tail(above.push('/'), false).len() as int),
        ),
{
    let path = above.push('/') + name;
    assert forall|i: int| 0 <= i < name.len() implies name[i] != '/' by {
        assert(name.contains(name[i]));
    }
    assert forall|i: int| above.len() < i < path.len() implies path[i] != '/' by {
        assert(path[i] == name[i - above.len() - 1]);
    }
    assert(path[above.len() as int] == '/');
    lemma_last_index_is(path, '/', above.len() as int);
    assert(path.last() == name.last());
    assert(!has_idle_tail(path, false)) by {
        if path.last() == '.' && path[path.len() - 2] == '/' {
            assert(name =~= seq!['.']);
        }
    }
    assert(trim_tail(path, false) == path);
    assert(path != seq!['/']) by {
        assert(path.len() >= 2);
    }
    assert(path.take(above.len() as int + 1) =~= above.push('/'));
}

/// A path has one of some extensions if and only if it has one that stands in the list.
pub proof fn law_names_any_extension(
    style: PathStyle,
    path: Seq<char>,
    extensions: Seq<Seq<char>>,
    list: Seq<&str>,
)
    ensures
        names_any_extension(style, path, extensions) <==> exists|wanted: Seq<char>|
            extensions.contains(wanted) && #[trigger] names_extension(style, path, wanted),
        texts(list).len() == list.len(),
        forall|i: int| 0 <= i < list.len() ==> #[trigger] texts(list)[i] == list[i]@,
{
    if names_any_extension(style, path, extensions) {
        let i = choose|i: int|
            0 <= i < extensions.len() && names_extension(style, path, #[trigger] extensions[i]);
        assert(extensions.contains(extensions[i]) && names_extension(style, path, extensions[i]));
    }
    if exists|wanted: Seq<char>|
        extensions.contains(wanted) && #[trigger] names_extension(style, path, wanted) {
        let wanted = choose|wanted: Seq<char>|
            extensions.contains(wanted) && #[trigger] names_extension(style, path, wanted);
        let i = choose|i: int| 0 <= i < extensions.len() && extensions[i] == wanted;
        assert(names_extension(style, path, extensions[i]));
    }
}

/// On Windows a verbatim path behind a drive names what stands behind its last backslash, be there
/// slashes in it or not.
#[verifier::rlimit(60)]
pub proof fn law_verbatim_path_on_windows(drive: char, above: Seq<char>, name: Seq<char>)
    requires
        'a' <= drive <= 'z' || 'A' <= drive <= 'Z',
        above.len() > 0 ==> above[0] == '\\',
        name.len() > 0,
        !name.contains('\\'),
        name != seq!['.'],
        name != seq!['.', '.'],
    ensures
        file_name_of(
            PathStyle::Windows,
            seq!['\\', '\\', '?', '\\', drive, ':'] + above.push('\\') + name,
        ) == Some(name),
{
    let start = seq!['\\', '\\', '?', '\\', drive, ':'];
    let p = start + above.push('\\') + name;
    assert(forall|i: int| 0 <= i < 6 ==> p[i] == start[i]);
    assert(p[6] == above.push('\\')[0]);
    assert(is_verbatim(p));
    assert(prefix_len(PathStyle::Windows, p) == 6) by {
        assert(p[4] == drive && p[5] == ':');
        assert(p[5] != 'N');
    }
    let plain = with_slashes(PathStyle::Windows, p);
    let slash = above.len() as int;
    assert(plain.len() == p.len() - 6);
    assert(plain[slash] == '/') by {
        assert(p[6 + slash] == '\\');
    }
    assert forall|i: int| slash < i < plain.len() implies plain[i] != '/' && p[6 + i] == name[i - slash
        - 1] by {
        assert(p[6 + i] == name[i - slash - 1]);
        assert(name.contains(name[i - slash - 1]));
    }
    assert(!has_idle_tail(plain, true));
    lemma_last_index_is(plain, '/', slash);
    assert(p.subrange(6 + slash + 1, p.len() as int) =~= name);
}

/// On Windows a device names no file, and what stands behind it is read like the same path with
/// slashes.
pub proof fn law_device_on_windows(device: Seq<char>, rest: Seq<char>)
    requires
        forall|i: int| 0 <= i < device.len() ==> #[trigger] device[i] != '/' && device[i] != '\\',
        rest.len() > 0 ==> rest[0] == '/' || rest[0] == '\\',
    ensures
        file_name_of(PathStyle::Windows, seq!['\\', '\\', '.', '\\'] + device + rest)
            == file_name_of(PathStyle::Slashes, turned(rest)),
{
    let start = seq!['\\', '\\', '.', '\\'];
    let p = start + device + rest;
    let end = 4 + device.len() as int;
    assert(forall|i: int| 0 <= i < 4 ==> p[i] == start[i]);
    assert forall|i: int| 4 <= i < end implies !separates(#[trigger] p[i], false) by {
        assert(p[i] == device[i - 4]);
    }
    if rest.len() > 0 {
        assert(p[end] == rest[0]);
    }
    lemma_component_end_is(p, 4, end, false);
    assert(p.skip(end) =~= rest);
    lemma_behind_prefix(p);
}

/// On Windows a path with a drive takes the place of a directory, and one that starts at the root takes
/// the place of all behind the drive of the directory.
pub proof fn law_absolute_path_on_windows(drive: char, rest: Seq<char>, name: Seq<char>)
    requires
        'a' <= drive <= 'z' || 'A' <= drive <= 'Z',
        name.len() > 0,
        name[0] == '/' || name[0] == '\\',
        name.len() > 1 ==> name[1] != '/' && name[1] != '\\' && name[1] != ':',
    ensures
        joined(PathStyle::Windows, rest, seq![drive, ':'] + name) == seq![drive, ':'] + name,
        joined(PathStyle::Windows, seq![drive, ':'] + rest, name) == seq![drive, ':'] + name,
{
    let path = seq![drive, ':'] + name;
    let directory = seq![drive, ':'] + rest;
    assert(path[0] == drive && path[1] == ':');
    assert(directory[0] == drive && directory[1] == ':');
    assert(prefix_len(PathStyle::Windows, path) == 2);
    assert(prefix_len(PathStyle::Windows, directory) == 2);
    assert(prefix_len(PathStyle::Windows, name) == 0);
    assert(directory.take(2) =~= seq![drive, ':']);
}

/// On Windows a verbatim share names no file; behind it the file is what stands behind the last
/// backslash.
#[verifier::rlimit(60)]
pub proof fn law_verbatim_share_on_windows(server: Seq<char>, share: Seq<char>, name: Seq<char>)
    requires
        server.len() > 0,
        share.len() > 0,
        !server.contains('\\'),
        !share.contains('\\'),
        name.len() > 0,
        !name.contains('\\'),
        name != seq!['.'],
        name != seq!['.', '.'],
    ensures
        ({
            let path = seq!['\\', '\\', '?', '\\', 'U', 'N', 'C', '\\'] + server + seq!['\\'] + share;
            &&& file_name_of(PathStyle::Windows, path) is None
            &&& file_name_of(PathStyle::Windows, path.push('\\') + name) == Some(name)
        }),
{
    let start = seq!['\\', '\\', '?', '\\', 'U', 'N', 'C', '\\'];
    let path = start + server + seq!['\\'] + share;
    let p = path.push('\\') + name;
    assert(path.take(path.len() as int) =~= path);
    assert(p.take(path.len() as int) =~= path);
    lemma_verbatim_share(path, server, share);
    lemma_verbatim_share(p, server, share);
    let end = path.len() as int;
    assert(with_slashes(PathStyle::Windows, path).len() == 0);
    lemma_last_index_is(with_slashes(PathStyle::Windows, path), '/', -1);
    assert(path.subrange(end, end).len() == 0);
    let plain = with_slashes(PathStyle::Windows, p);
    assert(plain.len() == name.len() + 1);
    assert(plain[0] == '/') by {
        assert(p[end] == '\\');
    }
    assert forall|i: int| 0 < i < plain.len() implies plain[i] != '/' && p[end + i] == name[i - 1] by {
        assert(p[end + i] == name[i - 1]);
        assert(name.contains(name[i - 1]));
    }
    assert(!has_idle_tail(plain, true));
    lemma_last_index_is(plain, '/', 0);
    assert(p.subrange(end + 1, p.len() as int) =~= name);
}

proof fn lemma_verbatim_share(p: Seq<char>, server: Seq<char>, share: Seq<char>)
    requires
        server.len() > 0,
        share.len() > 0,
        !server.contains('\\'),
        !share.contains('\\'),
        ({
            let path = seq!['\\', '\\', '?', '\\', 'U', 'N', 'C', '\\'] + server + seq!['\\'] + share;
            path.len() <= p.len() && p.take(path.len() as int) == path && (path.len() < p.len()
                ==> p[path.len() as int] == '\\')
        }),
    ensures
        is_verbatim(p),
        prefix_len(PathStyle::Windows, p) == 9 + server.len() + share.len(),
{
    let start = seq!['\\', '\\', '?', '\\', 'U', 'N', 'C', '\\'];
    let path = start + server + seq!['\\'] + share;
    let first = 8 + server.len() as int;
    let second = first + 1 + share.len();
    assert forall|i: int| 0 <= i < path.len() implies #[trigger] p[i] == path[i] by {
        assert(p.take(path.len() as int)[i] == path[i]);
    }
    assert forall|i: int| 0 <= i < 8 implies #[trigger] p[i] == start[i] by {
        assert(path[i] == start[i]);
    }
    assert forall|i: int| 8 <= i < first implies !separates(#[trigger] p[i], true) by {
        assert(path[i] == server[i - 8]);
        assert(server.contains(server[i - 8]));
    }
    assert(p[first] == '\\') by {
        assert(path[first] == '\\');
    }
    assert forall|i: int| first < i < second implies !separates(#[trigger] p[i], true) by {
        assert(path[i] == share[i - first - 1]);
        assert(share.contains(share[i - first - 1]));
    }
    lemma_component_end_is(p, 8, first, true);
    lemma_component_end_is(p, first + 1, second, true);
}

/// On Windows three separators at the start of a path, and a server without a share, are no prefix: such
/// a path is read like the same path with slashes.
pub proof fn law_no_share_on_windows(p: Seq<char>, a: char, b: char, server: Seq<char>)
    requires
        a == '/' || a == '\\',
        b == '/' || b == '\\',
        server != seq!['.'],
        server != seq!['?'],
        forall|i: int| 0 <= i < server.len() ==> #[trigger] server[i] != '/' && server[i] != '\\',
    ensures
        p.len() > 2 && (p[0] == '/' || p[0] == '\\') && (p[1] == '/' || p[1] == '\\') && (p[2] == '/'
            || p[2] == '\\') ==> file_name_of(PathStyle::Windows, p) == file_name_of(
            PathStyle::Slashes,
            turned(p),
        ),
        file_name_of(PathStyle::Windows, seq![a, b] + server) == file_name_of(
            PathStyle::Slashes,
            turned(seq![a, b] + server),
        ),
{
    if p.len() > 2 && (p[0] == '/' || p[0] == '\\') && (p[1] == '/' || p[1] == '\\') && (p[2] == '/'
        || p[2] == '\\') {
        lemma_component_end_is(p, 2, 2, false);
        assert(prefix_len(PathStyle::Windows, p) == 0);
        lemma_behind_prefix(p);
        assert(p.skip(0) =~= p);
    }
    let q = seq![a, b] + server;
    let end = q.len() as int;
    assert(q[0] == a && q[1] == b);
    assert forall|i: int| 2 <= i < end implies !separates(#[trigger] q[i], false) by {
        assert(q[i] == server[i - 2]);
    }
    if server.len() == 1 {
        assert(server[0] != '?') by {
            if server[0] == '?' {
                assert(server =~= seq!['?']);
            }
        }
    }
    if server.len() >= 2 {
        assert(q[3] == server[1]);
    }
    lemma_component_end_is(q, 2, end, false);
    assert(component_end(q, end + 1, false) == end + 1);
    assert(prefix_len(PathStyle::Windows, q) == 0);
    lemma_behind_prefix(q);
    assert(q.skip(0) =~= q);
}

} // verus!

//! Where a received file is stored, and how it is described to the system.

use crate::ids::{is_uuid_text, new_uuid};
use crate::text::{
    after_last, decimal, decimal_string, join2, last_index_of, lemma_last_index_of_bounds, slice_chars,
};
use vstd::prelude::*;
use vstd::string::*;

verus! {

/// How paths are read: on Unix (Linux, Android) only `/` separates
/// components; on Windows `\` does too, and a path may begin with a prefix
/// (a drive `C:`, `\\server\share`, a device `\\.\name`, or a verbatim
/// `\\?\...` after which only `\` separates).
#[derive(PartialEq, Eq, Structural, Clone, Copy, Debug)]
pub enum PathStyle {
    Unix,
    Windows,
}

pub open spec fn is_separator(c: char, style: PathStyle) -> bool {
    c == '/' || (style == PathStyle::Windows && c == '\\')
}

/// The separator `PathBuf::push` inserts.
pub open spec fn separator_char(style: PathStyle) -> char {
    match style {
        PathStyle::Unix => '/',
        PathStyle::Windows => '\\',
    }
}

/// The index of the last separator in `s`, or -1 when there is none.
pub open spec fn last_separator(s: Seq<char>, style: PathStyle) -> int
    decreases s.len(),
{
    if s.len() == 0 {
        -1
    } else if is_separator(s.last(), style) {
        s.len() - 1
    } else {
        last_separator(s.drop_last(), style)
    }
}

/// The index of the first separator in `s` at or after `from`, or the
/// length of `s` when there is none.
pub open spec fn next_separator(s: Seq<char>, from: int, style: PathStyle) -> int
    decreases s.len() - from,
{
    if from < 0 || from >= s.len() {
        s.len() as int
    } else if is_separator(s[from], style) {
        from
    } else {
        next_separator(s, from + 1, style)
    }
}

pub open spec fn is_ascii_letter(c: char) -> bool {
    ('a' <= c && c <= 'z') || ('A' <= c && c <= 'Z')
}

/// `p` begins with a drive prefix such as `C:`.
pub open spec fn starts_with_drive(p: Seq<char>) -> bool {
    p.len() >= 2 && is_ascii_letter(p[0]) && p[1] == ':'
}

/// `p` begins with the verbatim marker `\\?\`, written with backslashes.
/// After a verbatim prefix only `\` separates components, and `.` is a
/// component of its own rather than being skipped.
pub open spec fn is_verbatim(p: Seq<char>) -> bool {
    p.len() >= 4 && p[0] == '\\' && p[1] == '\\' && p[2] == '?' && p[3] == '\\'
}

/// The index of the first `\` in `s` at or after `from`, or the length of
/// `s` when there is none.
pub open spec fn next_backslash(s: Seq<char>, from: int) -> int
    decreases s.len() - from,
{
    if from < 0 || from >= s.len() {
        s.len() as int
    } else if s[from] == '\\' {
        from
    } else {
        next_backslash(s, from + 1)
    }
}

/// How many characters the prefix of a verbatim path takes:
/// `\\?\UNC\server\share` (the share may be missing), `\\?\C:` when
/// the drive is followed by `\` or nothing, or else `\\?\` and the
/// component after it.
pub open spec fn verbatim_prefix_len(p: Seq<char>) -> int {
    if p.len() >= 8 && p[4] == 'U' && p[5] == 'N' && p[6] == 'C' && is_separator(p[7], PathStyle::Windows) {
        let i = next_backslash(p, 8);
        let j = next_backslash(p, i + 1);
        if i < p.len() && j > i + 1 {
            j
        } else {
            i
        }
    } else if p.len() >= 6 && is_ascii_letter(p[4]) && p[5] == ':' && (p.len() == 6 || p[6] == '\\') {
        6
    } else {
        next_backslash(p, 4)
    }
}

/// How many characters of a Windows path its prefix takes, as `Path`
/// parses it: a verbatim prefix (`\\?\...`), a device prefix
/// (`\\.\name`), `\\server\share` (two separators, then a nonempty
/// server and a nonempty share), a drive `C:`, or nothing. A path that
/// begins with two separators but fits none of the first three has no
/// prefix, so `\\server` alone is a root and the component `server`.
pub open spec fn prefix_len(p: Seq<char>) -> int {
    let w = PathStyle::Windows;
    if p.len() >= 2 && is_separator(p[0], w) && is_separator(p[1], w) {
        if is_verbatim(p) {
            verbatim_prefix_len(p)
        } else if p.len() >= 4 && p[2] == '.' && is_separator(p[3], w) {
            next_separator(p, 4, w)
        } else {
            let i = next_separator(p, 2, w);
            let j = next_separator(p, i + 1, w);
            if i > 2 && i < p.len() && j > i + 1 {
                j
            } else {
                0
            }
        }
    } else if starts_with_drive(p) {
        2
    } else {
        0
    }
}

/// The last component of the part of a verbatim path after its prefix: only
/// `\` separates, trailing separators are skipped, and a path that ends in
/// `.` or `..` (or has no component) has none.
pub open spec fn last_verbatim_component(p: Seq<char>) -> Option<Seq<char>>
    decreases p.len(),
{
    if p.len() == 0 {
        None
    } else if p.last() == '\\' {
        last_verbatim_component(p.drop_last())
    } else {
        let seg = p.skip(last_index_of(p, '\\') + 1);
        if seg == seq!['.'] || seg == seq!['.', '.'] {
            None
        } else {
            Some(seg)
        }
    }
}

/// The last normal component of a path without prefix: trailing separators
/// and `.` components are skipped, and a path that ends in `..` (or has no
/// normal component) has none.
pub open spec fn last_component(p: Seq<char>, style: PathStyle) -> Option<Seq<char>>
    decreases p.len(),
{
    if p.len() == 0 {
        None
    } else if is_separator(p.last(), style) {
        last_component(p.drop_last(), style)
    } else {
        let seg = p.skip(last_separator(p, style) + 1);
        if seg == seq!['.'] {
            last_component(p.drop_last(), style)
        } else if seg == seq!['.', '.'] {
            None
        } else {
            Some(seg)
        }
    }
}

/// The last component of a path, as `Path::file_name` gives it on the
/// platform: on Windows the prefix is not part of any component, and after a
/// verbatim prefix components are read as verbatim ones.
pub open spec fn file_name(p: Seq<char>, style: PathStyle) -> Option<Seq<char>> {
    match style {
        PathStyle::Unix => last_component(p, style),
        PathStyle::Windows => if is_verbatim(p) {
            last_verbatim_component(p.skip(prefix_len(p)))
        } else {
            last_component(p.skip(prefix_len(p)), style)
        },
    }
}

/// Splits a file name at its last dot, as `Path::file_stem` and
/// `Path::extension` do: a name without a dot, or whose only dot leads it,
/// has no extension.
pub open spec fn split_extension(name: Seq<char>) -> (Seq<char>, Option<Seq<char>>) {
    let k = last_index_of(name, '.');
    if name == seq!['.', '.'] || k <= 0 {
        (name, None)
    } else {
        (name.take(k), Some(name.skip(k + 1)))
    }
}

/// The components of `s` from index `i` on, read as those of a verbatim path
/// (only `\\` separates, and empty components are dropped), each followed by
/// `\\`.
pub open spec fn verbatim_components_from(s: Seq<char>, i: int) -> Seq<char>
    decreases s.len() - i,
{
    if i < 0 || i >= s.len() {
        seq![]
    } else if s[i] == '\\' {
        verbatim_components_from(s, i + 1)
    } else {
        proof {
            lemma_next_backslash_bounds(s, i + 1);
        }
        let k = next_backslash(s, i + 1);
        s.subrange(i, k) + seq!['\\'] + verbatim_components_from(s, k)
    }
}

/// `dir` with the file name `name` pushed onto it, as `PathBuf::push` does
/// for a name without root or prefix: no separator is added after an empty
/// directory, one that ends in a separator, or (on Windows) a bare drive such
/// as `C:`; a verbatim directory is rebuilt from its prefix and components,
/// each followed by `\\`. A name that itself begins with a drive (`C:x`) is
/// joined in the same way and so stays inside `dir`, where `PathBuf::join`
/// would let that drive replace `dir`.
pub open spec fn join_path(dir: Seq<char>, name: Seq<char>, style: PathStyle) -> Seq<char> {
    if style == PathStyle::Windows && is_verbatim(dir) {
        dir.take(prefix_len(dir)) + seq!['\\'] + verbatim_components_from(dir, prefix_len(dir)) + name
    } else if dir.len() == 0 {
        name
    } else if is_separator(dir.last(), style) {
        dir + name
    } else if style == PathStyle::Windows && dir.len() == 2 && starts_with_drive(dir) {
        dir + name
    } else {
        dir + seq![separator_char(style)] + name
    }
}

pub open spec fn option_text(o: Option<String>) -> Option<Seq<char>> {
    match o {
        Some(s) => Some(s@),
        None => None,
    }
}

/// How many names are tried before a random prefix is used.
pub const NAME_ATTEMPTS: usize = 10000;

/// The name a stored file is reported under: the last component of its
/// path, or `received-file` when it has none.
pub open spec fn stored_name(target: Seq<char>, style: PathStyle) -> Seq<char> {
    match file_name(target, style) {
        Some(n) => n,
        None => "received-file"@,
    }
}

/// The name a received file is stored under before any collision: the last
/// component of the requested name, or `received-file`. A component that
/// follows a verbatim prefix may still hold `/`, which the inbox path reads
/// as a separator; of such a component only its own last component is kept,
/// so the file still lands directly in the inbox.
pub open spec fn received_name(requested: Seq<char>, style: PathStyle) -> Seq<char> {
    match file_name(requested, style) {
        Some(n) => match last_component(n, style) {
            Some(m) => m,
            None => "received-file"@,
        },
        None => "received-file"@,
    }
}

/// `stem (n).ext`, or `stem (n)` for a name without extension.
pub open spec fn numbered_name(name: Seq<char>, n: nat) -> Seq<char> {
    let (stem, ext) = split_extension(name);
    match ext {
        Some(e) => stem + " ("@ + decimal(n) + ")"@ + "."@ + e,
        None => stem + " ("@ + decimal(n) + ")"@,
    }
}

/// The `k`-th path tried for a received file: first the plain name, then the
/// numbered names.
pub open spec fn candidate(inbox: Seq<char>, requested: Seq<char>, style: PathStyle, k: int) -> Seq<char> {
    if k == 0 {
        join_path(inbox, received_name(requested, style), style)
    } else {
        join_path(inbox, numbered_name(received_name(requested, style), k as nat), style)
    }
}

/// The path used when every candidate is taken: a random id, a hyphen, the name.
pub open spec fn fallback(inbox: Seq<char>, requested: Seq<char>, style: PathStyle, id: Seq<char>) -> Seq<char> {
    join_path(inbox, id + seq!['-'] + received_name(requested, style), style)
}

/// `probe` answered `answer` for some string whose text is `path`.
pub open spec fn reported<F: Fn(String) -> bool>(probe: F, path: Seq<char>, answer: bool) -> bool {
    exists|p: String| p@ == path && #[trigger] probe.ensures((p,), answer)
}

/// What `safe_destination` may return: the first candidate that the probe
/// reported free, or, when all of them were reported taken, the name behind a
/// random id.
pub open spec fn destination_outcome<F: Fn(String) -> bool>(
    probe: F,
    inbox: Seq<char>,
    requested: Seq<char>,
    style: PathStyle,
    r: Seq<char>,
) -> bool {
    ||| exists|k: int|
        0 <= k < NAME_ATTEMPTS && r == #[trigger] candidate(inbox, requested, style, k) && reported(probe, r, false)
            && forall|j: int| 0 <= j < k ==> reported(probe, #[trigger] candidate(inbox, requested, style, j), true)
    ||| (forall|j: int| 0 <= j < NAME_ATTEMPTS ==> reported(probe, #[trigger] candidate(inbox, requested, style, j), true))
        && exists|id: Seq<char>| is_uuid_text(id) && r == #[trigger] fallback(inbox, requested, style, id)
}

pub proof fn lemma_last_separator_bounds(s: Seq<char>, style: PathStyle)
    ensures
        -1 <= last_separator(s, style) < s.len(),
        last_separator(s, style) >= 0 ==> is_separator(s[last_separator(s, style)], style),
        forall|i: int| last_separator(s, style) < i < s.len() ==> !is_separator(#[trigger] s[i], style),
    decreases s.len(),
{
    if s.len() > 0 && !is_separator(s.last(), style) {
        lemma_last_separator_bounds(s.drop_last(), style);
        assert forall|i: int| last_separator(s, style) < i < s.len() implies !is_separator(#[trigger] s[i], style) by {
            if i < s.len() - 1 {
                assert(s[i] == s.drop_last()[i]);
            }
        }
    }
}

/// Whether `c` separates path components.
pub fn is_separator_char(c: char, style: PathStyle) -> (r: bool)
    ensures
        r == is_separator(c, style),
{
    c == '/' || (style == PathStyle::Windows && c == '\\')
}

/// One past the last separator among the first `end` characters of `s`, or
/// 0 when there is none.
fn after_last_separator(s: &str, end: usize, style: PathStyle) -> (r: usize)
    requires
        end <= s@.len(),
    ensures
        r == last_separator(s@.take(end as int), style) + 1,
{
    let mut j: usize = end;
    while j > 0
        invariant
            j <= end <= s@.len(),
            last_separator(s@.take(end as int), style) == last_separator(s@.take(j as int), style),
        decreases j,
    {
        let ch = s.get_char(j - 1);
        assert(s@.take(j as int).last() == ch);
        if is_separator_char(ch, style) {
            return j;
        }
        assert(s@.take(j as int).drop_last() =~= s@.take(j - 1));
        j = j - 1;
    }
    j
}

/// The first separator of `s` at or after `from`, or the length of `s`.
fn next_separator_from(s: &str, from: usize, style: PathStyle) -> (r: usize)
    requires
        from <= s@.len(),
    ensures
        r == next_separator(s@, from as int, style),
        from <= r <= s@.len(),
{
    let n = s.unicode_len();
    let mut i: usize = from;
    while i < n
        invariant
            from <= i <= n,
            n == s@.len(),
            next_separator(s@, from as int, style) == next_separator(s@, i as int, style),
        decreases n - i,
    {
        if is_separator_char(s.get_char(i), style) {
            return i;
        }
        i = i + 1;
    }
    i
}

/// The first `\\` of `s` at or after `from`, or the length of `s`.
fn next_backslash_from(s: &str, from: usize) -> (r: usize)
    requires
        from <= s@.len(),
    ensures
        r == next_backslash(s@, from as int),
        from <= r <= s@.len(),
{
    let n = s.unicode_len();
    let mut i: usize = from;
    while i < n
        invariant
            from <= i <= n,
            n == s@.len(),
            next_backslash(s@, from as int) == next_backslash(s@, i as int),
        decreases n - i,
    {
        if s.get_char(i) == '\\' {
            return i;
        }
        i = i + 1;
    }
    i
}

fn is_ascii_letter_char(c: char) -> (r: bool)
    ensures
        r == is_ascii_letter(c),
{
    ('a' <= c && c <= 'z') || ('A' <= c && c <= 'Z')
}

/// Whether `p` begins with the verbatim marker `\\?\`.
fn is_verbatim_path(p: &str) -> (r: bool)
    ensures
        r == is_verbatim(p@),
{
    p.unicode_len() >= 4 && p.get_char(0) == '\\' && p.get_char(1) == '\\' && p.get_char(2) == '?'
        && p.get_char(3) == '\\'
}

fn verbatim_prefix_length(p: &str) -> (r: usize)
    requires
        is_verbatim(p@),
    ensures
        r == verbatim_prefix_len(p@),
        r <= p@.len(),
{
    let n = p.unicode_len();
    if n >= 8 && p.get_char(4) == 'U' && p.get_char(5) == 'N' && p.get_char(6) == 'C' && is_separator_char(
        p.get_char(7),
        PathStyle::Windows,
    ) {
        let i = next_backslash_from(p, 8);
        if i < n {
            let j = next_backslash_from(p, i + 1);
            if j > i + 1 {
                return j;
            }
        }
        return i;
    }
    if n >= 6 && is_ascii_letter_char(p.get_char(4)) && p.get_char(5) == ':' && (n == 6 || p.get_char(6)
        == '\\') {
        return 6;
    }
    next_backslash_from(p, 4)
}

/// How many characters the prefix of a Windows path takes.
pub fn prefix_length(p: &str) -> (r: usize)
    ensures
        r == prefix_len(p@),
        r <= p@.len(),
{
    let w = PathStyle::Windows;
    let n = p.unicode_len();
    if n >= 2 && is_separator_char(p.get_char(0), w) && is_separator_char(p.get_char(1), w) {
        if is_verbatim_path(p) {
            return verbatim_prefix_length(p);
        }
        if n >= 4 && p.get_char(2) == '.' && is_separator_char(p.get_char(3), w) {
            return next_separator_from(p, 4, w);
        }
        let i = next_separator_from(p, 2, w);
        if i > 2 && i < n {
            let j = next_separator_from(p, i + 1, w);
            if j > i + 1 {
                return j;
            }
        }
        return 0;
    }
    if n >= 2 && is_ascii_letter_char(p.get_char(0)) && p.get_char(1) == ':' {
        return 2;
    }
    0
}

fn last_verbatim_component_of(path: &str) -> (r: Option<String>)
    ensures
        option_text(r) == last_verbatim_component(path@),
{
    let mut end: usize = path.unicode_len();
    assert(path@.take(end as int) =~= path@);
    loop
        invariant
            end <= path@.len(),
            last_verbatim_component(path@) == last_verbatim_component(path@.take(end as int)),
        decreases end,
    {
        if end == 0 {
            return None;
        }
        let ghost p = path@.take(end as int);
        let c = path.get_char(end - 1);
        assert(p.last() == c);
        if c == '\\' {
            assert(p.drop_last() =~= path@.take(end - 1));
            end = end - 1;
            continue;
        }
        let start = after_last(path, end, '\\');
        proof {
            lemma_last_index_of_bounds(p, '\\');
        }
        assert(p.skip(last_index_of(p, '\\') + 1) =~= path@.subrange(start as int, end as int));
        if end - start == 1 && path.get_char(start) == '.' {
            assert(path@.subrange(start as int, end as int) =~= seq!['.']);
            return None;
        }
        if end - start == 2 && path.get_char(start) == '.' && path.get_char(start + 1) == '.' {
            assert(path@.subrange(start as int, end as int) =~= seq!['.', '.']);
            return None;
        }
        let seg = slice_chars(path, start, end);
        assert(seg@.len() != 1 || seg@[0] != '.');
        assert(seg@ != seq!['.']);
        assert(seg@ != seq!['.', '.']);
        return Some(seg);
    }
}

fn last_component_of(path: &str, style: PathStyle) -> (r: Option<String>)
    ensures
        option_text(r) == last_component(path@, style),
{
    let mut end: usize = path.unicode_len();
    assert(path@.take(end as int) =~= path@);
    loop
        invariant
            end <= path@.len(),
            last_component(path@, style) == last_component(path@.take(end as int), style),
        decreases end,
    {
        if end == 0 {
            return None;
        }
        let ghost p = path@.take(end as int);
        let c = path.get_char(end - 1);
        assert(p.last() == c);
        if is_separator_char(c, style) {
            assert(p.drop_last() =~= path@.take(end - 1));
            end = end - 1;
            continue;
        }
        let start = after_last_separator(path, end, style);
        proof {
            lemma_last_separator_bounds(p, style);
        }
        assert(p.skip(last_separator(p, style) + 1) =~= path@.subrange(start as int, end as int));
        if end - start == 1 && path.get_char(start) == '.' {
            assert(path@.subrange(start as int, end as int) =~= seq!['.']);
            assert(p.drop_last() =~= path@.take(end - 1));
            end = end - 1;
            continue;
        }
        if end - start == 2 && path.get_char(start) == '.' && path.get_char(start + 1) == '.' {
            assert(path@.subrange(start as int, end as int) =~= seq!['.', '.']);
            return None;
        }
        let seg = slice_chars(path, start, end);
        assert(seg@.len() != 1 || seg@[0] != '.');
        assert(seg@ != seq!['.']);
        assert(seg@ != seq!['.', '.']);
        return Some(seg);
    }
}

/// The last component of `path`, as `Path::file_name` gives it.
pub fn file_name_of(path: &str, style: PathStyle) -> (r: Option<String>)
    ensures
        option_text(r) == file_name(path@, style),
{
    match style {
        PathStyle::Unix => last_component_of(path, style),
        PathStyle::Windows => {
            let start = prefix_length(path);
            let rest = slice_chars(path, start, path.unicode_len());
            assert(rest@ =~= path@.skip(prefix_len(path@)));
            if is_verbatim_path(path) {
                last_verbatim_component_of(rest.as_str())
            } else {
                last_component_of(rest.as_str(), style)
            }
        },
    }
}

/// The components of `s` from index `from` on, as `verbatim_components_from`
/// describes them.
fn verbatim_components(s: &str, from: usize) -> (r: String)
    requires
        from <= s@.len(),
    ensures
        r@ == verbatim_components_from(s@, from as int),
{
    proof {
        reveal_strlit("");
        reveal_strlit("\\");
    }
    let n = s.unicode_len();
    let mut out = String::from_str("");
    let mut i: usize = from;
    assert(out@ + verbatim_components_from(s@, i as int) =~= verbatim_components_from(s@, from as int));
    while i < n
        invariant
            from <= i <= n,
            n == s@.len(),
            out@ + verbatim_components_from(s@, i as int) == verbatim_components_from(s@, from as int),
        decreases n - i,
    {
        if s.get_char(i) == '\\' {
            i = i + 1;
        } else {
            let k = next_backslash_from(s, i + 1);
            let piece = slice_chars(s, i, k);
            let with_sep = join2(piece.as_str(), "\\");
            proof {
                reveal_strlit("\\");
            }
            let ghost before = out@;
            assert(s@[i as int] != '\\');
            assert(verbatim_components_from(s@, i as int) == s@.subrange(i as int, k as int) + seq!['\\']
                + verbatim_components_from(s@, k as int));
            assert(with_sep@ =~= s@.subrange(i as int, k as int) + seq!['\\']);
            out = join2(out.as_str(), with_sep.as_str());
            assert(out@ + verbatim_components_from(s@, k as int) =~= before + verbatim_components_from(
                s@,
                i as int,
            ));
            i = k;
        }
    }
    assert(verbatim_components_from(s@, i as int) =~= seq![]);
    assert(out@ =~= out@ + verbatim_components_from(s@, i as int));
    out
}

/// `dir` with the file name `name` pushed onto it, as `join_path` describes.
pub fn join_path_string(dir: &str, name: &str, style: PathStyle) -> (r: String)
    ensures
        r@ == join_path(dir@, name@, style),
{
    proof {
        reveal_strlit("/");
        reveal_strlit("\\");
    }
    if style == PathStyle::Windows && is_verbatim_path(dir) {
        let pl = verbatim_prefix_length(dir);
        assert(pl == prefix_len(dir@));
        let prefix = slice_chars(dir, 0, pl);
        let rest = verbatim_components(dir, pl);
        let a = join2(prefix.as_str(), "\\");
        let b = join2(a.as_str(), rest.as_str());
        let r = join2(b.as_str(), name);
        assert(prefix@ =~= dir@.take(pl as int));
        return r;
    }
    let n = dir.unicode_len();
    if n == 0 {
        return String::from_str(name);
    }
    if is_separator_char(dir.get_char(n - 1), style) {
        return join2(dir, name);
    }
    if style == PathStyle::Windows && n == 2 && is_ascii_letter_char(dir.get_char(0)) && dir.get_char(1) == ':' {
        return join2(dir, name);
    }
    let sep = match style {
        PathStyle::Unix => "/",
        PathStyle::Windows => "\\",
    };
    let with_sep = join2(dir, sep);
    let r = join2(with_sep.as_str(), name);
    assert(r@ =~= dir@ + seq![separator_char(style)] + name@);
    r
}

/// Splits a file name into its stem and its extension.
pub fn split_extension_of(name: &str) -> (r: (String, Option<String>))
    ensures
        (r.0@, option_text(r.1)) == split_extension(name@),
{
    let n = name.unicode_len();
    let after = crate::text::after_last(name, n, '.');
    assert(name@.take(n as int) =~= name@);
    let is_dot_dot = n == 2 && name.get_char(0) == '.' && name.get_char(1) == '.';
    assert(is_dot_dot == (name@ == seq!['.', '.'])) by {
        if name@ == seq!['.', '.'] {
            assert(name@[0] == '.' && name@[1] == '.');
        }
        if is_dot_dot {
            assert(name@ =~= seq!['.', '.']);
        }
    }
    if is_dot_dot || after <= 1 {
        (String::from_str(name), None)
    } else {
        proof {
            crate::text::lemma_last_index_of_bounds(name@, '.');
        }
        let stem = slice_chars(name, 0, after - 1);
        let ext = slice_chars(name, after, n);
        assert(stem@ =~= name@.take(after - 1));
        assert(ext@ =~= name@.skip(after as int));
        (stem, Some(ext))
    }
}

/// `stem (n).ext`, or `stem (n)` when there is no extension.
fn numbered_name_string(stem: &str, ext: &Option<String>, n: usize) -> (r: String)
    ensures
        r@ == (match option_text(*ext) {
            Some(e) => stem@ + " ("@ + decimal(n as nat) + ")"@ + "."@ + e,
            None => stem@ + " ("@ + decimal(n as nat) + ")"@,
        }),
{
    let digits = decimal_string(n);
    let a = join2(stem, " (");
    let b = join2(a.as_str(), digits.as_str());
    let c = join2(b.as_str(), ")");
    match ext {
        Some(e) => {
            let d = join2(c.as_str(), ".");
            join2(d.as_str(), e.as_str())
        },
        None => c,
    }
}

/// Chooses where a received file is written inside `inbox`: the last
/// component of the requested name (or `received-file`), then
/// `stem (1).ext`, `stem (2).ext`, … while `is_taken` reports the path as
/// taken, and finally the name behind a random id.
pub fn safe_destination<F: Fn(String) -> bool>(
    inbox: &str,
    requested: &str,
    style: PathStyle,
    is_taken: F,
) -> (r: String)
    requires
        forall|p: String| is_taken.requires((p,)),
    ensures
        destination_outcome(is_taken, inbox@, requested@, style, r@),
{
    proof {
        reveal_strlit("received-file");
    }
    let name = received_file_name(requested, style);
    let first = join_path_string(inbox, name.as_str(), style);
    assert(first@ == candidate(inbox@, requested@, style, 0));
    let probe = first.clone();
    let taken = is_taken(probe);
    if !taken {
        assert(reported(is_taken, first@, false));
        return first;
    }
    assert(reported(is_taken, candidate(inbox@, requested@, style, 0), true));
    let parts = split_extension_of(name.as_str());
    let stem = parts.0;
    let ext = parts.1;
    let mut number: usize = 1;
    while number < NAME_ATTEMPTS
        invariant
            1 <= number <= NAME_ATTEMPTS,
            forall|p: String| is_taken.requires((p,)),
            name@ == received_name(requested@, style),
            (stem@, option_text(ext)) == split_extension(name@),
            forall|j: int| 0 <= j < number ==> reported(is_taken, #[trigger] candidate(inbox@, requested@, style, j), true),
        decreases NAME_ATTEMPTS - number,
    {
        let numbered = numbered_name_string(stem.as_str(), &ext, number);
        assert(numbered@ == numbered_name(name@, number as nat));
        let path = join_path_string(inbox, numbered.as_str(), style);
        assert(path@ == candidate(inbox@, requested@, style, number as int));
        let probe = path.clone();
        let taken = is_taken(probe);
        if !taken {
            assert(reported(is_taken, path@, false));
            return path;
        }
        assert(reported(is_taken, candidate(inbox@, requested@, style, number as int), true));
        number = number + 1;
    }
    let id = new_uuid();
    let prefixed = join2(id.as_str(), "-");
    proof {
        reveal_strlit("-");
    }
    let unique = join2(prefixed.as_str(), name.as_str());
    let r = join_path_string(inbox, unique.as_str(), style);
    assert(unique@ =~= id@ + seq!['-'] + received_name(requested@, style));
    assert(r@ == fallback(inbox@, requested@, style, id@));
    r
}

/// A single path component that names a file: not empty, no separator, and
/// neither `.` nor `..`.
pub open spec fn is_plain_name(n: Seq<char>, style: PathStyle) -> bool {
    &&& n.len() > 0
    &&& no_separator(n, style)
    &&& n != seq!['.']
    &&& n != seq!['.', '.']
}

pub open spec fn no_separator(n: Seq<char>, style: PathStyle) -> bool {
    forall|i: int| 0 <= i < n.len() ==> !is_separator(#[trigger] n[i], style)
}

proof fn lemma_last_component_is_plain(p: Seq<char>, style: PathStyle)
    ensures
        last_component(p, style) matches Some(n) ==> is_plain_name(n, style),
    decreases p.len(),
{
    if p.len() == 0 {
    } else if is_separator(p.last(), style) {
        lemma_last_component_is_plain(p.drop_last(), style);
    } else {
        let k = last_separator(p, style);
        lemma_last_separator_bounds(p, style);
        let seg = p.skip(k + 1);
        if seg == seq!['.'] {
            lemma_last_component_is_plain(p.drop_last(), style);
        } else if seg != seq!['.', '.'] {
            assert(seg.len() > 0);
            assert forall|i: int| 0 <= i < seg.len() implies !is_separator(#[trigger] seg[i], style) by {
                assert(seg[i] == p[k + 1 + i]);
            }
        }
    }
}

proof fn lemma_no_separator_concat(a: Seq<char>, b: Seq<char>, style: PathStyle)
    requires
        no_separator(a, style),
        no_separator(b, style),
    ensures
        no_separator(a + b, style),
{
    assert forall|i: int| 0 <= i < (a + b).len() implies !is_separator(#[trigger] (a + b)[i], style) by {
        if i < a.len() {
            assert((a + b)[i] == a[i]);
        } else {
            assert((a + b)[i] == b[i - a.len()]);
        }
    }
}

proof fn lemma_decimal_no_separator(n: nat, style: PathStyle)
    ensures
        no_separator(decimal(n), style),
{
    crate::text::lemma_decimal_digits(n);
    let d = decimal(n);
    assert forall|i: int| 0 <= i < d.len() implies !is_separator(#[trigger] d[i], style) by {
        assert(crate::text::is_digit(d[i]));
    }
}

proof fn lemma_received_name_is_plain(requested: Seq<char>, style: PathStyle)
    ensures
        is_plain_name(received_name(requested, style), style),
{
    if let Some(n) = file_name(requested, style) {
        lemma_last_component_is_plain(n, style);
    }
    reveal_strlit("received-file");
    let d = "received-file"@;
    assert(d[0] == 'r');
    assert forall|i: int| 0 <= i < d.len() implies !is_separator(#[trigger] d[i], style) by {}
}

proof fn lemma_numbered_name_is_plain(name: Seq<char>, n: nat, style: PathStyle)
    requires
        is_plain_name(name, style),
    ensures
        is_plain_name(numbered_name(name, n), style),
{
    reveal_strlit(" (");
    reveal_strlit(")");
    reveal_strlit(".");
    let k = last_index_of(name, '.');
    crate::text::lemma_last_index_of_bounds(name, '.');
    let (stem, ext) = split_extension(name);
    assert(no_separator(stem, style)) by {
        assert forall|i: int| 0 <= i < stem.len() implies !is_separator(#[trigger] stem[i], style) by {
            assert(stem[i] == name[i]);
        }
    }
    lemma_decimal_no_separator(n, style);
    assert(no_separator(" ("@, style));
    assert(no_separator(")"@, style));
    assert(no_separator("."@, style));
    lemma_no_separator_concat(stem, " ("@, style);
    lemma_no_separator_concat(stem + " ("@, decimal(n), style);
    lemma_no_separator_concat(stem + " ("@ + decimal(n), ")"@, style);
    let base = stem + " ("@ + decimal(n) + ")"@;
    crate::text::lemma_decimal_digits(n);
    assert(base.len() >= 4);
    match ext {
        Some(e) => {
            assert(no_separator(e, style)) by {
                assert forall|i: int| 0 <= i < e.len() implies !is_separator(#[trigger] e[i], style) by {
                    assert(e[i] == name[k + 1 + i]);
                }
            }
            lemma_no_separator_concat(base, "."@, style);
            lemma_no_separator_concat(base + "."@, e, style);
            let full = base + "."@ + e;
            assert(full.len() >= 5);
            assert(full != seq!['.']);
            assert(full != seq!['.', '.']);
        },
        None => {
            assert(base != seq!['.']);
            assert(base != seq!['.', '.']);
        },
    }
}

proof fn lemma_fallback_name_is_plain(id: Seq<char>, name: Seq<char>, style: PathStyle)
    requires
        is_uuid_text(id),
        is_plain_name(name, style),
    ensures
        is_plain_name(id + seq!['-'] + name, style),
{
    assert(no_separator(id, style)) by {
        assert forall|i: int| 0 <= i < id.len() implies !is_separator(#[trigger] id[i], style) by {
            if !(i == 8 || i == 13 || i == 18 || i == 23) {
                assert(crate::ids::is_lower_hex(id[i]));
            } else {
                assert(id[i] == '-');
            }
        }
    }
    assert(no_separator(seq!['-'], style)) by {
        assert(seq!['-'][0] == '-');
    }
    lemma_no_separator_concat(id, seq!['-'], style);
    lemma_no_separator_concat(id + seq!['-'], name, style);
    let full = id + seq!['-'] + name;
    assert(full.len() > 2);
}

/// A received file always lands directly inside the inbox: whatever
/// `safe_destination` returns is the inbox joined with a single plain file
/// name, which holds no separator of the path style, so requested names such
/// as `../../secret.txt`, or `..\..\evil.bat` on Windows, cannot escape it.
pub proof fn lemma_destination_stays_in_inbox<F: Fn(String) -> bool>(
    probe: F,
    inbox: Seq<char>,
    requested: Seq<char>,
    style: PathStyle,
    r: Seq<char>,
)
    requires
        destination_outcome(probe, inbox, requested, style, r),
    ensures
        exists|n: Seq<char>| is_plain_name(n, style) && r == join_path(inbox, n, style),
{
    let name = received_name(requested, style);
    lemma_received_name_is_plain(requested, style);
    if exists|k: int|
        0 <= k < NAME_ATTEMPTS && r == #[trigger] candidate(inbox, requested, style, k) && reported(probe, r, false)
            && forall|j: int| 0 <= j < k ==> reported(probe, #[trigger] candidate(inbox, requested, style, j), true) {
        let k = choose|k: int|
            0 <= k < NAME_ATTEMPTS && r == #[trigger] candidate(inbox, requested, style, k) && reported(probe, r, false)
                && forall|j: int| 0 <= j < k ==> reported(probe, #[trigger] candidate(inbox, requested, style, j), true);
        if k == 0 {
            assert(r == join_path(inbox, name, style));
        } else {
            lemma_numbered_name_is_plain(name, k as nat, style);
            assert(r == join_path(inbox, numbered_name(name, k as nat), style));
        }
    } else {
        let id = choose|id: Seq<char>| is_uuid_text(id) && r == #[trigger] fallback(inbox, requested, style, id);
        lemma_fallback_name_is_plain(id, name, style);
        assert(r == join_path(inbox, id + seq!['-'] + name, style));
    }
}

pub proof fn lemma_next_backslash_bounds(s: Seq<char>, from: int)
    requires
        0 <= from <= s.len(),
    ensures
        from <= next_backslash(s, from) <= s.len(),
    decreases s.len() - from,
{
    if from < s.len() && s[from] != '\\' {
        lemma_next_backslash_bounds(s, from + 1);
    }
}

proof fn lemma_verbatim_prefix_is_nonempty(p: Seq<char>)
    requires
        is_verbatim(p),
    ensures
        prefix_len(p) >= 4,
{
    if p.len() >= 8 {
        lemma_next_backslash_bounds(p, 8);
    }
    lemma_next_backslash_bounds(p, 4);
}

proof fn lemma_plain_name_is_its_own_component(n: Seq<char>, style: PathStyle)
    requires
        is_plain_name(n, style),
    ensures
        last_component(n, style) == Some(n),
{
    lemma_last_separator_bounds(n, style);
    assert(!is_separator(n[n.len() - 1], style));
    assert(last_separator(n, style) == -1);
    assert(n.skip(0) =~= n);
}

/// Only the last component of a requested name decides where the file goes:
/// asking for `dir/sub/name` (`..\..\name`, `/abs/name`, ...) has the same
/// possible outcomes as asking for `name` itself. On Windows this is stated
/// for a last component that holds no prefix of its own (`a\C:x` ends in
/// `C:x`, which read alone is the drive `C:` and the name `x`).
pub proof fn lemma_directory_part_is_ignored<F: Fn(String) -> bool>(
    probe: F,
    inbox: Seq<char>,
    requested: Seq<char>,
    name: Seq<char>,
    style: PathStyle,
    r: Seq<char>,
)
    requires
        file_name(requested, style) == Some(name),
        style == PathStyle::Windows ==> prefix_len(name) == 0,
    ensures
        received_name(requested, style) == received_name(name, style),
        destination_outcome(probe, inbox, requested, style, r) == destination_outcome(
            probe,
            inbox,
            name,
            style,
            r,
        ),
{
    if style == PathStyle::Windows {
        if is_verbatim(name) {
            lemma_verbatim_prefix_is_nonempty(name);
        }
        assert(name.skip(0) =~= name);
    }
    assert(file_name(name, style) == last_component(name, style));
    lemma_last_component_is_plain(name, style);
    if let Some(m) = last_component(name, style) {
        lemma_plain_name_is_its_own_component(m, style);
    }
    assert(received_name(requested, style) == received_name(name, style));
    if destination_outcome(probe, inbox, requested, style, r) {
        lemma_outcome_depends_on_received_name(probe, inbox, requested, name, style, r);
    }
    if destination_outcome(probe, inbox, name, style, r) {
        lemma_outcome_depends_on_received_name(probe, inbox, name, requested, style, r);
    }
}

proof fn lemma_outcome_depends_on_received_name<F: Fn(String) -> bool>(
    probe: F,
    inbox: Seq<char>,
    a: Seq<char>,
    b: Seq<char>,
    style: PathStyle,
    r: Seq<char>,
)
    requires
        received_name(a, style) == received_name(b, style),
        destination_outcome(probe, inbox, a, style, r),
    ensures
        destination_outcome(probe, inbox, b, style, r),
{
    assert forall|k: int| #[trigger] candidate(inbox, a, style, k) == candidate(inbox, b, style, k) by {}
    if exists|k: int|
        0 <= k < NAME_ATTEMPTS && r == #[trigger] candidate(inbox, a, style, k) && reported(probe, r, false)
            && forall|j: int| 0 <= j < k ==> reported(probe, #[trigger] candidate(inbox, a, style, j), true) {
        let k = choose|k: int|
            0 <= k < NAME_ATTEMPTS && r == #[trigger] candidate(inbox, a, style, k) && reported(probe, r, false)
                && forall|j: int| 0 <= j < k ==> reported(probe, #[trigger] candidate(inbox, a, style, j), true);
        assert forall|j: int| 0 <= j < k implies reported(probe, #[trigger] candidate(inbox, b, style, j), true) by {
            assert(candidate(inbox, a, style, j) == candidate(inbox, b, style, j));
        }
        assert(r == candidate(inbox, b, style, k));
    } else {
        let id = choose|id: Seq<char>| is_uuid_text(id) && r == #[trigger] fallback(inbox, a, style, id);
        assert(r == fallback(inbox, b, style, id));
        assert forall|j: int| 0 <= j < NAME_ATTEMPTS implies reported(probe, #[trigger] candidate(inbox, b, style, j), true) by {
            assert(candidate(inbox, a, style, j) == candidate(inbox, b, style, j));
        }
    }
}

/// The media type that `mime_guess` associates with a file extension
/// (`from_ext(ext).first_or_octet_stream()`, without parameters).
pub uninterp spec fn mime_for_extension(ext: Seq<char>) -> Seq<char>;

/// Calls `mime_guess::from_ext` and takes `first_or_octet_stream().essence_str()`.
/// Trusted: the result is the named lookup of the extension, and an empty
/// extension has no mapping (`from_ext` returns an empty guess), so it gives
/// `application/octet-stream`. Which type a given extension maps to is
/// mime_guess's table and is not stated.
#[verifier::external_body]
fn guess_mime_from_extension(ext: &str) -> (r: String)
    ensures
        r@ == mime_for_extension(ext@),
        ext@.len() == 0 ==> r@ == "application/octet-stream"@,
{
    mime_guess::from_ext(ext).first_or_octet_stream().essence_str().to_string()
}

/// The extension of a path, as `Path::extension` gives it.
pub open spec fn path_extension(path: Seq<char>, style: PathStyle) -> Option<Seq<char>> {
    match file_name(path, style) {
        Some(n) => split_extension(n).1,
        None => None,
    }
}

/// The media type announced for a received file, as
/// `mime_guess::from_path(name).first_or_octet_stream()` gives it.
pub open spec fn media_type(name: Seq<char>, style: PathStyle) -> Seq<char> {
    match path_extension(name, style) {
        Some(e) => mime_for_extension(e),
        None => "application/octet-stream"@,
    }
}

proof fn lemma_last_dot_before_plain_tail(stem: Seq<char>, ext: Seq<char>)
    requires
        !ext.contains('.'),
    ensures
        last_index_of(stem + seq!['.'] + ext, '.') == stem.len(),
    decreases ext.len(),
{
    let n = stem + seq!['.'] + ext;
    if ext.len() == 0 {
        assert(n.last() == '.');
    } else {
        assert(n.last() == ext.last());
        assert(ext.last() != '.') by {
            assert(ext[ext.len() - 1] == ext.last());
        }
        assert(!ext.drop_last().contains('.')) by {
            if ext.drop_last().contains('.') {
                let i = choose|i: int| 0 <= i < ext.drop_last().len() && ext.drop_last()[i] == '.';
                assert(ext[i] == '.');
            }
        }
        lemma_last_dot_before_plain_tail(stem, ext.drop_last());
        assert(n.drop_last() =~= stem + seq!['.'] + ext.drop_last());
    }
}

/// The media type of a received file is looked up by its last extension,
/// the part of its file name after the last dot (`backup.tar.gz` is looked
/// up as `gz`); a file name without a dot after its first character gets
/// `application/octet-stream`.
pub proof fn lemma_media_type_uses_last_extension(
    name: Seq<char>,
    style: PathStyle,
    stem: Seq<char>,
    ext: Seq<char>,
)
    requires
        stem.len() > 0,
        ext.len() > 0,
        !ext.contains('.'),
    ensures
        file_name(name, style) == Some(stem + seq!['.'] + ext) ==> media_type(name, style)
            == mime_for_extension(ext),
        file_name(name, style) == Some(stem) && !stem.drop_first().contains('.') ==> media_type(
            name,
            style,
        ) == "application/octet-stream"@,
{
    let n = stem + seq!['.'] + ext;
    lemma_last_dot_before_plain_tail(stem, ext);
    assert(n.len() >= 3);
    assert(n != seq!['.', '.']);
    assert(n.skip(stem.len() as int + 1) =~= ext);
    let k = last_index_of(stem, '.');
    crate::text::lemma_last_index_of_bounds(stem, '.');
    if k > 0 {
        assert(stem.drop_first()[k - 1] == stem[k]);
        assert(stem.drop_first().contains('.'));
    }
}

/// The media type to announce when a received file is handed to the system.
pub fn media_type_for(name: &str, style: PathStyle) -> (r: String)
    ensures
        r@ == media_type(name@, style),
{
    match file_name_of(name, style) {
        Some(n) => {
            let parts = split_extension_of(n.as_str());
            match parts.1 {
                Some(e) => guess_mime_from_extension(e.as_str()),
                None => String::from_str("application/octet-stream"),
            }
        },
        None => String::from_str("application/octet-stream"),
    }
}

/// The name a received file is stored under before any collision.
fn received_file_name(requested: &str, style: PathStyle) -> (r: String)
    ensures
        r@ == received_name(requested@, style),
{
    match file_name_of(requested, style) {
        Some(n) => match last_component_of(n.as_str(), style) {
            Some(m) => m,
            None => String::from_str("received-file"),
        },
        None => String::from_str("received-file"),
    }
}

/// The name under which a stored file is reported: the last component of
/// its path, or `received-file`.
pub fn stored_file_name(target: &str, style: PathStyle) -> (r: String)
    ensures
        r@ == stored_name(target@, style),
{
    match file_name_of(target, style) {
        Some(n) => n,
        None => String::from_str("received-file"),
    }
}

} // verus!

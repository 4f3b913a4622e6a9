//! Paths as text with `/` between the components.
//!
//! What depends on the operating system takes a [`PathStyle`].

use crate::table::Key;
use crate::text::{
    chars_of, concat, copy, join, join_with, lemma_first_piece, lemma_join_split,
    lemma_pieces_hold_no_other, lemma_pieces_hold_no_separator, lemma_split_concat, lemma_split_len,
    lemma_split_one, lemma_split_suffix, opt_text, replace_char, replaced, same_text, split,
    split_on, string_of, texts,
};
use path_slash::PathExt;
use vstd::prelude::*;

verus! {

/// How the operating system reads paths.
#[derive(Debug, Clone, Copy, PartialEq, Eq, Structural)]
pub enum PathStyle {
    /// With `/` between the components
    Unix,
    /// With `/` or `\\` between the components, and a drive or a share in front of a full path
    Windows,
}

/// The path starts at the root.
pub open spec fn is_rooted(path: Seq<char>) -> bool {
    0 < path.len() && path[0] == '/'
}

/// The piece at `i` is a component. Empty pieces are none, and `.` is one only at the front.
pub open spec fn counts(pieces: Seq<Seq<char>>, i: int) -> bool {
    0 < pieces[i].len() && (pieces[i] != seq!['.'] || i == 0)
}

/// The components among the first `n` pieces.
pub open spec fn counted(pieces: Seq<Seq<char>>, n: int) -> Seq<Seq<char>>
    decreases n,
{
    if n <= 0 {
        Seq::empty()
    } else if counts(pieces, n - 1) {
        counted(pieces, n - 1).push(pieces[n - 1])
    } else {
        counted(pieces, n - 1)
    }
}

/// The position of the last component among the first `n` pieces, or -1.
pub open spec fn last_counted(pieces: Seq<Seq<char>>, n: int) -> int
    decreases n,
{
    if n <= 0 {
        -1
    } else if counts(pieces, n - 1) {
        n - 1
    } else {
        last_counted(pieces, n - 1)
    }
}

/// The components of a path, the root first where it has one.
pub open spec fn components(path: Seq<char>) -> Seq<Seq<char>> {
    let pieces = split(path, '/');
    let root: Seq<Seq<char>> = if is_rooted(path) { seq![seq!['/']] } else { Seq::empty() };
    root + counted(pieces, pieces.len() as int)
}

/// The path with `/` as the only separator.
pub open spec fn slashed(style: PathStyle, path: Seq<char>) -> Seq<char> {
    match style {
        PathStyle::Unix => path,
        PathStyle::Windows => replaced(path, '\\', '/'),
    }
}

/// A letter from `a` to `z`, in lower or in upper case.
pub open spec fn is_letter(c: char) -> bool {
    'a' <= c <= 'z' || 'A' <= c <= 'Z'
}

/// The letter in upper case.
pub open spec fn upper(c: char) -> char {
    if 'a' <= c <= 'z' {
        (c as int - 32) as char
    } else {
        c
    }
}

/// The path starts with a drive, such as `C:`.
pub open spec fn has_drive(path: Seq<char>) -> bool {
    2 <= path.len() && is_letter(path[0]) && path[1] == ':'
}

/// The length of the share that the path starts with, such as `//server/share`, or 0.
pub open spec fn share_len(path: Seq<char>) -> int {
    let pieces = split(path, '/');
    if 4 <= pieces.len() && pieces[0].len() == 0 && pieces[1].len() == 0 && 0 < pieces[2].len()
        && 0 < pieces[3].len() {
        3int + pieces[2].len() + pieces[3].len()
    } else {
        0
    }
}

/// The length of the drive or the share that the path starts with, or 0.
pub open spec fn prefix_len(style: PathStyle, path: Seq<char>) -> int {
    match style {
        PathStyle::Unix => 0,
        PathStyle::Windows => if has_drive(path) {
            2
        } else {
            share_len(path)
        },
    }
}

/// The components of a path for the operating system: first the drive or the share, where it has
/// one, then the root and the names. A drive may be written in lower case, and a share has a root.
pub open spec fn os_components(style: PathStyle, path: Seq<char>) -> Seq<Seq<char>> {
    let text = slashed(style, path);
    let n = prefix_len(style, text);
    let rest = text.skip(n);
    if n == 0 {
        components(text)
    } else if has_drive(text) {
        seq![seq![upper(text[0]), ':']] + components(rest)
    } else if rest.len() == 0 {
        seq![text, seq!['/']]
    } else {
        seq![text.take(n)] + components(rest)
    }
}

/// Two paths are the same when their components are.
pub open spec fn same_path(style: PathStyle, a: Seq<char>, b: Seq<char>) -> bool {
    os_components(style, a) == os_components(style, b)
}

/// The path is in the directory or below, or is the directory itself.
pub open spec fn is_below(style: PathStyle, dir: Seq<char>, path: Seq<char>) -> bool {
    os_components(style, dir).is_prefix_of(os_components(style, path))
}

/// The component is a name, and not the root, `.` or `..`.
pub open spec fn is_name(component: Seq<char>) -> bool {
    component != seq!['/'] && component != seq!['.'] && component != seq!['.', '.']
}

/// `path` below `base`, or `path` itself where it is rooted.
pub open spec fn joined(base: Seq<char>, path: Seq<char>) -> Seq<char> {
    if is_rooted(path) {
        path
    } else if base.len() == 0 || base.last() == '/' {
        base + path
    } else {
        base.push('/') + path
    }
}

/// `path` below `base`. A path with a drive or a share stands for itself, and a path that starts at
/// the root stays on the drive or the share of `base`. Both texts have `/` as the only separator.
pub open spec fn joined_in(style: PathStyle, base: Seq<char>, path: Seq<char>) -> Seq<char> {
    match style {
        PathStyle::Unix => joined(base, path),
        PathStyle::Windows => if prefix_len(style, path) != 0 {
            path
        } else if is_rooted(path) {
            base.take(prefix_len(style, base)) + path
        } else if base.len() == 2 && has_drive(base) {
            base + path
        } else {
            joined(base, path)
        },
    }
}

/// The path with these components.
pub open spec fn collected(components: Seq<Seq<char>>) -> Seq<char>
    decreases components.len(),
{
    if components.len() == 0 {
        Seq::empty()
    } else {
        joined(collected(components.drop_last()), components.last())
    }
}

/// The last component, if it is a name.
pub open spec fn file_name(path: Seq<char>) -> Option<Seq<char>> {
    let all = components(path);
    if 0 < all.len() && is_name(all.last()) {
        Some(all.last())
    } else {
        None
    }
}

/// The position of the last dot, or -1.
pub open spec fn last_dot(name: Seq<char>) -> int
    decreases name.len(),
{
    if name.len() == 0 {
        -1
    } else if name.last() == '.' {
        name.len() - 1
    } else {
        last_dot(name.drop_last())
    }
}

/// What follows the last dot of a name, unless that dot starts the name or there is none.
pub open spec fn name_extension(name: Seq<char>) -> Option<Seq<char>> {
    if last_dot(name) <= 0 {
        None
    } else {
        Some(name.skip(last_dot(name) + 1))
    }
}

/// A name without its extension and the dot before it.
pub open spec fn name_stem(name: Seq<char>) -> Seq<char> {
    if last_dot(name) <= 0 {
        name
    } else {
        name.take(last_dot(name))
    }
}

/// The extension of the file name.
pub open spec fn extension(path: Seq<char>) -> Option<Seq<char>> {
    match file_name(path) {
        Some(name) => name_extension(name),
        None => None,
    }
}

/// The path up to the end of its last component.
pub open spec fn trimmed(path: Seq<char>) -> Seq<char> {
    let pieces = split(path, '/');
    join_with(pieces.take(last_counted(pieces, pieces.len() as int) + 1), seq!['/'])
}

/// The path with `ext` as the extension of its file name, or without one where `ext` is empty. A
/// path without a file name stays as it is.
pub open spec fn with_extension(path: Seq<char>, ext: Seq<char>) -> Seq<char> {
    match file_name(path) {
        Some(name) => {
            let dropped = name.len() - name_stem(name).len();
            let stem = trimmed(path).take(trimmed(path).len() - dropped);
            if ext.len() == 0 {
                stem
            } else {
                stem.push('.') + ext
            }
        },
        None => path,
    }
}

/// The path without its last component. The root and the empty path have no parent.
pub open spec fn parent(path: Seq<char>) -> Option<Seq<char>> {
    let pieces = split(path, '/');
    let last = last_counted(pieces, pieces.len() as int);
    let before = last_counted(pieces, last);
    if last < 0 {
        None
    } else if 0 <= before {
        Some(join_with(pieces.take(before + 1), seq!['/']))
    } else if is_rooted(path) {
        Some(seq!['/'])
    } else {
        Some(Seq::empty())
    }
}

/// The path without its last component, where the drive or the share stays. The text has `/` as the
/// only separator.
pub open spec fn parent_in(style: PathStyle, path: Seq<char>) -> Option<Seq<char>> {
    let n = prefix_len(style, path);
    match parent(path.skip(n)) {
        Some(dir) => Some(path.take(n) + dir),
        None => None,
    }
}

/// The text names the same path on every operating system: it holds no backslash and no colon,
/// and does not start with two slashes.
pub open spec fn is_portable(path: Seq<char>) -> bool {
    &&& !path.contains('\\')
    &&& !path.contains(':')
    &&& !(2 <= path.len() && path[0] == '/' && path[1] == '/')
}

/// The text is portable, and just the text of its components.
pub open spec fn is_clean(path: Seq<char>) -> bool {
    is_portable(path) && collected(components(path)) == path
}

/// The number of components that two lists share at the front.
pub open spec fn shared(a: Seq<Seq<char>>, b: Seq<Seq<char>>) -> int
    decreases a.len(),
{
    if a.len() == 0 || b.len() == 0 || a[0] != b[0] {
        0
    } else {
        1 + shared(a.skip(1), b.skip(1))
    }
}

/// The way from the directory with the components `base` to the path with the components `path`:
/// one `..` for each component that only `base` has, and then those that only `path` has. There
/// is no way where `..` is the first component that only `base` has and `path` goes on.
pub open spec fn way(path: Seq<Seq<char>>, base: Seq<Seq<char>>) -> Option<Seq<Seq<char>>> {
    let k = shared(path, base);
    if k < path.len() && k < base.len() && base[k] == seq!['.', '.'] {
        None
    } else {
        Some(Seq::new((base.len() - k) as nat, |i: int| seq!['.', '.']) + path.skip(k))
    }
}

/// The text is portable and does not start with the component `.`.
pub open spec fn is_plain(path: Seq<char>) -> bool {
    is_portable(path) && !(0 < components(path).len() && components(path)[0] == seq!['.'])
}

/// What `path_slash` makes of a path on Windows.
pub uninterp spec fn slash_text_on_windows(path: Seq<char>) -> Seq<char>;

/// `text` is what `path_slash` makes of `path`: the same text, except that Windows has its own
/// text for it.
pub open spec fn is_slash_text(path: Seq<char>, text: Seq<char>) -> bool {
    &&& text == path || text == slash_text_on_windows(path)
    &&& is_portable(path) ==> text == path || text == collected(components(path))
}

/// Calls `to_slash_lossy` of `path_slash`. Outside Windows that is the text of the path. On
/// Windows it is the text of the components with `/` between them; of a path with a backslash, a
/// colon or two slashes in front, only that it is a function of the path is claimed.
#[verifier::external_body]
pub(crate) fn to_slash_lossy(path: &str) -> (r: String)
    ensures
        r@ == path@ || r@ == slash_text_on_windows(path@),
        is_portable(path@) ==> r@ == path@ || r@ == collected(components(path@)),
{
    std::path::Path::new(path).to_slash_lossy().into_owned()
}

/// `text` is the path as it is written with slashes: the same text, except that Windows has its
/// own text for it.
pub open spec fn is_slash_text_in(style: PathStyle, path: Seq<char>, text: Seq<char>) -> bool {
    match style {
        PathStyle::Unix => text == path,
        PathStyle::Windows => is_slash_text(path, text),
    }
}

/// The path as it is written with slashes. On a Unix that is the text of the path, and on Windows
/// what `path_slash` makes of it.
pub fn slash_text(style: PathStyle, path: &str) -> (r: String)
    ensures
        is_slash_text_in(style, path@, r@),
{
    match style {
        PathStyle::Unix => copy(path),
        PathStyle::Windows => to_slash_lossy(path),
    }
}

/// The relative path that `pathdiff` finds, on Windows or elsewhere, as text with slashes.
pub uninterp spec fn relative_path(path: Seq<char>, base: Seq<char>, windows: bool) -> Option<
    Seq<char>,
>;

/// The way leads from `base` to `path`. Of two plain texts that are both rooted or both not, it is
/// known from the components. Of other texts it depends on the operating system.
pub open spec fn is_relative_path(path: Seq<char>, base: Seq<char>, r: Option<Seq<char>>) -> bool {
    &&& exists|windows: bool| r == #[trigger] relative_path(path, base, windows)
    &&& is_plain(path) && is_plain(base) && is_rooted(path) == is_rooted(base) ==> r == match way(
        components(path),
        components(base),
    ) {
        Some(all) => Some(collected(all)),
        None => None,
    }
}

/// Calls `diff_paths` of `pathdiff`, which makes the relative path that leads from `base` to
/// `path`, and writes it with slashes. The claim is that the result is a function of the two texts
/// and of whether this is Windows, and that it is the way between the components where the texts
/// are plain and both rooted or both not.
#[verifier::external_body]
pub(crate) fn diff_paths(path: &str, base: &str) -> (r: Option<String>)
    ensures
        exists|windows: bool| opt_text(r) == #[trigger] relative_path(path@, base@, windows),
        is_plain(path@) && is_plain(base@) && is_rooted(path@) == is_rooted(base@) ==> opt_text(r)
            == match way(components(path@), components(base@)) {
            Some(all) => Some(collected(all)),
            None => None,
        },
{
    pathdiff::diff_paths(path, base).map(|p| p.to_slash_lossy().into_owned())
}

proof fn lemma_counted_last(pieces: Seq<Seq<char>>, n: int)
    requires
        0 <= n <= pieces.len(),
    ensures
        -1 <= last_counted(pieces, n) < n,
        0 <= last_counted(pieces, n) ==> counts(pieces, last_counted(pieces, n)),
        counted(pieces, n).len() == 0 <==> last_counted(pieces, n) == -1,
        0 < counted(pieces, n).len() ==> counted(pieces, n).last() == pieces[last_counted(
            pieces,
            n,
        )],
    decreases n,
{
    if 0 < n {
        lemma_counted_last(pieces, n - 1);
    }
}

proof fn lemma_last_dot(stem: Seq<char>, ext: Seq<char>)
    requires
        !ext.contains('.'),
    ensures
        last_dot(stem + seq!['.'] + ext) == stem.len(),
    decreases ext.len(),
{
    let name = stem + seq!['.'] + ext;
    if 0 < ext.len() {
        let before = ext.drop_last();
        assert(!before.contains('.')) by {
            if before.contains('.') {
                let i = choose|i: int| 0 <= i < before.len() && before[i] == '.';
                assert(ext[i] == '.');
            }
        }
        assert(ext.contains(ext[ext.len() - 1]));
        lemma_last_dot(stem, before);
        assert(name.drop_last() == stem + seq!['.'] + before);
    }
}

/// The extension of a path is what was put behind a dot at its end. The path has a file name, and
/// without the extension it is what it was.
pub proof fn extension_is_what_was_appended(path: Seq<char>, ext: Seq<char>)
    requires
        0 < path.len(),
        path.last() != '/',
        0 < ext.len(),
        !ext.contains('.'),
        !ext.contains('/'),
    ensures
        extension(path + seq!['.'] + ext) == Some(ext),
        file_name(path + seq!['.'] + ext) == Some(split(path, '/').last() + seq!['.'] + ext),
        with_extension(path + seq!['.'] + ext, Seq::empty()) == path,
{
    let whole = path + seq!['.'] + ext;
    let suffix = seq!['.'] + ext;
    let pieces = split(path, '/');
    assert(!suffix.contains('/')) by {
        if suffix.contains('/') {
            let i = choose|i: int| 0 <= i < suffix.len() && suffix[i] == '/';
            assert(ext[i - 1] == '/');
        }
    }
    lemma_split_len(path, '/');
    lemma_split_len(path.drop_last(), '/');
    lemma_split_suffix(path, suffix, '/');
    assert(whole == path + suffix);
    let stem = pieces.last();
    assert(0 < stem.len());
    let name = stem + seq!['.'] + ext;
    assert(stem + suffix == name);
    let all = split(whole, '/');
    let n = all.len() as int;
    assert(all.last() == name);
    assert(seq!['.'].len() == 1 && seq!['/'].len() == 1 && seq!['.', '.'].len() == 2);
    assert(counts(all, n - 1));
    assert(counted(all, n).last() == name);
    assert(components(whole).last() == name);
    assert(is_name(name));
    lemma_last_dot(stem, ext);
    assert(name.skip(stem.len() as int + 1) == ext);
    lemma_counted_last(all, n);
    assert(last_counted(all, n) == n - 1);
    assert(all.take(n) == all);
    lemma_join_split(whole, '/');
    assert(trimmed(whole) == whole);
    assert(name.take(stem.len() as int) == stem);
    assert(whole.take(path.len() as int) == path);
}

/// The texts are components of a path: the root or `.` can only come first.
spec fn are_components(all: Seq<Seq<char>>) -> bool {
    forall|i: int|
        0 <= i < all.len() ==> 0 < (#[trigger] all[i]).len() && (if i == 0 && all[i] == seq!['/'] {
            true
        } else {
            !all[i].contains('/') && (i == 0 || all[i] != seq!['.'])
        })
}

/// The counted pieces are not empty, hold what the pieces hold, and are `.` only at the front.
proof fn lemma_counted_are_pieces(pieces: Seq<Seq<char>>, n: int)
    requires
        0 <= n <= pieces.len(),
    ensures
        forall|i: int|
            0 <= i < counted(pieces, n).len() ==> {
                &&& pieces.contains(#[trigger] counted(pieces, n)[i])
                &&& 0 < counted(pieces, n)[i].len()
                &&& counted(pieces, n)[i] == seq!['.'] ==> i == 0 && 0 < pieces[0].len()
            },
        0 < n && 0 < pieces[0].len() ==> 0 < counted(pieces, n).len(),
    decreases n,
{
    if 0 < n {
        lemma_counted_are_pieces(pieces, n - 1);
        let before = counted(pieces, n - 1);
        assert(pieces.contains(pieces[n - 1]));
        if n == 1 {
            assert(before.len() == 0);
            assert(0 < pieces[0].len() ==> counts(pieces, 0));
        }
    }
}

/// What the first pieces count does not depend on the pieces behind.
proof fn lemma_counted_prefix(pieces: Seq<Seq<char>>, more: Seq<Seq<char>>, n: int)
    requires
        0 <= n <= pieces.len(),
    ensures
        counted(pieces + more, n) == counted(pieces, n),
    decreases n,
{
    if 0 < n {
        lemma_counted_prefix(pieces, more, n - 1);
        assert((pieces + more)[n - 1] == pieces[n - 1]);
    }
}

/// The components of a path are components.
proof fn lemma_components(path: Seq<char>)
    ensures
        are_components(components(path)),
        0 < path.len() ==> 0 < components(path).len(),
{
    let pieces = split(path, '/');
    let n = pieces.len() as int;
    let all = components(path);
    lemma_split_len(path, '/');
    lemma_counted_are_pieces(pieces, n);
    lemma_pieces_hold_no_separator(path, '/');
    lemma_first_piece(path, '/');
    assert forall|i: int| 0 <= i < all.len() implies 0 < (#[trigger] all[i]).len() && (if i == 0
        && all[i] == seq!['/'] {
        true
    } else {
        !all[i].contains('/') && (i == 0 || all[i] != seq!['.'])
    }) by {
        let k = if is_rooted(path) { i - 1 } else { i };
        if 0 <= k {
            assert(all[i] == counted(pieces, n)[k]);
            assert(pieces.contains(counted(pieces, n)[k]));
        }
    }
}

/// The path that components make has these components, and no other characters than they have and `/`.
proof fn lemma_collected(all: Seq<Seq<char>>)
    requires
        are_components(all),
    ensures
        components(collected(all)) == all,
        0 < all.len() ==> 0 < collected(all).len(),
        0 < all.len() ==> (collected(all).last() == '/' <==> all == seq![seq!['/']]),
        !(2 <= collected(all).len() && collected(all)[0] == '/' && collected(all)[1] == '/'),
        forall|c: char|
            c != '/' && (forall|i: int| 0 <= i < all.len() ==> !(#[trigger] all[i]).contains(c))
                ==> !(#[trigger] collected(all).contains(c)),
    decreases all.len(),
{
    let text = collected(all);
    reveal_with_fuel(counted, 3);
    assert(seq!['/'].len() == 1 && seq!['/'][0] == '/');
    if all.len() == 0 {
        assert(components(text) == all);
    } else {
        let before = all.drop_last();
        let last = all[all.len() - 1];
        assert forall|i: int| 0 <= i < before.len() implies 0 < (#[trigger] before[i]).len() && (if i
            == 0 && before[i] == seq!['/'] {
            true
        } else {
            !before[i].contains('/') && (i == 0 || before[i] != seq!['.'])
        }) by {
            assert(before[i] == all[i]);
        }
        lemma_collected(before);
        let start = collected(before);
        if last == seq!['/'] {
            assert(all.len() == 1);
            assert(text == seq!['/']);
            assert(all == seq![seq!['/']]);
            let front = Seq::<char>::empty();
            assert(text == front + seq!['/'] + front);
            lemma_split_concat(front, front, '/');
            assert(split(text, '/') == seq![front, front]);
            assert(components(text) == all);
        } else {
            assert(!last.contains('/'));
            assert(last.contains(last[0]) && last.contains(last[last.len() - 1]));
            assert(!is_rooted(last));
            lemma_split_one(last, '/');
            if all.len() == 1 {
                assert(start == Seq::<char>::empty());
                assert(text == last);
                assert(components(text) == seq![last]);
                assert(all == seq![last]);
                assert(2 <= text.len() ==> text.contains(text[1]));
            } else {
                let front = if start.last() == '/' { start.drop_last() } else { start };
                assert(text == front + seq!['/'] + last);
                lemma_split_concat(front, last, '/');
                let pieces = split(front, '/');
                let n = pieces.len() as int;
                lemma_split_len(front, '/');
                lemma_counted_prefix(pieces, seq![last], n);
                assert(split(text, '/') == pieces + seq![last]);
                assert(counts(pieces + seq![last], n));
                assert(counted(pieces + seq![last], n + 1) == counted(pieces, n).push(last));
                if start.last() == '/' {
                    assert(before == seq![seq!['/']]);
                    assert(start == seq!['/']);
                    assert(front == Seq::<char>::empty());
                    assert(all == seq![seq!['/'], last]);
                    assert(components(text) == all);
                } else {
                    assert(components(front) == before);
                    assert(is_rooted(text) == is_rooted(front));
                    assert(all == before.push(last));
                    assert(components(text) == all);
                }
            }
        }
        assert forall|c: char|
            c != '/' && (forall|i: int|
                0 <= i < all.len() ==> !(#[trigger] all[i]).contains(c)) implies !(
        #[trigger] text.contains(c)) by {
            assert forall|i: int| 0 <= i < before.len() implies !(#[trigger] before[i]).contains(
                c,
            ) by {
                assert(before[i] == all[i]);
            }
            assert(!start.contains(c));
            assert(!last.contains(c));
            if text.contains(c) {
                let k = choose|k: int| 0 <= k < text.len() && text[k] == c;
                let gap = text.len() - last.len();
                if gap <= k {
                    assert(last[k - gap] == c);
                } else if k < start.len() {
                    assert(start[k] == c);
                }
            }
        }
    }
}

/// A path that is put together of its components has these components.
pub proof fn collected_paths_have_their_components(path: Seq<char>)
    ensures
        components(collected(components(path))) == components(path),
{
    lemma_components(path);
    lemma_collected(components(path));
}

/// A portable text has no drive and no share.
proof fn lemma_portable_components(path: Seq<char>)
    requires
        is_portable(path),
    ensures
        os_components(PathStyle::Windows, path) == components(path),
{
    let text = slashed(PathStyle::Windows, path);
    assert(text == path) by {
        assert forall|i: int| 0 <= i < path.len() implies text[i] == path[i] by {
            assert(path.contains(path[i]));
        }
    }
    assert(!has_drive(path)) by {
        if has_drive(path) {
            assert(path.contains(path[1]));
        }
    }
    assert(share_len(path) == 0) by {
        let pieces = split(path, '/');
        if share_len(path) != 0 {
            lemma_join_split(path, '/');
            lemma_join_front(pieces);
        }
    }
}

/// Two empty parts in front and another one make two separators in front.
proof fn lemma_join_front(parts: Seq<Seq<char>>)
    requires
        3 <= parts.len(),
        parts[0].len() == 0,
        parts[1].len() == 0,
    ensures
        ({
            let text = join_with(parts, seq!['/']);
            2 <= text.len() && text[0] == '/' && text[1] == '/'
        }),
    decreases parts.len(),
{
    reveal_with_fuel(join_with, 4);
    if 3 < parts.len() {
        lemma_join_front(parts.drop_last());
    } else {
        assert(join_with(parts.drop_last(), seq!['/']) == seq!['/']);
    }
}

/// On Windows the text of a portable path with slashes names the same path. It is not empty where
/// the path is not, and it holds no character that the path does not hold, but for `/`.
pub proof fn slash_texts_name_the_same_path(path: Seq<char>, text: Seq<char>)
    requires
        is_portable(path),
        is_slash_text(path, text),
    ensures
        same_path(PathStyle::Windows, path, text),
        0 < path.len() ==> 0 < text.len(),
        forall|c: char| c != '/' && !path.contains(c) ==> !(#[trigger] text.contains(c)),
{
    if text != path {
        let all = components(path);
        lemma_components(path);
        lemma_collected(all);
        assert forall|c: char| c != '/' && !path.contains(c) implies !(
        #[trigger] text.contains(c)) by {
            lemma_components_hold_no_other(path, c);
        }
        assert(!text.contains('\\'));
        assert(!text.contains(':'));
        assert(is_portable(text));
        lemma_portable_components(path);
        lemma_portable_components(text);
    }
}

/// The components hold only characters of the path.
proof fn lemma_components_hold_no_other(path: Seq<char>, c: char)
    requires
        c != '/',
        !path.contains(c),
    ensures
        forall|i: int|
            0 <= i < components(path).len() ==> !(#[trigger] components(path)[i]).contains(c),
{
    let pieces = split(path, '/');
    let n = pieces.len() as int;
    let all = components(path);
    lemma_counted_are_pieces(pieces, n);
    lemma_pieces_hold_no_other(path, '/', c);
    assert forall|i: int| 0 <= i < all.len() implies !(#[trigger] all[i]).contains(c) by {
        let k = if is_rooted(path) { i - 1 } else { i };
        if 0 <= k {
            assert(all[i] == counted(pieces, n)[k]);
            assert(pieces.contains(counted(pieces, n)[k]));
        } else {
            assert(all[i] == seq!['/']);
        }
    }
}

/// A name without a dot has no extension.
pub proof fn lemma_no_extension(path: Seq<char>)
    requires
        !path.contains('.'),
        !path.contains('/'),
    ensures
        extension(path) is None,
{
    lemma_split_one(path, '/');
    let pieces = split(path, '/');
    assert(is_rooted(path) ==> path.contains(path[0]));
    assert(counted(pieces, 0) == Seq::<Seq<char>>::empty());
    reveal_with_fuel(counted, 2);
    if 0 < path.len() {
        assert(components(path) == seq![path]) by {
            assert(pieces[0] == path);
            assert(seq!['.'][0] == '.');
        }
        lemma_dotless(path);
    } else {
        assert(components(path).len() == 0);
    }
}

proof fn lemma_dotless(name: Seq<char>)
    requires
        !name.contains('.'),
    ensures
        last_dot(name) == -1,
    decreases name.len(),
{
    if 0 < name.len() {
        let before = name.drop_last();
        assert(!before.contains('.')) by {
            if before.contains('.') {
                let i = choose|i: int| 0 <= i < before.len() && before[i] == '.';
                assert(name[i] == '.');
            }
        }
        assert(name.contains(name[name.len() - 1]));
        lemma_dotless(before);
    }
}

/// A path without slashes has the empty path as its parent, and one with slashes and a name at its
/// end does not.
pub proof fn parent_of_a_bare_name_is_empty(path: Seq<char>)
    requires
        0 < path.len(),
        path.last() != '/',
        path != seq!['.'],
        2 <= path.len() ==> !(path[path.len() - 1] == '.' && path[path.len() - 2] == '/'),
    ensures
        parent(path) matches Some(dir) && (dir.len() == 0 <==> !path.contains('/')),
{
    let pieces = split(path, '/');
    let n = pieces.len() as int;
    lemma_split_len(path, '/');
    lemma_split_len(path.drop_last(), '/');
    lemma_join_split(path, '/');
    lemma_counted_last(pieces, n);
    assert(0 < pieces.last().len());
    if !path.contains('/') {
        lemma_split_one(path, '/');
        assert(last_counted(pieces, 1) == 0);
        assert(path[0] != '/') by {
            assert(path.contains(path[0]));
        }
    } else {
        if n == 1 {
            assert(join_with(pieces, seq!['/']) == pieces[0]);
            lemma_pieces_hold_no_separator(path, '/');
            assert(!pieces[0].contains('/'));
        }
        assert(pieces.last() != seq!['.']) by {
            if pieces.last() == seq!['.'] {
                let front = join_with(pieces.drop_last(), seq!['/']);
                assert(path == front + seq!['/'] + seq!['.']);
                assert(path[path.len() - 2] == '/');
            }
        }
        assert(last_counted(pieces, n) == n - 1);
        lemma_counted_last(pieces, n - 1);
        let before = last_counted(pieces, n - 1);
        if 0 <= before {
            let parts = pieces.take(before + 1);
            assert(parts.last() == pieces[before]);
            if parts.len() == 1 {
                assert(join_with(parts, seq!['/']) == parts[0]);
            }
        } else if !is_rooted(path) {
            lemma_first_piece(path, '/');
            assert(counts(pieces, 0));
            lemma_counted_first(pieces, n - 1);
        }
    }
}

/// A component at the front is counted.
proof fn lemma_counted_first(pieces: Seq<Seq<char>>, n: int)
    requires
        0 < n <= pieces.len(),
        counts(pieces, 0),
    ensures
        0 <= last_counted(pieces, n),
    decreases n,
{
    if 1 < n {
        lemma_counted_first(pieces, n - 1);
    }
}

/// A path that is the key of a table.
#[derive(Debug, Clone, PartialEq, Eq)]
pub struct PathKey {
    pub style: PathStyle,
    pub text: String,
}

impl View for PathKey {
    type V = Seq<Seq<char>>;

    open spec fn view(&self) -> Seq<Seq<char>> {
        os_components(self.style, self.text@)
    }
}

impl Key for PathKey {
    fn same_key(&self, other: &Self) -> (r: bool) {
        let left = path_components_in(self.style, self.text.as_str());
        let right = path_components_in(other.style, other.text.as_str());
        same_texts(&left, &right)
    }
}

/// `paths` contains the path `path`.
pub open spec fn contains_path(style: PathStyle, paths: Seq<Seq<char>>, path: Seq<char>) -> bool {
    exists|i: int| 0 <= i < paths.len() && same_path(style, #[trigger] paths[i], path)
}

/// The paths without those that stand earlier in the list already.
pub open spec fn unique_paths(style: PathStyle, paths: Seq<Seq<char>>) -> Seq<Seq<char>>
    decreases paths.len(),
{
    if paths.len() == 0 {
        Seq::empty()
    } else {
        let before = unique_paths(style, paths.drop_last());
        if contains_path(style, before, paths.last()) {
            before
        } else {
            before.push(paths.last())
        }
    }
}

/// The unique paths are all the paths, and no two of them are the same.
pub proof fn unique_paths_are_the_paths(style: PathStyle, paths: Seq<Seq<char>>)
    ensures
        forall|i: int, j: int|
            0 <= i < j < unique_paths(style, paths).len() ==> !same_path(
                style,
                #[trigger] unique_paths(style, paths)[i],
                #[trigger] unique_paths(style, paths)[j],
            ),
        forall|i: int|
            0 <= i < unique_paths(style, paths).len() ==> paths.contains(
                #[trigger] unique_paths(style, paths)[i],
            ),
        forall|i: int|
            0 <= i < paths.len() ==> contains_path(style, unique_paths(style, paths), #[trigger] paths[i]),
    decreases paths.len(),
{
    if 0 < paths.len() {
        let before = paths.drop_last();
        let last = paths.last();
        let kept = unique_paths(style, before);
        let now = unique_paths(style, paths);
        unique_paths_are_the_paths(style, before);
        assert forall|i: int| 0 <= i < now.len() implies paths.contains(#[trigger] now[i]) by {
            if i < kept.len() {
                assert(now[i] == kept[i]);
                assert(before.contains(kept[i]));
                let k = choose|k: int| 0 <= k < before.len() && before[k] == kept[i];
                assert(paths[k] == now[i]);
            } else {
                assert(paths[paths.len() - 1] == now[i]);
            }
        }
        assert forall|i: int, j: int| 0 <= i < j < now.len() implies !same_path(
            style,
            #[trigger] now[i],
            #[trigger] now[j],
        ) by {
            assert(now[i] == kept[i]);
            if j < kept.len() {
                assert(now[j] == kept[j]);
            }
        }
        assert forall|i: int| 0 <= i < paths.len() implies contains_path(
            style,
            now,
            #[trigger] paths[i],
        ) by {
            if i < before.len() {
                assert(before[i] == paths[i]);
                assert(contains_path(style, kept, before[i]));
                let k = choose|k: int| 0 <= k < kept.len() && same_path(style, #[trigger] kept[k], before[i]);
                assert(now[k] == kept[k]);
            } else if !contains_path(style, kept, last) {
                assert(same_path(style, now[kept.len() as int], last));
            } else {
                assert(now == kept);
            }
        }
    }
}

/// Paths of which no two are the same are unique already.
pub proof fn distinct_paths_stay(style: PathStyle, paths: Seq<Seq<char>>)
    requires
        forall|i: int, j: int|
            0 <= i < j < paths.len() ==> !same_path(style, #[trigger] paths[i], #[trigger] paths[j]),
    ensures
        unique_paths(style, paths) == paths,
    decreases paths.len(),
{
    if 0 < paths.len() {
        let before = paths.drop_last();
        assert forall|i: int, j: int| 0 <= i < j < before.len() implies !same_path(
            style,
            #[trigger] before[i],
            #[trigger] before[j],
        ) by {
            assert(!same_path(style, paths[i], paths[j]));
        }
        distinct_paths_stay(style, before);
        assert(!contains_path(style, before, paths.last())) by {
            if contains_path(style, before, paths.last()) {
                let k = choose|k: int|
                    0 <= k < before.len() && same_path(style, #[trigger] before[k], paths.last());
                assert(!same_path(style, paths[k], paths[paths.len() - 1]));
            }
        }
        assert(before.push(paths.last()) == paths);
    }
}

/// Whether a path starts at the root.
pub fn path_is_rooted(path: &str) -> (r: bool)
    ensures
        r == is_rooted(path@),
{
    let chars = chars_of(path);
    0 < chars.len() && chars[0] == '/'
}

/// Whether a piece is the text `.`.
fn is_dot(piece: &str) -> (r: bool)
    ensures
        r == (piece@ == seq!['.']),
{
    let chars = chars_of(piece);
    let r = chars.len() == 1 && chars[0] == '.';
    assert(r ==> piece@ == seq!['.']);
    r
}

/// Whether a component is a name.
fn component_is_name(component: &str) -> (r: bool)
    ensures
        r == is_name(component@),
{
    let chars = chars_of(component);
    if chars.len() == 1 {
        let r = chars[0] != '/' && chars[0] != '.';
        proof {
            let c = component@[0];
            assert(component@ == seq![c]);
            assert(component@ != seq!['.', '.']) by {
                assert(seq!['.', '.'].len() == 2);
            }
            assert(seq!['/'][0] == '/');
            assert(seq!['.'][0] == '.');
        }
        r
    } else if chars.len() == 2 {
        let r = !(chars[0] == '.' && chars[1] == '.');
        proof {
            assert(seq!['/'].len() == 1);
            assert(seq!['.'].len() == 1);
            assert(seq!['.', '.'][0] == '.' && seq!['.', '.'][1] == '.');
            assert(!r ==> component@ == seq!['.', '.']);
        }
        r
    } else {
        proof {
            assert(seq!['/'].len() == 1);
            assert(seq!['.'].len() == 1);
            assert(seq!['.', '.'].len() == 2);
        }
        true
    }
}

/// The components of a path.
pub fn path_components(path: &str) -> (r: Vec<String>)
    ensures
        texts(r@) == components(path@),
{
    let pieces = split_on(path, '/');
    let mut r: Vec<String> = Vec::new();
    let rooted = path_is_rooted(path);
    if rooted {
        let mut root = String::new();
        root.push('/');
        assert(root@ == seq!['/']);
        r.push(root);
    }
    let ghost root = texts(r@);
    assert(root == if is_rooted(path@) { seq![seq!['/']] } else { Seq::<Seq<char>>::empty() });
    let ghost all = split(path@, '/');
    let mut i: usize = 0;
    while i < pieces.len()
        invariant
            i <= pieces@.len(),
            texts(pieces@) == all,
            texts(r@) == root + counted(all, i as int),
        decreases pieces@.len() - i,
    {
        let piece = &pieces[i];
        let dot = is_dot(piece.as_str());
        assert(all[i as int] == piece@);
        let ghost before = r@;
        if !piece.as_str().is_empty() && (!dot || i == 0) {
            r.push(copy(piece.as_str()));
            assert(texts(r@) == texts(before).push(piece@));
            assert(texts(r@) == root + counted(all, i + 1));
        }
        i = i + 1;
    }
    r
}

/// The path with `/` as the only separator.
pub fn path_slashed(style: PathStyle, path: &str) -> (r: String)
    ensures
        r@ == slashed(style, path@),
{
    match style {
        PathStyle::Unix => copy(path),
        PathStyle::Windows => replace_char(path, '\\', '/'),
    }
}

/// The letter in upper case.
fn upper_letter(c: char) -> (r: char)
    ensures
        r == upper(c),
{
    if 'a' <= c && c <= 'z' {
        ((c as u32 - 32) as u8) as char
    } else {
        c
    }
}

/// Whether a path starts with a drive.
fn starts_with_drive(chars: &Vec<char>) -> (r: bool)
    ensures
        r == has_drive(chars@),
{
    2 <= chars.len() && ('a' <= chars[0] && chars[0] <= 'z' || 'A' <= chars[0] && chars[0] <= 'Z')
        && chars[1] == ':'
}

/// A share is a part of its path.
proof fn lemma_share_len(path: Seq<char>)
    ensures
        0 <= share_len(path) <= path.len(),
{
    let pieces = split(path, '/');
    if share_len(path) != 0 {
        let four = pieces.take(4);
        reveal_with_fuel(join_with, 5);
        lemma_join_split(path, '/');
        assert(four.drop_last() == pieces.take(3));
        assert(four.drop_last().drop_last() == pieces.take(2));
        assert(four.drop_last().drop_last().drop_last() == pieces.take(1));
        assert(join_with(four, seq!['/']).len() == share_len(path));
        lemma_join_take(pieces, 4);
    }
}

/// The first parts make no longer text than all parts.
proof fn lemma_join_take(parts: Seq<Seq<char>>, n: int)
    requires
        0 <= n <= parts.len(),
    ensures
        join_with(parts.take(n), seq!['/']).len() <= join_with(parts, seq!['/']).len(),
    decreases parts.len(),
{
    if n < parts.len() {
        lemma_join_take(parts.drop_last(), n);
        assert(parts.drop_last().take(n) == parts.take(n));
    } else {
        assert(parts.take(n) == parts);
    }
}

/// The length of the drive or the share that the path starts with, or 0.
fn path_prefix_len(style: PathStyle, path: &str) -> (r: usize)
    ensures
        r == prefix_len(style, path@),
        r <= path@.len(),
{
    match style {
        PathStyle::Unix => 0,
        PathStyle::Windows => {
            let chars = chars_of(path);
            if starts_with_drive(&chars) {
                return 2;
            }
            let pieces = split_on(path, '/');
            let ghost all = split(path@, '/');
            assert(texts(pieces@) == all);
            proof {
                lemma_share_len(path@);
            }
            if pieces.len() < 4 {
                return 0;
            }
            assert(all[0] == pieces@[0]@ && all[1] == pieces@[1]@ && all[2] == pieces@[2]@
                && all[3] == pieces@[3]@);
            let server = chars_of(pieces[2].as_str());
            let share = chars_of(pieces[3].as_str());
            if pieces[0].as_str().is_empty() && pieces[1].as_str().is_empty() && 0 < server.len()
                && 0 < share.len() {
                assert(share_len(path@) == 3 + server@.len() + share@.len());
                let len: usize = chars.len();
                assert(share_len(path@) <= len);
                server.len() + share.len() + 3
            } else {
                0
            }
        },
    }
}

/// The components of a path for the operating system.
pub fn path_components_in(style: PathStyle, path: &str) -> (r: Vec<String>)
    ensures
        texts(r@) == os_components(style, path@),
{
    let text = path_slashed(style, path);
    let n = path_prefix_len(style, text.as_str());
    if n == 0 {
        return path_components(text.as_str());
    }
    let chars = chars_of(text.as_str());
    let rest = string_of(&chars, n, chars.len());
    assert(rest@ == text@.skip(n as int));
    let mut r: Vec<String> = Vec::new();
    let mut names = path_components(rest.as_str());
    if starts_with_drive(&chars) {
        let mut drive = String::new();
        drive.push(upper_letter(chars[0]));
        drive.push(':');
        assert(drive@ == seq![upper(text@[0]), ':']);
        r.push(drive);
    } else {
        let share = string_of(&chars, 0, n);
        assert(share@ == text@.take(n as int));
        r.push(share);
        if n == chars.len() {
            let mut root = String::new();
            root.push('/');
            assert(root@ == seq!['/']);
            r.push(root);
            assert(text@.take(n as int) == text@);
            assert(texts(r@) == seq![text@, seq!['/']]);
            return r;
        }
    }
    let ghost first = texts(r@);
    let ghost more = texts(names@);
    r.append(&mut names);
    assert(texts(r@) == first + more);
    r
}

/// Whether two paths are the same.
pub fn path_same(style: PathStyle, a: &str, b: &str) -> (r: bool)
    ensures
        r == same_path(style, a@, b@),
{
    let left = path_components_in(style, a);
    let right = path_components_in(style, b);
    same_texts(&left, &right)
}

/// Whether the path is in the directory or below, or is the directory itself.
pub fn path_is_below(style: PathStyle, dir: &str, path: &str) -> (r: bool)
    ensures
        r == is_below(style, dir@, path@),
{
    let outer = path_components_in(style, dir);
    let inner = path_components_in(style, path);
    let ghost a = texts(outer@);
    let ghost b = texts(inner@);
    if inner.len() < outer.len() {
        return false;
    }
    let mut i: usize = 0;
    while i < outer.len()
        invariant
            i <= outer@.len() <= inner@.len(),
            a == texts(outer@),
            a == os_components(style, dir@),
            b == texts(inner@),
            b == os_components(style, path@),
            forall|k: int| 0 <= k < i ==> a[k] == b[k],
        decreases outer@.len() - i,
    {
        if !same_text(outer[i].as_str(), inner[i].as_str()) {
            proof {
                assert(a[i as int] != b[i as int]);
                if a.is_prefix_of(b) {
                    assert(b.subrange(0, a.len() as int)[i as int] == b[i as int]);
                }
            }
            return false;
        }
        i = i + 1;
    }
    assert(a == b.subrange(0, a.len() as int));
    true
}

/// Whether two lists of strings say the same.
fn same_texts(a: &Vec<String>, b: &Vec<String>) -> (r: bool)
    ensures
        r == (texts(a@) == texts(b@)),
{
    if a.len() != b.len() {
        assert(texts(a@).len() != texts(b@).len());
        return false;
    }
    let mut i: usize = 0;
    while i < a.len()
        invariant
            a@.len() == b@.len(),
            i <= a@.len(),
            forall|k: int| 0 <= k < i ==> a@[k]@ == b@[k]@,
        decreases a@.len() - i,
    {
        if !same_text(a[i].as_str(), b[i].as_str()) {
            assert(texts(a@)[i as int] != texts(b@)[i as int]);
            return false;
        }
        i = i + 1;
    }
    assert(texts(a@) == texts(b@));
    true
}

/// `base.join(path)` for the operating system, where both texts have `/` as the only separator.
pub fn path_join_in(style: PathStyle, base: &str, path: &str) -> (r: String)
    ensures
        r@ == joined_in(style, base@, path@),
{
    match style {
        PathStyle::Unix => path_join(base, path),
        PathStyle::Windows => {
            if path_prefix_len(style, path) != 0 {
                return copy(path);
            }
            let chars = chars_of(base);
            if path_is_rooted(path) {
                let n = path_prefix_len(style, base);
                let prefix = string_of(&chars, 0, n);
                assert(prefix@ == base@.take(n as int));
                return concat(prefix.as_str(), path);
            }
            if chars.len() == 2 && starts_with_drive(&chars) {
                return concat(base, path);
            }
            path_join(base, path)
        },
    }
}

/// `path` below `base`, or `path` itself where it is rooted.
pub fn path_join(base: &str, path: &str) -> (r: String)
    ensures
        r@ == joined(base@, path@),
{
    if path_is_rooted(path) {
        return copy(path);
    }
    let chars = chars_of(base);
    let mut r = copy(base);
    if 0 < chars.len() && chars[chars.len() - 1] != '/' {
        r.push('/');
    }
    r.append(path);
    r
}

/// The path with the components `all` from `from` on.
pub fn path_collect(all: &Vec<String>, from: usize) -> (r: String)
    requires
        from <= all@.len(),
    ensures
        r@ == collected(texts(all@).skip(from as int)),
{
    let mut r = String::new();
    let mut i: usize = from;
    let ghost parts = texts(all@);
    assert(parts.subrange(from as int, from as int) == Seq::<Seq<char>>::empty());
    while i < all.len()
        invariant
            from <= i <= all@.len(),
            parts == texts(all@),
            r@ == collected(parts.subrange(from as int, i as int)),
        decreases all@.len() - i,
    {
        assert(parts.subrange(from as int, i + 1).drop_last() == parts.subrange(
            from as int,
            i as int,
        ));
        r = path_join(r.as_str(), all[i].as_str());
        i = i + 1;
    }
    assert(parts.subrange(from as int, parts.len() as int) == parts.skip(from as int));
    r
}

/// `path.file_name()`.
pub fn path_file_name(path: &str) -> (r: Option<String>)
    ensures
        opt_text(r) == file_name(path@),
{
    let all = path_components(path);
    if all.len() == 0 {
        return None;
    }
    let last = &all[all.len() - 1];
    assert(components(path@).last() == last@);
    if component_is_name(last.as_str()) {
        Some(copy(last.as_str()))
    } else {
        None
    }
}

/// The position after the last dot of a name, or 0.
fn after_last_dot(chars: &Vec<char>) -> (r: usize)
    ensures
        r == last_dot(chars@) + 1,
        r <= chars@.len(),
{
    let mut i: usize = chars.len();
    assert(chars@.take(i as int) == chars@);
    while 0 < i && chars[i - 1] != '.'
        invariant
            i <= chars@.len(),
            last_dot(chars@) == last_dot(chars@.take(i as int)),
        decreases i,
    {
        assert(chars@.take(i as int).drop_last() == chars@.take(i - 1));
        i = i - 1;
    }
    i
}

/// `path.extension()`.
pub fn path_extension(path: &str) -> (r: Option<String>)
    ensures
        opt_text(r) == extension(path@),
{
    match path_file_name(path) {
        Some(name) => {
            let chars = chars_of(name.as_str());
            let at = after_last_dot(&chars);
            if at <= 1 {
                None
            } else {
                assert(chars@.subrange(at as int, chars@.len() as int) == chars@.skip(at as int));
                Some(string_of(&chars, at, chars.len()))
            }
        },
        None => None,
    }
}

/// The position of the last component among the first `n` pieces.
fn last_component(pieces: &Vec<String>, n: usize) -> (r: Option<usize>)
    requires
        n <= pieces@.len(),
    ensures
        match r {
            Some(i) => i < n && i == last_counted(texts(pieces@), n as int),
            None => last_counted(texts(pieces@), n as int) == -1,
        },
{
    let ghost all = texts(pieces@);
    let mut i: usize = n;
    while 0 < i
        invariant
            i <= n <= pieces@.len(),
            all == texts(pieces@),
            last_counted(all, n as int) == last_counted(all, i as int),
        decreases i,
    {
        let piece = &pieces[i - 1];
        let dot = is_dot(piece.as_str());
        assert(all[i - 1] == piece@);
        if !piece.as_str().is_empty() && (!dot || i == 1) {
            return Some(i - 1);
        }
        i = i - 1;
    }
    None
}

/// The first `n` pieces with `/` between each two.
fn join_pieces(pieces: &Vec<String>, n: usize) -> (r: String)
    requires
        n <= pieces@.len(),
    ensures
        r@ == join_with(texts(pieces@).take(n as int), seq!['/']),
{
    let mut parts: Vec<String> = Vec::new();
    let ghost all = texts(pieces@);
    let mut i: usize = 0;
    while i < n
        invariant
            i <= n <= pieces@.len(),
            all == texts(pieces@),
            texts(parts@) == all.take(i as int),
        decreases n - i,
    {
        let ghost before = parts@;
        parts.push(copy(pieces[i].as_str()));
        assert(texts(parts@) == texts(before).push(all[i as int]));
        assert(all.take(i + 1) == all.take(i as int).push(all[i as int]));
        i = i + 1;
    }
    let mut slash = String::new();
    slash.push('/');
    assert(slash@ == seq!['/']);
    join(&parts, slash.as_str())
}

/// The path after `path.set_extension(ext)`.
pub fn path_with_extension(path: &str, ext: &str) -> (r: String)
    ensures
        r@ == with_extension(path@, ext@),
{
    let name = match path_file_name(path) {
        Some(name) => name,
        None => {
            return copy(path);
        },
    };
    let pieces = split_on(path, '/');
    let ghost all = split(path@, '/');
    proof {
        lemma_counted_last(all, all.len() as int);
    }
    let last = match last_component(&pieces, pieces.len()) {
        Some(last) => last,
        None => {
            assert(components(path@) == if is_rooted(path@) {
                seq![seq!['/']]
            } else {
                Seq::<Seq<char>>::empty()
            });
            return copy(path);
        },
    };
    assert(components(path@).last() == all[last as int]);
    let kept = join_pieces(&pieces, last + 1);
    let chars = chars_of(kept.as_str());
    let name_chars = chars_of(name.as_str());
    let at = after_last_dot(&name_chars);
    let dropped: usize = if at <= 1 { 0 } else { name_chars.len() - (at - 1) };
    proof {
        let parts = all.take(last + 1);
        assert(parts.last() == name@);
        assert(join_with(parts, seq!['/']).len() >= name@.len());
        assert(dropped == name@.len() - name_stem(name@).len());
        assert(chars@.subrange(0, chars@.len() - dropped) == chars@.take(chars@.len() - dropped));
    }
    let mut r = string_of(&chars, 0, chars.len() - dropped);
    if !ext.is_empty() {
        r.push('.');
        r.append(ext);
    }
    r
}

/// `path.parent()`.
pub fn path_parent(path: &str) -> (r: Option<String>)
    ensures
        opt_text(r) == parent(path@),
{
    let pieces = split_on(path, '/');
    proof {
        lemma_counted_last(texts(pieces@), pieces@.len() as int);
    }
    match last_component(&pieces, pieces.len()) {
        Some(last) => match last_component(&pieces, last) {
            Some(before) => Some(join_pieces(&pieces, before + 1)),
            None => {
                let mut r = String::new();
                if path_is_rooted(path) {
                    r.push('/');
                    assert(r@ == seq!['/']);
                }
                Some(r)
            },
        },
        None => None,
    }
}

/// `path.parent()` for the operating system, where the text has `/` as the only separator.
pub fn path_parent_in(style: PathStyle, path: &str) -> (r: Option<String>)
    ensures
        opt_text(r) == parent_in(style, path@),
{
    let n = path_prefix_len(style, path);
    let chars = chars_of(path);
    let prefix = string_of(&chars, 0, n);
    let rest = string_of(&chars, n, chars.len());
    assert(prefix@ == path@.take(n as int));
    assert(rest@ == path@.skip(n as int));
    match path_parent(rest.as_str()) {
        Some(dir) => Some(concat(prefix.as_str(), dir.as_str())),
        None => None,
    }
}

/// Whether the list contains the path.
pub fn paths_contain(style: PathStyle, paths: &Vec<String>, path: &str) -> (r: bool)
    ensures
        r == contains_path(style, texts(paths@), path@),
{
    let ghost all = texts(paths@);
    let mut i: usize = 0;
    while i < paths.len()
        invariant
            i <= paths@.len(),
            all == texts(paths@),
            forall|k: int| 0 <= k < i ==> !same_path(style, #[trigger] all[k], path@),
        decreases paths@.len() - i,
    {
        assert(all[i as int] == paths@[i as int]@);
        if path_same(style, paths[i].as_str(), path) {
            return true;
        }
        i = i + 1;
    }
    false
}

/// The paths without those that stand earlier in the list already.
pub fn paths_unique(style: PathStyle, paths: Vec<String>) -> (r: Vec<String>)
    ensures
        texts(r@) == unique_paths(style, texts(paths@)),
{
    let mut r: Vec<String> = Vec::new();
    let ghost all = texts(paths@);
    for path in it: paths
        invariant
            texts(it.seq()) == all,
            texts(r@) == unique_paths(style, all.take(it.index())),
    {
        let ghost i = it.index();
        let ghost before = r@;
        proof {
            assert(all[i] == path@);
            assert(all.take(i + 1).drop_last() == all.take(i));
        }
        if !paths_contain(style, &r, path.as_str()) {
            r.push(path);
            assert(texts(r@) == texts(before).push(path@));
        }
    }
    assert(all.take(all.len() as int) == all);
    r
}

/// The first of some paths stays the first when those that stand earlier in the list already are
/// left out.
pub proof fn first_path_stays_first(style: PathStyle, paths: Seq<Seq<char>>)
    requires
        0 < paths.len(),
    ensures
        0 < unique_paths(style, paths).len(),
        unique_paths(style, paths)[0] == paths[0],
    decreases paths.len(),
{
    if 1 < paths.len() {
        first_path_stays_first(style, paths.drop_last());
    } else {
        assert(paths.drop_last().len() == 0);
        assert(unique_paths(style, paths.drop_last()) == Seq::<Seq<char>>::empty());
    }
}

/// A name without dots and directories gets an extension by a dot and the extension.
pub proof fn bare_name_gets_the_extension(name: Seq<char>, ext: Seq<char>)
    requires
        0 < name.len(),
        !name.contains('.'),
        !name.contains('/'),
    ensures
        file_name(name) == Some(name),
        extension(name) is None,
        0 < ext.len() ==> with_extension(name, ext) == name + seq!['.'] + ext,
        ext.len() == 0 ==> with_extension(name, ext) == name,
{
    lemma_no_extension(name);
    lemma_split_one(name, '/');
    let pieces = split(name, '/');
    assert(pieces[0] == name);
    assert(is_rooted(name) ==> name.contains(name[0]));
    reveal_with_fuel(counted, 2);
    reveal_with_fuel(last_counted, 2);
    assert(name.contains(name[0]));
    assert(seq!['.'][0] == '.' && seq!['.', '.'][0] == '.' && seq!['/'][0] == '/');
    assert(counts(pieces, 0));
    assert(components(name) == seq![name]);
    lemma_dotless(name);
    assert(pieces.take(1) == pieces);
    assert(trimmed(name) == name);
    assert(name.take(name.len() as int) == name);
    assert(name.push('.') + ext == name + seq!['.'] + ext);
}

/// The extension of a path is replaced: what stood behind the last dot is gone, and the rest of
/// the path stays.
pub proof fn extension_is_replaced(path: Seq<char>, before: Seq<char>, ext: Seq<char>)
    requires
        0 < path.len(),
        path.last() != '/',
        0 < before.len(),
        !before.contains('.'),
        !before.contains('/'),
        0 < ext.len(),
    ensures
        with_extension(path + seq!['.'] + before, ext) == path + seq!['.'] + ext,
{
    extension_is_what_was_appended(path, before);
    let whole = path + seq!['.'] + before;
    assert(with_extension(whole, ext) == with_extension(whole, Seq::empty()).push('.') + ext);
    assert(path.push('.') + ext == path + seq!['.'] + ext);
}

proof fn lemma_counted_grows(pieces: Seq<Seq<char>>, m: int, n: int)
    requires
        0 <= m <= n <= pieces.len(),
    ensures
        counted(pieces, m).is_prefix_of(counted(pieces, n)),
    decreases n,
{
    let less = counted(pieces, m);
    if m < n {
        lemma_counted_grows(pieces, m, n - 1);
        let more = counted(pieces, n - 1);
        let all = counted(pieces, n);
        assert(less == more.subrange(0, less.len() as int));
        assert(all.subrange(0, less.len() as int) == more.subrange(0, less.len() as int));
    } else {
        assert(less == less.subrange(0, less.len() as int));
    }
}

proof fn lemma_joined_is_below(base: Seq<char>, path: Seq<char>)
    requires
        !is_rooted(path),
    ensures
        components(base).is_prefix_of(components(joined(base, path))),
{
    let whole = joined(base, path);
    let a = split(base, '/');
    let b = split(path, '/');
    let n = a.len() as int;
    lemma_split_len(base, '/');
    lemma_split_len(path, '/');
    if base.len() == 0 {
        assert(counted(a, 1) == Seq::<Seq<char>>::empty()) by {
            reveal_with_fuel(counted, 2);
        }
        assert(components(base) == Seq::<Seq<char>>::empty());
        assert(components(whole).subrange(0, 0) == Seq::<Seq<char>>::empty());
    } else {
        let front = if base.last() == '/' {
            base.drop_last()
        } else {
            base
        };
        let c = split(front, '/');
        assert(whole == front + seq!['/'] + path);
        lemma_split_concat(front, path, '/');
        lemma_split_len(front, '/');
        let all = c + b;
        assert(split(whole, '/') == all);
        let m = c.len() as int;
        lemma_counted_prefix(c, b, m);
        lemma_counted_grows(all, m, all.len() as int);
        if base.last() == '/' {
            assert(a == c.push(Seq::empty()));
            assert(a == c + seq![Seq::<char>::empty()]);
            lemma_counted_prefix(c, seq![Seq::empty()], m);
            assert(counted(a, n) == counted(a, m));
        }
        assert(counted(a, n) == counted(c, m));
        assert(is_rooted(whole) == is_rooted(base));
        let small = counted(c, m);
        let large = counted(all, all.len() as int);
        let root: Seq<Seq<char>> = if is_rooted(base) {
            seq![seq!['/']]
        } else {
            Seq::empty()
        };
        assert(large.subrange(0, small.len() as int) == small);
        assert((root + large).subrange(0, (root + small).len() as int) == root + small);
        assert(components(base) == root + small);
        assert(components(whole) == root + large);
    }
}

/// A joined path ends in the path that was joined. On Unix it is that path if it is absolute; a
/// relative one stands behind the base, with a slash in between where the base is not empty and
/// does not end in one, and is below the base.
pub proof fn joined_path_is_below_the_base(
    style: PathStyle,
    base: &str,
    path: &str,
    r: String,
    whole: &str,
    below: bool,
)
    requires
        call_ensures(path_join_in, (style, base, path), r),
        whole@ == r@,
        call_ensures(path_is_below, (style, base, whole), below),
    ensures
        path@.is_suffix_of(r@),
        style is Unix && 0 < path@.len() && path@[0] == '/' ==> r@ == path@,
        style is Unix && !(0 < path@.len() && path@[0] == '/') ==> {
            &&& below
            &&& base@.is_prefix_of(r@)
            &&& base@.len() == 0 || base@.last() == '/' ==> r@ == base@ + path@
            &&& 0 < base@.len() && base@.last() != '/' ==> r@ == base@ + seq!['/'] + path@
        },
        style is Windows && !base@.contains(':') && !path@.contains(':') && 0 < base@.len()
            && base@[0] != '/' && 0 < path@.len() && path@[0] != '/' ==> {
            &&& base@.is_prefix_of(r@)
            &&& base@.last() == '/' ==> r@ == base@ + path@
            &&& base@.last() != '/' ==> r@ == base@ + seq!['/'] + path@
        },
{
    lemma_share_len(path@);
    lemma_share_len(base@);
    assert(r@.subrange(r@.len() - path@.len(), r@.len() as int) == path@);
    if !is_rooted(path@) {
        lemma_joined_is_below(base@, path@);
        let all = joined(base@, path@);
        assert(all.subrange(0, base@.len() as int) == base@);
        assert(base@.push('/') + path@ == base@ + seq!['/'] + path@);
    }
    if style is Windows && !base@.contains(':') && !path@.contains(':') && 0 < base@.len()
        && base@[0] != '/' && 0 < path@.len() && path@[0] != '/' {
        lemma_first_piece(path@, '/');
        assert(2 <= path@.len() ==> path@.contains(path@[1]));
        assert(2 <= base@.len() ==> base@.contains(base@[1]));
        assert(prefix_len(style, path@) == 0);
    }
}

/// `once` lists the paths of `paths`, each once: every one of them is listed, nothing else is, no
/// path is listed twice, and what came first stays in front.
pub open spec fn lists_once(style: PathStyle, paths: Seq<Seq<char>>, once: Seq<Seq<char>>) -> bool {
    &&& forall|i: int| 0 <= i < once.len() ==> paths.contains(#[trigger] once[i])
    &&& forall|i: int|
        0 <= i < paths.len() ==> exists|j: int|
            0 <= j < once.len() && same_path(style, #[trigger] once[j], #[trigger] paths[i])
    &&& forall|i: int, j: int|
        0 <= i < j < once.len() ==> !same_path(style, #[trigger] once[i], #[trigger] once[j])
    &&& forall|i: int, j: int|
        0 <= i < j < once.len() ==> stands_before(
            paths,
            #[trigger] once[i],
            #[trigger] once[j],
        )
}

/// `a` stands before `b` in the list.
pub open spec fn stands_before(paths: Seq<Seq<char>>, a: Seq<char>, b: Seq<char>) -> bool {
    exists|i: int, j: int|
        0 <= i < j < paths.len() && #[trigger] paths[i] == a && #[trigger] paths[j] == b
}

proof fn lemma_unique_paths_in_order(style: PathStyle, paths: Seq<Seq<char>>)
    ensures
        forall|i: int, j: int|
            0 <= i < j < unique_paths(style, paths).len() ==> stands_before(
                paths,
                #[trigger] unique_paths(style, paths)[i],
                #[trigger] unique_paths(style, paths)[j],
            ),
    decreases paths.len(),
{
    if 0 < paths.len() {
        let before = paths.drop_last();
        let less = unique_paths(style, before);
        let once = unique_paths(style, paths);
        lemma_unique_paths_in_order(style, before);
        unique_paths_are_the_paths(style, before);
        assert forall|i: int, j: int| 0 <= i < j < once.len() implies stands_before(
            paths,
            #[trigger] once[i],
            #[trigger] once[j],
        ) by {
            assert(once[i] == less[i]);
            if j < less.len() {
                assert(once[j] == less[j]);
                assert(stands_before(before, less[i], less[j]));
                let (p, q) = choose|p: int, q: int|
                    0 <= p < q < before.len() && #[trigger] before[p] == less[i]
                        && #[trigger] before[q] == less[j];
                assert(paths[p] == less[i] && paths[q] == less[j]);
            } else {
                assert(before.contains(less[i]));
                let p = choose|p: int| 0 <= p < before.len() && before[p] == less[i];
                assert(paths[p] == less[i]);
                assert(paths[paths.len() - 1] == once[j]);
            }
        }
    }
}

/// The paths without those that stand earlier in the list already list each path once.
pub proof fn unique_paths_list_once(style: PathStyle, paths: Seq<Seq<char>>)
    ensures
        lists_once(style, paths, unique_paths(style, paths)),
        0 < paths.len() ==> 0 < unique_paths(style, paths).len(),
        0 < paths.len() ==> unique_paths(style, paths)[0] == paths[0],
{
    let once = unique_paths(style, paths);
    unique_paths_are_the_paths(style, paths);
    lemma_unique_paths_in_order(style, paths);
    assert forall|i: int| 0 <= i < paths.len() implies exists|j: int|
        0 <= j < once.len() && same_path(style, #[trigger] once[j], #[trigger] paths[i]) by {
        assert(contains_path(style, once, paths[i]));
    }
    if 0 < paths.len() {
        first_path_stays_first(style, paths);
    }
}

/// `paths_unique` lists each path once, the first one first, and a list without repetitions stays
/// as it is.
pub proof fn repeated_paths_are_left_out(style: PathStyle, paths: Vec<String>, r: Vec<String>)
    requires
        call_ensures(paths_unique, (style, paths), r),
    ensures
        lists_once(style, texts(paths@), texts(r@)),
        0 < paths@.len() ==> 0 < r@.len() && r@[0]@ == paths@[0]@,
        (forall|i: int, j: int|
            0 <= i < j < paths@.len() ==> !same_path(
                style,
                (#[trigger] paths@[i])@,
                (#[trigger] paths@[j])@,
            )) ==> texts(r@) == texts(paths@),
{
    let all = texts(paths@);
    unique_paths_list_once(style, all);
    if 0 < all.len() {
        assert(texts(r@)[0] == r@[0]@);
    }
    if forall|i: int, j: int|
        0 <= i < j < paths@.len() ==> !same_path(
            style,
            (#[trigger] paths@[i])@,
            (#[trigger] paths@[j])@,
        ) {
        assert forall|i: int, j: int| 0 <= i < j < all.len() implies !same_path(
            style,
            #[trigger] all[i],
            #[trigger] all[j],
        ) by {
            assert(!same_path(style, paths@[i]@, paths@[j]@));
        }
        distinct_paths_stay(style, all);
    }
}

/// A list contains a path exactly if one of its paths is the same path.
pub proof fn contained_paths_are_the_same_as_one(
    style: PathStyle,
    paths: &Vec<String>,
    path: &str,
    r: bool,
)
    requires
        call_ensures(paths_contain, (style, paths, path), r),
    ensures
        r <==> exists|i: int|
            0 <= i < paths@.len() && same_path(style, (#[trigger] paths@[i])@, path@),
        (exists|i: int| 0 <= i < paths@.len() && (#[trigger] paths@[i])@ == path@) ==> r,
{
    let all = texts(paths@);
    if r {
        let i = choose|i: int| 0 <= i < all.len() && same_path(style, #[trigger] all[i], path@);
        assert(all[i] == paths@[i]@);
    }
    if exists|i: int| 0 <= i < paths@.len() && same_path(style, (#[trigger] paths@[i])@, path@) {
        let i = choose|i: int|
            0 <= i < paths@.len() && same_path(style, (#[trigger] paths@[i])@, path@);
        assert(all[i] == paths@[i]@);
    }
}

proof fn lemma_empty_piece_at_the_end(path: Seq<char>)
    requires
        0 < path.len(),
    ensures
        components(path + seq!['/']) == components(path),
{
    let a = split(path, '/');
    let empty = Seq::<char>::empty();
    assert(path + seq!['/'] == path + seq!['/'] + empty);
    lemma_split_concat(path, empty, '/');
    lemma_split_one(empty, '/');
    let all = a + seq![empty];
    let n = a.len() as int;
    lemma_counted_prefix(a, seq![empty], n);
    assert(all[n] == empty);
    assert(counted(all, n + 1) == counted(all, n));
}

/// A slash at the end of a path makes no difference, nor does a `.` behind it. A path is the same
/// as itself, and what is the same as a path is the same the other way round.
pub proof fn slashes_make_no_other_path(
    path: &str,
    slashed_path: &str,
    dotted: &str,
    other: &str,
    r: (bool, bool, bool, bool, bool),
)
    requires
        0 < path@.len(),
        slashed_path@ == path@ + seq!['/'],
        dotted@ == path@ + seq!['/', '.'],
        call_ensures(path_same, (PathStyle::Unix, path, slashed_path), r.0),
        call_ensures(path_same, (PathStyle::Unix, path, dotted), r.1),
        call_ensures(path_same, (PathStyle::Unix, path, path), r.2),
        call_ensures(path_same, (PathStyle::Unix, path, other), r.3),
        call_ensures(path_same, (PathStyle::Unix, other, path), r.4),
    ensures
        r.0,
        r.1,
        r.2,
        r.3 == r.4,
{
    lemma_empty_piece_at_the_end(path@);
    let a = split(path@, '/');
    let dot = seq!['.'];
    assert(dotted@ == path@ + seq!['/'] + dot);
    assert(!dot.contains('/'));
    lemma_split_concat(path@, dot, '/');
    lemma_split_one(dot, '/');
    lemma_split_len(path@, '/');
    let all = a + seq![dot];
    let n = a.len() as int;
    lemma_counted_prefix(a, seq![dot], n);
    assert(all[n] == dot);
    assert(counted(all, n + 1) == counted(all, n));
    assert(components(dotted@) == components(path@));
}

/// On Windows a path is the same with slashes in place of its backslashes.
pub proof fn backslashes_separate_on_windows(a: &str, b: &str, r: bool)
    requires
        call_ensures(path_same, (PathStyle::Windows, a, b), r),
        a@.len() == b@.len(),
        forall|i: int|
            0 <= i < a@.len() ==> #[trigger] a@[i] == b@[i] || a@[i] == '\\' && b@[i] == '/',
    ensures
        r,
{
    assert(slashed(PathStyle::Windows, a@) == slashed(PathStyle::Windows, b@)) by {
        assert forall|i: int| 0 <= i < a@.len() implies replaced(a@, '\\', '/')[i] == replaced(
            b@,
            '\\',
            '/',
        )[i] by {
            assert(a@[i] == b@[i] || a@[i] == '\\' && b@[i] == '/');
        }
        assert(replaced(a@, '\\', '/') == replaced(b@, '\\', '/'));
    }
}

/// A file below a directory has the name that was joined, and that name alone, whatever slashes
/// the directory ends in. The name that is read off a path is not empty and holds no slash.
pub proof fn file_name_is_the_last_name(dir: Seq<char>, name: Seq<char>, path: &str, r: Option<String>)
    requires
        call_ensures(path_file_name, (path,), r),
    ensures
        r is Some ==> 0 < r->0@.len() && !r->0@.contains('/') && r->0@ != seq!['.', '.'],
        path@ == dir + seq!['/'] + name && 0 < name.len() && !name.contains('/') && name != seq!['.']
            && name != seq!['.', '.'] ==> r is Some && r->0@ == name,
        path@ == name && 0 < name.len() && !name.contains('/') && name != seq!['.'] && name != seq![
            '.',
            '.',
        ] ==> r is Some && r->0@ == name,
        path@.len() == 0 ==> r is None,
{
    lemma_components(path@);
    assert(seq!['/'].len() == 1 && seq!['.'].len() == 1 && seq!['.', '.'].len() == 2);
    if r is Some {
        let all = components(path@);
        let last = all[all.len() - 1];
        assert(last == r->0@);
    }
    if 0 < name.len() && !name.contains('/') && name != seq!['.'] && name != seq!['.', '.'] {
        lemma_split_one(name, '/');
        assert(name != seq!['/']) by {
            assert(name.contains(name[0]));
            assert(seq!['/'][0] == '/');
        }
        let pieces = split(path@, '/');
        let n = pieces.len() as int;
        if path@ == dir + seq!['/'] + name {
            lemma_split_concat(dir, name, '/');
            lemma_split_len(dir, '/');
            assert(pieces[n - 1] == name);
            assert(counted(pieces, n).last() == name);
            assert(components(path@).last() == name);
        }
        if path@ == name {
            assert(pieces[0] == name);
            assert(counted(pieces, n).last() == name);
            assert(components(path@).last() == name);
        }
    }
    if path@.len() == 0 {
        let pieces = split(path@, '/');
        reveal_with_fuel(counted, 2);
        assert(counted(pieces, 1) == Seq::<Seq<char>>::empty());
        assert(components(path@).len() == 0);
    }
}

/// The extension of a file is what stands behind the last dot of its name. A name without a dot
/// has none. Changing the extension changes what stands behind that dot and nothing else; with no
/// extension the dot is gone, too.
pub proof fn extension_stands_behind_the_last_dot(
    stem: Seq<char>,
    end: Seq<char>,
    path: &str,
    ext: &str,
    r: Option<String>,
    changed: String,
)
    requires
        call_ensures(path_extension, (path,), r),
        call_ensures(path_with_extension, (path, ext), changed),
        0 < stem.len(),
        stem.last() != '/',
        0 < end.len(),
        !end.contains('.'),
        !end.contains('/'),
    ensures
        path@ == stem + seq!['.'] + end ==> {
            &&& r is Some
            &&& r->0@ == end
            &&& 0 < ext@.len() ==> changed@ == stem + seq!['.'] + ext@
            &&& ext@.len() == 0 ==> changed@ == stem
        },
        path@ == end ==> {
            &&& r is None
            &&& 0 < ext@.len() ==> changed@ == end + seq!['.'] + ext@
            &&& ext@.len() == 0 ==> changed@ == end
        },
{
    if path@ == stem + seq!['.'] + end {
        extension_is_what_was_appended(stem, end);
        if 0 < ext@.len() {
            extension_is_replaced(stem, end, ext@);
        } else {
            assert(ext@ == Seq::<char>::empty());
        }
    }
    if path@ == end {
        bare_name_gets_the_extension(end, ext@);
    }
}

/// The parent of a name below a directory is the directory; that of a bare name is empty.
pub proof fn parent_is_the_directory(
    dir: Seq<char>,
    last: Seq<char>,
    name: Seq<char>,
    path: &str,
    r: Option<String>,
)
    requires
        call_ensures(path_parent, (path,), r),
        0 < name.len(),
        !name.contains('/'),
        name != seq!['.'],
    ensures
        0 < last.len() && !last.contains('/') && last != seq!['.'] && path@ == dir + seq!['/'] + last
            + seq!['/'] + name ==> r is Some && r->0@ == dir + seq!['/'] + last,
        0 < last.len() && !last.contains('/') && path@ == last + seq!['/'] + name ==> r is Some
            && r->0@ == last,
        path@ == name ==> r is Some && r->0@.len() == 0,
        path@ == seq!['/'] + name ==> r is Some && r->0@ == seq!['/'],
{
    lemma_split_one(name, '/');
    let pieces = split(path@, '/');
    let n = pieces.len() as int;
    let slash = seq!['/'];
    let empty = Seq::<char>::empty();
    reveal_with_fuel(last_counted, 3);
    if 0 < last.len() && !last.contains('/') {
        lemma_split_one(last, '/');
        if last != seq!['.'] && path@ == dir + slash + last + slash + name {
            let front = dir + slash + last;
            lemma_split_concat(front, name, '/');
            lemma_split_concat(dir, last, '/');
            lemma_split_len(dir, '/');
            assert(pieces == split(dir, '/') + seq![last] + seq![name]);
            assert(pieces[n - 1] == name);
            assert(pieces[n - 2] == last);
            assert(pieces.take(n - 1) == split(front, '/'));
            lemma_join_split(front, '/');
        }
        if path@ == last + slash + name {
            lemma_split_concat(last, name, '/');
            assert(pieces == seq![last] + seq![name]);
            assert(pieces[0] == last && pieces[1] == name);
            assert(pieces.take(1) == seq![last]);
        }
    }
    if path@ == name {
        assert(pieces[0] == name);
        assert(!is_rooted(path@)) by {
            assert(name.contains(name[0]));
        }
    }
    if path@ == slash + name {
        assert(path@ == empty + slash + name);
        lemma_split_concat(empty, name, '/');
        lemma_split_one(empty, '/');
        assert(pieces[0] == empty && pieces[1] == name);
        assert(path@[0] == '/');
    }
}

/// A path on Unix is written as it is.
pub proof fn unix_paths_are_written_as_they_are(path: &str, r: String, s: String)
    requires
        call_ensures(slash_text, (PathStyle::Unix, path), r),
        call_ensures(path_slashed, (PathStyle::Unix, path), s),
    ensures
        r@ == path@,
        s@ == path@,
{
}

/// A directory is below itself; what is below a directory that is below another one is below that
/// one, too; and two paths that are below each other are the same.
pub proof fn paths_below_each_other(
    style: PathStyle,
    a: &str,
    b: &str,
    c: &str,
    r: (bool, bool, bool, bool),
    same: bool,
)
    requires
        call_ensures(path_is_below, (style, a, b), r.0),
        call_ensures(path_is_below, (style, b, c), r.1),
        call_ensures(path_is_below, (style, a, c), r.2),
        call_ensures(path_is_below, (style, b, a), r.3),
        call_ensures(path_same, (style, a, b), same),
    ensures
        r.0 && r.1 ==> r.2,
        r.0 && r.3 <==> same,
        a@ == b@ ==> r.0,
{
    let x = os_components(style, a@);
    let y = os_components(style, b@);
    let z = os_components(style, c@);
    if r.0 && r.1 {
        assert(x == y.subrange(0, x.len() as int));
        assert(y == z.subrange(0, y.len() as int));
        assert(z.subrange(0, x.len() as int) == x);
    }
    if r.0 && r.3 {
        assert(x == y.subrange(0, x.len() as int));
        assert(y == x.subrange(0, y.len() as int));
        assert(x == y);
    }
    if x == y {
        assert(x == y.subrange(0, x.len() as int));
        assert(y == x.subrange(0, y.len() as int));
    }
}

/// Between its slashes the path has names: none of them is empty, and none is `.`.
pub open spec fn is_tidy(path: Seq<char>) -> bool {
    forall|i: int|
        0 <= i < split(path, '/').len() ==> 0 < (#[trigger] split(path, '/')[i]).len() && split(
            path,
            '/',
        )[i] != seq!['.']
}

proof fn lemma_tidy_counted(front: Seq<Seq<char>>, names: Seq<Seq<char>>, n: int)
    requires
        0 <= n <= names.len(),
        forall|i: int|
            0 <= i < names.len() ==> 0 < (#[trigger] names[i]).len() && names[i] != seq!['.'],
    ensures
        counted(front + names, front.len() + n) == counted(front, front.len() as int) + names.take(n),
    decreases n,
{
    let all = front + names;
    if n == 0 {
        lemma_counted_prefix(front, names, front.len() as int);
        assert(names.take(0) == Seq::<Seq<char>>::empty());
    } else {
        lemma_tidy_counted(front, names, n - 1);
        assert(all[front.len() + n - 1] == names[n - 1]);
        assert(counts(all, front.len() + n - 1));
        assert(names.take(n) == names.take(n - 1).push(names[n - 1]));
    }
}

/// The components of a tidy path are its names; below a directory they stand behind those of the
/// directory.
pub proof fn tidy_paths_have_their_names(base: Seq<char>, path: Seq<char>)
    requires
        is_tidy(path),
    ensures
        components(path) == split(path, '/'),
        0 < base.len() ==> components(base + seq!['/'] + path) == components(base) + split(path, '/'),
{
    let names = split(path, '/');
    let none = Seq::<Seq<char>>::empty();
    let n = names.len() as int;
    lemma_split_len(path, '/');
    assert(0 < names[0].len());
    lemma_first_piece(path, '/');
    lemma_tidy_counted(none, names, n);
    assert(none + names == names);
    assert(names.take(n) == names);
    assert(counted(none, 0) == none);
    assert(components(path) == names);
    if 0 < base.len() {
        let front = split(base, '/');
        lemma_split_concat(base, path, '/');
        lemma_tidy_counted(front, names, n);
        let whole = base + seq!['/'] + path;
        assert(is_rooted(whole) == is_rooted(base));
        assert(components(whole) == components(base) + names);
    }
}

proof fn lemma_collected_names(names: Seq<Seq<char>>)
    requires
        forall|i: int|
            0 <= i < names.len() ==> 0 < (#[trigger] names[i]).len() && !names[i].contains('/'),
    ensures
        collected(names) == join_with(names, seq!['/']),
        0 < names.len() ==> 0 < collected(names).len() && collected(names).last() != '/',
    decreases names.len(),
{
    if 0 < names.len() {
        let before = names.drop_last();
        let last = names[names.len() - 1];
        assert forall|i: int| 0 <= i < before.len() implies 0 < (#[trigger] before[i]).len()
            && !before[i].contains('/') by {
            assert(before[i] == names[i]);
        }
        lemma_collected_names(before);
        assert(last.contains(last[0]));
        assert(last.contains(last[last.len() - 1]));
        if before.len() == 0 {
            assert(collected(before) == Seq::<char>::empty());
            assert(collected(names) == last);
            assert(names == seq![last]);
        } else {
            assert(collected(names) == collected(before).push('/') + last);
            assert(collected(before).push('/') + last == collected(before) + seq!['/'] + last);
        }
    }
}

/// A tidy path is put together again from its names.
pub proof fn tidy_paths_are_collected(path: Seq<char>)
    requires
        is_tidy(path),
    ensures
        collected(split(path, '/')) == path,
{
    lemma_pieces_hold_no_separator(path, '/');
    lemma_collected_names(split(path, '/'));
    lemma_join_split(path, '/');
}

proof fn lemma_shared_all(a: Seq<Seq<char>>, b: Seq<Seq<char>>)
    ensures
        shared(a + b, a) == a.len(),
    decreases a.len(),
{
    if 0 < a.len() {
        assert((a + b)[0] == a[0]);
        assert((a + b).skip(1) == a.skip(1) + b);
        lemma_shared_all(a.skip(1), b);
    }
}

/// The relative path of what is below a directory is the path below it.
pub proof fn relative_path_is_the_path_below(base: Seq<char>, path: Seq<char>, r: Option<Seq<char>>)
    requires
        is_tidy(path),
        is_rooted(base),
        is_portable(base),
        is_portable(base + seq!['/'] + path),
        is_relative_path(base + seq!['/'] + path, base, r),
    ensures
        r == Some(path),
{
    let whole = base + seq!['/'] + path;
    let a = components(base);
    let b = split(path, '/');
    tidy_paths_have_their_names(base, path);
    tidy_paths_are_collected(path);
    lemma_shared_all(a, b);
    assert(a[0] == seq!['/']);
    assert(components(whole)[0] == seq!['/']);
    assert(seq!['/'][0] != seq!['.'][0]);
    assert(is_plain(base) && is_plain(whole));
    assert(is_rooted(whole));
    let up = Seq::new((a.len() - a.len()) as nat, |i: int| seq!['.', '.']);
    assert((a + b).skip(a.len() as int) == b);
    assert(up + b == b);
    assert(way(a + b, a) == Some(b));
}

/// A path is taken apart into its names, behind the root where it has one, and put together from
/// them again. On Unix joining and taking apart are so without a style.
pub proof fn names_make_the_path(
    tidy: Seq<char>,
    base: &str,
    path: &str,
    rooted: bool,
    all: Vec<String>,
    in_style: Vec<String>,
    names: &Vec<String>,
    from: usize,
    collected_path: String,
    joined_path: String,
    joined_in_style: String,
)
    requires
        is_tidy(tidy),
        call_ensures(path_is_rooted, (path,), rooted),
        call_ensures(path_components, (path,), all),
        call_ensures(path_components_in, (PathStyle::Unix, path), in_style),
        *names == all,
        from <= names@.len(),
        call_ensures(path_collect, (names, from), collected_path),
        call_ensures(path_join, (base, path), joined_path),
        call_ensures(path_join_in, (PathStyle::Unix, base, path), joined_in_style),
    ensures
        rooted <==> 0 < path@.len() && path@[0] == '/',
        path@ == tidy ==> texts(all@) == split(tidy, '/'),
        path@ == seq!['/'] + tidy ==> texts(all@) == seq![seq!['/']] + split(tidy, '/'),
        path@ == tidy && from == 0 ==> collected_path@ == path@,
        path@ == seq!['/'] + tidy && from == 1 ==> collected_path@ == tidy,
        texts(in_style@) == texts(all@),
        joined_path@ == joined_in_style@,
{
    let empty = Seq::<char>::empty();
    let names_of = split(tidy, '/');
    tidy_paths_have_their_names(empty, tidy);
    tidy_paths_are_collected(tidy);
    if path@ == tidy {
        assert(texts(names@).skip(0) == names_of);
    }
    if path@ == seq!['/'] + tidy {
        assert(path@ == empty + seq!['/'] + tidy);
        lemma_split_concat(empty, tidy, '/');
        lemma_split_one(empty, '/');
        let front = seq![empty];
        let n = names_of.len() as int;
        lemma_tidy_counted(front, names_of, n);
        reveal_with_fuel(counted, 2);
        assert(counted(front, 1) == Seq::<Seq<char>>::empty());
        assert(names_of.take(n) == names_of);
        assert(components(path@) == seq![seq!['/']] + names_of);
        assert((seq![seq!['/']] + names_of).skip(1) == names_of);
    }
}

proof fn lemma_no_share(path: Seq<char>)
    requires
        0 < path.len(),
        path[0] == '/',
        1 < path.len() ==> path[1] != '/',
    ensures
        share_len(path) == 0,
{
    let empty = Seq::<char>::empty();
    let rest = path.skip(1);
    assert(path == empty + seq!['/'] + rest);
    lemma_split_concat(empty, rest, '/');
    lemma_split_one(empty, '/');
    lemma_first_piece(rest, '/');
    let pieces = split(path, '/');
    if 0 < rest.len() {
        assert(pieces[1] == split(rest, '/')[0]);
    } else {
        lemma_split_one(rest, '/');
        assert(pieces.len() == 2);
    }
}

/// On Windows a path with a drive is joined as it is, and one from the root stays on the drive of
/// the base. The parent of a path on a drive is on the drive. The letter of a drive may be large
/// or small, and another letter is another drive.
pub proof fn drives_stay_on_windows(
    a: char,
    b: char,
    rest: Seq<char>,
    base: &str,
    path: &str,
    other: &str,
    rooted: &str,
    tail: &str,
    r: (String, String, bool),
    dir: Option<String>,
    dir_of_rest: Option<String>,
)
    requires
        'a' <= a <= 'z' || 'A' <= a <= 'Z',
        'a' <= b <= 'z' || 'A' <= b <= 'Z',
        !rest.contains('\\'),
        path@ == seq![a, ':'] + rest,
        other@ == seq![b, ':'] + rest,
        0 < rooted@.len(),
        rooted@[0] == '/',
        1 < rooted@.len() ==> rooted@[1] != '/',
        tail@ == rest,
        call_ensures(path_join_in, (PathStyle::Windows, base, path), r.0),
        call_ensures(path_join_in, (PathStyle::Windows, path, rooted), r.1),
        call_ensures(path_same, (PathStyle::Windows, path, other), r.2),
        call_ensures(path_parent_in, (PathStyle::Windows, path), dir),
        call_ensures(path_parent, (tail,), dir_of_rest),
    ensures
        r.0@ == path@,
        r.1@ == seq![a, ':'] + rooted@,
        r.2 <==> a == b || a as int == b as int + 32 || b as int == a as int + 32,
        dir is Some <==> dir_of_rest is Some,
        dir is Some ==> dir->0@ == seq![a, ':'] + dir_of_rest->0@,
{
    let style = PathStyle::Windows;
    assert(has_drive(path@) && has_drive(other@));
    assert(!has_drive(rooted@));
    lemma_no_share(rooted@);
    assert(path@.take(2) == seq![a, ':']);
    assert(path@.skip(2) == rest);
    assert(other@.skip(2) == rest);
    lemma_slashed_stays(path@, rest, a);
    lemma_slashed_stays(other@, rest, b);
    let x = os_components(style, path@);
    let y = os_components(style, other@);
    assert(x == seq![seq![upper(a), ':']] + components(rest));
    assert(y == seq![seq![upper(b), ':']] + components(rest));
    assert(upper(a) == upper(b) <==> (a == b || a as int == b as int + 32 || b as int == a as int
        + 32)) by {
        lemma_upper(a, b);
    }
    if x == y {
        assert(x[0] == y[0]);
        assert(seq![upper(a), ':'][0] == seq![upper(b), ':'][0]);
    }
}

proof fn lemma_upper(a: char, b: char)
    requires
        'a' <= a <= 'z' || 'A' <= a <= 'Z',
        'a' <= b <= 'z' || 'A' <= b <= 'Z',
    ensures
        upper(a) == upper(b) <==> (a == b || a as int == b as int + 32 || b as int == a as int + 32),
{
    let x = upper(a);
    let y = upper(b);
    assert(x as int == if 'a' <= a <= 'z' {
        a as int - 32
    } else {
        a as int
    });
    assert(y as int == if 'a' <= b <= 'z' {
        b as int - 32
    } else {
        b as int
    });
    if x as int == y as int {
        assert(x == y);
    }
    if a as int == b as int {
        assert(a == b);
    }
}

proof fn lemma_slashed_stays(path: Seq<char>, rest: Seq<char>, a: char)
    requires
        path == seq![a, ':'] + rest,
        a != '\\',
        !rest.contains('\\'),
    ensures
        slashed(PathStyle::Windows, path) == path,
{
    assert forall|i: int| 0 <= i < path.len() implies replaced(path, '\\', '/')[i] == path[i] by {
        if 2 <= i {
            assert(path[i] == rest[i - 2]);
            assert(rest.contains(rest[i - 2]));
        }
    }
    assert(replaced(path, '\\', '/') == path);
}

/// A dot in front of a name begins no extension; a name that is read off a path with slashes at
/// its end is the one without them; and `..` is no name.
pub proof fn hidden_names_have_no_extension(
    dir: Seq<char>,
    name: Seq<char>,
    hidden: &str,
    ext: &str,
    path: &str,
    slashed_path: &str,
    up: &str,
    r: (Option<String>, String, Option<String>, Option<String>, Option<String>),
)
    requires
        0 < name.len(),
        !name.contains('.'),
        !name.contains('/'),
        hidden@ == dir + seq!['/', '.'] + name,
        0 < path@.len(),
        slashed_path@ == path@ + seq!['/'],
        up@ == dir + seq!['/', '.', '.'],
        call_ensures(path_extension, (hidden,), r.0),
        call_ensures(path_with_extension, (hidden, ext), r.1),
        call_ensures(path_file_name, (path,), r.2),
        call_ensures(path_file_name, (slashed_path,), r.3),
        call_ensures(path_file_name, (up,), r.4),
    ensures
        r.0 is None,
        ext@.len() == 0 ==> r.1@ == hidden@,
        0 < ext@.len() ==> r.1@ == hidden@ + seq!['.'] + ext@,
        r.2 is Some <==> r.3 is Some,
        r.2 is Some ==> r.2->0@ == r.3->0@,
        r.4 is None,
{
    lemma_empty_piece_at_the_end(path@);
    let dotted = seq!['.'] + name;
    assert(hidden@ == dir + seq!['/'] + dotted);
    assert(!dotted.contains('/')) by {
        if dotted.contains('/') {
            let i = choose|i: int| 0 <= i < dotted.len() && dotted[i] == '/';
            assert(name[i - 1] == '/');
        }
    }
    lemma_split_concat(dir, dotted, '/');
    lemma_split_one(dotted, '/');
    lemma_split_len(dir, '/');
    let pieces = split(hidden@, '/');
    let n = pieces.len() as int;
    assert(pieces[n - 1] == dotted);
    assert(1 < dotted.len());
    assert(name.contains(name[0]));
    assert(dotted[1] == name[0]);
    assert(seq!['.'].len() == 1 && seq!['/'].len() == 1 && seq!['.', '.'][1] == '.');
    assert(is_name(dotted));
    assert(counts(pieces, n - 1));
    assert(counted(pieces, n).last() == dotted);
    assert(components(hidden@).last() == dotted);
    lemma_hidden_dot(name);
    assert(last_dot(dotted) == 0);
    assert(last_counted(pieces, n) == n - 1);
    assert(pieces.take(n) == pieces);
    lemma_join_split(hidden@, '/');
    assert(trimmed(hidden@) == hidden@);
    assert(hidden@.take(hidden@.len() as int) == hidden@);
    assert(hidden@.push('.') + ext@ == hidden@ + seq!['.'] + ext@);
    let dots = seq!['.', '.'];
    assert(up@ == dir + seq!['/'] + dots);
    assert(!dots.contains('/'));
    lemma_split_concat(dir, dots, '/');
    lemma_split_one(dots, '/');
    let ups = split(up@, '/');
    let m = ups.len() as int;
    assert(ups[m - 1] == dots);
    assert(dots.len() == 2);
    assert(counts(ups, m - 1));
    assert(components(up@).last() == dots);
}

proof fn lemma_hidden_dot(name: Seq<char>)
    requires
        !name.contains('.'),
    ensures
        last_dot(seq!['.'] + name) == 0,
    decreases name.len(),
{
    let dotted = seq!['.'] + name;
    if 0 < name.len() {
        let before = name.drop_last();
        assert(!before.contains('.')) by {
            if before.contains('.') {
                let i = choose|i: int| 0 <= i < before.len() && before[i] == '.';
                assert(name[i] == '.');
            }
        }
        assert(name.contains(name[name.len() - 1]));
        assert(dotted.drop_last() == seq!['.'] + before);
        assert(dotted.last() == name[name.len() - 1]);
        lemma_hidden_dot(before);
    } else {
        assert(dotted.last() == '.');
        assert(dotted.len() == 1);
    }
}

/// A `.` in front of a path is a component of it, so that `./a` is another path than `a`.
pub proof fn leading_dot_is_a_component(
    path: &str,
    dotted: &str,
    all: Vec<String>,
    same: bool,
)
    requires
        is_tidy(path@),
        dotted@ == seq!['.', '/'] + path@,
        call_ensures(path_components, (dotted,), all),
        call_ensures(path_same, (PathStyle::Unix, path, dotted), same),
    ensures
        texts(all@) == seq![seq!['.']] + split(path@, '/'),
        !same,
{
    let dot = seq!['.'];
    let names = split(path@, '/');
    assert(dotted@ == dot + seq!['/'] + path@);
    tidy_paths_have_their_names(dot, path@);
    assert(!dot.contains('/'));
    lemma_split_one(dot, '/');
    assert(components(dot) == seq![dot]) by {
        reveal_with_fuel(counted, 2);
        assert(split(dot, '/')[0] == dot);
        assert(!is_rooted(dot));
    }
    let longer = seq![dot] + names;
    assert(longer.len() == names.len() + 1);
}

/// On Windows a slash is written for each backslash, and everything else stays. A path from the
/// root stays on the share of the base.
pub proof fn shares_stay_on_windows(
    server: Seq<char>,
    share: Seq<char>,
    below: Seq<char>,
    base: &str,
    rooted: &str,
    r: String,
    path: &str,
    written: String,
)
    requires
        0 < server.len() && !server.contains('/'),
        0 < share.len() && !share.contains('/'),
        base@ == seq!['/', '/'] + server + seq!['/'] + share + seq!['/'] + below,
        0 < rooted@.len(),
        rooted@[0] == '/',
        1 < rooted@.len() ==> rooted@[1] != '/',
        call_ensures(path_join_in, (PathStyle::Windows, base, rooted), r),
        call_ensures(path_slashed, (PathStyle::Windows, path), written),
    ensures
        r@ == seq!['/', '/'] + server + seq!['/'] + share + rooted@,
        written@.len() == path@.len(),
        forall|i: int|
            0 <= i < path@.len() ==> #[trigger] written@[i] == if path@[i] == '\\' {
                '/'
            } else {
                path@[i]
            },
{
    lemma_no_share(rooted@);
    assert(!has_drive(rooted@));
    let empty = Seq::<char>::empty();
    let root = empty + seq!['/'] + empty;
    let host = root + seq!['/'] + server;
    let whole = host + seq!['/'] + share;
    lemma_split_one(empty, '/');
    lemma_split_one(server, '/');
    lemma_split_one(share, '/');
    lemma_split_concat(empty, empty, '/');
    lemma_split_concat(root, server, '/');
    lemma_split_concat(host, share, '/');
    lemma_split_concat(whole, below, '/');
    lemma_split_len(below, '/');
    assert(base@ == whole + seq!['/'] + below);
    let pieces = split(base@, '/');
    assert(pieces[0] == empty && pieces[1] == empty && pieces[2] == server && pieces[3] == share);
    assert(!has_drive(base@));
    assert(share_len(base@) == whole.len());
    assert(base@.take(whole.len() as int) == whole);
    assert(whole + rooted@ == seq!['/', '/'] + server + seq!['/'] + share + rooted@);
}

proof fn lemma_counted_behind(front: Seq<Seq<char>>, rest: Seq<Seq<char>>, n: int)
    requires
        0 < front.len(),
        0 <= n <= rest.len(),
    ensures
        counted(front + rest, front.len() + n) == counted(front, front.len() as int) + rest.take(
            n,
        ).filter(|piece: Seq<char>| 0 < piece.len() && piece != seq!['.']),
    decreases n,
{
    reveal(Seq::filter);
    let keep = |piece: Seq<char>| 0 < piece.len() && piece != seq!['.'];
    let all = front + rest;
    if n == 0 {
        lemma_counted_prefix(front, rest, front.len() as int);
        assert(rest.take(0).filter(keep) == Seq::<Seq<char>>::empty());
    } else {
        lemma_counted_behind(front, rest, n - 1);
        assert(all[front.len() + n - 1] == rest[n - 1]);
        assert(rest.take(n).drop_last() == rest.take(n - 1));
        assert(rest.take(n).last() == rest[n - 1]);
    }
}

/// A slash that is written twice within a path is as good as one, and so is a `.` between two
/// slashes.
pub proof fn repeated_slashes_make_no_other_path(
    a: Seq<char>,
    b: Seq<char>,
    path: &str,
    doubled: &str,
    dotted: &str,
    r: (bool, bool),
)
    requires
        0 < a.len(),
        path@ == a + seq!['/'] + b,
        doubled@ == a + seq!['/', '/'] + b,
        dotted@ == a + seq!['/', '.', '/'] + b,
        call_ensures(path_same, (PathStyle::Unix, path, doubled), r.0),
        call_ensures(path_same, (PathStyle::Unix, path, dotted), r.1),
    ensures
        r.0,
        r.1,
{
    reveal(Seq::filter);
    let keep = |piece: Seq<char>| 0 < piece.len() && piece != seq!['.'];
    let empty = Seq::<char>::empty();
    let dot = seq!['.'];
    let front = split(a, '/');
    let rest = split(b, '/');
    assert(!dot.contains('/'));
    lemma_split_len(a, '/');
    lemma_split_one(empty, '/');
    lemma_split_one(dot, '/');
    lemma_split_concat(a, b, '/');
    assert(doubled@ == a + seq!['/'] + (empty + seq!['/'] + b));
    assert(dotted@ == a + seq!['/'] + (dot + seq!['/'] + b));
    lemma_split_concat(empty, b, '/');
    lemma_split_concat(dot, b, '/');
    lemma_split_concat(a, empty + seq!['/'] + b, '/');
    lemma_split_concat(a, dot + seq!['/'] + b, '/');
    let one = seq![empty] + rest;
    let two = seq![dot] + rest;
    lemma_counted_behind(front, rest, rest.len() as int);
    lemma_counted_behind(front, one, one.len() as int);
    lemma_counted_behind(front, two, two.len() as int);
    assert(rest.take(rest.len() as int) == rest);
    assert(one.take(one.len() as int) == one);
    assert(two.take(two.len() as int) == two);
    lemma_filter_first(empty, rest, keep);
    lemma_filter_first(dot, rest, keep);
    assert(is_rooted(path@) == is_rooted(a));
    assert(is_rooted(doubled@) == is_rooted(a));
    assert(is_rooted(dotted@) == is_rooted(a));
}

proof fn lemma_filter_first<A>(first: A, rest: Seq<A>, keep: spec_fn(A) -> bool)
    requires
        !keep(first),
    ensures
        (seq![first] + rest).filter(keep) == rest.filter(keep),
    decreases rest.len(),
{
    reveal(Seq::filter);
    let all = seq![first] + rest;
    if rest.len() == 0 {
        assert(all.drop_last().len() == 0);
        assert(all.drop_last().filter(keep) == Seq::<A>::empty());
        assert(all.last() == first);
    } else {
        lemma_filter_first(first, rest.drop_last(), keep);
        assert(all.drop_last() == seq![first] + rest.drop_last());
        assert(all.last() == rest.last());
    }
}

/// The empty path and the root have no parent. A slash at the end of a path makes no difference
/// to its parent. On Unix there is one kind of parent. A path without a file name gets no
/// extension.
pub proof fn roots_have_no_parent(
    dir: Seq<char>,
    last: Seq<char>,
    name: Seq<char>,
    path: &str,
    r: Option<String>,
    in_style: Option<String>,
    file: Option<String>,
    ext: &str,
    changed: String,
)
    requires
        call_ensures(path_parent, (path,), r),
        call_ensures(path_parent_in, (PathStyle::Unix, path), in_style),
        call_ensures(path_file_name, (path,), file),
        call_ensures(path_with_extension, (path, ext), changed),
    ensures
        path@.len() == 0 ==> r is None,
        path@ == seq!['/'] ==> r is None,
        0 < last.len() && !last.contains('/') && last != seq!['.'] && 0 < name.len()
            && !name.contains('/') && name != seq!['.'] && path@ == dir + seq!['/'] + last + seq![
            '/',
        ] + name + seq!['/'] ==> r is Some && r->0@ == dir + seq!['/'] + last,
        in_style is Some <==> r is Some,
        r is Some ==> in_style->0@ == r->0@,
        file is None ==> changed@ == path@,
{
    let slash = seq!['/'];
    let empty = Seq::<char>::empty();
    let pieces = split(path@, '/');
    let n = pieces.len() as int;
    reveal_with_fuel(last_counted, 4);
    lemma_split_one(empty, '/');
    if path@.len() == 0 {
        assert(path@ == empty);
        assert(pieces[0] == empty);
    }
    if path@ == slash {
        assert(path@ == empty + slash + empty);
        lemma_split_concat(empty, empty, '/');
        assert(pieces[0] == empty && pieces[1] == empty);
    }
    if 0 < last.len() && !last.contains('/') && last != seq!['.'] && 0 < name.len()
        && !name.contains('/') && name != seq!['.'] && path@ == dir + slash + last + slash + name
        + slash {
        let front = dir + slash + last;
        let whole = front + slash + name;
        assert(path@ == whole + slash + empty);
        lemma_split_concat(whole, empty, '/');
        lemma_split_concat(front, name, '/');
        lemma_split_concat(dir, last, '/');
        lemma_split_one(last, '/');
        lemma_split_one(name, '/');
        lemma_split_len(dir, '/');
        assert(pieces == split(dir, '/') + seq![last] + seq![name] + seq![empty]);
        assert(pieces[n - 1] == empty);
        assert(pieces[n - 2] == name);
        assert(pieces[n - 3] == last);
        assert(last_counted(pieces, n) == n - 2);
        assert(last_counted(pieces, n - 2) == n - 3);
        assert(pieces.take(n - 2) == split(front, '/'));
        lemma_join_split(front, '/');
    }
    assert(path@.skip(0) == path@);
    assert(path@.take(0) == empty);
    if r is Some {
        assert(empty + r->0@ == r->0@);
    }
}

/// A slash at the end of a path makes no difference to its extension, and is gone with a changed
/// one.
pub proof fn slashes_behind_an_extension_are_dropped(
    path: &str,
    slashed_path: &str,
    ext: &str,
    r: (Option<String>, Option<String>, String, String),
)
    requires
        0 < path@.len(),
        slashed_path@ == path@ + seq!['/'],
        call_ensures(path_extension, (path,), r.0),
        call_ensures(path_extension, (slashed_path,), r.1),
        call_ensures(path_with_extension, (path, ext), r.2),
        call_ensures(path_with_extension, (slashed_path, ext), r.3),
    ensures
        r.0 is Some <==> r.1 is Some,
        r.0 is Some ==> r.0->0@ == r.1->0@,
        r.0 is Some ==> r.2@ == r.3@,
{
    lemma_empty_piece_at_the_end(path@);
    let empty = Seq::<char>::empty();
    let pieces = split(path@, '/');
    let n = pieces.len() as int;
    assert(slashed_path@ == path@ + seq!['/'] + empty);
    lemma_split_concat(path@, empty, '/');
    lemma_split_one(empty, '/');
    let all = pieces + seq![empty];
    assert(split(slashed_path@, '/') == all);
    assert(all[n] == empty);
    lemma_last_counted_prefix(pieces, seq![empty], n);
    lemma_counted_last(pieces, n);
    assert(last_counted(all, n + 1) == last_counted(pieces, n));
    let k = last_counted(pieces, n) + 1;
    assert(all.take(k) == pieces.take(k));
}

proof fn lemma_last_counted_prefix(pieces: Seq<Seq<char>>, more: Seq<Seq<char>>, n: int)
    requires
        0 <= n <= pieces.len(),
    ensures
        last_counted(pieces + more, n) == last_counted(pieces, n),
    decreases n,
{
    if 0 < n {
        lemma_last_counted_prefix(pieces, more, n - 1);
        assert((pieces + more)[n - 1] == pieces[n - 1]);
    }
}

/// A portable path has the same components on Unix and on Windows, and is joined in the same way.
pub proof fn portable_paths_have_no_style(style: PathStyle, base: Seq<char>, path: Seq<char>)
    requires
        is_portable(base),
        is_portable(path),
    ensures
        os_components(style, path) == components(path),
        joined_in(style, base, path) == joined(base, path),
{
    if style is Windows {
        lemma_portable_components(path);
        lemma_portable_prefix(path);
        lemma_portable_prefix(base);
        assert(2 <= base.len() ==> base.contains(base[1]));
        if is_rooted(path) {
            assert(base.take(0) + path == path);
        }
    }
}

proof fn lemma_portable_prefix(path: Seq<char>)
    requires
        is_portable(path),
    ensures
        prefix_len(PathStyle::Windows, path) == 0,
{
    assert(2 <= path.len() ==> path.contains(path[1]));
    if 0 < path.len() && path[0] == '/' {
        lemma_no_share(path);
    } else {
        lemma_first_piece(path, '/');
        if path.len() == 0 {
            lemma_split_one(path, '/');
        }
    }
}

} // verus!

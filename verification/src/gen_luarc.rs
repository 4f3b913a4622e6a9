//! The `.luarc.json` of a workspace, which tells a language server where the libraries are.

use crate::path::are_slash_texts;
use crate::path_order::{path_le, sort_paths, sorted_paths, sorted_paths_are_the_paths};
use crate::slash_path::{
    diff_paths, is_clean, is_portable, is_relative_path, is_slash_text_in, is_tidy,
    relative_path_is_the_path_below, slash_text, PathStyle,
};
use crate::text::{concat, copy, opt_text, opt_texts, starts_with, texts};
use vstd::prelude::*;

verus! {

/// Why the `.luarc.json` could not be written.
#[derive(Debug)]
pub enum GenLuaRcError {
    Workspace(String),
    WorkspaceTree(String),
    Serialize(String),
    Deserialize(String),
    /// The path, and why it could not be written
    Write(String, String),
}

impl GenLuaRcError {
    /// What the error says.
    pub open spec fn message(&self) -> Seq<char> {
        match self {
            GenLuaRcError::Workspace(text) => text@,
            GenLuaRcError::WorkspaceTree(text) => text@,
            GenLuaRcError::Serialize(text) => "failed to serialize luarc content:\n"@ + text@,
            GenLuaRcError::Deserialize(text) => "failed to deserialize luarc content:\n"@ + text@,
            GenLuaRcError::Write(path, text) => "failed to write "@ + path@ + ":\n"@ + text@,
        }
    }

    /// What the error says.
    pub fn to_message(&self) -> (r: String)
        ensures
            r@ == self.message(),
    {
        match self {
            GenLuaRcError::Workspace(text) | GenLuaRcError::WorkspaceTree(text) => copy(
                text.as_str(),
            ),
            GenLuaRcError::Serialize(text) => concat(
                "failed to serialize luarc content:\n",
                text.as_str(),
            ),
            GenLuaRcError::Deserialize(text) => concat(
                "failed to deserialize luarc content:\n",
                text.as_str(),
            ),
            GenLuaRcError::Write(path, text) => concat(
                concat(concat("failed to write ", path.as_str()).as_str(), ":\n").as_str(),
                text.as_str(),
            ),
        }
    }
}

/// A `.luarc.json`, with the settings that are not of interest here.
#[derive(Debug, PartialEq)]
pub struct LuaRC<O> {
    pub other: O,
    pub workspace: LuaRcWorkspace<O>,
}

/// The settings of the workspace in a `.luarc.json`.
#[derive(Debug, PartialEq)]
pub struct LuaRcWorkspace<O> {
    pub other: O,
    pub library: Vec<String>,
}

/// The directory of the sources of an installed rock.
#[derive(Debug)]
pub struct LibraryDir {
    pub path: String,
    /// Whether there is a directory at the path
    pub is_dir: bool,
}

/// The library is below the directory of this package manager.
pub open spec fn is_lux_library(path: Seq<char>) -> bool {
    ".lux/"@.is_prefix_of(path)
}

/// The libraries that are not below the directory of this package manager, in order.
pub open spec fn other_libraries(library: Seq<Seq<char>>) -> Seq<Seq<char>>
    decreases library.len(),
{
    if library.len() == 0 {
        Seq::empty()
    } else if is_lux_library(library.last()) {
        other_libraries(library.drop_last())
    } else {
        other_libraries(library.drop_last()).push(library.last())
    }
}

/// The libraries that are not below the directory of this package manager, in order.
fn retain_others(library: Vec<String>) -> (r: Vec<String>)
    ensures
        texts(r@) == other_libraries(texts(library@)),
{
    let ghost all = texts(library@);
    let mut r: Vec<String> = Vec::new();
    assert(texts(r@) == other_libraries(all.take(0)));
    for path in it: library
        invariant
            texts(it.seq()) == all,
            texts(r@) == other_libraries(all.take(it.index())),
    {
        let ghost i = it.index();
        let ghost before = r@;
        proof {
            assert(all[i] == path@);
            assert(all.take(i + 1).drop_last() == all.take(i));
        }
        if !starts_with(path.as_str(), ".lux/") {
            r.push(path);
            assert(texts(r@) == texts(before).push(path@));
        }
    }
    assert(all.take(all.len() as int) == all);
    r
}

/// `r` is `luarc` with the paths `extra`, which are written as `added`, as the libraries below the
/// directory of this package manager.
pub open spec fn is_updated<O>(
    style: PathStyle,
    luarc: LuaRC<O>,
    extra: Seq<Seq<char>>,
    added: Seq<Seq<char>>,
    r: LuaRC<O>,
) -> bool {
    &&& r.other == luarc.other
    &&& r.workspace.other == luarc.workspace.other
    &&& are_slash_texts(style, extra, added)
    &&& texts(r.workspace.library@) == other_libraries(texts(luarc.workspace.library@)) + added
}

/// The `.luarc.json` with `extra_paths` as the libraries below the directory of this package
/// manager. All else stays as it is.
pub fn update_luarc_content<O>(luarc: LuaRC<O>, extra_paths: &Vec<String>, style: PathStyle) -> (r:
    LuaRC<O>)
    ensures
        exists|added: Seq<Seq<char>>| #[trigger]
            is_updated(style, luarc, texts(extra_paths@), added, r),
{
    let mut library = retain_others(luarc.workspace.library);
    let ghost kept = texts(library@);
    let ghost parts = texts(extra_paths@);
    let ghost mut added: Seq<Seq<char>> = Seq::empty();
    let mut i: usize = 0;
    assert(kept + added == kept);
    while i < extra_paths.len()
        invariant
            i <= extra_paths@.len(),
            parts == texts(extra_paths@),
            texts(library@) == kept + added,
            added.len() == i,
            forall|k: int| 0 <= k < i ==> is_slash_text_in(style, parts[k], #[trigger] added[k]),
        decreases extra_paths@.len() - i,
    {
        let ghost before = library@;
        let path = slash_text(style, extra_paths[i].as_str());
        proof {
            assert(parts[i as int] == extra_paths@[i as int]@);
            added = added.push(path@);
        }
        library.push(path);
        assert(texts(library@) == texts(before).push(path@));
        i = i + 1;
    }
    assert(are_slash_texts(style, parts, added));
    let r = LuaRC {
        other: luarc.other,
        workspace: LuaRcWorkspace { other: luarc.workspace.other, library },
    };
    assert(is_updated(style, luarc, texts(extra_paths@), added, r));
    r
}

proof fn lemma_other_libraries_of_both(first: Seq<Seq<char>>, second: Seq<Seq<char>>)
    ensures
        other_libraries(first + second) == other_libraries(first) + other_libraries(second),
    decreases second.len(),
{
    if second.len() == 0 {
        assert(first + second == first);
        assert(other_libraries(first) + other_libraries(second) == other_libraries(first));
    } else {
        lemma_other_libraries_of_both(first, second.drop_last());
        assert((first + second).drop_last() == first + second.drop_last());
        assert(other_libraries(first + second) == other_libraries(first) + other_libraries(second));
    }
}

proof fn lemma_no_others(library: Seq<Seq<char>>)
    requires
        forall|i: int| 0 <= i < library.len() ==> is_lux_library(#[trigger] library[i]),
    ensures
        other_libraries(library) == Seq::<Seq<char>>::empty(),
    decreases library.len(),
{
    if 0 < library.len() {
        assert(is_lux_library(library[library.len() - 1]));
        lemma_no_others(library.drop_last());
    }
}

/// The libraries that are left are those of before that are not below the directory of this
/// package manager.
pub proof fn other_libraries_are_kept(library: Seq<Seq<char>>)
    ensures
        forall|path: Seq<char>| #[trigger]
            other_libraries(library).contains(path) <==> library.contains(path) && !is_lux_library(
                path,
            ),
        other_libraries(other_libraries(library)) == other_libraries(library),
    decreases library.len(),
{
    if 0 < library.len() {
        let before = library.drop_last();
        let last = library.last();
        other_libraries_are_kept(before);
        assert forall|path: Seq<char>| #[trigger]
            other_libraries(library).contains(path) <==> library.contains(path) && !is_lux_library(
                path,
            ) by {
            let kept = other_libraries(library);
            let kept_before = other_libraries(before);
            if kept.contains(path) {
                let i = choose|i: int| 0 <= i < kept.len() && kept[i] == path;
                if i < kept_before.len() {
                    assert(kept_before[i] == path);
                    assert(other_libraries(before).contains(path));
                    let k = choose|k: int| 0 <= k < before.len() && before[k] == path;
                    assert(library[k] == path);
                } else {
                    assert(library[library.len() - 1] == path);
                }
            }
            if library.contains(path) && !is_lux_library(path) {
                let k = choose|k: int| 0 <= k < library.len() && library[k] == path;
                if k < before.len() {
                    assert(before[k] == path);
                    assert(other_libraries(before).contains(path));
                    let i = choose|i: int| 0 <= i < kept_before.len() && kept_before[i] == path;
                    assert(kept[i] == path);
                } else {
                    assert(kept[kept.len() - 1] == path);
                }
            }
        }
        if !is_lux_library(last) {
            assert(other_libraries(library).drop_last() == other_libraries(before));
        }
    }
}

/// Libraries that were added are replaced by those that are added later, where they are below the
/// directory of this package manager. The others stay.
pub proof fn added_libraries_are_replaced(
    library: Seq<Seq<char>>,
    first: Seq<Seq<char>>,
    second: Seq<Seq<char>>,
)
    requires
        forall|i: int| 0 <= i < first.len() ==> is_lux_library(#[trigger] first[i]),
    ensures
        other_libraries(other_libraries(library) + first) + second == other_libraries(library)
            + second,
{
    other_libraries_are_kept(library);
    lemma_other_libraries_of_both(other_libraries(library), first);
    lemma_no_others(first);
    assert(other_libraries(other_libraries(library) + first) == other_libraries(library));
}

/// Updating again with the same libraries changes nothing, where they are below the directory of
/// this package manager. For Windows each of them is a clean path, or is written the second time as
/// it was the first time.
pub proof fn updating_again_changes_nothing<O>(
    style: PathStyle,
    luarc: LuaRC<O>,
    extra: Seq<Seq<char>>,
    added: Seq<Seq<char>>,
    first: LuaRC<O>,
    added_again: Seq<Seq<char>>,
    second: LuaRC<O>,
)
    requires
        is_updated(style, luarc, extra, added, first),
        is_updated(style, first, extra, added_again, second),
        forall|i: int| 0 <= i < added.len() ==> is_lux_library(#[trigger] added[i]),
        forall|i: int|
            0 <= i < extra.len() && style == PathStyle::Windows ==> is_clean(#[trigger] extra[i])
                || added_again[i] == added[i],
    ensures
        second.other == first.other,
        second.workspace.other == first.workspace.other,
        texts(second.workspace.library@) == texts(first.workspace.library@),
{
    assert forall|i: int| 0 <= i < extra.len() implies added_again[i] == added[i] by {
        assert(style == PathStyle::Windows ==> is_clean(extra[i]) || added_again[i] == added[i]);
        assert(is_slash_text_in(style, extra[i], added[i]));
        assert(is_slash_text_in(style, extra[i], added_again[i]));
    }
    assert(added_again == added);
    added_libraries_are_replaced(texts(luarc.workspace.library@), added, added);
}

/// The content to start from: that of the file, or that of an empty one where it cannot be read.
pub fn previous_content(content: Option<String>) -> (r: String)
    ensures
        r@ == match content {
            Some(content) => content@,
            None => "{}"@,
        },
{
    match content {
        Some(content) => content,
        None => copy("{}"),
    }
}

/// The directories that are there.
pub open spec fn existing_dirs(dirs: Seq<LibraryDir>) -> Seq<Seq<char>>
    decreases dirs.len(),
{
    if dirs.len() == 0 {
        Seq::empty()
    } else if dirs.last().is_dir {
        existing_dirs(dirs.drop_last()).push(dirs.last().path@)
    } else {
        existing_dirs(dirs.drop_last())
    }
}

/// The texts that are there.
pub open spec fn present(all: Seq<Option<Seq<char>>>) -> Seq<Seq<char>>
    decreases all.len(),
{
    if all.len() == 0 {
        Seq::empty()
    } else {
        match all.last() {
            Some(text) => present(all.drop_last()).push(text),
            None => present(all.drop_last()),
        }
    }
}

/// The relative paths from the root of the workspace to the directories.
pub open spec fn are_relative_dirs(
    root: Seq<char>,
    dirs: Seq<Seq<char>>,
    diffs: Seq<Option<Seq<char>>>,
) -> bool {
    &&& diffs.len() == dirs.len()
    &&& forall|i: int| 0 <= i < dirs.len() ==> is_relative_path(dirs[i], root, #[trigger] diffs[i])
}

/// The libraries in order, where `diffs` has the relative path to each, as far as there is one.
pub fn sorted_libraries(diffs: Vec<Option<String>>) -> (r: Vec<String>)
    ensures
        texts(r@) == sorted_paths(present(opt_texts(diffs@))),
{
    let ghost all = opt_texts(diffs@);
    let mut r: Vec<String> = Vec::new();
    assert(texts(r@) == present(all.take(0)));
    for diff in it: diffs
        invariant
            opt_texts(it.seq()) == all,
            texts(r@) == present(all.take(it.index())),
    {
        let ghost i = it.index();
        let ghost before = r@;
        proof {
            assert(all[i] == opt_text(diff));
            assert(all.take(i + 1).drop_last() == all.take(i));
        }
        if let Some(path) = diff {
            r.push(path);
            assert(texts(r@) == texts(before).push(path@));
        }
    }
    assert(all.take(all.len() as int) == all);
    sort_paths(r)
}

/// Appends the relative paths from the root of the workspace to the directories that are there.
fn append_relative(root: &str, dirs: &Vec<LibraryDir>, diffs: &mut Vec<Option<String>>, earlier: Ghost<
    Seq<Seq<char>>,
>)
    requires
        are_relative_dirs(root@, earlier@, opt_texts(old(diffs)@)),
    ensures
        are_relative_dirs(root@, earlier@ + existing_dirs(dirs@), opt_texts(final(diffs)@)),
{
    let mut i: usize = 0;
    assert(earlier@ + existing_dirs(dirs@.take(0)) == earlier@);
    while i < dirs.len()
        invariant
            i <= dirs@.len(),
            are_relative_dirs(
                root@,
                earlier@ + existing_dirs(dirs@.take(i as int)),
                opt_texts(diffs@),
            ),
        decreases dirs@.len() - i,
    {
        let ghost before = diffs@;
        let ghost found = earlier@ + existing_dirs(dirs@.take(i as int));
        assert(dirs@.take(i + 1).drop_last() == dirs@.take(i as int));
        if dirs[i].is_dir {
            let diff = diff_paths(dirs[i].path.as_str(), root);
            diffs.push(diff);
            proof {
                let now = earlier@ + existing_dirs(dirs@.take(i + 1));
                assert(now == found.push(dirs@[i as int].path@));
                assert(opt_texts(diffs@) == opt_texts(before).push(opt_text(diff)));
                assert forall|k: int| 0 <= k < now.len() implies is_relative_path(
                    now[k],
                    root@,
                    #[trigger] opt_texts(diffs@)[k],
                ) by {
                    if k < found.len() {
                        assert(opt_texts(before)[k] == opt_texts(diffs@)[k]);
                    }
                }
            }
        }
        i = i + 1;
    }
    assert(dirs@.take(dirs@.len() as int) == dirs@);
}

/// The libraries of the workspace: the directories of the dependencies and of the test
/// dependencies that are there, relative to the root of the workspace and in order.
pub fn library_dirs(
    root: &str,
    dependencies: &Vec<LibraryDir>,
    test_dependencies: &Vec<LibraryDir>,
) -> (r: Vec<String>)
    ensures
        exists|diffs: Seq<Option<Seq<char>>>| #[trigger]
            are_relative_dirs(
                root@,
                existing_dirs(dependencies@) + existing_dirs(test_dependencies@),
                diffs,
            ) && texts(r@) == sorted_paths(present(diffs)),
{
    let mut diffs: Vec<Option<String>> = Vec::new();
    append_relative(root, dependencies, &mut diffs, Ghost(Seq::empty()));
    assert(Seq::<Seq<char>>::empty() + existing_dirs(dependencies@) == existing_dirs(
        dependencies@,
    ));
    append_relative(root, test_dependencies, &mut diffs, Ghost(existing_dirs(dependencies@)));
    sorted_libraries(diffs)
}

proof fn lemma_others_are_filtered(library: Seq<Seq<char>>)
    ensures
        other_libraries(library) == library.filter(|path: Seq<char>| !".lux/"@.is_prefix_of(path)),
    decreases library.len(),
{
    reveal(Seq::filter);
    if 0 < library.len() {
        lemma_others_are_filtered(library.drop_last());
    }
}

/// An update keeps everything else in the file, and all libraries that are not below `.lux`, in
/// their order; those below it are dropped, and the given ones are added behind the others. On
/// Unix they are added as they are given.
pub proof fn only_libraries_of_lux_are_replaced<O>(
    luarc: LuaRC<O>,
    extra_paths: &Vec<String>,
    style: PathStyle,
    r: LuaRC<O>,
)
    requires
        call_ensures(update_luarc_content::<O>, (luarc, extra_paths, style), r),
    ensures
        r.other == luarc.other,
        r.workspace.other == luarc.workspace.other,
        ({
            let kept = texts(luarc.workspace.library@).filter(
                |path: Seq<char>| !".lux/"@.is_prefix_of(path),
            );
            let all = texts(r.workspace.library@);
            &&& all.len() == kept.len() + extra_paths@.len()
            &&& all.take(kept.len() as int) == kept
            &&& style is Unix ==> all == kept + texts(extra_paths@)
            &&& forall|i: int|
                0 <= i < extra_paths@.len() ==> is_slash_text_in(
                    style,
                    (#[trigger] extra_paths@[i])@,
                    all[kept.len() + i],
                )
        }),
{
    let library = texts(luarc.workspace.library@);
    let extra = texts(extra_paths@);
    lemma_others_are_filtered(library);
    let kept = other_libraries(library);
    let added = choose|added: Seq<Seq<char>>| #[trigger] is_updated(style, luarc, extra, added, r);
    let all = texts(r.workspace.library@);
    assert(all == kept + added);
    assert(all.take(kept.len() as int) == kept);
    assert forall|i: int| 0 <= i < extra_paths@.len() implies is_slash_text_in(
        style,
        (#[trigger] extra_paths@[i])@,
        all[kept.len() + i],
    ) by {
        assert(is_slash_text_in(style, extra[i], added[i]));
        assert(extra[i] == extra_paths@[i]@);
        assert(all[kept.len() + i] == added[i]);
    }
    if style is Unix {
        assert forall|i: int| 0 <= i < extra.len() implies added[i] == extra[i] by {
            assert(is_slash_text_in(style, extra[i], added[i]));
        }
        assert(added == extra);
    }
}

/// On Unix, updating twice with libraries below `.lux` is as updating once with the later ones.
pub proof fn later_update_replaces_the_earlier_one<O>(
    luarc: LuaRC<O>,
    first: &Vec<String>,
    second: &Vec<String>,
    once: LuaRC<O>,
    twice: LuaRC<O>,
    direct: LuaRC<O>,
)
    requires
        call_ensures(update_luarc_content::<O>, (luarc, first, PathStyle::Unix), once),
        call_ensures(update_luarc_content::<O>, (once, second, PathStyle::Unix), twice),
        call_ensures(update_luarc_content::<O>, (luarc, second, PathStyle::Unix), direct),
        forall|i: int| 0 <= i < first@.len() ==> ".lux/"@.is_prefix_of((#[trigger] first@[i])@),
    ensures
        texts(twice.workspace.library@) == texts(direct.workspace.library@),
        twice.other == direct.other,
        twice.workspace.other == direct.workspace.other,
{
    only_libraries_of_lux_are_replaced(luarc, first, PathStyle::Unix, once);
    only_libraries_of_lux_are_replaced(once, second, PathStyle::Unix, twice);
    only_libraries_of_lux_are_replaced(luarc, second, PathStyle::Unix, direct);
    let library = texts(luarc.workspace.library@);
    lemma_others_are_filtered(library);
    lemma_others_are_filtered(texts(once.workspace.library@));
    assert forall|i: int| 0 <= i < texts(first@).len() implies is_lux_library(
        #[trigger] texts(first@)[i],
    ) by {
        assert(texts(first@)[i] == first@[i]@);
    }
    added_libraries_are_replaced(library, texts(first@), texts(second@));
}

/// The content of a file that is there is what is updated; without one it is an empty object.
pub proof fn missing_file_is_an_empty_object(content: Option<String>, r: String)
    requires
        call_ensures(previous_content, (content,), r),
    ensures
        content is Some ==> r@ == content->0@,
        content is None ==> r@ == "{}"@,
{
}

proof fn lemma_present(all: Seq<Option<Seq<char>>>)
    ensures
        present(all) == all.filter(|text: Option<Seq<char>>| text is Some).map_values(
            |text: Option<Seq<char>>| text->0,
        ),
    decreases all.len(),
{
    reveal(Seq::filter);
    let some = |text: Option<Seq<char>>| text is Some;
    let value = |text: Option<Seq<char>>| text->0;
    if 0 < all.len() {
        let before = all.drop_last();
        lemma_present(before);
        let kept = before.filter(some);
        assert(kept.push(all.last()).map_values(value) == kept.map_values(value).push(
            value(all.last()),
        ));
    } else {
        assert(all.filter(some).map_values(value) == Seq::<Seq<char>>::empty());
    }
}

/// The libraries are the paths that there are, in the order of paths; none is lost, and none is
/// added.
pub proof fn libraries_are_sorted(diffs: Vec<Option<String>>, r: Vec<String>)
    requires
        call_ensures(sorted_libraries, (diffs,), r),
    ensures
        texts(r@).to_multiset() == opt_texts(diffs@).filter(
            |text: Option<Seq<char>>| text is Some,
        ).map_values(|text: Option<Seq<char>>| text->0).to_multiset(),
        forall|i: int, j: int|
            0 <= i < j < r@.len() ==> path_le((#[trigger] r@[i])@, (#[trigger] r@[j])@),
{
    let all = texts(r@);
    lemma_present(opt_texts(diffs@));
    sorted_paths_are_the_paths(present(opt_texts(diffs@)));
    assert forall|i: int, j: int| 0 <= i < j < r@.len() implies path_le(
        (#[trigger] r@[i])@,
        (#[trigger] r@[j])@,
    ) by {
        assert(all[i] == r@[i]@ && all[j] == r@[j]@);
    }
}

proof fn lemma_existing(dirs: Seq<LibraryDir>, i: int)
    requires
        0 <= i < dirs.len(),
        dirs[i].is_dir,
    ensures
        exists|k: int|
            0 <= k < existing_dirs(dirs).len() && #[trigger] existing_dirs(dirs)[k]
                == dirs[i].path@,
    decreases dirs.len(),
{
    let all = existing_dirs(dirs);
    if i < dirs.len() - 1 {
        let before = dirs.drop_last();
        assert(before[i] == dirs[i]);
        lemma_existing(before, i);
        let less = existing_dirs(before);
        let k = choose|k: int| 0 <= k < less.len() && #[trigger] less[k] == dirs[i].path@;
        assert(all[k] == dirs[i].path@);
    } else {
        assert(all[all.len() - 1] == dirs[i].path@);
    }
}

proof fn lemma_existing_len(dirs: Seq<LibraryDir>)
    ensures
        existing_dirs(dirs).len() == dirs.filter(|dir: LibraryDir| dir.is_dir).len(),
    decreases dirs.len(),
{
    reveal(Seq::filter);
    if 0 < dirs.len() {
        lemma_existing_len(dirs.drop_last());
    }
}

proof fn lemma_present_has(all: Seq<Option<Seq<char>>>, i: int)
    requires
        0 <= i < all.len(),
        all[i] is Some,
    ensures
        present(all).contains(all[i]->0),
    decreases all.len(),
{
    let kept = present(all);
    if i < all.len() - 1 {
        let before = all.drop_last();
        assert(before[i] == all[i]);
        lemma_present_has(before, i);
        let less = present(before);
        let k = choose|k: int| 0 <= k < less.len() && less[k] == all[i]->0;
        assert(kept[k] == all[i]->0);
    } else {
        assert(kept[kept.len() - 1] == all[i]->0);
    }
}

proof fn lemma_present_len(all: Seq<Option<Seq<char>>>)
    ensures
        present(all).len() <= all.len(),
    decreases all.len(),
{
    if 0 < all.len() {
        lemma_present_len(all.drop_last());
    }
}

/// The library directories of the dependencies and of the test dependencies that are there are
/// libraries, by their paths in the workspace and in the order of paths; what is no directory is
/// none.
pub proof fn directories_of_both_are_libraries(
    root: &str,
    dependencies: &Vec<LibraryDir>,
    test_dependencies: &Vec<LibraryDir>,
    r: Vec<String>,
    i: int,
    path: Seq<char>,
)
    requires
        call_ensures(library_dirs, (root, dependencies, test_dependencies), r),
        0 < root@.len() && root@[0] == '/',
        is_portable(root@),
        is_portable(root@ + seq!['/'] + path),
        is_tidy(path),
    ensures
        0 <= i < dependencies@.len() && dependencies@[i].is_dir && dependencies@[i].path@ == root@
            + seq!['/'] + path ==> exists|k: int| 0 <= k < r@.len() && (#[trigger] r@[k])@ == path,
        0 <= i < test_dependencies@.len() && test_dependencies@[i].is_dir
            && test_dependencies@[i].path@ == root@ + seq!['/'] + path ==> exists|k: int|
            0 <= k < r@.len() && (#[trigger] r@[k])@ == path,
        forall|j: int, k: int|
            0 <= j < k < r@.len() ==> path_le((#[trigger] r@[j])@, (#[trigger] r@[k])@),
        r@.len() <= dependencies@.filter(|dir: LibraryDir| dir.is_dir).len()
            + test_dependencies@.filter(|dir: LibraryDir| dir.is_dir).len(),
{
    broadcast use vstd::seq_lib::group_to_multiset_ensures;

    let a = existing_dirs(dependencies@);
    let b = existing_dirs(test_dependencies@);
    let both = a + b;
    let whole = root@ + seq!['/'] + path;
    let diffs = choose|diffs: Seq<Option<Seq<char>>>| #[trigger]
        are_relative_dirs(root@, both, diffs) && texts(r@) == sorted_paths(present(diffs));
    let all = texts(r@);
    let found = present(diffs);
    sorted_paths_are_the_paths(found);
    lemma_existing_len(dependencies@);
    lemma_existing_len(test_dependencies@);
    lemma_present_len(diffs);
    assert(all.len() == found.len()) by {
        assert(all.to_multiset().len() == all.len());
        assert(found.to_multiset().len() == found.len());
    }
    assert(all.len() == r@.len());
    assert forall|j: int, k: int| 0 <= j < k < r@.len() implies path_le(
        (#[trigger] r@[j])@,
        (#[trigger] r@[k])@,
    ) by {
        assert(all[j] == r@[j]@ && all[k] == r@[k]@);
    }
    let first = 0 <= i < dependencies@.len() && dependencies@[i].is_dir && dependencies@[i].path@
        == whole;
    let second = 0 <= i < test_dependencies@.len() && test_dependencies@[i].is_dir
        && test_dependencies@[i].path@ == whole;
    if first || second {
        let n = if first {
            lemma_existing(dependencies@, i);
            choose|n: int| 0 <= n < a.len() && #[trigger] a[n] == whole
        } else {
            lemma_existing(test_dependencies@, i);
            a.len() + choose|n: int| 0 <= n < b.len() && #[trigger] b[n] == whole
        };
        assert(both[n] == whole);
        assert(is_relative_path(both[n], root@, diffs[n]));
        relative_path_is_the_path_below(root@, path, diffs[n]);
        lemma_present_has(diffs, n);
        assert(found.to_multiset().count(path) > 0);
        assert(all.contains(path));
        let k = choose|k: int| 0 <= k < all.len() && all[k] == path;
        assert(r@[k]@ == path);
    }
}

/// An error of the `.luarc.json` says what failed, and why.
pub proof fn luarc_errors_say_what_failed(err: &GenLuaRcError, r: String)
    requires
        call_ensures(GenLuaRcError::to_message, (err,), r),
    ensures
        err is Workspace ==> r@ == err->Workspace_0@,
        err is WorkspaceTree ==> r@ == err->WorkspaceTree_0@,
        err is Serialize ==> r@ == "failed to serialize luarc content:\n"@ + err->Serialize_0@,
        err is Deserialize ==> r@ == "failed to deserialize luarc content:\n"@ + err->Deserialize_0@,
        err is Write ==> r@ == "failed to write "@ + err->Write_0@ + ":\n"@ + err->Write_1@,
{
}

} // verus!

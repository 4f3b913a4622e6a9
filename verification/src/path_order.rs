//! The order of paths: component by component.

use crate::slash_path::{components, is_tidy, path_components, tidy_paths_have_their_names};
use crate::text::{chars_of, lemma_split_one, split, texts};
use vstd::prelude::*;

verus! {

/// The text `a` comes before `b`: at the first character in which they differ, or because `b`
/// goes on.
pub open spec fn text_less(a: Seq<char>, b: Seq<char>) -> bool
    decreases a.len(),
{
    if b.len() == 0 {
        false
    } else if a.len() == 0 {
        true
    } else if a[0] != b[0] {
        a[0] < b[0]
    } else {
        text_less(a.skip(1), b.skip(1))
    }
}

/// The root comes before `.`, that before `..`, and that before names.
pub open spec fn component_rank(component: Seq<char>) -> int {
    if component == seq!['/'] {
        0
    } else if component == seq!['.'] {
        1
    } else if component == seq!['.', '.'] {
        2
    } else {
        3
    }
}

/// The component `a` comes before `b`.
pub open spec fn component_less(a: Seq<char>, b: Seq<char>) -> bool {
    component_rank(a) < component_rank(b) || component_rank(a) == component_rank(b) && text_less(
        a,
        b,
    )
}

/// The components `a` come before `b`: at the first component in which they differ, or because
/// `b` goes on.
pub open spec fn components_less(a: Seq<Seq<char>>, b: Seq<Seq<char>>) -> bool
    decreases a.len(),
{
    if b.len() == 0 {
        false
    } else if a.len() == 0 {
        true
    } else if a[0] != b[0] {
        component_less(a[0], b[0])
    } else {
        components_less(a.skip(1), b.skip(1))
    }
}

/// The path `a` does not come after `b`.
pub open spec fn path_le(a: Seq<char>, b: Seq<char>) -> bool {
    !components_less(components(b), components(a))
}

/// The sorted paths with `path` behind those that do not come after it.
pub open spec fn inserted_path(paths: Seq<Seq<char>>, path: Seq<char>) -> Seq<Seq<char>>
    decreases paths.len(),
{
    if paths.len() == 0 || path_le(paths.last(), path) {
        paths.push(path)
    } else {
        inserted_path(paths.drop_last(), path).push(paths.last())
    }
}

/// The paths in order. Two that are the same keep their order.
pub open spec fn sorted_paths(paths: Seq<Seq<char>>) -> Seq<Seq<char>>
    decreases paths.len(),
{
    if paths.len() == 0 {
        Seq::empty()
    } else {
        inserted_path(sorted_paths(paths.drop_last()), paths.last())
    }
}

/// No path comes before one that stands earlier.
pub open spec fn is_sorted(paths: Seq<Seq<char>>) -> bool {
    forall|i: int, j: int|
        0 <= i < j < paths.len() ==> path_le(#[trigger] paths[i], #[trigger] paths[j])
}

proof fn lemma_text_total(a: Seq<char>, b: Seq<char>)
    ensures
        text_less(a, b) || a == b || text_less(b, a),
        !(text_less(a, b) && text_less(b, a)),
    decreases a.len() + b.len(),
{
    if 0 < a.len() && 0 < b.len() {
        lemma_text_total(a.skip(1), b.skip(1));
        if a[0] == b[0] && a.skip(1) == b.skip(1) {
            assert(a == seq![a[0]] + a.skip(1));
            assert(b == seq![b[0]] + b.skip(1));
        }
    } else if a.len() == 0 && b.len() == 0 {
        assert(a == b);
    }
}

proof fn lemma_text_trans(a: Seq<char>, b: Seq<char>, c: Seq<char>)
    requires
        text_less(a, b),
        text_less(b, c),
    ensures
        text_less(a, c),
    decreases a.len(),
{
    if 0 < a.len() && a[0] == b[0] && b[0] == c[0] {
        lemma_text_trans(a.skip(1), b.skip(1), c.skip(1));
    }
}

proof fn lemma_component_total(a: Seq<char>, b: Seq<char>)
    ensures
        component_less(a, b) || a == b || component_less(b, a),
        !(component_less(a, b) && component_less(b, a)),
        !component_less(a, a),
{
    lemma_text_total(a, b);
    lemma_text_total(a, a);
}

proof fn lemma_component_trans(a: Seq<char>, b: Seq<char>, c: Seq<char>)
    requires
        component_less(a, b),
        component_less(b, c),
    ensures
        component_less(a, c),
{
    if text_less(a, b) && text_less(b, c) {
        lemma_text_trans(a, b, c);
    }
}

proof fn lemma_components_total(a: Seq<Seq<char>>, b: Seq<Seq<char>>)
    ensures
        components_less(a, b) || a == b || components_less(b, a),
        !(components_less(a, b) && components_less(b, a)),
    decreases a.len() + b.len(),
{
    if 0 < a.len() && 0 < b.len() {
        lemma_components_total(a.skip(1), b.skip(1));
        lemma_component_total(a[0], b[0]);
        if a[0] == b[0] && a.skip(1) == b.skip(1) {
            assert(a == seq![a[0]] + a.skip(1));
            assert(b == seq![b[0]] + b.skip(1));
        }
    } else if a.len() == 0 && b.len() == 0 {
        assert(a == b);
    }
}

proof fn lemma_components_trans(a: Seq<Seq<char>>, b: Seq<Seq<char>>, c: Seq<Seq<char>>)
    requires
        components_less(a, b),
        components_less(b, c),
    ensures
        components_less(a, c),
    decreases a.len(),
{
    if 0 < a.len() {
        if a[0] == b[0] && b[0] == c[0] {
            lemma_components_trans(a.skip(1), b.skip(1), c.skip(1));
        } else if a[0] != b[0] && b[0] != c[0] {
            lemma_component_trans(a[0], b[0], c[0]);
            lemma_component_total(a[0], a[0]);
        }
    }
}

/// The order of paths is total.
pub proof fn path_order_is_total(a: Seq<char>, b: Seq<char>)
    ensures
        path_le(a, b) || path_le(b, a),
{
    lemma_components_total(components(a), components(b));
}

/// The order of paths is transitive.
pub proof fn path_order_is_transitive(a: Seq<char>, b: Seq<char>, c: Seq<char>)
    requires
        path_le(a, b),
        path_le(b, c),
    ensures
        path_le(a, c),
{
    let x = components(a);
    let y = components(b);
    let z = components(c);
    lemma_components_total(x, y);
    lemma_components_total(y, z);
    if components_less(z, x) {
        if components_less(x, y) {
            lemma_components_trans(z, x, y);
        }
    }
}

proof fn lemma_inserted(paths: Seq<Seq<char>>, path: Seq<char>)
    requires
        is_sorted(paths),
    ensures
        is_sorted(inserted_path(paths, path)),
        inserted_path(paths, path).to_multiset() == paths.to_multiset().insert(path),
    decreases paths.len(),
{
    broadcast use vstd::seq_lib::group_to_multiset_ensures;

    let now = inserted_path(paths, path);
    if paths.len() == 0 || path_le(paths.last(), path) {
        assert forall|i: int, j: int| 0 <= i < j < now.len() implies path_le(
            #[trigger] now[i],
            #[trigger] now[j],
        ) by {
            if j == paths.len() && i < paths.len() - 1 {
                assert(path_le(paths[i], paths[paths.len() - 1]));
                path_order_is_transitive(paths[i], paths.last(), path);
            }
        }
    } else {
        let before = paths.drop_last();
        let last = paths.last();
        assert forall|i: int, j: int| 0 <= i < j < before.len() implies path_le(
            #[trigger] before[i],
            #[trigger] before[j],
        ) by {
            assert(path_le(paths[i], paths[j]));
        }
        lemma_inserted(before, path);
        let inner = inserted_path(before, path);
        path_order_is_total(last, path);
        assert(before.push(last) == paths);
        assert(now.to_multiset() == paths.to_multiset().insert(path));
        assert forall|i: int| 0 <= i < inner.len() implies path_le(#[trigger] inner[i], last) by {
            assert(inner.to_multiset().contains(inner[i]));
            if inner[i] != path {
                assert(before.to_multiset().contains(inner[i]));
                assert(before.contains(inner[i]));
                let k = choose|k: int| 0 <= k < before.len() && before[k] == inner[i];
                assert(path_le(paths[k], paths[paths.len() - 1]));
            }
        }
    }
}

/// The sorted paths are the paths, and they are in order.
pub proof fn sorted_paths_are_the_paths(paths: Seq<Seq<char>>)
    ensures
        is_sorted(sorted_paths(paths)),
        sorted_paths(paths).to_multiset() == paths.to_multiset(),
    decreases paths.len(),
{
    broadcast use vstd::seq_lib::group_to_multiset_ensures;

    if 0 < paths.len() {
        let before = paths.drop_last();
        sorted_paths_are_the_paths(before);
        lemma_inserted(sorted_paths(before), paths.last());
        assert(before.push(paths.last()) == paths);
    }
}

/// Whether the text `a` comes before `b`.
pub fn text_is_less(a: &str, b: &str) -> (r: bool)
    ensures
        r == text_less(a@, b@),
{
    let left = chars_of(a);
    let right = chars_of(b);
    let mut i: usize = 0;
    assert(a@.skip(0) == a@);
    assert(b@.skip(0) == b@);
    while i < left.len() && i < right.len()
        invariant
            left@ == a@,
            right@ == b@,
            i <= left@.len(),
            i <= right@.len(),
            text_less(a@, b@) == text_less(a@.skip(i as int), b@.skip(i as int)),
        decreases left@.len() - i,
    {
        if left[i] != right[i] {
            return left[i] < right[i];
        }
        proof {
            assert(a@.skip(i as int).skip(1) == a@.skip(i + 1));
            assert(b@.skip(i as int).skip(1) == b@.skip(i + 1));
        }
        i = i + 1;
    }
    i < right.len()
}

/// The rank of a component.
fn rank(component: &str) -> (r: u8)
    ensures
        r == component_rank(component@),
{
    let chars = chars_of(component);
    proof {
        let c = component@;
        assert(seq!['/'].len() == 1 && seq!['.'].len() == 1 && seq!['.', '.'].len() == 2);
        assert(seq!['/'][0] == '/' && seq!['.'][0] == '.');
        assert(seq!['.', '.'][0] == '.' && seq!['.', '.'][1] == '.');
        if c.len() == 1 {
            assert(c == seq![c[0]]);
        }
        if c.len() == 2 {
            assert(c == seq![c[0], c[1]]);
        }
    }
    if chars.len() == 1 && chars[0] == '/' {
        0
    } else if chars.len() == 1 && chars[0] == '.' {
        1
    } else if chars.len() == 2 && chars[0] == '.' && chars[1] == '.' {
        2
    } else {
        3
    }
}

/// Whether the component `a` comes before `b`.
fn component_is_less(a: &str, b: &str) -> (r: bool)
    ensures
        r == component_less(a@, b@),
{
    let left = rank(a);
    let right = rank(b);
    left < right || (left == right && text_is_less(a, b))
}

/// Whether the path `a` does not come after `b`.
pub fn path_is_le(a: &str, b: &str) -> (r: bool)
    ensures
        r == path_le(a@, b@),
{
    let left = path_components(b);
    let right = path_components(a);
    let ghost x = components(b@);
    let ghost y = components(a@);
    let mut i: usize = 0;
    assert(x.skip(0) == x);
    assert(y.skip(0) == y);
    while i < left.len() && i < right.len()
        invariant
            texts(left@) == x,
            texts(right@) == y,
            x == components(b@),
            y == components(a@),
            i <= left@.len(),
            i <= right@.len(),
            components_less(x, y) == components_less(x.skip(i as int), y.skip(i as int)),
        decreases left@.len() - i,
    {
        proof {
            assert(x[i as int] == left@[i as int]@);
            assert(y[i as int] == right@[i as int]@);
            lemma_component_total(x[i as int], y[i as int]);
        }
        if component_is_less(left[i].as_str(), right[i].as_str()) {
            return false;
        }
        if component_is_less(right[i].as_str(), left[i].as_str()) {
            return true;
        }
        proof {
            assert(x.skip(i as int).skip(1) == x.skip(i + 1));
            assert(y.skip(i as int).skip(1) == y.skip(i + 1));
        }
        i = i + 1;
    }
    i >= right.len()
}

/// The paths in order.
pub fn sort_paths(paths: Vec<String>) -> (r: Vec<String>)
    ensures
        texts(r@) == sorted_paths(texts(paths@)),
{
    let ghost all = texts(paths@);
    let mut r: Vec<String> = Vec::new();
    assert(texts(r@) == sorted_paths(all.take(0)));
    for path in it: paths
        invariant
            texts(it.seq()) == all,
            texts(r@) == sorted_paths(all.take(it.index())),
    {
        let ghost n = it.index();
        let ghost before = texts(r@);
        proof {
            assert(all[n] == path@);
            assert(all.take(n + 1).drop_last() == all.take(n));
        }
        let mut i: usize = r.len();
        assert(before.take(i as int) == before);
        assert(inserted_path(before, path@) == inserted_path(before.take(i as int), path@)
            + before.skip(i as int));
        while 0 < i && !path_is_le(r[i - 1].as_str(), path.as_str())
            invariant
                i <= r@.len(),
                before == texts(r@),
                inserted_path(before, path@) == inserted_path(before.take(i as int), path@)
                    + before.skip(i as int),
            decreases i,
        {
            proof {
                let front = before.take(i as int);
                assert(front.last() == r@[i - 1]@);
                assert(front.drop_last() == before.take(i - 1));
                assert(inserted_path(front, path@) == inserted_path(
                    before.take(i - 1),
                    path@,
                ).push(front.last()));
                assert(inserted_path(before, path@) == inserted_path(before.take(i - 1), path@)
                    + before.skip(i - 1));
            }
            i = i - 1;
        }
        let ghost now = r@;
        r.insert(i, path);
        proof {
            let front = before.take(i as int);
            if 0 < i {
                assert(front.last() == now[i - 1]@);
            }
            assert(inserted_path(front, path@) == front.push(path@));
            assert(texts(r@) == front.push(path@) + before.skip(i as int));
        }
    }
    assert(all.take(all.len() as int) == all);
    r
}

/// A text comes before another one if it is the beginning of it, or if the first character in
/// which they differ is the smaller one. No text comes before itself, and of two texts one comes
/// before the other, but not both.
pub proof fn first_difference_decides(
    a: &str,
    b: &str,
    front: Seq<char>,
    x: char,
    y: char,
    r: bool,
    other: bool,
)
    requires
        call_ensures(text_is_less, (a, b), r),
        call_ensures(text_is_less, (b, a), other),
    ensures
        !(r && other),
        a@ != b@ ==> r || other,
        a@ == b@ ==> !r,
        a@.is_prefix_of(b@) && a@ != b@ ==> r,
        x < y && (front + seq![x]).is_prefix_of(a@) && (front + seq![y]).is_prefix_of(b@) ==> r,
{
    lemma_text_total(a@, b@);
    lemma_text_total(a@, a@);
    if a@.is_prefix_of(b@) && a@ != b@ {
        lemma_beginning_is_less(a@, b@);
    }
    if x < y && (front + seq![x]).is_prefix_of(a@) && (front + seq![y]).is_prefix_of(b@) {
        lemma_smaller_is_less(a@, b@, front, x, y);
    }
}

proof fn lemma_beginning_is_less(a: Seq<char>, b: Seq<char>)
    requires
        a.is_prefix_of(b),
        a != b,
    ensures
        text_less(a, b),
    decreases a.len(),
{
    assert(a == b.subrange(0, a.len() as int));
    if a.len() == b.len() {
        assert(a == b);
    }
    if 0 < a.len() {
        assert(a[0] == b[0]);
        let c = a.skip(1);
        let d = b.skip(1);
        assert(c == d.subrange(0, c.len() as int));
        assert(c.len() != d.len());
        lemma_beginning_is_less(c, d);
    }
}

proof fn lemma_smaller_is_less(a: Seq<char>, b: Seq<char>, front: Seq<char>, x: char, y: char)
    requires
        x < y,
        (front + seq![x]).is_prefix_of(a),
        (front + seq![y]).is_prefix_of(b),
    ensures
        text_less(a, b),
    decreases front.len(),
{
    let p = front + seq![x];
    let q = front + seq![y];
    assert(p == a.subrange(0, p.len() as int));
    assert(q == b.subrange(0, q.len() as int));
    assert(a[0] == p[0] && b[0] == q[0]);
    if 0 < front.len() {
        let rest = front.skip(1);
        let c = a.skip(1);
        let d = b.skip(1);
        assert(rest + seq![x] == c.subrange(0, front.len() as int)) by {
            assert forall|i: int| 0 <= i < front.len() implies (rest + seq![x])[i] == c[i] by {
                assert(p[i + 1] == a[i + 1]);
            }
        }
        assert(rest + seq![y] == d.subrange(0, front.len() as int)) by {
            assert forall|i: int| 0 <= i < front.len() implies (rest + seq![y])[i] == d[i] by {
                assert(q[i + 1] == b[i + 1]);
            }
        }
        lemma_smaller_is_less(c, d, rest, x, y);
    }
}

proof fn lemma_components_below(front: Seq<Seq<char>>, a: Seq<Seq<char>>, b: Seq<Seq<char>>)
    ensures
        components_less(front + a, front + b) == components_less(a, b),
    decreases front.len(),
{
    if 0 < front.len() {
        let rest = front.skip(1);
        lemma_components_below(rest, a, b);
        assert((front + a)[0] == (front + b)[0]);
        assert((front + a).skip(1) == rest + a);
        assert((front + b).skip(1) == rest + b);
    } else {
        assert(front + a == a);
        assert(front + b == b);
    }
}

/// A directory comes before what is below it, and names below one directory come in the order of
/// their texts. The order is transitive.
pub proof fn directories_come_before_their_files(
    dir: Seq<char>,
    x: &str,
    y: &str,
    a: &str,
    b: &str,
    c: &str,
    up: &str,
    less: bool,
    r: (bool, bool, bool, bool, bool),
)
    requires
        0 < dir.len(),
        is_tidy(x@),
        is_tidy(y@),
        !x@.contains('/') && x@ != seq!['.', '.'],
        !y@.contains('/') && y@ != seq!['.', '.'],
        a@ == dir + seq!['/'] + x@,
        b@ == dir + seq!['/'] + y@,
        up@ == dir,
        call_ensures(text_is_less, (x, y), less),
        call_ensures(path_is_le, (a, b), r.0),
        call_ensures(path_is_le, (up, a), r.1),
        call_ensures(path_is_le, (a, up), r.2),
        call_ensures(path_is_le, (b, c), r.3),
        call_ensures(path_is_le, (a, c), r.4),
    ensures
        r.0 <==> less || x@ == y@,
        r.1,
        !r.2,
        r.0 && r.3 ==> r.4,
{
    tidy_paths_have_their_names(dir, x@);
    tidy_paths_have_their_names(dir, y@);
    lemma_split_one(x@, '/');
    lemma_split_one(y@, '/');
    let front = components(dir);
    let one = seq![x@];
    let two = seq![y@];
    assert(components(a@) == front + one);
    assert(components(b@) == front + two);
    lemma_components_below(front, two, one);
    assert(x@ != seq!['/'] && y@ != seq!['/']) by {
        assert(seq!['/'][0] == '/');
        if x@ == seq!['/'] {
            assert(x@.contains('/'));
        }
        if y@ == seq!['/'] {
            assert(y@.contains('/'));
        }
    }
    assert(split(x@, '/')[0] == x@ && split(y@, '/')[0] == y@);
    assert(component_rank(x@) == 3 && component_rank(y@) == 3);
    lemma_text_total(x@, y@);
    assert(components_less(two, one) == (x@ != y@ && text_less(y@, x@))) by {
        reveal_with_fuel(components_less, 2);
        assert(two.skip(1).len() == 0 && one.skip(1).len() == 0);
    }
    let none = Seq::<Seq<char>>::empty();
    assert(front + none == front);
    lemma_components_below(front, none, one);
    lemma_components_below(front, one, none);
    if r.0 && r.3 {
        path_order_is_transitive(a@, b@, c@);
    }
}

/// Sorting keeps the paths and puts them in their order.
pub proof fn sorted_paths_are_in_order(paths: Vec<String>, r: Vec<String>)
    requires
        call_ensures(sort_paths, (paths,), r),
    ensures
        texts(r@).to_multiset() == texts(paths@).to_multiset(),
        r@.len() == paths@.len(),
        forall|i: int, j: int|
            0 <= i < j < r@.len() ==> path_le((#[trigger] r@[i])@, (#[trigger] r@[j])@),
{
    broadcast use vstd::seq_lib::group_to_multiset_ensures;

    let all = texts(r@);
    sorted_paths_are_the_paths(texts(paths@));
    assert(all.to_multiset().len() == all.len());
    assert(texts(paths@).to_multiset().len() == texts(paths@).len());
    assert(all.len() == r@.len() && texts(paths@).len() == paths@.len());
    assert forall|i: int, j: int| 0 <= i < j < r@.len() implies path_le(
        (#[trigger] r@[i])@,
        (#[trigger] r@[j])@,
    ) by {
        assert(all[i] == r@[i]@ && all[j] == r@[j]@);
    }
}

proof fn lemma_inserted_keeps(paths: Seq<Seq<char>>, path: Seq<char>, of: Seq<Seq<char>>)
    ensures
        inserted_path(paths, path).filter(|p: Seq<char>| components(p) == of) == if components(path)
            == of {
            paths.filter(|p: Seq<char>| components(p) == of).push(path)
        } else {
            paths.filter(|p: Seq<char>| components(p) == of)
        },
    decreases paths.len(),
{
    reveal(Seq::filter);
    let same = |p: Seq<char>| components(p) == of;
    let all = inserted_path(paths, path);
    if paths.len() == 0 || path_le(paths.last(), path) {
        assert(all.drop_last() == paths);
        assert(all.last() == path);
    } else {
        let before = paths.drop_last();
        let last = paths.last();
        lemma_inserted_keeps(before, path, of);
        assert(all.drop_last() == inserted_path(before, path));
        assert(all.last() == last);
        lemma_components_total(components(path), components(last));
        lemma_components_total(components(last), components(last));
        assert(components(path) != components(last));
    }
}

proof fn lemma_sorted_keeps(paths: Seq<Seq<char>>, of: Seq<Seq<char>>)
    ensures
        sorted_paths(paths).filter(|p: Seq<char>| components(p) == of) == paths.filter(
            |p: Seq<char>| components(p) == of,
        ),
    decreases paths.len(),
{
    reveal(Seq::filter);
    if 0 < paths.len() {
        let before = paths.drop_last();
        lemma_sorted_keeps(before, of);
        lemma_inserted_keeps(sorted_paths(before), paths.last(), of);
    }
}

/// Texts of one path stay in their order when they are sorted.
pub proof fn texts_of_one_path_stay_in_order(paths: Vec<String>, r: Vec<String>, path: Seq<char>)
    requires
        call_ensures(sort_paths, (paths,), r),
    ensures
        texts(r@).filter(|p: Seq<char>| components(p) == components(path)) == texts(paths@).filter(
            |p: Seq<char>| components(p) == components(path),
        ),
{
    lemma_sorted_keeps(texts(paths@), components(path));
}

} // verus!

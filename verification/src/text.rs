//! Operations on text, stated over sequences of characters.

use vstd::prelude::*;

verus! {

/// `String::push` appends one character to the end of the string.
pub assume_specification[ std::string::String::push ](s: &mut std::string::String, c: char)
    ensures
        final(s)@ == old(s)@.push(c),
;

/// What a list of strings says, one sequence of characters per string.
pub open spec fn texts(v: Seq<String>) -> Seq<Seq<char>> {
    v.map_values(|s: String| s@)
}

/// What a string says, where there is one.
pub open spec fn opt_text(s: Option<String>) -> Option<Seq<char>> {
    match s {
        Some(s) => Some(s@),
        None => None,
    }
}

/// What the strings of a list say, where there are strings.
pub open spec fn opt_texts(v: Seq<Option<String>>) -> Seq<Option<Seq<char>>> {
    v.map_values(|s: Option<String>| opt_text(s))
}

/// `s` without the repetitions of `pat` that it starts with.
pub open spec fn trim_start(s: Seq<char>, pat: Seq<char>) -> Seq<char>
    decreases s.len(),
{
    if 0 < pat.len() && pat.is_prefix_of(s) {
        trim_start(s.skip(pat.len() as int), pat)
    } else {
        s
    }
}

/// `s` without the repetitions of `pat` that it ends with.
pub open spec fn trim_end(s: Seq<char>, pat: Seq<char>) -> Seq<char>
    decreases s.len(),
{
    if 0 < pat.len() && pat.is_suffix_of(s) {
        trim_end(s.take(s.len() - pat.len()), pat)
    } else {
        s
    }
}

/// `s` with every `from` replaced by `to`.
pub open spec fn replaced(s: Seq<char>, from: char, to: char) -> Seq<char> {
    s.map_values(|c: char| if c == from { to } else { c })
}

/// `s` without the character `dropped`.
pub open spec fn without(s: Seq<char>, dropped: char) -> Seq<char> {
    s.filter(|c: char| c != dropped)
}

/// The pieces between the occurrences of `sep` in `s`. There is always one more piece than there
/// are separators, so the empty text has one empty piece.
pub open spec fn split(s: Seq<char>, sep: char) -> Seq<Seq<char>>
    decreases s.len(),
{
    if s.len() == 0 {
        seq![Seq::empty()]
    } else {
        let before = split(s.drop_last(), sep);
        if s.last() == sep {
            before.push(Seq::empty())
        } else {
            before.drop_last().push(before.last().push(s.last()))
        }
    }
}

/// The parts one after the other, with `sep` between each two.
pub open spec fn join_with(parts: Seq<Seq<char>>, sep: Seq<char>) -> Seq<char>
    decreases parts.len(),
{
    if parts.len() == 0 {
        Seq::empty()
    } else if parts.len() == 1 {
        parts[0]
    } else {
        join_with(parts.drop_last(), sep) + sep + parts.last()
    }
}

/// `pat` stands in `s` at position `at`.
pub open spec fn occurs_at(s: Seq<char>, pat: Seq<char>, at: int) -> bool {
    0 <= at && at + pat.len() <= s.len() && s.subrange(at, at + pat.len()) == pat
}

/// `pat` stands somewhere in `s`.
pub open spec fn contains_text(s: Seq<char>, pat: Seq<char>) -> bool {
    exists|at: int| occurs_at(s, pat, at)
}

/// The characters that Unicode calls white space.
pub open spec fn is_white_space(c: char) -> bool {
    ||| '\u{9}' <= c <= '\u{d}'
    ||| c == '\u{20}'
    ||| c == '\u{85}'
    ||| c == '\u{a0}'
    ||| c == '\u{1680}'
    ||| '\u{2000}' <= c <= '\u{200a}'
    ||| c == '\u{2028}'
    ||| c == '\u{2029}'
    ||| c == '\u{202f}'
    ||| c == '\u{205f}'
    ||| c == '\u{3000}'
}

/// `word` is the first run of characters in `s` that are not white space.
pub open spec fn is_first_word(s: Seq<char>, word: Seq<char>) -> bool {
    exists|from: int| #[trigger] starts_word(s, from, word)
}

/// `word` stands in `s` at `from`, only white space stands before it, and it ends with `s` or
/// before white space.
pub open spec fn starts_word(s: Seq<char>, from: int, word: Seq<char>) -> bool {
    &&& occurs_at(s, word, from)
    &&& 0 < word.len()
    &&& forall|i: int| 0 <= i < from ==> is_white_space(#[trigger] s[i])
    &&& forall|i: int| 0 <= i < word.len() ==> !is_white_space(#[trigger] word[i])
    &&& from + word.len() < s.len() ==> is_white_space(s[from + word.len()])
}

/// `s` is `head`, the first `sep` of `s`, and `tail`.
pub open spec fn splits_once(s: Seq<char>, sep: char, head: Seq<char>, tail: Seq<char>) -> bool {
    s == head + seq![sep] + tail && !head.contains(sep)
}

/// The decimal digit for a number below ten.
pub open spec fn digit(n: nat) -> char {
    ('0' as int + n) as char
}

/// A number in decimal digits.
pub open spec fn decimal(n: nat) -> Seq<char>
    decreases n,
{
    if n < 10 {
        seq![digit(n)]
    } else {
        decimal(n / 10).push(digit(n % 10))
    }
}

/// There is always a piece.
pub proof fn lemma_split_len(s: Seq<char>, sep: char)
    ensures
        1 <= split(s, sep).len(),
    decreases s.len(),
{
    if 0 < s.len() {
        lemma_split_len(s.drop_last(), sep);
    }
}

/// A text without the separator is one piece.
pub proof fn lemma_split_one(s: Seq<char>, sep: char)
    requires
        !s.contains(sep),
    ensures
        split(s, sep) == seq![s],
    decreases s.len(),
{
    if 0 < s.len() {
        let before = s.drop_last();
        assert(!before.contains(sep)) by {
            if before.contains(sep) {
                let i = choose|i: int| 0 <= i < before.len() && before[i] == sep;
                assert(s[i] == sep);
            }
        }
        lemma_split_one(before, sep);
        assert(s.last() == s[s.len() - 1]);
        assert(before.push(s.last()) == s);
        assert(split(s, sep) == seq![s]);
    } else {
        assert(s == Seq::<char>::empty());
    }
}

/// The pieces of two texts with a separator between them are the pieces of both.
pub proof fn lemma_split_concat(a: Seq<char>, b: Seq<char>, sep: char)
    ensures
        split(a + seq![sep] + b, sep) == split(a, sep) + split(b, sep),
    decreases b.len(),
{
    let s = a + seq![sep] + b;
    if b.len() == 0 {
        assert(s.drop_last() == a);
        assert(split(s, sep) == split(a, sep) + split(b, sep));
    } else {
        let before = b.drop_last();
        lemma_split_concat(a, before, sep);
        lemma_split_len(before, sep);
        assert(s.drop_last() == a + seq![sep] + before);
        assert(s.last() == b.last());
        let pieces = split(a, sep) + split(before, sep);
        assert(pieces.last() == split(before, sep).last());
        assert(pieces.drop_last() == split(a, sep) + split(before, sep).drop_last());
        assert(split(s, sep) == split(a, sep) + split(b, sep));
    }
}

/// A text without the separator belongs to the last piece of the text that it follows.
pub proof fn lemma_split_suffix(s: Seq<char>, suffix: Seq<char>, sep: char)
    requires
        !suffix.contains(sep),
    ensures
        split(s + suffix, sep) == split(s, sep).drop_last().push(split(s, sep).last() + suffix),
    decreases suffix.len(),
{
    lemma_split_len(s, sep);
    let pieces = split(s, sep);
    if suffix.len() == 0 {
        assert(s + suffix == s);
        assert(pieces.last() + suffix == pieces.last());
        assert(pieces.drop_last().push(pieces.last()) == pieces);
    } else {
        let before = suffix.drop_last();
        assert(!before.contains(sep)) by {
            if before.contains(sep) {
                let i = choose|i: int| 0 <= i < before.len() && before[i] == sep;
                assert(suffix[i] == sep);
            }
        }
        lemma_split_suffix(s, before, sep);
        assert((s + suffix).drop_last() == s + before);
        assert(suffix.contains(suffix[suffix.len() - 1]));
        let now = pieces.drop_last().push(pieces.last() + before);
        assert(now.drop_last() == pieces.drop_last());
        assert((pieces.last() + before).push(suffix.last()) == pieces.last() + suffix);
    }
}

/// No piece holds the separator.
pub proof fn lemma_pieces_hold_no_separator(s: Seq<char>, sep: char)
    ensures
        forall|i: int| 0 <= i < split(s, sep).len() ==> !(#[trigger] split(s, sep)[i]).contains(sep),
    decreases s.len(),
{
    if 0 < s.len() {
        let before = s.drop_last();
        lemma_pieces_hold_no_separator(before, sep);
        lemma_split_len(before, sep);
        let pieces = split(before, sep);
        let now = split(s, sep);
        assert forall|i: int| 0 <= i < now.len() implies !(#[trigger] now[i]).contains(sep) by {
            if i < pieces.len() - 1 {
                assert(now[i] == pieces[i]);
            } else if s.last() == sep {
                if i < pieces.len() {
                    assert(now[i] == pieces[i]);
                }
            } else if now[i].contains(sep) {
                let last = pieces[pieces.len() - 1];
                let k = choose|k: int| 0 <= k < now[i].len() && now[i][k] == sep;
                if k < last.len() {
                    assert(last[k] == sep);
                }
            }
        }
    }
}

/// The pieces hold only characters of the text.
pub proof fn lemma_pieces_hold_no_other(s: Seq<char>, sep: char, c: char)
    requires
        !s.contains(c),
    ensures
        forall|i: int| 0 <= i < split(s, sep).len() ==> !(#[trigger] split(s, sep)[i]).contains(c),
    decreases s.len(),
{
    if 0 < s.len() {
        let before = s.drop_last();
        assert(!before.contains(c)) by {
            if before.contains(c) {
                let i = choose|i: int| 0 <= i < before.len() && before[i] == c;
                assert(s[i] == c);
            }
        }
        lemma_pieces_hold_no_other(before, sep, c);
        lemma_split_len(before, sep);
        assert(s.contains(s[s.len() - 1]));
        let pieces = split(before, sep);
        let now = split(s, sep);
        assert forall|i: int| 0 <= i < now.len() implies !(#[trigger] now[i]).contains(c) by {
            if i < pieces.len() - 1 {
                assert(now[i] == pieces[i]);
            } else if s.last() == sep {
                if i < pieces.len() {
                    assert(now[i] == pieces[i]);
                }
            } else if now[i].contains(c) {
                let last = pieces[pieces.len() - 1];
                let k = choose|k: int| 0 <= k < now[i].len() && now[i][k] == c;
                if k < last.len() {
                    assert(last[k] == c);
                }
            }
        }
    }
}

/// The first piece of a text is empty only where the text is empty or starts with the separator.
pub proof fn lemma_first_piece(s: Seq<char>, sep: char)
    ensures
        split(s, sep)[0].len() == 0 <==> s.len() == 0 || s[0] == sep,
    decreases s.len(),
{
    if 0 < s.len() {
        let before = s.drop_last();
        lemma_first_piece(before, sep);
        lemma_split_len(before, sep);
        let pieces = split(before, sep);
        if s.last() == sep {
            assert(split(s, sep)[0] == pieces[0]);
        } else if pieces.len() == 1 {
            assert(split(s, sep)[0] == pieces[0].push(s.last()));
            if pieces[0].len() == 0 && 0 < before.len() {
                lemma_join_split(before, sep);
                assert(join_with(pieces, seq![sep]) == pieces[0]);
            }
        } else {
            assert(split(s, sep)[0] == pieces[0]);
            if before.len() == 0 {
                assert(pieces.len() == 1);
            }
        }
    }
}

/// Splitting undoes joining, where no part holds the separator.
pub proof fn lemma_split_join(parts: Seq<Seq<char>>, sep: char)
    requires
        0 < parts.len(),
        forall|i: int| 0 <= i < parts.len() ==> !(#[trigger] parts[i]).contains(sep),
    ensures
        split(join_with(parts, seq![sep]), sep) == parts,
    decreases parts.len(),
{
    let before = parts.drop_last();
    lemma_split_one(parts.last(), sep);
    if parts.len() == 1 {
        assert(seq![parts[0]] == parts);
    } else {
        assert forall|i: int| 0 <= i < before.len() implies !(#[trigger] before[i]).contains(
            sep,
        ) by {
            assert(before[i] == parts[i]);
        }
        lemma_split_join(before, sep);
        lemma_split_concat(join_with(before, seq![sep]), parts.last(), sep);
        assert(before + seq![parts.last()] == parts);
    }
}

/// Joining undoes splitting.
pub proof fn lemma_join_split(s: Seq<char>, sep: char)
    ensures
        join_with(split(s, sep), seq![sep]) == s,
    decreases s.len(),
{
    if 0 < s.len() {
        let before = s.drop_last();
        let pieces = split(before, sep);
        lemma_join_split(before, sep);
        lemma_split_len(before, sep);
        assert(before.push(s.last()) == s);
        if s.last() == sep {
            assert(pieces.push(Seq::empty()).drop_last() == pieces);
            assert(join_with(split(s, sep), seq![sep]) == s);
        } else {
            let now = pieces.drop_last().push(pieces.last().push(s.last()));
            assert(now.drop_last() == pieces.drop_last());
            assert(join_with(now, seq![sep]) == join_with(pieces, seq![sep]).push(s.last()));
        }
    }
}

/// The first word of a text is unique.
pub proof fn first_word_is_unique(s: Seq<char>, a: Seq<char>, b: Seq<char>)
    requires
        is_first_word(s, a),
        is_first_word(s, b),
    ensures
        a == b,
{
    let i = choose|i: int| #[trigger] starts_word(s, i, a);
    let j = choose|j: int| #[trigger] starts_word(s, j, b);
    assert(s.subrange(i, i + a.len())[0] == a[0]);
    assert(s.subrange(j, j + b.len())[0] == b[0]);
    assert(s[i] == a[0]);
    assert(s[j] == b[0]);
    assert(i == j);
    if a.len() < b.len() {
        assert(s.subrange(j, j + b.len())[a.len() as int] == b[a.len() as int]);
        assert(s[i + a.len()] == b[a.len() as int]);
    }
    if b.len() < a.len() {
        assert(s.subrange(i, i + a.len())[b.len() as int] == a[b.len() as int]);
        assert(s[j + b.len()] == a[b.len() as int]);
    }
}

/// The characters of a string.
pub fn chars_of(s: &str) -> (r: Vec<char>)
    ensures
        r@ == s@,
{
    let mut r: Vec<char> = Vec::new();
    for c in it: s.chars()
        invariant
            r@ == s@.take(it.index()),
            it.seq() == s@,
    {
        r.push(c);
    }
    assert(s@.take(s@.len() as int) == s@);
    r
}

/// The string that holds the characters of `v` from `from` up to, but without, `to`.
pub fn string_of(v: &Vec<char>, from: usize, to: usize) -> (r: String)
    requires
        from <= to <= v@.len(),
    ensures
        r@ == v@.subrange(from as int, to as int),
{
    let mut r: String = String::new();
    let mut i: usize = from;
    while i < to
        invariant
            from <= i <= to <= v@.len(),
            r@ == v@.subrange(from as int, i as int),
        decreases to - i,
    {
        r.push(v[i]);
        i = i + 1;
        assert(v@.subrange(from as int, i as int) == v@.subrange(from as int, i - 1).push(
            v@[i - 1],
        ));
    }
    r
}

/// Whether `pat` stands in `s` at `at`.
pub fn matches_at(s: &Vec<char>, pat: &Vec<char>, at: usize) -> (r: bool)
    ensures
        r == occurs_at(s@, pat@, at as int),
{
    let len: usize = s.len();
    if at > len || len - at < pat.len() {
        return false;
    }
    let mut i: usize = 0;
    while i < pat.len()
        invariant
            at + pat@.len() <= s@.len() <= usize::MAX,
            i <= pat@.len(),
            forall|k: int| 0 <= k < i ==> s@[at + k] == pat@[k],
        decreases pat@.len() - i,
    {
        if s[at + i] != pat[i] {
            assert(s@.subrange(at as int, at + pat@.len())[i as int] != pat@[i as int]);
            return false;
        }
        i = i + 1;
    }
    assert(s@.subrange(at as int, at + pat@.len()) == pat@);
    true
}

/// `s.starts_with(pat)`.
pub fn starts_with(s: &str, pat: &str) -> (r: bool)
    ensures
        r == pat@.is_prefix_of(s@),
{
    let chars = chars_of(s);
    let pattern = chars_of(pat);
    matches_at(&chars, &pattern, 0)
}

/// `s.contains(pat)`.
pub fn contains(s: &str, pat: &str) -> (r: bool)
    ensures
        r == contains_text(s@, pat@),
{
    let chars = chars_of(s);
    let pattern = chars_of(pat);
    let mut at: usize = 0;
    while at < chars.len()
        invariant
            chars@ == s@,
            pattern@ == pat@,
            at <= chars@.len(),
            forall|k: int| 0 <= k < at ==> !occurs_at(s@, pat@, k),
        decreases chars@.len() - at,
    {
        if matches_at(&chars, &pattern, at) {
            return true;
        }
        at = at + 1;
    }
    let r = matches_at(&chars, &pattern, at);
    assert(!r ==> forall|k: int| !occurs_at(s@, pat@, k)) by {
        if !r {
            assert forall|k: int| !occurs_at(s@, pat@, k) by {
                if k > at {
                    assert(k + pat@.len() > s@.len());
                }
            }
        }
    }
    r
}

/// Whether the character `c` stands in `s`.
pub fn has_char(s: &str, c: char) -> (r: bool)
    ensures
        r == s@.contains(c),
{
    for x in it: s.chars()
        invariant
            it.seq() == s@,
            forall|i: int| 0 <= i < it.index() ==> s@[i] != c,
    {
        if x == c {
            return true;
        }
    }
    false
}

/// `s.trim_start_matches(pat)`.
pub fn trim_start_matches(s: &str, pat: &str) -> (r: String)
    ensures
        r@ == trim_start(s@, pat@),
{
    let chars = chars_of(s);
    let pattern = chars_of(pat);
    let len: usize = chars.len();
    let mut from: usize = 0;
    assert(s@.skip(0) == s@);
    while 0 < pattern.len() && matches_at(&chars, &pattern, from)
        invariant
            chars@ == s@,
            pattern@ == pat@,
            from <= chars@.len() == len,
            trim_start(s@, pat@) == trim_start(s@.skip(from as int), pat@),
        decreases chars@.len() - from,
    {
        proof {
            let rest = s@.skip(from as int);
            assert(rest.subrange(0, pat@.len() as int) == s@.subrange(from as int, from + pat@.len()));
            assert(rest.skip(pat@.len() as int) == s@.skip(from + pat@.len()));
        }
        from = from + pattern.len();
    }
    proof {
        let rest = s@.skip(from as int);
        if 0 < pat@.len() && pat@.is_prefix_of(rest) {
            assert(rest.subrange(0, pat@.len() as int) == s@.subrange(from as int, from + pat@.len()));
        }
        assert(s@.subrange(from as int, s@.len() as int) == rest);
    }
    string_of(&chars, from, len)
}

/// `s.trim_end_matches(pat)`.
pub fn trim_end_matches(s: &str, pat: &str) -> (r: String)
    ensures
        r@ == trim_end(s@, pat@),
{
    let chars = chars_of(s);
    let pattern = chars_of(pat);
    let mut to: usize = chars.len();
    assert(s@.take(s@.len() as int) == s@);
    while 0 < pattern.len() && pattern.len() <= to && matches_at(&chars, &pattern, to - pattern.len())
        invariant
            chars@ == s@,
            pattern@ == pat@,
            to <= chars@.len(),
            trim_end(s@, pat@) == trim_end(s@.take(to as int), pat@),
        decreases to,
    {
        proof {
            let rest = s@.take(to as int);
            assert(rest.subrange(rest.len() - pat@.len(), rest.len() as int) == s@.subrange(
                to - pat@.len(),
                to as int,
            ));
            assert(rest.take(rest.len() - pat@.len()) == s@.take(to - pat@.len()));
        }
        to = to - pattern.len();
    }
    proof {
        let rest = s@.take(to as int);
        if 0 < pat@.len() && pat@.is_suffix_of(rest) {
            assert(rest.subrange(rest.len() - pat@.len(), rest.len() as int) == s@.subrange(
                to - pat@.len(),
                to as int,
            ));
        }
        assert(s@.subrange(0, to as int) == rest);
    }
    string_of(&chars, 0, to)
}

/// `s.replace(from, to)` for two characters.
pub fn replace_char(s: &str, from: char, to: char) -> (r: String)
    ensures
        r@ == replaced(s@, from, to),
{
    let mut r: String = String::new();
    for c in it: s.chars()
        invariant
            it.seq() == s@,
            r@ == replaced(s@.take(it.index()), from, to),
    {
        proof {
            let i = it.index();
            assert(s@.take(i + 1) == s@.take(i).push(s@[i]));
            assert(replaced(s@.take(i + 1), from, to) == replaced(s@.take(i), from, to).push(
                if s@[i] == from { to } else { s@[i] },
            ));
        }
        if c == from {
            r.push(to);
        } else {
            r.push(c);
        }
    }
    assert(s@.take(s@.len() as int) == s@);
    r
}

/// `s.replace(dropped, "")` for one character.
pub fn remove_char(s: &str, dropped: char) -> (r: String)
    ensures
        r@ == without(s@, dropped),
{
    let mut r: String = String::new();
    proof {
        reveal_with_fuel(Seq::filter, 1);
    }
    for c in it: s.chars()
        invariant
            it.seq() == s@,
            r@ == without(s@.take(it.index()), dropped),
    {
        proof {
            let i = it.index();
            reveal_with_fuel(Seq::filter, 1);
            assert(s@.take(i + 1).drop_last() == s@.take(i));
            assert(s@.take(i + 1).last() == s@[i]);
        }
        if c != dropped {
            r.push(c);
        }
    }
    assert(s@.take(s@.len() as int) == s@);
    r
}

/// `s.split(sep)`, collected.
pub fn split_on(s: &str, sep: char) -> (r: Vec<String>)
    ensures
        texts(r@) == split(s@, sep),
{
    let mut r: Vec<String> = Vec::new();
    let mut piece: String = String::new();
    for c in it: s.chars()
        invariant
            it.seq() == s@,
            texts(r@).push(piece@) == split(s@.take(it.index()), sep),
    {
        let ghost i = it.index();
        let ghost before = split(s@.take(i), sep);
        proof {
            assert(s@.take(i + 1).drop_last() == s@.take(i));
            assert(s@.take(i + 1).last() == s@[i]);
            assert(before.drop_last() == texts(r@));
            assert(before.last() == piece@);
        }
        if c == sep {
            let ghost done = texts(r@);
            r.push(piece);
            proof {
                assert(texts(r@) == done.push(piece@));
            }
            piece = String::new();
        } else {
            piece.push(c);
        }
    }
    assert(s@.take(s@.len() as int) == s@);
    let ghost done = texts(r@);
    r.push(piece);
    assert(texts(r@) == done.push(piece@));
    r
}

/// The strings one after the other, with `sep` between each two.
pub fn join(parts: &Vec<String>, sep: &str) -> (r: String)
    ensures
        r@ == join_with(texts(parts@), sep@),
{
    let mut r: String = String::new();
    let mut i: usize = 0;
    while i < parts.len()
        invariant
            i <= parts@.len(),
            r@ == join_with(texts(parts@).take(i as int), sep@),
        decreases parts@.len() - i,
    {
        proof {
            let all = texts(parts@);
            assert(all.take(i + 1).drop_last() == all.take(i as int));
            assert(all.take(i + 1).last() == parts@[i as int]@);
            if i == 0 {
                assert(all.take(1)[0] == parts@[0]@);
            }
        }
        if 0 < i {
            r.append(sep);
        }
        r.append(parts[i].as_str());
        i = i + 1;
    }
    assert(texts(parts@).take(parts@.len() as int) == texts(parts@));
    r
}

/// `s.split_once(sep)` for a character.
pub fn split_once(s: &str, sep: char) -> (r: Option<(String, String)>)
    ensures
        match r {
            Some((head, tail)) => splits_once(s@, sep, head@, tail@),
            None => !s@.contains(sep),
        },
{
    let chars = chars_of(s);
    let mut i: usize = 0;
    while i < chars.len()
        invariant
            chars@ == s@,
            i <= chars@.len(),
            forall|k: int| 0 <= k < i ==> s@[k] != sep,
        decreases chars@.len() - i,
    {
        if chars[i] == sep {
            let head = string_of(&chars, 0, i);
            let tail = string_of(&chars, i + 1, chars.len());
            assert(s@ == head@ + seq![sep] + tail@);
            return Some((head, tail));
        }
        i = i + 1;
    }
    None
}

/// `c.is_whitespace()`.
pub fn is_whitespace(c: char) -> (r: bool)
    ensures
        r == is_white_space(c),
{
    ('\u{9}' <= c && c <= '\u{d}') || c == '\u{20}' || c == '\u{85}' || c == '\u{a0}' || c
        == '\u{1680}' || ('\u{2000}' <= c && c <= '\u{200a}') || c == '\u{2028}' || c == '\u{2029}'
        || c == '\u{202f}' || c == '\u{205f}' || c == '\u{3000}'
}

/// `s.split_whitespace().next()`.
pub fn first_word(s: &str) -> (r: Option<String>)
    ensures
        match r {
            Some(word) => is_first_word(s@, word@),
            None => forall|i: int| 0 <= i < s@.len() ==> is_white_space(#[trigger] s@[i]),
        },
{
    let chars = chars_of(s);
    let mut from: usize = 0;
    while from < chars.len() && is_whitespace(chars[from])
        invariant
            chars@ == s@,
            from <= chars@.len(),
            forall|i: int| 0 <= i < from ==> is_white_space(#[trigger] s@[i]),
        decreases chars@.len() - from,
    {
        from = from + 1;
    }
    if from == chars.len() {
        return None;
    }
    let mut to: usize = from;
    while to < chars.len() && !is_whitespace(chars[to])
        invariant
            chars@ == s@,
            from <= to <= chars@.len(),
            forall|i: int| from <= i < to ==> !is_white_space(#[trigger] s@[i]),
        decreases chars@.len() - to,
    {
        to = to + 1;
    }
    let word = string_of(&chars, from, to);
    assert(starts_word(s@, from as int, word@)) by {
        assert(s@.subrange(from as int, from + word@.len()) == word@);
    }
    Some(word)
}

/// Two strings one after the other.
pub fn concat(a: &str, b: &str) -> (r: String)
    ensures
        r@ == a@ + b@,
{
    let mut r: String = String::new();
    r.append(a);
    r.append(b);
    assert(r@ == a@ + b@);
    r
}

/// A string that says the same.
pub fn copy(s: &str) -> (r: String)
    ensures
        r@ == s@,
{
    let mut r: String = String::new();
    r.append(s);
    assert(r@ == s@);
    r
}

/// Whether two strings say the same.
pub fn same_text(a: &str, b: &str) -> (r: bool)
    ensures
        r == (a@ == b@),
{
    let left = chars_of(a);
    let right = chars_of(b);
    if left.len() != right.len() {
        return false;
    }
    let r = matches_at(&left, &right, 0);
    assert(left@.subrange(0, left@.len() as int) == left@);
    r
}

/// Whether one of the strings says `text`.
pub fn has_text(all: &Vec<String>, text: &str) -> (r: bool)
    ensures
        r == texts(all@).contains(text@),
{
    let ghost named = texts(all@);
    let mut i: usize = 0;
    while i < all.len()
        invariant
            i <= all@.len(),
            named == texts(all@),
            forall|k: int| 0 <= k < i ==> #[trigger] named[k] != text@,
        decreases all@.len() - i,
    {
        assert(named[i as int] == all@[i as int]@);
        if same_text(all[i].as_str(), text) {
            return true;
        }
        i = i + 1;
    }
    false
}

/// The decimal digit for a number below ten.
fn digit_char(n: u32) -> (r: char)
    requires
        n < 10,
    ensures
        r == digit(n as nat),
{
    match n {
        0 => '0',
        1 => '1',
        2 => '2',
        3 => '3',
        4 => '4',
        5 => '5',
        6 => '6',
        7 => '7',
        8 => '8',
        _ => '9',
    }
}

/// A number in decimal digits.
pub fn decimal_text(n: u32) -> (r: String)
    ensures
        r@ == decimal(n as nat),
    decreases n,
{
    if n < 10 {
        let mut r = String::new();
        r.push(digit_char(n));
        assert(r@ == seq![digit(n as nat)]);
        r
    } else {
        let mut r = decimal_text(n / 10);
        r.push(digit_char(n % 10));
        r
    }
}

/// A text is taken apart into its characters and put together again from them.
pub proof fn characters_make_the_text(s: &str, chars: Vec<char>, v: &Vec<char>, r: String)
    requires
        call_ensures(chars_of, (s,), chars),
        *v == chars,
        call_ensures(string_of, (v, 0, chars.len()), r),
    ensures
        chars@ == s@,
        r@ == s@,
{
    assert(s@.subrange(0, s@.len() as int) == s@);
}

/// A part of a text has the characters of the text from one place to the other.
pub proof fn parts_have_the_characters_between(v: &Vec<char>, from: usize, to: usize, r: String)
    requires
        from <= to <= v@.len(),
        call_ensures(string_of, (v, from, to), r),
    ensures
        r@.len() == to - from,
        forall|i: int| 0 <= i < r@.len() ==> #[trigger] r@[i] == v@[from + i],
{
}

/// A text matches at a place exactly if its characters stand there one after the other.
pub proof fn matching_texts_stand_there(s: &Vec<char>, pat: &Vec<char>, at: usize, r: bool)
    requires
        call_ensures(matches_at, (s, pat, at), r),
    ensures
        r <==> at + pat@.len() <= s@.len() && forall|i: int|
            0 <= i < pat@.len() ==> #[trigger] pat@[i] == s@[at + i],
{
    if at + pat@.len() <= s@.len() {
        let part = s@.subrange(at as int, at + pat@.len() as int);
        if forall|i: int| 0 <= i < pat@.len() ==> #[trigger] pat@[i] == s@[at + i] {
            assert(part == pat@);
        }
        if part == pat@ {
            assert forall|i: int| 0 <= i < pat@.len() implies #[trigger] pat@[i] == s@[at + i] by {
                assert(part[i] == s@[at + i]);
            }
        }
    }
}

/// A text starts with another one exactly if it is that one and something behind it; then, and
/// whenever something stands in front of it, too, it contains it. It has a character exactly if
/// that stands somewhere in it.
pub proof fn contained_texts_stand_somewhere(
    s: &str,
    pat: &str,
    front: Seq<char>,
    end: Seq<char>,
    c: char,
    starts: bool,
    inside: bool,
    has: bool,
)
    requires
        call_ensures(starts_with, (s, pat), starts),
        call_ensures(contains, (s, pat), inside),
        call_ensures(has_char, (s, c), has),
    ensures
        s@ == pat@ + end ==> starts,
        starts ==> s@ == pat@ + s@.skip(pat@.len() as int),
        starts ==> inside,
        s@ == front + pat@ + end ==> inside,
        inside ==> exists|i: int|
            0 <= i <= s@.len() - pat@.len() && s@ == #[trigger] s@.take(i) + pat@ + s@.skip(
                i + pat@.len(),
            ),
        has <==> exists|i: int| 0 <= i < s@.len() && #[trigger] s@[i] == c,
{
    if s@ == pat@ + end {
        assert(s@.subrange(0, pat@.len() as int) == pat@);
    }
    if starts {
        assert(s@ == s@.subrange(0, pat@.len() as int) + s@.skip(pat@.len() as int));
        assert(occurs_at(s@, pat@, 0));
    }
    if s@ == front + pat@ + end {
        assert(s@.subrange(front.len() as int, front.len() + pat@.len() as int) == pat@);
        assert(occurs_at(s@, pat@, front.len() as int));
    }
    if inside {
        let at = choose|at: int| occurs_at(s@, pat@, at);
        assert(s@ == s@.take(at) + pat@ + s@.skip(at + pat@.len())) by {
            assert(pat@ == s@.subrange(at, at + pat@.len()));
        }
    }
}

proof fn lemma_trim_start(s: Seq<char>, pat: Seq<char>)
    requires
        0 < pat.len(),
    ensures
        trim_start(s, pat).is_suffix_of(s),
        !pat.is_prefix_of(trim_start(s, pat)),
        !pat.is_prefix_of(s) ==> trim_start(s, pat) == s,
    decreases s.len(),
{
    let r = trim_start(s, pat);
    if pat.is_prefix_of(s) {
        let rest = s.skip(pat.len() as int);
        lemma_trim_start(rest, pat);
        assert(r == rest.subrange(rest.len() - r.len(), rest.len() as int));
        assert(r == s.subrange(s.len() - r.len(), s.len() as int));
    } else {
        assert(s == s.subrange(0, s.len() as int));
    }
}

proof fn lemma_trim_end(s: Seq<char>, pat: Seq<char>)
    requires
        0 < pat.len(),
    ensures
        trim_end(s, pat).is_prefix_of(s),
        !pat.is_suffix_of(trim_end(s, pat)),
        !pat.is_suffix_of(s) ==> trim_end(s, pat) == s,
    decreases s.len(),
{
    let r = trim_end(s, pat);
    if pat.is_suffix_of(s) {
        let rest = s.take(s.len() - pat.len());
        lemma_trim_end(rest, pat);
        assert(r == rest.subrange(0, r.len() as int));
        assert(r == s.subrange(0, r.len() as int));
    } else {
        assert(s == s.subrange(0, s.len() as int));
    }
}

/// Trimming leaves a text that does not start, or does not end, with the pattern any more, and
/// drops nothing else: a text with the pattern in front, or behind, is trimmed as the text is, and
/// one without it stays.
pub proof fn trimming_drops_the_pattern(
    s: &str,
    pat: &str,
    in_front: &str,
    behind: &str,
    r: (String, String, String, String),
)
    requires
        0 < pat@.len(),
        in_front@ == pat@ + s@,
        behind@ == s@ + pat@,
        call_ensures(trim_start_matches, (s, pat), r.0),
        call_ensures(trim_end_matches, (s, pat), r.1),
        call_ensures(trim_start_matches, (in_front, pat), r.2),
        call_ensures(trim_end_matches, (behind, pat), r.3),
    ensures
        r.0@.is_suffix_of(s@),
        r.1@.is_prefix_of(s@),
        !pat@.is_prefix_of(r.0@),
        !pat@.is_suffix_of(r.1@),
        !pat@.is_prefix_of(s@) ==> r.0@ == s@,
        !pat@.is_suffix_of(s@) ==> r.1@ == s@,
        r.2@ == r.0@,
        r.3@ == r.1@,
{
    lemma_trim_start(s@, pat@);
    lemma_trim_end(s@, pat@);
    let a = in_front@;
    assert(a.subrange(0, pat@.len() as int) == pat@);
    assert(a.skip(pat@.len() as int) == s@);
    assert(trim_start(a, pat@) == trim_start(a.skip(pat@.len() as int), pat@));
    let b = behind@;
    assert(b.subrange(b.len() - pat@.len(), b.len() as int) == pat@);
    assert(b.take(b.len() - pat@.len()) == s@);
    assert(trim_end(b, pat@) == trim_end(b.take(b.len() - pat@.len()), pat@));
}

/// Replacing a character keeps the length and every other character; removing one keeps every
/// other character, in their order.
pub proof fn other_characters_stay(
    s: &str,
    from: char,
    to: char,
    replaced_text: String,
    removed: String,
)
    requires
        call_ensures(replace_char, (s, from, to), replaced_text),
        call_ensures(remove_char, (s, from), removed),
    ensures
        replaced_text@.len() == s@.len(),
        forall|i: int|
            0 <= i < s@.len() ==> (s@[i] == from ==> #[trigger] replaced_text@[i] == to) && (s@[i]
                != from ==> replaced_text@[i] == s@[i]),
        removed@ == s@.filter(|c: char| c != from),
        !s@.contains(from) ==> removed@ == s@ && replaced_text@ == s@,
{
    lemma_without_filters(s@, from, |c: char| c != from);
    if !s@.contains(from) {
        lemma_without_stays(s@, from);
        assert forall|i: int| 0 <= i < s@.len() implies replaced_text@[i] == s@[i] by {
            assert(s@.contains(s@[i]));
        }
        assert(replaced_text@ == s@);
    }
}

proof fn lemma_without_filters(s: Seq<char>, dropped: char, keep: spec_fn(char) -> bool)
    requires
        forall|c: char| #[trigger] keep(c) == (c != dropped),
    ensures
        without(s, dropped) == s.filter(keep),
    decreases s.len(),
{
    reveal(Seq::filter);
    if 0 < s.len() {
        lemma_without_filters(s.drop_last(), dropped, keep);
        assert(keep(s.last()) == (s.last() != dropped));
    }
}

proof fn lemma_without_stays(s: Seq<char>, c: char)
    requires
        !s.contains(c),
    ensures
        without(s, c) == s,
    decreases s.len(),
{
    reveal(Seq::filter);
    if 0 < s.len() {
        let before = s.drop_last();
        assert(!before.contains(c)) by {
            if before.contains(c) {
                let i = choose|i: int| 0 <= i < before.len() && before[i] == c;
                assert(s[i] == c);
            }
        }
        lemma_without_stays(before, c);
        assert(s.contains(s[s.len() - 1]));
        assert(s == before.push(s.last()));
    }
}

/// Splitting and joining undo each other: the pieces hold no separator, joined by it they are the
/// text again, and pieces without a separator that were joined by it are split into themselves.
pub proof fn splitting_undoes_joining(
    s: &str,
    sep: char,
    pieces: Vec<String>,
    parts: &Vec<String>,
    sep_text: &str,
    joined_text: String,
    parts_text: &str,
    again: Vec<String>,
)
    requires
        call_ensures(split_on, (s, sep), pieces),
        sep_text@ == seq![sep],
        call_ensures(join, (parts, sep_text), joined_text),
        parts_text@ == joined_text@,
        call_ensures(split_on, (parts_text, sep), again),
    ensures
        0 < pieces@.len(),
        forall|i: int| 0 <= i < pieces@.len() ==> !(#[trigger] pieces@[i])@.contains(sep),
        *parts == pieces ==> joined_text@ == s@,
        0 < parts@.len() && (forall|i: int|
            0 <= i < parts@.len() ==> !(#[trigger] parts@[i])@.contains(sep)) ==> texts(again@)
            == texts(parts@),
        parts@.len() == 0 ==> joined_text@.len() == 0,
        !s@.contains(sep) ==> pieces@.len() == 1 && pieces@[0]@ == s@,
{
    let all = texts(pieces@);
    lemma_split_len(s@, sep);
    assert(all.len() == pieces@.len());
    lemma_pieces_hold_no_separator(s@, sep);
    assert forall|i: int| 0 <= i < pieces@.len() implies !(#[trigger] pieces@[i])@.contains(
        sep,
    ) by {
        assert(all[i] == pieces@[i]@);
    }
    if *parts == pieces {
        lemma_join_split(s@, sep);
    }
    if 0 < parts@.len() && (forall|i: int|
        0 <= i < parts@.len() ==> !(#[trigger] parts@[i])@.contains(sep)) {
        let texts_of_parts = texts(parts@);
        assert forall|i: int| 0 <= i < texts_of_parts.len() implies !(
        #[trigger] texts_of_parts[i]).contains(sep) by {
            assert(texts_of_parts[i] == parts@[i]@);
        }
        lemma_split_join(texts_of_parts, sep);
    }
    if !s@.contains(sep) {
        lemma_split_one(s@, sep);
        assert(all[0] == pieces@[0]@);
    }
}

/// A text is split once at its first separator, and not at all exactly if it has none.
pub proof fn first_separator_splits(s: &str, sep: char, r: Option<(String, String)>)
    requires
        call_ensures(split_once, (s, sep), r),
    ensures
        r is Some <==> s@.contains(sep),
        r is Some ==> s@ == (r->0).0@ + seq![sep] + (r->0).1@ && !(r->0).0@.contains(sep),
{
    if r is Some {
        assert(s@[(r->0).0@.len() as int] == sep);
    }
}

proof fn lemma_word_is_in_the_text(s: Seq<char>, word: Seq<char>)
    requires
        is_first_word(s, word),
    ensures
        exists|i: int| 0 <= i < s.len() && !is_white_space(#[trigger] s[i]),
{
    let from = choose|from: int| #[trigger] starts_word(s, from, word);
    assert(s.subrange(from, from + word.len())[0] == s[from]);
    assert(word[0] == s[from]);
    assert(!is_white_space(word[0]));
}

proof fn lemma_word_between(s: Seq<char>, front: Seq<char>, word: Seq<char>, end: Seq<char>)
    requires
        s == front + word + end,
        0 < word.len(),
        forall|i: int| 0 <= i < front.len() ==> is_white_space(#[trigger] front[i]),
        forall|i: int| 0 <= i < word.len() ==> !is_white_space(#[trigger] word[i]),
        end.len() == 0 || is_white_space(end[0]),
    ensures
        is_first_word(s, word),
{
    let from = front.len() as int;
    assert(s.subrange(from, from + word.len()) == word);
    assert forall|i: int| 0 <= i < from implies is_white_space(#[trigger] s[i]) by {
        assert(s[i] == front[i]);
    }
    if from + word.len() < s.len() {
        assert(s[from + word.len()] == end[0]);
    }
    assert(starts_word(s, from, word));
}

/// The first word stands behind white space alone, holds none, and ends where white space or the
/// end of the text is: it is the word of a text that is white space, the word, and white space
/// and anything behind it.
pub proof fn first_word_stands_between_white_space(
    s: &str,
    r: Option<String>,
    front: Seq<char>,
    word: Seq<char>,
    end: Seq<char>,
)
    requires
        call_ensures(first_word, (s,), r),
        s@ == front + word + end,
        0 < word.len(),
        forall|i: int| 0 <= i < front.len() ==> is_white_space(#[trigger] front[i]),
        forall|i: int| 0 <= i < word.len() ==> !is_white_space(#[trigger] word[i]),
        end.len() == 0 || is_white_space(end[0]),
    ensures
        r is Some,
        r->0@ == word,
{
    let args = (s,);
    assert(args.0@ == s@);
    lemma_word_between(s@, front, word, end);
    lemma_word_is_in_the_text(s@, word);
    if r is Some {
        first_word_is_unique(s@, word, r->0@);
    }
}

/// A text that is all white space has no first word.
pub proof fn white_space_holds_no_word(s: &str, r: Option<String>)
    requires
        call_ensures(first_word, (s,), r),
    ensures
        r is Some <==> exists|i: int| 0 <= i < s@.len() && !is_white_space(#[trigger] s@[i]),
{
    let args = (s,);
    assert(args.0@ == s@);
    if r is Some {
        lemma_word_is_in_the_text(s@, r->0@);
    }
}

/// White space are the blank, the characters from the tabulator to the carriage return, and the
/// other characters with that property in Unicode.
pub proof fn white_space_is_that_of_unicode(c: char, r: bool)
    requires
        call_ensures(is_whitespace, (c,), r),
    ensures
        ({
            let code = c as int;
            r <==> (9 <= code <= 13 || code == 0x20 || code == 0x85 || code == 0xa0 || code
                == 0x1680 || 0x2000 <= code <= 0x200a || code == 0x2028 || code == 0x2029 || code
                == 0x202f || code == 0x205f || code == 0x3000)
        }),
{
}

/// Concatenation has all characters of both texts, in their order; a copy has those of its text;
/// and texts are the same exactly if their characters are. A list has a text exactly if one of
/// its texts is the same.
pub proof fn texts_are_their_characters(
    a: &str,
    b: &str,
    both: String,
    copied: String,
    same: bool,
    all: &Vec<String>,
    has: bool,
)
    requires
        call_ensures(concat, (a, b), both),
        call_ensures(copy, (a,), copied),
        call_ensures(same_text, (a, b), same),
        call_ensures(has_text, (all, a), has),
    ensures
        both@.len() == a@.len() + b@.len(),
        both@.take(a@.len() as int) == a@,
        both@.skip(a@.len() as int) == b@,
        copied@ == a@,
        same <==> a@ == b@,
        has <==> exists|i: int| 0 <= i < all@.len() && (#[trigger] all@[i])@ == a@,
{
    assert(both@.take(a@.len() as int) == a@);
    assert(both@.skip(a@.len() as int) == b@);
    if has {
        let i = choose|i: int| 0 <= i < texts(all@).len() && texts(all@)[i] == a@;
        assert(all@[i]@ == a@);
    }
    if exists|i: int| 0 <= i < all@.len() && (#[trigger] all@[i])@ == a@ {
        let i = choose|i: int| 0 <= i < all@.len() && (#[trigger] all@[i])@ == a@;
        assert(texts(all@)[i] == a@);
    }
}

/// The number that a text of digits says.
pub open spec fn number_of(digits: Seq<char>) -> int
    decreases digits.len(),
{
    if digits.len() == 0 {
        0
    } else {
        10 * number_of(digits.drop_last()) + (digits.last() as int - '0' as int)
    }
}

proof fn lemma_decimal(n: nat)
    ensures
        0 < decimal(n).len(),
        number_of(decimal(n)) == n,
        forall|i: int| 0 <= i < decimal(n).len() ==> '0' <= #[trigger] decimal(n)[i] <= '9',
        1 < decimal(n).len() ==> decimal(n)[0] != '0',
        0 < n ==> decimal(n)[0] != '0',
    decreases n,
{
    reveal_with_fuel(number_of, 2);
    if n < 10 {
        assert(decimal(n).drop_last().len() == 0);
        assert(decimal(n).last() == digit(n));
    } else {
        let before = decimal(n / 10);
        lemma_decimal(n / 10);
        assert(decimal(n) == before.push(digit(n % 10)));
        assert(decimal(n).drop_last() == before);
        assert(decimal(n)[0] == before[0]);
        assert(0 < n / 10);
    }
}

/// A number is written in digits that say the number, without a zero in front.
pub proof fn digits_say_the_number(n: u32, r: String)
    requires
        call_ensures(decimal_text, (n,), r),
    ensures
        0 < r@.len(),
        number_of(r@) == n,
        forall|i: int| 0 <= i < r@.len() ==> '0' <= #[trigger] r@[i] <= '9',
        1 < r@.len() ==> r@[0] != '0',
{
    lemma_decimal(n as nat);
}

} // verus!

//! Lines, words and characters of a text.
use vstd::prelude::*;
use vstd::string::StringExecFns;

use crate::text;
use crate::text::{chars_of, is_white_space, push_char, string_of};

verus! {

/// The number of characters before the first `c` of `s`, or all of them.
pub open spec fn before(s: Seq<char>, c: char) -> nat
    decreases s.len(),
{
    if s.len() == 0 || s[0] == c {
        0
    } else {
        1 + before(s.skip(1), c)
    }
}

/// The first `c` of `s` stands at `before(s, c)`.
pub proof fn lemma_before_bound(s: Seq<char>, c: char)
    ensures
        before(s, c) <= s.len(),
        before(s, c) < s.len() ==> s[before(s, c) as int] == c,
        forall|i: int| 0 <= i < before(s, c) ==> s[i] != c,
    decreases s.len(),
{
    if s.len() > 0 && s[0] != c {
        lemma_before_bound(s.skip(1), c);
        assert forall|i: int| 0 <= i < before(s, c) implies s[i] != c by {
            if i > 0 {
                assert(s.skip(1)[i - 1] == s[i]);
            }
        }
    }
}

/// An index is `before(s, c)` where the first `c` stands there, or no `c`
/// stands before the end.
proof fn lemma_before_is(s: Seq<char>, c: char, k: int)
    requires
        0 <= k <= s.len(),
        forall|i: int| 0 <= i < k ==> s[i] != c,
        k < s.len() ==> s[k] == c,
    ensures
        before(s, c) == k,
{
    lemma_before_bound(s, c);
}

/// The lines of `s`: it is split at each line feed, and a line feed at the end
/// opens no further line.
pub open spec fn lines(s: Seq<char>) -> Seq<Seq<char>>
    decreases s.len(),
    via lines_decreases
{
    if s.len() == 0 {
        Seq::empty()
    } else if before(s, '\n') >= s.len() {
        seq![s]
    } else {
        seq![s.take(before(s, '\n') as int)] + lines(s.skip(before(s, '\n') as int + 1))
    }
}

#[via_fn]
proof fn lines_decreases(s: Seq<char>) {
    lemma_before_bound(s, '\n');
}

/// A line holds characters of its text, and no line feed.
pub proof fn lemma_lines_hold(s: Seq<char>, i: int, k: int)
    requires
        0 <= i < lines(s).len(),
        0 <= k < lines(s)[i].len(),
    ensures
        lines(s)[i][k] != '\n',
        s.contains(lines(s)[i][k]),
    decreases s.len(),
{
    lemma_before_bound(s, '\n');
    let at = before(s, '\n') as int;
    if at >= s.len() {
        assert(s[k] == lines(s)[i][k]);
    } else if i == 0 {
        assert(s[k] == lines(s)[i][k]);
    } else {
        let rest = s.skip(at + 1);
        assert(lines(s)[i] == lines(rest)[i - 1]);
        lemma_lines_hold(rest, i - 1, k);
        let j = choose|j: int| 0 <= j < rest.len() && rest[j] == lines(rest)[i - 1][k];
        assert(s[at + 1 + j] == rest[j]);
    }
}

/// The first line of a text that begins with a line and a line feed is that line.
pub proof fn lemma_first_line(line: Seq<char>, rest: Seq<char>)
    requires
        forall|k: int| 0 <= k < line.len() ==> line[k] != '\n',
    ensures
        lines(line.push('\n') + rest) == seq![line] + lines(rest),
{
    let s = line.push('\n') + rest;
    assert forall|k: int| 0 <= k < line.len() implies s[k] != '\n' by {
        assert(s[k] == line[k]);
    }
    lemma_before_is(s, '\n', line.len() as int);
    assert(s.take(line.len() as int) =~= line);
    assert(s.skip(line.len() as int + 1) =~= rest);
}

/// Splits `s` into its lines.
pub fn str_lines(s: &str) -> (r: Vec<String>)
    ensures
        text::views(r@) == lines(s@),
{
    let chars = chars_of(s);
    let mut r: Vec<String> = Vec::new();
    let mut start: usize = 0;
    let mut i: usize = 0;
    assert(chars@.skip(0) == chars@);
    assert(text::views(r@) == Seq::<Seq<char>>::empty());
    while i < chars.len()
        invariant
            start <= i <= chars@.len(),
            forall|k: int| start <= k < i ==> chars@[k] != '\n',
            lines(chars@) == text::views(r@) + lines(chars@.skip(start as int)),
        decreases chars@.len() - i,
    {
        if chars[i] == '\n' {
            let ghost rest = chars@.skip(start as int);
            let ghost done = text::views(r@);
            let line = string_of(&chars, start, i);
            proof {
                lemma_before_is(rest, '\n', i - start);
                assert(rest.take(i - start) == line@);
                assert(rest.skip(i - start + 1) == chars@.skip(i + 1));
                assert(text::views(r@.push(line)) == done.push(line@));
                assert(done + (seq![line@] + lines(chars@.skip(i + 1))) == done.push(line@) + lines(
                    chars@.skip(i + 1),
                ));
            }
            r.push(line);
            start = i + 1;
        }
        i = i + 1;
    }
    if start < chars.len() {
        let ghost rest = chars@.skip(start as int);
        let ghost done = text::views(r@);
        let line = string_of(&chars, start, chars.len());
        proof {
            lemma_before_is(rest, '\n', rest.len() as int);
            assert(line@ == rest);
            assert(text::views(r@.push(line)) == done.push(line@));
            assert(done + seq![rest] == done.push(line@));
        }
        r.push(line);
    } else {
        assert(chars@.skip(start as int) == Seq::<char>::empty());
        assert(text::views(r@) + Seq::<Seq<char>>::empty() == text::views(r@));
    }
    r
}

/// The pieces of `s` between each two `c`, before the first and after the last.
pub open spec fn pieces(s: Seq<char>, c: char) -> Seq<Seq<char>>
    decreases s.len(),
    via pieces_decreases
{
    if before(s, c) >= s.len() {
        seq![s]
    } else {
        seq![s.take(before(s, c) as int)] + pieces(s.skip(before(s, c) as int + 1), c)
    }
}

#[via_fn]
proof fn pieces_decreases(s: Seq<char>, c: char) {
    lemma_before_bound(s, c);
}

/// Splits `s` at each `c`.
pub fn str_pieces(s: &str, c: char) -> (r: Vec<String>)
    ensures
        text::views(r@) == pieces(s@, c),
        r@.len() > 0,
{
    let chars = chars_of(s);
    let mut r: Vec<String> = Vec::new();
    let mut start: usize = 0;
    let mut i: usize = 0;
    assert(chars@.skip(0) == chars@);
    assert(text::views(r@) == Seq::<Seq<char>>::empty());
    while i < chars.len()
        invariant
            start <= i <= chars@.len(),
            forall|k: int| start <= k < i ==> chars@[k] != c,
            pieces(chars@, c) == text::views(r@) + pieces(chars@.skip(start as int), c),
        decreases chars@.len() - i,
    {
        if chars[i] == c {
            let ghost rest = chars@.skip(start as int);
            let ghost done = text::views(r@);
            let piece = string_of(&chars, start, i);
            proof {
                lemma_before_is(rest, c, i - start);
                assert(rest.take(i - start) == piece@);
                assert(rest.skip(i - start + 1) == chars@.skip(i + 1));
                assert(text::views(r@.push(piece)) == done.push(piece@));
                assert(done + (seq![piece@] + pieces(chars@.skip(i + 1), c)) == done.push(piece@)
                    + pieces(chars@.skip(i + 1), c));
            }
            r.push(piece);
            start = i + 1;
        }
        i = i + 1;
    }
    let ghost rest = chars@.skip(start as int);
    let ghost done = text::views(r@);
    let piece = string_of(&chars, start, chars.len());
    proof {
        lemma_before_is(rest, c, rest.len() as int);
        assert(piece@ == rest);
        assert(text::views(r@.push(piece)) == done.push(piece@));
        assert(done + seq![rest] == done.push(piece@));
    }
    r.push(piece);
    r
}

/// What stands before and after the first `c` of `s`, where there is one.
pub open spec fn split_first(s: Seq<char>, c: char) -> Option<(Seq<char>, Seq<char>)> {
    let at = before(s, c) as int;
    if at >= s.len() {
        None
    } else {
        Some((s.take(at), s.skip(at + 1)))
    }
}

/// Splits `s` at its first `c`.
pub fn str_split_first(s: &str, c: char) -> (r: Option<(String, String)>)
    ensures
        (match r {
            Some((head, tail)) => Some((head@, tail@)),
            None => None,
        }) == split_first(s@, c),
{
    let chars = chars_of(s);
    let mut i: usize = 0;
    while i < chars.len() && chars[i] != c
        invariant
            i <= chars@.len(),
            forall|k: int| 0 <= k < i ==> chars@[k] != c,
        decreases chars@.len() - i,
    {
        i = i + 1;
    }
    proof {
        lemma_before_is(chars@, c, i as int);
    }
    if i == chars.len() {
        return None;
    }
    let head = string_of(&chars, 0, i);
    let tail = string_of(&chars, i + 1, chars.len());
    proof {
        assert(head@ =~= chars@.take(i as int));
        assert(tail@ =~= chars@.skip(i + 1));
    }
    Some((head, tail))
}

/// The number of characters before the first white space of `s`, or all of
/// them.
pub open spec fn word_len(s: Seq<char>) -> nat
    decreases s.len(),
{
    if s.len() == 0 || text::white_space(s[0]) {
        0
    } else {
        1 + word_len(s.skip(1))
    }
}

pub proof fn lemma_word_len_bound(s: Seq<char>)
    ensures
        word_len(s) <= s.len(),
        word_len(s) < s.len() ==> text::white_space(s[word_len(s) as int]),
        forall|i: int| 0 <= i < word_len(s) ==> !text::white_space(s[i]),
    decreases s.len(),
{
    if s.len() > 0 && !text::white_space(s[0]) {
        lemma_word_len_bound(s.skip(1));
        assert forall|i: int| 0 <= i < word_len(s) implies !text::white_space(s[i]) by {
            if i > 0 {
                assert(s.skip(1)[i - 1] == s[i]);
            }
        }
    }
}

pub proof fn lemma_word_len_is(s: Seq<char>, k: int)
    requires
        0 <= k <= s.len(),
        forall|i: int| 0 <= i < k ==> !text::white_space(s[i]),
        k < s.len() ==> text::white_space(s[k]),
    ensures
        word_len(s) == k,
{
    lemma_word_len_bound(s);
}

/// The words of `s`: its longest runs without white space, in order.
pub open spec fn words(s: Seq<char>) -> Seq<Seq<char>>
    decreases s.len(),
    via words_decreases
{
    if s.len() == 0 {
        Seq::empty()
    } else if text::white_space(s[0]) {
        words(s.skip(1))
    } else {
        seq![s.take(word_len(s) as int)] + words(s.skip(word_len(s) as int))
    }
}

#[via_fn]
proof fn words_decreases(s: Seq<char>) {
    lemma_word_len_bound(s);
}

/// Splits `s` into its words.
pub fn str_words(s: &str) -> (r: Vec<String>)
    ensures
        text::views(r@) == words(s@),
{
    let chars = chars_of(s);
    let mut r: Vec<String> = Vec::new();
    let mut i: usize = 0;
    assert(chars@.skip(0) == chars@);
    assert(text::views(r@) == Seq::<Seq<char>>::empty());
    while i < chars.len()
        invariant
            i <= chars@.len(),
            words(chars@) == text::views(r@) + words(chars@.skip(i as int)),
        decreases chars@.len() - i,
    {
        let ghost rest = chars@.skip(i as int);
        if is_white_space(chars[i]) {
            assert(rest.skip(1) == chars@.skip(i + 1));
            i = i + 1;
        } else {
            let start: usize = i;
            i = i + 1;
            while i < chars.len() && !is_white_space(chars[i])
                invariant
                    start < i <= chars@.len(),
                    forall|k: int|
                        start <= k < i ==> !text::white_space(#[trigger] chars@[k]),
                decreases chars@.len() - i,
            {
                i = i + 1;
            }
            let ghost done = text::views(r@);
            let word = string_of(&chars, start, i);
            proof {
                lemma_word_len_is(rest, i - start);
                assert(rest.take(i - start) == word@);
                assert(rest.skip(i - start) == chars@.skip(i as int));
                assert(text::views(r@.push(word)) == done.push(word@));
                assert(done + (seq![word@] + words(chars@.skip(i as int))) == done.push(word@)
                    + words(chars@.skip(i as int)));
            }
            r.push(word);
        }
    }
    assert(chars@.skip(i as int) == Seq::<char>::empty());
    assert(text::views(r@) + Seq::<Seq<char>>::empty() == text::views(r@));
    r
}

/// The texts of `parts` in a row, with `sep` between each two of them.
pub open spec fn join(parts: Seq<Seq<char>>, sep: Seq<char>) -> Seq<char>
    decreases parts.len(),
{
    if parts.len() == 0 {
        Seq::empty()
    } else if parts.len() == 1 {
        parts[0]
    } else {
        join(parts.drop_last(), sep) + sep + parts.last()
    }
}

/// Joins the strings of `parts`.
pub fn join_strings(parts: &Vec<String>, sep: &str) -> (r: String)
    ensures
        r@ == join(text::views(parts@), sep@),
{
    let mut r: String = String::new();
    let mut i: usize = 0;
    let ghost all = text::views(parts@);
    while i < parts.len()
        invariant
            i <= parts@.len(),
            all == text::views(parts@),
            r@ == join(all.take(i as int), sep@),
        decreases parts@.len() - i,
    {
        assert(all.take(i + 1).drop_last() == all.take(i as int));
        if i > 0 {
            r.append(sep);
        }
        r.append(parts[i].as_str());
        i = i + 1;
    }
    assert(all.take(i as int) == all);
    r
}

/// The words of `s` with one space between each two of them.
pub open spec fn single_spaced(s: Seq<char>) -> Seq<char> {
    join(words(s), seq![' '])
}

/// Joins the words of `s` by single spaces.
pub fn str_single_spaced(s: &str) -> (r: String)
    ensures
        r@ == single_spaced(s@),
{
    let parts = str_words(s);
    proof {
        reveal_strlit(" ");
        assert(" "@ == seq![' ']);
    }
    join_strings(&parts, " ")
}

proof fn lemma_words_are_dense(s: Seq<char>, i: int, k: int)
    requires
        0 <= i < words(s).len(),
        0 <= k < words(s)[i].len(),
    ensures
        !text::white_space(words(s)[i][k]),
    decreases s.len(),
{
    lemma_word_len_bound(s);
    if s.len() > 0 {
        if text::white_space(s[0]) {
            lemma_words_are_dense(s.skip(1), i, k);
        } else if i > 0 {
            lemma_words_are_dense(s.skip(word_len(s) as int), i - 1, k);
        }
    }
}

proof fn lemma_joined_white_space(parts: Seq<Seq<char>>, i: int)
    requires
        forall|a: int, b: int|
            0 <= a < parts.len() && 0 <= b < parts[a].len() ==> !text::white_space(
                #[trigger] parts[a][b],
            ),
        0 <= i < join(parts, seq![' ']).len(),
        text::white_space(join(parts, seq![' '])[i]),
    ensures
        join(parts, seq![' '])[i] == ' ',
    decreases parts.len(),
{
    if parts.len() == 1 {
        assert(!text::white_space(parts[0][i]));
    } else if parts.len() > 1 {
        let head = join(parts.drop_last(), seq![' ']);
        if i < head.len() {
            assert forall|a: int, b: int|
                0 <= a < parts.drop_last().len() && 0 <= b < parts.drop_last()[a].len() implies !text::white_space(
                #[trigger] parts.drop_last()[a][b],
            ) by {
                assert(!text::white_space(parts[a][b]));
            }
            lemma_joined_white_space(parts.drop_last(), i);
        } else if i > head.len() {
            let a = parts.len() - 1;
            let b = i - head.len() - 1;
            assert(!text::white_space(parts[a][b]));
        }
    }
}

/// A text whose words are joined by single spaces has no other white space; it
/// is one line.
pub proof fn single_spaced_is_one_line(s: Seq<char>, i: int)
    requires
        0 <= i < single_spaced(s).len(),
        text::white_space(single_spaced(s)[i]),
    ensures
        single_spaced(s)[i] == ' ',
{
    let parts = words(s);
    assert forall|a: int, b: int| 0 <= a < parts.len() && 0 <= b < parts[a].len() implies !text::white_space(
        #[trigger] parts[a][b],
    ) by {
        lemma_words_are_dense(s, a, b);
    }
    lemma_joined_white_space(parts, i);
}

/// `s` without the characters of `dropped`.
pub open spec fn without(s: Seq<char>, dropped: Seq<char>) -> Seq<char>
    decreases s.len(),
{
    if s.len() == 0 {
        Seq::empty()
    } else if dropped.contains(s.last()) {
        without(s.drop_last(), dropped)
    } else {
        without(s.drop_last(), dropped).push(s.last())
    }
}

/// What is left holds none of the dropped characters.
pub proof fn lemma_without_holds(s: Seq<char>, dropped: Seq<char>, i: int)
    requires
        0 <= i < without(s, dropped).len(),
    ensures
        !dropped.contains(without(s, dropped)[i]),
    decreases s.len(),
{
    if s.len() > 0 {
        if dropped.contains(s.last()) || i < without(s.drop_last(), dropped).len() {
            lemma_without_holds(s.drop_last(), dropped, i);
        }
    }
}

/// A text that holds none of the dropped characters stays as it is.
pub proof fn lemma_without_stays(s: Seq<char>, dropped: Seq<char>)
    requires
        forall|i: int| 0 <= i < s.len() ==> !dropped.contains(#[trigger] s[i]),
    ensures
        without(s, dropped) == s,
    decreases s.len(),
{
    if s.len() > 0 {
        assert(!dropped.contains(s[s.len() - 1]));
        assert forall|i: int| 0 <= i < s.drop_last().len() implies !dropped.contains(
            #[trigger] s.drop_last()[i],
        ) by {
            assert(!dropped.contains(s[i]));
        }
        lemma_without_stays(s.drop_last(), dropped);
        assert(s.drop_last().push(s.last()) =~= s);
    }
}

fn holds(chars: &Vec<char>, c: char) -> (r: bool)
    ensures
        r == chars@.contains(c),
{
    let mut i: usize = 0;
    while i < chars.len()
        invariant
            i <= chars@.len(),
            forall|k: int| 0 <= k < i ==> chars@[k] != c,
        decreases chars@.len() - i,
    {
        if chars[i] == c {
            return true;
        }
        i = i + 1;
    }
    false
}

/// Removes each character of `dropped` from `s`.
pub fn str_without(s: &str, dropped: &str) -> (r: String)
    ensures
        r@ == without(s@, dropped@),
{
    let chars = chars_of(s);
    let dropped_chars = chars_of(dropped);
    let mut r: String = String::new();
    let mut i: usize = 0;
    while i < chars.len()
        invariant
            i <= chars@.len(),
            dropped_chars@ == dropped@,
            r@ == without(chars@.take(i as int), dropped@),
        decreases chars@.len() - i,
    {
        assert(chars@.take(i + 1).drop_last() == chars@.take(i as int));
        if !holds(&dropped_chars, chars[i]) {
            push_char(&mut r, chars[i]);
        }
        i = i + 1;
    }
    assert(chars@.take(i as int) == chars@);
    r
}

/// The lower-case form of an ASCII letter; any other character itself.
pub open spec fn ascii_lower(c: char) -> char {
    if 'A' <= c <= 'Z' {
        (c as u32 + 32) as char
    } else {
        c
    }
}

/// `s` with its ASCII letters in lower case.
pub open spec fn ascii_lowercase(s: Seq<char>) -> Seq<char> {
    s.map_values(|c: char| ascii_lower(c))
}

fn lower(c: char) -> (r: char)
    ensures
        r == ascii_lower(c),
{
    if 'A' <= c && c <= 'Z' {
        ((c as u8) + 32) as char
    } else {
        c
    }
}

/// Puts the ASCII letters of `s` into lower case.
pub fn str_ascii_lowercase(s: &str) -> (r: String)
    ensures
        r@ == ascii_lowercase(s@),
{
    let chars = chars_of(s);
    let mut r: String = String::new();
    let mut i: usize = 0;
    while i < chars.len()
        invariant
            i <= chars@.len(),
            r@ == ascii_lowercase(chars@.take(i as int)),
        decreases chars@.len() - i,
    {
        push_char(&mut r, lower(chars[i]));
        i = i + 1;
        assert(chars@.take(i as int) == chars@.take(i - 1).push(chars@[i - 1]));
    }
    assert(chars@.take(i as int) == chars@);
    r
}

} // verus!

//! What holds of the operations on texts, whatever the texts.
use vstd::prelude::*;

use crate::number;
use crate::order;
use crate::text;
use crate::text::CharClass;
use crate::words;

verus! {

/// Whether no character of `s` is `c`.
pub open spec fn lacks(s: Seq<char>, c: char) -> bool {
    forall|i: int| 0 <= i < s.len() ==> s[i] != c
}

/// Trimming the start of a text takes away a part at its start: all of that part
/// is in the class, and what is left does not begin in it.
pub proof fn trimmed_start_is_a_tail(s: Seq<char>, class: CharClass) -> (n: int)
    ensures
        0 <= n <= s.len(),
        text::trim_start_class(s, class) == s.skip(n),
        forall|i: int| 0 <= i < n ==> text::class_has(class, s[i]),
        n < s.len() ==> !text::class_has(class, s[n]),
    decreases s.len(),
{
    if s.len() > 0 && text::class_has(class, s[0]) {
        let m = trimmed_start_is_a_tail(s.skip(1), class);
        assert(s.skip(1).skip(m) =~= s.skip(m + 1));
        assert forall|i: int| 0 <= i < m + 1 implies text::class_has(class, s[i]) by {
            if i > 0 {
                assert(s.skip(1)[i - 1] == s[i]);
            }
        }
        m + 1
    } else {
        assert(s.skip(0) =~= s);
        0
    }
}

/// Trimming the end of a text takes away a part at its end: all of that part is
/// in the class, and what is left does not end in it.
pub proof fn trimmed_end_is_a_head(s: Seq<char>, class: CharClass) -> (n: int)
    ensures
        0 <= n <= s.len(),
        text::trim_end_class(s, class) == s.take(n),
        forall|i: int| n <= i < s.len() ==> text::class_has(class, s[i]),
        n > 0 ==> !text::class_has(class, s[n - 1]),
    decreases s.len(),
{
    if s.len() > 0 && text::class_has(class, s.last()) {
        let m = trimmed_end_is_a_head(s.drop_last(), class);
        assert(s.drop_last().take(m) =~= s.take(m));
        assert forall|i: int| m <= i < s.len() implies text::class_has(class, s[i]) by {
            if i < s.len() - 1 {
                assert(s.drop_last()[i] == s[i]);
            }
        }
        m
    } else {
        assert(s.take(s.len() as int) =~= s);
        s.len() as int
    }
}

/// Trimming a text takes white space away from both of its ends, and no more: what
/// is left has none at its ends.
pub proof fn trimmed_is_the_middle(s: Seq<char>) -> (r: (int, int))
    ensures
        0 <= r.0 <= r.1 <= s.len(),
        text::trim(s) == s.subrange(r.0, r.1),
        forall|i: int| 0 <= i < r.0 ==> text::white_space(s[i]),
        forall|i: int| r.1 <= i < s.len() ==> text::white_space(s[i]),
        r.0 < r.1 ==> !text::white_space(s[r.0]) && !text::white_space(s[r.1 - 1]),
{
    let a = trimmed_start_is_a_tail(s, CharClass::White);
    let head = s.skip(a);
    let m = trimmed_end_is_a_head(head, CharClass::White);
    assert(head.take(m) =~= s.subrange(a, a + m));
    assert forall|i: int| a + m <= i < s.len() implies text::white_space(s[i]) by {
        assert(head[i - a] == s[i]);
        assert(text::class_has(CharClass::White, head[i - a]));
    }
    assert forall|i: int| 0 <= i < a implies text::white_space(s[i]) by {
        assert(text::class_has(CharClass::White, s[i]));
    }
    (a, a + m)
}

/// The classes that texts are trimmed by: white space, the slash, and the marks
/// that open a line of Markdown, with the space.
pub proof fn classes_hold_their_characters(c: char)
    ensures
        text::class_has(CharClass::White, c) == text::white_space(c),
        text::class_has(CharClass::Slash, c) <==> c == '/',
        text::class_has(CharClass::LineMark, c) <==> seq!['#', '>', '-', '*', '•', ' '].contains(c),
{
    let marks = seq!['#', '>', '-', '*', '•', ' '];
    assert(marks[0] == '#' && marks[1] == '>' && marks[2] == '-' && marks[3] == '*' && marks[4]
        == '•' && marks[5] == ' ');
    if marks.contains(c) {
        let i = choose|i: int| 0 <= i < marks.len() && marks[i] == c;
        assert(i == 0 || i == 1 || i == 2 || i == 3 || i == 4 || i == 5);
    }
}

/// Stripping a prefix undoes putting it in front, and does nothing else.
pub proof fn stripping_undoes_prefixing(s: Seq<char>, pat: Seq<char>)
    ensures
        text::strip_prefix(pat + s, pat) == Some(s),
        text::strip_prefix(s, pat) matches Some(rest) ==> s == pat + rest,
        text::strip_prefix(s, pat) is None ==> forall|rest: Seq<char>| s != #[trigger] (pat + rest),
{
    let whole = pat + s;
    assert(whole.subrange(0, pat.len() as int) =~= pat);
    assert(whole.skip(pat.len() as int) =~= s);
    if let Some(rest) = text::strip_prefix(s, pat) {
        assert(s.subrange(0, pat.len() as int) == pat);
        assert(s =~= pat + rest);
    } else {
        assert forall|rest: Seq<char>| s != #[trigger] (pat + rest) by {
            if s == pat + rest {
                assert(s.subrange(0, pat.len() as int) =~= pat);
            }
        }
    }
}

/// The first occurrence of a pattern is replaced, and what follows it is looked
/// through in turn: for a text whose first occurrence is at the end of `head`.
pub proof fn first_occurrence_is_replaced(
    head: Seq<char>,
    pat: Seq<char>,
    tail: Seq<char>,
    with: Seq<char>,
)
    requires
        pat.len() > 0,
        forall|i: int|
            0 <= i < head.len() ==> !pat.is_prefix_of(#[trigger] (head + pat + tail).skip(i)),
    ensures
        text::replace_all(head + pat + tail, pat, with) == head + with + text::replace_all(
            tail,
            pat,
            with,
        ),
    decreases head.len(),
{
    let s = head + pat + tail;
    if head.len() == 0 {
        assert(s =~= pat + tail);
        assert(s.subrange(0, pat.len() as int) =~= pat);
        assert(s.skip(pat.len() as int) =~= tail);
        assert(head + with =~= with);
    } else {
        assert(s.skip(0) =~= s);
        let rest = head.skip(1);
        assert(s.skip(1) =~= rest + pat + tail);
        assert forall|i: int| 0 <= i < rest.len() implies !pat.is_prefix_of(
            #[trigger] (rest + pat + tail).skip(i),
        ) by {
            assert((rest + pat + tail).skip(i) =~= s.skip(i + 1));
        }
        first_occurrence_is_replaced(rest, pat, tail, with);
        assert(seq![s[0]] + (rest + with + text::replace_all(tail, pat, with)) =~= head + with
            + text::replace_all(tail, pat, with));
    }
}

/// A text without the pattern stays as it is.
pub proof fn nothing_is_replaced_elsewhere(s: Seq<char>, pat: Seq<char>, with: Seq<char>)
    requires
        forall|i: int| 0 <= i < s.len() ==> !pat.is_prefix_of(#[trigger] s.skip(i)),
    ensures
        text::replace_all(s, pat, with) == s,
    decreases s.len(),
{
    if s.len() > 0 && pat.len() > 0 {
        assert(s.skip(0) =~= s);
        assert forall|i: int| 0 <= i < s.skip(1).len() implies !pat.is_prefix_of(
            #[trigger] s.skip(1).skip(i),
        ) by {
            assert(s.skip(1).skip(i) =~= s.skip(i + 1));
        }
        nothing_is_replaced_elsewhere(s.skip(1), pat, with);
        assert(seq![s[0]] + s.skip(1) =~= s);
    }
}

/// A text is its pieces with the separator between each two, and no piece holds
/// the separator.
pub proof fn pieces_make_the_text(s: Seq<char>, c: char)
    ensures
        words::join(words::pieces(s, c), seq![c]) == s,
        words::pieces(s, c).len() > 0,
        forall|i: int| 0 <= i < words::pieces(s, c).len() ==> lacks(#[trigger] words::pieces(s, c)[i], c),
    decreases s.len(),
{
    words::lemma_before_bound(s, c);
    let at = words::before(s, c) as int;
    let all = words::pieces(s, c);
    if at < s.len() {
        let rest = s.skip(at + 1);
        pieces_make_the_text(rest, c);
        let others = words::pieces(rest, c);
        join_takes_one_in_front(s.take(at), others, seq![c]);
        assert(all =~= seq![s.take(at)] + others);
        assert(s.take(at) + seq![c] + rest =~= s);
        assert forall|i: int| 0 <= i < all.len() implies lacks(#[trigger] all[i], c) by {
            if i > 0 {
                assert(all[i] == others[i - 1]);
            }
        }
    } else {
        assert(all =~= seq![s]);
    }
}

/// Joining puts the separator between the first part and the others.
pub proof fn join_takes_one_in_front(first: Seq<char>, others: Seq<Seq<char>>, sep: Seq<char>)
    ensures
        others.len() == 0 ==> words::join(seq![first] + others, sep) == first,
        others.len() > 0 ==> words::join(seq![first] + others, sep) == first + sep + words::join(
            others,
            sep,
        ),
        words::join(Seq::<Seq<char>>::empty(), sep) == Seq::<char>::empty(),
    decreases others.len(),
{
    let all = seq![first] + others;
    if others.len() > 0 {
        let init = others.drop_last();
        join_takes_one_in_front(first, init, sep);
        assert(all.drop_last() =~= seq![first] + init);
        assert(all.last() == others.last());
        if init.len() > 0 {
            assert(words::join(all, sep) =~= first + sep + words::join(others, sep));
        } else {
            assert(others =~= seq![others[0]]);
            assert(words::join(others, sep) == others[0]);
        }
    }
}

/// Splitting at the first `c` cuts a text into what is before it, which has none,
/// and what is after it.
pub proof fn split_is_at_the_first(s: Seq<char>, c: char)
    ensures
        words::split_first(s, c) matches Some((head, tail)) ==> s == head.push(c) + tail && lacks(
            head,
            c,
        ),
        words::split_first(s, c) is None ==> lacks(s, c),
{
    words::lemma_before_bound(s, c);
    let at = words::before(s, c) as int;
    if at < s.len() {
        assert(s =~= s.take(at).push(c) + s.skip(at + 1));
    }
}

/// The lines of a text: its first line and the lines of what follows the line
/// feed. What follows the last line feed is a line where it is not empty.
pub proof fn lines_end_at_line_feeds(line: Seq<char>, rest: Seq<char>)
    requires
        lacks(line, '\n'),
    ensures
        words::lines(line.push('\n') + rest) == seq![line] + words::lines(rest),
        line.len() > 0 ==> words::lines(line) == seq![line],
        words::lines(Seq::<char>::empty()) == Seq::<Seq<char>>::empty(),
{
    words::lemma_first_line(line, rest);
    words::lemma_before_bound(line, '\n');
}

/// The words of a text: white space in front does not matter, and a run without
/// white space, up to white space or to the end, is a word.
pub proof fn words_are_runs(blank: Seq<char>, word: Seq<char>, gap: char, rest: Seq<char>)
    requires
        text::is_blank(blank),
        word.len() > 0,
        forall|i: int| 0 <= i < word.len() ==> !text::white_space(#[trigger] word[i]),
        text::white_space(gap),
    ensures
        words::words(blank) == Seq::<Seq<char>>::empty(),
        words::words(blank + rest) == words::words(rest),
        words::words(word) == seq![word],
        words::words(word.push(gap) + rest) == seq![word] + words::words(rest),
    decreases blank.len(),
{
    if blank.len() > 0 {
        let less = blank.skip(1);
        assert(text::white_space(blank[0]));
        assert forall|i: int| 0 <= i < less.len() implies text::white_space(#[trigger] less[i]) by {
            assert(text::white_space(blank[i + 1]));
        }
        words_are_runs(less, word, gap, rest);
        assert((blank + rest).skip(1) =~= less + rest);
    } else {
        assert(blank + rest =~= rest);
        assert(blank =~= Seq::<char>::empty());
    }
    words::lemma_word_len_is(word, word.len() as int);
    assert(!text::white_space(word[0]));
    assert(word.take(word.len() as int) =~= word);
    assert(word.skip(word.len() as int) =~= Seq::<char>::empty());
    assert(seq![word] + Seq::<Seq<char>>::empty() =~= seq![word]);
    let s = word.push(gap) + rest;
    assert forall|i: int| 0 <= i < word.len() implies !text::white_space(s[i]) by {
        assert(s[i] == word[i]);
    }
    assert(s[word.len() as int] == gap);
    words::lemma_word_len_is(s, word.len() as int);
    assert(s[0] == word[0]);
    assert(s.take(word.len() as int) =~= word);
    let tail = s.skip(word.len() as int);
    assert(tail[0] == gap);
    assert(tail.skip(1) =~= rest);
    assert(words::words(tail) == words::words(rest));
}

/// Dropping characters goes through a text part by part: it takes the dropped
/// characters away, and leaves the others.
pub proof fn dropping_goes_by_character(a: Seq<char>, b: Seq<char>, c: char, dropped: Seq<char>)
    ensures
        words::without(a + b, dropped) == words::without(a, dropped) + words::without(b, dropped),
        dropped.contains(c) ==> words::without(seq![c], dropped) == Seq::<char>::empty(),
        !dropped.contains(c) ==> words::without(seq![c], dropped) == seq![c],
    decreases b.len(),
{
    assert(seq![c].drop_last() =~= Seq::<char>::empty());
    assert(Seq::<char>::empty().push(c) =~= seq![c]);
    assert(words::without(Seq::<char>::empty(), dropped) =~= Seq::<char>::empty());
    assert(seq![c].last() == c);
    if b.len() > 0 {
        dropping_goes_by_character(a, b.drop_last(), c, dropped);
        assert((a + b).drop_last() =~= a + b.drop_last());
        assert((a + b).last() == b.last());
        assert(words::without(a + b, dropped) =~= words::without(a, dropped) + words::without(
            b,
            dropped,
        ));
    } else {
        assert(a + b =~= a);
        assert(words::without(a, dropped) + words::without(b, dropped) =~= words::without(
            a,
            dropped,
        ));
    }
}

/// The lower case of ASCII letters: each of the 26 letters becomes its partner,
/// and no other character changes.
pub proof fn lower_case_keeps_all_but_letters(s: Seq<char>, i: int)
    requires
        0 <= i < s.len(),
    ensures
        words::ascii_lowercase(s).len() == s.len(),
        'A' <= s[i] <= 'Z' ==> words::ascii_lowercase(s)[i] as u32 == s[i] as u32 + 32,
        !('A' <= s[i] <= 'Z') ==> words::ascii_lowercase(s)[i] == s[i],
{
}

/// A number is written without leading zeros, with digits alone, and has the value
/// of its digits.
pub proof fn decimals_have_no_leading_zeros(n: nat)
    ensures
        number::decimal(n).len() > 0,
        number::decimal(n).len() > 1 ==> number::decimal(n)[0] != '0',
        forall|i: int|
            0 <= i < number::decimal(n).len() ==> '0' <= #[trigger] number::decimal(n)[i] <= '9',
        number::digits_value(number::decimal(n)) == n,
    decreases n,
{
    number::lemma_decimal(n);
    assert forall|i: int| 0 <= i < number::decimal(n).len() implies '0' <= #[trigger] number::decimal(
        n,
    )[i] <= '9' by {
        assert(number::is_digit(number::decimal(n)[i]));
    }
    if n >= 10 {
        decimals_have_no_leading_zeros(n / 10);
        let d = n / 10;
        assert(number::decimal(n)[0] == number::decimal(d)[0]);
        if d < 10 {
            assert(number::decimal(d) =~= seq![number::digit_char(d)]);
            assert(number::digit_char(d) as u32 - '0' as u32 == d);
        } else {
            number::lemma_decimal(d / 10);
            assert(number::decimal(d).len() > 1);
        }
    }
}

/// The value of digits: one more digit makes it ten times as large, and adds the
/// digit.
pub proof fn digits_count_in_tens(s: Seq<char>, d: char)
    requires
        '0' <= d <= '9',
    ensures
        number::digits_value(Seq::<char>::empty()) == 0,
        number::digits_value(s.push(d)) == 10 * number::digits_value(s) + (d as u32 - 48),
{
    assert(s.push(d).drop_last() =~= s);
}

/// A text reads as a number where it is digits, one at least, with or without one
/// plus sign, and the number fits in 64 bits.
pub proof fn numbers_are_digits(s: Seq<char>)
    ensures
        number::parsed_u64(seq!['+'] + s) matches Some(n) ==> s.len() > 0 && n
            == number::digits_value(s),
        (s.len() > 0 && s[0] != '+') ==> (number::parsed_u64(s) is Some <==> (forall|i: int|
            0 <= i < s.len() ==> '0' <= #[trigger] s[i] <= '9') && number::digits_value(s)
            <= 0xffff_ffff_ffff_ffff),
        number::parsed_u64(s) matches Some(n) ==> (s[0] != '+' ==> n == number::digits_value(s)),
        number::parsed_u64(Seq::<char>::empty()) is None,
        s.len() > 0 && s[0] != '+' ==> number::parsed_u64(seq!['+'] + s) == number::parsed_u64(s),
{
    let plus = seq!['+'] + s;
    assert(plus.skip(1) =~= s);
    if s.len() > 0 && s[0] != '+' {
        if forall|i: int| 0 <= i < s.len() ==> '0' <= #[trigger] s[i] <= '9' {
            assert forall|i: int| 0 <= i < s.len() implies number::is_digit(#[trigger] s[i]) by {}
            assert(number::all_digits(s));
        }
        if number::parsed_u64(s) is Some {
            assert forall|i: int| 0 <= i < s.len() implies '0' <= #[trigger] s[i] <= '9' by {
                assert(number::is_digit(s[i]));
            }
        }
    }
}

/// The order of texts goes by the first character in which they differ, and a text
/// stands before every longer one that begins with it.
pub proof fn order_goes_by_first_difference(common: Seq<char>, a: Seq<char>, b: Seq<char>)
    requires
        a.len() > 0 && b.len() > 0 ==> a[0] != b[0],
    ensures
        a.len() == 0 ==> order::text_le(common + a, common + b),
        a.len() > 0 && b.len() == 0 ==> !order::text_le(common + a, common + b),
        a.len() > 0 && b.len() > 0 ==> (order::text_le(common + a, common + b) <==> a[0] < b[0]),
    decreases common.len(),
{
    if common.len() > 0 {
        let rest = common.skip(1);
        order_goes_by_first_difference(rest, a, b);
        assert((common + a).skip(1) =~= rest + a);
        assert((common + b).skip(1) =~= rest + b);
    } else {
        assert(common + a =~= a);
        assert(common + b =~= b);
    }
}

/// In a sorted list no text stands before an earlier one, unless they are equal.
pub proof fn sorted_lists_rise(s: Seq<Seq<char>>, i: int, j: int)
    requires
        order::is_sorted(s),
        0 <= i < j < s.len(),
    ensures
        order::text_le(s[i], s[j]),
{
}

/// The views of strings are their characters, one by one.
pub proof fn views_are_the_characters(
    v: Seq<String>,
    i: int,
    o: Option<String>,
    r: Result<String, String>,
    e: Result<u64, String>,
)
    requires
        0 <= i < v.len(),
    ensures
        text::views(v).len() == v.len(),
        text::views(v)[i] == v[i]@,
        o is Some ==> text::opt_view(o) == Some(o->0@),
        o is None ==> text::opt_view(o) is None,
        r is Ok ==> text::text_result(r) == Ok::<Seq<char>, Seq<char>>(r->Ok_0@),
        r is Err ==> text::text_result(r) == Err::<Seq<char>, Seq<char>>(r->Err_0@),
        e is Ok ==> text::error_view(e) == Ok::<u64, Seq<char>>(e->Ok_0),
        e is Err ==> text::error_view(e) == Err::<u64, Seq<char>>(e->Err_0@),
{
}

} // verus!

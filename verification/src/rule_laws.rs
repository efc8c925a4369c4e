//! What holds of the rules that schedules are made of.
use vstd::prelude::*;

use crate::number;
use crate::recurrence;
use crate::tagged;
use crate::text_laws;
use crate::words;

verus! {

/// Whether `n` digits stand in `s` from `i` on.
pub open spec fn digits_at(s: Seq<char>, i: int, n: int) -> bool {
    &&& 0 <= i
    &&& i + n <= s.len()
    &&& forall|k: int| i <= k < i + n ==> '0' <= #[trigger] s[k] <= '9'
}

/// Whether each date in a rule is a date and time in UTC: eight digits are followed
/// by `T`, six digits and `Z`.
pub open spec fn dates_are_utc(rule: Seq<char>) -> bool {
    forall|i: int| #[trigger]
        digits_at(rule, i, 8) ==> i + 16 <= rule.len() && rule[i + 8] == 'T' && digits_at(
            rule,
            i + 9,
            6,
        ) && rule[i + 15] == 'Z'
}

/// A piece of a text is a part of it, from the start or a separator up to a
/// separator or the end.
proof fn lemma_piece_is_part(s: Seq<char>, c: char, i: int) -> (at: int)
    requires
        0 <= i < words::pieces(s, c).len(),
    ensures
        0 <= at,
        at + words::pieces(s, c)[i].len() <= s.len(),
        words::pieces(s, c)[i] == s.subrange(at, at + words::pieces(s, c)[i].len()),
        at > 0 ==> s[at - 1] == c,
        at + words::pieces(s, c)[i].len() < s.len() ==> s[at + words::pieces(s, c)[i].len()] == c,
    decreases s.len(),
{
    words::lemma_before_bound(s, c);
    let cut = words::before(s, c) as int;
    let all = words::pieces(s, c);
    if cut >= s.len() {
        assert(all =~= seq![s]);
        assert(s.subrange(0, s.len() as int) =~= s);
        0
    } else {
        let rest = s.skip(cut + 1);
        assert(all =~= seq![s.take(cut)] + words::pieces(rest, c));
        if i == 0 {
            assert(s.subrange(0, cut) =~= s.take(cut));
            0
        } else {
            let at = lemma_piece_is_part(rest, c, i - 1);
            let piece = words::pieces(rest, c)[i - 1];
            assert(all[i] == piece);
            assert(rest.subrange(at, at + piece.len()) =~= s.subrange(
                cut + 1 + at,
                cut + 1 + at + piece.len(),
            ));
            cut + 1 + at
        }
    }
}

/// A text without the separator is its only piece.
proof fn lemma_one_piece(s: Seq<char>, c: char)
    requires
        text_laws::lacks(s, c),
    ensures
        words::pieces(s, c) == seq![s],
{
    words::lemma_before_bound(s, c);
}

/// The pieces of two texts with the separator between them are the pieces of both.
proof fn lemma_pieces_meet(a: Seq<char>, b: Seq<char>, c: char)
    ensures
        words::pieces(a.push(c) + b, c) == words::pieces(a, c) + words::pieces(b, c),
    decreases a.len(),
{
    let s = a.push(c) + b;
    words::lemma_before_bound(a, c);
    words::lemma_before_bound(s, c);
    let cut = words::before(a, c) as int;
    let here = words::before(s, c) as int;
    assert forall|i: int| 0 <= i < cut implies s[i] != c by {
        assert(s[i] == a[i]);
    }
    assert(s[cut] == c) by {
        if cut < a.len() {
            assert(s[cut] == a[cut]);
        }
    }
    assert(here == cut) by {
        if here < cut {
            assert(s[here] != c);
        } else if here > cut {
            assert(s[cut] != c);
        }
    }
    if cut < a.len() {
        let rest = a.skip(cut + 1);
        lemma_pieces_meet(rest, b, c);
        assert(s.skip(cut + 1) =~= rest.push(c) + b);
        assert(s.take(cut) =~= a.take(cut));
        assert(words::pieces(s, c) =~= words::pieces(a, c) + words::pieces(b, c));
    } else {
        assert(s.take(cut) =~= a);
        assert(s.skip(cut + 1) =~= b);
        assert(words::pieces(s, c) =~= words::pieces(a, c) + words::pieces(b, c));
    }
}

/// The parts of a rule of one line are the pieces of the rule.
proof fn lemma_one_line(rule: Seq<char>)
    requires
        text_laws::lacks(rule, '\n'),
    ensures
        recurrence::line_count(rule) == 1,
        recurrence::parts_of(rule, 0) == words::pieces(rule, ';'),
{
    lemma_one_piece(rule, '\n');
}

/// A date without a time zone that ends where a part, an item or a line does is a
/// date that is not in UTC.
proof fn lemma_no_zoneless(rule: Seq<char>, date: Seq<char>, at: int)
    requires
        dates_are_utc(rule),
        0 <= at,
        at + date.len() <= rule.len(),
        date == rule.subrange(at, at + date.len()),
        at + date.len() < rule.len() ==> rule[at + date.len()] != 'T' && rule[at + date.len()]
            != 'Z',
    ensures
        !recurrence::is_zoneless(date),
{
    if recurrence::is_zoneless(date) {
        let day = date.subrange(0, 8);
        assert forall|k: int| at <= k < at + 8 implies '0' <= #[trigger] rule[k] <= '9' by {
            assert(date[k - at] == rule[k]);
            if date.len() == 8 {
                assert(number::is_digit(date[k - at]));
            } else {
                assert(number::is_digit(day[k - at]));
            }
        }
        assert(digits_at(rule, at, 8));
    }
}

/// The value of a line is a part of the rule, up to the end of the line.
proof fn lemma_value_is_part(rule: Seq<char>, l: int) -> (at: int)
    requires
        0 <= l < recurrence::line_count(rule),
    ensures
        ({
            let value = recurrence::value_of(rule, l);
            &&& 0 <= at
            &&& at + value.len() <= rule.len()
            &&& value == rule.subrange(at, at + value.len())
            &&& at + value.len() < rule.len() ==> rule[at + value.len()] == '\n' || rule[at
                + value.len()] == '\r'
        }),
{
    let whole = words::pieces(rule, '\n')[l];
    let from = lemma_piece_is_part(rule, '\n', l);
    let line = recurrence::line_of(rule, l);
    assert(line =~= rule.subrange(from, from + line.len()));
    if line.len() < whole.len() {
        assert(rule[from + line.len()] == whole[line.len() as int]);
    }
    let value = recurrence::value_of(rule, l);
    text_laws::split_is_at_the_first(line, ':');
    if l > 0 && words::split_first(line, ':') is Some {
        let (head, tail) = words::split_first(line, ':')->0;
        let at = from + head.len() + 1;
        assert(line =~= head.push(':') + tail);
        assert forall|k: int| 0 <= k < tail.len() implies tail[k] == rule[at + k] by {
            assert(line[head.len() + 1 + k] == tail[k]);
        }
        assert(tail =~= rule.subrange(at, at + tail.len()));
        at
    } else {
        from
    }
}

/// A piece of the value of a line is a part of the rule, up to the separator or to the
/// end of the line.
proof fn lemma_value_piece(rule: Seq<char>, l: int, c: char, i: int) -> (at: int)
    requires
        0 <= l < recurrence::line_count(rule),
        0 <= i < words::pieces(recurrence::value_of(rule, l), c).len(),
    ensures
        ({
            let piece = words::pieces(recurrence::value_of(rule, l), c)[i];
            let end = at + piece.len();
            &&& 0 <= at
            &&& end <= rule.len()
            &&& piece == rule.subrange(at, end)
            &&& end < rule.len() ==> rule[end] == c || rule[end] == '\n' || rule[end] == '\r'
        }),
{
    let value = recurrence::value_of(rule, l);
    let piece = words::pieces(value, c)[i];
    let from = lemma_value_is_part(rule, l);
    let off = lemma_piece_is_part(value, c, i);
    assert(piece =~= rule.subrange(from + off, from + off + piece.len())) by {
        assert forall|k: int| 0 <= k < piece.len() implies piece[k] == rule[from + off + k] by {
            assert(value[off + k] == piece[k]);
        }
    }
    if off + piece.len() < value.len() {
        assert(rule[from + off + piece.len()] == value[off + piece.len()]);
    }
    from + off
}

proof fn lemma_line_is_steady(rule: Seq<char>, l: int)
    requires
        dates_are_utc(rule),
        0 <= l < recurrence::line_count(rule),
    ensures
        !recurrence::line_ends_zoneless(rule, l),
        !recurrence::lists_zoneless(rule, l),
{
    let parts = recurrence::parts_of(rule, l);
    assert forall|p: int| 0 <= p < parts.len() implies !recurrence::ends_zoneless(
        #[trigger] parts[p],
    ) by {
        if recurrence::ends_zoneless(parts[p]) {
            let part = parts[p];
            let at = lemma_value_piece(rule, l, ';', p);
            text_laws::split_is_at_the_first(part, '=');
            let (name, value) = words::split_first(part, '=')->0;
            let off = at + name.len() + 1;
            assert(part =~= name.push('=') + value);
            assert(value =~= rule.subrange(off, off + value.len())) by {
                assert forall|k: int| 0 <= k < value.len() implies value[k] == rule[off + k] by {
                    assert(part[name.len() + 1 + k] == value[k]);
                }
            }
            assert(off + value.len() == at + part.len());
            lemma_no_zoneless(rule, value, off);
        }
    }
    let items = words::pieces(recurrence::value_of(rule, l), ',');
    assert forall|k: int| 0 <= k < items.len() implies !recurrence::is_zoneless(
        #[trigger] items[k],
    ) by {
        let at = lemma_value_piece(rule, l, ',', k);
        lemma_no_zoneless(rule, items[k], at);
    }
}

/// A rule whose dates are all in UTC means the same on every machine, however many
/// lines it has.
pub proof fn utc_rules_are_steady(rule: Seq<char>)
    requires
        dates_are_utc(rule),
    ensures
        recurrence::steady_rule(rule),
{
    assert forall|l: int| 0 <= l < recurrence::line_count(rule) implies !(
    #[trigger] recurrence::line_ends_zoneless(rule, l)) && (l > 0 ==> !recurrence::lists_zoneless(
        rule,
        l,
    )) by {
        lemma_line_is_steady(rule, l);
    }
}

/// A rule of one line that does not mean the same on every machine has a part that
/// ends it, in letters of either case, at a date or at a date and a time without a
/// time zone. The dotless i counts as an i.
pub proof fn unsteady_rules_end_without_zone(rule: Seq<char>) -> (r: (
    Seq<char>,
    Seq<char>,
    Seq<char>,
    Seq<char>,
))
    requires
        text_laws::lacks(rule, '\n'),
        !recurrence::steady_rule(rule),
    ensures
        ({
            let (front, name, end, back) = r;
            &&& rule == front + name.push('=') + end + back
            &&& front.len() == 0 || front.last() == ';'
            &&& back.len() == 0 || back[0] == ';'
            &&& name.len() == 5
            &&& name[0] == 'u' || name[0] == 'U'
            &&& name[1] == 'n' || name[1] == 'N'
            &&& name[2] == 't' || name[2] == 'T'
            &&& name[3] == 'i' || name[3] == 'I' || name[3] == '\u{131}'
            &&& name[4] == 'l' || name[4] == 'L'
            &&& (end.len() == 8 && digits_at(end, 0, 8)) || (end.len() == 15 && digits_at(end, 0, 8)
                && end[8] == 'T' && digits_at(end, 9, 6))
        }),
{
    lemma_one_line(rule);
    assert(recurrence::line_ends_zoneless(rule, 0));
    let parts = words::pieces(rule, ';');
    assert(recurrence::parts_of(rule, 0) == parts);
    let p = choose|p: int|
        0 <= p < recurrence::parts_of(rule, 0).len() && recurrence::ends_zoneless(
            #[trigger] recurrence::parts_of(rule, 0)[p],
        );
    let part = parts[p];
    let at = lemma_piece_is_part(rule, ';', p);
    text_laws::split_is_at_the_first(part, '=');
    let (name, end) = words::split_first(part, '=')->0;
    let front = rule.take(at);
    let back = rule.skip(at + part.len());
    assert(rule =~= front + part + back);
    assert(part == name.push('=') + end);
    assert(front + part + back =~= front + name.push('=') + end + back);
    reveal_strlit("until");
    let low = recurrence::folded(name);
    assert(low == "until"@);
    assert(low.len() == name.len());
    assert(low[0] == 'u' && low[1] == 'n' && low[2] == 't' && low[3] == 'i' && low[4] == 'l');
    assert forall|i: int| 0 <= i < 5 implies (#[trigger] name[i] == '\u{131}' && low[i] == 'i')
        || name[i] == low[i] || (name[i] as u32) + 32 == low[i] as u32 by {
        lemma_folded(name, i);
    }
    assert(name[0] == 'u' || name[0] as u32 + 32 == 'u' as u32);
    assert(name[1] == 'n' || name[1] as u32 + 32 == 'n' as u32);
    assert(name[2] == 't' || name[2] as u32 + 32 == 't' as u32);
    assert(name[3] == '\u{131}' || name[3] == 'i' || name[3] as u32 + 32 == 'i' as u32);
    assert(name[4] == 'l' || name[4] as u32 + 32 == 'l' as u32);
    if end.len() == 8 {
        assert forall|k: int| 0 <= k < 8 implies '0' <= #[trigger] end[k] <= '9' by {
            assert(number::is_digit(end[k]));
        }
    } else {
        let day = end.subrange(0, 8);
        let time = end.subrange(9, 15);
        assert forall|k: int| 0 <= k < 8 implies '0' <= #[trigger] end[k] <= '9' by {
            assert(number::is_digit(day[k]));
        }
        assert forall|k: int| 9 <= k < 15 implies '0' <= #[trigger] end[k] <= '9' by {
            assert(number::is_digit(time[k - 9]));
        }
    }
    (front, name, end, back)
}

proof fn lemma_folded(name: Seq<char>, i: int)
    requires
        0 <= i < name.len(),
    ensures
        (name[i] == '\u{131}' && recurrence::folded(name)[i] == 'i') || name[i]
            == recurrence::folded(name)[i] || (name[i] as u32) + 32 == recurrence::folded(
            name,
        )[i] as u32,
{
    text_laws::lower_case_keeps_all_but_letters(name, i);
    assert(words::ascii_lowercase(name)[i] == words::ascii_lower(name[i]));
}

/// A rule of ASCII characters is never left out for the names of its weekdays.
pub proof fn ascii_rules_are_admitted(rule: Seq<char>)
    requires
        forall|i: int| 0 <= i < rule.len() ==> #[trigger] rule[i] <= '\u{7f}',
    ensures
        recurrence::weekdays_cut_cleanly(rule),
{
    assert forall|l: int|
        0 <= l < recurrence::line_count(rule) implies #[trigger] recurrence::line_cuts_cleanly(
        rule,
        l,
    ) by {
        let lines = words::pieces(rule, '\n');
        let at = lemma_piece_is_part(rule, '\n', l);
        lemma_part_is_ascii(rule, at, lines[l]);
        let line = recurrence::line_of(rule, l);
        lemma_ascii_parts(lines[l], line);
        let value = recurrence::value_of(rule, l);
        text_laws::split_is_at_the_first(line, ':');
        assert(is_ascii(value)) by {
            if l > 0 {
                if let Some((head, tail)) = words::split_first(line, ':') {
                    assert forall|i: int| 0 <= i < tail.len() implies #[trigger] tail[i]
                        <= '\u{7f}' by {
                        assert(line[head.len() + 1 + i] == tail[i]);
                    }
                }
            }
        }
        let parts = recurrence::parts_of(rule, l);
        assert forall|p: int| 0 <= p < parts.len() implies recurrence::part_cuts_cleanly(
            #[trigger] parts[p],
        ) by {
            let from = lemma_piece_is_part(value, ';', p);
            lemma_part_is_ascii(value, from, parts[p]);
            lemma_ascii_part_is_clean(parts[p]);
        }
    }
}

spec fn is_ascii(s: Seq<char>) -> bool {
    forall|i: int| 0 <= i < s.len() ==> #[trigger] s[i] <= '\u{7f}'
}

proof fn lemma_ascii_parts(whole: Seq<char>, line: Seq<char>)
    requires
        is_ascii(whole),
        line == whole || (whole.len() > 0 && line == whole.drop_last()),
    ensures
        is_ascii(line),
{
    assert forall|i: int| 0 <= i < line.len() implies #[trigger] line[i] <= '\u{7f}' by {
        assert(line[i] == whole[i]);
    }
}

proof fn lemma_part_is_ascii(s: Seq<char>, at: int, part: Seq<char>)
    requires
        is_ascii(s),
        0 <= at,
        at + part.len() <= s.len(),
        part == s.subrange(at, at + part.len()),
    ensures
        is_ascii(part),
{
    assert forall|i: int| 0 <= i < part.len() implies #[trigger] part[i] <= '\u{7f}' by {
        assert(part[i] == s[at + i]);
    }
}

proof fn lemma_ascii_part_is_clean(part: Seq<char>)
    requires
        is_ascii(part),
    ensures
        recurrence::part_cuts_cleanly(part),
{
    text_laws::split_is_at_the_first(part, '=');
    if let Some((name, list)) = words::split_first(part, '=') {
        assert forall|i: int| 0 <= i < list.len() implies #[trigger] list[i] <= '\u{7f}' by {
            assert(part[name.len() + 1 + i] == list[i]);
        }
        let items = words::pieces(list, ',');
        assert forall|k: int| 0 <= k < items.len() implies recurrence::ends_cleanly(
            #[trigger] items[k],
        ) by {
            let at = lemma_piece_is_part(list, ',', k);
            lemma_part_is_ascii(list, at, items[k]);
            let item = items[k];
            if item.len() > 0 {
                assert(item[item.len() - 1] <= '\u{7f}');
                if item.len() > 1 {
                    assert(item[item.len() - 2] <= '\u{7f}');
                }
            }
        }
    }
}

/// A rule of one line that ends at a date, or at a date and a time, without a time
/// zone is one that every machine refuses, wherever in the rule the end stands and
/// in whatever case it is written.
pub proof fn ends_without_zone_are_seen(
    front: Seq<char>,
    name: Seq<char>,
    end: Seq<char>,
    back: Seq<char>,
)
    requires
        text_laws::lacks(front, '\n'),
        text_laws::lacks(back, '\n'),
        front.len() == 0 || front.last() == ';',
        back.len() == 0 || back[0] == ';',
        words::ascii_lowercase(name) == "until"@,
        (end.len() == 8 && digits_at(end, 0, 8)) || (end.len() == 15 && digits_at(end, 0, 8) && end[8]
            == 'T' && digits_at(end, 9, 6)),
    ensures
        recurrence::zoneless_until(front + name.push('=') + end + back),
        !recurrence::steady_rule(front + name.push('=') + end + back),
{
    let part = name.push('=') + end;
    let rule = front + name.push('=') + end + back;
    reveal_strlit("until");
    let low = words::ascii_lowercase(name);
    assert(low.len() == name.len());
    assert("until"@.len() == 5);
    assert forall|i: int| 0 <= i < 5 implies #[trigger] name[i] != ';' && name[i] != '\n' && name[i]
        != '=' && name[i] != '\u{131}' by {
        text_laws::lower_case_keeps_all_but_letters(name, i);
        assert(low[i] == "until"@[i]);
    }
    assert forall|i: int| 0 <= i < end.len() implies #[trigger] end[i] != ';' && end[i] != '\n' by {}
    assert forall|i: int| 0 <= i < part.len() implies #[trigger] part[i] != ';' && part[i]
        != '\n' by {
        if i < 5 {
            assert(part[i] == name[i]);
        } else if i > 5 {
            assert(part[i] == end[i - 6]);
        }
    }
    assert(rule =~= front + part + back);
    assert forall|i: int| 0 <= i < rule.len() implies rule[i] != '\n' by {
        if i < front.len() {
            assert(rule[i] == front[i]);
        } else if i < front.len() + part.len() {
            assert(rule[i] == part[i - front.len()]);
        } else {
            assert(rule[i] == back[i - front.len() - part.len()]);
        }
    }
    lemma_one_line(rule);
    let parts = words::pieces(rule, ';');
    lemma_one_piece(part, ';');
    let tail = part + back;
    let p: int = if front.len() > 0 {
        words::pieces(front.drop_last(), ';').len() as int
    } else {
        0
    };
    assert(words::pieces(tail, ';')[0] == part) by {
        if back.len() > 0 {
            assert(tail =~= part.push(';') + back.skip(1));
            lemma_pieces_meet(part, back.skip(1), ';');
        } else {
            assert(tail =~= part);
        }
    }
    assert(words::pieces(tail, ';').len() > 0) by {
        text_laws::pieces_make_the_text(tail, ';');
    }
    if front.len() > 0 {
        assert(rule =~= front.drop_last().push(';') + tail);
        lemma_pieces_meet(front.drop_last(), tail, ';');
    } else {
        assert(rule =~= tail);
    }
    assert(parts[p] == part);
    words::lemma_before_bound(part, '=');
    assert(part[5] == '=');
    assert(words::before(part, '=') == 5) by {
        let at = words::before(part, '=') as int;
        if at < 5 {
            assert(part[at] == name[at]);
        } else if at > 5 {
            assert(part[5] != '=');
        }
    }
    assert(part.take(5) =~= name);
    assert(part.skip(6) =~= end);
    assert(recurrence::folded(name) =~= "until"@) by {
        assert forall|i: int| 0 <= i < 5 implies recurrence::folded(name)[i] == "until"@[i] by {
            assert(name[i] != '\u{131}');
            assert(low[i] == "until"@[i]);
        }
    }
    assert(recurrence::is_zoneless(end)) by {
        if end.len() == 8 {
            assert forall|i: int| 0 <= i < 8 implies number::is_digit(#[trigger] end[i]) by {}
        } else {
            let day = end.subrange(0, 8);
            let time = end.subrange(9, 15);
            assert forall|i: int| 0 <= i < 8 implies number::is_digit(#[trigger] day[i]) by {
                assert(day[i] == end[i]);
            }
            assert forall|i: int| 0 <= i < 6 implies number::is_digit(#[trigger] time[i]) by {
                assert(time[i] == end[9 + i]);
            }
        }
    }
    assert(recurrence::ends_zoneless(parts[p]));
    assert(recurrence::line_ends_zoneless(rule, 0));
}

/// Whether the last two bytes of a text are whole characters, or it has fewer bytes.
pub open spec fn has_two_last_bytes(s: Seq<char>) -> bool {
    tagged::byte_len(s) <= 1 || exists|k: int|
        0 <= k <= s.len() && tagged::byte_len(#[trigger] s.skip(k)) == 2
}

proof fn lemma_width(c: char)
    ensures
        tagged::byte_len(seq![c]) >= 1,
        recurrence::one_byte(c) <==> tagged::byte_len(seq![c]) == 1,
        recurrence::two_bytes_at_most(c) <==> tagged::byte_len(seq![c]) <= 2,
{
    tagged::bytes_add_up(seq![c], seq![c], c);
}

/// The name of a weekday is cut out cleanly where its last two bytes are whole
/// characters.
pub proof fn weekdays_are_the_last_two_bytes(s: Seq<char>)
    ensures
        recurrence::ends_cleanly(s) <==> has_two_last_bytes(s),
{
    let n = s.len() as int;
    if n == 0 {
        tagged::bytes_add_up(s, s, 'a');
        assert(s =~= Seq::<char>::empty());
    } else {
        let last = s.last();
        let one = s.skip(n - 1);
        assert(one =~= seq![last]);
        tagged::bytes_add_up(s.take(n - 1), one, last);
        assert(s =~= s.take(n - 1) + one);
        tagged::lemma_byte_len_at_least(s.take(n - 1));
        if n > 1 {
            let other = s[n - 2];
            let two = s.skip(n - 2);
            assert(two =~= seq![other] + seq![last]);
            tagged::bytes_add_up(seq![other], seq![last], last);
            assert(tagged::byte_len(two) == tagged::byte_len(seq![other]) + tagged::byte_len(
                seq![last],
            ));
            lemma_width(other);
        }
        assert forall|k: int| 0 <= k <= n && tagged::byte_len(#[trigger] s.skip(k)) == 2 implies k
            >= n - 2 && k < n by {
            tagged::lemma_byte_len_at_least(s.skip(k));
            if k == n {
                tagged::bytes_add_up(s, s, 'a');
                assert(s.skip(k) =~= Seq::<char>::empty());
            }
        }
        assert(s.take(0) =~= Seq::<char>::empty());
        assert(n == 1 ==> tagged::byte_len(s) == tagged::byte_len(one));
        lemma_width(last);
        if tagged::byte_len(one) == 2 {
            assert(tagged::byte_len(s.skip(n - 1)) == 2);
        }
        if n > 1 && tagged::byte_len(s.skip(n - 2)) == 2 {
            assert(has_two_last_bytes(s));
        }
        if has_two_last_bytes(s) && tagged::byte_len(s) > 1 {
            let k = choose|k: int|
                0 <= k <= s.len() && tagged::byte_len(#[trigger] s.skip(k)) == 2;
            assert(k == n - 1 || k == n - 2);
            if k == n - 1 {
                assert(tagged::byte_len(one) == 2);
                assert(recurrence::ends_cleanly(s));
            } else {
                assert(tagged::byte_len(s.skip(n - 2)) == 2);
                assert(recurrence::ends_cleanly(s));
            }
        }
        if recurrence::ends_cleanly(s) {
            if recurrence::one_byte(last) && n > 1 {
                assert(tagged::byte_len(s.skip(n - 2)) == 2);
            } else if n > 1 {
                assert(tagged::byte_len(s.skip(n - 1)) == 2);
            }
            assert(has_two_last_bytes(s));
        }
    }
}

/// The parts of a rule of one line are looked at one by one for the names of weekdays.
pub proof fn parts_are_looked_at_one_by_one(a: Seq<char>, b: Seq<char>)
    requires
        text_laws::lacks(a, '\n'),
        text_laws::lacks(b, '\n'),
    ensures
        recurrence::weekdays_cut_cleanly(a.push(';') + b) <==> recurrence::weekdays_cut_cleanly(a)
            && recurrence::weekdays_cut_cleanly(b),
{
    let rule = a.push(';') + b;
    lemma_one_line(rule);
    lemma_one_line(a);
    lemma_one_line(b);
    lemma_pieces_meet(a, b, ';');
    let all = words::pieces(rule, ';');
    let left = words::pieces(a, ';');
    let right = words::pieces(b, ';');
    lemma_clean_line(rule);
    lemma_clean_line(a);
    lemma_clean_line(b);
    assert forall|p: int| 0 <= p < left.len() implies #[trigger] left[p] == all[p] by {}
    assert forall|p: int| 0 <= p < right.len() implies #[trigger] right[p] == all[left.len() + p] by {}
    if recurrence::weekdays_cut_cleanly(a) && recurrence::weekdays_cut_cleanly(b) {
        assert forall|p: int| 0 <= p < all.len() implies recurrence::part_cuts_cleanly(
            #[trigger] all[p],
        ) by {
            if p < left.len() {
                assert(recurrence::part_cuts_cleanly(left[p]));
            } else {
                assert(recurrence::part_cuts_cleanly(right[p - left.len()]));
            }
        }
    }
    if recurrence::weekdays_cut_cleanly(rule) {
        assert forall|p: int| 0 <= p < left.len() implies recurrence::part_cuts_cleanly(
            #[trigger] left[p],
        ) by {
            assert(recurrence::part_cuts_cleanly(all[p]));
        }
        assert forall|p: int| 0 <= p < right.len() implies recurrence::part_cuts_cleanly(
            #[trigger] right[p],
        ) by {
            assert(recurrence::part_cuts_cleanly(all[left.len() + p]));
        }
    }
}

proof fn lemma_clean_line(rule: Seq<char>)
    requires
        text_laws::lacks(rule, '\n'),
    ensures
        recurrence::weekdays_cut_cleanly(rule) <==> (forall|p: int|
            0 <= p < words::pieces(rule, ';').len() ==> recurrence::part_cuts_cleanly(
                #[trigger] words::pieces(rule, ';')[p],
            )),
{
    lemma_one_line(rule);
    let parts = words::pieces(rule, ';');
    assert(recurrence::line_cuts_cleanly(rule, 0) <==> (forall|p: int|
        0 <= p < parts.len() ==> recurrence::part_cuts_cleanly(#[trigger] parts[p])));
    if recurrence::line_cuts_cleanly(rule, 0) {
        assert forall|l: int|
            0 <= l < recurrence::line_count(
                rule,
            ) implies #[trigger] recurrence::line_cuts_cleanly(rule, l) by {
            assert(l == 0);
        }
    }
}

/// A part that lists weekdays, under either of their names and in letters of either
/// case, is left out where an item of the list cannot be cut. No other part is.
pub proof fn lists_of_weekdays_are_cut(name: Seq<char>, list: Seq<char>)
    requires
        text_laws::lacks(name, '\n') && text_laws::lacks(name, ';') && text_laws::lacks(name, '='),
        text_laws::lacks(list, '\n') && text_laws::lacks(list, ';'),
    ensures
        recurrence::weekdays_cut_cleanly(name.push('=') + list) <==> ((words::ascii_lowercase(name)
            == "byday"@ || words::ascii_lowercase(name) == "byweekday"@) ==> forall|k: int|
            0 <= k < words::pieces(list, ',').len() ==> has_two_last_bytes(
                #[trigger] words::pieces(list, ',')[k],
            )),
        recurrence::weekdays_cut_cleanly(name),
{
    let part = name.push('=') + list;
    lemma_one_piece(part, ';');
    lemma_one_piece(name, ';');
    lemma_clean_line(part);
    lemma_clean_line(name);
    text_laws::split_is_at_the_first(name, '=');
    assert(words::split_first(name, '=') is None) by {
        if let Some((head, tail)) = words::split_first(name, '=') {
            assert(name[head.len() as int] == '=');
        }
    }
    assert(words::pieces(name, ';')[0] == name);
    assert(recurrence::part_cuts_cleanly(name));
    words::lemma_before_bound(part, '=');
    let at = words::before(part, '=') as int;
    assert(part[name.len() as int] == '=');
    assert(at == name.len()) by {
        if at < name.len() {
            assert(part[at] == name[at]);
        } else if at > name.len() {
            assert(part[name.len() as int] != '=');
        }
    }
    assert(part.take(at) =~= name);
    assert(part.skip(at + 1) =~= list);
    assert(words::pieces(part, ';')[0] == part);
    lemma_weekday_name(name);
    let items = words::pieces(list, ',');
    assert forall|k: int| 0 <= k < items.len() implies recurrence::ends_cleanly(#[trigger] items[k])
        == has_two_last_bytes(items[k]) by {
        weekdays_are_the_last_two_bytes(items[k]);
    }
    let clean = recurrence::items_end_cleanly(list);
    assert(clean <==> (forall|k: int|
        0 <= k < items.len() ==> has_two_last_bytes(#[trigger] items[k]))) by {
        if clean {
            assert forall|k: int| 0 <= k < items.len() implies has_two_last_bytes(
                #[trigger] items[k],
            ) by {
                assert(recurrence::ends_cleanly(items[k]));
            }
        }
    }
    assert(recurrence::weekdays_cut_cleanly(part) <==> recurrence::part_cuts_cleanly(part)) by {
        assert(words::pieces(part, ';').len() == 1);
    }
}

proof fn lemma_weekday_name(name: Seq<char>)
    ensures
        recurrence::folded(name) == "byday"@ <==> words::ascii_lowercase(name) == "byday"@,
        recurrence::folded(name) == "byweekday"@ <==> words::ascii_lowercase(name) == "byweekday"@,
{
    reveal_strlit("byday");
    reveal_strlit("byweekday");
    let a = recurrence::folded(name);
    let b = words::ascii_lowercase(name);
    assert(a.len() == name.len() && b.len() == name.len());
    assert forall|i: int| 0 <= i < name.len() implies (#[trigger] a[i] == b[i]) || (a[i] == 'i'
        && b[i] == '\u{131}') by {}
    if a == "byday"@ {
        assert(b =~= "byday"@) by {
            assert forall|i: int| 0 <= i < 5 implies b[i] == "byday"@[i] by {
                assert(a[i] == "byday"@[i]);
            }
        }
    }
    if b == "byday"@ {
        assert(a =~= "byday"@) by {
            assert forall|i: int| 0 <= i < 5 implies a[i] == "byday"@[i] by {
                assert(b[i] == "byday"@[i]);
            }
        }
    }
    if a == "byweekday"@ {
        assert(b =~= "byweekday"@) by {
            assert forall|i: int| 0 <= i < 9 implies b[i] == "byweekday"@[i] by {
                assert(a[i] == "byweekday"@[i]);
            }
        }
    }
    if b == "byweekday"@ {
        assert(a =~= "byweekday"@) by {
            assert forall|i: int| 0 <= i < 9 implies a[i] == "byweekday"@[i] by {
                assert(b[i] == "byweekday"@[i]);
            }
        }
    }
}

/// Putting another character than the separator at the end of a text puts it at the
/// end of the last piece.
proof fn lemma_last_piece_grows(s: Seq<char>, c: char, x: char)
    requires
        x != c,
    ensures
        words::pieces(s, c).len() > 0,
        words::pieces(s.push(x), c) == words::pieces(s, c).drop_last().push(
            words::pieces(s, c).last().push(x),
        ),
    decreases s.len(),
{
    let t = s.push(x);
    words::lemma_before_bound(s, c);
    words::lemma_before_bound(t, c);
    let cut = words::before(s, c) as int;
    let here = words::before(t, c) as int;
    if cut >= s.len() {
        assert forall|i: int| 0 <= i < t.len() implies t[i] != c by {
            if i < s.len() {
                assert(t[i] == s[i]);
            }
        }
        lemma_one_piece(t, c);
        lemma_one_piece(s, c);
        assert(words::pieces(t, c) =~= words::pieces(s, c).drop_last().push(
            words::pieces(s, c).last().push(x),
        ));
    } else {
        assert(t[cut] == c);
        assert(here == cut) by {
            if here < cut {
                assert(t[here] == s[here]);
            } else if here > cut {
                assert(t[cut] != c);
            }
        }
        let rest = s.skip(cut + 1);
        lemma_last_piece_grows(rest, c, x);
        assert(t.skip(cut + 1) =~= rest.push(x));
        assert(t.take(cut) =~= s.take(cut));
        let first = seq![s.take(cut)];
        let others = words::pieces(rest, c);
        assert(words::pieces(s, c) =~= first + others);
        assert(words::pieces(t, c) =~= first + others.drop_last().push(others.last().push(x)));
        assert(words::pieces(t, c) =~= words::pieces(s, c).drop_last().push(
            words::pieces(s, c).last().push(x),
        ));
    }
}

/// The last piece of a text ends as the text does, where it is not empty.
proof fn lemma_last_piece_ends(s: Seq<char>, c: char)
    ensures
        words::pieces(s, c).len() > 0,
        words::pieces(s, c).last().len() > 0 ==> s.len() > 0 && words::pieces(s, c).last().last()
            == s.last(),
{
    text_laws::pieces_make_the_text(s, c);
    let parts = words::pieces(s, c);
    if parts.last().len() > 0 {
        if parts.len() > 1 {
            assert(words::join(parts, seq![c]) == words::join(parts.drop_last(), seq![c])
                + seq![c] + parts.last());
        }
    }
}

/// The values of the lines of a rule with a further line are those of its lines before
/// it, and what follows the colon in the further line.
proof fn lemma_further_line(
    rule: Seq<char>,
    property: Seq<char>,
    value: Seq<char>,
    whole: Seq<char>,
    with_return: bool,
)
    requires
        rule.len() > 0 ==> rule.last() != '\r',
        text_laws::lacks(property, '\n') && text_laws::lacks(property, ':'),
        text_laws::lacks(value, '\n'),
        with_return ==> whole == rule.push('\r').push('\n') + (property.push(':') + value),
        !with_return ==> whole == rule.push('\n') + (property.push(':') + value),
    ensures
        recurrence::line_count(whole) == recurrence::line_count(rule) + 1,
        recurrence::line_count(rule) > 0,
        recurrence::value_of(whole, recurrence::line_count(rule) as int) == value,
        forall|l: int|
            0 <= l < recurrence::line_count(rule) ==> #[trigger] recurrence::value_of(whole, l)
                == recurrence::value_of(rule, l),
{
    let last = property.push(':') + value;
    let head = if with_return {
        rule.push('\r')
    } else {
        rule
    };
    assert forall|i: int| 0 <= i < last.len() implies last[i] != '\n' by {
        if i < property.len() {
            assert(last[i] == property[i]);
        } else if i > property.len() {
            assert(last[i] == value[i - property.len() - 1]);
        }
    }
    lemma_one_piece(last, '\n');
    lemma_pieces_meet(head, last, '\n');
    lemma_last_piece_grows(rule, '\n', '\r');
    lemma_last_piece_ends(rule, '\n');
    let lines = words::pieces(rule, '\n');
    let n = lines.len() as int;
    let all = words::pieces(whole, '\n');
    assert(all.len() == n + 1);
    assert(all[n] == last);
    assert(recurrence::line_of(whole, n) == last);
    words::lemma_before_bound(last, ':');
    let at = words::before(last, ':') as int;
    assert(last[property.len() as int] == ':');
    assert(at == property.len()) by {
        if at < property.len() {
            assert(last[at] == property[at]);
        } else if at > property.len() {
            assert(last[property.len() as int] != ':');
        }
    }
    assert(last.skip(at + 1) =~= value);
    assert forall|l: int| 0 <= l < n implies #[trigger] recurrence::value_of(whole, l)
        == recurrence::value_of(rule, l) by {
        if l < n - 1 {
            assert(all[l] == lines[l]);
        } else if with_return {
            assert(all[l] == lines[l].push('\r'));
            assert(all[l].drop_last() =~= lines[l]);
        } else {
            assert(all[l] == lines[l]);
        }
        assert(recurrence::line_of(whole, l) == recurrence::line_of(rule, l));
    }
}

proof fn lemma_same_value(a: Seq<char>, i: int, b: Seq<char>, j: int)
    requires
        recurrence::value_of(a, i) == recurrence::value_of(b, j),
    ensures
        recurrence::line_cuts_cleanly(a, i) == recurrence::line_cuts_cleanly(b, j),
        recurrence::line_ends_zoneless(a, i) == recurrence::line_ends_zoneless(b, j),
        recurrence::lists_zoneless(a, i) == recurrence::lists_zoneless(b, j),
{
    assert(recurrence::parts_of(a, i) == recurrence::parts_of(b, j));
}

proof fn lemma_steady_lines(rule: Seq<char>, whole: Seq<char>)
    requires
        recurrence::steady_rule(whole),
        recurrence::line_count(rule) <= recurrence::line_count(whole),
        forall|l: int|
            0 <= l < recurrence::line_count(rule) ==> #[trigger] recurrence::value_of(whole, l)
                == recurrence::value_of(rule, l),
    ensures
        recurrence::steady_rule(rule),
{
    assert forall|l: int| 0 <= l < recurrence::line_count(rule) implies !(
    #[trigger] recurrence::line_ends_zoneless(rule, l)) && (l > 0 ==> !recurrence::lists_zoneless(
        rule,
        l,
    )) by {
        assert(recurrence::value_of(whole, l) == recurrence::value_of(rule, l));
        lemma_same_value(whole, l, rule, l);
        assert(!recurrence::line_ends_zoneless(whole, l));
    }
}

/// A further line of a rule is looked at like the first: for what follows its colon,
/// and whether or not a carriage return stands before the line feed. A rule with it can
/// be cut where both can. It means the same on every machine where both do, and where
/// the line lists no date without a time zone.
pub proof fn further_lines_are_looked_at(
    rule: Seq<char>,
    property: Seq<char>,
    value: Seq<char>,
    whole: Seq<char>,
)
    requires
        rule.len() > 0 ==> rule.last() != '\r',
        text_laws::lacks(property, '\n') && text_laws::lacks(property, ':'),
        text_laws::lacks(value, '\n'),
        whole == rule.push('\n') + (property.push(':') + value) || whole == rule.push('\r').push(
            '\n',
        ) + (property.push(':') + value),
    ensures
        recurrence::weekdays_cut_cleanly(whole) <==> recurrence::weekdays_cut_cleanly(rule)
            && recurrence::weekdays_cut_cleanly(value),
        recurrence::steady_rule(whole) <==> recurrence::steady_rule(rule)
            && recurrence::steady_rule(value) && forall|k: int|
            0 <= k < words::pieces(value, ',').len() ==> !recurrence::is_zoneless(
                #[trigger] words::pieces(value, ',')[k],
            ),
        recurrence::zoneless_until(whole) <==> recurrence::zoneless_until(rule),
{
    let with_return = whole == rule.push('\r').push('\n') + (property.push(':') + value);
    lemma_further_line(rule, property, value, whole, with_return);
    lemma_one_line(value);
    let n = recurrence::line_count(rule) as int;
    assert(recurrence::value_of(value, 0) == value) by {
        lemma_one_piece(value, '\n');
    }
    lemma_same_value(whole, n, value, 0);
    assert forall|l: int| 0 <= l < n implies #[trigger] recurrence::line_cuts_cleanly(whole, l)
        == recurrence::line_cuts_cleanly(rule, l) by {
        lemma_same_value(whole, l, rule, l);
    }
    assert forall|l: int| 0 <= l < n implies #[trigger] recurrence::line_ends_zoneless(whole, l)
        == recurrence::line_ends_zoneless(rule, l) && recurrence::lists_zoneless(whole, l)
        == recurrence::lists_zoneless(rule, l) by {
        lemma_same_value(whole, l, rule, l);
    }
    if recurrence::weekdays_cut_cleanly(whole) {
        assert(recurrence::line_cuts_cleanly(whole, n));
        assert forall|l: int| 0 <= l < n implies #[trigger] recurrence::line_cuts_cleanly(
            rule,
            l,
        ) by {
            assert(recurrence::line_cuts_cleanly(whole, l));
        }
    }
    if recurrence::weekdays_cut_cleanly(rule) && recurrence::weekdays_cut_cleanly(value) {
        assert(recurrence::line_cuts_cleanly(value, 0));
        assert forall|l: int| 0 <= l < n + 1 implies #[trigger] recurrence::line_cuts_cleanly(
            whole,
            l,
        ) by {
            if l < n {
                assert(recurrence::line_cuts_cleanly(rule, l));
            }
        }
    }
    let items = words::pieces(value, ',');
    assert(recurrence::lists_zoneless(whole, n) <==> exists|k: int|
        0 <= k < items.len() && recurrence::is_zoneless(#[trigger] items[k]));
    if recurrence::steady_rule(whole) {
        assert(!recurrence::line_ends_zoneless(whole, n));
        assert(recurrence::steady_rule(value)) by {
            assert forall|l: int| 0 <= l < 1 implies !(#[trigger] recurrence::line_ends_zoneless(
                value,
                l,
            )) && (l > 0 ==> !recurrence::lists_zoneless(value, l)) by {}
        }
        assert(!recurrence::lists_zoneless(whole, n));
        assert forall|k: int| 0 <= k < items.len() implies !recurrence::is_zoneless(
            #[trigger] items[k],
        ) by {}
        lemma_steady_lines(rule, whole);
    }
    if recurrence::steady_rule(rule) && recurrence::steady_rule(value)
        && !recurrence::lists_zoneless(whole, n) {
        assert(!recurrence::line_ends_zoneless(value, 0));
        assert forall|l: int| 0 <= l < n + 1 implies !(#[trigger] recurrence::line_ends_zoneless(
            whole,
            l,
        )) && (l > 0 ==> !recurrence::lists_zoneless(whole, l)) by {
            if l < n {
                assert(!recurrence::line_ends_zoneless(rule, l));
            }
        }
        assert(recurrence::steady_rule(whole));
    }
}

} // verus!

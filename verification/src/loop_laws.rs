//! What holds of the commands for loops, and of what is said of loops.
use vstd::prelude::*;

use crate::keyed;
use crate::loop_scheduler;
use crate::loop_scheduler::{ActiveLoop, ActiveModel, LoopModel, LoopSpec};
use crate::number;
use crate::text;
use crate::text_laws;
use crate::words;

verus! {

/// Whether a text is digits alone.
pub open spec fn is_digits(s: Seq<char>) -> bool {
    forall|i: int| 0 <= i < s.len() ==> '0' <= #[trigger] s[i] <= '9'
}

/// Whether a text is a word: something without white space.
pub open spec fn is_word(s: Seq<char>) -> bool {
    s.len() > 0 && forall|i: int| 0 <= i < s.len() ==> !text::white_space(#[trigger] s[i])
}

proof fn lemma_digits_end(digits: Seq<char>, unit: Seq<char>)
    requires
        is_digits(digits),
        unit.len() > 0 ==> !('0' <= unit[0] <= '9'),
    ensures
        loop_scheduler::leading_digits(digits + unit) == digits.len(),
        (digits + unit).take(digits.len() as int) == digits,
        (digits + unit).skip(digits.len() as int) == unit,
    decreases digits.len(),
{
    let token = digits + unit;
    assert(token.take(digits.len() as int) =~= digits);
    assert(token.skip(digits.len() as int) =~= unit);
    if digits.len() > 0 {
        let less = digits.skip(1);
        assert forall|i: int| 0 <= i < less.len() implies '0' <= #[trigger] less[i] <= '9' by {
            assert('0' <= digits[i + 1] <= '9');
        }
        lemma_digits_end(less, unit);
        assert(token.skip(1) =~= less + unit);
        assert(number::is_digit(token[0])) by {
            assert('0' <= digits[0] <= '9');
        }
    } else {
        assert(token =~= unit);
    }
}

/// A duration is digits and a unit. Its seconds are the number times those of the
/// unit, and the largest number of 64 bits where they are more.
pub proof fn durations_are_numbers_of_units(digits: Seq<char>, unit: Seq<char>)
    requires
        digits.len() > 0,
        is_digits(digits),
        0 < number::digits_value(digits) <= 0xffff_ffff_ffff_ffff,
        unit.len() > 0 ==> !('0' <= unit[0] <= '9'),
    ensures
        ({
            let n = number::digits_value(digits);
            let read = loop_scheduler::duration_seconds(digits + unit);
            let seconds = unit.len() == 0 || unit == "s"@ || unit == "sec"@ || unit == "secs"@;
            let minutes = unit == "m"@ || unit == "min"@ || unit == "mins"@;
            let hours = unit == "h"@ || unit == "hr"@ || unit == "hrs"@;
            let days = unit == "d"@ || unit == "day"@ || unit == "days"@;
            &&& seconds ==> (read matches Ok(s) && s == n)
            &&& minutes ==> (read matches Ok(s) && (60 * n <= 0xffff_ffff_ffff_ffff ==> s == 60 * n)
                && (60 * n > 0xffff_ffff_ffff_ffff ==> s == 0xffff_ffff_ffff_ffff))
            &&& hours ==> (read matches Ok(s) && (3_600 * n <= 0xffff_ffff_ffff_ffff ==> s == 3_600
                * n) && (3_600 * n > 0xffff_ffff_ffff_ffff ==> s == 0xffff_ffff_ffff_ffff))
            &&& days ==> (read matches Ok(s) && (86_400 * n <= 0xffff_ffff_ffff_ffff ==> s == 86_400
                * n) && (86_400 * n > 0xffff_ffff_ffff_ffff ==> s == 0xffff_ffff_ffff_ffff))
            &&& !(seconds || minutes || hours || days) ==> read == Err::<u64, Seq<char>>(
                "Unsupported /loop duration unit '"@ + unit + "'."@,
            )
        }),
{
    lemma_digits_end(digits, unit);
    assert('0' <= digits[0] <= '9');
    text_laws::numbers_are_digits(digits);
    reveal_strlit("s");
    reveal_strlit("sec");
    reveal_strlit("secs");
    reveal_strlit("m");
    reveal_strlit("min");
    reveal_strlit("mins");
    reveal_strlit("h");
    reveal_strlit("hr");
    reveal_strlit("hrs");
    reveal_strlit("d");
    reveal_strlit("day");
    reveal_strlit("days");
    assert("s"@[0] == 's' && "sec"@[0] == 's' && "secs"@[0] == 's');
    assert("m"@[0] == 'm' && "min"@[0] == 'm' && "mins"@[0] == 'm');
    assert("h"@[0] == 'h' && "hr"@[0] == 'h' && "hrs"@[0] == 'h');
    assert("d"@[0] == 'd' && "day"@[0] == 'd' && "days"@[0] == 'd');
    let n = number::digits_value(digits);
    let value = number::parsed_u64(digits)->0;
    assert(value == n);
    if let Some(per) = loop_scheduler::unit_seconds(unit) {
        assert(value as nat * per == n * per);
        assert(n * 1 == n && n * 60 == 60 * n && n * 3_600 == 3_600 * n && n * 86_400 == 86_400 * n);
    }
}

/// A duration that does not begin with a digit, or whose number has more than 64
/// bits, is none; and a duration has to be above zero, whatever its unit.
pub proof fn durations_begin_with_a_number_above_zero(digits: Seq<char>, unit: Seq<char>)
    requires
        is_digits(digits),
        unit.len() > 0 ==> !('0' <= unit[0] <= '9'),
    ensures
        digits.len() == 0 || number::digits_value(digits) > 0xffff_ffff_ffff_ffff
            ==> loop_scheduler::duration_seconds(digits + unit) == Err::<u64, Seq<char>>(
            "Invalid /loop duration '"@ + (digits + unit) + "'."@,
        ),
        digits.len() > 0 && number::digits_value(digits) == 0 ==> loop_scheduler::duration_seconds(
            digits + unit,
        ) == Err::<u64, Seq<char>>("/loop duration must be greater than zero."@),
{
    lemma_digits_end(digits, unit);
    if digits.len() > 0 {
        assert('0' <= digits[0] <= '9');
    } else {
        assert(digits =~= Seq::<char>::empty());
    }
    text_laws::numbers_are_digits(digits);
}

/// A duration is written in days where it is whole days, else in whole hours, else in
/// whole minutes, else in seconds.
pub proof fn durations_are_written_in_the_largest_unit(n: u64, seconds: u64)
    ensures
        seconds == n * 86_400 ==> loop_scheduler::duration_text(seconds) == number::decimal(
            n as nat,
        ).push('d'),
        seconds == n * 3_600 && n % 24 != 0 ==> loop_scheduler::duration_text(seconds)
            == number::decimal(n as nat).push('h'),
        seconds == n * 60 && n % 60 != 0 ==> loop_scheduler::duration_text(seconds)
            == number::decimal(n as nat).push('m'),
        seconds == n && n % 60 != 0 ==> loop_scheduler::duration_text(seconds) == number::decimal(
            n as nat,
        ).push('s'),
{
    reveal_strlit("d");
    reveal_strlit("h");
    reveal_strlit("m");
    reveal_strlit("s");
    let digits = number::decimal(n as nat);
    assert(digits + "d"@ =~= digits.push('d'));
    assert(digits + "h"@ =~= digits.push('h'));
    assert(digits + "m"@ =~= digits.push('m'));
    assert(digits + "s"@ =~= digits.push('s'));
}

/// What is said of a loop: its number, how often and when it runs, and its prompt.
/// What is said when it begins is the same, after words that say whether it recurs.
pub proof fn loops_are_described(id: u64, interval: u64, prompt: Seq<char>)
    ensures
        ({
            let once = LoopModel { interval, prompt, repeat: false };
            let again = LoopModel { interval, prompt, repeat: true };
            let number = seq!['#'] + number::decimal(id as nat);
            let end = loop_scheduler::duration_text(interval) + ": "@ + prompt;
            &&& loop_scheduler::description(id, once) == number + " in "@ + end
            &&& loop_scheduler::description(id, again) == number + " every "@ + end
            &&& loop_scheduler::scheduled_text(id, once) == "Scheduled one-shot /loop "@
                + loop_scheduler::description(id, once)
            &&& loop_scheduler::scheduled_text(id, again) == "Scheduled recurring /loop "@
                + loop_scheduler::description(id, again)
        }),
{
    reveal_strlit("#");
    reveal_strlit(" ");
    reveal_strlit("in");
    reveal_strlit("every");
    reveal_strlit(" in ");
    reveal_strlit(" every ");
    reveal_strlit(" /loop #");
    reveal_strlit("Scheduled ");
    reveal_strlit("one-shot");
    reveal_strlit("recurring");
    reveal_strlit("Scheduled one-shot /loop ");
    reveal_strlit("Scheduled recurring /loop ");
    let once = LoopModel { interval, prompt, repeat: false };
    let again = LoopModel { interval, prompt, repeat: true };
    let number = seq!['#'] + number::decimal(id as nat);
    let end = loop_scheduler::duration_text(interval) + ": "@ + prompt;
    assert(" in "@ =~= " "@ + "in"@ + " "@);
    assert(" every "@ =~= " "@ + "every"@ + " "@);
    assert("#"@ =~= seq!['#']);
    assert(loop_scheduler::description(id, once) =~= number + " in "@ + end);
    assert(loop_scheduler::description(id, again) =~= number + " every "@ + end);
    assert("Scheduled "@ + "one-shot"@ + " /loop #"@ =~= "Scheduled one-shot /loop "@ + seq!['#']);
    assert("Scheduled "@ + "recurring"@ + " /loop #"@ =~= "Scheduled recurring /loop "@ + seq![
        '#',
    ]);
    assert(loop_scheduler::scheduled_text(id, once) =~= "Scheduled "@ + "one-shot"@ + " /loop #"@
        + number::decimal(id as nat) + " in "@ + end);
    assert(loop_scheduler::scheduled_text(id, once) =~= "Scheduled one-shot /loop "@
        + loop_scheduler::description(id, once));
    assert(loop_scheduler::scheduled_text(id, again) =~= "Scheduled "@ + "recurring"@ + " /loop #"@
        + number::decimal(id as nat) + " every "@ + end);
    assert(loop_scheduler::scheduled_text(id, again) =~= "Scheduled recurring /loop "@
        + loop_scheduler::description(id, again));
}

/// A list of the loops that run holds each of them once, as it is, and what is said of
/// them is said of each in its place.
pub proof fn lists_hold_each_loop_once(
    loops: Seq<(u64, LoopModel)>,
    active: Map<u64, ActiveModel>,
    i: int,
    j: int,
    id: u64,
)
    requires
        loop_scheduler::enumerates(loops, active),
        0 <= i < j < loops.len(),
        active.contains_key(id),
    ensures
        loops[i].0 != loops[j].0,
        active.contains_key(loops[i].0) && active[loops[i].0].spec == loops[i].1,
        exists|k: int| 0 <= k < loops.len() && #[trigger] loops[k] == (id, active[id].spec),
        loop_scheduler::descriptions(loops).len() == loops.len(),
        loop_scheduler::descriptions(loops)[i] == loop_scheduler::description(
            loops[i].0,
            loops[i].1,
        ),
{
    let keys = keyed::keys(loops);
    assert(keys[i] == loops[i].0 && keys[j] == loops[j].0);
    let k = choose|k: int| 0 <= k < loops.len() && (#[trigger] loops[k]).0 == id;
    assert(loops[k] == (id, active[id].spec));
}

/// The views of loops hold all of their parts.
pub proof fn views_of_loops_hold_all_parts(
    spec: LoopSpec,
    active: ActiveLoop,
    read: Result<LoopSpec, String>,
)
    ensures
        spec@.interval == spec.interval && spec@.prompt == spec.prompt@ && spec@.repeat
            == spec.repeat,
        active@.spec == active.spec@ && active@.handle == active.handle,
        read matches Ok(s) ==> loop_scheduler::loop_view(read) == Ok::<LoopModel, Seq<char>>(s@),
        read matches Err(e) ==> loop_scheduler::loop_view(read) == Err::<LoopModel, Seq<char>>(e@),
{
}

/// A command is a duration, white space and a prompt, with any white space around it:
/// it asks for a prompt that is sent once, after the duration, without the white
/// space at its ends. Where the duration is wrong, so is the command, for the same
/// reason; and it is used wrongly where nothing but white space follows the duration.
pub proof fn commands_are_a_duration_and_a_prompt(
    lead: Seq<char>,
    token: Seq<char>,
    gap: char,
    tail: Seq<char>,
)
    requires
        text::is_blank(lead),
        is_word(token),
        text::white_space(gap),
        token != "every"@,
    ensures
        ({
            let read = loop_scheduler::requested_loop(lead + token.push(gap) + tail);
            let duration = loop_scheduler::duration_seconds(token);
            &&& text::is_blank(tail) ==> read == Err::<LoopModel, Seq<char>>(
                loop_scheduler::LOOP_USAGE@,
            )
            &&& !text::is_blank(tail) && duration is Ok ==> read == Ok::<LoopModel, Seq<char>>(
                LoopModel {
                    interval: duration->Ok_0,
                    prompt: text::trim(tail),
                    repeat: false,
                },
            )
            &&& !text::is_blank(tail) && duration is Err ==> read == Err::<LoopModel, Seq<char>>(
                duration->Err_0,
            )
        }),
{
    let input = lead + token.push(gap) + tail;
    let trimmed = text::trim(input);
    let kept = lemma_trimmed_command(lead, token, gap, tail);
    lemma_no_every(token, gap, kept, trimmed);
    if !text::is_blank(tail) {
        lemma_prompt(token, gap, tail, kept);
    } else {
        words::lemma_word_len_is(trimmed, trimmed.len() as int);
    }
}

/// After the word `every` and a space, a command asks for the same prompt again and
/// again.
pub proof fn commands_repeat_after_every(
    lead: Seq<char>,
    space: Seq<char>,
    token: Seq<char>,
    gap: char,
    tail: Seq<char>,
)
    requires
        text::is_blank(lead),
        text::is_blank(space),
        is_word(token),
        text::white_space(gap),
    ensures
        ({
            let read = loop_scheduler::requested_loop(
                lead + ("every "@ + (space + token.push(gap) + tail)),
            );
            let duration = loop_scheduler::duration_seconds(token);
            &&& text::is_blank(tail) ==> read == Err::<LoopModel, Seq<char>>(
                loop_scheduler::LOOP_USAGE@,
            )
            &&& !text::is_blank(tail) && duration is Ok ==> read == Ok::<LoopModel, Seq<char>>(
                LoopModel {
                    interval: duration->Ok_0,
                    prompt: text::trim(tail),
                    repeat: true,
                },
            )
            &&& !text::is_blank(tail) && duration is Err ==> read == Err::<LoopModel, Seq<char>>(
                duration->Err_0,
            )
        }),
{
    reveal_strlit("every ");
    let every = "every "@;
    assert(every.len() == 6 && every[0] == 'e');
    let inner = space + token.push(gap) + tail;
    let input = lead + (every + inner);
    let trimmed = text::trim(input);
    // What is left of the command without the white space at its end.
    let (a, b) = text_laws::trimmed_is_the_middle(inner);
    let n = space.len() as int;
    assert(inner[n] == token[0]);
    assert(!text::white_space(token[0]));
    if a < n {
        assert(text::white_space(space[a]));
        assert(inner[a] == space[a]);
        if b <= a {
            assert(text::white_space(inner[n]));
        }
    }
    assert(a == n);
    assert(b > n) by {
        if b <= n {
            assert(text::white_space(inner[n]));
        }
    }
    let cut = every + inner.take(b);
    let blank = inner.skip(b);
    assert(text::is_blank(blank)) by {
        assert forall|i: int| 0 <= i < blank.len() implies text::white_space(#[trigger] blank[i]) by {
            assert(text::white_space(inner[b + i]));
        }
    }
    assert(input =~= lead + cut + blank);
    assert(cut.last() == inner[b - 1]);
    assert(cut[0] == 'e');
    text::lemma_trim_around(lead, cut, blank);
    assert(trimmed == cut);
    assert(cut.subrange(0, 6) =~= every);
    assert(cut.skip(6) =~= inner.take(b));
    let rest = text::trim_start(inner.take(b));
    let m = text_laws::trimmed_start_is_a_tail(inner.take(b), text::CharClass::White);
    if m < n {
        assert(inner.take(b)[m] == space[m]);
        assert(text::white_space(space[m]));
    }
    assert(inner.take(b)[n] == token[0]);
    assert(m == n);
    assert(rest =~= inner.subrange(n, b));
    assert(rest == text::trim(inner));
    let kept = lemma_trimmed_command(space, token, gap, tail);
    if !text::is_blank(tail) {
        lemma_prompt(token, gap, tail, kept);
    } else {
        words::lemma_word_len_is(rest, rest.len() as int);
    }
}

/// A command that says nothing, or one word, is used wrongly.
pub proof fn commands_of_one_word_are_wrong(lead: Seq<char>, token: Seq<char>, trail: Seq<char>)
    requires
        text::is_blank(lead),
        text::is_blank(trail),
        is_word(token),
    ensures
        loop_scheduler::requested_loop(lead) == Err::<LoopModel, Seq<char>>(
            loop_scheduler::LOOP_USAGE@,
        ),
        loop_scheduler::requested_loop(lead + token + trail) == Err::<LoopModel, Seq<char>>(
            loop_scheduler::LOOP_USAGE@,
        ),
{
    let (a, b) = text_laws::trimmed_is_the_middle(lead);
    if a < b {
        assert(text::white_space(lead[a]));
    }
    assert(!text::white_space(token[0]) && !text::white_space(token[token.len() - 1]));
    text::lemma_trim_around(lead, token, trail);
    reveal_strlit("every ");
    if "every "@.is_prefix_of(token) {
        assert(token.subrange(0, 6)[5] == ' ');
        assert(text::white_space(token[5]));
    }
    words::lemma_word_len_is(token, token.len() as int);
}

/// A command without the white space at its ends: the duration alone where nothing
/// follows it, else the duration, the gap and the first part of what follows.
proof fn lemma_trimmed_command(lead: Seq<char>, token: Seq<char>, gap: char, tail: Seq<char>) -> (kept:
    Seq<char>)
    requires
        text::is_blank(lead),
        is_word(token),
        text::white_space(gap),
    ensures
        text::is_blank(tail) ==> text::trim(lead + token.push(gap) + tail) == token,
        !text::is_blank(tail) ==> text::trim(lead + token.push(gap) + tail) == token.push(gap)
            + kept && text::trim(kept) == text::trim(tail) && kept.len() > 0,
{
    let whole = lead + token.push(gap) + tail;
    assert(!text::white_space(token[0]) && !text::white_space(token[token.len() - 1]));
    let (a, b) = text_laws::trimmed_is_the_middle(tail);
    if text::is_blank(tail) {
        let trail = seq![gap] + tail;
        assert forall|i: int| 0 <= i < trail.len() implies text::white_space(#[trigger] trail[i]) by {
            if i > 0 {
                assert(text::white_space(tail[i - 1]));
            }
        }
        assert(whole =~= lead + token + trail);
        text::lemma_trim_around(lead, token, trail);
        Seq::empty()
    } else {
        assert(a < b) by {
            if a >= b {
                assert forall|i: int| 0 <= i < tail.len() implies text::white_space(
                    #[trigger] tail[i],
                ) by {}
            }
        }
        let kept = tail.take(b);
        let blank = tail.skip(b);
        assert forall|i: int| 0 <= i < blank.len() implies text::white_space(#[trigger] blank[i]) by {
            assert(text::white_space(tail[b + i]));
        }
        let s = token.push(gap) + kept;
        assert(whole =~= lead + s + blank);
        assert(s[0] == token[0]);
        assert(s.last() == tail[b - 1]);
        text::lemma_trim_around(lead, s, blank);
        let head = tail.take(a);
        let middle = tail.subrange(a, b);
        assert forall|i: int| 0 <= i < head.len() implies text::white_space(#[trigger] head[i]) by {
            assert(text::white_space(tail[i]));
        }
        assert(kept =~= head + middle + Seq::<char>::empty());
        text::lemma_trim_around(head, middle, Seq::empty());
        kept
    }
}

proof fn lemma_no_every(token: Seq<char>, gap: char, kept: Seq<char>, trimmed: Seq<char>)
    requires
        is_word(token),
        text::white_space(gap),
        token != "every"@,
        trimmed == token || trimmed == token.push(gap) + kept,
    ensures
        text::strip_prefix(trimmed, "every "@) is None,
{
    reveal_strlit("every");
    reveal_strlit("every ");
    let every = "every "@;
    if every.is_prefix_of(trimmed) {
        let head = trimmed.subrange(0, 6);
        assert(head == every);
        assert(head[0] == 'e' && head[1] == 'v' && head[2] == 'e' && head[3] == 'r' && head[4]
            == 'y' && head[5] == ' ');
        assert(forall|i: int| 0 <= i < 6 ==> #[trigger] trimmed[i] == head[i]);
        if token.len() > 5 {
            assert(trimmed[5] == token[5]);
            assert(!text::white_space(token[5]));
        } else if token.len() == 5 {
            assert forall|i: int| 0 <= i < 5 implies token[i] == "every"@[i] by {
                assert(token[i] == trimmed[i]);
            }
            assert(token =~= "every"@);
        } else {
            // The gap would be a letter.
            assert(trimmed[token.len() as int] == gap);
        }
    }
}

proof fn lemma_prompt(token: Seq<char>, gap: char, tail: Seq<char>, kept: Seq<char>)
    requires
        is_word(token),
        text::white_space(gap),
        !text::is_blank(tail),
        text::trim(kept) == text::trim(tail),
        kept.len() > 0,
    ensures
        ({
            let rest = token.push(gap) + kept;
            let end = words::word_len(rest) as int;
            &&& end == token.len() && end < rest.len()
            &&& rest.take(end) == token
            &&& text::trim(rest.skip(end + 1)) == text::trim(tail)
            &&& text::trim(tail).len() > 0
        }),
{
    let rest = token.push(gap) + kept;
    assert forall|i: int| 0 <= i < token.len() implies !text::white_space(rest[i]) by {
        assert(rest[i] == token[i]);
    }
    words::lemma_word_len_is(rest, token.len() as int);
    assert(rest.take(token.len() as int) =~= token);
    assert(rest.skip(token.len() as int + 1) =~= kept);
    let (a, b) = text_laws::trimmed_is_the_middle(tail);
    if a >= b {
        assert forall|i: int| 0 <= i < tail.len() implies text::white_space(#[trigger] tail[i]) by {}
    }
}

} // verus!

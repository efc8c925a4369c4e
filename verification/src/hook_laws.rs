//! What holds of the summaries of the runs of hooks, whatever the hooks put out.
use vstd::prelude::*;

use crate::hook_summary;
use crate::hook_summary::{
    ChatCompletionResponse, ChatMessage, HookEventName, HookOutputEntry, HookOutputEntryKind,
    HookRunStatus, HookRunSummary, RemoteRequest,
};
use crate::number;
use crate::tagged;
use crate::text;
use crate::text::CharClass;
use crate::text_laws;
use crate::words;

verus! {

/// Whether the entry at `i` is the first of its kind, and of a kind that goes
/// before the kinds of all other entries: a stop goes before an error, an error
/// before feedback, feedback before a warning, and a warning before context.
pub open spec fn is_telling(entries: Seq<HookOutputEntry>, i: int) -> bool {
    let kind = entries[i].kind;
    &&& 0 <= i < entries.len()
    &&& forall|j: int| 0 <= j < i ==> (#[trigger] entries[j]).kind != kind
    &&& forall|j: int|
        0 <= j < entries.len() ==> match (#[trigger] entries[j]).kind {
            HookOutputEntryKind::Stop => kind is Stop,
            HookOutputEntryKind::Error => kind is Stop || kind is Error,
            HookOutputEntryKind::Feedback => kind is Stop || kind is Error || kind is Feedback,
            HookOutputEntryKind::Warning => !(kind is Context),
            HookOutputEntryKind::Context => true,
        }
}

/// Whether `s` is `whole`, or its first `max` characters and an ellipsis where it
/// has more.
pub open spec fn is_cut(s: Seq<char>, whole: Seq<char>, max: int) -> bool {
    if whole.len() <= max {
        s == whole
    } else {
        &&& s.len() == max + 1
        &&& s.subrange(0, max) == whole.subrange(0, max)
        &&& s[max] == '…'
    }
}

proof fn lemma_first(entries: Seq<HookOutputEntry>, kind: HookOutputEntryKind) -> (i: int)
    ensures
        0 <= i <= entries.len(),
        forall|j: int| 0 <= j < i ==> (#[trigger] entries[j]).kind != kind,
        i < entries.len() ==> entries[i].kind == kind && hook_summary::first_of(entries, kind)
            == Some(entries[i].text@),
        i == entries.len() ==> hook_summary::first_of(entries, kind) is None,
    decreases entries.len(),
{
    if entries.len() > 0 && entries[0].kind != kind {
        let k = lemma_first(entries.skip(1), kind);
        assert forall|j: int| 0 <= j < k + 1 implies (#[trigger] entries[j]).kind != kind by {
            if j > 0 {
                assert(entries.skip(1)[j - 1] == entries[j]);
            }
        }
        k + 1
    } else {
        0
    }
}

/// The entry that sums a run up is the first of its kind, and no entry is of a kind
/// that goes before it. There is one where there are entries.
pub proof fn first_of_the_foremost_kind_is_chosen(entries: Seq<HookOutputEntry>) -> (i: int)
    ensures
        entries.len() == 0 <==> hook_summary::chosen(entries) is None,
        entries.len() > 0 ==> is_telling(entries, i) && hook_summary::chosen(entries) == Some(
            (entries[i].kind, entries[i].text@),
        ),
{
    let stop = lemma_first(entries, HookOutputEntryKind::Stop);
    let error = lemma_first(entries, HookOutputEntryKind::Error);
    let feedback = lemma_first(entries, HookOutputEntryKind::Feedback);
    let warning = lemma_first(entries, HookOutputEntryKind::Warning);
    let context = lemma_first(entries, HookOutputEntryKind::Context);
    let n = entries.len();
    let i = if stop < n {
        stop
    } else if error < n {
        error
    } else if feedback < n {
        feedback
    } else if warning < n {
        warning
    } else {
        context
    };
    if n > 0 {
        assert(entries[0].kind is Stop || entries[0].kind is Error || entries[0].kind is Feedback
            || entries[0].kind is Warning || entries[0].kind is Context);
        assert(is_telling(entries, i));
    }
    i
}

/// The first entry of the foremost kind is the one that is chosen.
pub proof fn telling_entry_is_chosen(entries: Seq<HookOutputEntry>, i: int)
    requires
        is_telling(entries, i),
    ensures
        hook_summary::chosen(entries) == Some((entries[i].kind, entries[i].text@)),
{
    let k = first_of_the_foremost_kind_is_chosen(entries);
    assert(entries[k].kind == entries[i].kind);
    if k < i {
        assert(entries[k].kind != entries[i].kind);
    }
    if i < k {
        assert(entries[i].kind != entries[k].kind);
    }
}

/// A run with entries is summed up by its telling entry, whatever its status message
/// says: a heading that names the kind of the entry and what the entry says, cut
/// after 90 characters; there is no summary where the entry says nothing.
pub proof fn runs_are_summed_up_by_their_telling_entry(run: HookRunSummary, i: int)
    requires
        is_telling(run.entries@, i),
    ensures
        ({
            let entry = run.entries@[i];
            let said = hook_summary::cleaned_output(entry.text@);
            let head = match entry.kind {
                HookOutputEntryKind::Stop => "Hook 已拦截，需要处理："@,
                HookOutputEntryKind::Error => "Hook 已拦截，需要处理："@,
                HookOutputEntryKind::Feedback => "Hook 给出下一步建议："@,
                HookOutputEntryKind::Warning => "Hook 提醒注意风险："@,
                HookOutputEntryKind::Context => if run.status is Completed {
                    "Hook 补充上下文："@
                } else {
                    "Hook 状态需要关注："@
                },
            };
            &&& said.len() == 0 ==> hook_summary::fallback_summary(run) is None
            &&& said.len() > 0 ==> (hook_summary::fallback_summary(run) matches Some(s) && is_cut(
                s,
                head + said,
                90,
            ))
        }),
{
    telling_entry_is_chosen(run.entries@, i);
    let entry = run.entries@[i];
    let said = hook_summary::cleaned_output(entry.text@);
    limits_cut_long_texts(
        hook_summary::heading(Some(entry.kind), run.status) + said,
        90,
    );
}

/// A text that is limited is cut after the limit, and nowhere else.
pub proof fn limits_cut_long_texts(s: Seq<char>, max: nat)
    ensures
        is_cut(hook_summary::limited(s, max), s, max as int),
{
    if s.len() > max {
        assert(hook_summary::limited(s, max).subrange(0, max as int) =~= s.subrange(0, max as int));
    }
}

/// A run without entries is summed up by its status message, under a heading that
/// goes by its status, cut after 90 characters; there is no summary where there is
/// no message or where it says nothing.
pub proof fn runs_without_entries_are_summed_up_by_their_status(run: HookRunSummary)
    requires
        run.entries@.len() == 0,
    ensures
        run.status_message is None ==> hook_summary::fallback_summary(run) is None,
        run.status_message matches Some(message) ==> {
            let said = hook_summary::cleaned_output(message@);
            let head = match run.status {
                HookRunStatus::Completed => "Hook 状态："@,
                HookRunStatus::Running => "Hook 正在处理："@,
                HookRunStatus::Failed => "Hook 状态需要关注："@,
                HookRunStatus::Blocked => "Hook 状态需要关注："@,
                HookRunStatus::Stopped => "Hook 状态需要关注："@,
            };
            &&& said.len() == 0 ==> hook_summary::fallback_summary(run) is None
            &&& said.len() > 0 ==> (hook_summary::fallback_summary(run) matches Some(s) && is_cut(
                s,
                head + said,
                90,
            ))
        },
{
    let k = first_of_the_foremost_kind_is_chosen(run.entries@);
    if let Some(message) = run.status_message {
        let said = hook_summary::cleaned_output(message@);
        limits_cut_long_texts(hook_summary::heading(None, run.status) + said, 90);
    }
}

/// Whether a line opens or closes a block of code: its first characters after white
/// space are three backticks.
pub open spec fn is_ticks(line: Seq<char>) -> bool {
    exists|k: int|
        #![trigger line[k]]
        0 <= k && k + 3 <= line.len() && line[k] == '`' && line[k + 1] == '`' && line[k + 2] == '`'
            && forall|j: int| 0 <= j < k ==> text::white_space(#[trigger] line[j])
}

/// Whether lines hold no line feed and no carriage return.
pub open spec fn are_lines(lines: Seq<Seq<char>>) -> bool {
    forall|i: int|
        0 <= i < lines.len() ==> text_laws::lacks(#[trigger] lines[i], '\n') && text_laws::lacks(
            lines[i],
            '\r',
        )
}

/// Whether no line opens or closes a block of code.
pub open spec fn have_no_ticks(lines: Seq<Seq<char>>) -> bool {
    forall|i: int| 0 <= i < lines.len() ==> !is_ticks(#[trigger] lines[i])
}

/// The text of some lines, each with a line feed.
pub open spec fn text_of(lines: Seq<Seq<char>>) -> Seq<char>
    decreases lines.len(),
{
    if lines.len() == 0 {
        Seq::empty()
    } else {
        lines[0].push('\n') + text_of(lines.skip(1))
    }
}

/// A fence is a line whose first characters after white space are three backticks.
pub proof fn fences_are_three_backticks(line: Seq<char>)
    ensures
        hook_summary::is_fence(line) <==> is_ticks(line),
{
    reveal_strlit("```");
    let ticks = "```"@;
    assert(ticks.len() == 3 && ticks[0] == '`' && ticks[1] == '`' && ticks[2] == '`');
    let (a, b) = text_laws::trimmed_is_the_middle(line);
    let middle = text::trim(line);
    if ticks.is_prefix_of(middle) {
        assert(middle.subrange(0, 3)[0] == '`');
        assert(middle.subrange(0, 3)[1] == '`');
        assert(middle.subrange(0, 3)[2] == '`');
        assert(line[a] == middle[0] && line[a + 1] == middle[1] && line[a + 2] == middle[2]);
        assert(is_ticks(line));
    }
    if is_ticks(line) {
        let k = choose|k: int|
            #![trigger line[k]]
            0 <= k && k + 3 <= line.len() && line[k] == '`' && line[k + 1] == '`' && line[k + 2]
                == '`' && forall|j: int| 0 <= j < k ==> text::white_space(#[trigger] line[j]);
        assert(!text::white_space('`'));
        assert(!text::white_space(line[k]));
        assert(!text::white_space(line[k + 2]));
        assert(a <= k);
        assert(b >= k + 3);
        if a < k {
            assert(text::white_space(line[a]));
        }
        assert(a == k);
        assert(middle.subrange(0, 3) =~= ticks);
    }
}

proof fn lemma_text_of_push(lines: Seq<Seq<char>>, line: Seq<char>)
    ensures
        text_of(lines.push(line)) == text_of(lines) + line.push('\n'),
    decreases lines.len(),
{
    let all = lines.push(line);
    if lines.len() == 0 {
        assert(all.skip(1) =~= lines);
        assert(text_of(all) =~= text_of(lines) + line.push('\n'));
    } else {
        lemma_text_of_push(lines.skip(1), line);
        assert(all.skip(1) =~= lines.skip(1).push(line));
        assert(text_of(all) =~= text_of(lines) + line.push('\n'));
    }
}

proof fn lemma_plain_lines(lines: Seq<Seq<char>>)
    requires
        are_lines(lines),
    ensures
        hook_summary::plain_lines(text_of(lines)) == lines,
{
    reveal_strlit("\r");
    assert("\r"@ =~= seq!['\r']);
    lemma_text_lacks(lines);
    let s = text_of(lines);
    assert forall|i: int| 0 <= i < s.len() implies !"\r"@.contains(#[trigger] s[i]) by {
        assert(s[i] != '\r');
    }
    words::lemma_without_stays(s, "\r"@);
    lemma_lines_of_text(lines);
}

proof fn lemma_text_lacks(lines: Seq<Seq<char>>)
    requires
        are_lines(lines),
    ensures
        text_laws::lacks(text_of(lines), '\r'),
    decreases lines.len(),
{
    if lines.len() > 0 {
        let rest = lines.skip(1);
        assert(text_laws::lacks(lines[0], '\r'));
        assert forall|i: int| 0 <= i < rest.len() implies text_laws::lacks(
            #[trigger] rest[i],
            '\n',
        ) && text_laws::lacks(rest[i], '\r') by {
            assert(rest[i] == lines[i + 1]);
        }
        lemma_text_lacks(rest);
    }
}

proof fn lemma_lines_of_text(lines: Seq<Seq<char>>)
    requires
        are_lines(lines),
    ensures
        words::lines(text_of(lines)) == lines,
    decreases lines.len(),
{
    if lines.len() > 0 {
        let rest = lines.skip(1);
        assert(text_laws::lacks(lines[0], '\n'));
        assert forall|i: int| 0 <= i < rest.len() implies text_laws::lacks(
            #[trigger] rest[i],
            '\n',
        ) && text_laws::lacks(rest[i], '\r') by {
            assert(rest[i] == lines[i + 1]);
        }
        lemma_lines_of_text(rest);
        words::lemma_first_line(lines[0], text_of(rest));
        assert(seq![lines[0]] + rest =~= lines);
    } else {
        assert(words::lines(text_of(lines)) =~= lines);
    }
}

proof fn lemma_parts(a: Seq<Seq<char>>, b: Seq<Seq<char>>)
    ensures
        hook_summary::fence_open(a + b) == (hook_summary::fence_open(a)
            != hook_summary::fence_open(b)),
        !hook_summary::fence_open(a) ==> hook_summary::outside_fences(a + b)
            == hook_summary::outside_fences(a) + hook_summary::outside_fences(b),
        hook_summary::fence_open(a) && have_no_ticks(b) ==> hook_summary::outside_fences(a + b)
            == hook_summary::outside_fences(a),
    decreases b.len(),
{
    if b.len() > 0 {
        let init = b.drop_last();
        lemma_parts(a, init);
        assert((a + b).drop_last() =~= a + init);
        assert((a + b).last() == b.last());
        if have_no_ticks(b) {
            assert forall|i: int| 0 <= i < init.len() implies !is_ticks(#[trigger] init[i]) by {
                assert(init[i] == b[i]);
            }
            lemma_no_ticks(init);
            fences_are_three_backticks(b.last());
            assert(!is_ticks(b[b.len() - 1]));
        }
        if !hook_summary::fence_open(a) {
            assert(hook_summary::outside_fences(a + b) =~= hook_summary::outside_fences(a)
                + hook_summary::outside_fences(b));
        }
    } else {
        assert(a + b =~= a);
        assert(hook_summary::outside_fences(a) + hook_summary::outside_fences(b)
            =~= hook_summary::outside_fences(a));
    }
}

proof fn lemma_no_ticks(lines: Seq<Seq<char>>)
    requires
        have_no_ticks(lines),
    ensures
        !hook_summary::fence_open(lines),
        hook_summary::outside_fences(lines) == text_of(lines),
    decreases lines.len(),
{
    if lines.len() > 0 {
        let init = lines.drop_last();
        assert forall|i: int| 0 <= i < init.len() implies !is_ticks(#[trigger] init[i]) by {
            assert(init[i] == lines[i]);
        }
        lemma_no_ticks(init);
        fences_are_three_backticks(lines.last());
        assert(!is_ticks(lines[lines.len() - 1]));
        lemma_text_of_push(init, lines.last());
        assert(init.push(lines.last()) =~= lines);
    }
}

/// A text without fences stays as it is.
pub proof fn texts_without_code_stay(lines: Seq<Seq<char>>)
    requires
        are_lines(lines),
        have_no_ticks(lines),
    ensures
        hook_summary::unfenced(text_of(lines)) == text_of(lines),
{
    lemma_plain_lines(lines);
    lemma_no_ticks(lines);
}

/// A block of code, from the fence that opens it to the fence that closes it, is
/// removed. What is before it stays, and what follows it is looked through in turn.
pub proof fn blocks_of_code_are_removed(
    before: Seq<Seq<char>>,
    opening: Seq<char>,
    code: Seq<Seq<char>>,
    closing: Seq<char>,
    after: Seq<Seq<char>>,
)
    requires
        are_lines(before + seq![opening] + code + seq![closing] + after),
        have_no_ticks(before),
        have_no_ticks(code),
        is_ticks(opening),
        is_ticks(closing),
    ensures
        hook_summary::unfenced(text_of(before + seq![opening] + code + seq![closing] + after))
            == text_of(before) + hook_summary::unfenced(text_of(after)),
        hook_summary::unfenced(text_of(before + seq![opening] + code)) == text_of(before),
{
    let all = before + seq![opening] + code + seq![closing] + after;
    let opened = before + seq![opening];
    let inside = opened + code;
    let closed = inside + seq![closing];
    assert forall|i: int| 0 <= i < after.len() implies text_laws::lacks(#[trigger] after[i], '\n')
        && text_laws::lacks(after[i], '\r') by {
        assert(all[closed.len() + i] == after[i]);
    }
    assert forall|i: int| 0 <= i < inside.len() implies text_laws::lacks(#[trigger] inside[i], '\n')
        && text_laws::lacks(inside[i], '\r') by {
        assert(all[i] == inside[i]);
    }
    lemma_plain_lines(all);
    lemma_plain_lines(after);
    lemma_plain_lines(inside);
    fences_are_three_backticks(opening);
    fences_are_three_backticks(closing);
    lemma_no_ticks(before);
    lemma_no_ticks(code);
    assert(opened.drop_last() =~= before);
    assert(hook_summary::fence_open(opened));
    assert(hook_summary::outside_fences(opened) == text_of(before));
    lemma_parts(opened, code);
    assert(closed.drop_last() =~= inside);
    assert(!hook_summary::fence_open(closed));
    assert(hook_summary::outside_fences(closed) == text_of(before));
    lemma_parts(closed, after);
    assert(closed + after =~= all);
}

/// A carriage return anywhere in a text does not matter, nor does it whether the
/// last line ends with a line feed.
pub proof fn line_ends_do_not_matter(a: Seq<char>, b: Seq<char>, s: Seq<char>)
    requires
        s.len() > 0,
        s.last() != '\n',
        text_laws::lacks(s, '\r'),
    ensures
        hook_summary::unfenced(a.push('\r') + b) == hook_summary::unfenced(a + b),
        hook_summary::unfenced(s.push('\n')) == hook_summary::unfenced(s),
{
    reveal_strlit("\r");
    let cr = "\r"@;
    assert(cr =~= seq!['\r']);
    assert(cr.contains('\r')) by {
        assert(cr[0] == '\r');
    }
    text_laws::dropping_goes_by_character(a, b, 'a', cr);
    text_laws::dropping_goes_by_character(a.push('\r'), b, 'a', cr);
    assert(a.push('\r').drop_last() =~= a);
    let t = s.push('\n');
    assert forall|i: int| 0 <= i < s.len() implies !cr.contains(#[trigger] s[i]) by {}
    assert forall|i: int| 0 <= i < t.len() implies !cr.contains(#[trigger] t[i]) by {
        if i < s.len() {
            assert(t[i] == s[i]);
        }
    }
    words::lemma_without_stays(s, cr);
    words::lemma_without_stays(t, cr);
    lemma_last_line(s);
}

proof fn lemma_last_line(s: Seq<char>)
    requires
        s.len() > 0,
        s.last() != '\n',
    ensures
        words::lines(s.push('\n')) == words::lines(s),
    decreases s.len(),
{
    words::lemma_before_bound(s, '\n');
    let at = words::before(s, '\n') as int;
    if at >= s.len() {
        words::lemma_first_line(s, Seq::empty());
        assert(s.push('\n') + Seq::<char>::empty() =~= s.push('\n'));
        assert(words::lines(s.push('\n')) =~= words::lines(s));
    } else {
        let line = s.take(at);
        let rest = s.skip(at + 1);
        lemma_last_line(rest);
        words::lemma_first_line(line, rest);
        words::lemma_first_line(line, rest.push('\n'));
        assert(line.push('\n') + rest =~= s);
        assert(line.push('\n') + rest.push('\n') =~= s.push('\n'));
    }
}

/// A line names a place where it begins with a slash, or with a tilde and a slash,
/// or, in letters of either case, with the word for a device, a directory, a source
/// or a path and a colon.
pub proof fn places_are_named_at_the_start(line: Seq<char>)
    ensures
        ({
            let lower = words::ascii_lowercase(line);
            hook_summary::names_place(line) <==> {
                ||| line.len() >= 1 && line[0] == '/'
                ||| line.len() >= 2 && line[0] == '~' && line[1] == '/'
                ||| lower.len() >= 7 && lower.subrange(0, 7) == seq!['d', 'e', 'v', 'i', 'c', 'e', ':']
                ||| lower.len() >= 4 && lower.subrange(0, 4) == seq!['c', 'w', 'd', ':']
                ||| lower.len() >= 7 && lower.subrange(0, 7) == seq!['s', 'o', 'u', 'r', 'c', 'e', ':']
                ||| lower.len() >= 5 && lower.subrange(0, 5) == seq!['p', 'a', 't', 'h', ':']
            }
        }),
{
    reveal_strlit("device:");
    reveal_strlit("cwd:");
    reveal_strlit("source:");
    reveal_strlit("path:");
    reveal_strlit("/");
    reveal_strlit("~/");
    assert("device:"@ =~= seq!['d', 'e', 'v', 'i', 'c', 'e', ':']);
    assert("cwd:"@ =~= seq!['c', 'w', 'd', ':']);
    assert("source:"@ =~= seq!['s', 'o', 'u', 'r', 'c', 'e', ':']);
    assert("path:"@ =~= seq!['p', 'a', 't', 'h', ':']);
    assert("/"@ =~= seq!['/']);
    assert("~/"@ =~= seq!['~', '/']);
    if line.len() >= 1 {
        assert(line.subrange(0, 1)[0] == line[0]);
        if line[0] == '/' {
            assert(line.subrange(0, 1) =~= "/"@);
        }
    }
    if line.len() >= 2 {
        assert(line.subrange(0, 2)[0] == line[0] && line.subrange(0, 2)[1] == line[1]);
        if line[0] == '~' && line[1] == '/' {
            assert(line.subrange(0, 2) =~= "~/"@);
        }
    }
}

/// A line loses the white space at its ends, the marks and spaces that it then begins
/// with, and the marks within it: for a line of white space, marks and spaces, a text
/// that begins with neither, and white space.
pub proof fn marks_are_dropped(
    lead: Seq<char>,
    marks: Seq<char>,
    body: Seq<char>,
    trail: Seq<char>,
)
    requires
        text::is_blank(lead),
        text::is_blank(trail),
        forall|i: int|
            0 <= i < marks.len() ==> seq!['#', '>', '-', '*', '•', ' '].contains(#[trigger] marks[i]),
        marks.len() > 0 ==> marks[0] != ' ',
        body.len() > 0,
        !seq!['#', '>', '-', '*', '•', ' '].contains(body[0]),
        marks.len() == 0 ==> !text::white_space(body[0]),
        !text::white_space(body.last()),
    ensures
        hook_summary::unmarked(lead + marks + body + trail) == words::without(
            body,
            seq!['#', '*', '_', '`', '>'],
        ),
        hook_summary::unmarked(lead) == Seq::<char>::empty(),
{
    let line = lead + marks + body + trail;
    let (a, b) = text_laws::trimmed_is_the_middle(line);
    let n = lead.len() as int;
    let m = marks.len() as int;
    let k = body.len() as int;
    if marks.len() > 0 {
        text_laws::classes_hold_their_characters(marks[0]);
        assert(line[n] == marks[0]);
    } else {
        assert(line[n] == body[0]);
    }
    assert(!text::white_space(line[n]));
    assert(line[n + m + k - 1] == body.last());
    if a < n {
        assert(line[a] == lead[a]);
        assert(text::white_space(lead[a]));
        assert(b > a) by {
            if b <= a {
                assert(text::white_space(line[n]));
            }
        }
    }
    assert(a == n);
    assert(b >= n + m + k);
    if b > n + m + k {
        assert(line[b - 1] == trail[b - 1 - n - m - k]);
        assert(text::white_space(trail[b - 1 - n - m - k]));
    }
    assert(b == n + m + k);
    let middle = text::trim(line);
    assert(middle =~= marks + body);
    let c = text_laws::trimmed_start_is_a_tail(middle, CharClass::LineMark);
    text_laws::classes_hold_their_characters(body[0]);
    assert(middle[m] == body[0]);
    if c < m {
        assert(middle[c] == marks[c]);
        text_laws::classes_hold_their_characters(marks[c]);
    }
    assert(c == m);
    assert(middle.skip(m) =~= body);
    reveal_strlit("#*_`>");
    assert("#*_`>"@ =~= seq!['#', '*', '_', '`', '>']);
    let (d, e) = text_laws::trimmed_is_the_middle(lead);
    if d < e {
        assert(text::white_space(lead[d]));
    }
    assert(text::trim(lead) =~= Seq::<char>::empty());
    assert(text::trim_start_class(Seq::<char>::empty(), CharClass::LineMark) =~= Seq::<char>::empty());
}

/// Whether a line is left out of what a hook put out: nothing but marks, or the name
/// of a place.
pub open spec fn is_silent(line: Seq<char>) -> bool {
    hook_summary::unmarked(line).len() == 0 || hook_summary::names_place(
        hook_summary::unmarked(line),
    )
}

proof fn lemma_telling_parts(a: Seq<Seq<char>>, b: Seq<Seq<char>>)
    ensures
        hook_summary::telling_lines(a + b) == hook_summary::telling_lines(a)
            + hook_summary::telling_lines(b),
    decreases b.len(),
{
    if b.len() > 0 {
        lemma_telling_parts(a, b.drop_last());
        assert((a + b).drop_last() =~= a + b.drop_last());
        assert((a + b).last() == b.last());
        assert(hook_summary::telling_lines(a + b) =~= hook_summary::telling_lines(a)
            + hook_summary::telling_lines(b));
    } else {
        assert(a + b =~= a);
        assert(hook_summary::telling_lines(a) + hook_summary::telling_lines(b)
            =~= hook_summary::telling_lines(a));
    }
}

proof fn lemma_words_meet(a: Seq<char>, b: Seq<char>)
    ensures
        words::words(a + seq![' '] + b) == words::words(a) + words::words(b),
    decreases a.len(),
{
    let s = a + seq![' '] + b;
    if a.len() == 0 {
        assert(s.skip(1) =~= b);
        assert(words::words(a) + words::words(b) =~= words::words(b));
    } else if text::white_space(a[0]) {
        lemma_words_meet(a.skip(1), b);
        assert(s.skip(1) =~= a.skip(1) + seq![' '] + b);
    } else {
        words::lemma_word_len_bound(a);
        let n = words::word_len(a) as int;
        assert(n > 0);
        assert forall|i: int| 0 <= i < n implies !text::white_space(s[i]) by {
            assert(s[i] == a[i]);
        }
        assert(n < a.len() ==> s[n] == a[n]);
        assert(n == a.len() ==> s[n] == ' ');
        words::lemma_word_len_is(s, n);
        lemma_words_meet(a.skip(n), b);
        assert(s.skip(n) =~= a.skip(n) + seq![' '] + b);
        assert(s.take(n) =~= a.take(n));
        assert(words::words(s) =~= words::words(a) + words::words(b));
    }
}

spec fn is_word(w: Seq<char>) -> bool {
    w.len() > 0 && forall|k: int| 0 <= k < w.len() ==> !text::white_space(#[trigger] w[k])
}

spec fn are_words(parts: Seq<Seq<char>>) -> bool {
    forall|i: int| 0 <= i < parts.len() ==> is_word(#[trigger] parts[i])
}

proof fn lemma_words_hold(s: Seq<char>)
    ensures
        are_words(words::words(s)),
    decreases s.len(),
{
    if s.len() > 0 {
        if text::white_space(s[0]) {
            lemma_words_hold(s.skip(1));
        } else {
            words::lemma_word_len_bound(s);
            let n = words::word_len(s) as int;
            lemma_words_hold(s.skip(n));
            let rest = words::words(s.skip(n));
            assert forall|i: int| 0 <= i < words::words(s).len() implies is_word(
                #[trigger] words::words(s)[i],
            ) by {
                if i > 0 {
                    assert(words::words(s)[i] == rest[i - 1]);
                } else {
                    assert(words::words(s)[0] == s.take(n));
                    assert(is_word(s.take(n)));
                }
            }
        }
    }
}

proof fn lemma_words_of_join(parts: Seq<Seq<char>>)
    requires
        are_words(parts),
    ensures
        words::words(words::join(parts, seq![' '])) == parts,
    decreases parts.len(),
{
    if parts.len() > 0 {
        let last = parts.last();
        assert(is_word(parts[parts.len() - 1]));
        text_laws::words_are_runs(Seq::empty(), last, ' ', Seq::empty());
        if parts.len() == 1 {
            assert(parts =~= seq![last]);
        } else {
            let init = parts.drop_last();
            assert forall|i: int| 0 <= i < init.len() implies is_word(#[trigger] init[i]) by {
                assert(init[i] == parts[i]);
            }
            lemma_words_of_join(init);
            lemma_words_meet(words::join(init, seq![' ']), last);
            assert(init + seq![last] =~= parts);
        }
    } else {
        assert(words::words(words::join(parts, seq![' '])) =~= parts);
    }
}

/// A text with single spaces is its words in order, with a space between each two.
pub proof fn single_spaces_keep_the_words(s: Seq<char>)
    ensures
        words::single_spaced(s) == words::join(words::words(s), seq![' ']),
        words::words(words::single_spaced(s)) == words::words(s),
{
    lemma_words_hold(s);
    lemma_words_of_join(words::words(s));
}

/// What a hook put out is put into one line by its words. A line that is silent adds
/// none. Any other line adds those that it has without its marks, before those of
/// the lines that follow.
pub proof fn output_is_the_words_of_its_lines(line: Seq<char>, rest: Seq<Seq<char>>)
    requires
        are_lines(seq![line] + rest),
        have_no_ticks(seq![line] + rest),
    ensures
        ({
            let all = hook_summary::cleaned_output(text_of(seq![line] + rest));
            let others = hook_summary::cleaned_output(text_of(rest));
            &&& all == words::join(words::words(all), seq![' '])
            &&& is_silent(line) ==> words::words(all) == words::words(others)
            &&& !is_silent(line) ==> words::words(all) == words::words(
                hook_summary::unmarked(line),
            ) + words::words(others)
        }),
        hook_summary::cleaned_output(Seq::empty()) == Seq::<char>::empty(),
{
    let lines = seq![line] + rest;
    assert forall|i: int| 0 <= i < rest.len() implies text_laws::lacks(#[trigger] rest[i], '\n')
        && text_laws::lacks(rest[i], '\r') && !is_ticks(rest[i]) by {
        assert(lines[i + 1] == rest[i]);
        assert(!is_ticks(lines[i + 1]));
    }
    lemma_cleaned_lines(lines);
    lemma_cleaned_lines(rest);
    let none = Seq::<Seq<char>>::empty();
    lemma_cleaned_lines(none);
    assert(hook_summary::telling_lines(none) =~= none);
    let told = hook_summary::telling_lines(rest);
    lemma_telling_parts(seq![line], rest);
    let first = hook_summary::telling_lines(seq![line]);
    assert(seq![line].drop_last() =~= none);
    assert(seq![line].last() == line);
    if is_silent(line) {
        assert(first =~= none);
        assert(first + told =~= told);
    } else {
        let u = hook_summary::unmarked(line);
        assert(first =~= seq![u]);
        text_laws::join_takes_one_in_front(u, told, seq![' ']);
        if told.len() > 0 {
            lemma_words_meet(u, words::join(told, seq![' ']));
        } else {
            assert(words::words(words::join(told, seq![' '])) =~= none);
            assert(words::words(u) + none =~= words::words(u));
        }
    }
    assert(words::join(words::words(Seq::<char>::empty()), seq![' ']) =~= Seq::<char>::empty());
    assert(text_of(none) =~= Seq::<char>::empty());
}

proof fn lemma_cleaned_lines(lines: Seq<Seq<char>>)
    requires
        are_lines(lines),
        have_no_ticks(lines),
    ensures
        ({
            let joined = words::join(hook_summary::telling_lines(lines), seq![' ']);
            &&& hook_summary::cleaned_output(text_of(lines)) == words::single_spaced(joined)
            &&& words::words(hook_summary::cleaned_output(text_of(lines))) == words::words(joined)
        }),
{
    texts_without_code_stay(lines);
    lemma_plain_lines(lines);
    single_spaces_keep_the_words(words::join(hook_summary::telling_lines(lines), seq![' ']));
}

/// Blocks of code count for nothing in what a hook put out.
pub proof fn code_is_not_put_out(s: Seq<char>)
    ensures
        hook_summary::cleaned_output(hook_summary::unfenced(s)) == hook_summary::cleaned_output(s),
{
    hook_summary::unfenced_is_stable(s);
}

/// What the small model said is put into one line of its words, without the blocks
/// of code, and cut after 180 characters.
pub proof fn sayings_are_cut(said: Seq<char>)
    ensures
        is_cut(
            hook_summary::cleaned_saying(said),
            words::join(words::words(hook_summary::unfenced(said)), seq![' ']),
            180,
        ),
{
    limits_cut_long_texts(words::single_spaced(hook_summary::unfenced(said)), 180);
}

/// The summary in a reply of the small model is what it said without its thoughts,
/// put into one line, where that says something. There is none where no reply came,
/// where it is an error, and where its thoughts cannot be cut out.
pub proof fn replies_are_summed_up(reply: Seq<char>, said: Seq<char>, reason: Seq<char>)
    requires
        tagged::untagged(reply, seq!['t', 'h', 'i', 'n', 'k']) == Some(said),
    ensures
        ({
            let clean = hook_summary::cleaned_saying(said);
            &&& clean.len() > 0 ==> hook_summary::summary_in(Some(Ok(reply))) == Some(clean)
            &&& clean.len() == 0 ==> hook_summary::summary_in(Some(Ok(reply))) is None
            &&& hook_summary::summary_in(Some(Err(reason))) is None
            &&& hook_summary::summary_in(None) is None
        }),
{
    reveal_strlit("think");
    assert("think"@ =~= seq!['t', 'h', 'i', 'n', 'k']);
}

/// Nothing is made of a reply whose thoughts cannot be cut out.
pub proof fn uncut_replies_say_nothing(reply: Seq<char>)
    requires
        tagged::untagged(reply, seq!['t', 'h', 'i', 'n', 'k']) is None,
    ensures
        hook_summary::summary_in(Some(Ok(reply))) is None,
{
    reveal_strlit("think");
    assert("think"@ =~= seq!['t', 'h', 'i', 'n', 'k']);
}

proof fn lemma_blank(s: Seq<char>)
    ensures
        text::trim(s).len() == 0 <==> text::is_blank(s),
{
    let (a, b) = text_laws::trimmed_is_the_middle(s);
    if a < b {
        assert(!text::white_space(s[a]));
    } else {
        assert forall|i: int| 0 <= i < s.len() implies text::white_space(#[trigger] s[i]) by {}
    }
}

/// What the small model is shown of a run without entries is the status message after
/// its name, and nothing where there is no message or a blank one.
pub proof fn status_is_shown_first(run: HookRunSummary)
    requires
        run.entries@.len() == 0,
    ensures
        run.status_message is None ==> hook_summary::body_of(run) == Seq::<char>::empty(),
        run.status_message matches Some(message) ==> {
            &&& text::is_blank(message@) ==> hook_summary::body_of(run) == Seq::<char>::empty()
            &&& !text::is_blank(message@) ==> hook_summary::body_of(run) == seq![
                's',
                't',
                'a',
                't',
                'u',
                's',
                '：',
            ] + message@
        },
{
    reveal_strlit("status：");
    assert("status："@ =~= seq!['s', 't', 'a', 't', 'u', 's', '：']);
    let entries = hook_summary::entry_lines(run.entries@);
    let status = hook_summary::status_lines(text::opt_view(run.status_message));
    assert(status + entries =~= status);
    if let Some(message) = run.status_message {
        lemma_blank(message@);
    }
}

/// One entry more shows the small model one line more: the kind of the entry and its
/// text, after a line feed where something stands before it.
pub proof fn each_entry_is_shown(less: HookRunSummary, more: HookRunSummary)
    requires
        more.entries@.len() > 0,
        less.entries@ == more.entries@.drop_last(),
        less.status_message == more.status_message,
    ensures
        ({
            let entry = more.entries@.last();
            let line = match entry.kind {
                HookOutputEntryKind::Warning => "warning"@,
                HookOutputEntryKind::Stop => "stop"@,
                HookOutputEntryKind::Feedback => "feedback"@,
                HookOutputEntryKind::Context => "context"@,
                HookOutputEntryKind::Error => "error"@,
            } + seq!['：'] + entry.text@;
            let first = less.entries@.len() == 0 && (less.status_message is None
                || text::is_blank(less.status_message->0@));
            &&& first ==> hook_summary::body_of(more) == line
            &&& !first ==> hook_summary::body_of(more) == hook_summary::body_of(less).push('\n')
                + line
        }),
{
    reveal_strlit("：");
    assert("："@ =~= seq!['：']);
    reveal_strlit("\n");
    assert("\n"@ =~= seq!['\n']);
    let status = hook_summary::status_lines(text::opt_view(more.status_message));
    let before = status + hook_summary::entry_lines(less.entries@);
    let all = status + hook_summary::entry_lines(more.entries@);
    assert(all.drop_last() =~= before);
    if let Some(message) = less.status_message {
        lemma_blank(message@);
    }
    if before.len() > 0 {
        assert(hook_summary::body_of(more) =~= hook_summary::body_of(less).push('\n')
            + all.last());
    }
}

/// The small model is asked where there is something to show it: at the address and
/// for the model that the environment gives, or at those that hold by default, for
/// at most 256 tokens.
pub proof fn model_is_asked_where_there_is_something_to_show(
    run: HookRunSummary,
    url: Option<Seq<char>>,
    model: Option<Seq<char>>,
    timeout_ms: Option<Seq<char>>,
)
    ensures
        ({
            let request = hook_summary::request_for(run, url, model, timeout_ms);
            &&& request is None <==> text::is_blank(hook_summary::body_of(run))
            &&& request matches Some(r) ==> {
                &&& url is Some ==> r.url == url->0
                &&& url is None ==> r.url == hook_summary::DEFAULT_LLM_URL@
                &&& model is Some ==> r.model == model->0
                &&& model is None ==> r.model == hook_summary::DEFAULT_LLM_MODEL@
                &&& r.max_tokens == 256
                &&& r.timeout_ms == hook_summary::timeout_of(timeout_ms)
                &&& r.question == hook_summary::question_of(run)
            }
        }),
{
    lemma_blank(hook_summary::body_of(run));
}

/// The question to the small model ends with what it is shown of the run.
pub proof fn question_shows_the_run(run: HookRunSummary)
    ensures
        ({
            let question = hook_summary::question_of(run);
            let body = hook_summary::body_of(run);
            let event = match run.event_name {
                HookEventName::PreToolUse => "PreToolUse"@,
                HookEventName::PermissionRequest => "PermissionRequest"@,
                HookEventName::PostToolUse => "PostToolUse"@,
                HookEventName::PreCompact => "PreCompact"@,
                HookEventName::PostCompact => "PostCompact"@,
                HookEventName::SessionStart => "SessionStart"@,
                HookEventName::UserPromptSubmit => "UserPromptSubmit"@,
                HookEventName::SubagentStart => "SubagentStart"@,
                HookEventName::SubagentStop => "SubagentStop"@,
                HookEventName::Stop => "Stop"@,
            };
            let status = match run.status {
                HookRunStatus::Running => "running"@,
                HookRunStatus::Completed => "completed"@,
                HookRunStatus::Failed => "failed"@,
                HookRunStatus::Blocked => "blocked"@,
                HookRunStatus::Stopped => "stopped"@,
            };
            let head = "标题："@ + event + " hook\n设备：local\n目录："@ + run.source_path@;
            question == head + ("\n状态："@ + status) + ("\n内容：\n"@ + body)
        }),
{
    let status = hook_summary::status_label(run.status);
    let body = hook_summary::body_of(run);
    let head = "标题："@ + hook_summary::event_label(run.event_name) + " hook\n设备：local\n目录："@
        + run.source_path@;
    assert(head + ("\n状态："@ + status) + ("\n内容：\n"@ + body) =~= hook_summary::question_of(run));
}

/// The small model is waited for as long as the environment says, in milliseconds,
/// and half a minute where it says nothing, no number, or zero.
pub proof fn model_is_waited_for(n: nat, given: Seq<char>)
    requires
        n <= 0xffff_ffff_ffff_ffff,
    ensures
        n > 0 ==> hook_summary::timeout_of(Some(number::decimal(n))) == n,
        n == 0 ==> hook_summary::timeout_of(Some(number::decimal(n))) == 30_000,
        hook_summary::timeout_of(None) == 30_000,
        number::parsed_u64(given) is None ==> hook_summary::timeout_of(Some(given)) == 30_000,
{
    let s = number::decimal(n);
    text_laws::decimals_have_no_leading_zeros(n);
    assert('0' <= s[0] <= '9');
    text_laws::numbers_are_digits(s);
}

/// A reply of the small model's server that failed says why: its error, else its
/// message, else that the request failed. It failed where it says so, or where its
/// kind is that of an error.
pub proof fn failed_replies_are_errors(response: ChatCompletionResponse)
    requires
        response.success == Some(false) || response.kind@ == seq!['e', 'r', 'r', 'o', 'r'],
    ensures
        hook_summary::result_of(ChatMessage::Response(response)) matches Some(Err(reason)) && {
            &&& response.error is Some ==> reason == response.error->0@
            &&& response.error is None && response.message is Some ==> reason
                == response.message->0@
            &&& response.error is None && response.message is None ==> reason == "小模型请求失败"@
        },
{
    reveal_strlit("error");
    assert("error"@ =~= seq!['e', 'r', 'r', 'o', 'r']);
}

/// A reply that did not fail says its text, else the content of its first choice; it
/// is an error where it has neither.
pub proof fn replies_say_their_text(response: ChatCompletionResponse)
    requires
        response.success != Some(false),
        response.kind@ != seq!['e', 'r', 'r', 'o', 'r'],
    ensures
        ({
            let result = hook_summary::result_of(ChatMessage::Response(response));
            let choices = response.data->0.choices->0@;
            let has_choice = response.data is Some && response.data->0.choices is Some
                && choices.len() > 0;
            let has_content = has_choice && choices[0].message is Some
                && choices[0].message->0.content is Some;
            &&& response.text is Some ==> result == Some(
                Ok::<Seq<char>, Seq<char>>(response.text->0@),
            )
            &&& response.text is None && has_content ==> result == Some(
                Ok::<Seq<char>, Seq<char>>(choices[0].message->0.content->0@),
            )
            &&& response.text is None && !has_content ==> result == Some(
                Err::<Seq<char>, Seq<char>>("小模型响应为空"@),
            )
        }),
{
    reveal_strlit("error");
    assert("error"@ =~= seq!['e', 'r', 'r', 'o', 'r']);
}

/// A message that is no text is passed over, and one that is no reply is an error
/// with its reason.
pub proof fn other_messages_are_passed_over(reason: String)
    ensures
        hook_summary::result_of(ChatMessage::NotText) is None,
        hook_summary::result_of(ChatMessage::Unparsable(reason)) == Some(
            Err::<Seq<char>, Seq<char>>(reason@),
        ),
{
}

/// The views of requests to the small model and of its replies hold all of their
/// parts.
pub proof fn views_of_requests_hold_all_parts(
    request: RemoteRequest,
    reply: Option<Result<String, String>>,
)
    ensures
        request@.url == request.url@ && request@.model == request.model@,
        request@.question == request.question@ && request@.max_tokens == request.max_tokens,
        request@.timeout_ms == request.timeout_ms,
        reply is None ==> hook_summary::reply_view(reply) is None,
        reply matches Some(Ok(s)) ==> hook_summary::reply_view(reply) == Some(
            Ok::<Seq<char>, Seq<char>>(s@),
        ),
        reply matches Some(Err(e)) ==> hook_summary::reply_view(reply) == Some(
            Err::<Seq<char>, Seq<char>>(e@),
        ),
{
}

} // verus!

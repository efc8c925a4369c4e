//! Summaries of the runs of hooks.
//!
//! A summary comes from a small model, or where there is none from what the hook
//! put out.
use vstd::prelude::*;
use vstd::string::StringExecFns;

use crate::number;
use crate::number::parse_u64;
use crate::tagged;
use crate::tagged::{remove_tagged_block, try_remove_tagged_block};
use crate::text;
use crate::text::{
    chars_of, copy_of, push_char, str_eq, str_starts_with, str_trim, str_trim_start_class, string_of,
    CharClass,
};
use crate::words;
use crate::words::{
    join_strings, str_ascii_lowercase, str_lines, str_single_spaced, str_without,
};

verus! {

/// Where the small model is asked, unless the environment says otherwise.
pub const DEFAULT_LLM_URL: &'static str = "ws://agx.taild500c8.ts.net:18011/api/llm/chat";

/// Which model is asked, unless the environment says otherwise.
pub const DEFAULT_LLM_MODEL: &'static str = "caps-voice-edit-qwen3-4b";

/// How many milliseconds its answer is waited for, unless the environment says
/// otherwise.
pub const DEFAULT_TIMEOUT_MS: u64 = 30_000;

/// What the small model is told to do.
pub const SUMMARY_INSTRUCTIONS: &'static str = "你是 check_boards 的本地播报摘要器。只输出简体中文纯文本，不要 Markdown，不要前缀。用 1 到 2 句、80 个中文字以内，总结诊断结论、风险和下一步。不要复述设备名、文件夹名、目录路径或来源信息。";

/// The most characters of a summary of what a hook put out.
pub const FALLBACK_SUMMARY_CHARS: usize = 90;

/// The most characters of a summary of the small model.
pub const REMOTE_SUMMARY_CHARS: usize = 180;

/// What a hook put something out as.
#[derive(Debug, Clone, Copy, PartialEq, Eq, Structural)]
pub enum HookOutputEntryKind {
    Warning,
    Stop,
    Feedback,
    Context,
    Error,
}

/// How a run of a hook stands.
#[derive(Debug, Clone, Copy, PartialEq, Eq, Structural)]
pub enum HookRunStatus {
    Running,
    Completed,
    Failed,
    Blocked,
    Stopped,
}

/// The event that a hook runs at.
#[derive(Debug, Clone, Copy, PartialEq, Eq, Structural)]
pub enum HookEventName {
    PreToolUse,
    PermissionRequest,
    PostToolUse,
    PreCompact,
    PostCompact,
    SessionStart,
    UserPromptSubmit,
    SubagentStart,
    SubagentStop,
    Stop,
}

/// Something that a hook put out.
#[derive(Debug, PartialEq, Eq)]
pub struct HookOutputEntry {
    pub kind: HookOutputEntryKind,
    pub text: String,
}

/// A run of a hook.
#[derive(Debug, PartialEq, Eq)]
pub struct HookRunSummary {
    pub event_name: HookEventName,
    pub source_path: String,
    pub status: HookRunStatus,
    pub status_message: Option<String>,
    pub entries: Vec<HookOutputEntry>,
}

/// Whether a line opens or closes a block of code.
pub open spec fn is_fence(line: Seq<char>) -> bool {
    "```"@.is_prefix_of(text::trim(line))
}

/// Whether a block of code is open after some lines.
pub open spec fn fence_open(lines: Seq<Seq<char>>) -> bool
    decreases lines.len(),
{
    if lines.len() == 0 {
        false
    } else {
        is_fence(lines.last()) != fence_open(lines.drop_last())
    }
}

/// The lines outside of blocks of code, each with a line feed.
pub open spec fn outside_fences(lines: Seq<Seq<char>>) -> Seq<char>
    decreases lines.len(),
{
    if lines.len() == 0 {
        Seq::empty()
    } else if is_fence(lines.last()) || fence_open(lines.drop_last()) {
        outside_fences(lines.drop_last())
    } else {
        outside_fences(lines.drop_last()) + lines.last().push('\n')
    }
}

/// The lines of a text without its carriage returns.
pub open spec fn plain_lines(s: Seq<char>) -> Seq<Seq<char>> {
    words::lines(words::without(s, "\r"@))
}

/// A text without its blocks of code.
pub open spec fn unfenced(s: Seq<char>) -> Seq<char> {
    outside_fences(plain_lines(s))
}

/// Removes the blocks of code from a text.
pub fn remove_code_fences(value: &str) -> (r: String)
    ensures
        r@ == unfenced(value@),
{
    let plain = str_without(value, "\r");
    let lines = str_lines(plain.as_str());
    let ghost all = text::views(lines@);
    let mut output = String::new();
    let mut in_code = false;
    let mut i: usize = 0;
    assert(output@ =~= Seq::<char>::empty());
    while i < lines.len()
        invariant
            i <= lines@.len(),
            all == text::views(lines@),
            in_code == fence_open(all.take(i as int)),
            output@ == outside_fences(all.take(i as int)),
        decreases lines@.len() - i,
    {
        let line = &lines[i];
        let trimmed = str_trim(line.as_str());
        let fence = str_starts_with(trimmed.as_str(), "```");
        proof {
            assert(all.take(i + 1).drop_last() =~= all.take(i as int));
            assert(all.take(i + 1).last() == line@);
        }
        if fence {
            in_code = !in_code;
        } else if !in_code {
            let ghost before = output@;
            output.append(line.as_str());
            push_char(&mut output, '\n');
            assert(output@ =~= before + line@.push('\n'));
        }
        i = i + 1;
    }
    assert(all.take(i as int) =~= all);
    output
}

/// Whether a line names a device, a directory, a source or a path.
pub open spec fn names_place(line: Seq<char>) -> bool {
    let lower = words::ascii_lowercase(line);
    ||| "device:"@.is_prefix_of(lower)
    ||| "cwd:"@.is_prefix_of(lower)
    ||| "source:"@.is_prefix_of(lower)
    ||| "path:"@.is_prefix_of(lower)
    ||| "/"@.is_prefix_of(line)
    ||| "~/"@.is_prefix_of(line)
}

/// Whether a line names a device, a directory, a source or a path.
pub fn looks_like_path_or_source(value: &str) -> (r: bool)
    ensures
        r == names_place(value@),
{
    let lower = str_ascii_lowercase(value);
    str_starts_with(lower.as_str(), "device:") || str_starts_with(lower.as_str(), "cwd:")
        || str_starts_with(lower.as_str(), "source:") || str_starts_with(lower.as_str(), "path:")
        || str_starts_with(value, "/") || str_starts_with(value, "~/")
}

/// A line without its Markdown marks.
pub open spec fn unmarked(line: Seq<char>) -> Seq<char> {
    words::without(text::trim_start_class(text::trim(line), CharClass::LineMark), "#*_`>"@)
}

/// The lines that say something, without their Markdown marks.
pub open spec fn telling_lines(lines: Seq<Seq<char>>) -> Seq<Seq<char>>
    decreases lines.len(),
{
    if lines.len() == 0 {
        Seq::empty()
    } else {
        let line = unmarked(lines.last());
        if line.len() == 0 || names_place(line) {
            telling_lines(lines.drop_last())
        } else {
            telling_lines(lines.drop_last()).push(line)
        }
    }
}

/// What a hook put out, in one line: without blocks of code, Markdown marks, and
/// lines that name places.
pub open spec fn cleaned_output(s: Seq<char>) -> Seq<char> {
    words::single_spaced(words::join(telling_lines(plain_lines(unfenced(s))), seq![' ']))
}

/// Puts what a hook put out into one line.
pub fn clean_hook_summary_text(value: &str) -> (r: String)
    ensures
        r@ == cleaned_output(value@),
{
    let without_fences = remove_code_fences(value);
    let plain = str_without(without_fences.as_str(), "\r");
    let lines = str_lines(plain.as_str());
    let ghost all = text::views(lines@);
    let mut kept: Vec<String> = Vec::new();
    let mut i: usize = 0;
    assert(text::views(kept@) =~= Seq::<Seq<char>>::empty());
    while i < lines.len()
        invariant
            i <= lines@.len(),
            all == text::views(lines@),
            text::views(kept@) == telling_lines(all.take(i as int)),
        decreases lines@.len() - i,
    {
        let trimmed = str_trim(lines[i].as_str());
        let stripped = str_trim_start_class(trimmed.as_str(), CharClass::LineMark);
        let cleaned = str_without(stripped.as_str(), "#*_`>");
        proof {
            assert(all.take(i + 1).drop_last() =~= all.take(i as int));
            assert(all.take(i + 1).last() == lines@[i as int]@);
        }
        if !text::is_empty(cleaned.as_str()) && !looks_like_path_or_source(cleaned.as_str()) {
            let ghost before = text::views(kept@);
            let ghost line = cleaned@;
            kept.push(cleaned);
            assert(text::views(kept@) =~= before.push(line));
        }
        i = i + 1;
    }
    proof {
        assert(all.take(i as int) =~= all);
        reveal_strlit(" ");
        assert(" "@ =~= seq![' ']);
    }
    let output = join_strings(&kept, " ");
    str_single_spaced(output.as_str())
}

/// The first characters of a text, with an ellipsis where it has more.
pub open spec fn limited(s: Seq<char>, max_chars: nat) -> Seq<char> {
    if s.len() > max_chars {
        s.take(max_chars as int).push('…')
    } else {
        s
    }
}

/// Limits a text to its first characters.
pub fn limit_summary_chars(value: &str, max_chars: usize) -> (r: String)
    ensures
        r@ == limited(value@, max_chars as nat),
{
    let chars = chars_of(value);
    if chars.len() > max_chars {
        let mut r = string_of(&chars, 0, max_chars);
        push_char(&mut r, '…');
        assert(chars@.subrange(0, max_chars as int) =~= chars@.take(max_chars as int));
        r
    } else {
        copy_of(value)
    }
}

/// What the small model said, in one line: without its thoughts and blocks of
/// code, and not too long. Nothing where its thoughts cannot be cut out.
pub open spec fn cleaned_reply(reply: Seq<char>) -> Option<Seq<char>> {
    match tagged::untagged(reply, "think"@) {
        Some(said) => Some(cleaned_saying(said)),
        None => None,
    }
}

/// What the small model said, without its thoughts, in one line.
pub open spec fn cleaned_saying(said: Seq<char>) -> Seq<char> {
    limited(words::single_spaced(unfenced(said)), REMOTE_SUMMARY_CHARS as nat)
}

/// Puts what the small model said, without its thoughts, into one line.
pub fn clean_saying(said: &str) -> (r: String)
    ensures
        r@ == cleaned_saying(said@),
{
    let without_fences = remove_code_fences(said);
    let spaced = str_single_spaced(without_fences.as_str());
    limit_summary_chars(spaced.as_str(), REMOTE_SUMMARY_CHARS)
}

/// Puts what the small model said into one line.
pub fn clean_remote_summary(value: &str) -> (r: String)
    requires
        tagged::untagged(value@, "think"@) is Some,
    ensures
        cleaned_reply(value@) == Some(r@),
{
    let without_thinking = remove_tagged_block(value, "think");
    clean_saying(without_thinking.as_str())
}

/// The text of the first entry of a kind.
pub open spec fn first_of(entries: Seq<HookOutputEntry>, kind: HookOutputEntryKind) -> Option<
    Seq<char>,
>
    decreases entries.len(),
{
    if entries.len() == 0 {
        None
    } else if entries[0].kind == kind {
        Some(entries[0].text@)
    } else {
        first_of(entries.skip(1), kind)
    }
}

/// The entry that a run is summed up by: the first that stops, else the first
/// error, feedback, warning or context, in that order.
pub open spec fn chosen(entries: Seq<HookOutputEntry>) -> Option<
    (HookOutputEntryKind, Seq<char>),
> {
    if let Some(s) = first_of(entries, HookOutputEntryKind::Stop) {
        Some((HookOutputEntryKind::Stop, s))
    } else if let Some(s) = first_of(entries, HookOutputEntryKind::Error) {
        Some((HookOutputEntryKind::Error, s))
    } else if let Some(s) = first_of(entries, HookOutputEntryKind::Feedback) {
        Some((HookOutputEntryKind::Feedback, s))
    } else if let Some(s) = first_of(entries, HookOutputEntryKind::Warning) {
        Some((HookOutputEntryKind::Warning, s))
    } else if let Some(s) = first_of(entries, HookOutputEntryKind::Context) {
        Some((HookOutputEntryKind::Context, s))
    } else {
        None
    }
}

/// What a summary begins with.
pub open spec fn heading(kind: Option<HookOutputEntryKind>, status: HookRunStatus) -> Seq<char> {
    match kind {
        Some(HookOutputEntryKind::Stop) => "Hook 已拦截，需要处理："@,
        Some(HookOutputEntryKind::Error) => "Hook 已拦截，需要处理："@,
        Some(HookOutputEntryKind::Feedback) => "Hook 给出下一步建议："@,
        Some(HookOutputEntryKind::Warning) => "Hook 提醒注意风险："@,
        Some(HookOutputEntryKind::Context) => if status == HookRunStatus::Completed {
            "Hook 补充上下文："@
        } else {
            "Hook 状态需要关注："@
        },
        None => match status {
            HookRunStatus::Completed => "Hook 状态："@,
            HookRunStatus::Running => "Hook 正在处理："@,
            _ => "Hook 状态需要关注："@,
        },
    }
}

/// The summary of a run by what it put out, or by its status message where it
/// put out nothing; none where that says nothing.
pub open spec fn fallback_summary(run: HookRunSummary) -> Option<Seq<char>> {
    let pick = chosen(run.entries@);
    let kind = match pick {
        Some((kind, _)) => Some(kind),
        None => None,
    };
    let said = match pick {
        Some((_, s)) => cleaned_output(s),
        None => match run.status_message {
            Some(message) => cleaned_output(message@),
            None => Seq::empty(),
        },
    };
    if said.len() == 0 {
        None
    } else {
        Some(limited(heading(kind, run.status) + said, FALLBACK_SUMMARY_CHARS as nat))
    }
}

fn find_first(entries: &Vec<HookOutputEntry>, kind: HookOutputEntryKind) -> (r: Option<usize>)
    ensures
        match r {
            Some(i) => i < entries@.len() && first_of(entries@, kind) == Some(
                entries@[i as int].text@,
            ),
            None => first_of(entries@, kind) is None,
        },
{
    let mut i: usize = 0;
    assert(entries@.skip(0) =~= entries@);
    while i < entries.len()
        invariant
            i <= entries@.len(),
            first_of(entries@, kind) == first_of(entries@.skip(i as int), kind),
        decreases entries@.len() - i,
    {
        if entries[i].kind == kind {
            return Some(i);
        }
        assert(entries@.skip(i as int).skip(1) =~= entries@.skip(i + 1));
        i = i + 1;
    }
    None
}

fn choose_entry(entries: &Vec<HookOutputEntry>) -> (r: Option<(HookOutputEntryKind, usize)>)
    ensures
        match r {
            Some((kind, i)) => i < entries@.len() && chosen(entries@) == Some(
                (kind, entries@[i as int].text@),
            ),
            None => chosen(entries@) is None,
        },
{
    if let Some(i) = find_first(entries, HookOutputEntryKind::Stop) {
        Some((HookOutputEntryKind::Stop, i))
    } else if let Some(i) = find_first(entries, HookOutputEntryKind::Error) {
        Some((HookOutputEntryKind::Error, i))
    } else if let Some(i) = find_first(entries, HookOutputEntryKind::Feedback) {
        Some((HookOutputEntryKind::Feedback, i))
    } else if let Some(i) = find_first(entries, HookOutputEntryKind::Warning) {
        Some((HookOutputEntryKind::Warning, i))
    } else if let Some(i) = find_first(entries, HookOutputEntryKind::Context) {
        Some((HookOutputEntryKind::Context, i))
    } else {
        None
    }
}

fn heading_text(kind: Option<HookOutputEntryKind>, status: HookRunStatus) -> (r: &'static str)
    ensures
        r@ == heading(kind, status),
{
    match kind {
        Some(HookOutputEntryKind::Stop) => "Hook 已拦截，需要处理：",
        Some(HookOutputEntryKind::Error) => "Hook 已拦截，需要处理：",
        Some(HookOutputEntryKind::Feedback) => "Hook 给出下一步建议：",
        Some(HookOutputEntryKind::Warning) => "Hook 提醒注意风险：",
        Some(HookOutputEntryKind::Context) => match status {
            HookRunStatus::Completed => "Hook 补充上下文：",
            _ => "Hook 状态需要关注：",
        },
        None => match status {
            HookRunStatus::Completed => "Hook 状态：",
            HookRunStatus::Running => "Hook 正在处理：",
            _ => "Hook 状态需要关注：",
        },
    }
}

/// Sums up a run by what it put out.
pub fn fallback_hook_summary(run: &HookRunSummary) -> (r: Option<String>)
    ensures
        text::opt_view(r) == fallback_summary(*run),
{
    let (kind, said) = match choose_entry(&run.entries) {
        Some((kind, i)) => (Some(kind), clean_hook_summary_text(run.entries[i].text.as_str())),
        None => (
            None,
            match &run.status_message {
                Some(message) => clean_hook_summary_text(message.as_str()),
                None => {
                    let empty = String::new();
                    assert(empty@ =~= Seq::<char>::empty());
                    empty
                },
            },
        ),
    };
    if text::is_empty(said.as_str()) {
        return None;
    }
    let mut summary = copy_of(heading_text(kind, run.status));
    summary.append(said.as_str());
    Some(limit_summary_chars(summary.as_str(), FALLBACK_SUMMARY_CHARS))
}

/// Sums up a run: by the summary of the small model, else by what it put out.
pub fn summarize_hook_run_with_remote(
    run: &HookRunSummary,
    remote_summary: impl FnOnce(&HookRunSummary) -> Option<String>,
) -> (r: Option<String>)
    requires
        remote_summary.requires((run,)),
    ensures
        exists|remote: Option<String>| #[trigger]
            remote_summary.ensures((run,), remote) && text::opt_view(r) == summary_of(
                *run,
                text::opt_view(remote),
            ),
{
    let remote = remote_summary(run);
    if remote.is_some() {
        return remote;
    }
    fallback_hook_summary(run)
}

/// The summary of a run, given that of the small model.
pub open spec fn summary_of(run: HookRunSummary, remote: Option<Seq<char>>) -> Option<Seq<char>> {
    match remote {
        Some(s) => Some(s),
        None => fallback_summary(run),
    }
}

/// The name of a kind of output.
pub open spec fn kind_label(kind: HookOutputEntryKind) -> Seq<char> {
    match kind {
        HookOutputEntryKind::Warning => "warning"@,
        HookOutputEntryKind::Stop => "stop"@,
        HookOutputEntryKind::Feedback => "feedback"@,
        HookOutputEntryKind::Context => "context"@,
        HookOutputEntryKind::Error => "error"@,
    }
}

/// The name of a kind of output.
pub fn hook_output_kind_label(kind: HookOutputEntryKind) -> (r: &'static str)
    ensures
        r@ == kind_label(kind),
{
    match kind {
        HookOutputEntryKind::Warning => "warning",
        HookOutputEntryKind::Stop => "stop",
        HookOutputEntryKind::Feedback => "feedback",
        HookOutputEntryKind::Context => "context",
        HookOutputEntryKind::Error => "error",
    }
}

/// The lines for what a hook put out.
pub open spec fn entry_lines(entries: Seq<HookOutputEntry>) -> Seq<Seq<char>> {
    entries.map_values(|entry: HookOutputEntry| kind_label(entry.kind) + "："@ + entry.text@)
}

/// The lines for a status message, where it says something.
pub open spec fn status_lines(message: Option<Seq<char>>) -> Seq<Seq<char>> {
    match message {
        Some(s) => if text::trim(s).len() > 0 {
            seq!["status："@ + s]
        } else {
            Seq::empty()
        },
        None => Seq::empty(),
    }
}

/// What the small model is shown of a run.
pub open spec fn body_of(run: HookRunSummary) -> Seq<char> {
    words::join(
        status_lines(text::opt_view(run.status_message)) + entry_lines(run.entries@),
        "\n"@,
    )
}

/// What the small model is shown of a run: the status message, and each entry
/// with its kind.
pub fn hook_body(run: &HookRunSummary) -> (r: String)
    ensures
        r@ == body_of(*run),
{
    let mut lines: Vec<String> = Vec::new();
    if let Some(message) = &run.status_message {
        let trimmed = str_trim(message.as_str());
        if !text::is_empty(trimmed.as_str()) {
            let mut line = copy_of("status：");
            line.append(message.as_str());
            lines.push(line);
        }
    }
    let ghost head = status_lines(text::opt_view(run.status_message));
    let ghost all = entry_lines(run.entries@);
    let mut i: usize = 0;
    assert(text::views(lines@) =~= head + all.take(0));
    while i < run.entries.len()
        invariant
            i <= run.entries@.len(),
            all == entry_lines(run.entries@),
            text::views(lines@) == head + all.take(i as int),
        decreases run.entries@.len() - i,
    {
        let ghost before = text::views(lines@);
        let mut line = copy_of(hook_output_kind_label(run.entries[i].kind));
        line.append("：");
        line.append(run.entries[i].text.as_str());
        let ghost added = line@;
        lines.push(line);
        proof {
            assert(added == all[i as int]);
            assert(text::views(lines@) =~= before.push(added));
            assert(before.push(added) =~= head + all.take(i + 1));
        }
        i = i + 1;
    }
    assert(all.take(i as int) =~= all);
    join_strings(&lines, "\n")
}

/// The name of an event.
pub open spec fn event_label(event_name: HookEventName) -> Seq<char> {
    match event_name {
        HookEventName::PreToolUse => "PreToolUse"@,
        HookEventName::PermissionRequest => "PermissionRequest"@,
        HookEventName::PostToolUse => "PostToolUse"@,
        HookEventName::PreCompact => "PreCompact"@,
        HookEventName::PostCompact => "PostCompact"@,
        HookEventName::SessionStart => "SessionStart"@,
        HookEventName::UserPromptSubmit => "UserPromptSubmit"@,
        HookEventName::SubagentStart => "SubagentStart"@,
        HookEventName::SubagentStop => "SubagentStop"@,
        HookEventName::Stop => "Stop"@,
    }
}

/// The name of an event.
pub fn hook_event_name(event_name: HookEventName) -> (r: &'static str)
    ensures
        r@ == event_label(event_name),
{
    match event_name {
        HookEventName::PreToolUse => "PreToolUse",
        HookEventName::PermissionRequest => "PermissionRequest",
        HookEventName::PostToolUse => "PostToolUse",
        HookEventName::PreCompact => "PreCompact",
        HookEventName::PostCompact => "PostCompact",
        HookEventName::SessionStart => "SessionStart",
        HookEventName::UserPromptSubmit => "UserPromptSubmit",
        HookEventName::SubagentStart => "SubagentStart",
        HookEventName::SubagentStop => "SubagentStop",
        HookEventName::Stop => "Stop",
    }
}

/// The name of a status, in lower case.
pub open spec fn status_label(status: HookRunStatus) -> Seq<char> {
    match status {
        HookRunStatus::Running => "running"@,
        HookRunStatus::Completed => "completed"@,
        HookRunStatus::Failed => "failed"@,
        HookRunStatus::Blocked => "blocked"@,
        HookRunStatus::Stopped => "stopped"@,
    }
}

fn status_name(status: HookRunStatus) -> (r: &'static str)
    ensures
        r@ == status_label(status),
{
    match status {
        HookRunStatus::Running => "running",
        HookRunStatus::Completed => "completed",
        HookRunStatus::Failed => "failed",
        HookRunStatus::Blocked => "blocked",
        HookRunStatus::Stopped => "stopped",
    }
}

/// A request to the small model.
#[derive(Debug, PartialEq, Eq)]
pub struct RemoteRequest {
    pub url: String,
    pub model: String,
    /// What the model is asked, after its instructions.
    pub question: String,
    pub max_tokens: u64,
    pub timeout_ms: u64,
}

/// The view of a [`RemoteRequest`].
pub struct RemoteRequestModel {
    pub url: Seq<char>,
    pub model: Seq<char>,
    pub question: Seq<char>,
    pub max_tokens: u64,
    pub timeout_ms: u64,
}

impl View for RemoteRequest {
    type V = RemoteRequestModel;

    open spec fn view(&self) -> RemoteRequestModel {
        RemoteRequestModel {
            url: self.url@,
            model: self.model@,
            question: self.question@,
            max_tokens: self.max_tokens,
            timeout_ms: self.timeout_ms,
        }
    }
}

/// What the environment says, or else what holds by default.
pub open spec fn given_or(given: Option<Seq<char>>, default: Seq<char>) -> Seq<char> {
    match given {
        Some(s) => s,
        None => default,
    }
}

/// The milliseconds that the environment gives, where they are a number above
/// zero, or else those that hold by default.
pub open spec fn timeout_of(given: Option<Seq<char>>) -> u64 {
    match given {
        Some(s) => match number::parsed_u64(s) {
            Some(n) => if n > 0 {
                n
            } else {
                DEFAULT_TIMEOUT_MS
            },
            None => DEFAULT_TIMEOUT_MS,
        },
        None => DEFAULT_TIMEOUT_MS,
    }
}

/// What the small model is asked of a run.
pub open spec fn question_of(run: HookRunSummary) -> Seq<char> {
    "标题："@ + event_label(run.event_name) + " hook\n设备：local\n目录："@ + run.source_path@
        + "\n状态："@ + status_label(run.status) + "\n内容：\n"@ + body_of(run)
}

/// The request to the small model for a run, given what the environment says of
/// the address, the model and the time to wait. None is made where there is
/// nothing to show.
pub open spec fn request_for(
    run: HookRunSummary,
    url: Option<Seq<char>>,
    model: Option<Seq<char>>,
    timeout_ms: Option<Seq<char>>,
) -> Option<RemoteRequestModel> {
    if text::trim(body_of(run)).len() == 0 {
        None
    } else {
        Some(
            RemoteRequestModel {
                url: given_or(url, DEFAULT_LLM_URL@),
                model: given_or(model, DEFAULT_LLM_MODEL@),
                question: question_of(run),
                max_tokens: 256,
                timeout_ms: timeout_of(timeout_ms),
            },
        )
    }
}

fn string_or(given: Option<String>, default: &str) -> (r: String)
    ensures
        r@ == given_or(text::opt_view(given), default@),
{
    match given {
        Some(s) => s,
        None => copy_of(default),
    }
}

/// The milliseconds to wait for the small model.
pub fn remote_timeout(given: Option<String>) -> (r: u64)
    ensures
        r == timeout_of(text::opt_view(given)),
{
    match given {
        Some(s) => match parse_u64(s.as_str()) {
            Some(n) => if n > 0 {
                n
            } else {
                DEFAULT_TIMEOUT_MS
            },
            None => DEFAULT_TIMEOUT_MS,
        },
        None => DEFAULT_TIMEOUT_MS,
    }
}

/// The request to the small model for a run.
pub fn remote_request(
    run: &HookRunSummary,
    url: Option<String>,
    model: Option<String>,
    timeout_ms: Option<String>,
) -> (r: Option<RemoteRequest>)
    ensures
        (match r {
            Some(request) => Some(request@),
            None => None,
        }) == request_for(
            *run,
            text::opt_view(url),
            text::opt_view(model),
            text::opt_view(timeout_ms),
        ),
{
    let body = hook_body(run);
    let trimmed = str_trim(body.as_str());
    if text::is_empty(trimmed.as_str()) {
        return None;
    }
    let mut question = copy_of("标题：");
    question.append(hook_event_name(run.event_name));
    question.append(" hook\n设备：local\n目录：");
    question.append(run.source_path.as_str());
    question.append("\n状态：");
    question.append(status_name(run.status));
    question.append("\n内容：\n");
    question.append(body.as_str());
    Some(
        RemoteRequest {
            url: string_or(url, DEFAULT_LLM_URL),
            model: string_or(model, DEFAULT_LLM_MODEL),
            question,
            max_tokens: 256,
            timeout_ms: remote_timeout(timeout_ms),
        },
    )
}

/// The summary in a reply of the small model, where there is a reply that says
/// something.
pub open spec fn summary_in(reply: Option<Result<Seq<char>, Seq<char>>>) -> Option<Seq<char>> {
    match reply {
        Some(Ok(said)) => match cleaned_reply(said) {
            Some(clean) => if clean.len() > 0 {
                Some(clean)
            } else {
                None
            },
            None => None,
        },
        _ => None,
    }
}

/// The view of a reply of the small model.
pub open spec fn reply_view(reply: Option<Result<String, String>>) -> Option<
    Result<Seq<char>, Seq<char>>,
> {
    match reply {
        Some(r) => Some(text::text_result(r)),
        None => None,
    }
}

/// The summary in a reply of the small model; there is no reply where it did not
/// come in time.
pub fn remote_hook_summary(reply: Option<Result<String, String>>) -> (r: Option<String>)
    requires
        reply matches Some(Ok(said)) ==> tagged::untagged(said@, "think"@) is Some,
    ensures
        text::opt_view(r) == summary_in(reply_view(reply)),
{
    match reply {
        Some(Ok(said)) => {
            let cleaned = clean_remote_summary(said.as_str());
            if text::is_empty(cleaned.as_str()) {
                None
            } else {
                Some(cleaned)
            }
        },
        _ => None,
    }
}

/// The summary in a reply of the small model. Where its thoughts cannot be cut
/// out there is none.
pub fn try_remote_hook_summary(reply: Option<Result<String, String>>) -> (r: Option<String>)
    ensures
        text::opt_view(r) == summary_in(reply_view(reply)),
{
    let can_be_cut = match &reply {
        Some(Ok(said)) => try_remove_tagged_block(said.as_str(), "think").is_some(),
        _ => true,
    };
    if can_be_cut {
        remote_hook_summary(reply)
    } else {
        None
    }
}

/// A reply of the small model's server.
#[derive(Debug, PartialEq, Eq)]
pub struct ChatCompletionResponse {
    pub text: Option<String>,
    pub data: Option<ChatCompletionData>,
    pub success: Option<bool>,
    /// The kind of the reply.
    pub kind: String,
    pub error: Option<String>,
    pub message: Option<String>,
}

/// The data of a reply.
#[derive(Debug, PartialEq, Eq)]
pub struct ChatCompletionData {
    pub choices: Option<Vec<ChatCompletionChoice>>,
}

/// A choice in a reply.
#[derive(Debug, PartialEq, Eq)]
pub struct ChatCompletionChoice {
    pub message: Option<ChatCompletionMessage>,
}

/// The message of a choice.
#[derive(Debug, PartialEq, Eq)]
pub struct ChatCompletionMessage {
    pub content: Option<String>,
}

/// The content of the first choice of a reply.
pub open spec fn first_content(data: Option<ChatCompletionData>) -> Option<Seq<char>> {
    match data {
        Some(ChatCompletionData { choices: Some(choices) }) => if choices@.len() > 0 {
            match choices@[0].message {
                Some(message) => text::opt_view(message.content),
                None => None,
            }
        } else {
            None
        },
        _ => None,
    }
}

/// What a reply says, or what is wrong: an error of the server, else its text,
/// else the content of its first choice.
pub open spec fn said_in(response: ChatCompletionResponse) -> Result<Seq<char>, Seq<char>> {
    if response.success == Some(false) || response.kind@ == "error"@ {
        Err(
            match response.error {
                Some(e) => e@,
                None => match response.message {
                    Some(e) => e@,
                    None => "小模型请求失败"@,
                },
            },
        )
    } else {
        match response.text {
            Some(s) => Ok(s@),
            None => match first_content(response.data) {
                Some(s) => Ok(s),
                None => Err("小模型响应为空"@),
            },
        }
    }
}

/// A message from the small model's server.
#[derive(Debug, PartialEq, Eq)]
pub enum ChatMessage {
    /// It is no text.
    NotText,
    /// It is no reply.
    Unparsable(String),
    Response(ChatCompletionResponse),
}

/// What a message leads to: a result, or nothing where the next message is
/// waited for.
pub open spec fn result_of(message: ChatMessage) -> Option<Result<Seq<char>, Seq<char>>> {
    match message {
        ChatMessage::NotText => None,
        ChatMessage::Unparsable(e) => Some(Err(e@)),
        ChatMessage::Response(response) => Some(said_in(response)),
    }
}

fn take_first_content(data: Option<ChatCompletionData>) -> (r: Option<String>)
    ensures
        text::opt_view(r) == first_content(data),
{
    match data {
        Some(ChatCompletionData { choices: Some(choices) }) => {
            if choices.len() == 0 {
                return None;
            }
            match &choices[0].message {
                Some(message) => match &message.content {
                    Some(content) => Some(copy_of(content.as_str())),
                    None => None,
                },
                None => None,
            }
        },
        _ => None,
    }
}

/// What a message of the small model's server leads to.
pub fn chat_completion(message: ChatMessage) -> (r: Option<Result<String, String>>)
    ensures
        reply_view(r) == result_of(message),
{
    match message {
        ChatMessage::NotText => None,
        ChatMessage::Unparsable(e) => Some(Err(e)),
        ChatMessage::Response(response) => {
            let ChatCompletionResponse { text, data, success, kind, error, message } = response;
            let failed = match success {
                Some(value) => !value,
                None => false,
            };
            if failed || str_eq(kind.as_str(), "error") {
                let cause = match error {
                    Some(e) => e,
                    None => match message {
                        Some(e) => e,
                        None => copy_of("小模型请求失败"),
                    },
                };
                return Some(Err(cause));
            }
            match text {
                Some(s) => Some(Ok(s)),
                None => match take_first_content(data) {
                    Some(s) => Some(Ok(s)),
                    None => Some(Err(copy_of("小模型响应为空"))),
                },
            }
        },
    }
}

/// A text that was limited has at most one character more than the limit, and
/// up to there it is the text.
pub proof fn limit_holds(s: Seq<char>, max_chars: nat)
    ensures
        limited(s, max_chars).len() <= max_chars + 1,
        s.len() <= max_chars ==> limited(s, max_chars) == s,
        forall|i: int|
            0 <= i < s.len() && i < max_chars ==> #[trigger] limited(s, max_chars)[i] == s[i],
{
}

/// The rank of a kind of output among those that a run is summed up by.
pub open spec fn kind_rank(kind: HookOutputEntryKind) -> nat {
    match kind {
        HookOutputEntryKind::Stop => 0,
        HookOutputEntryKind::Error => 1,
        HookOutputEntryKind::Feedback => 2,
        HookOutputEntryKind::Warning => 3,
        HookOutputEntryKind::Context => 4,
    }
}

proof fn lemma_first_of(entries: Seq<HookOutputEntry>, i: int)
    requires
        0 <= i < entries.len(),
    ensures
        first_of(entries, entries[i].kind) is Some,
    decreases entries.len(),
{
    if i > 0 {
        lemma_first_of(entries.skip(1), i - 1);
    }
}

/// A run is summed up by an entry of the first rank that it has: no entry ranks
/// before the one that is chosen, and one is chosen where there are any.
pub proof fn chosen_entry_ranks_first(entries: Seq<HookOutputEntry>, i: int)
    requires
        0 <= i < entries.len(),
    ensures
        chosen(entries) matches Some((kind, _)) && kind_rank(kind) <= kind_rank(entries[i].kind),
{
    lemma_first_of(entries, i);
}

/// The summary of the small model goes before that of the output.
pub proof fn remote_summary_goes_first(run: HookRunSummary, remote: Seq<char>)
    ensures
        summary_of(run, Some(remote)) == Some(remote),
        summary_of(run, None) == fallback_summary(run),
{
}

/// What a hook put out, when it is cleaned, is one line.
pub proof fn cleaned_output_is_one_line(s: Seq<char>, i: int)
    requires
        0 <= i < cleaned_output(s).len(),
    ensures
        cleaned_output(s)[i] != '\n',
{
    let joined = words::join(telling_lines(plain_lines(unfenced(s))), seq![' ']);
    if cleaned_output(s)[i] == '\n' {
        words::single_spaced_is_one_line(joined, i);
    }
}

/// What the small model said, when it is cleaned, is one line of at most 181
/// characters.
pub proof fn cleaned_saying_is_one_line(said: Seq<char>, i: int)
    requires
        0 <= i < cleaned_saying(said).len(),
    ensures
        cleaned_saying(said)[i] != '\n',
        cleaned_saying(said).len() <= REMOTE_SUMMARY_CHARS + 1,
{
    let spaced = words::single_spaced(unfenced(said));
    if i < spaced.len() && spaced[i] == '\n' {
        words::single_spaced_is_one_line(unfenced(said), i);
    }
}

/// The lines outside of blocks of code.
spec fn kept_lines(lines: Seq<Seq<char>>) -> Seq<Seq<char>>
    decreases lines.len(),
{
    if lines.len() == 0 {
        Seq::empty()
    } else if is_fence(lines.last()) || fence_open(lines.drop_last()) {
        kept_lines(lines.drop_last())
    } else {
        kept_lines(lines.drop_last()).push(lines.last())
    }
}

/// Lines that hold neither a fence, nor a line feed, nor a carriage return.
spec fn are_plain(lines: Seq<Seq<char>>) -> bool {
    forall|i: int| 0 <= i < lines.len() ==> is_plain_line(#[trigger] lines[i])
}

spec fn is_plain_line(line: Seq<char>) -> bool {
    &&& !is_fence(line)
    &&& forall|k: int| 0 <= k < line.len() ==> line[k] != '\n' && line[k] != '\r'
}

proof fn lemma_kept(lines: Seq<Seq<char>>)
    requires
        forall|i: int, k: int|
            0 <= i < lines.len() && 0 <= k < lines[i].len() ==> (#[trigger] lines[i][k]) != '\n'
                && lines[i][k] != '\r',
    ensures
        are_plain(kept_lines(lines)),
        outside_fences(lines) == outside_fences(kept_lines(lines)),
    decreases lines.len(),
{
    if lines.len() > 0 {
        let rest = lines.drop_last();
        assert forall|i: int, k: int| 0 <= i < rest.len() && 0 <= k < rest[i].len() implies (
        #[trigger] rest[i][k]) != '\n' && rest[i][k] != '\r' by {
            assert(lines[i][k] != '\n');
        }
        lemma_kept(rest);
        if !(is_fence(lines.last()) || fence_open(rest)) {
            let kept = kept_lines(rest);
            let line = lines.last();
            assert forall|k: int| 0 <= k < line.len() implies line[k] != '\n' && line[k]
                != '\r' by {
                assert(lines[lines.len() - 1][k] != '\n');
            }
            lemma_plain_are_kept(kept);
            assert(kept.push(line).drop_last() =~= kept);
        }
    }
}

/// No block of code is open after plain lines.
proof fn lemma_plain_are_kept(lines: Seq<Seq<char>>)
    requires
        are_plain(lines),
    ensures
        !fence_open(lines),
    decreases lines.len(),
{
    if lines.len() > 0 {
        assert(is_plain_line(lines[lines.len() - 1]));
        lemma_plain_rest(lines);
        lemma_plain_are_kept(lines.drop_last());
    }
}

proof fn lemma_plain_rest(lines: Seq<Seq<char>>)
    requires
        are_plain(lines),
        lines.len() > 0,
    ensures
        are_plain(lines.drop_last()),
        are_plain(lines.skip(1)),
{
    assert forall|i: int| 0 <= i < lines.drop_last().len() implies is_plain_line(
        #[trigger] lines.drop_last()[i],
    ) by {
        assert(is_plain_line(lines[i]));
    }
    assert forall|i: int| 0 <= i < lines.skip(1).len() implies is_plain_line(
        #[trigger] lines.skip(1)[i],
    ) by {
        assert(is_plain_line(lines[i + 1]));
    }
}

/// The text of plain lines is that of the first and that of the others.
proof fn lemma_front(lines: Seq<Seq<char>>)
    requires
        are_plain(lines),
        lines.len() > 0,
    ensures
        outside_fences(lines) == lines[0].push('\n') + outside_fences(lines.skip(1)),
    decreases lines.len(),
{
    lemma_plain_rest(lines);
    lemma_plain_are_kept(lines.drop_last());
    assert(is_plain_line(lines[lines.len() - 1]));
    if lines.len() == 1 {
        assert(lines.drop_last() =~= Seq::<Seq<char>>::empty());
        assert(lines.skip(1) =~= Seq::<Seq<char>>::empty());
        assert(outside_fences(lines) =~= lines[0].push('\n') + outside_fences(lines.skip(1)));
    } else {
        let init = lines.drop_last();
        let tail = lines.skip(1);
        lemma_front(init);
        lemma_plain_rest(tail);
        lemma_plain_are_kept(tail.drop_last());
        assert(tail.drop_last() =~= init.skip(1));
        assert(tail.last() == lines.last());
        assert(outside_fences(lines) =~= lines[0].push('\n') + outside_fences(tail));
    }
}

/// The lines of the text of plain lines are those lines.
proof fn lemma_lines_back(lines: Seq<Seq<char>>)
    requires
        are_plain(lines),
    ensures
        words::lines(outside_fences(lines)) == lines,
        forall|i: int|
            0 <= i < outside_fences(lines).len() ==> #[trigger] outside_fences(lines)[i] != '\r',
    decreases lines.len(),
{
    if lines.len() > 0 {
        lemma_front(lines);
        lemma_plain_rest(lines);
        lemma_lines_back(lines.skip(1));
        let line = lines[0];
        let rest = outside_fences(lines.skip(1));
        assert(is_plain_line(line));
        words::lemma_first_line(line, rest);
        assert(seq![line] + lines.skip(1) =~= lines);
        assert forall|i: int| 0 <= i < outside_fences(lines).len() implies #[trigger] outside_fences(
            lines,
        )[i] != '\r' by {
            if i < line.len() {
                assert(outside_fences(lines)[i] == line[i]);
            } else if i > line.len() {
                assert(outside_fences(lines)[i] == rest[i - line.len() - 1]);
            }
        }
    } else {
        assert(words::lines(outside_fences(lines)) =~= lines);
    }
}

/// A text without its blocks of code holds no fence and no carriage return, and
/// removing its blocks of code once more changes nothing.
pub proof fn unfenced_is_stable(s: Seq<char>)
    ensures
        unfenced(unfenced(s)) == unfenced(s),
        !unfenced(s).contains('\r'),
        forall|i: int|
            0 <= i < plain_lines(unfenced(s)).len() ==> !is_fence(
                #[trigger] plain_lines(unfenced(s))[i],
            ),
{
    reveal_strlit("\r");
    assert("\r"@ =~= seq!['\r']);
    let plain = words::without(s, "\r"@);
    let all = plain_lines(s);
    assert forall|i: int, k: int| 0 <= i < all.len() && 0 <= k < all[i].len() implies (
    #[trigger] all[i][k]) != '\n' && all[i][k] != '\r' by {
        words::lemma_lines_hold(plain, i, k);
        let j = choose|j: int| 0 <= j < plain.len() && plain[j] == all[i][k];
        words::lemma_without_holds(s, "\r"@, j);
        assert("\r"@.contains('\r')) by {
            assert("\r"@[0] == '\r');
        }
    }
    lemma_kept(all);
    let kept = kept_lines(all);
    let out = unfenced(s);
    lemma_lines_back(kept);
    assert forall|i: int| 0 <= i < out.len() implies !"\r"@.contains(#[trigger] out[i]) by {
        assert(outside_fences(kept)[i] != '\r');
    }
    words::lemma_without_stays(out, "\r"@);
    assert(plain_lines(out) == kept);
    assert forall|i: int| 0 <= i < plain_lines(out).len() implies !is_fence(
        #[trigger] plain_lines(out)[i],
    ) by {
        assert(is_plain_line(kept[i]));
    }
}

} // verus!

use harness::hook_summary::{
    chat_completion, clean_hook_summary_text, clean_remote_summary, clean_saying,
    fallback_hook_summary, hook_body, hook_event_name, limit_summary_chars,
    looks_like_path_or_source, remote_hook_summary, remote_request, remote_timeout,
    remove_code_fences, summarize_hook_run_with_remote, try_remote_hook_summary,
    ChatCompletionChoice, ChatCompletionData, ChatCompletionMessage, ChatCompletionResponse,
    ChatMessage, HookEventName, HookOutputEntry, HookOutputEntryKind, HookRunStatus,
    HookRunSummary, DEFAULT_LLM_MODEL, DEFAULT_LLM_URL, DEFAULT_TIMEOUT_MS,
};
use harness::tagged::{cut_close, cut_open, remove_tagged_block, tag_start, try_remove_tagged_block};

fn hook_run_summary(entries: Vec<HookOutputEntry>) -> HookRunSummary {
    HookRunSummary {
        event_name: HookEventName::UserPromptSubmit,
        source_path: "/tmp/hooks.json".to_string(),
        status: HookRunStatus::Stopped,
        status_message: Some("checking input policy".to_string()),
        entries,
    }
}

fn entry(kind: HookOutputEntryKind, text: &str) -> HookOutputEntry {
    HookOutputEntry {
        kind,
        text: text.to_string(),
    }
}

fn response() -> ChatCompletionResponse {
    ChatCompletionResponse {
        text: None,
        data: None,
        success: None,
        kind: String::new(),
        error: None,
        message: None,
    }
}

#[test]
fn uses_remote_summary_when_available() {
    let run = hook_run_summary(vec![HookOutputEntry {
        kind: HookOutputEntryKind::Warning,
        text: "fallback text that should not appear".to_string(),
    }]);

    assert_eq!(
        summarize_hook_run_with_remote(&run, |_: &HookRunSummary| Some(
            "远端模型语义摘要".to_string()
        )),
        Some("远端模型语义摘要".to_string())
    );
}

#[test]
fn prioritizes_stop_over_warning() {
    let run = hook_run_summary(vec![
        HookOutputEntry {
            kind: HookOutputEntryKind::Warning,
            text: "Use Plan Mode first".to_string(),
        },
        HookOutputEntry {
            kind: HookOutputEntryKind::Stop,
            text: "prompt blocked".to_string(),
        },
    ]);

    assert_eq!(
        fallback_hook_summary(&run),
        Some("Hook 已拦截，需要处理：prompt blocked".to_string())
    );
}

#[test]
fn cleans_markdown_code_and_source_noise() {
    let run = hook_run_summary(vec![HookOutputEntry {
        kind: HookOutputEntryKind::Warning,
        text: "device: mi\ncwd: /home/ivan/github/check_boards\n```log\nnoisy\n```\n- **先跑测试** 再继续"
            .to_string(),
    }]);

    assert_eq!(
        fallback_hook_summary(&run),
        Some("Hook 提醒注意风险：先跑测试 再继续".to_string())
    );
}

#[test]
fn summarizes_status_message_when_entries_are_empty() {
    let mut run = hook_run_summary(Vec::new());
    run.status = HookRunStatus::Stopped;
    run.status_message = Some("Applying OMX prompt routing".to_string());

    assert_eq!(
        summarize_hook_run_with_remote(&run, |_: &HookRunSummary| None),
        Some("Hook 状态需要关注：Applying OMX prompt routing".to_string())
    );
}

#[test]
fn hook_body_includes_status_and_entries_for_remote_model() {
    let run = hook_run_summary(vec![HookOutputEntry {
        kind: HookOutputEntryKind::Warning,
        text: "go-workflow must start from PlanMode".to_string(),
    }]);

    assert_eq!(
        hook_body(&run),
        "status：checking input policy\nwarning：go-workflow must start from PlanMode"
    );
}

#[test]
fn cleans_remote_summary_like_check_boards() {
    assert_eq!(
        clean_remote_summary(
            "<think>hidden</think>\n```md\nnoise\n```\n**需要先修复审批失败，再重试。**"
        ),
        "**需要先修复审批失败，再重试。**"
    );
}

#[test]
fn entries_rank_by_kind() {
    let kinds = [
        (HookOutputEntryKind::Stop, "Hook 已拦截，需要处理：x"),
        (HookOutputEntryKind::Error, "Hook 已拦截，需要处理：x"),
        (HookOutputEntryKind::Feedback, "Hook 给出下一步建议：x"),
        (HookOutputEntryKind::Warning, "Hook 提醒注意风险：x"),
        (HookOutputEntryKind::Context, "Hook 状态需要关注：x"),
    ];
    for first in 0..kinds.len() {
        let mut entries = vec![];
        for (kind, _) in kinds[first..].iter().rev() {
            entries.push(entry(*kind, if *kind == kinds[first].0 { "x" } else { "y" }));
        }
        assert_eq!(
            fallback_hook_summary(&hook_run_summary(entries)),
            Some(kinds[first].1.to_string())
        );
    }
}

#[test]
fn headings_go_by_status() {
    let mut run = hook_run_summary(vec![entry(HookOutputEntryKind::Context, "x")]);
    run.status = HookRunStatus::Completed;
    assert_eq!(fallback_hook_summary(&run), Some("Hook 补充上下文：x".to_string()));
    let mut run = hook_run_summary(vec![]);
    run.status_message = Some("x".to_string());
    for (status, expected) in [
        (HookRunStatus::Completed, "Hook 状态：x"),
        (HookRunStatus::Failed, "Hook 状态需要关注：x"),
        (HookRunStatus::Blocked, "Hook 状态需要关注：x"),
        (HookRunStatus::Stopped, "Hook 状态需要关注：x"),
        (HookRunStatus::Running, "Hook 正在处理：x"),
    ] {
        run.status = status;
        assert_eq!(fallback_hook_summary(&run), Some(expected.to_string()));
    }
    run.status_message = None;
    assert_eq!(fallback_hook_summary(&run), None);
    run.status_message = Some("path: /x\n```\ncode".to_string());
    assert_eq!(fallback_hook_summary(&run), None);
}

#[test]
fn summaries_are_limited() {
    assert_eq!(limit_summary_chars("abc", 3), "abc");
    assert_eq!(limit_summary_chars("abcd", 3), "abc…");
    assert_eq!(limit_summary_chars("摘要摘要", 2), "摘要…");
    let run = hook_run_summary(vec![entry(HookOutputEntryKind::Warning, &"长".repeat(200))]);
    let summary = fallback_hook_summary(&run).unwrap();
    assert_eq!(summary.chars().count(), 91);
    assert_eq!(clean_saying(&"a".repeat(200)).chars().count(), 181);
}

#[test]
fn code_is_left_out() {
    assert_eq!(remove_code_fences("a\r\n```x\nb\n  ```\nc"), "a\nc\n");
    assert_eq!(remove_code_fences("a\n```\nb"), "a\n");
    assert_eq!(remove_code_fences(""), "");
    for text in ["a\r\n```x\nb\n  ```\nc", "```\na", "a\n\nb", "a ``` b\r"] {
        let once = remove_code_fences(text);
        assert_eq!(remove_code_fences(&once), once);
        assert!(!once.contains('\r'));
    }
}

#[test]
fn places_are_left_out() {
    for line in ["Device: x", "CWD: x", "source:x", "PATH:", "/x", "~/x"] {
        assert!(looks_like_path_or_source(line));
    }
    assert!(!looks_like_path_or_source("~x"));
    assert_eq!(clean_hook_summary_text("# a_b\n> `c`  d\n•- /x\n\n* e"), "ab c d e");
}

#[test]
fn thoughts_are_cut_out() {
    assert_eq!(remove_tagged_block("a<THINK>b</Think>c<think>d</think>", "think"), "ac");
    assert_eq!(remove_tagged_block("a<think>b", "think"), "a");
    assert_eq!(remove_tagged_block("a</think>b", "think"), "a</think>b");
    assert_eq!(remove_tagged_block("", "think"), "");
    assert_eq!(
        try_remove_tagged_block("ẞ<think>x</think>y", "think"),
        None
    );
    assert_eq!(
        try_remove_tagged_block("İ<think>x</think>y", "think"),
        Some("İ<y".to_string())
    );
}

fn cut_by_bytes(value: &str, tag: &str) -> Option<String> {
    let open = format!("<{tag}>");
    let close = format!("</{tag}>");
    let mut remaining = value;
    let mut output = String::new();
    while let Some(start) = remaining.to_lowercase().find(&open) {
        output.push_str(remaining.get(..start)?);
        let after_open = remaining.get(start + open.len()..)?;
        let Some(end) = after_open.to_lowercase().find(&close) else {
            remaining = "";
            break;
        };
        remaining = after_open.get(end + close.len()..)?;
    }
    output.push_str(remaining);
    Some(output)
}

#[test]
fn blocks_are_cut_as_bytes_are() {
    let pieces = ["<think>", "</THINK>", "İ", "ẞ", "\u{212a}", "a", "é", "摘"];
    let n = pieces.len();
    for code in 0..n.pow(5) {
        let mut value = String::new();
        let mut rest = code;
        for _ in 0..5 {
            value.push_str(pieces[rest % n]);
            rest /= n;
        }
        assert_eq!(
            try_remove_tagged_block(&value, "think"),
            cut_by_bytes(&value, "think")
        );
    }
}

#[test]
fn tags_are_cut_where_the_lower_case_form_has_them() {
    assert_eq!(tag_start("é<t>x</t>", "t"), Some(2));
    assert_eq!(tag_start("<u>", "t"), None);
    assert_eq!(
        cut_open("é<T>x</T>", 2, "t"),
        Some(("é".to_string(), "x</T>".to_string()))
    );
    assert_eq!(cut_open("é<T>", 1, "t"), None);
    assert_eq!(cut_close("x</T>y", "x</t>y", "t"), Some("y".to_string()));
    assert_eq!(cut_close("xy", "xy", "t"), Some(String::new()));
    assert_eq!(cut_close("é", "</t>", "t"), None);
}

#[test]
fn remote_reply_makes_a_summary() {
    assert_eq!(
        remote_hook_summary(Some(Ok("<think>x</think> a \n b ".to_string()))),
        Some("a b".to_string())
    );
    assert_eq!(try_remote_hook_summary(Some(Ok("<think>x".to_string()))), None);
    assert_eq!(try_remote_hook_summary(Some(Err("down".to_string()))), None);
    assert_eq!(try_remote_hook_summary(None), None);
    assert_eq!(
        try_remote_hook_summary(Some(Ok("ok".to_string()))),
        Some("ok".to_string())
    );
    assert_eq!(
        try_remote_hook_summary(Some(Ok("ẞ<think>x</think>y".to_string()))),
        None
    );
}

#[test]
fn request_goes_by_the_environment() {
    let run = hook_run_summary(vec![entry(HookOutputEntryKind::Error, "x")]);
    let request = remote_request(&run, None, None, None).unwrap();
    assert_eq!(request.url, DEFAULT_LLM_URL);
    assert_eq!(request.model, DEFAULT_LLM_MODEL);
    assert_eq!(request.timeout_ms, DEFAULT_TIMEOUT_MS);
    assert_eq!(request.max_tokens, 256);
    assert_eq!(
        request.question,
        "标题：UserPromptSubmit hook\n设备：local\n目录：/tmp/hooks.json\n状态：stopped\n内容：\nstatus：checking input policy\nerror：x"
    );
    let request = remote_request(
        &run,
        Some("ws://x".to_string()),
        Some("m".to_string()),
        Some("5".to_string()),
    )
    .unwrap();
    assert_eq!((request.url.as_str(), request.model.as_str(), request.timeout_ms), ("ws://x", "m", 5));
    assert_eq!(remote_timeout(Some("0".to_string())), DEFAULT_TIMEOUT_MS);
    assert_eq!(remote_timeout(Some("x".to_string())), DEFAULT_TIMEOUT_MS);
    let mut empty = hook_run_summary(vec![]);
    empty.status_message = Some("  ".to_string());
    assert_eq!(remote_request(&empty, None, None, None), None);
}

#[test]
fn statuses_are_named_as_they_are_debugged() {
    for status in [
        HookRunStatus::Running,
        HookRunStatus::Completed,
        HookRunStatus::Failed,
        HookRunStatus::Blocked,
        HookRunStatus::Stopped,
    ] {
        let mut run = hook_run_summary(vec![]);
        run.status = status;
        let line = format!("状态：{}", format!("{status:?}").to_lowercase());
        assert!(remote_request(&run, None, None, None).unwrap().question.contains(&line));
    }
}

#[test]
fn events_are_named_as_they_are_debugged() {
    for event in [
        HookEventName::PreToolUse,
        HookEventName::PermissionRequest,
        HookEventName::PostToolUse,
        HookEventName::PreCompact,
        HookEventName::PostCompact,
        HookEventName::SessionStart,
        HookEventName::UserPromptSubmit,
        HookEventName::SubagentStart,
        HookEventName::SubagentStop,
        HookEventName::Stop,
    ] {
        assert_eq!(hook_event_name(event), format!("{event:?}"));
    }
}

#[test]
fn chat_reply_says_its_text() {
    let mut r = response();
    r.success = Some(true);
    r.text = Some("远端模型语义摘要".to_string());
    assert_eq!(
        chat_completion(ChatMessage::Response(r)),
        Some(Ok("远端模型语义摘要".to_string()))
    );
}

#[test]
fn chat_reply_says_its_first_choice() {
    let choice = |content: Option<&str>| ChatCompletionChoice {
        message: Some(ChatCompletionMessage {
            content: content.map(|s| s.to_string()),
        }),
    };
    let mut r = response();
    r.data = Some(ChatCompletionData {
        choices: Some(vec![choice(Some("a")), choice(Some("b"))]),
    });
    assert_eq!(chat_completion(ChatMessage::Response(r)), Some(Ok("a".to_string())));
    let mut r = response();
    r.data = Some(ChatCompletionData {
        choices: Some(vec![choice(None), choice(Some("b"))]),
    });
    assert_eq!(
        chat_completion(ChatMessage::Response(r)),
        Some(Err("小模型响应为空".to_string()))
    );
    let mut r = response();
    r.data = Some(ChatCompletionData { choices: Some(vec![]) });
    assert_eq!(
        chat_completion(ChatMessage::Response(r)),
        Some(Err("小模型响应为空".to_string()))
    );
}

#[test]
fn chat_reply_that_failed_is_an_error() {
    let mut r = response();
    r.success = Some(false);
    r.text = Some("x".to_string());
    assert_eq!(
        chat_completion(ChatMessage::Response(r)),
        Some(Err("小模型请求失败".to_string()))
    );
    let mut r = response();
    r.kind = "error".to_string();
    r.message = Some("m".to_string());
    assert_eq!(chat_completion(ChatMessage::Response(r)), Some(Err("m".to_string())));
    let mut r = response();
    r.kind = "error".to_string();
    r.error = Some("e".to_string());
    r.message = Some("m".to_string());
    assert_eq!(chat_completion(ChatMessage::Response(r)), Some(Err("e".to_string())));
    assert_eq!(chat_completion(ChatMessage::NotText), None);
    assert_eq!(
        chat_completion(ChatMessage::Unparsable("eof".to_string())),
        Some(Err("eof".to_string()))
    );
}

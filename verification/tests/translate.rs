use agentero::error::AppError;
use agentero::translate::{
    interpolate_custom_prompt, openai_chat_request, openai_translate_messages,
    openai_translate_prompt, target_display_name, translation_of_choice, translation_of_response,
    ChatReply, NUMBERED_BATCH_RULE, OPENAI_TRANSLATE_SYSTEM,
};

#[test]
fn openai_prompt_carries_academic_rules_and_marker_hint() {
    let (system, single) = openai_translate_messages("Hello world", "auto", "zh-CN", None);
    assert_eq!(system, OPENAI_TRANSLATE_SYSTEM);
    assert!(single.contains("the source language"));
    assert!(single.contains("zh-CN"));
    assert!(single.contains("Translate the meaning, not the word order"));
    assert!(single.contains("Output only the translation."));
    assert!(!single.contains("[[n]] marker"));

    let (_, batch) = openai_translate_messages("[[1]] a\n\n[[2]] b", "en", "zh-CN", None);
    assert!(batch.contains("from en to zh-CN"));
    assert!(batch.contains("[[n]] marker"));
}

#[test]
fn custom_prompt_replaces_instructions_but_not_payload() {
    let (system, user) = openai_translate_messages(
        "Hello world",
        "auto",
        "zh-CN",
        Some("Translate into {{targetLang}} from {{sourceLang}}. Be terse."),
    );
    assert_eq!(
        system,
        "Translate into Chinese from the source language. Be terse."
    );
    assert!(user.starts_with("Text:\nHello world"));
    assert!(!user.contains("Rules:"));
    // Whitespace-only custom prompts fall back to the built-in prompt.
    let (system, _) = openai_translate_messages("Hello world", "auto", "zh-CN", Some("  "));
    assert_eq!(system, OPENAI_TRANSLATE_SYSTEM);
}

#[test]
fn custom_prompt_keeps_numbered_batch_rule() {
    let (_, user) =
        openai_translate_messages("[[1]] a\n\n[[2]] b", "en", "zh-CN", Some("Custom."));
    assert!(user.contains("[[n]] marker"));
    assert!(user.contains("Do not merge paragraphs."));
    assert!(user.ends_with("Text:\n[[1]] a\n\n[[2]] b"));
}

#[test]
fn languages_have_display_names() {
    for code in ["zh", "ZH-cn", " zh-TW ", "Chinese"] {
        assert_eq!(target_display_name(code), "Chinese");
    }
    for code in ["en", "en-US", "ENGLISH"] {
        assert_eq!(target_display_name(code), "English");
    }
    assert_eq!(target_display_name(" fr "), "fr");
    assert_eq!(target_display_name("zhx"), "zhx");
}

#[test]
fn placeholders_are_filled_in_everywhere() {
    assert_eq!(
        interpolate_custom_prompt("{{sourceLang}}>{{targetLang}}>{{targetLang}}", "de", "en"),
        "de>English>English"
    );
    assert_eq!(
        interpolate_custom_prompt("to {{targetLang}}", "de", "{{sourceLang}}"),
        "to de"
    );
    assert_eq!(interpolate_custom_prompt("{{target}}", "auto", "en"), "{{target}}");
}

#[test]
fn blank_custom_prompt_is_none() {
    let (system, user) = openai_translate_messages("Hi", "en", "zh", Some("  "));
    assert_eq!(system, OPENAI_TRANSLATE_SYSTEM);
    assert_eq!(user, openai_translate_prompt("Hi", "en", "zh"));
    assert!(user.ends_with("Text:\nHi"));
}

#[test]
fn request_needs_a_key_and_a_model() {
    let ask = |key: Result<String, AppError>, model: Option<&str>| {
        openai_chat_request("Hi", "en", "zh", key, "https://x/v1".to_string(), model, Some("P"))
    };
    let request = ask(Ok("k".to_string()), Some(" m ")).unwrap();
    assert_eq!(request.url, "https://x/v1");
    assert_eq!(request.authorization, "Bearer k");
    assert_eq!(request.model, "m");
    assert_eq!(request.system, "P");
    assert_eq!(request.user, "Text:\nHi");
    let no_model = "OpenAI-compatible requires model (Settings → Translate)";
    assert_eq!(ask(Ok("k".to_string()), None).unwrap_err().message, no_model);
    assert_eq!(ask(Ok("k".to_string()), Some(" ")).unwrap_err().message, no_model);
    assert_eq!(ask(Err(AppError::message("no key")), None).unwrap_err().message, "no key");
}

#[test]
fn translation_is_read_from_the_first_choice() {
    let read = |body: &str| translation_of_response(ChatReply::Body(body.to_string()));
    assert_eq!(
        read(r#"{"choices":[{"finish_reason":"stop","message":{"content":"你好"}},{}]}"#).unwrap(),
        "你好"
    );
    assert_eq!(read(r#"{"choices":[{"message":{"content":""}}]}"#).unwrap(), "");
    let unexpected = "Unexpected OpenAI-compatible response";
    for body in [
        "{}",
        r#"{"choices":[]}"#,
        r#"{"choices":{"0":{"message":{"content":"x"}}}}"#,
        r#"{"choices":[{"message":{"content":null}}]}"#,
        r#"{"choices":[{"message":"x"}]}"#,
    ] {
        assert_eq!(read(body).unwrap_err().message, unexpected);
    }
    for reason in ["length", "max_tokens", "content_filter"] {
        let body = format!(
            r#"{{"choices":[{{"finish_reason":"{reason}","message":{{"content":"x"}}}}]}}"#
        );
        assert_eq!(
            read(&body).unwrap_err().message,
            format!(
                "OpenAI-compatible translation incomplete (finish_reason={reason}); retry with a smaller chunk"
            )
        );
    }
    assert!(read("nonsense").unwrap_err().message.starts_with("OpenAI-compatible parse: "));
    let failed = |reply: ChatReply| translation_of_response(reply).unwrap_err().message;
    assert_eq!(failed(ChatReply::Refused(AppError::message("401"))), "401");
    assert_eq!(failed(ChatReply::NoClient(AppError::message("tls"))), "tls");
    assert_eq!(failed(ChatReply::NoBody(AppError::message("cut"))), "cut");
    assert_eq!(
        failed(ChatReply::NotSent("dns".to_string())),
        "OpenAI-compatible request failed: dns"
    );
    assert_eq!(translation_of_choice(None, Some("t".to_string())).unwrap(), "t");
}

#[test]
fn only_a_numbered_batch_carries_the_rule() {
    for custom in [None, Some("Custom."), Some(" ")] {
        let (_, plain) = openai_translate_messages("[[2]] b", "auto", "zh-CN", custom);
        assert!(!plain.contains(NUMBERED_BATCH_RULE));
        let (_, batch) = openai_translate_messages("[[1]] a", "auto", "zh-CN", custom);
        assert!(batch.contains(NUMBERED_BATCH_RULE));
    }
    let (_, custom) = openai_translate_messages("b", NUMBERED_BATCH_RULE, "en", Some("Custom."));
    assert!(!custom.contains(NUMBERED_BATCH_RULE));
    let cut = NUMBERED_BATCH_RULE.strip_suffix('.').unwrap();
    let (_, built_in) = openai_translate_messages("b", "de", cut, None);
    assert!(built_in.contains(NUMBERED_BATCH_RULE));
}

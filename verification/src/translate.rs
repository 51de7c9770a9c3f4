//! Translation through an OpenAI-compatible chat endpoint: the prompts, the request and the
//! reading of the response.
use crate::error::{outcome_text, AppError};
use crate::json::{json_string_in_element, json_string_in_element_of};
use crate::text::{
    concat, contains, content, lowered, occurs, occurs_at, replace, replaced, same, starts_with,
    to_ascii_lowercase, trim, trimmed,
};
use vstd::prelude::*;

verus! {

/// Instruction block for the OpenAI-compatible path.
pub const OPENAI_TRANSLATE_SYSTEM: &'static str = "You are a professional academic translator. You render research-paper prose into fluent, idiomatic target-language text and output only the translation.";

/// Numbered batch payload ([[1]] …, [[2]] …): ask the model to keep the
/// markers and paragraph count so the caller can split the result back.
/// Stands on both the default and the custom-prompt path.
pub const NUMBERED_BATCH_RULE: &'static str = "The text contains several paragraphs, each prefixed with a [[n]] marker. Translate every paragraph and keep the same [[n]] markers, in the same order, with the same number of paragraphs. Do not merge paragraphs.";

/// The rules of the built-in prompt, from the end of its first sentence on.
pub const OPENAI_TRANSLATE_RULES: &'static str = ".\n\nRules:\n- The source is prose from a research paper, often extracted from a PDF text layer. Translate the meaning, not the word order: re-order clauses and split long sentences when that reads better.\n- Keep mathematics, symbols, variable names, units, inline code, URLs, citation markers and figure/table/equation numbers exactly as they appear, including any ⟦n⟧ placeholders.\n- Use the established target-language term for each concept and stay consistent.\n- Do not add, drop, summarize or explain anything. No translator notes, no markdown fences.\n- Output only the translation.";

/// The prompt-facing name of a language code; an unknown code names itself.
pub open spec fn display_name(target: Seq<char>) -> Seq<char> {
    let lower = lowered(trimmed(target));
    if lower == "zh"@ || lower == "zh-cn"@ || "zh-"@.is_prefix_of(lower) || lower == "chinese"@ {
        "Chinese"@
    } else if lower == "en"@ || "en-"@.is_prefix_of(lower) || lower == "english"@ {
        "English"@
    } else {
        trimmed(target)
    }
}

/// How the source language is worded.
pub open spec fn source_wording(source: Seq<char>) -> Seq<char> {
    if source == "auto"@ {
        "the source language"@
    } else {
        source
    }
}

/// A custom prompt with its placeholders filled in: the target language first, then the source
/// language.
pub open spec fn interpolated(custom: Seq<char>, source: Seq<char>, target: Seq<char>) -> Seq<
    char,
> {
    replaced(
        replaced(custom, "{{targetLang}}"@, display_name(target)),
        "{{sourceLang}}"@,
        source_wording(source),
    )
}

/// The text is a numbered batch.
pub open spec fn numbered(text: Seq<char>) -> bool {
    occurs(text, "[[1]]"@)
}

/// The built-in prompt.
pub open spec fn built_in_prompt(text: Seq<char>, source: Seq<char>, target: Seq<char>) -> Seq<
    char,
> {
    let hint = if numbered(text) {
        "\n- "@ + NUMBERED_BATCH_RULE@
    } else {
        Seq::empty()
    };
    "Translate the text below from "@ + source_wording(source) + " to "@ + target
        + OPENAI_TRANSLATE_RULES@ + hint + "\n\nText:\n"@ + text
}

/// The user message that goes with a custom prompt.
pub open spec fn custom_payload(text: Seq<char>) -> Seq<char> {
    let rule = if numbered(text) {
        NUMBERED_BATCH_RULE@ + "\n\n"@
    } else {
        Seq::empty()
    };
    rule + "Text:\n"@ + text
}

/// The system and the user message. A custom prompt that is not blank takes the place of the
/// built-in instructions; the payload stays.
pub open spec fn translate_messages(
    text: Seq<char>,
    source: Seq<char>,
    target: Seq<char>,
    custom_prompt: Option<Seq<char>>,
) -> (Seq<char>, Seq<char>) {
    match custom_prompt {
        Some(custom) if trimmed(custom).len() > 0 => (
            interpolated(trimmed(custom), source, target),
            custom_payload(text),
        ),
        _ => (OPENAI_TRANSLATE_SYSTEM@, built_in_prompt(text, source, target)),
    }
}

/// Map a language code to a prompt-facing display name; unknown values pass
/// through so future codes keep working.
pub fn target_display_name(target: &str) -> (r: String)
    ensures
        r@ == display_name(target@),
{
    let t = trim(target);
    let lower = to_ascii_lowercase(t);
    let l = lower.as_str();
    if same(l, "zh") || same(l, "zh-cn") || starts_with(l, "zh-") || same(l, "chinese") {
        "Chinese".to_owned()
    } else if same(l, "en") || starts_with(l, "en-") || same(l, "english") {
        "English".to_owned()
    } else {
        t.to_owned()
    }
}

/// How the source language is worded.
fn source_phrase<'a>(source: &'a str) -> (r: &'a str)
    ensures
        r@ == source_wording(source@),
{
    if same(source, "auto") {
        "the source language"
    } else {
        source
    }
}

/// Substitute `{{targetLang}}` / `{{sourceLang}}` in a user-supplied prompt
/// template. `auto` keeps the wording the built-in prompt uses.
pub fn interpolate_custom_prompt(custom: &str, source: &str, target: &str) -> (r: String)
    ensures
        r@ == interpolated(custom@, source@, target@),
{
    let name = target_display_name(target);
    let first = replace(custom, "{{targetLang}}", name.as_str());
    replace(first.as_str(), "{{sourceLang}}", source_phrase(source))
}

/// The built-in prompt.
pub fn openai_translate_prompt(text: &str, source: &str, target: &str) -> (r: String)
    ensures
        r@ == built_in_prompt(text@, source@, target@),
{
    let mut out = concat("Translate the text below from ", source_phrase(source));
    out.append(" to ");
    out.append(target);
    out.append(OPENAI_TRANSLATE_RULES);
    if contains(text, "[[1]]") {
        let hint = concat("\n- ", NUMBERED_BATCH_RULE);
        out.append(hint.as_str());
    } else {
        assert(out@ + Seq::<char>::empty() =~= out@);
    }
    out.append("\n\nText:\n");
    out.append(text);
    out
}

/// Compose the (system, user) message pair. A non-empty `custom_prompt`
/// replaces the built-in system + rules block (after `{{targetLang}}` /
/// `{{sourceLang}}` interpolation); the numbered-batch rule and the text
/// payload stay so `[[n]]` splitting keeps working.
pub fn openai_translate_messages(
    text: &str,
    source: &str,
    target: &str,
    custom_prompt: Option<&str>,
) -> (r: (String, String))
    ensures
        (r.0@, r.1@) == translate_messages(
            text@,
            source@,
            target@,
            match custom_prompt {
                Some(custom) => Some(custom@),
                None => None,
            },
        ),
{
    if let Some(custom) = custom_prompt {
        let template = trim(custom);
        if !template.is_empty() {
            let system = interpolate_custom_prompt(template, source, target);
            let mut user = String::new();
            if contains(text, "[[1]]") {
                user = concat(NUMBERED_BATCH_RULE, "\n\n");
            }
            user.append("Text:\n");
            user.append(text);
            return (system, user);
        }
    }
    (OPENAI_TRANSLATE_SYSTEM.to_owned(), openai_translate_prompt(text, source, target))
}

/// A chat request, but for its sampling temperature.
#[derive(Debug, Clone, PartialEq, Eq)]
pub struct ChatRequest {
    pub url: String,
    pub authorization: String,
    pub model: String,
    pub system: String,
    pub user: String,
}

/// The request for a translation. It takes an API key, and a model that is not blank; a missing
/// key is reported before a missing model.
pub fn openai_chat_request(
    text: &str,
    source: &str,
    target: &str,
    api_key: Result<String, AppError>,
    url: String,
    model: Option<&str>,
    custom_prompt: Option<&str>,
) -> (r: Result<ChatRequest, AppError>)
    ensures
        match (api_key, model) {
            (Err(e), _) => r == Err::<ChatRequest, AppError>(e),
            (Ok(key), Some(m)) if trimmed(m@).len() > 0 => {
                &&& r matches Ok(request)
                &&& request.url@ == url@
                &&& request.authorization@ == "Bearer "@ + key@
                &&& request.model@ == trimmed(m@)
                &&& (request.system@, request.user@) == translate_messages(
                    text@,
                    source@,
                    target@,
                    match custom_prompt {
                        Some(custom) => Some(custom@),
                        None => None,
                    },
                )
            },
            _ => r matches Err(e) && e@
                == "OpenAI-compatible requires model (Settings → Translate)"@,
        },
{
    let key = match api_key {
        Ok(key) => key,
        Err(e) => return Err(e),
    };
    if let Some(m) = model {
        let name = trim(m);
        if !name.is_empty() {
            let (system, user) = openai_translate_messages(text, source, target, custom_prompt);
            return Ok(
                ChatRequest {
                    url,
                    authorization: concat("Bearer ", key.as_str()),
                    model: name.to_owned(),
                    system,
                    user,
                },
            );
        }
    }
    Err(AppError::message("OpenAI-compatible requires model (Settings → Translate)"))
}

/// The finish reasons of a translation that was cut short.
pub open spec fn cut_short(reason: Seq<char>) -> bool {
    reason == "length"@ || reason == "max_tokens"@ || reason == "content_filter"@
}

/// The translation in a choice, or why there is none.
pub open spec fn choice_outcome(
    finish_reason: Option<Seq<char>>,
    message: Option<Seq<char>>,
) -> Result<Seq<char>, Seq<char>> {
    match (finish_reason, message) {
        (Some(reason), _) if cut_short(reason) => Err(
            "OpenAI-compatible translation incomplete (finish_reason="@ + reason
                + "); retry with a smaller chunk"@,
        ),
        (_, Some(text)) => Ok(text),
        (_, None) => Err("Unexpected OpenAI-compatible response"@),
    }
}

/// The translation in a choice with this finish reason and this message content.
pub fn translation_of_choice(finish_reason: Option<String>, message: Option<String>) -> (r: Result<
    String,
    AppError,
>)
    ensures
        outcome_text(r) == choice_outcome(content(finish_reason), content(message)),
{
    if let Some(reason) = &finish_reason {
        let s = reason.as_str();
        if same(s, "length") || same(s, "max_tokens") || same(s, "content_filter") {
            let mut text = concat("OpenAI-compatible translation incomplete (finish_reason=", s);
            text.append("); retry with a smaller chunk");
            return Err(AppError { message: text });
        }
    }
    match message {
        Some(text) => Ok(text),
        None => Err(AppError::message("Unexpected OpenAI-compatible response")),
    }
}

/// What came back for a chat request.
#[derive(Debug, Clone, PartialEq, Eq)]
pub enum ChatReply {
    /// The client could not be made.
    NoClient(AppError),
    /// The request could not be sent.
    NotSent(String),
    /// The body could not be read.
    NoBody(AppError),
    /// The status is no success; the error that stands for it.
    Refused(AppError),
    Body(String),
}

/// The translation in the body of a response, or why there is none. It stands in the first
/// choice.
pub open spec fn body_outcome(body: Seq<char>) -> Result<Seq<char>, Seq<char>> {
    match (
        json_string_in_element_of(body, "choices"@, 0, "/finish_reason"@),
        json_string_in_element_of(body, "choices"@, 0, "/message/content"@),
    ) {
        (Err(e), _) => Err("OpenAI-compatible parse: "@ + e),
        (_, Err(e)) => Err("OpenAI-compatible parse: "@ + e),
        (Ok(reason), Ok(message)) => choice_outcome(reason, message),
    }
}

/// The translation in the reply to a chat request.
pub fn translation_of_response(reply: ChatReply) -> (r: Result<String, AppError>)
    ensures
        outcome_text(r) == match reply {
            ChatReply::NoClient(e) => Err(e@),
            ChatReply::NotSent(e) => Err("OpenAI-compatible request failed: "@ + e@),
            ChatReply::NoBody(e) => Err(e@),
            ChatReply::Refused(e) => Err(e@),
            ChatReply::Body(body) => body_outcome(body@),
        },
{
    let body = match reply {
        ChatReply::NoClient(e) => return Err(e),
        ChatReply::NotSent(e) => {
            return Err(
                AppError { message: concat("OpenAI-compatible request failed: ", e.as_str()) },
            );
        },
        ChatReply::NoBody(e) => return Err(e),
        ChatReply::Refused(e) => return Err(e),
        ChatReply::Body(body) => body,
    };
    let finish_reason = match json_string_in_element(
        body.as_str(),
        "choices",
        0,
        "/finish_reason",
    ) {
        Ok(found) => found,
        Err(e) => return Err(AppError { message: concat("OpenAI-compatible parse: ", e.as_str()) }),
    };
    let message = match json_string_in_element(body.as_str(), "choices", 0, "/message/content") {
        Ok(found) => found,
        Err(e) => return Err(AppError { message: concat("OpenAI-compatible parse: ", e.as_str()) }),
    };
    translation_of_choice(finish_reason, message)
}

/// Whatever the prompt, the user message ends with the text.
pub proof fn law_text_is_the_last_of_the_payload(
    text: Seq<char>,
    source: Seq<char>,
    target: Seq<char>,
    custom_prompt: Option<Seq<char>>,
)
    ensures
        ("Text:\n"@ + text).is_suffix_of(
            translate_messages(text, source, target, custom_prompt).1,
        ),
{
    reveal_strlit("\n\nText:\n");
    reveal_strlit("Text:\n");
    let user = translate_messages(text, source, target, custom_prompt).1;
    let end = "Text:\n"@ + text;
    let at = user.len() - end.len();
    assert(user.subrange(at, user.len() as int) =~= end);
}

/// Whatever the prompt, the user message of a numbered batch carries the rule for its markers.
pub proof fn law_numbered_batch_carries_its_rule(
    text: Seq<char>,
    source: Seq<char>,
    target: Seq<char>,
    custom_prompt: Option<Seq<char>>,
)
    requires
        numbered(text),
    ensures
        occurs(translate_messages(text, source, target, custom_prompt).1, NUMBERED_BATCH_RULE@),
{
    let rule = NUMBERED_BATCH_RULE@;
    let user = translate_messages(text, source, target, custom_prompt).1;
    let custom = match custom_prompt {
        Some(custom) => trimmed(custom).len() > 0,
        None => false,
    };
    if custom {
        assert(user.subrange(0, rule.len() as int) =~= rule);
        assert(occurs_at(user, rule, 0));
    } else {
        let lead = "Translate the text below from "@ + source_wording(source) + " to "@ + target
            + OPENAI_TRANSLATE_RULES@ + "\n- "@;
        let at = lead.len() as int;
        assert(user =~= lead + rule + "\n\nText:\n"@ + text);
        assert(user.subrange(at, at + rule.len()) =~= rule);
        assert(occurs_at(user, rule, at));
    }
}

/// The characters of the batch rule that tell it from the rest of a prompt.
proof fn lemma_batch_rule()
    ensures
        NUMBERED_BATCH_RULE@.len() == 211,
        NUMBERED_BATCH_RULE@[0] == 'T',
        NUMBERED_BATCH_RULE@[1] == 'h',
        NUMBERED_BATCH_RULE@[59] == '[',
        NUMBERED_BATCH_RULE@[210] == '.',
        forall|i: int| 0 <= i < 211 ==> #[trigger] NUMBERED_BATCH_RULE@[i] != '\n',
        forall|i: int| 0 <= i < 209 && #[trigger] NUMBERED_BATCH_RULE@[i] == ' ' ==> !(
        NUMBERED_BATCH_RULE@[i + 1] == 't' && NUMBERED_BATCH_RULE@[i + 2] == 'o'),
{
    reveal_strlit("The text contains several paragraphs, each prefixed with a [[n]] marker. Translate every paragraph and keep the same [[n]] markers, in the same order, with the same number of paragraphs. Do not merge paragraphs.");
}

/// The rules of the built-in prompt hold no brackets.
proof fn lemma_built_in_rules()
    ensures
        OPENAI_TRANSLATE_RULES@.len() > 2,
        OPENAI_TRANSLATE_RULES@[0] == '.',
        OPENAI_TRANSLATE_RULES@[1] == '\n',
        forall|i: int| 0 <= i < OPENAI_TRANSLATE_RULES@.len() ==> #[trigger] OPENAI_TRANSLATE_RULES@[i]
            != '[',
{
    reveal_strlit(".\n\nRules:\n- The source is prose from a research paper, often extracted from a PDF text layer. Translate the meaning, not the word order: re-order clauses and split long sentences when that reads better.\n- Keep mathematics, symbols, variable names, units, inline code, URLs, citation markers and figure/table/equation numbers exactly as they appear, including any ⟦n⟧ placeholders.\n- Use the established target-language term for each concept and stay consistent.\n- Do not add, drop, summarize or explain anything. No translator notes, no markdown fences.\n- Output only the translation.");
}

/// An occurrence holds each character of the pattern in its place.
proof fn lemma_occurrence_holds(s: Seq<char>, pat: Seq<char>, at: int, k: int)
    requires
        occurs_at(s, pat, at),
        0 <= k < pat.len(),
    ensures
        0 <= at,
        at + pat.len() <= s.len(),
        s[at + k] == pat[k],
{
    assert(s.subrange(at, at + pat.len())[k] == s[at + k]);
}

/// An occurrence that lies in a part of a text is an occurrence in that part.
proof fn lemma_occurrence_in_part(s: Seq<char>, part: Seq<char>, from: int, pat: Seq<char>, at: int)
    requires
        occurs_at(s, pat, at),
        0 <= from <= at,
        at + pat.len() <= from + part.len() <= s.len(),
        forall|i: int| 0 <= i < part.len() ==> #[trigger] part[i] == s[from + i],
    ensures
        occurs(part, pat),
{
    assert(part.subrange(at - from, at - from + pat.len()) =~= s.subrange(at, at + pat.len()));
    assert(occurs_at(part, pat, at - from));
}

/// The batch rule does not occur in the built-in prompt of a text that is no numbered batch.
proof fn lemma_no_rule_in_built_in_prompt(
    text: Seq<char>,
    source: Seq<char>,
    target: Seq<char>,
    at: int,
)
    requires
        !numbered(text),
        !occurs(text, NUMBERED_BATCH_RULE@),
        !occurs(source, NUMBERED_BATCH_RULE@),
        !occurs(target.push('.'), NUMBERED_BATCH_RULE@),
    ensures
        !occurs_at(built_in_prompt(text, source, target), NUMBERED_BATCH_RULE@, at),
{
    let rule = NUMBERED_BATCH_RULE@;
    let user = built_in_prompt(text, source, target);
    let wording = source_wording(source);
    if occurs_at(user, rule, at) {
        lemma_batch_rule();
        lemma_built_in_rules();
        reveal_strlit("Translate the text below from ");
        reveal_strlit(" to ");
        reveal_strlit("\n\nText:\n");
        reveal_strlit("the source language");
        let to: int = 30 + wording.len() as int;
        let language: int = to + 4;
        let rules: int = language + target.len();
        let label: int = rules + OPENAI_TRANSLATE_RULES@.len();
        let payload: int = label + 8;
        assert(user == "Translate the text below from "@ + wording + " to "@ + target
            + OPENAI_TRANSLATE_RULES@ + "\n\nText:\n"@ + text);
        lemma_occurrence_holds(user, rule, at, 0);
        lemma_occurrence_holds(user, rule, at, 1);
        if at < to {
            assert(at >= 30);
            if at + 211 <= to {
                lemma_occurrence_in_part(user, wording, 30, rule, at);
            } else {
                lemma_occurrence_holds(user, rule, at, to - at);
                assert(user[to] == ' ' && user[to + 1] == 't' && user[to + 2] == 'o');
                if to - at < 210 {
                    lemma_occurrence_holds(user, rule, at, to - at + 1);
                }
                if to - at < 209 {
                    lemma_occurrence_holds(user, rule, at, to - at + 2);
                }
            }
        } else if at <= rules {
            assert(at >= language) by {
                if at < language {
                    assert(user[at] == " to "@[at - to]);
                }
            }
            assert(user[rules] == '.' && user[rules + 1] == '\n');
            if at + 211 <= rules + 1 {
                lemma_occurrence_in_part(user, target.push('.'), language, rule, at);
            } else {
                lemma_occurrence_holds(user, rule, at, rules + 1 - at);
            }
        } else if at + 59 < label {
            lemma_occurrence_holds(user, rule, at, 59);
            assert(user[at + 59] == OPENAI_TRANSLATE_RULES@[at + 59 - rules]);
        } else if at < payload {
            assert(user[label] == '\n' && user[label + 7] == '\n');
            if at <= label {
                lemma_occurrence_holds(user, rule, at, label - at);
            } else {
                lemma_occurrence_holds(user, rule, at, label + 7 - at);
            }
        } else {
            lemma_occurrence_in_part(user, text, payload, rule, at);
        }
    }
}

/// A part of a text brings its occurrences along.
proof fn lemma_occurrence_in_whole(s: Seq<char>, part: Seq<char>, from: int, pat: Seq<char>)
    requires
        occurs(part, pat),
        0 <= from,
        from + part.len() <= s.len(),
        forall|i: int| 0 <= i < part.len() ==> #[trigger] part[i] == s[from + i],
    ensures
        occurs(s, pat),
{
    let at = choose|at: int| occurs_at(part, pat, at);
    assert(s.subrange(from + at, from + at + pat.len()) =~= part.subrange(at, at + pat.len()));
    assert(occurs_at(s, pat, from + at));
}

/// The custom prompt takes the place of the built-in one.
pub open spec fn is_custom(custom_prompt: Option<Seq<char>>) -> bool {
    custom_prompt matches Some(custom) && trimmed(custom).len() > 0
}

/// The batch rule stands in what the user message is made from: in the text, or, with the
/// built-in prompt, in the name of the source language or in that of the target language with the
/// full stop behind it.
pub open spec fn rule_in_material(
    text: Seq<char>,
    source: Seq<char>,
    target: Seq<char>,
    custom_prompt: Option<Seq<char>>,
) -> bool {
    ||| occurs(text, NUMBERED_BATCH_RULE@)
    ||| !is_custom(custom_prompt) && occurs(source, NUMBERED_BATCH_RULE@)
    ||| !is_custom(custom_prompt) && occurs(target.push('.'), NUMBERED_BATCH_RULE@)
}

/// Whatever the prompt, the user message carries the batch rule where the text is a numbered
/// batch, and else only where the rule stands in what the message is made from.
pub proof fn law_only_a_numbered_batch_carries_the_rule(
    text: Seq<char>,
    source: Seq<char>,
    target: Seq<char>,
    custom_prompt: Option<Seq<char>>,
)
    ensures
        occurs(translate_messages(text, source, target, custom_prompt).1, NUMBERED_BATCH_RULE@)
            <==> numbered(text) || rule_in_material(text, source, target, custom_prompt),
{
    let rule = NUMBERED_BATCH_RULE@;
    let user = translate_messages(text, source, target, custom_prompt).1;
    if numbered(text) {
        law_numbered_batch_carries_its_rule(text, source, target, custom_prompt);
    } else if is_custom(custom_prompt) {
        lemma_batch_rule();
        reveal_strlit("Text:\n");
        assert(user =~= "Text:\n"@ + text);
        if occurs(text, rule) {
            lemma_occurrence_in_whole(user, text, 6, rule);
        }
        if occurs(user, rule) {
            let at = choose|at: int| occurs_at(user, rule, at);
            lemma_occurrence_holds(user, rule, at, 0);
            if at < 6 {
                lemma_occurrence_holds(user, rule, at, 5 - at);
            } else {
                lemma_occurrence_in_part(user, text, 6, rule, at);
            }
        }
    } else {
        assert(user == built_in_prompt(text, source, target));
        if rule_in_material(text, source, target, custom_prompt) {
            lemma_rule_of_material(text, source, target);
        } else if occurs(user, rule) {
            let at = choose|at: int| occurs_at(user, rule, at);
            lemma_no_rule_in_built_in_prompt(text, source, target, at);
        }
    }
}

/// The built-in prompt holds the batch rule where what it is made from does.
proof fn lemma_rule_of_material(text: Seq<char>, source: Seq<char>, target: Seq<char>)
    requires
        !numbered(text),
        rule_in_material(text, source, target, None),
    ensures
        occurs(built_in_prompt(text, source, target), NUMBERED_BATCH_RULE@),
{
    let rule = NUMBERED_BATCH_RULE@;
    let user = built_in_prompt(text, source, target);
    lemma_batch_rule();
    lemma_built_in_rules();
    reveal_strlit("Translate the text below from ");
    reveal_strlit(" to ");
    reveal_strlit("auto");
    let wording = source_wording(source);
    let language: int = 34 + wording.len() as int;
    assert(user == "Translate the text below from "@ + wording + " to "@ + target
        + OPENAI_TRANSLATE_RULES@ + "\n\nText:\n"@ + text);
    if occurs(text, rule) {
        lemma_occurrence_in_whole(user, text, user.len() - text.len(), rule);
    } else if occurs(source, rule) {
        let at = choose|at: int| occurs_at(source, rule, at);
        assert(source.len() >= 211);
        lemma_occurrence_in_whole(user, source, 30, rule);
    } else {
        lemma_occurrence_in_whole(user, target.push('.'), language, rule);
    }
}

/// A blank custom prompt counts as none.
pub proof fn law_blank_custom_prompt_is_none(
    text: Seq<char>,
    source: Seq<char>,
    target: Seq<char>,
    custom: Seq<char>,
)
    requires
        trimmed(custom).len() == 0,
    ensures
        translate_messages(text, source, target, Some(custom)) == translate_messages(
            text,
            source,
            target,
            None,
        ),
{
}

} // verus!

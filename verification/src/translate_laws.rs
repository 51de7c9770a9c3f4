//! What a model is asked and what is read of its reply, said of the text, the languages and the
//! prompt of the user.
use crate::error::AppError;
use crate::json::json_string_in_element_of;
use crate::text::{content, replace, to_ascii_lowercase, trim};
use crate::text_laws::{holds_text, lemma_holds_text, lemma_replaced_first, lemma_replaced_none};
use crate::translate::{
    interpolate_custom_prompt, openai_chat_request, openai_translate_messages,
    openai_translate_prompt, target_display_name, translation_of_choice, translation_of_response,
    ChatReply, ChatRequest, NUMBERED_BATCH_RULE, OPENAI_TRANSLATE_RULES, OPENAI_TRANSLATE_SYSTEM,
};
use vstd::prelude::*;

verus! {

/// A code of Chinese, in lower case: `zh`, with or without a region, or the word itself.
pub open spec fn chinese_code(l: Seq<char>) -> bool {
    l == "zh"@ || l == "chinese"@ || (l.len() >= 3 && l[0] == 'z' && l[1] == 'h' && l[2] == '-')
}

/// A code of English, in lower case: `en`, with or without a region, or the word itself.
pub open spec fn english_code(l: Seq<char>) -> bool {
    l == "en"@ || l == "english"@ || (l.len() >= 3 && l[0] == 'e' && l[1] == 'n' && l[2] == '-')
}

/// Chinese and English have names, whatever the case of their codes and whatever region stands
/// behind them. Any other code names itself, without the white space around it.
pub proof fn law_language_names(target: &str, code: &str, lower: String, r: String)
    requires
        call_ensures(target_display_name, (target,), r),
        call_ensures(trim, (target,), code),
        call_ensures(to_ascii_lowercase, (code,), lower),
    ensures
        chinese_code(lower@) ==> r@ == "Chinese"@,
        english_code(lower@) ==> r@ == "English"@,
        !chinese_code(lower@) && !english_code(lower@) ==> r@ == code@,
{
    let l = lower@;
    reveal_strlit("zh");
    reveal_strlit("zh-");
    reveal_strlit("zh-cn");
    reveal_strlit("en");
    reveal_strlit("en-");
    reveal_strlit("chinese");
    reveal_strlit("english");
    if l.len() >= 3 {
        let head = l.take(3);
        assert(head[0] == l[0] && head[1] == l[1] && head[2] == l[2]);
        if l[0] == 'z' && l[1] == 'h' && l[2] == '-' {
            assert(head =~= "zh-"@);
        }
        if l[0] == 'e' && l[1] == 'n' && l[2] == '-' {
            assert(head =~= "en-"@);
        }
    }
    assert("zh-cn"@[0] == 'z' && "zh-cn"@[1] == 'h' && "zh-cn"@[2] == '-');
    assert("en"@[0] == 'e' && "english"@[0] == 'e' && "zh"@[0] == 'z' && "chinese"@[0] == 'c');
}

/// A custom prompt goes through two replacements: of the target placeholder by the name of the
/// language that was asked for, and of the source placeholder by the source, or by its wording
/// where the source is found out by the model.
pub proof fn law_interpolation(
    custom: &str,
    source: &str,
    target: &str,
    r: String,
    name: String,
    name_text: &str,
    first: String,
    first_text: &str,
    wording: &str,
    second: String,
)
    requires
        call_ensures(interpolate_custom_prompt, (custom, source, target), r),
        call_ensures(target_display_name, (target,), name),
        name_text@ == name@,
        call_ensures(replace, (custom, "{{targetLang}}", name_text), first),
        first_text@ == first@,
        source@ == "auto"@ ==> wording@ == "the source language"@,
        source@ != "auto"@ ==> wording@ == source@,
        call_ensures(replace, (first_text, "{{sourceLang}}", wording), second),
    ensures
        r@ == second@,
{
}

/// A text holds no pattern across a border that the pattern cannot cross.
proof fn lemma_no_new_occurrence(a: Seq<char>, n: Seq<char>, b: Seq<char>, pat: Seq<char>)
    requires
        !holds_text(a, pat),
        !holds_text(b, pat),
        pat.len() > 0,
        n.len() > 0,
        !pat.contains(n[0]),
        !n.contains(pat[0]),
    ensures
        !holds_text(a + n + b, pat),
{
    let whole = a + n + b;
    if holds_text(whole, pat) {
        let at = choose|at: int| 0 <= at <= whole.len() && pat.is_prefix_of(#[trigger] whole.skip(at));
        let here = whole.skip(at);
        assert(here.take(pat.len() as int) == pat);
        assert forall|i: int| 0 <= i < pat.len() implies #[trigger] pat[i] == whole[at + i] by {
            assert(here.take(pat.len() as int)[i] == here[i]);
        }
        if at + pat.len() <= a.len() {
            assert(a.skip(at).take(pat.len() as int) =~= pat);
            assert(pat.is_prefix_of(a.skip(at)));
        } else if at <= a.len() {
            assert(pat[a.len() - at] == n[0]);
        } else if at < a.len() + n.len() {
            assert(pat[0] == n[at - a.len()]);
        } else {
            let k = at - a.len() - n.len();
            assert(b.skip(k).take(pat.len() as int) =~= pat);
            assert(pat.is_prefix_of(b.skip(k)));
        }
    }
}

/// A placeholder stands first where it is put behind a text that does not hold it.
proof fn lemma_placeholder_is_first(a: Seq<char>, p: Seq<char>)
    requires
        p.len() == 14,
        p[0] == '{',
        p[1] == '{',
        p[12] == '}',
        p[13] == '}',
        forall|i: int| 2 <= i < 12 ==> #[trigger] p[i] != '{' && p[i] != '}',
        !holds_text(a, p),
    ensures
        !holds_text((a + p).drop_last(), p),
{
    let whole = (a + p).drop_last();
    if holds_text(whole, p) {
        let at = choose|at: int| 0 <= at <= whole.len() && p.is_prefix_of(#[trigger] whole.skip(at));
        let here = whole.skip(at);
        assert(here.take(14) == p);
        assert forall|i: int| 0 <= i < 14 implies #[trigger] p[i] == whole[at + i] by {
            assert(here.take(14)[i] == here[i]);
        }
        if at + 14 <= a.len() {
            assert(a.skip(at).take(14) =~= p);
            assert(p.is_prefix_of(a.skip(at)));
        } else {
            let k = a.len() - at;
            assert(0 < k < 14);
            assert(p[k] == p[0]);
            if k == 1 {
                assert(p[2] == p[1]);
            }
        }
    }
}

/// A prompt with one target placeholder in it gets the name of the target language in its place
/// and is otherwise left as it is. This is for a prompt and a name that hold no source
/// placeholder together.
pub proof fn law_target_language_is_named(
    custom: &str,
    source: &str,
    target: &str,
    r: String,
    name: String,
    a: Seq<char>,
    b: Seq<char>,
)
    requires
        call_ensures(interpolate_custom_prompt, (custom, source, target), r),
        call_ensures(target_display_name, (target,), name),
        custom@ == a + "{{targetLang}}"@ + b,
        !holds_text(a, "{{targetLang}}"@),
        !holds_text(b, "{{targetLang}}"@),
        !holds_text(a + name@ + b, "{{sourceLang}}"@),
    ensures
        r@ == a + name@ + b,
{
    reveal_strlit("{{targetLang}}");
    reveal_strlit("{{sourceLang}}");
    let p = "{{targetLang}}"@;
    lemma_placeholder_is_first(a, p);
    lemma_replaced_first(a, b, p, name@);
    lemma_replaced_none(b, p, name@);
    let wording = crate::translate::source_wording(source@);
    lemma_replaced_none(a + name@ + b, "{{sourceLang}}"@, wording);
}

/// A prompt with one source placeholder in it gets the source language in its place, and is
/// otherwise left as it is.
pub proof fn law_source_language_is_named(
    custom: &str,
    source: &str,
    target: &str,
    r: String,
    a: Seq<char>,
    b: Seq<char>,
)
    requires
        call_ensures(interpolate_custom_prompt, (custom, source, target), r),
        custom@ == a + "{{sourceLang}}"@ + b,
        !holds_text(custom@, "{{targetLang}}"@),
        !holds_text(a, "{{sourceLang}}"@),
        !holds_text(b, "{{sourceLang}}"@),
    ensures
        source@ != "auto"@ ==> r@ == a + source@ + b,
        source@ == "auto"@ ==> r@ == a + "the source language"@ + b,
{
    reveal_strlit("{{targetLang}}");
    reveal_strlit("{{sourceLang}}");
    let p = "{{sourceLang}}"@;
    let wording = crate::translate::source_wording(source@);
    lemma_replaced_none(
        custom@,
        "{{targetLang}}"@,
        crate::translate::display_name(target@),
    );
    lemma_placeholder_is_first(a, p);
    lemma_replaced_first(a, b, p, wording);
    lemma_replaced_none(b, p, wording);
}

/// With a prompt of the user that is not blank, the system message is that prompt, without the
/// white space around it and with its placeholders filled in for the languages of this very
/// request, and the user message is the text behind its label. Without one, the system message
/// is the built-in one, and the user message the built-in prompt for these languages.
pub proof fn law_messages(
    text: &str,
    source: &str,
    target: &str,
    custom_prompt: Option<&str>,
    r: (String, String),
    template: &str,
    filled: String,
    prompt: String,
)
    requires
        call_ensures(openai_translate_messages, (text, source, target, custom_prompt), r),
        custom_prompt matches Some(custom) ==> call_ensures(trim, (custom,), template),
        call_ensures(interpolate_custom_prompt, (template, source, target), filled),
        call_ensures(openai_translate_prompt, (text, source, target), prompt),
    ensures
        custom_prompt is Some && template@.len() > 0 ==> {
            &&& r.0@ == filled@
            &&& !holds_text(text@, "[[1]]"@) ==> r.1@ == "Text:\n"@ + text@
            &&& holds_text(text@, "[[1]]"@) ==> r.1@ == NUMBERED_BATCH_RULE@ + "\n\n"@ + "Text:\n"@
                + text@
        },
        custom_prompt is None || template@.len() == 0 ==> {
            &&& r.0@ == OPENAI_TRANSLATE_SYSTEM@
            &&& r.1@ == prompt@
        },
{
    lemma_holds_text(text@, "[[1]]"@);
    assert(Seq::<char>::empty() + "Text:\n"@ =~= "Text:\n"@);
}

/// With a prompt of the user in which the target placeholder stands once and the source placeholder
/// nowhere, the system message is the prompt with the language that was asked for in that place:
/// English, Chinese, or any other code as it stands, unless a source placeholder comes of that.
pub proof fn law_system_message_names_the_target(
    text: &str,
    source: &str,
    target: &str,
    custom: &str,
    r: (String, String),
    template: &str,
    code: &str,
    lower: String,
    name: String,
    a: Seq<char>,
    b: Seq<char>,
)
    requires
        call_ensures(openai_translate_messages, (text, source, target, Some(custom)), r),
        call_ensures(trim, (custom,), template),
        call_ensures(trim, (target,), code),
        call_ensures(to_ascii_lowercase, (code,), lower),
        call_ensures(target_display_name, (target,), name),
        template@ == a + "{{targetLang}}"@ + b,
        !holds_text(a, "{{targetLang}}"@),
        !holds_text(b, "{{targetLang}}"@),
        !holds_text(a, "{{sourceLang}}"@),
        !holds_text(b, "{{sourceLang}}"@),
    ensures
        english_code(lower@) ==> r.0@ == a + "English"@ + b,
        chinese_code(lower@) ==> r.0@ == a + "Chinese"@ + b,
        !english_code(lower@) && !chinese_code(lower@) && !holds_text(
            a + code@ + b,
            "{{sourceLang}}"@,
        ) ==> r.0@ == a + code@ + b,
{
    let p = "{{targetLang}}"@;
    let q = "{{sourceLang}}"@;
    reveal_strlit("{{targetLang}}");
    reveal_strlit("{{sourceLang}}");
    reveal_strlit("English");
    reveal_strlit("Chinese");
    law_language_names(target, code, lower, name);
    let wording = crate::translate::source_wording(source@);
    lemma_placeholder_is_first(a, p);
    lemma_replaced_first(a, b, p, name@);
    lemma_replaced_none(b, p, name@);
    if english_code(lower@) || chinese_code(lower@) {
        assert(name@ == "English"@ || name@ == "Chinese"@);
        assert(!q.contains('E') && !q.contains('C'));
        assert(!name@.contains('{'));
        lemma_no_new_occurrence(a, name@, b, q);
    }
    if !holds_text(a + name@ + b, q) {
        lemma_replaced_none(a + name@ + b, q, wording);
    }
}

/// The built-in prompt names the source and the target, each in its place, gives the rules, and
/// puts the text last, behind its label. A numbered batch has a rule more.
pub proof fn law_built_in_prompt(text: &str, source: &str, target: &str, r: String)
    requires
        call_ensures(openai_translate_prompt, (text, source, target), r),
    ensures
        ({
            let from = if source@ == "auto"@ {
                "the source language"@
            } else {
                source@
            };
            let head = "Translate the text below from "@ + from + " to "@ + target@
                + OPENAI_TRANSLATE_RULES@;
            &&& holds_text(text@, "[[1]]"@) ==> r@ == head + "\n- "@ + NUMBERED_BATCH_RULE@
                + "\n\nText:\n"@ + text@
            &&& !holds_text(text@, "[[1]]"@) ==> r@ == head + "\n\nText:\n"@ + text@
        }),
{
    lemma_holds_text(text@, "[[1]]"@);
    let from = if source@ == "auto"@ {
        "the source language"@
    } else {
        source@
    };
    let head = "Translate the text below from "@ + from + " to "@ + target@
        + OPENAI_TRANSLATE_RULES@;
    assert(head + Seq::<char>::empty() =~= head);
    assert(head + ("\n- "@ + NUMBERED_BATCH_RULE@) =~= head + "\n- "@ + NUMBERED_BATCH_RULE@);
}

/// What stands in the middle of a text is held by it.
proof fn lemma_held(
    whole: Seq<char>,
    head: Seq<char>,
    middle: Seq<char>,
    tail: Seq<char>,
    at: int,
    part: Seq<char>,
)
    requires
        whole == head + middle + tail,
        0 <= at,
        at + part.len() <= middle.len(),
        middle.subrange(at, at + part.len()) == part,
    ensures
        holds_text(whole, part),
{
    let place = head.len() + at;
    assert(whole.skip(place).take(part.len() as int) =~= part) by {
        assert forall|i: int| 0 <= i < part.len() implies whole[place + i] == part[i] by {
            assert(middle.subrange(at, at + part.len())[i] == middle[at + i]);
        }
    }
    assert(part.is_prefix_of(whole.skip(place)));
}

/// The built-in prompt gives each of its five rules, whatever is translated.
pub proof fn law_built_in_prompt_gives_its_rules(text: &str, source: &str, target: &str, r: String)
    requires
        call_ensures(openai_translate_prompt, (text, source, target), r),
    ensures
        holds_text(r@, "- The source is prose from a research paper, often extracted from a PDF text layer. Translate the meaning, not the word order: re-order clauses and split long sentences when that reads better."@),
        holds_text(r@, "- Keep mathematics, symbols, variable names, units, inline code, URLs, citation markers and figure/table/equation numbers exactly as they appear, including any ⟦n⟧ placeholders."@),
        holds_text(r@, "- Use the established target-language term for each concept and stay consistent."@),
        holds_text(r@, "- Do not add, drop, summarize or explain anything. No translator notes, no markdown fences."@),
        holds_text(r@, "- Output only the translation."@),
{
    law_built_in_prompt(text, source, target, r);
    let rules = OPENAI_TRANSLATE_RULES@;
    let from = if source@ == "auto"@ {
        "the source language"@
    } else {
        source@
    };
    let head = "Translate the text below from "@ + from + " to "@ + target@;
    let tail = r@.skip((head + rules).len() as int);
    assert(r@ =~= head + rules + tail);
    reveal_strlit(".\n\nRules:\n- The source is prose from a research paper, often extracted from a PDF text layer. Translate the meaning, not the word order: re-order clauses and split long sentences when that reads better.\n- Keep mathematics, symbols, variable names, units, inline code, URLs, citation markers and figure/table/equation numbers exactly as they appear, including any ⟦n⟧ placeholders.\n- Use the established target-language term for each concept and stay consistent.\n- Do not add, drop, summarize or explain anything. No translator notes, no markdown fences.\n- Output only the translation.");
    reveal_strlit("- The source is prose from a research paper, often extracted from a PDF text layer. Translate the meaning, not the word order: re-order clauses and split long sentences when that reads better.");
    assert(rules.subrange(10, 202) =~= "- The source is prose from a research paper, often extracted from a PDF text layer. Translate the meaning, not the word order: re-order clauses and split long sentences when that reads better."@);
    lemma_held(
        r@,
        head,
        rules,
        tail,
        10,
        "- The source is prose from a research paper, often extracted from a PDF text layer. Translate the meaning, not the word order: re-order clauses and split long sentences when that reads better."@,
    );
    reveal_strlit("- Keep mathematics, symbols, variable names, units, inline code, URLs, citation markers and figure/table/equation numbers exactly as they appear, including any ⟦n⟧ placeholders.");
    assert(rules.subrange(203, 380) =~= "- Keep mathematics, symbols, variable names, units, inline code, URLs, citation markers and figure/table/equation numbers exactly as they appear, including any ⟦n⟧ placeholders."@);
    lemma_held(
        r@,
        head,
        rules,
        tail,
        203,
        "- Keep mathematics, symbols, variable names, units, inline code, URLs, citation markers and figure/table/equation numbers exactly as they appear, including any ⟦n⟧ placeholders."@,
    );
    reveal_strlit("- Use the established target-language term for each concept and stay consistent.");
    assert(rules.subrange(381, 461) =~= "- Use the established target-language term for each concept and stay consistent."@);
    lemma_held(
        r@,
        head,
        rules,
        tail,
        381,
        "- Use the established target-language term for each concept and stay consistent."@,
    );
    reveal_strlit("- Do not add, drop, summarize or explain anything. No translator notes, no markdown fences.");
    assert(rules.subrange(462, 553) =~= "- Do not add, drop, summarize or explain anything. No translator notes, no markdown fences."@);
    lemma_held(
        r@,
        head,
        rules,
        tail,
        462,
        "- Do not add, drop, summarize or explain anything. No translator notes, no markdown fences."@,
    );
    reveal_strlit("- Output only the translation.");
    assert(rules.subrange(554, 584) =~= "- Output only the translation."@);
    lemma_held(
        r@,
        head,
        rules,
        tail,
        554,
        "- Output only the translation."@,
    );
}

/// Without a prompt of the user the model is told to act as a translator. A numbered batch has its
/// markers kept.
pub proof fn law_wording()
    ensures
        OPENAI_TRANSLATE_SYSTEM@
            == "You are a professional academic translator. You render research-paper prose into fluent, idiomatic target-language text and output only the translation."@,
        NUMBERED_BATCH_RULE@
            == "The text contains several paragraphs, each prefixed with a [[n]] marker. Translate every paragraph and keep the same [[n]] markers, in the same order, with the same number of paragraphs. Do not merge paragraphs."@,
{
}

/// A request needs a key and a model that is not blank, in this order. It goes to the endpoint
/// under the key, names the model without the white space around it, and carries the two
/// messages of the translation.
pub proof fn law_chat_request(
    text: &str,
    source: &str,
    target: &str,
    api_key: Result<String, AppError>,
    url: String,
    model: Option<&str>,
    custom_prompt: Option<&str>,
    r: Result<ChatRequest, AppError>,
    model_name: &str,
    messages: (String, String),
)
    requires
        call_ensures(
            openai_chat_request,
            (text, source, target, api_key, url, model, custom_prompt),
            r,
        ),
        model matches Some(m) ==> call_ensures(trim, (m,), model_name),
        call_ensures(openai_translate_messages, (text, source, target, custom_prompt), messages),
    ensures
        r is Ok <==> api_key is Ok && model is Some && model_name@.len() > 0,
        api_key matches Err(e) ==> (r matches Err(error) && error@ == e@),
        api_key is Ok ==> (r matches Err(e) ==> e@
            == "OpenAI-compatible requires model (Settings → Translate)"@),
        r matches Ok(request) ==> {
            &&& request.url@ == url@
            &&& request.authorization@ == "Bearer "@ + api_key->Ok_0@
            &&& request.model@ == model_name@
            &&& request.system@ == messages.0@
            &&& request.user@ == messages.1@
        },
{
}

/// A translation that was cut short is none, whatever its text. Otherwise the text is the
/// translation, as it stands and even if it is empty, and without a text there is none.
pub proof fn law_choice(reason: Option<String>, message: Option<String>, r: Result<String, AppError>)
    requires
        call_ensures(translation_of_choice, (reason, message), r),
    ensures
        ({
            let cut = reason is Some && (reason->Some_0@ == "length"@ || reason->Some_0@
                == "max_tokens"@ || reason->Some_0@ == "content_filter"@);
            &&& cut ==> (r matches Err(e) && e@
                == "OpenAI-compatible translation incomplete (finish_reason="@ + reason->Some_0@
                + "); retry with a smaller chunk"@)
            &&& !cut && message is Some ==> (r matches Ok(text) && text@ == message->Some_0@)
            &&& !cut && message is None ==> (r matches Err(e) && e@
                == "Unexpected OpenAI-compatible response"@)
        }),
{
}

/// What is read of a body is the finish reason and the message content of the first choice, and
/// what is made of them is what is made of a choice. Every other reply is an error with its own
/// text.
pub proof fn law_reply(
    reply: ChatReply,
    r: Result<String, AppError>,
    reason: Option<String>,
    message: Option<String>,
    choice: Result<String, AppError>,
)
    requires
        call_ensures(translation_of_response, (reply,), r),
        call_ensures(translation_of_choice, (reason, message), choice),
    ensures
        match reply {
            ChatReply::NoClient(e) => r matches Err(error) && error@ == e@,
            ChatReply::NotSent(e) => r matches Err(error) && error@
                == "OpenAI-compatible request failed: "@ + e@,
            ChatReply::NoBody(e) => r matches Err(error) && error@ == e@,
            ChatReply::Refused(e) => r matches Err(error) && error@ == e@,
            ChatReply::Body(body) => match (
                json_string_in_element_of(body@, "choices"@, 0, "/finish_reason"@),
                json_string_in_element_of(body@, "choices"@, 0, "/message/content"@),
            ) {
                (Ok(a), Ok(b)) => a == content(reason) && b == content(message) ==> match (r, choice) {
                    (Ok(x), Ok(y)) => x@ == y@,
                    (Err(x), Err(y)) => x@ == y@,
                    _ => false,
                },
                (Err(e), _) => r matches Err(error) && error@ == "OpenAI-compatible parse: "@ + e,
                (Ok(_), Err(e)) => r matches Err(error) && error@ == "OpenAI-compatible parse: "@
                    + e,
            },
        },
{
}

} // verus!

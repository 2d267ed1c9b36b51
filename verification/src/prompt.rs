use serde_json::Value;
use vstd::prelude::*;

use crate::text::{chars_of, contains, has_suffix, occurs, occurs_at, opt_view, str_equals};

verus! {

/// The content of one message of a JSON message list, as far as prompt building
/// reads it: a string, an array of parts (each part's `text` field when it is a
/// string), or anything else.
#[derive(Clone, Debug)]
pub enum PromptContent {
    Text(String),
    Parts(Vec<Option<String>>),
    Other,
}

/// One message of a JSON message list: its `role` when that is a string, and its content.
#[derive(Clone, Debug)]
pub struct PromptMessage {
    pub role: Option<String>,
    pub content: PromptContent,
}

/// A message content as plain values.
pub enum PromptContentView {
    Text(Seq<char>),
    Parts(Seq<Option<Seq<char>>>),
    Other,
}

pub open spec fn content_view(c: PromptContent) -> PromptContentView {
    match c {
        PromptContent::Text(s) => PromptContentView::Text(s@),
        PromptContent::Parts(parts) => PromptContentView::Parts(
            parts@.map_values(|o: Option<String>| opt_view(o)),
        ),
        PromptContent::Other => PromptContentView::Other,
    }
}

/// Each message's role (when a string) and content, as plain values.
pub open spec fn prompt_views(v: Seq<PromptMessage>) -> Seq<(Option<Seq<char>>, PromptContentView)> {
    v.map_values(|m: PromptMessage| (opt_view(m.role), content_view(m.content)))
}

/// What `serde_json::from_str` reads from a JSON message list: for each element of
/// the array, its `role` when that is a string, and its `content` (a string; an
/// array, with each element's `text` field when that is a string; or anything
/// else); when the text is not a JSON array, the text of the parse error.
pub uninterp spec fn json_prompt_messages(json: Seq<char>) -> Result<
    Seq<(Option<Seq<char>>, PromptContentView)>,
    Seq<char>,
>;

/// `serde_json::from_str` into a `Vec<serde_json::Value>`, then `Value::as_str` on
/// each element's `role`, and a match on the `Value` variants of its `content`.
/// The result, or the parse error's text, is named `json_prompt_messages`.
#[verifier::external_body]
fn parse_prompt_messages(messages_json: &str) -> (r: Result<Vec<PromptMessage>, String>)
    ensures
        match r {
            Ok(v) => json_prompt_messages(messages_json@) == Ok::<_, Seq<char>>(prompt_views(v@)),
            Err(e) => json_prompt_messages(messages_json@) == Err::<
                Seq<(Option<Seq<char>>, PromptContentView)>,
                Seq<char>,
            >(e@),
        },
{
    let raw: Vec<Value> = serde_json::from_str(messages_json).map_err(|e| e.to_string())?;
    let text = |v: &Value| v.as_str().map(str::to_string);
    let content = |c: &Value| match c {
        Value::String(s) => PromptContent::Text(s.clone()),
        Value::Array(ps) => PromptContent::Parts(ps.iter().map(|p| text(&p["text"])).collect()),
        _ => PromptContent::Other,
    };
    Ok(raw.iter().map(|m| PromptMessage { role: text(&m["role"]), content: content(&m["content"]) }).collect())
}

/// The texts of the parts that have one, concatenated.
pub open spec fn parts_text(parts: Seq<Option<String>>) -> Seq<char>
    decreases parts.len(),
{
    if parts.len() == 0 {
        Seq::empty()
    } else {
        parts_text(parts.drop_last()) + match parts.last() {
            Some(t) => t@,
            None => Seq::empty(),
        }
    }
}

/// The plain text of a content: a string as it is, an array flattened to the
/// concatenation of its parts' texts; nothing for any other value.
pub open spec fn content_text(c: PromptContent) -> Option<Seq<char>> {
    match c {
        PromptContent::Text(s) => Some(s@),
        PromptContent::Parts(parts) => Some(parts_text(parts@)),
        PromptContent::Other => None,
    }
}

/// The role of a message, `user` when it has none.
pub open spec fn role_or_user(m: PromptMessage) -> Seq<char> {
    match m.role {
        Some(r) => r@,
        None => "user"@,
    }
}

/// A Gemma turn: `<start_of_turn>{turn}\n{content}<end_of_turn>\n`, where the
/// assistant's turn is called `model` and content that is neither a string nor an
/// array is empty.
pub open spec fn gemma_turn(m: PromptMessage) -> Seq<char> {
    let role = role_or_user(m);
    let turn = if role == "assistant"@ {
        "model"@
    } else {
        role
    };
    let content = match content_text(m.content) {
        Some(t) => t,
        None => Seq::empty(),
    };
    "<start_of_turn>"@ + turn + "\n"@ + content + "<end_of_turn>\n"@
}

pub open spec fn gemma_turns(msgs: Seq<PromptMessage>) -> Seq<char>
    decreases msgs.len(),
{
    if msgs.len() == 0 {
        Seq::empty()
    } else {
        gemma_turns(msgs.drop_last()) + gemma_turn(msgs.last())
    }
}

/// The Gemma prompt: every turn, then an open `model` turn.
pub open spec fn gemma_prompt(msgs: Seq<PromptMessage>) -> Seq<char> {
    gemma_turns(msgs) + "<start_of_turn>model\n"@
}

/// A ChatML turn: `<|im_start|>{role}\n{content}<|im_end|>\n`, where an array
/// content is flattened to plain text and content that is neither a string nor an
/// array is empty.
pub open spec fn chatml_turn(m: PromptMessage) -> Seq<char> {
    let content = match content_text(m.content) {
        Some(t) => t,
        None => Seq::empty(),
    };
    "<|im_start|>"@ + role_or_user(m) + "\n"@ + content + "<|im_end|>\n"@
}

pub open spec fn chatml_turns(msgs: Seq<PromptMessage>) -> Seq<char>
    decreases msgs.len(),
{
    if msgs.len() == 0 {
        Seq::empty()
    } else {
        chatml_turns(msgs.drop_last()) + chatml_turn(msgs.last())
    }
}

/// The ChatML prompt: every turn, then an open `assistant` turn.
pub open spec fn chatml_prompt(msgs: Seq<PromptMessage>) -> Seq<char> {
    chatml_turns(msgs) + "<|im_start|>assistant\n"@
}

/// The prompt for a message list, given the model's own chat template (its text,
/// when the model has one) and the result of applying it (when that succeeded):
/// the applied template; else, for a template that uses Gemma turn markers, the
/// Gemma format; else ChatML.
pub open spec fn select_prompt(
    msgs: Seq<PromptMessage>,
    template: Option<Seq<char>>,
    applied: Option<Seq<char>>,
) -> Seq<char> {
    match template {
        Some(t) => match applied {
            Some(r) => r,
            None => if occurs(t, "start_of_turn"@) {
                gemma_prompt(msgs)
            } else {
                chatml_prompt(msgs)
            },
        },
        None => chatml_prompt(msgs),
    }
}

/// The (role, text) pairs handed to a chat template: messages that have a role
/// and a string or array content, in order.
pub open spec fn template_pairs(msgs: Seq<PromptMessage>) -> Seq<(Seq<char>, Seq<char>)>
    decreases msgs.len(),
{
    if msgs.len() == 0 {
        Seq::empty()
    } else {
        let rest = template_pairs(msgs.drop_last());
        let m = msgs.last();
        match (m.role, content_text(m.content)) {
            (Some(r), Some(t)) => rest.push((r@, t)),
            _ => rest,
        }
    }
}

pub open spec fn pair_views(v: Seq<(String, String)>) -> Seq<(Seq<char>, Seq<char>)> {
    v.map_values(|p: (String, String)| (p.0@, p.1@))
}

/// The plain text of a content (see `content_text`).
pub fn flatten_content(c: &PromptContent) -> (r: Option<String>)
    ensures
        opt_view(r) == content_text(*c),
{
    match c {
        PromptContent::Text(s) => Some(s.clone()),
        PromptContent::Parts(parts) => {
            let mut out = String::new();
            let mut i: usize = 0;
            while i < parts.len()
                invariant
                    i <= parts@.len(),
                    out@ == parts_text(parts@.take(i as int)),
                decreases parts@.len() - i,
            {
                assert(parts@.take(i + 1).drop_last() == parts@.take(i as int));
                match &parts[i] {
                    Some(t) => out.append(t.as_str()),
                    None => {
                        assert(out@ + Seq::<char>::empty() == out@);
                    },
                }
                i = i + 1;
            }
            assert(parts@.take(parts@.len() as int) == parts@);
            Some(out)
        },
        PromptContent::Other => None,
    }
}

/// The (role, text) pairs handed to a chat template (see `template_pairs`).
pub fn template_messages(msgs: &Vec<PromptMessage>) -> (r: Vec<(String, String)>)
    ensures
        pair_views(r@) == template_pairs(msgs@),
{
    let mut out: Vec<(String, String)> = Vec::new();
    let mut i: usize = 0;
    while i < msgs.len()
        invariant
            i <= msgs@.len(),
            pair_views(out@) == template_pairs(msgs@.take(i as int)),
        decreases msgs@.len() - i,
    {
        assert(msgs@.take(i + 1).drop_last() == msgs@.take(i as int));
        let m = &msgs[i];
        let text = flatten_content(&m.content);
        match (&m.role, text) {
            (Some(r), Some(t)) => {
                out.push((r.clone(), t));
                assert(pair_views(out@) == pair_views(out@.drop_last()).push((r@, t@)));
            },
            _ => {},
        }
        i = i + 1;
    }
    assert(msgs@.take(msgs@.len() as int) == msgs@);
    out
}

fn role_text(m: &PromptMessage) -> (r: String)
    ensures
        r@ == role_or_user(*m),
{
    match &m.role {
        Some(r) => r.clone(),
        None => "user".to_owned(),
    }
}

/// What prompt building reads from a JSON message list: its messages, and the
/// (role, text) pairs handed to the model's chat template; the parse error when
/// the text is not a JSON array.
pub fn prompt_inputs(messages_json: &str) -> (r: Result<(Vec<PromptMessage>, Vec<(String, String)>), String>)
    ensures
        match r {
            Ok((msgs, pairs)) => {
                &&& json_prompt_messages(messages_json@) == Ok::<_, Seq<char>>(prompt_views(msgs@))
                &&& pair_views(pairs@) == template_pairs(msgs@)
            },
            Err(e) => json_prompt_messages(messages_json@) == Err::<
                Seq<(Option<Seq<char>>, PromptContentView)>,
                Seq<char>,
            >(e@),
        },
{
    let msgs = parse_prompt_messages(messages_json)?;
    let pairs = template_messages(&msgs);
    Ok((msgs, pairs))
}

/// The Gemma prompt for a message list.
pub fn gemma_prompt_text(msgs: &Vec<PromptMessage>) -> (r: String)
    ensures
        r@ == gemma_prompt(msgs@),
{
    let mut out = String::new();
    let mut i: usize = 0;
    while i < msgs.len()
        invariant
            i <= msgs@.len(),
            out@ == gemma_turns(msgs@.take(i as int)),
        decreases msgs@.len() - i,
    {
        assert(msgs@.take(i + 1).drop_last() == msgs@.take(i as int));
        let m = &msgs[i];
        let role = role_text(m);
        out.append("<start_of_turn>");
        if str_equals(role.as_str(), "assistant") {
            out.append("model");
        } else {
            out.append(role.as_str());
        }
        out.append("\n");
        match flatten_content(&m.content) {
            Some(t) => out.append(t.as_str()),
            None => {},
        }
        out.append("<end_of_turn>\n");
        assert(out@ == gemma_turns(msgs@.take(i as int)) + gemma_turn(*m));
        i = i + 1;
    }
    assert(msgs@.take(msgs@.len() as int) == msgs@);
    out.append("<start_of_turn>model\n");
    out
}

/// The ChatML prompt for a message list.
pub fn chatml_prompt_text(msgs: &Vec<PromptMessage>) -> (r: String)
    ensures
        r@ == chatml_prompt(msgs@),
{
    let mut out = String::new();
    let mut i: usize = 0;
    while i < msgs.len()
        invariant
            i <= msgs@.len(),
            out@ == chatml_turns(msgs@.take(i as int)),
        decreases msgs@.len() - i,
    {
        assert(msgs@.take(i + 1).drop_last() == msgs@.take(i as int));
        let m = &msgs[i];
        let role = role_text(m);
        out.append("<|im_start|>");
        out.append(role.as_str());
        out.append("\n");
        match flatten_content(&m.content) {
            Some(t) => out.append(t.as_str()),
            None => {},
        }
        out.append("<|im_end|>\n");
        assert(out@ == chatml_turns(msgs@.take(i as int)) + chatml_turn(*m));
        i = i + 1;
    }
    assert(msgs@.take(msgs@.len() as int) == msgs@);
    out.append("<|im_start|>assistant\n");
    out
}

/// The prompt for a message list (see `select_prompt`).
pub fn choose_prompt(
    msgs: &Vec<PromptMessage>,
    template: Option<String>,
    applied: Option<String>,
) -> (r: String)
    ensures
        r@ == select_prompt(msgs@, opt_view(template), opt_view(applied)),
{
    match template {
        Some(t) => match applied {
            Some(r) => r,
            None => {
                let tv = chars_of(t.as_str());
                let marker = chars_of("start_of_turn");
                if contains(&tv, &marker) {
                    gemma_prompt_text(msgs)
                } else {
                    chatml_prompt_text(msgs)
                }
            },
        },
        None => chatml_prompt_text(msgs),
    }
}

/// The prompt tokens that fit a context of `n_ctx` positions: all of them when
/// there are fewer than `n_ctx`, else the last `n_ctx - 1` (the most recent turns
/// are kept).
pub fn truncate_prompt_tokens(tokens: Vec<i32>, n_ctx: usize) -> (r: Vec<i32>)
    requires
        n_ctx >= 1,
    ensures
        tokens@.len() >= n_ctx ==> r@ == tokens@.skip(tokens@.len() - (n_ctx - 1)),
        tokens@.len() < n_ctx ==> r@ == tokens@,
{
    let n = tokens.len();
    if n >= n_ctx {
        let start = n - (n_ctx - 1);
        let mut r: Vec<i32> = Vec::new();
        let mut i = start;
        while i < n
            invariant
                start <= i <= n,
                n == tokens@.len(),
                r@ == tokens@.subrange(start as int, i as int),
            decreases n - i,
        {
            r.push(tokens[i]);
            assert(tokens@.subrange(start as int, i + 1) == tokens@.subrange(start as int, i as int).push(tokens@[i as int]));
            i = i + 1;
        }
        assert(tokens@.subrange(start as int, n as int) == tokens@.skip(start as int));
        r
    } else {
        tokens
    }
}

/// The number of context positions a generation run uses.
pub const CONTEXT_WINDOW: u32 = 4096;

/// The usable context window of a model trained with `n_ctx_train` positions:
/// the configured window of 4096, or less for a model trained on less.
pub fn usable_context_size(n_ctx_train: u32) -> (n: u32)
    ensures
        n == if n_ctx_train < 4096 { n_ctx_train } else { 4096 },
{
    if n_ctx_train < CONTEXT_WINDOW {
        n_ctx_train
    } else {
        CONTEXT_WINDOW
    }
}

proof fn lemma_gemma_turns_concat(a: Seq<PromptMessage>, b: Seq<PromptMessage>)
    ensures
        gemma_turns(a + b) == gemma_turns(a) + gemma_turns(b),
    decreases b.len(),
{
    if b.len() == 0 {
        assert(a + b =~= a);
    } else {
        lemma_gemma_turns_concat(a, b.drop_last());
        assert((a + b).drop_last() =~= a + b.drop_last());
        assert((a + b).last() == b.last());
    }
}

proof fn lemma_chatml_turns_concat(a: Seq<PromptMessage>, b: Seq<PromptMessage>)
    ensures
        chatml_turns(a + b) == chatml_turns(a) + chatml_turns(b),
    decreases b.len(),
{
    if b.len() == 0 {
        assert(a + b =~= a);
    } else {
        lemma_chatml_turns_concat(a, b.drop_last());
        assert((a + b).drop_last() =~= a + b.drop_last());
        assert((a + b).last() == b.last());
    }
}

/// Every message appears in the Gemma prompt as a turn of its own, whatever its
/// role, with its text inserted verbatim: `<start_of_turn>`, the role (`model` for
/// the assistant, `user` when there is none), a newline, the text (a string as it
/// is, the texts of an array's parts one after another, nothing for other
/// content), then `<end_of_turn>` and a newline. The prompt ends with an open
/// `model` turn.
pub proof fn lemma_gemma_prompt_keeps_every_message(msgs: Seq<PromptMessage>)
    ensures
        forall|i: int|
            #![trigger msgs[i]]
            0 <= i < msgs.len() ==> occurs(
                gemma_prompt(msgs),
                "<start_of_turn>"@ + match msgs[i].role {
                    Some(r) => if r@ == "assistant"@ {
                        "model"@
                    } else {
                        r@
                    },
                    None => "user"@,
                } + "\n"@ + match msgs[i].content {
                    PromptContent::Text(t) => t@,
                    PromptContent::Parts(ps) => parts_text(ps@),
                    PromptContent::Other => Seq::<char>::empty(),
                } + "<end_of_turn>\n"@,
            ),
        has_suffix(gemma_prompt(msgs), "<start_of_turn>model\n"@),
{
    reveal_strlit("user");
    reveal_strlit("assistant");
    assert("user"@ != "assistant"@) by {
        assert("user"@[0] != "assistant"@[0]);
    }
    let prompt = gemma_prompt(msgs);
    assert forall|i: int| #![trigger msgs[i]] 0 <= i < msgs.len() implies occurs(
        prompt,
        gemma_turn(msgs[i]),
    ) by {
        let a = msgs.take(i);
        let b = msgs.skip(i + 1);
        assert(msgs =~= msgs.take(i + 1) + b);
        lemma_gemma_turns_concat(msgs.take(i + 1), b);
        assert(msgs.take(i + 1).drop_last() =~= a);
        assert(msgs.take(i + 1).last() == msgs[i]);
        let t = gemma_turn(msgs[i]);
        let pre = gemma_turns(a);
        assert(prompt =~= pre + t + (gemma_turns(b) + "<start_of_turn>model\n"@));
        assert(prompt.subrange(pre.len() as int, (pre.len() + t.len()) as int) =~= t);
        assert(occurs_at(prompt, t, pre.len() as int));
    }
    let tail = "<start_of_turn>model\n"@;
    assert(prompt.skip(prompt.len() - tail.len()) =~= tail);
}

/// Every message appears in the ChatML prompt as a turn of its own, with its role
/// (`user` when there is none) and its text inserted verbatim: `<|im_start|>`, the
/// role, a newline, the text (a string as it is, the texts of an array's parts one
/// after another, nothing for other content), then `<|im_end|>` and a newline. The
/// prompt ends with an open `assistant` turn.
pub proof fn lemma_chatml_prompt_keeps_every_message(msgs: Seq<PromptMessage>)
    ensures
        forall|i: int|
            #![trigger msgs[i]]
            0 <= i < msgs.len() ==> occurs(
                chatml_prompt(msgs),
                "<|im_start|>"@ + match msgs[i].role {
                    Some(r) => r@,
                    None => "user"@,
                } + "\n"@ + match msgs[i].content {
                    PromptContent::Text(t) => t@,
                    PromptContent::Parts(ps) => parts_text(ps@),
                    PromptContent::Other => Seq::<char>::empty(),
                } + "<|im_end|>\n"@,
            ),
        has_suffix(chatml_prompt(msgs), "<|im_start|>assistant\n"@),
{
    let prompt = chatml_prompt(msgs);
    assert forall|i: int| #![trigger msgs[i]] 0 <= i < msgs.len() implies occurs(
        prompt,
        chatml_turn(msgs[i]),
    ) by {
        let a = msgs.take(i);
        let b = msgs.skip(i + 1);
        assert(msgs =~= msgs.take(i + 1) + b);
        lemma_chatml_turns_concat(msgs.take(i + 1), b);
        assert(msgs.take(i + 1).drop_last() =~= a);
        assert(msgs.take(i + 1).last() == msgs[i]);
        let t = chatml_turn(msgs[i]);
        let pre = chatml_turns(a);
        assert(prompt =~= pre + t + (chatml_turns(b) + "<|im_start|>assistant\n"@));
        assert(prompt.subrange(pre.len() as int, (pre.len() + t.len()) as int) =~= t);
        assert(occurs_at(prompt, t, pre.len() as int));
    }
    let tail = "<|im_start|>assistant\n"@;
    assert(prompt.skip(prompt.len() - tail.len()) =~= tail);
}

} // verus!

use vstd::prelude::*;

use crate::text::{opt_view, str_equals};

verus! {

/// One message of a chat session, as the user interface keeps it.
#[derive(Clone, Debug)]
pub struct ChatMessage {
    pub id: String,
    pub role: String,
    pub content: String,
    pub image_path: Option<String>,
    pub audio_path: Option<String>,
    pub timestamp: String,
}

/// The content of a message handed to a backend: plain text, or text with an
/// attached image (a multimodal content array).
#[derive(Clone, Debug)]
pub enum ApiContent {
    Text(String),
    TextAndImage { text: String, image_url: String },
}

/// One message handed to a backend.
#[derive(Clone, Debug)]
pub struct ApiMessage {
    pub role: String,
    pub content: ApiContent,
}

pub enum ApiContentView {
    Text(Seq<char>),
    TextAndImage(Seq<char>, Seq<char>),
}

pub struct ApiMessageView {
    pub role: Seq<char>,
    pub content: ApiContentView,
}

impl View for ApiContent {
    type V = ApiContentView;

    open spec fn view(&self) -> ApiContentView {
        match self {
            ApiContent::Text(t) => ApiContentView::Text(t@),
            ApiContent::TextAndImage { text, image_url } => ApiContentView::TextAndImage(
                text@,
                image_url@,
            ),
        }
    }
}

impl View for ApiMessage {
    type V = ApiMessageView;

    open spec fn view(&self) -> ApiMessageView {
        ApiMessageView { role: self.role@, content: self.content@ }
    }
}

pub open spec fn api_views(v: Seq<ApiMessage>) -> Seq<ApiMessageView> {
    v.map_values(|m: ApiMessage| m@)
}

/// The system prompt used when the conversation brings none of its own.
pub open spec fn default_system_prompt() -> Seq<char> {
    "You are a helpful AI assistant."@
}

/// `base`, followed by a blank line and the tool context when there is one.
pub open spec fn with_tool_context(base: Seq<char>, ctx: Option<Seq<char>>) -> Seq<char> {
    match ctx {
        Some(c) => base + "\n\n"@ + c,
        None => base,
    }
}

/// The conversation opens with a message whose role is `system`.
pub open spec fn starts_with_system(msgs: Seq<ChatMessage>) -> bool {
    msgs.len() > 0 && msgs[0].role@ == "system"@
}

/// The id of the last message (empty for an empty conversation).
pub open spec fn last_message_id(msgs: Seq<ChatMessage>) -> Seq<char> {
    if msgs.len() == 0 {
        Seq::empty()
    } else {
        msgs.last().id@
    }
}

/// What one chat message becomes for the backend: a system message gets the tool
/// context appended; a user message that carries the id of the last message gets
/// the image, when there is one; any other message keeps its role and text.
pub open spec fn api_message_for(
    m: ChatMessage,
    last_id: Seq<char>,
    image: Option<Seq<char>>,
    ctx: Option<Seq<char>>,
) -> ApiMessageView {
    if m.role@ == "system"@ {
        ApiMessageView {
            role: "system"@,
            content: ApiContentView::Text(with_tool_context(m.content@, ctx)),
        }
    } else if m.role@ == "user"@ && m.id@ == last_id && image is Some {
        ApiMessageView {
            role: "user"@,
            content: ApiContentView::TextAndImage(m.content@, "file://"@ + image->0),
        }
    } else {
        ApiMessageView { role: m.role@, content: ApiContentView::Text(m.content@) }
    }
}

/// The messages handed to a backend for a conversation: a default system prompt
/// (with the tool context) first unless the conversation opens with its own,
/// then each message as `api_message_for` says.
pub open spec fn api_messages(
    msgs: Seq<ChatMessage>,
    image: Option<Seq<char>>,
    ctx: Option<Seq<char>>,
) -> Seq<ApiMessageView> {
    let body = msgs.map_values(
        |m: ChatMessage| api_message_for(m, last_message_id(msgs), image, ctx),
    );
    if starts_with_system(msgs) {
        body
    } else {
        seq![
            ApiMessageView {
                role: "system"@,
                content: ApiContentView::Text(with_tool_context(default_system_prompt(), ctx)),
            },
        ] + body
    }
}

/// The hexadecimal digit (lower case) for `d < 16`.
pub open spec fn hex_digit(d: int) -> char {
    if d < 10 {
        crate::text::digit_char(d)
    } else if d == 10 {
        'a'
    } else if d == 11 {
        'b'
    } else if d == 12 {
        'c'
    } else if d == 13 {
        'd'
    } else if d == 14 {
        'e'
    } else {
        'f'
    }
}

/// How one character is written inside a JSON string: `"` and `\` are escaped
/// with a backslash, the control characters below 0x20 as `\b \t \n \f \r` or
/// `\u00xx`, every other character as itself.
pub open spec fn json_escape_char(c: char) -> Seq<char> {
    let u = c as u32;
    if c == '"' {
        seq!['\\', '"']
    } else if c == '\\' {
        seq!['\\', '\\']
    } else if u == 0x08 {
        seq!['\\', 'b']
    } else if u == 0x09 {
        seq!['\\', 't']
    } else if u == 0x0A {
        seq!['\\', 'n']
    } else if u == 0x0C {
        seq!['\\', 'f']
    } else if u == 0x0D {
        seq!['\\', 'r']
    } else if u < 0x20 {
        seq!['\\', 'u', '0', '0', hex_digit(u as int / 16), hex_digit(u as int % 16)]
    } else {
        seq![c]
    }
}

pub open spec fn json_escape(s: Seq<char>) -> Seq<char>
    decreases s.len(),
{
    if s.len() == 0 {
        Seq::empty()
    } else {
        json_escape(s.drop_last()) + json_escape_char(s.last())
    }
}

/// A string written as a JSON string literal.
pub open spec fn json_string(s: Seq<char>) -> Seq<char> {
    seq!['"'] + json_escape(s) + seq!['"']
}

/// `serde_json::to_string` on a string slice: the slice as a JSON string literal.
#[verifier::external_body]
fn json_quoted(s: &str) -> (r: String)
    ensures
        r@ == json_string(s@),
{
    serde_json::to_string(s).unwrap_or_default()
}

/// JSON text of a message's content (object keys in sorted order, as
/// `serde_json::json!` objects are written).
pub open spec fn json_content(c: ApiContentView) -> Seq<char> {
    match c {
        ApiContentView::Text(t) => json_string(t),
        ApiContentView::TextAndImage(t, u) => "[{\"text\":"@ + json_string(t)
            + ",\"type\":\"text\"},{\"image_url\":{\"url\":"@ + json_string(u)
            + "},\"type\":\"image_url\"}]"@,
    }
}

/// JSON text of one message: `{"role":...,"content":...}`.
pub open spec fn json_message(m: ApiMessageView) -> Seq<char> {
    "{\"role\":"@ + json_string(m.role) + ",\"content\":"@ + json_content(m.content) + "}"@
}

pub open spec fn json_items(ms: Seq<ApiMessageView>) -> Seq<char>
    decreases ms.len(),
{
    if ms.len() == 0 {
        Seq::empty()
    } else if ms.len() == 1 {
        json_message(ms[0])
    } else {
        json_items(ms.drop_last()) + ","@ + json_message(ms.last())
    }
}

/// JSON text of a message list: a JSON array of the messages, without whitespace.
pub open spec fn json_message_list(ms: Seq<ApiMessageView>) -> Seq<char> {
    "["@ + json_items(ms) + "]"@
}

/// The messages handed to a backend for a conversation (see `api_messages`).
pub fn api_messages_for(
    messages: &Vec<ChatMessage>,
    image_path: &Option<String>,
    tool_context: &Option<String>,
) -> (r: Vec<ApiMessage>)
    ensures
        api_views(r@) == api_messages(messages@, opt_view(*image_path), opt_view(*tool_context)),
{
    let ghost image = opt_view(*image_path);
    let ghost ctx = opt_view(*tool_context);
    let ghost expected = api_messages(messages@, image, ctx);
    let n = messages.len();
    let last_id: String = if n == 0 {
        String::new()
    } else {
        messages[n - 1].id.clone()
    };
    assert(last_id@ == last_message_id(messages@));
    let has_system = n > 0 && str_equals(messages[0].role.as_str(), "system");
    let mut out: Vec<ApiMessage> = Vec::new();
    if !has_system {
        let mut content = "You are a helpful AI assistant.".to_owned();
        match tool_context {
            Some(ctx) => {
                content.append("\n\n");
                content.append(ctx.as_str());
            },
            None => {},
        }
        out.push(ApiMessage { role: "system".to_owned(), content: ApiContent::Text(content) });
    }
    let ghost offset: int = if has_system { 0 } else { 1 };
    let ghost body = messages@.map_values(
        |m: ChatMessage| api_message_for(m, last_message_id(messages@), image, ctx),
    );
    assert(expected == if has_system { body } else { expected.take(1) + body });
    let mut i: usize = 0;
    while i < n
        invariant
            n == messages@.len(),
            i <= n,
            last_id@ == last_message_id(messages@),
            image == opt_view(*image_path),
            ctx == opt_view(*tool_context),
            body == messages@.map_values(
                |m: ChatMessage| api_message_for(m, last_message_id(messages@), image, ctx),
            ),
            offset == (if has_system { 0int } else { 1int }),
            expected == (if has_system { body } else { expected.take(1) + body }),
            out@.len() == offset + i,
            forall|k: int| 0 <= k < offset ==> #[trigger] out@[k]@ == expected[k],
            forall|k: int| 0 <= k < i ==> #[trigger] out@[offset + k]@ == body[k],
        decreases n - i,
    {
        let m = &messages[i];
        let msg: ApiMessage;
        if str_equals(m.role.as_str(), "system") {
            let mut content = m.content.clone();
            match tool_context {
                Some(ctx) => {
                    content.append("\n\n");
                    content.append(ctx.as_str());
                },
                None => {},
            }
            msg = ApiMessage { role: "system".to_owned(), content: ApiContent::Text(content) };
        } else if str_equals(m.role.as_str(), "user") && str_equals(
            m.id.as_str(),
            last_id.as_str(),
        ) && image_path.is_some() {
            let img = image_path.as_ref().unwrap();
            let mut url = "file://".to_owned();
            url.append(img.as_str());
            msg = ApiMessage {
                role: "user".to_owned(),
                content: ApiContent::TextAndImage { text: m.content.clone(), image_url: url },
            };
        } else {
            msg = ApiMessage { role: m.role.clone(), content: ApiContent::Text(m.content.clone()) };
        }
        assert(msg@ == body[i as int]);
        out.push(msg);
        i = i + 1;
    }
    assert(api_views(out@) =~= expected) by {
        assert forall|k: int| 0 <= k < expected.len() implies api_views(out@)[k] == expected[k] by {
            if k >= offset {
                assert(out@[offset + (k - offset)]@ == body[k - offset]);
            }
        }
    }
    out
}

/// JSON text of one content value.
fn render_content(c: &ApiContent) -> (r: String)
    ensures
        r@ == json_content(c@),
{
    match c {
        ApiContent::Text(t) => json_quoted(t.as_str()),
        ApiContent::TextAndImage { text, image_url } => {
            let mut r = "[{\"text\":".to_owned();
            r.append(json_quoted(text.as_str()).as_str());
            r.append(",\"type\":\"text\"},{\"image_url\":{\"url\":");
            r.append(json_quoted(image_url.as_str()).as_str());
            r.append("},\"type\":\"image_url\"}]");
            r
        },
    }
}

/// JSON text of a list of backend messages.
pub fn render_messages_json(msgs: &Vec<ApiMessage>) -> (r: String)
    ensures
        r@ == json_message_list(api_views(msgs@)),
{
    let mut items = String::new();
    let mut i: usize = 0;
    while i < msgs.len()
        invariant
            i <= msgs@.len(),
            items@ == json_items(api_views(msgs@.take(i as int))),
        decreases msgs@.len() - i,
    {
        let m = &msgs[i];
        let mut one = "{\"role\":".to_owned();
        one.append(json_quoted(m.role.as_str()).as_str());
        one.append(",\"content\":");
        one.append(render_content(&m.content).as_str());
        one.append("}");
        assert(api_views(msgs@.take(i + 1)).drop_last() == api_views(msgs@.take(i as int)));
        if i > 0 {
            items.append(",");
        }
        items.append(one.as_str());
        i = i + 1;
    }
    assert(msgs@.take(msgs@.len() as int) == msgs@);
    let mut r = "[".to_owned();
    r.append(items.as_str());
    r.append("]");
    r
}

/// The JSON message list a backend receives for a conversation, with the image
/// attached to the last user message and the tool context added to the system
/// prompt.
pub fn build_messages_json(
    messages: &Vec<ChatMessage>,
    image_path: &Option<String>,
    tool_context: &Option<String>,
) -> (r: Result<String, String>)
    ensures
        r matches Ok(s) && s@ == json_message_list(
            api_messages(messages@, opt_view(*image_path), opt_view(*tool_context)),
        ),
{
    let api = api_messages_for(messages, image_path, tool_context);
    Ok(render_messages_json(&api))
}


/// The messages a backend receives open with exactly one added system message
/// when the conversation brings none (the default prompt with the tool context),
/// and otherwise are the conversation's own messages one for one, in order; the
/// first of them is always a system message; an image is attached only when one
/// is given, and only to user messages that carry the last message's id.
pub proof fn lemma_api_messages_shape(
    msgs: Seq<ChatMessage>,
    image: Option<Seq<char>>,
    ctx: Option<Seq<char>>,
)
    ensures
        ({
            let r = api_messages(msgs, image, ctx);
            let off: int = if starts_with_system(msgs) {
                0
            } else {
                1
            };
            &&& r.len() == msgs.len() + off
            &&& r[0].role == "system"@
            &&& !starts_with_system(msgs) ==> r[0].content == ApiContentView::Text(
                with_tool_context(default_system_prompt(), ctx),
            )
            &&& forall|i: int|
                0 <= i < msgs.len() ==> #[trigger] r[i + off] == api_message_for(
                    msgs[i],
                    last_message_id(msgs),
                    image,
                    ctx,
                )
            &&& forall|j: int|
                0 <= j < r.len() && (#[trigger] r[j].content is TextAndImage) ==> {
                    &&& image is Some
                    &&& j >= off
                    &&& msgs[j - off].role@ == "user"@
                    &&& msgs[j - off].id@ == last_message_id(msgs)
                    &&& r[j].content == ApiContentView::TextAndImage(
                        msgs[j - off].content@,
                        "file://"@ + image->0,
                    )
                }
        }),
{
    let r = api_messages(msgs, image, ctx);
    let off: int = if starts_with_system(msgs) {
        0
    } else {
        1
    };
    assert forall|i: int| 0 <= i < msgs.len() implies #[trigger] r[i + off] == api_message_for(
        msgs[i],
        last_message_id(msgs),
        image,
        ctx,
    ) by {}
    assert forall|j: int| 0 <= j < r.len() && (#[trigger] r[j].content is TextAndImage) implies {
        &&& image is Some
        &&& j >= off
        &&& msgs[j - off].role@ == "user"@
        &&& msgs[j - off].id@ == last_message_id(msgs)
        &&& r[j].content == ApiContentView::TextAndImage(msgs[j - off].content@, "file://"@ + image->0)
    } by {
        if j >= off {
            assert(r[(j - off) + off] == api_message_for(msgs[j - off], last_message_id(msgs), image, ctx));
        }
    }
}

/// What the backend receives for each message, stated message by message: after
/// the added system prompt (`You are a helpful AI assistant.`, with a blank line
/// and the tool context when there is one) unless the conversation opens with a
/// system message, message `i` becomes: for a system message, its text with the
/// tool context appended the same way; for the user message that carries the last
/// message's id when an image is given, its text with the image's `file://` URL;
/// for every other message, its own role and its own text, unchanged.
pub proof fn lemma_messages_reach_backend(
    msgs: Seq<ChatMessage>,
    image: Option<Seq<char>>,
    ctx: Option<Seq<char>>,
    off: int,
    last_id: Seq<char>,
)
    requires
        off == (if msgs.len() > 0 && msgs[0].role@ == "system"@ {
            0int
        } else {
            1int
        }),
        last_id == (if msgs.len() > 0 {
            msgs[msgs.len() - 1].id@
        } else {
            Seq::<char>::empty()
        }),
    ensures
        api_messages(msgs, image, ctx).len() == msgs.len() + off,
        off == 1 ==> api_messages(msgs, image, ctx)[0] == (ApiMessageView {
            role: "system"@,
            content: ApiContentView::Text(
                match ctx {
                    Some(c) => "You are a helpful AI assistant."@ + "\n\n"@ + c,
                    None => "You are a helpful AI assistant."@,
                },
            ),
        }),
        forall|j: int|
            off <= j < msgs.len() + off && msgs[j - off].role@ == "system"@ ==> #[trigger] api_messages(
                msgs,
                image,
                ctx,
            )[j] == (ApiMessageView {
                role: "system"@,
                content: ApiContentView::Text(
                    match ctx {
                        Some(c) => msgs[j - off].content@ + "\n\n"@ + c,
                        None => msgs[j - off].content@,
                    },
                ),
            }),
        forall|j: int|
            off <= j < msgs.len() + off && msgs[j - off].role@ == "user"@ && msgs[j - off].id@
                == last_id && (image is Some) ==> #[trigger] api_messages(msgs, image, ctx)[j]
                == (ApiMessageView {
                role: "user"@,
                content: ApiContentView::TextAndImage(msgs[j - off].content@, "file://"@ + image->0),
            }),
        forall|j: int|
            off <= j < msgs.len() + off && msgs[j - off].role@ != "system"@ && !(msgs[j - off].role@
                == "user"@ && msgs[j - off].id@ == last_id && (image is Some)) ==> #[trigger] api_messages(
                msgs,
                image,
                ctx,
            )[j] == (ApiMessageView {
                role: msgs[j - off].role@,
                content: ApiContentView::Text(msgs[j - off].content@),
            }),
{
    lemma_api_messages_shape(msgs, image, ctx);
    reveal_strlit("user");
    reveal_strlit("system");
    assert("user"@ != "system"@) by {
        assert("user"@[0] != "system"@[0]);
    }
    let r = api_messages(msgs, image, ctx);
    assert forall|j: int| off <= j < msgs.len() + off implies #[trigger] r[j] == api_message_for(
        msgs[j - off],
        last_message_id(msgs),
        image,
        ctx,
    ) by {
        assert(r[(j - off) + off] == api_message_for(msgs[j - off], last_message_id(msgs), image, ctx));
    }
}

} // verus!

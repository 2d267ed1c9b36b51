use vstd::prelude::*;

use crate::clock::{clock_error, clock_error_text, is_utc_rfc3339, now_rfc3339};
use crate::messages::ChatMessage;
use crate::text::{chars_of, str_equals, string_of_range, utf8_len, utf8_shorter_than};

verus! {

/// The summary of a saved chat session.
#[derive(Debug)]
pub struct SessionMeta {
    pub id: String,
    pub title: String,
    pub created_at: String,
    pub model_id: String,
    pub message_count: usize,
}

pub struct SessionMetaView {
    pub id: Seq<char>,
    pub title: Seq<char>,
    pub created_at: Seq<char>,
    pub model_id: Seq<char>,
    pub message_count: usize,
}

impl View for SessionMeta {
    type V = SessionMetaView;

    open spec fn view(&self) -> SessionMetaView {
        SessionMetaView {
            id: self.id@,
            title: self.title@,
            created_at: self.created_at@,
            model_id: self.model_id@,
            message_count: self.message_count,
        }
    }
}

pub open spec fn meta_views(v: Seq<SessionMeta>) -> Seq<SessionMetaView> {
    v.map_values(|m: SessionMeta| m@)
}

/// The first message at or after index `from` whose role is `user`.
pub open spec fn first_user_message(msgs: Seq<ChatMessage>, from: int) -> Option<ChatMessage>
    decreases msgs.len() - from,
{
    if from < 0 || from >= msgs.len() {
        None
    } else if msgs[from].role@ == "user"@ {
        Some(msgs[from])
    } else {
        first_user_message(msgs, from + 1)
    }
}

/// The title of a session: the first 40 characters of its first user message,
/// followed by `…` when that message is longer than 40 bytes; `New Chat` when the
/// session has no user message.
pub open spec fn session_title(msgs: Seq<ChatMessage>) -> Seq<char> {
    match first_user_message(msgs, 0) {
        Some(m) => {
            let c = m.content@;
            let t = if c.len() > 40 {
                c.take(40)
            } else {
                c
            };
            if utf8_len(c) > 40 {
                t + "…"@
            } else {
                t
            }
        },
        None => "New Chat"@,
    }
}

/// The title of a session (see `session_title`).
pub fn derive_session_title(messages: &Vec<ChatMessage>) -> (r: String)
    ensures
        r@ == session_title(messages@),
{
    let mut i: usize = 0;
    while i < messages.len()
        invariant
            i <= messages@.len(),
            first_user_message(messages@, i as int) == first_user_message(messages@, 0),
        decreases messages@.len() - i,
    {
        if str_equals(messages[i].role.as_str(), "user") {
            let c = chars_of(messages[i].content.as_str());
            let end = if c.len() > 40 {
                40
            } else {
                c.len()
            };
            let mut t = string_of_range(&c, 0, end);
            assert(c@.subrange(0, end as int) == if c@.len() > 40 {
                c@.take(40)
            } else {
                c@
            });
            if !utf8_shorter_than(&c, 41) {
                t.append("…");
            }
            return t;
        }
        i = i + 1;
    }
    "New Chat".to_owned()
}

/// The summary of a session saved with `messages` for model `model_id`: its
/// title, the first message's timestamp as creation time (`now` for a session
/// without messages), and its message count.
pub open spec fn session_meta_spec(
    session_id: Seq<char>,
    msgs: Seq<ChatMessage>,
    model_id: Seq<char>,
    now: Seq<char>,
) -> SessionMetaView {
    SessionMetaView {
        id: session_id,
        title: session_title(msgs),
        created_at: if msgs.len() > 0 {
            msgs[0].timestamp@
        } else {
            now
        },
        model_id,
        message_count: msgs.len() as usize,
    }
}

/// The summary of a session (see `session_meta_spec`), with `now` as the creation
/// time of a session without messages.
pub fn session_meta_at(
    session_id: String,
    messages: &Vec<ChatMessage>,
    model_id: String,
    now: String,
) -> (r: SessionMeta)
    ensures
        r@ == session_meta_spec(session_id@, messages@, model_id@, now@),
{
    let title = derive_session_title(messages);
    let created_at = if messages.len() > 0 {
        messages[0].timestamp.clone()
    } else {
        now
    };
    SessionMeta { id: session_id, title, created_at, model_id, message_count: messages.len() }
}

/// The summary of a session being saved: as `session_meta_spec` says, where a
/// session without messages is stamped with the current time (read only then); an
/// error when that time is needed and the system clock gives none.
pub fn session_meta(session_id: String, messages: &Vec<ChatMessage>, model_id: String) -> (r:
    Result<SessionMeta, String>)
    ensures
        messages@.len() > 0 ==> r is Ok,
        match r {
            Ok(m) => {
                &&& m.id@ == session_id@
                &&& m.title@ == session_title(messages@)
                &&& messages@.len() > 0 ==> m.created_at@ == messages@[0].timestamp@
                &&& messages@.len() == 0 ==> is_utc_rfc3339(m.created_at@)
                &&& m.model_id@ == model_id@
                &&& m.message_count == messages@.len()
            },
            Err(e) => messages@.len() == 0 && e@ == clock_error(),
        },
{
    let now = if messages.len() > 0 {
        String::new()
    } else {
        match now_rfc3339() {
            Some(t) => t,
            None => {
                return Err(clock_error_text());
            },
        }
    };
    Ok(session_meta_at(session_id, messages, model_id, now))
}

/// The name of the file a session is saved in: its id followed by `.json`.
pub fn session_file_name(session_id: &str) -> (r: String)
    ensures
        r@ == session_id@ + ".json"@,
{
    let mut r = session_id.to_owned();
    r.append(".json");
    r
}

/// `a` comes at or before `b` in lexicographic order of characters (code points),
/// the order of `String` comparison.
pub open spec fn text_le(a: Seq<char>, b: Seq<char>) -> bool
    decreases a.len(),
{
    if a.len() == 0 {
        true
    } else if b.len() == 0 {
        false
    } else if a[0] != b[0] {
        (a[0] as u32) < (b[0] as u32)
    } else {
        text_le(a.drop_first(), b.drop_first())
    }
}

pub proof fn lemma_text_le_total(a: Seq<char>, b: Seq<char>)
    ensures
        text_le(a, b) || text_le(b, a),
    decreases a.len(),
{
    if a.len() > 0 && b.len() > 0 {
        if a[0] == b[0] {
            lemma_text_le_total(a.drop_first(), b.drop_first());
        } else {
            vstd::utf8::char_u32_cast(a[0], a[0] as u32);
            vstd::utf8::char_u32_cast(b[0], b[0] as u32);
            assert((a[0] as u32) != (b[0] as u32));
        }
    }
}

pub proof fn lemma_text_le_trans(a: Seq<char>, b: Seq<char>, c: Seq<char>)
    requires
        text_le(a, b),
        text_le(b, c),
    ensures
        text_le(a, c),
    decreases a.len(),
{
    if a.len() > 0 && b.len() > 0 && c.len() > 0 && a[0] == b[0] && b[0] == c[0] {
        lemma_text_le_trans(a.drop_first(), b.drop_first(), c.drop_first());
    }
}

pub proof fn lemma_text_le_antisym(a: Seq<char>, b: Seq<char>)
    requires
        text_le(a, b),
        text_le(b, a),
    ensures
        a == b,
    decreases a.len(),
{
    if a.len() > 0 && b.len() > 0 {
        lemma_text_le_antisym(a.drop_first(), b.drop_first());
        assert(a =~= seq![a[0]] + a.drop_first());
        assert(b =~= seq![b[0]] + b.drop_first());
    }
}

pub proof fn lemma_text_le_refl(a: Seq<char>)
    ensures
        text_le(a, a),
    decreases a.len(),
{
    if a.len() > 0 {
        lemma_text_le_refl(a.drop_first());
    }
}

/// Whether `a` comes at or before `b` (see `text_le`).
pub fn text_le_exec(a: &Vec<char>, b: &Vec<char>) -> (r: bool)
    ensures
        r == text_le(a@, b@),
{
    let mut i: usize = 0;
    assert(a@.skip(0) == a@);
    assert(b@.skip(0) == b@);
    while i < a.len() && i < b.len() && a[i] == b[i]
        invariant
            i <= a@.len(),
            i <= b@.len(),
            text_le(a@, b@) == text_le(a@.skip(i as int), b@.skip(i as int)),
        decreases a@.len() - i,
    {
        assert(a@.skip(i as int).drop_first() == a@.skip(i + 1));
        assert(b@.skip(i as int).drop_first() == b@.skip(i + 1));
        i = i + 1;
    }
    if i == a.len() {
        true
    } else if i == b.len() {
        false
    } else {
        assert(a@.skip(i as int)[0] == a@[i as int]);
        assert(b@.skip(i as int)[0] == b@[i as int]);
        (a[i] as u32) < (b[i] as u32)
    }
}

/// Creation times never increase along `s`: newest first.
pub open spec fn newest_first(s: Seq<SessionMetaView>) -> bool {
    forall|i: int, j: int| 0 <= i <= j < s.len() ==> text_le(s[j].created_at, s[i].created_at)
}

/// The sessions of `s` created at `k`, in order.
pub open spec fn created_at_time(s: Seq<SessionMetaView>, k: Seq<char>) -> Seq<SessionMetaView> {
    s.filter(|m: SessionMetaView| m.created_at == k)
}

/// `r` is `s` sorted newest first, stably: sessions created at the same time
/// keep their order.
pub open spec fn stable_newest_first(r: Seq<SessionMetaView>, s: Seq<SessionMetaView>) -> bool {
    &&& newest_first(r)
    &&& forall|k: Seq<char>| #[trigger] created_at_time(r, k) == created_at_time(s, k)
}

proof fn lemma_filter_single(x: SessionMetaView, k: Seq<char>)
    ensures
        created_at_time(seq![x], k) == (if x.created_at == k {
            seq![x]
        } else {
            Seq::<SessionMetaView>::empty()
        }),
{
    let e = Seq::<SessionMetaView>::empty();
    assert(e.push(x) == seq![x]);
    e.lemma_filter_push(x, |m: SessionMetaView| m.created_at == k);
    reveal(Seq::filter);
    assert(e.filter(|m: SessionMetaView| m.created_at == k) == e);
}

proof fn lemma_insert_newest_first(s: Seq<SessionMetaView>, i: int, x: SessionMetaView)
    requires
        newest_first(s),
        0 <= i <= s.len(),
        forall|j: int| 0 <= j < i ==> text_le(x.created_at, s[j].created_at),
        forall|j: int| i <= j < s.len() ==> !text_le(x.created_at, s[j].created_at),
    ensures
        newest_first(s.insert(i, x)),
        forall|k: Seq<char>|
            #[trigger] created_at_time(s.insert(i, x), k) == if k == x.created_at {
                created_at_time(s, k).push(x)
            } else {
                created_at_time(s, k)
            },
{
    let a = s.take(i);
    let b = s.skip(i);
    let r = s.insert(i, x);
    assert(r =~= a + seq![x] + b);
    assert(s =~= a + b);
    assert forall|p: int, q: int| 0 <= p <= q < r.len() implies text_le(
        r[q].created_at,
        r[p].created_at,
    ) by {
        if p == q {
            lemma_text_le_refl(r[p].created_at);
        } else if q < i {
        } else if q == i {
            assert(r[p] == s[p]);
        } else if p == i {
            lemma_text_le_total(x.created_at, s[q - 1].created_at);
        } else if p < i {
            assert(r[q] == s[q - 1]);
            lemma_text_le_total(x.created_at, s[q - 1].created_at);
            lemma_text_le_trans(s[q - 1].created_at, x.created_at, s[p].created_at);
        } else {
            assert(r[q] == s[q - 1]);
            assert(r[p] == s[p - 1]);
        }
    }
    assert forall|k: Seq<char>|
        #[trigger] created_at_time(s.insert(i, x), k) == if k == x.created_at {
            created_at_time(s, k).push(x)
        } else {
            created_at_time(s, k)
        } by {
        let pred = |m: SessionMetaView| m.created_at == k;
        Seq::filter_distributes_over_add(a + seq![x], b, pred);
        Seq::filter_distributes_over_add(a, seq![x], pred);
        Seq::filter_distributes_over_add(a, b, pred);
        lemma_filter_single(x, k);
        if k == x.created_at {
            assert forall|j: int| 0 <= j < b.len() implies !pred(#[trigger] b[j]) by {
                assert(b[j] == s[i + j]);
                if b[j].created_at == x.created_at {
                    lemma_text_le_refl(x.created_at);
                }
            }
            assert(b.all(|y: SessionMetaView| !pred(y)));
            b.lemma_all_neg_filter_empty(pred);
            assert(b.filter(pred) =~= Seq::<SessionMetaView>::empty());
            assert(a.filter(pred) + seq![x] + b.filter(pred) =~= (a.filter(pred) + b.filter(
                pred,
            )).push(x));
        } else {
            assert(a.filter(pred) + Seq::<SessionMetaView>::empty() =~= a.filter(pred));
        }
    }
}

/// Session summaries newest first (by creation time, compared as text), keeping
/// the given order among sessions created at the same time.
pub fn sort_sessions_newest_first(sessions: Vec<SessionMeta>) -> (r: Vec<SessionMeta>)
    ensures
        stable_newest_first(meta_views(r@), meta_views(sessions@)),
{
    let mut out: Vec<SessionMeta> = Vec::new();
    let ghost input = meta_views(sessions@);
    let n = sessions.len();
    let ghost all = sessions@;
    let mut rest = sessions;
    let mut j: usize = 0;
    assert(rest@ == all.skip(0));
    while rest.len() > 0
        invariant
            n == all.len(),
            input == meta_views(all),
            j <= n,
            rest@ == all.skip(j as int),
            newest_first(meta_views(out@)),
            forall|k: Seq<char>|
                #[trigger] created_at_time(meta_views(out@), k) == created_at_time(
                    input.take(j as int),
                    k,
                ),
        decreases rest@.len(),
    {
        let item = rest.remove(0);
        assert(item == all[j as int]);
        assert(rest@ == all.skip(j + 1));
        let key = chars_of(item.created_at.as_str());
        let mut i: usize = 0;
        while i < out.len() && text_le_exec(&key, &chars_of(out[i].created_at.as_str()))
            invariant
                i <= out@.len(),
                key@ == item.created_at@,
                forall|m: int| 0 <= m < i ==> text_le(item.created_at@, out@[m].created_at@),
            decreases out@.len() - i,
        {
            i = i + 1;
        }
        let ghost vs = meta_views(out@);
        proof {
            assert forall|m: int| i <= m < vs.len() implies !text_le(
                item.created_at@,
                vs[m].created_at,
            ) by {
                assert(!text_le(item.created_at@, vs[i as int].created_at));
                if m > i {
                    assert(text_le(vs[m].created_at, vs[i as int].created_at));
                    if text_le(item.created_at@, vs[m].created_at) {
                        lemma_text_le_trans(
                            item.created_at@,
                            vs[m].created_at,
                            vs[i as int].created_at,
                        );
                    }
                }
            }
            lemma_insert_newest_first(vs, i as int, item@);
        }
        let ghost iv = item@;
        out.insert(i, item);
        assert(meta_views(out@) =~= vs.insert(i as int, iv));
        assert forall|k: Seq<char>|
            #[trigger] created_at_time(meta_views(out@), k) == created_at_time(
                input.take(j + 1),
                k,
            ) by {
            assert(input.take(j + 1) == input.take(j as int).push(iv));
            input.take(j as int).lemma_filter_push(iv, |m: SessionMetaView| m.created_at == k);
        }
        j = j + 1;
    }
    assert(j == n);
    assert(input.take(n as int) == input);
    out
}

} // verus!

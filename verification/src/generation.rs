use vstd::prelude::*;

use crate::text::{
    all_ascii, char_width, chars_of, find_first, lemma_utf8_len_ascii, lemma_utf8_len_bounds,
    lemma_utf8_len_concat, occurs, occurs_at, opt_view, string_of_range, utf8_len,
};

verus! {

/// The strings that end a reply when a model writes them as text, in the order
/// in which they are looked for.
pub open spec fn stop_strings() -> Seq<Seq<char>> {
    seq![
        seq!['<', '|', 'i', 'm', '_', 'e', 'n', 'd', '|', '>'],
        seq!['<', 'e', 'n', 'd', '_', 'o', 'f', '_', 't', 'u', 'r', 'n', '>'],
        seq!['<', '|', 'e', 'n', 'd', '|', '>'],
        seq!['<', '|', 'e', 'o', 't', '_', 'i', 'd', '|', '>'],
        seq!['<', '|', 'e', 'n', 'd', 'o', 'f', 't', 'e', 'x', 't', '|', '>'],
    ]
}

/// The length in bytes of the longest stop string: that many bytes at the end of
/// the generated text are held back until it is clear that no stop string begins there.
pub open spec fn max_stop_len() -> nat {
    13
}

/// A stop string occurs in `s`.
pub open spec fn has_stop(s: Seq<char>) -> bool {
    exists|k: int| 0 <= k < 5 && occurs(s, #[trigger] stop_strings()[k])
}

/// Some stop string begins at position `pos` of `s`.
pub open spec fn stop_at(s: Seq<char>, pos: int) -> bool {
    exists|k: int| 0 <= k < 5 && #[trigger] occurs_at(s, stop_strings()[k], pos)
}

/// `pos` is the earliest position of `s` at which a stop string begins.
pub open spec fn earliest_stop(s: Seq<char>, pos: int) -> bool {
    &&& stop_at(s, pos)
    &&& forall|j: int| 0 <= j < pos ==> !#[trigger] stop_at(s, j)
}

proof fn lemma_stop_strings_shape()
    ensures
        forall|k: int| 0 <= k < 5 ==> all_ascii(#[trigger] stop_strings()[k]),
        forall|k: int| 0 <= k < 5 ==> 0 < (#[trigger] stop_strings()[k]).len() <= max_stop_len(),
{
    assert forall|k: int| 0 <= k < 5 implies all_ascii(#[trigger] stop_strings()[k]) by {
        let s = stop_strings()[k];
        assert forall|i: int| 0 <= i < s.len() implies ((#[trigger] s[i]) as u32) < 0x80 by {
            if k == 0 {
            } else if k == 1 {
            } else if k == 2 {
            } else if k == 3 {
            } else {
            }
        }
    }
}

fn stop_string_chars(k: usize) -> (v: Vec<char>)
    requires
        k < 5,
    ensures
        v@ == stop_strings()[k as int],
{
    let v = if k == 0 {
        vec!['<', '|', 'i', 'm', '_', 'e', 'n', 'd', '|', '>']
    } else if k == 1 {
        vec!['<', 'e', 'n', 'd', '_', 'o', 'f', '_', 't', 'u', 'r', 'n', '>']
    } else if k == 2 {
        vec!['<', '|', 'e', 'n', 'd', '|', '>']
    } else if k == 3 {
        vec!['<', '|', 'e', 'o', 't', '_', 'i', 'd', '|', '>']
    } else {
        vec!['<', '|', 'e', 'n', 'd', 'o', 'f', 't', 'e', 'x', 't', '|', '>']
    };
    assert(v@ =~= stop_strings()[k as int]);
    v
}

fn char_width_exec(c: char) -> (w: usize)
    ensures
        w == char_width(c),
{
    let u = c as u32;
    if u < 0x80 {
        1
    } else if u < 0x800 {
        2
    } else if u < 0x10000 {
        3
    } else {
        4
    }
}

/// The number of bytes that `v` takes in UTF-8.
pub fn utf8_len_exec(v: &Vec<char>) -> (n: usize)
    requires
        v@.len() <= usize::MAX / 4,
    ensures
        n == utf8_len(v@),
{
    let mut n: usize = 0;
    let mut i: usize = 0;
    while i < v.len()
        invariant
            i <= v@.len() <= usize::MAX / 4,
            n == utf8_len(v@.take(i as int)),
        decreases v@.len() - i,
    {
        proof {
            assert(v@.take(i + 1).drop_last() == v@.take(i as int));
            lemma_utf8_len_bounds(v@.take(i as int));
        }
        n = n + char_width_exec(v[i]);
        i = i + 1;
    }
    assert(v@.take(v@.len() as int) == v@);
    n
}

/// The earliest position of `v` at which a stop string begins.
fn find_stop(v: &Vec<char>) -> (r: Option<usize>)
    ensures
        match r {
            Some(pos) => earliest_stop(v@, pos as int),
            None => !has_stop(v@),
        },
{
    let mut best: Option<usize> = None;
    let mut k: usize = 0;
    while k < 5
        invariant
            k <= 5,
            best matches Some(b) ==> stop_at(v@, b as int),
            forall|i: int, j: int|
                #![trigger occurs_at(v@, stop_strings()[i], j)]
                0 <= i < k && 0 <= j && (best matches Some(b) ==> j < b) ==> !occurs_at(
                    v@,
                    stop_strings()[i],
                    j,
                ),
        decreases 5 - k,
    {
        let s = stop_string_chars(k);
        match find_first(v, &s) {
            Some(pos) => {
                let better = match best {
                    Some(b) => pos < b,
                    None => true,
                };
                if better {
                    best = Some(pos);
                }
                assert(stop_at(v@, pos as int)) by {
                    assert(occurs_at(v@, stop_strings()[k as int], pos as int));
                }
            },
            None => {},
        }
        k = k + 1;
    }
    match best {
        Some(b) => {
            assert forall|j: int| 0 <= j < b implies !#[trigger] stop_at(v@, j) by {
                if stop_at(v@, j) {
                    let i = choose|i: int| 0 <= i < 5 && #[trigger] occurs_at(v@, stop_strings()[i], j);
                    assert(!occurs_at(v@, stop_strings()[i], j));
                }
            }
        },
        None => {
            assert forall|i: int| 0 <= i < 5 implies !occurs(v@, #[trigger] stop_strings()[i]) by {
                if occurs(v@, stop_strings()[i]) {
                    let j = choose|j: int| occurs_at(v@, stop_strings()[i], j);
                    assert(!occurs_at(v@, stop_strings()[i], j));
                }
            }
        },
    }
    best
}

/// What the caller does after a generated token: hand `emit` to the listener,
/// then either decode the token at position `decode_at` and sample the next one,
/// or stop.
pub struct TokenStep {
    pub emit: Option<String>,
    pub decode_at: Option<usize>,
}

/// The text side of a generation run: which part of the generated text has been
/// handed to the listener, which part is held back because a stop string might
/// begin there, and how many tokens the context window still takes.
pub struct Generation {
    pending: Vec<char>,
    n_cur: usize,
    n_prompt: usize,
    n_ctx: usize,
    finished: bool,
    stopped: Ghost<bool>,
    emitted: Ghost<Seq<char>>,
    generated: Ghost<Seq<char>>,
}

impl Generation {
    /// Text generated so far (all pieces accepted).
    pub closed spec fn generated(&self) -> Seq<char> {
        self.generated@
    }

    /// Text handed to the listener so far, in order.
    pub closed spec fn emitted(&self) -> Seq<char> {
        self.emitted@
    }

    /// Text generated but held back.
    pub closed spec fn pending(&self) -> Seq<char> {
        self.pending@
    }

    /// Position of the next token in the context.
    pub closed spec fn position(&self) -> nat {
        self.n_cur as nat
    }

    pub closed spec fn prompt_len(&self) -> nat {
        self.n_prompt as nat
    }

    pub closed spec fn context_len(&self) -> nat {
        self.n_ctx as nat
    }

    pub closed spec fn is_finished(&self) -> bool {
        self.finished
    }

    /// The run ended because a stop string occurred in the generated text.
    pub closed spec fn ended_by_stop(&self) -> bool {
        self.stopped@
    }

    /// The invariant of a run: unless it ended at a stop string, the emitted text
    /// followed by the held-back text is the generated text and no stop string
    /// occurs in it; when it ended at a stop string, nothing is held back and the
    /// emitted text is the generated text up to the earliest position at which a
    /// stop string begins; while it goes on, at most 16 bytes are held back, and
    /// once anything has been emitted at least the last 13 bytes are held back.
    pub closed spec fn wf(&self) -> bool {
        &&& self.n_prompt <= self.n_cur
        &&& !self.stopped@ ==> {
            &&& self.emitted@ + self.pending@ == self.generated@
            &&& !has_stop(self.generated@)
        }
        &&& self.stopped@ ==> {
            &&& self.pending@.len() == 0
            &&& self.emitted@.len() <= self.generated@.len()
            &&& self.generated@.take(self.emitted@.len() as int) == self.emitted@
            &&& earliest_stop(self.generated@, self.emitted@.len() as int)
        }
        &&& !self.finished ==> {
            &&& !self.stopped@
            &&& self.emitted@.len() > 0 ==> utf8_len(self.pending@) >= max_stop_len()
            &&& utf8_len(self.pending@) <= max_stop_len() + 3
        }
    }

    /// A run whose prompt takes `n_prompt` positions of a context of `n_ctx`.
    pub fn new(n_prompt: usize, n_ctx: usize) -> (g: Generation)
        ensures
            g.wf(),
            !g.is_finished(),
            !g.ended_by_stop(),
            g.generated() == Seq::<char>::empty(),
            g.emitted() == Seq::<char>::empty(),
            g.pending() == Seq::<char>::empty(),
            g.position() == n_prompt,
            g.prompt_len() == n_prompt,
            g.context_len() == n_ctx,
    {
        let g = Generation {
            pending: Vec::new(),
            n_cur: n_prompt,
            n_prompt,
            n_ctx,
            finished: false,
            stopped: Ghost(false),
            emitted: Ghost(Seq::empty()),
            generated: Ghost(Seq::empty()),
        };
        proof {
            assert(!has_stop(Seq::<char>::empty())) by {
                assert forall|k: int| 0 <= k < 5 implies !occurs(
                    Seq::<char>::empty(),
                    #[trigger] stop_strings()[k],
                ) by {
                    lemma_stop_strings_shape();
                }
            }
            assert(g.emitted@ + g.pending@ =~= g.generated@);
        }
        g
    }

    pub fn finished(&self) -> (b: bool)
        ensures
            b == self.is_finished(),
    {
        self.finished
    }

    /// Tokens generated past the prompt, as a `u32` (wrapping, as `as u32` does).
    pub fn tokens_generated(&self) -> (n: u32)
        requires
            self.wf(),
        ensures
            n == ((self.position() - self.prompt_len()) as u32),
    {
        (self.n_cur - self.n_prompt) as u32
    }

    /// A token was sampled that is not an end-of-generation token; `piece` is its text.
    /// Past the context window the run ends and the piece is dropped; the held-back
    /// text stays as it was, for `flush` to hand on. Otherwise the
    /// piece is added to the held-back text; if a stop string now occurs there, the
    /// text before the earliest position at which one begins is emitted when it is
    /// not empty, the rest is dropped, and the run ends. Otherwise, when more
    /// than 13 bytes are held back, the longest prefix that leaves at least 13 bytes
    /// held back is emitted, and the token is decoded at the current position.
    pub fn accept_piece(&mut self, piece: &str) -> (step: TokenStep)
        requires
            old(self).wf(),
            !old(self).is_finished(),
            piece@.len() <= usize::MAX / 16,
        ensures
            final(self).wf(),
            final(self).prompt_len() == old(self).prompt_len(),
            final(self).context_len() == old(self).context_len(),
            old(self).position() >= old(self).context_len() ==> {
                &&& final(self).is_finished()
                &&& !final(self).ended_by_stop()
                &&& step.emit is None
                &&& step.decode_at is None
                &&& final(self).emitted() == old(self).emitted()
                &&& final(self).pending() == old(self).pending()
                &&& final(self).generated() == old(self).generated()
                &&& final(self).position() == old(self).position()
            },
            old(self).position() < old(self).context_len() ==> {
                let p = old(self).pending() + piece@;
                &&& final(self).generated() == old(self).generated() + piece@
                &&& if has_stop(p) {
                    &&& exists|pos: int|
                        {
                            &&& #[trigger] earliest_stop(p, pos)
                            &&& final(self).emitted() == old(self).emitted() + p.take(pos)
                            &&& opt_view(step.emit) == (if pos > 0 {
                                Some(p.take(pos))
                            } else {
                                None
                            })
                        }
                    &&& final(self).is_finished()
                    &&& final(self).ended_by_stop()
                    &&& final(self).pending() == Seq::<char>::empty()
                    &&& step.decode_at is None
                    &&& final(self).position() == old(self).position()
                } else {
                    &&& !final(self).is_finished()
                    &&& !final(self).ended_by_stop()
                    &&& step.decode_at == Some(old(self).position() as usize)
                    &&& final(self).position() == old(self).position() + 1
                    &&& if utf8_len(p) > max_stop_len() {
                        exists|cut: int|
                            {
                                &&& 0 <= cut <= p.len()
                                &&& utf8_len(#[trigger] p.take(cut)) + max_stop_len() <= utf8_len(
                                    p,
                                )
                                &&& cut < p.len() ==> utf8_len(p.take(cut + 1)) + max_stop_len()
                                    > utf8_len(p)
                                &&& final(self).pending() == p.skip(cut)
                                &&& final(self).emitted() == old(self).emitted() + p.take(cut)
                                &&& opt_view(step.emit) == Some(p.take(cut))
                            }
                    } else {
                        &&& final(self).pending() == p
                        &&& final(self).emitted() == old(self).emitted()
                        &&& step.emit is None
                    }
                }
            },
    {
        if self.n_cur >= self.n_ctx {
            self.finished = true;
            return TokenStep { emit: None, decode_at: None };
        }
        let ghost old_e = self.emitted@;
        let ghost old_p = self.pending@;
        let ghost old_g = self.generated@;
        proof {
            lemma_utf8_len_bounds(old_p);
        }
        let piece_chars = chars_of(piece);
        let mut i: usize = 0;
        while i < piece_chars.len()
            invariant
                i <= piece_chars@.len(),
                piece_chars@ == piece@,
                self.pending@ == old_p + piece@.take(i as int),
                self.n_cur == old(self).n_cur,
                self.n_ctx == old(self).n_ctx,
                self.n_prompt == old(self).n_prompt,
                self.n_cur < self.n_ctx,
                !self.finished,
                !self.stopped@,
                self.emitted@ == old_e,
                self.generated@ == old_g,
            decreases piece_chars@.len() - i,
        {
            self.pending.push(piece_chars[i]);
            assert(piece@.take(i + 1) == piece@.take(i as int).push(piece@[i as int]));
            i = i + 1;
        }
        assert(piece@.take(piece@.len() as int) == piece@);
        let ghost p = self.pending@;
        assert(p == old_p + piece@);
        self.generated = Ghost(old_g + piece@);
        match find_stop(&self.pending) {
            Some(pos) => {
                let emit = if pos > 0 {
                    Some(string_of_range(&self.pending, 0, pos))
                } else {
                    None
                };
                proof {
                    assert(p.subrange(0, pos as int) == p.take(pos as int));
                    lemma_stop_at_has_stop(p, pos as int);
                    lemma_stop_ends_run(old_e, old_p, piece@, pos as int);
                }
                self.emitted = Ghost(old_e + p.take(pos as int));
                self.pending = Vec::new();
                self.finished = true;
                self.stopped = Ghost(true);
                TokenStep { emit, decode_at: None }
            },
            None => {
                proof {
                    lemma_no_new_stop(old_e, old_p, piece@);
                    assert(old_e + old_p + piece@ == old_e + p);
                    lemma_utf8_len_concat(old_p, piece@);
                }
                let total = utf8_len_exec(&self.pending);
                let mut emit: Option<String> = None;
                if total > 13 {
                    let target = total - 13;
                    let mut cut: usize = 0;
                    let mut acc: usize = 0;
                    while cut < self.pending.len() && acc + char_width_exec(self.pending[cut])
                        <= target
                        invariant
                            self.pending@ == p,
                            self.n_cur == old(self).n_cur,
                            self.n_ctx == old(self).n_ctx,
                            self.n_prompt == old(self).n_prompt,
                            self.n_cur < self.n_ctx,
                            !self.finished,
                            !self.stopped@,
                            cut <= p.len(),
                            acc == utf8_len(p.take(cut as int)),
                            acc <= target,
                            target + 13 == total,
                            total == utf8_len(p),
                        decreases p.len() - cut,
                    {
                        assert(p.take(cut + 1).drop_last() == p.take(cut as int));
                        acc = acc + char_width_exec(self.pending[cut]);
                        cut = cut + 1;
                    }
                    proof {
                        if cut < p.len() {
                            assert(p.take(cut + 1).drop_last() == p.take(cut as int));
                        }
                        assert(p.take(cut as int) + p.skip(cut as int) == p);
                        lemma_utf8_len_concat(p.take(cut as int), p.skip(cut as int));
                        assert(p.subrange(0, cut as int) == p.take(cut as int));
                        assert(p.subrange(cut as int, p.len() as int) == p.skip(cut as int));
                        assert(old_e + p.take(cut as int) + p.skip(cut as int) == old_e + p);
                    }
                    emit = Some(string_of_range(&self.pending, 0, cut));
                    let rest = string_of_range_vec(&self.pending, cut);
                    self.pending = rest;
                    self.emitted = Ghost(old_e + p.take(cut as int));
                    assert(utf8_len(p.take(cut as int)) + max_stop_len() <= utf8_len(p));
                }
                let pos = self.n_cur;
                self.n_cur = self.n_cur + 1;
                TokenStep { emit, decode_at: Some(pos) }
            },
        }
    }

    /// An end-of-generation token was sampled: everything held back is emitted
    /// (possibly the empty text) and the run ends.
    pub fn end_of_generation(&mut self) -> (emit: String)
        requires
            old(self).wf(),
        ensures
            final(self).wf(),
            final(self).is_finished(),
            emit@ == old(self).pending(),
            final(self).emitted() == old(self).emitted() + old(self).pending(),
            final(self).pending() == Seq::<char>::empty(),
            final(self).ended_by_stop() == old(self).ended_by_stop(),
            final(self).generated() == old(self).generated(),
            final(self).position() == old(self).position(),
            final(self).prompt_len() == old(self).prompt_len(),
    {
        let n = self.pending.len();
        let emit = string_of_range(&self.pending, 0, n);
        assert(self.pending@.subrange(0, n as int) == self.pending@);
        assert(self.pending@.len() == 0 ==> self.emitted@ + self.pending@ =~= self.emitted@);
        self.emitted = Ghost(self.emitted@ + self.pending@);
        self.pending = Vec::new();
        self.finished = true;
        emit
    }

    /// The run stops (cancelled, or past the context window): whatever is still held
    /// back is emitted if it is not empty.
    pub fn flush(&mut self) -> (emit: Option<String>)
        requires
            old(self).wf(),
        ensures
            final(self).wf(),
            final(self).is_finished(),
            opt_view(emit) == (if old(self).pending().len() > 0 {
                Some(old(self).pending())
            } else {
                None
            }),
            final(self).emitted() == old(self).emitted() + old(self).pending(),
            final(self).pending() == Seq::<char>::empty(),
            final(self).ended_by_stop() == old(self).ended_by_stop(),
            final(self).generated() == old(self).generated(),
            final(self).position() == old(self).position(),
            final(self).prompt_len() == old(self).prompt_len(),
    {
        let n = self.pending.len();
        let emit = if n > 0 {
            Some(string_of_range(&self.pending, 0, n))
        } else {
            None
        };
        assert(self.pending@.subrange(0, n as int) == self.pending@);
        assert(self.emitted@ + Seq::<char>::empty() == self.emitted@);
        assert(self.pending@.len() == 0 ==> self.emitted@ + self.pending@ =~= self.emitted@);
        self.emitted = Ghost(self.emitted@ + self.pending@);
        self.pending = Vec::new();
        self.finished = true;
        emit
    }
}

/// The characters `v[from..]`.
fn string_of_range_vec(v: &Vec<char>, from: usize) -> (r: Vec<char>)
    requires
        from <= v@.len(),
    ensures
        r@ == v@.skip(from as int),
{
    let mut r: Vec<char> = Vec::new();
    let mut i = from;
    while i < v.len()
        invariant
            from <= i <= v@.len(),
            r@ == v@.subrange(from as int, i as int),
        decreases v@.len() - i,
    {
        r.push(v[i]);
        assert(v@.subrange(from as int, i + 1) == v@.subrange(from as int, i as int).push(v@[i as int]));
        i = i + 1;
    }
    assert(v@.subrange(from as int, v@.len() as int) == v@.skip(from as int));
    r
}

/// Text after the emitted part: when no stop string occurs in the emitted text
/// followed by the held-back text, nor in the held-back text followed by a new
/// piece, and at least 13 bytes are held back once anything was emitted, then no
/// stop string occurs in the whole text either. (Stop strings are ASCII and at
/// most 13 characters long, so one that reached into the emitted text would have
/// to cover all 13 or more held-back characters and one more on each side.)
pub proof fn lemma_no_new_stop(e: Seq<char>, p: Seq<char>, x: Seq<char>)
    requires
        !has_stop(e + p),
        !has_stop(p + x),
        e.len() > 0 ==> utf8_len(p) >= max_stop_len(),
    ensures
        !has_stop(e + p + x),
{
    lemma_stop_strings_shape();
    let t = e + p + x;
    assert forall|k: int| 0 <= k < 5 implies !occurs(t, #[trigger] stop_strings()[k]) by {
        let s = stop_strings()[k];
        if occurs(t, s) {
            let i = choose|i: int| occurs_at(t, s, i);
            assert(t.subrange(i, i + s.len()) == s);
            if i >= e.len() {
                let j = i - e.len();
                assert((p + x).subrange(j, j + s.len()) =~= t.subrange(i, i + s.len()));
                assert(occurs_at(p + x, s, j));
                assert(occurs(p + x, s));
            } else if i + s.len() <= e.len() + p.len() {
                assert((e + p).subrange(i, i + s.len()) =~= t.subrange(i, i + s.len()));
                assert(occurs_at(e + p, s, i));
                assert(occurs(e + p, s));
            } else {
                let off = e.len() - i;
                assert(p =~= s.subrange(off, off + p.len())) by {
                    assert forall|m: int| 0 <= m < p.len() implies p[m] == s.subrange(
                        off,
                        off + p.len(),
                    )[m] by {
                        assert(t[e.len() + m] == p[m]);
                        assert(t.subrange(i, i + s.len())[off + m] == t[i + off + m]);
                    }
                }
                assert(all_ascii(p)) by {
                    assert forall|m: int| 0 <= m < p.len() implies ((#[trigger] p[m]) as u32)
                        < 0x80 by {
                        assert((s[off + m] as u32) < 0x80);
                    }
                }
                lemma_utf8_len_ascii(p);
            }
        }
    }
}


proof fn lemma_stop_at_has_stop(s: Seq<char>, pos: int)
    requires
        stop_at(s, pos),
    ensures
        has_stop(s),
{
    let k = choose|k: int| 0 <= k < 5 && #[trigger] occurs_at(s, stop_strings()[k], pos);
    assert(occurs(s, stop_strings()[k]));
}

/// No stop string begins inside the emitted text `e`, whatever follows the held-back
/// text `q`, when none occurs in `e + q` and at least 13 bytes are held back.
proof fn lemma_no_stop_starts_in(e: Seq<char>, q: Seq<char>, x: Seq<char>, j: int)
    requires
        !has_stop(e + q),
        e.len() > 0 ==> utf8_len(q) >= max_stop_len(),
        0 <= j < e.len(),
    ensures
        !stop_at(e + q + x, j),
{
    lemma_stop_strings_shape();
    let t = e + q + x;
    if stop_at(t, j) {
        let k = choose|k: int| 0 <= k < 5 && #[trigger] occurs_at(t, stop_strings()[k], j);
        let s = stop_strings()[k];
        assert(t.subrange(j, j + s.len()) == s);
        if j + s.len() <= e.len() + q.len() {
            assert((e + q).subrange(j, j + s.len()) =~= t.subrange(j, j + s.len()));
            assert(occurs_at(e + q, s, j));
            assert(occurs(e + q, s));
        } else {
            let off = e.len() - j;
            assert(q =~= s.subrange(off, off + q.len())) by {
                assert forall|m: int| 0 <= m < q.len() implies q[m] == s.subrange(
                    off,
                    off + q.len(),
                )[m] by {
                    assert(t[e.len() + m] == q[m]);
                    assert(t.subrange(j, j + s.len())[off + m] == t[j + off + m]);
                }
            }
            assert(all_ascii(q)) by {
                assert forall|m: int| 0 <= m < q.len() implies ((#[trigger] q[m]) as u32) < 0x80 by {
                    assert((s[off + m] as u32) < 0x80);
                }
            }
            lemma_utf8_len_ascii(q);
        }
    }
}

/// A run that stops at the earliest stop string `pos` of `q + x` (the held-back text
/// and the new piece) has emitted the whole text up to the earliest position at
/// which a stop string begins.
proof fn lemma_stop_ends_run(e: Seq<char>, q: Seq<char>, x: Seq<char>, pos: int)
    requires
        !has_stop(e + q),
        e.len() > 0 ==> utf8_len(q) >= max_stop_len(),
        earliest_stop(q + x, pos),
    ensures
        0 <= pos <= (q + x).len(),
        (e + q + x).take(e.len() + pos) == e + (q + x).take(pos),
        earliest_stop(e + q + x, e.len() + pos),
{
    let p = q + x;
    let t = e + q + x;
    let n = e.len() + pos;
    assert(t =~= e + p);
    let k = choose|k: int| 0 <= k < 5 && #[trigger] occurs_at(p, stop_strings()[k], pos);
    let s = stop_strings()[k];
    assert(t.subrange(n, n + s.len()) =~= p.subrange(pos, pos + s.len()));
    assert(occurs_at(t, s, n));
    assert(stop_at(t, n));
    assert forall|j: int| 0 <= j < n implies !#[trigger] stop_at(t, j) by {
        if j < e.len() {
            lemma_no_stop_starts_in(e, q, x, j);
        } else if stop_at(t, j) {
            let i = choose|i: int| 0 <= i < 5 && #[trigger] occurs_at(t, stop_strings()[i], j);
            let si = stop_strings()[i];
            assert(p.subrange(j - e.len(), j - e.len() + si.len()) =~= t.subrange(j, j + si.len()));
            assert(occurs_at(p, si, j - e.len()));
            assert(stop_at(p, j - e.len()));
        }
    }
    assert(t.take(n) =~= e + p.take(pos));
}

/// No stop string ever occurs in the text handed to the listener. Unless the run
/// ended at a stop string, that text followed by the held-back text is exactly the
/// text generated; when it ended at one, nothing is held back and the text handed
/// on is the generated text up to the earliest position at which a stop string begins.
pub proof fn lemma_emitted_has_no_stop(g: Generation)
    requires
        g.wf(),
    ensures
        !has_stop(g.emitted()),
        !g.ended_by_stop() ==> g.emitted() + g.pending() == g.generated(),
        g.ended_by_stop() ==> {
            &&& g.pending().len() == 0
            &&& g.emitted().len() <= g.generated().len()
            &&& g.generated().take(g.emitted().len() as int) == g.emitted()
            &&& earliest_stop(g.generated(), g.emitted().len() as int)
        },
{
    let e = g.emitted();
    let t = g.generated();
    assert forall|k: int| 0 <= k < 5 implies !occurs(e, #[trigger] stop_strings()[k]) by {
        let s = stop_strings()[k];
        if occurs(e, s) {
            let i = choose|i: int| occurs_at(e, s, i);
            assert(t.subrange(i, i + s.len()) =~= e.subrange(i, i + s.len()));
            assert(occurs_at(t, s, i));
            if g.ended_by_stop() {
                lemma_stop_strings_shape();
                assert(stop_at(t, i));
            } else {
                assert(occurs(t, s));
            }
        }
    }
}

/// The stop strings are exactly the chat markers `<|im_end|>`, `<end_of_turn>`,
/// `<|end|>`, `<|eot_id|>` and `<|endoftext|>`: a stop string begins at a position
/// exactly when one of these begins there, and a text holds a stop string exactly
/// when it holds one of these.
pub proof fn lemma_stop_strings_are_chat_markers()
    ensures
        forall|s: Seq<char>, pos: int|
            #[trigger] stop_at(s, pos) <==> (occurs_at(s, "<|im_end|>"@, pos) || occurs_at(
                s,
                "<end_of_turn>"@,
                pos,
            ) || occurs_at(s, "<|end|>"@, pos) || occurs_at(s, "<|eot_id|>"@, pos) || occurs_at(
                s,
                "<|endoftext|>"@,
                pos,
            )),
        forall|s: Seq<char>|
            #[trigger] has_stop(s) <==> (occurs(s, "<|im_end|>"@) || occurs(s, "<end_of_turn>"@)
                || occurs(s, "<|end|>"@) || occurs(s, "<|eot_id|>"@) || occurs(s, "<|endoftext|>"@)),
{
    reveal_strlit("<|im_end|>");
    reveal_strlit("<end_of_turn>");
    reveal_strlit("<|end|>");
    reveal_strlit("<|eot_id|>");
    reveal_strlit("<|endoftext|>");
    let m = stop_strings();
    assert(m[0] =~= "<|im_end|>"@);
    assert(m[1] =~= "<end_of_turn>"@);
    assert(m[2] =~= "<|end|>"@);
    assert(m[3] =~= "<|eot_id|>"@);
    assert(m[4] =~= "<|endoftext|>"@);
    assert forall|s: Seq<char>, pos: int|
        #[trigger] stop_at(s, pos) <==> (occurs_at(s, "<|im_end|>"@, pos) || occurs_at(
            s,
            "<end_of_turn>"@,
            pos,
        ) || occurs_at(s, "<|end|>"@, pos) || occurs_at(s, "<|eot_id|>"@, pos) || occurs_at(
            s,
            "<|endoftext|>"@,
            pos,
        )) by {
        if stop_at(s, pos) {
            let k = choose|k: int| 0 <= k < 5 && #[trigger] occurs_at(s, stop_strings()[k], pos);
            assert(k == 0 || k == 1 || k == 2 || k == 3 || k == 4);
        }
        if occurs_at(s, m[0], pos) {
            assert(occurs_at(s, stop_strings()[0], pos));
        }
        if occurs_at(s, m[1], pos) {
            assert(occurs_at(s, stop_strings()[1], pos));
        }
        if occurs_at(s, m[2], pos) {
            assert(occurs_at(s, stop_strings()[2], pos));
        }
        if occurs_at(s, m[3], pos) {
            assert(occurs_at(s, stop_strings()[3], pos));
        }
        if occurs_at(s, m[4], pos) {
            assert(occurs_at(s, stop_strings()[4], pos));
        }
    }
    assert forall|s: Seq<char>|
        #[trigger] has_stop(s) <==> (occurs(s, "<|im_end|>"@) || occurs(s, "<end_of_turn>"@)
            || occurs(s, "<|end|>"@) || occurs(s, "<|eot_id|>"@) || occurs(s, "<|endoftext|>"@)) by {
        if has_stop(s) {
            let k = choose|k: int| 0 <= k < 5 && occurs(s, #[trigger] stop_strings()[k]);
            assert(k == 0 || k == 1 || k == 2 || k == 3 || k == 4);
        }
        if occurs(s, m[0]) {
            assert(occurs(s, stop_strings()[0]));
        }
        if occurs(s, m[1]) {
            assert(occurs(s, stop_strings()[1]));
        }
        if occurs(s, m[2]) {
            assert(occurs(s, stop_strings()[2]));
        }
        if occurs(s, m[3]) {
            assert(occurs(s, stop_strings()[3]));
        }
        if occurs(s, m[4]) {
            assert(occurs(s, stop_strings()[4]));
        }
    }
}

} // verus!

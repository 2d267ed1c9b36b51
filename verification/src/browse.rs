use vstd::prelude::*;

use crate::text::{
    chars_equal, chars_of, collapse_whitespace, collapse_ws, contains, occurs, string_of,
    string_of_range, utf8_len, utf8_shorter_than,
};

verus! {

/// What fetching a page gave: the page's title and text, or the error.
#[derive(Debug)]
pub struct BrowseResult {
    pub url: String,
    pub title: String,
    pub text: String,
    pub error: Option<String>,
}

/// Context tokens kept for the system prompt, the conversation and the reply.
pub const RESERVED_TOKENS: u32 = 1500;

/// Characters per token assumed when sizing page text.
pub const CHARS_PER_TOKEN: u32 = 3;

/// Most characters of page text ever handed to a model.
pub const MAX_TEXT_CHARS_CEILING: u32 = 12000;

/// Fewest characters of page text handed to a model.
pub const MIN_TEXT_CHARS: u32 = 1000;

/// Context size assumed when no model is loaded.
pub const DEFAULT_CONTEXT_SIZE: u32 = 4096;

/// How many characters of page text fit a model with the given context size
/// (4096 when no model is loaded): 3 characters for each token beyond the 1500
/// reserved ones, but at least 1000 and at most 12000.
pub open spec fn char_budget(context_size: Option<u32>) -> int {
    let c: int = match context_size {
        Some(c) => c as int,
        None => 4096,
    };
    let raw: int = if c > 1500 {
        (c - 1500) * 3
    } else {
        0
    };
    if raw < 1000 {
        1000
    } else if raw > 12000 {
        12000
    } else {
        raw
    }
}

/// The number of characters of page text to keep (see `char_budget`).
pub fn text_char_budget(context_size: Option<u32>) -> (n: usize)
    requires
        context_size matches Some(c) ==> c - 1500 <= u32::MAX / 3,
    ensures
        n == char_budget(context_size),
{
    let c: u32 = match context_size {
        Some(c) => c,
        None => DEFAULT_CONTEXT_SIZE,
    };
    let tokens: u32 = if c > RESERVED_TOKENS {
        c - RESERVED_TOKENS
    } else {
        0
    };
    let raw: u32 = tokens * CHARS_PER_TOKEN;
    let clamped: u32 = if raw < MIN_TEXT_CHARS {
        MIN_TEXT_CHARS
    } else if raw > MAX_TEXT_CHARS_CEILING {
        MAX_TEXT_CHARS_CEILING
    } else {
        raw
    };
    clamped as usize
}

/// What `scraper` finds for a CSS selector in an HTML document: `None` when the
/// selector does not parse; else, for each matching element in the order in which
/// scraper's selection walks the parsed tree, the text nodes below it, in order.
pub uninterp spec fn html_select(html: Seq<char>, selector: Seq<char>) -> Option<
    Seq<Seq<Seq<char>>>,
>;

pub open spec fn texts_view(r: Option<Vec<Vec<String>>>) -> Option<Seq<Seq<Seq<char>>>> {
    match r {
        Some(els) => Some(
            els@.map_values(|e: Vec<String>| e@.map_values(|t: String| t@)),
        ),
        None => None,
    }
}

/// `scraper::Html::parse_document`, `scraper::Selector::parse`, `Html::select` and
/// `ElementRef::text`: the text nodes of each element of `html` that `selector`
/// matches. The result is named `html_select`; nothing more of it is stated.
#[verifier::external_body]
fn select_element_texts(html: &str, selector: &str) -> (r: Option<Vec<Vec<String>>>)
    ensures
        texts_view(r) == html_select(html@, selector@),
{
    let doc = scraper::Html::parse_document(html);
    let sel = scraper::Selector::parse(selector).ok()?;
    Some(doc.select(&sel).map(|e| e.text().map(|t| t.to_string()).collect()).collect())
}

/// The pieces one after another.
pub open spec fn concat_all(pieces: Seq<Seq<char>>) -> Seq<char>
    decreases pieces.len(),
{
    if pieces.len() == 0 {
        Seq::empty()
    } else {
        concat_all(pieces.drop_last()) + pieces.last()
    }
}

/// The pieces with `sep` between each two.
pub open spec fn join_with(pieces: Seq<Seq<char>>, sep: Seq<char>) -> Seq<char>
    decreases pieces.len(),
{
    if pieces.len() == 0 {
        Seq::empty()
    } else if pieces.len() == 1 {
        pieces[0]
    } else {
        join_with(pieces.drop_last(), sep) + sep + pieces.last()
    }
}

/// The selector of the elements whose text makes up a page's text: leaf-level
/// content elements, which seldom hold nested blocks.
pub open spec fn content_selector() -> Seq<char> {
    "p, h1, h2, h3, h4, h5, h6, li, td, th, dt, dd, figcaption, blockquote, pre"@
}

/// The text of one element: the words of its text nodes, joined by single spaces.
pub open spec fn element_line(pieces: Seq<Seq<char>>) -> Seq<char> {
    collapse_ws(join_with(pieces, " "@))
}

/// The lines of a page: each element's text, in the order scraper selected the
/// elements, leaving out texts shorter than 4 bytes and texts already taken.
pub open spec fn content_lines(els: Seq<Seq<Seq<char>>>) -> Seq<Seq<char>>
    decreases els.len(),
{
    if els.len() == 0 {
        Seq::empty()
    } else {
        let prev = content_lines(els.drop_last());
        let t = element_line(els.last());
        if utf8_len(t) < 4 || prev.contains(t) {
            prev
        } else {
            prev.push(t)
        }
    }
}

/// The title given by the texts of the `title` elements: the text of the first one
/// with whitespace runs squeezed to single spaces (empty when there is none).
pub open spec fn title_of(sel: Option<Seq<Seq<Seq<char>>>>) -> Seq<char> {
    match sel {
        Some(els) => if els.len() > 0 {
            collapse_ws(concat_all(els[0]))
        } else {
            Seq::empty()
        },
        None => Seq::empty(),
    }
}

/// The text given by the texts of the content elements: their lines joined by newlines.
pub open spec fn text_of(sel: Option<Seq<Seq<Seq<char>>>>) -> Seq<char> {
    match sel {
        Some(els) => join_with(content_lines(els), "\n"@),
        None => Seq::empty(),
    }
}

/// A page's title (see `title_of`).
pub open spec fn page_title(html: Seq<char>) -> Seq<char> {
    title_of(html_select(html, "title"@))
}

/// A page's text (see `text_of`).
pub open spec fn page_text(html: Seq<char>) -> Seq<char> {
    text_of(html_select(html, content_selector()))
}

fn push_all(out: &mut Vec<char>, s: &Vec<char>)
    ensures
        final(out)@ == old(out)@ + s@,
{
    let mut i: usize = 0;
    while i < s.len()
        invariant
            i <= s@.len(),
            out@ == old(out)@ + s@.take(i as int),
        decreases s@.len() - i,
    {
        out.push(s[i]);
        assert(s@.take(i + 1) == s@.take(i as int).push(s@[i as int]));
        i = i + 1;
    }
    assert(s@.take(s@.len() as int) == s@);
}

/// The text of one element (see `element_line`).
fn element_text(pieces: &Vec<String>) -> (r: Vec<char>)
    ensures
        r@ == element_line(pieces@.map_values(|t: String| t@)),
{
    let ghost ps = pieces@.map_values(|t: String| t@);
    let mut joined: Vec<char> = Vec::new();
    let mut i: usize = 0;
    while i < pieces.len()
        invariant
            i <= pieces@.len(),
            ps == pieces@.map_values(|t: String| t@),
            joined@ == join_with(ps.take(i as int), " "@),
        decreases pieces@.len() - i,
    {
        assert(ps.take(i + 1).drop_last() == ps.take(i as int));
        if i > 0 {
            joined.push(' ');
            proof {
                reveal_strlit(" ");
            }
            assert(joined@ == join_with(ps.take(i as int), " "@) + " "@);
        }
        let piece = chars_of(pieces[i].as_str());
        push_all(&mut joined, &piece);
        if i == 0 {
            assert(join_with(ps.take(1), " "@) == ps.take(1)[0]);
        }
        i = i + 1;
    }
    assert(ps.take(pieces@.len() as int) == ps);
    collapse_whitespace(&joined)
}

fn lines_contain(lines: &Vec<Vec<char>>, t: &Vec<char>) -> (r: bool)
    ensures
        r == lines@.map_values(|l: Vec<char>| l@).contains(t@),
{
    let ghost ls = lines@.map_values(|l: Vec<char>| l@);
    let mut i: usize = 0;
    while i < lines.len()
        invariant
            i <= lines@.len(),
            ls == lines@.map_values(|l: Vec<char>| l@),
            forall|k: int| 0 <= k < i ==> ls[k] != t@,
        decreases lines@.len() - i,
    {
        if chars_equal(&lines[i], t) {
            assert(ls[i as int] == t@);
            return true;
        }
        i = i + 1;
    }
    false
}

/// A page's title and text, as `page_title` and `page_text` say.
pub fn extract_text(html: &str) -> (r: (String, String))
    ensures
        r.0@ == page_title(html@),
        r.1@ == page_text(html@),
        r.1@ == text_of(
            html_select(
                html@,
                "p, h1, h2, h3, h4, h5, h6, li, td, th, dt, dd, figcaption, blockquote, pre"@,
            ),
        ),
{
    let title_els = select_element_texts(html, "title");
    let content_els = select_element_texts(
        html,
        "p, h1, h2, h3, h4, h5, h6, li, td, th, dt, dd, figcaption, blockquote, pre",
    );
    title_and_text(title_els, content_els)
}

/// The title and text given by the texts of a page's `title` elements and of its
/// content elements (see `title_of` and `text_of`).
pub fn title_and_text(title_els: Option<Vec<Vec<String>>>, content_els: Option<Vec<Vec<String>>>) -> (r: (
    String,
    String,
))
    ensures
        r.0@ == title_of(texts_view(title_els)),
        r.1@ == text_of(texts_view(content_els)),
{
    let title: String = match title_els {
        Some(els) => if els.len() > 0 {
            let first = &els[0];
            let ghost ps = first@.map_values(|t: String| t@);
            let mut all: Vec<char> = Vec::new();
            let mut i: usize = 0;
            while i < first.len()
                invariant
                    i <= first@.len(),
                    ps == first@.map_values(|t: String| t@),
                    all@ == concat_all(ps.take(i as int)),
                decreases first@.len() - i,
            {
                assert(ps.take(i + 1).drop_last() == ps.take(i as int));
                let piece = chars_of(first[i].as_str());
                push_all(&mut all, &piece);
                i = i + 1;
            }
            assert(ps.take(first@.len() as int) == ps);
            string_of(&collapse_whitespace(&all))
        } else {
            String::new()
        },
        None => String::new(),
    };
    let text: String = match content_els {
        Some(els) => {
            let ghost es = els@.map_values(|e: Vec<String>| e@.map_values(|t: String| t@));
            let mut lines: Vec<Vec<char>> = Vec::new();
            let mut i: usize = 0;
            while i < els.len()
                invariant
                    i <= els@.len(),
                    es == els@.map_values(|e: Vec<String>| e@.map_values(|t: String| t@)),
                    lines@.map_values(|l: Vec<char>| l@) == content_lines(es.take(i as int)),
                decreases els@.len() - i,
            {
                assert(es.take(i + 1).drop_last() == es.take(i as int));
                let t = element_text(&els[i]);
                assert(es.take(i + 1).last() == es[i as int]);
                assert(t@ == element_line(es[i as int]));
                if !utf8_shorter_than(&t, 4) && !lines_contain(&lines, &t) {
                    let ghost before = lines@;
                    lines.push(t);
                    assert(lines@.map_values(|l: Vec<char>| l@) =~= before.map_values(
                        |l: Vec<char>| l@,
                    ).push(t@));
                }
                i = i + 1;
            }
            assert(es.take(els@.len() as int) == es);
            let ghost ls = lines@.map_values(|l: Vec<char>| l@);
            let mut joined: Vec<char> = Vec::new();
            let mut j: usize = 0;
            while j < lines.len()
                invariant
                    j <= lines@.len(),
                    ls == lines@.map_values(|l: Vec<char>| l@),
                    joined@ == join_with(ls.take(j as int), "\n"@),
                decreases lines@.len() - j,
            {
                assert(ls.take(j + 1).drop_last() == ls.take(j as int));
                if j > 0 {
                    joined.push('\n');
                    proof {
                        reveal_strlit("\n");
                    }
                    assert(joined@ == join_with(ls.take(j as int), "\n"@) + "\n"@);
                }
                push_all(&mut joined, &lines[j]);
                if j == 0 {
                    assert(join_with(ls.take(1), "\n"@) == ls.take(1)[0]);
                }
                j = j + 1;
            }
            assert(ls.take(lines@.len() as int) == ls);
            string_of(&joined)
        },
        None => String::new(),
    };
    (title, text)
}

/// The first `n` characters of `s` (all of them when it is shorter).
pub open spec fn first_chars(s: Seq<char>, n: int) -> Seq<char> {
    if n < s.len() {
        s.take(n)
    } else {
        s
    }
}

fn take_chars(s: &str, n: usize) -> (r: String)
    ensures
        r@ == first_chars(s@, n as int),
{
    let v = chars_of(s);
    let end = if n < v.len() {
        n
    } else {
        v.len()
    };
    let r = string_of_range(&v, 0, end);
    assert(v@.subrange(0, end as int) == first_chars(s@, n as int));
    r
}

/// A content type that is given and does not name HTML: the body is kept as text.
pub open spec fn is_plain_content(content_type: Seq<char>) -> bool {
    !occurs(content_type, "text/html"@) && content_type.len() > 0
}

/// The title and text taken from a fetched page, at most `max_chars` characters of
/// text: a body that is not HTML (by a given content type) is its own text, with
/// no title; an HTML body gives its title and its text.
pub open spec fn page_content_spec(content_type: Seq<char>, body: Seq<char>, max_chars: int) -> (
    Seq<char>,
    Seq<char>,
) {
    if is_plain_content(content_type) {
        (Seq::empty(), first_chars(body, max_chars))
    } else {
        (page_title(body), first_chars(page_text(body), max_chars))
    }
}

/// The title and text taken from a fetched page (see `page_content_spec`).
pub fn page_content(content_type: &str, body: &str, max_chars: usize) -> (r: (String, String))
    ensures
        (r.0@, r.1@) == page_content_spec(content_type@, body@, max_chars as int),
{
    let ct = chars_of(content_type);
    if !contains(&ct, &chars_of("text/html")) && ct.len() > 0 {
        return (String::new(), take_chars(body, max_chars));
    }
    let (title, text) = extract_text(body);
    (title, take_chars(text.as_str(), max_chars))
}

/// The answer to a page fetch for `url`: the title and text that were taken, or
/// empty title and text with the error.
pub fn browse_result(url: String, fetched: Result<(String, String), String>) -> (r: BrowseResult)
    ensures
        r.url@ == url@,
        match fetched {
            Ok((title, text)) => r.title@ == title@ && r.text@ == text@ && r.error is None,
            Err(e) => r.title@ == Seq::<char>::empty() && r.text@ == Seq::<char>::empty() && (
            r.error matches Some(x) && x@ == e@),
        },
{
    match fetched {
        Ok((title, text)) => BrowseResult { url, title, text, error: None },
        Err(e) => BrowseResult { url, title: String::new(), text: String::new(), error: Some(e) },
    }
}

/// A page's text is taken from the elements that the selector
/// `p, h1, h2, h3, h4, h5, h6, li, td, th, dt, dd, figcaption, blockquote, pre`
/// matches (paragraphs, headings, list items, table header and data cells,
/// definition terms and descriptions, figure captions, block quotes and
/// preformatted blocks), and its title from the `title` elements.
pub proof fn lemma_page_selectors(html: Seq<char>)
    ensures
        page_text(html) == text_of(
            html_select(
                html,
                "p, h1, h2, h3, h4, h5, h6, li, td, th, dt, dd, figcaption, blockquote, pre"@,
            ),
        ),
        page_title(html) == title_of(html_select(html, "title"@)),
{
}

/// The lines of a page are the distinct element texts of at least 4 bytes: each
/// line is the text of one of the elements, is at least 4 bytes long and comes only
/// once, and the text of every element that is at least 4 bytes long is a line.
pub proof fn lemma_content_lines(els: Seq<Seq<Seq<char>>>)
    ensures
        forall|i: int|
            0 <= i < content_lines(els).len() ==> utf8_len(#[trigger] content_lines(els)[i]) >= 4
                && exists|j: int| 0 <= j < els.len() && element_line(els[j]) == content_lines(els)[i],
        forall|i: int, k: int|
            0 <= i < k < content_lines(els).len() ==> #[trigger] content_lines(els)[i]
                != #[trigger] content_lines(els)[k],
        forall|j: int|
            0 <= j < els.len() && utf8_len(#[trigger] element_line(els[j])) >= 4 ==> content_lines(
                els,
            ).contains(element_line(els[j])),
    decreases els.len(),
{
    if els.len() > 0 {
        let d = els.drop_last();
        lemma_content_lines(d);
        let prev = content_lines(d);
        let t = element_line(els.last());
        let cur = content_lines(els);
        assert forall|i: int| 0 <= i < cur.len() implies utf8_len(#[trigger] cur[i]) >= 4
            && exists|j: int| 0 <= j < els.len() && element_line(els[j]) == cur[i] by {
            if i < prev.len() {
                assert(cur[i] == prev[i]);
                let j = choose|j: int| 0 <= j < d.len() && element_line(d[j]) == prev[i];
                assert(els[j] == d[j]);
            } else {
                assert(cur[i] == t);
                assert(els[els.len() - 1] == els.last());
            }
        }
        assert forall|j: int|
            0 <= j < els.len() && utf8_len(#[trigger] element_line(els[j])) >= 4 implies cur.contains(
            element_line(els[j]),
        ) by {
            if j < d.len() {
                assert(els[j] == d[j]);
                assert(prev.contains(element_line(d[j])));
                let i = choose|i: int| 0 <= i < prev.len() && prev[i] == element_line(d[j]);
                assert(cur[i] == prev[i]);
            } else {
                assert(els[j] == els.last());
                if !prev.contains(t) {
                    assert(cur[cur.len() - 1] == t);
                }
            }
        }
    }
}

} // verus!

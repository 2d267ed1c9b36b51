use vstd::prelude::*;

use crate::text::{chars_of, find_first, i64_decimal, occurs_at, signed_decimal, string_of, string_of_range};

verus! {

/// `std::str::from_utf8`: the bytes as text when they are valid UTF-8.
#[verifier::external_body]
fn utf8_text(bytes: &[u8]) -> (r: Option<&str>)
    ensures
        match r {
            Some(s) => vstd::utf8::valid_utf8(bytes@) && s@ == vstd::utf8::decode_utf8(bytes@),
            None => !vstd::utf8::valid_utf8(bytes@),
        },
{
    std::str::from_utf8(bytes).ok()
}

/// `s` without its trailing NUL characters.
pub open spec fn trim_nuls(s: Seq<char>) -> Seq<char>
    decreases s.len(),
{
    if s.len() > 0 && s.last() == '\0' {
        trim_nuls(s.drop_last())
    } else {
        s
    }
}

/// The key that introduces the error message in the engine's JSON reply: `"error":"`.
pub open spec fn error_key() -> Seq<char> {
    seq!['"', 'e', 'r', 'r', 'o', 'r', '"', ':', '"']
}

/// The index of the first `"` in `s` from index `j` on that is not escaped by a
/// backslash (`escaped`: the character before `j` was an escaping backslash).
pub open spec fn closing_quote(s: Seq<char>, j: int, escaped: bool) -> Option<int>
    decreases s.len() - j,
{
    if j < 0 || j >= s.len() {
        None
    } else if escaped {
        closing_quote(s, j + 1, false)
    } else if s[j] == '\\' {
        closing_quote(s, j + 1, true)
    } else if s[j] == '"' {
        Some(j)
    } else {
        closing_quote(s, j + 1, false)
    }
}

/// The first index at which `p` occurs in `s`.
pub open spec fn first_occurrence(s: Seq<char>, p: Seq<char>, i: int) -> bool {
    occurs_at(s, p, i) && forall|k: int| 0 <= k < i ==> !occurs_at(s, p, k)
}

/// The error message in the engine's reply buffer: the buffer read as UTF-8 text
/// without trailing NULs, the text after the first `"error":"` up to the closing
/// unescaped quote (escapes left as they are). Nothing when the buffer is not
/// UTF-8, has no such key, or the string is not closed.
pub open spec fn ffi_error_detail_spec(buf: Seq<u8>) -> Option<Seq<char>> {
    if !vstd::utf8::valid_utf8(buf) {
        None
    } else {
        let t = trim_nuls(vstd::utf8::decode_utf8(buf));
        if exists|i: int| first_occurrence(t, error_key(), i) {
            let i = choose|i: int| first_occurrence(t, error_key(), i);
            let rest = t.skip(i + 9);
            match closing_quote(rest, 0, false) {
                Some(j) => Some(rest.take(j)),
                None => None,
            }
        } else {
            None
        }
    }
}

proof fn lemma_first_occurrence_unique(t: Seq<char>, p: Seq<char>, i: int, k: int)
    requires
        first_occurrence(t, p, i),
        first_occurrence(t, p, k),
    ensures
        i == k,
{
}

/// The error message in the engine's reply buffer (see `ffi_error_detail_spec`).
pub fn ffi_error_detail(buf: &[u8]) -> (r: Option<String>)
    ensures
        crate::text::opt_view(r) == ffi_error_detail_spec(buf@),
{
    let s = match utf8_text(buf) {
        Some(s) => s,
        None => {
            return None;
        },
    };
    let v = chars_of(s);
    let mut n = v.len();
    assert(v@.take(n as int) == v@);
    while n > 0 && v[n - 1] == '\0'
        invariant
            n <= v@.len(),
            trim_nuls(v@) == trim_nuls(v@.take(n as int)),
        decreases n,
    {
        assert(v@.take(n as int).drop_last() == v@.take(n - 1));
        n = n - 1;
    }
    let t = vec_prefix(&v, n);
    assert(t@ == trim_nuls(v@));
    let key = vec!['"', 'e', 'r', 'r', 'o', 'r', '"', ':', '"'];
    assert(key@ == error_key());
    let i = match find_first(&t, &key) {
        Some(i) => i,
        None => {
            return None;
        },
    };
    assert(first_occurrence(t@, error_key(), i as int));
    proof {
        let c = choose|c: int| first_occurrence(t@, error_key(), c);
        lemma_first_occurrence_unique(t@, error_key(), i as int, c);
        assert(i == c);
    }
    let start = i + 9;
    let ghost rest = t@.skip(start as int);
    let mut j = start;
    let mut escaped = false;
    while j < t.len()
        invariant
            start <= j <= t@.len(),
            start == i + 9,
            rest == t@.skip(start as int),
            vstd::utf8::valid_utf8(buf@),
            t@ == trim_nuls(vstd::utf8::decode_utf8(buf@)),
            i == choose|c: int| first_occurrence(t@, error_key(), c),
            first_occurrence(t@, error_key(), i as int),
            closing_quote(rest, 0, false) == closing_quote(rest, j - start, escaped),
        decreases t@.len() - j,
    {
        let c = t[j];
        assert(rest[j - start] == c);
        if escaped {
            escaped = false;
        } else if c == '\\' {
            escaped = true;
        } else if c == '"' {
            assert(rest.take(j - start) == t@.subrange(start as int, j as int));
            return Some(string_of_range(&t, start, j));
        }
        j = j + 1;
    }
    None
}

fn vec_prefix(v: &Vec<char>, n: usize) -> (r: Vec<char>)
    requires
        n <= v@.len(),
    ensures
        r@ == v@.take(n as int),
{
    let mut r: Vec<char> = Vec::new();
    let mut i: usize = 0;
    while i < n
        invariant
            i <= n <= v@.len(),
            r@ == v@.take(i as int),
        decreases n - i,
    {
        r.push(v[i]);
        assert(v@.take(i + 1) == v@.take(i as int).push(v@[i as int]));
        i = i + 1;
    }
    r
}

/// The error a failed completion reports: `ffi error: ` followed by the engine's
/// error message, or by `code ` and the return code when the reply has none.
pub open spec fn ffi_error_message_spec(ret: i32, buf: Seq<u8>) -> Seq<char> {
    "ffi error: "@ + match ffi_error_detail_spec(buf) {
        Some(d) => d,
        None => "code "@ + signed_decimal(ret as int),
    }
}

/// The error a failed completion reports (see `ffi_error_message_spec`).
pub fn ffi_error_message(ret: i32, buf: &[u8]) -> (r: String)
    ensures
        r@ == ffi_error_message_spec(ret, buf@),
{
    let mut r = "ffi error: ".to_owned();
    match ffi_error_detail(buf) {
        Some(d) => r.append(d.as_str()),
        None => {
            let mut c = "code ".to_owned();
            c.append(string_of(&i64_decimal(ret as i64)).as_str());
            r.append(c.as_str());
        },
    }
    r
}

/// A completion failed when the engine returned a negative code and the run was
/// not cancelled; a cancelled run counts as finished whatever the code.
pub fn completion_failed(ret: i32, cancelled: bool) -> (b: bool)
    ensures
        b == (ret < 0 && !cancelled),
{
    ret < 0 && !cancelled
}

/// The PCM samples of an audio file's contents: a file that starts with `RIFF`
/// and is longer than the 44-byte WAV header loses the header; any other file is
/// kept whole.
pub fn strip_wav_header(data: Vec<u8>) -> (r: Vec<u8>)
    ensures
        r@ == if data@.len() > 44 && data@.take(4) == seq![0x52u8, 0x49u8, 0x46u8, 0x46u8] {
            data@.skip(44)
        } else {
            data@
        },
{
    let riff = data.len() > 44 && data[0] == 0x52u8 && data[1] == 0x49u8 && data[2] == 0x46u8
        && data[3] == 0x46u8;
    proof {
        if data@.len() > 44 {
            if data@.take(4) == seq![0x52u8, 0x49u8, 0x46u8, 0x46u8] {
                assert(data@.take(4)[0] == data@[0]);
                assert(data@.take(4)[1] == data@[1]);
                assert(data@.take(4)[2] == data@[2]);
                assert(data@.take(4)[3] == data@[3]);
            }
            if riff {
                assert(data@.take(4) =~= seq![0x52u8, 0x49u8, 0x46u8, 0x46u8]);
            }
        }
    }
    if riff {
        let mut r: Vec<u8> = Vec::new();
        let mut i: usize = 44;
        while i < data.len()
            invariant
                44 <= i <= data@.len(),
                r@ == data@.subrange(44, i as int),
            decreases data@.len() - i,
        {
            r.push(data[i]);
            assert(data@.subrange(44, i + 1) == data@.subrange(44, i as int).push(data@[i as int]));
            i = i + 1;
        }
        assert(data@.subrange(44, data@.len() as int) == data@.skip(44));
        r
    } else {
        data
    }
}

} // verus!

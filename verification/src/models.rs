use vstd::prelude::*;

use crate::text::{
    chars_of, contains, ends_with, has_char, has_prefix, has_suffix, occurs, string_of,
    string_of_range,
};

verus! {

/// `s` with every trailing `.gguf` removed (`str::trim_end_matches(".gguf")`).
pub open spec fn strip_gguf(s: Seq<char>) -> Seq<char>
    decreases s.len(),
{
    if s.len() >= 5 && has_suffix(s, ".gguf"@) {
        strip_gguf(s.take(s.len() - 5))
    } else {
        s
    }
}

/// Index `b` begins a `-`-separated part of `s`.
pub open spec fn part_start(s: Seq<char>, b: int) -> bool {
    b == 0 || (0 < b <= s.len() && s[b - 1] == '-')
}

/// The text at index `b` of `s` begins with a quantization marker:
/// `Q`, `IQ`, `BF` or `UD` (case-sensitive).
pub open spec fn quant_marker_at(s: Seq<char>, b: int) -> bool {
    let t = s.skip(b);
    ||| has_prefix(t, seq!['Q'])
    ||| has_prefix(t, seq!['I', 'Q'])
    ||| has_prefix(t, seq!['B', 'F'])
    ||| has_prefix(t, seq!['U', 'D'])
}

/// The first `-`-separated part of `s` at or after index `from` that begins with a
/// quantization marker, by the index where it begins.
pub open spec fn first_quant_part(s: Seq<char>, from: int) -> Option<int>
    decreases s.len() + 1 - from,
{
    if from < 0 || from > s.len() {
        None
    } else if part_start(s, from) && quant_marker_at(s, from) {
        Some(from)
    } else {
        first_quant_part(s, from + 1)
    }
}

/// The quantization name of a model file: its stem (name without trailing `.gguf`)
/// from the first `-`-separated part that begins with a quantization marker on,
/// or the whole stem when no part does. For `gemma-3-1b-it-Q4_K_M.gguf` it is `Q4_K_M`.
pub open spec fn quant_name(filename: Seq<char>) -> Seq<char> {
    let stem = strip_gguf(filename);
    match first_quant_part(stem, 0) {
        Some(b) => stem.skip(b),
        None => stem,
    }
}

fn strip_gguf_exec(v: &Vec<char>) -> (n: usize)
    ensures
        n <= v@.len(),
        v@.take(n as int) == strip_gguf(v@),
{
    let suffix = vec!['.', 'g', 'g', 'u', 'f'];
    assert(suffix@ == ".gguf"@) by {
        reveal_strlit(".gguf");
    }
    let mut n = v.len();
    let ghost full = v@;
    assert(v@.take(n as int) == v@);
    while n >= 5 && suffix_at(v, n, &suffix)
        invariant
            n <= v@.len(),
            suffix@ == ".gguf"@,
            strip_gguf(v@.take(n as int)) == strip_gguf(v@),
        decreases n,
    {
        assert(v@.take(n as int).take(n - 5) == v@.take(n - 5));
        n = n - 5;
    }
    n
}

/// `v[..n]` ends with `suffix`.
fn suffix_at(v: &Vec<char>, n: usize, suffix: &Vec<char>) -> (b: bool)
    requires
        n <= v@.len(),
    ensures
        b == has_suffix(v@.take(n as int), suffix@),
{
    if suffix.len() > n {
        return false;
    }
    let start = n - suffix.len();
    let mut j: usize = 0;
    while j < suffix.len()
        invariant
            start + suffix@.len() == n <= v@.len(),
            j <= suffix@.len(),
            forall|k: int| 0 <= k < j ==> v@[start + k] == suffix@[k],
        decreases suffix@.len() - j,
    {
        if v[start + j] != suffix[j] {
            assert(v@.take(n as int).skip(start as int)[j as int] != suffix@[j as int]);
            return false;
        }
        j = j + 1;
    }
    assert(v@.take(n as int).skip(start as int) =~= suffix@);
    true
}

proof fn lemma_prefix1(t: Seq<char>, a: char)
    ensures
        has_prefix(t, seq![a]) <==> (t.len() >= 1 && t[0] == a),
{
    if t.len() >= 1 {
        if t[0] == a {
            assert(t.take(1) =~= seq![a]);
        }
        if has_prefix(t, seq![a]) {
            assert(t.take(1)[0] == seq![a][0]);
        }
    }
}

proof fn lemma_prefix2(t: Seq<char>, a: char, c: char)
    ensures
        has_prefix(t, seq![a, c]) <==> (t.len() >= 2 && t[0] == a && t[1] == c),
{
    if t.len() >= 2 {
        if t[0] == a && t[1] == c {
            assert(t.take(2) =~= seq![a, c]);
        }
        if has_prefix(t, seq![a, c]) {
            assert(t.take(2)[0] == seq![a, c][0]);
            assert(t.take(2)[1] == seq![a, c][1]);
        }
    }
}

fn quant_marker_exec(s: &Vec<char>, n: usize, b: usize) -> (r: bool)
    requires
        n <= s@.len(),
        b <= n,
    ensures
        r == quant_marker_at(s@.take(n as int), b as int),
{
    let ghost t = s@.take(n as int).skip(b as int);
    let rest = n - b;
    let r = (rest >= 1 && s[b] == 'Q') || (rest >= 2 && s[b] == 'I' && s[b + 1] == 'Q') || (rest
        >= 2 && s[b] == 'B' && s[b + 1] == 'F') || (rest >= 2 && s[b] == 'U' && s[b + 1] == 'D');
    proof {
        lemma_prefix1(t, 'Q');
        lemma_prefix2(t, 'I', 'Q');
        lemma_prefix2(t, 'B', 'F');
        lemma_prefix2(t, 'U', 'D');
        assert(t.len() == rest);
        if rest >= 1 {
            assert(t[0] == s@[b as int]);
        }
        if rest >= 2 {
            assert(t[1] == s@[b + 1]);
        }
    }
    r
}

/// The quantization name of a model file (see `quant_name`).
pub fn extract_quant_name(filename: &str) -> (r: String)
    ensures
        r@ == quant_name(filename@),
{
    let v = chars_of(filename);
    let n = strip_gguf_exec(&v);
    let ghost stem = v@.take(n as int);
    let mut b: usize = 0;
    while b <= n
        invariant
            n <= v@.len(),
            v@ == filename@,
            stem == v@.take(n as int),
            stem == strip_gguf(filename@),
            b <= n + 1,
            first_quant_part(stem, b as int) == first_quant_part(stem, 0),
        decreases n + 1 - b,
    {
        let starts = b == 0 || v[b - 1] == '-';
        assert(starts == part_start(stem, b as int));
        if starts && quant_marker_exec(&v, n, b) {
            assert(stem.skip(b as int) == v@.subrange(b as int, n as int));
            assert(first_quant_part(stem, b as int) == Some(b as int));
            return string_of_range(&v, b, n);
        }
        if b == n {
            assert(first_quant_part(stem, b + 1) == None::<int>);
            assert(v@.subrange(0, n as int) == stem);
            return string_of_range(&v, 0, n);
        }
        b = b + 1;
    }
    assert(v@.subrange(0, n as int) == stem);
    string_of_range(&v, 0, n)
}

} // verus!

verus! {

/// One entry of a Hugging Face repository tree listing: its path, its size, and
/// the size of its large-file-storage object when it has one.
#[derive(Clone, Debug)]
pub struct HfTreeEntry {
    pub path: String,
    pub size: Option<u64>,
    pub lfs_size: Option<u64>,
}

/// A model file offered for download from a Hugging Face repository.
#[derive(Clone, Debug)]
pub struct HfFile {
    pub filename: String,
    pub size_bytes: u64,
    pub download_url: String,
    pub quant_name: String,
}

pub struct HfFileView {
    pub filename: Seq<char>,
    pub size_bytes: u64,
    pub download_url: Seq<char>,
    pub quant_name: Seq<char>,
}

impl View for HfFile {
    type V = HfFileView;

    open spec fn view(&self) -> HfFileView {
        HfFileView {
            filename: self.filename@,
            size_bytes: self.size_bytes,
            download_url: self.download_url@,
            quant_name: self.quant_name@,
        }
    }
}

pub open spec fn hf_views(v: Seq<HfFile>) -> Seq<HfFileView> {
    v.map_values(|f: HfFile| f@)
}

/// What `str::to_lowercase` returns for a string (Unicode lower-case mapping).
pub uninterp spec fn lowercase(s: Seq<char>) -> Seq<char>;

/// `str::to_lowercase`: the result is the lower-case mapping of `s`, named `lowercase`.
#[verifier::external_body]
fn to_lowercase(s: &str) -> (r: String)
    ensures
        r@ == lowercase(s@),
{
    s.to_lowercase()
}

/// A repository file is offered when it is a `.gguf` file at the top of the
/// repository and its lower-cased name (`lower`) mentions none of `mmproj`
/// (vision projector weights), `ternary`, `tq1`, `tq2` (unsupported weight types).
pub open spec fn keeps_gguf_file(path: Seq<char>, lower: Seq<char>) -> bool {
    &&& has_suffix(path, ".gguf"@)
    &&& !path.contains('/')
    &&& !occurs(lower, "mmproj"@)
    &&& !occurs(lower, "ternary"@)
    &&& !occurs(lower, "tq1"@)
    &&& !occurs(lower, "tq2"@)
}

/// Whether a repository file is offered, given its path and its lower-cased path.
pub fn keeps_gguf_entry(path: &str, lower: &str) -> (b: bool)
    ensures
        b == keeps_gguf_file(path@, lower@),
{
    let p = chars_of(path);
    let l = chars_of(lower);
    ends_with(&p, &chars_of(".gguf")) && !has_char(&p, '/') && !contains(&l, &chars_of("mmproj"))
        && !contains(&l, &chars_of("ternary")) && !contains(&l, &chars_of("tq1")) && !contains(
        &l,
        &chars_of("tq2"),
    )
}

/// The size of an entry: its large-file size, else its size, else 0.
pub open spec fn entry_size(e: HfTreeEntry) -> u64 {
    match e.lfs_size {
        Some(s) => s,
        None => match e.size {
            Some(s) => s,
            None => 0,
        },
    }
}

/// The download offer for an entry of repository `repo`.
pub open spec fn hf_file_view(repo: Seq<char>, e: HfTreeEntry) -> HfFileView {
    HfFileView {
        filename: e.path@,
        size_bytes: entry_size(e),
        download_url: "https://huggingface.co/"@ + repo + "/resolve/main/"@ + e.path@,
        quant_name: quant_name(e.path@),
    }
}

/// Each entry of a listing with its lower-cased path (`lowers`, one per entry).
pub open spec fn with_lowers(entries: Seq<HfTreeEntry>, lowers: Seq<Seq<char>>) -> Seq<
    (HfTreeEntry, Seq<char>),
> {
    Seq::new(entries.len(), |i: int| (entries[i], lowers[i]))
}

/// The offers for a tree listing whose lower-cased paths are `lowers`, in listing order.
pub open spec fn hf_candidates_lowered(
    repo: Seq<char>,
    entries: Seq<HfTreeEntry>,
    lowers: Seq<Seq<char>>,
) -> Seq<HfFileView> {
    with_lowers(entries, lowers).filter(
        |p: (HfTreeEntry, Seq<char>)| keeps_gguf_file(p.0.path@, p.1),
    ).map_values(|p: (HfTreeEntry, Seq<char>)| hf_file_view(repo, p.0))
}

/// The offers for a tree listing, in listing order.
pub open spec fn hf_candidates(repo: Seq<char>, entries: Seq<HfTreeEntry>) -> Seq<HfFileView> {
    hf_candidates_lowered(repo, entries, entries.map_values(|e: HfTreeEntry| lowercase(e.path@)))
}

/// Sizes never decrease along `s`.
pub open spec fn sorted_by_size(s: Seq<HfFileView>) -> bool {
    forall|i: int, j: int| 0 <= i <= j < s.len() ==> s[i].size_bytes <= s[j].size_bytes
}

/// The files of `s` of size `k`, in order.
pub open spec fn with_size(s: Seq<HfFileView>, k: u64) -> Seq<HfFileView> {
    s.filter(|f: HfFileView| f.size_bytes == k)
}

/// `r` is `s` sorted by size, stably: sizes never decrease along `r`, and the files
/// of any one size come in the same order in both.
pub open spec fn stable_sorted_by_size(r: Seq<HfFileView>, s: Seq<HfFileView>) -> bool {
    &&& sorted_by_size(r)
    &&& forall|k: u64| #[trigger] with_size(r, k) == with_size(s, k)
}

proof fn lemma_filter_single(x: HfFileView, k: u64)
    ensures
        with_size(seq![x], k) == (if x.size_bytes == k {
            seq![x]
        } else {
            Seq::<HfFileView>::empty()
        }),
{
    let e = Seq::<HfFileView>::empty();
    assert(e.push(x) == seq![x]);
    e.lemma_filter_push(x, |f: HfFileView| f.size_bytes == k);
    reveal(Seq::filter);
    assert(e.filter(|f: HfFileView| f.size_bytes == k) == e);
}

proof fn lemma_insert_by_size(s: Seq<HfFileView>, i: int, x: HfFileView)
    requires
        sorted_by_size(s),
        0 <= i <= s.len(),
        forall|j: int| 0 <= j < i ==> s[j].size_bytes <= x.size_bytes,
        forall|j: int| i <= j < s.len() ==> s[j].size_bytes > x.size_bytes,
    ensures
        sorted_by_size(s.insert(i, x)),
        forall|k: u64|
            #[trigger] with_size(s.insert(i, x), k) == if k == x.size_bytes {
                with_size(s, k).push(x)
            } else {
                with_size(s, k)
            },
{
    let a = s.take(i);
    let b = s.skip(i);
    assert(s.insert(i, x) =~= a + seq![x] + b);
    assert(s =~= a + b);
    assert forall|k: u64|
        #[trigger] with_size(s.insert(i, x), k) == if k == x.size_bytes {
            with_size(s, k).push(x)
        } else {
            with_size(s, k)
        } by {
        let pred = |f: HfFileView| f.size_bytes == k;
        Seq::filter_distributes_over_add(a + seq![x], b, pred);
        Seq::filter_distributes_over_add(a, seq![x], pred);
        Seq::filter_distributes_over_add(a, b, pred);
        lemma_filter_single(x, k);
        if k == x.size_bytes {
            assert(b.all(|y: HfFileView| !pred(y)));
            b.lemma_all_neg_filter_empty(pred);
            assert(b.filter(pred) =~= Seq::<HfFileView>::empty());
            assert(a.filter(pred) + seq![x] + b.filter(pred) =~= (a.filter(pred) + b.filter(
                pred,
            )).push(x));
        } else {
            assert(a.filter(pred) + Seq::<HfFileView>::empty() =~= a.filter(pred));
        }
    }
}

/// The files offered for download from repository `repo`, given its tree
/// listing: the entries `keeps_gguf_file` keeps, as `hf_file_view` says, sorted
/// by size (smallest first), keeping listing order among files of equal size.
pub fn select_hf_files(repo: &str, entries: Vec<HfTreeEntry>) -> (r: Vec<HfFile>)
    ensures
        stable_sorted_by_size(hf_views(r@), hf_candidates(repo@, entries@)),
        forall|i: int|
            0 <= i < r@.len() ==> {
                let p = #[trigger] r@[i].filename@;
                &&& has_suffix(p, ".gguf"@)
                &&& !p.contains('/')
                &&& !occurs(lowercase(p), "mmproj"@)
                &&& !occurs(lowercase(p), "ternary"@)
                &&& !occurs(lowercase(p), "tq1"@)
                &&& !occurs(lowercase(p), "tq2"@)
            },
{
    let mut lowers: Vec<String> = Vec::new();
    let mut j: usize = 0;
    while j < entries.len()
        invariant
            j <= entries@.len(),
            lowers@.len() == j,
            forall|m: int| 0 <= m < j ==> (#[trigger] lowers@[m])@ == lowercase(entries@[m].path@),
        decreases entries@.len() - j,
    {
        lowers.push(to_lowercase(entries[j].path.as_str()));
        j = j + 1;
    }
    let ghost lv = lowers@.map_values(|l: String| l@);
    assert(lv =~= entries@.map_values(|e: HfTreeEntry| lowercase(e.path@)));
    let ghost listing = entries@;
    let r = select_hf_files_lowered(repo, entries, &lowers);
    proof {
        lemma_offered_files(repo@, listing, hf_views(r@));
        assert forall|i: int| 0 <= i < r@.len() implies #[trigger] r@[i].filename@ == hf_views(
            r@,
        )[i].filename by {}
    }
    r
}

/// The files offered for download from repository `repo`, given its tree listing
/// and each entry's lower-cased path (see `select_hf_files`).
pub fn select_hf_files_lowered(repo: &str, entries: Vec<HfTreeEntry>, lowers: &Vec<String>) -> (r:
    Vec<HfFile>)
    requires
        lowers@.len() == entries@.len(),
    ensures
        stable_sorted_by_size(
            hf_views(r@),
            hf_candidates_lowered(repo@, entries@, lowers@.map_values(|l: String| l@)),
        ),
{
    let ghost pairs = with_lowers(entries@, lowers@.map_values(|l: String| l@));
    let ghost pred = |p: (HfTreeEntry, Seq<char>)| keeps_gguf_file(p.0.path@, p.1);
    let ghost mapf = |p: (HfTreeEntry, Seq<char>)| hf_file_view(repo@, p.0);
    let mut out: Vec<HfFile> = Vec::new();
    let mut j: usize = 0;
    while j < entries.len()
        invariant
            j <= entries@.len(),
            lowers@.len() == entries@.len(),
            pairs == with_lowers(entries@, lowers@.map_values(|l: String| l@)),
            pred == (|p: (HfTreeEntry, Seq<char>)| keeps_gguf_file(p.0.path@, p.1)),
            mapf == (|p: (HfTreeEntry, Seq<char>)| hf_file_view(repo@, p.0)),
            sorted_by_size(hf_views(out@)),
            forall|k: u64|
                #[trigger] with_size(hf_views(out@), k) == with_size(
                    pairs.take(j as int).filter(pred).map_values(mapf),
                    k,
                ),
        decreases entries@.len() - j,
    {
        let e = &entries[j];
        let ghost before = pairs.take(j as int).filter(pred).map_values(mapf);
        assert(pairs.take(j + 1) == pairs.take(j as int).push(pairs[j as int]));
        assert(pairs[j as int] == (entries@[j as int], lowers@[j as int]@));
        proof {
            pairs.take(j as int).lemma_filter_push(pairs[j as int], pred);
        }
        if keeps_gguf_entry(e.path.as_str(), lowers[j].as_str()) {
            let size: u64 = match e.lfs_size {
                Some(s) => s,
                None => match e.size {
                    Some(s) => s,
                    None => 0,
                },
            };
            let mut url = "https://huggingface.co/".to_owned();
            url.append(repo);
            url.append("/resolve/main/");
            url.append(e.path.as_str());
            let file = HfFile {
                filename: e.path.clone(),
                size_bytes: size,
                download_url: url,
                quant_name: extract_quant_name(e.path.as_str()),
            };
            assert(file@ == mapf(pairs[j as int]));
            let mut i: usize = 0;
            while i < out.len() && out[i].size_bytes <= size
                invariant
                    i <= out@.len(),
                    forall|m: int| 0 <= m < i ==> out@[m].size_bytes <= size,
                decreases out@.len() - i,
            {
                i = i + 1;
            }
            let ghost vs = hf_views(out@);
            proof {
                assert forall|m: int| i <= m < vs.len() implies vs[m].size_bytes > size by {
                    assert(vs[i as int].size_bytes > size);
                    assert(vs[i as int].size_bytes <= vs[m].size_bytes);
                }
                lemma_insert_by_size(vs, i as int, file@);
            }
            out.insert(i, file);
            assert(hf_views(out@) =~= vs.insert(i as int, file@));
            assert forall|k: u64|
                #[trigger] with_size(hf_views(out@), k) == with_size(
                    pairs.take(j + 1).filter(pred).map_values(mapf),
                    k,
                ) by {
                assert(pairs.take(j + 1).filter(pred).map_values(mapf) =~= before.push(file@));
                before.lemma_filter_push(file@, |f: HfFileView| f.size_bytes == k);
            }
        } else {
            assert(pairs.take(j + 1).filter(pred).map_values(mapf) == before);
        }
        j = j + 1;
    }
    assert(pairs.take(entries@.len() as int) == pairs);
    out
}

proof fn lemma_candidate_from_entry(repo: Seq<char>, entries: Seq<HfTreeEntry>, y: HfFileView)
    requires
        hf_candidates(repo, entries).contains(y),
    ensures
        exists|j: int|
            0 <= j < entries.len() && y == hf_file_view(repo, entries[j]) && keeps_gguf_file(
                entries[j].path@,
                lowercase(entries[j].path@),
            ),
{
    let lowers = entries.map_values(|e: HfTreeEntry| lowercase(e.path@));
    let pairs = with_lowers(entries, lowers);
    let pred = |p: (HfTreeEntry, Seq<char>)| keeps_gguf_file(p.0.path@, p.1);
    let f = |p: (HfTreeEntry, Seq<char>)| hf_file_view(repo, p.0);
    let filtered = pairs.filter(pred);
    let cands = filtered.map_values(f);
    assert(hf_candidates(repo, entries) == cands);
    let idx = choose|idx: int| 0 <= idx < cands.len() && cands[idx] == y;
    assert(idx < filtered.len());
    let q = filtered[idx];
    pairs.lemma_filter_pred(pred, idx);
    assert(filtered.contains(q));
    pairs.lemma_filter_contains_rev(pred, q);
    let j = choose|j: int| 0 <= j < pairs.len() && pairs[j] == q;
    assert(pairs[j] == (entries[j], lowercase(entries[j].path@)));
}

proof fn lemma_entry_to_candidate(repo: Seq<char>, entries: Seq<HfTreeEntry>, j: int)
    requires
        0 <= j < entries.len(),
        keeps_gguf_file(entries[j].path@, lowercase(entries[j].path@)),
    ensures
        hf_candidates(repo, entries).contains(hf_file_view(repo, entries[j])),
{
    let lowers = entries.map_values(|e: HfTreeEntry| lowercase(e.path@));
    let pairs = with_lowers(entries, lowers);
    let pred = |p: (HfTreeEntry, Seq<char>)| keeps_gguf_file(p.0.path@, p.1);
    let f = |p: (HfTreeEntry, Seq<char>)| hf_file_view(repo, p.0);
    let filtered = pairs.filter(pred);
    assert(pairs[j] == (entries[j], lowercase(entries[j].path@)));
    pairs.lemma_filter_contains(pred, j);
    let idx = choose|idx: int| 0 <= idx < filtered.len() && filtered[idx] == pairs[j];
    let cands = filtered.map_values(f);
    assert(cands[idx] == hf_file_view(repo, entries[j]));
}

/// `f` is the offer for a file of the listing: its path, its size (the large-file
/// size, else the size, else 0), the URL
/// `https://huggingface.co/{repo}/resolve/main/{path}` and the quantization name of
/// its path.
pub open spec fn offer_of_listed_file(repo: Seq<char>, entries: Seq<HfTreeEntry>, f: HfFileView) -> bool {
    exists|j: int|
        #![trigger entries[j]]
        0 <= j < entries.len() && f == (HfFileView {
            filename: entries[j].path@,
            size_bytes: match entries[j].lfs_size {
                Some(s) => s,
                None => match entries[j].size {
                    Some(s) => s,
                    None => 0,
                },
            },
            download_url: "https://huggingface.co/"@ + repo + "/resolve/main/"@ + entries[j].path@,
            quant_name: quant_name(entries[j].path@),
        })
}

/// What the quant picker offers from a repository listing, whatever the listing:
/// only `.gguf` files at the top of the repository whose lower-cased name mentions
/// none of `mmproj`, `ternary`, `tq1` and `tq2`; each offer is that of a file of
/// the listing (see `offer_of_listed_file`); every such file of the listing is
/// offered; and the offers come smallest first.
pub proof fn lemma_offered_files(repo: Seq<char>, entries: Seq<HfTreeEntry>, r: Seq<HfFileView>)
    requires
        stable_sorted_by_size(r, hf_candidates(repo, entries)),
    ensures
        forall|i: int|
            0 <= i < r.len() ==> {
                let p = #[trigger] r[i].filename;
                &&& has_suffix(p, ".gguf"@)
                &&& !p.contains('/')
                &&& !occurs(lowercase(p), "mmproj"@)
                &&& !occurs(lowercase(p), "ternary"@)
                &&& !occurs(lowercase(p), "tq1"@)
                &&& !occurs(lowercase(p), "tq2"@)
            },
        forall|i: int| 0 <= i < r.len() ==> offer_of_listed_file(repo, entries, #[trigger] r[i]),
        forall|j: int|
            0 <= j < entries.len() && has_suffix(#[trigger] entries[j].path@, ".gguf"@)
                && !entries[j].path@.contains('/') && !occurs(lowercase(entries[j].path@), "mmproj"@)
                && !occurs(lowercase(entries[j].path@), "ternary"@) && !occurs(
                lowercase(entries[j].path@),
                "tq1"@,
            ) && !occurs(lowercase(entries[j].path@), "tq2"@) ==> exists|i: int|
                0 <= i < r.len() && r[i].filename == entries[j].path@,
        forall|i: int, k: int| 0 <= i <= k < r.len() ==> r[i].size_bytes <= r[k].size_bytes,
{
    assert forall|i: int| 0 <= i < r.len() implies {
        let p = #[trigger] r[i].filename;
        &&& has_suffix(p, ".gguf"@)
        &&& !p.contains('/')
        &&& !occurs(lowercase(p), "mmproj"@)
        &&& !occurs(lowercase(p), "ternary"@)
        &&& !occurs(lowercase(p), "tq1"@)
        &&& !occurs(lowercase(p), "tq2"@)
    } by {
        let j = lemma_offer_source(repo, entries, r, i);
    }
    assert forall|i: int| 0 <= i < r.len() implies offer_of_listed_file(repo, entries, #[trigger] r[i]) by {
        let j = lemma_offer_source(repo, entries, r, i);
        assert(r[i] == hf_file_view(repo, entries[j]));
    }
    assert forall|j: int|
        0 <= j < entries.len() && keeps_gguf_file(
            #[trigger] entries[j].path@,
            lowercase(entries[j].path@),
        ) implies exists|i: int| 0 <= i < r.len() && r[i].filename == entries[j].path@ by {
        let i = lemma_listed_is_offered(repo, entries, r, j);
    }
}

#[verifier::spinoff_prover]
proof fn lemma_offer_source(repo: Seq<char>, entries: Seq<HfTreeEntry>, r: Seq<HfFileView>, i: int) -> (j:
    int)
    requires
        stable_sorted_by_size(r, hf_candidates(repo, entries)),
        0 <= i < r.len(),
    ensures
        0 <= j < entries.len(),
        r[i] == hf_file_view(repo, entries[j]),
        keeps_gguf_file(entries[j].path@, lowercase(entries[j].path@)),
{
    let cands = hf_candidates(repo, entries);
    let k = r[i].size_bytes;
    let pk = |f: HfFileView| f.size_bytes == k;
    r.lemma_filter_contains(pk, i);
    assert(with_size(r, k) == with_size(cands, k));
    cands.lemma_filter_contains_rev(pk, r[i]);
    lemma_candidate_from_entry(repo, entries, r[i]);
    choose|j: int|
        0 <= j < entries.len() && r[i] == hf_file_view(repo, entries[j]) && keeps_gguf_file(
            entries[j].path@,
            lowercase(entries[j].path@),
        )
}

#[verifier::spinoff_prover]
proof fn lemma_listed_is_offered(repo: Seq<char>, entries: Seq<HfTreeEntry>, r: Seq<HfFileView>, j: int) -> (i:
    int)
    requires
        stable_sorted_by_size(r, hf_candidates(repo, entries)),
        0 <= j < entries.len(),
        keeps_gguf_file(entries[j].path@, lowercase(entries[j].path@)),
    ensures
        0 <= i < r.len(),
        r[i].filename == entries[j].path@,
{
    let cands = hf_candidates(repo, entries);
    let x = hf_file_view(repo, entries[j]);
    lemma_entry_to_candidate(repo, entries, j);
    let k = x.size_bytes;
    let pk = |f: HfFileView| f.size_bytes == k;
    let c = choose|c: int| 0 <= c < cands.len() && cands[c] == x;
    cands.lemma_filter_contains(pk, c);
    assert(with_size(r, k) == with_size(cands, k));
    r.lemma_filter_contains_rev(pk, x);
    choose|i: int| 0 <= i < r.len() && r[i] == x
}

} // verus!

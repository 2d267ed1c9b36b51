use vstd::prelude::*;

use crate::catalog::{
    catalog_model, clone_opt_string, find_model, opt_model_view, ModelInfo, ModelInfoView,
};
use crate::clock::{clock_error, clock_error_text, is_utc_rfc3339, now_rfc3339};
use crate::browse::join_with;
use crate::registry::{in_slot, without_slot, InstalledModel, InstalledModelView, ModelRegistry};
use crate::text::{
    chars_of, contains, decimal, find_first, occurs, occurs_at, opt_view, str_equals, string_of,
    string_of_range,
    u64_decimal,
};

verus! {

/// Sent when a download (and any extraction) finished and the model was recorded.
#[derive(Debug)]
pub struct DownloadCompleteEvent {
    pub model_id: String,
}

/// Sent when a download failed; the error is empty for a cancelled download.
#[derive(Debug)]
pub struct DownloadErrorEvent {
    pub model_id: String,
    pub error: String,
}

/// Bytes in a mebibyte.
pub const MIB: u64 = 1048576;

/// What a catalog download fetches: the model, the backend it is for, the URL, the
/// file name it is saved as, and the expected size in MiB (0 when unknown).
#[derive(Debug)]
pub struct DownloadPlan {
    pub model: ModelInfo,
    pub backend: String,
    pub url: String,
    pub filename: String,
    pub size_mb: u64,
}

pub struct DownloadPlanView {
    pub model: ModelInfoView,
    pub backend: Seq<char>,
    pub url: Seq<char>,
    pub filename: Seq<char>,
    pub size_mb: u64,
}

impl View for DownloadPlan {
    type V = DownloadPlanView;

    open spec fn view(&self) -> DownloadPlanView {
        DownloadPlanView {
            model: self.model@,
            backend: self.backend@,
            url: self.url@,
            filename: self.filename@,
            size_mb: self.size_mb,
        }
    }
}

/// The part of `s` after its last `/` (all of `s` when it has none).
pub open spec fn after_last_slash(s: Seq<char>) -> Seq<char>
    decreases s.len(),
{
    if s.len() == 0 {
        Seq::empty()
    } else if s.last() == '/' {
        Seq::empty()
    } else {
        after_last_slash(s.drop_last()).push(s.last())
    }
}

/// The part of `s` before its first `/` (all of `s` when it has none).
pub open spec fn before_first_slash(s: Seq<char>) -> Seq<char>
    decreases s.len(),
{
    if s.len() == 0 {
        Seq::empty()
    } else if s[0] == '/' {
        Seq::empty()
    } else {
        seq![s[0]] + before_first_slash(s.drop_first())
    }
}

/// The URL a catalog model is downloaded from for a backend: the given URL; else the
/// model's URL for `llama_cpp` or `cactus`; else an error.
pub open spec fn resolve_url(
    id: Seq<char>,
    m: ModelInfoView,
    backend: Seq<char>,
    url: Option<Seq<char>>,
) -> Result<Seq<char>, Seq<char>> {
    match url {
        Some(u) => Ok(u),
        None => if backend == "llama_cpp"@ {
            match m.llama_cpp_url {
                Some(u) => Ok(u),
                None => Err("No llama.cpp URL configured for "@ + id),
            }
        } else if backend == "cactus"@ {
            match m.cactus_url {
                Some(u) => Ok(u),
                None => Err("No cactus URL configured for "@ + id),
            }
        } else {
            Err("Unknown backend: "@ + backend)
        },
    }
}

/// What downloading catalog model `id` fetches: the model's default backend unless
/// one is given; the URL as `resolve_url` says; the given file name, else the last
/// part of the URL; the given size in whole MiB, else the catalog size for the
/// backend, else 0. An unknown model is an error.
pub open spec fn download_plan(
    id: Seq<char>,
    backend: Option<Seq<char>>,
    filename: Option<Seq<char>>,
    url: Option<Seq<char>>,
    size_bytes: Option<u64>,
) -> Result<DownloadPlanView, Seq<char>> {
    match catalog_model(id) {
        None => Err("Unknown model: "@ + id),
        Some(m) => {
            let b = match backend {
                Some(b) => b,
                None => m.default_backend,
            };
            match resolve_url(id, m, b, url) {
                Err(e) => Err(e),
                Ok(u) => Ok(
                    DownloadPlanView {
                        model: m,
                        backend: b,
                        url: u,
                        filename: match filename {
                            Some(f) => f,
                            None => after_last_slash(u),
                        },
                        size_mb: match size_bytes {
                            Some(n) => (n / 1048576) as u64,
                            None => match (if b == "cactus"@ {
                                m.cactus_size_mb
                            } else {
                                m.llama_cpp_size_mb
                            }) {
                                Some(s) => s,
                                None => 0,
                            },
                        },
                    },
                ),
            }
        },
    }
}

pub open spec fn plan_result_view(r: Result<DownloadPlan, String>) -> Result<DownloadPlanView, Seq<char>> {
    match r {
        Ok(p) => Ok(p@),
        Err(e) => Err(e@),
    }
}

/// The part of `s` after its last `/`.
pub fn last_path_part(s: &str) -> (r: String)
    ensures
        r@ == after_last_slash(s@),
{
    let v = chars_of(s);
    let mut i = v.len();
    assert(v@.take(i as int) == v@);
    assert(v@.subrange(i as int, i as int) == Seq::<char>::empty());
    assert(after_last_slash(v@) == after_last_slash(v@.take(i as int)) + Seq::<char>::empty());
    while i > 0 && v[i - 1] != '/'
        invariant
            i <= v@.len(),
            v@ == s@,
            after_last_slash(v@) == after_last_slash(v@.take(i as int)) + v@.subrange(
                i as int,
                v@.len() as int,
            ),
        decreases i,
    {
        assert(v@.take(i as int).drop_last() == v@.take(i - 1));
        assert(v@.subrange(i - 1, v@.len() as int) == seq![v@[i - 1]] + v@.subrange(
            i as int,
            v@.len() as int,
        ));
        i = i - 1;
    }
    assert(v@.take(v@.len() as int) == v@);
    assert(v@.subrange(v@.len() as int, v@.len() as int) == Seq::<char>::empty());
    string_of_range(&v, i, v.len())
}

/// The part of `s` before its first `/`.
pub fn first_path_part(s: &str) -> (r: String)
    ensures
        r@ == before_first_slash(s@),
{
    let v = chars_of(s);
    let mut i: usize = 0;
    assert(v@.skip(0) == v@);
    while i < v.len() && v[i] != '/'
        invariant
            i <= v@.len(),
            v@ == s@,
            before_first_slash(v@) == v@.take(i as int) + before_first_slash(v@.skip(i as int)),
        decreases v@.len() - i,
    {
        assert(v@.skip(i as int).drop_first() == v@.skip(i + 1));
        assert(v@.take(i + 1) == v@.take(i as int) + seq![v@[i as int]]);
        i = i + 1;
    }
    if i < v.len() {
        assert(v@.skip(i as int)[0] == '/');
    } else {
        assert(v@.skip(i as int) == Seq::<char>::empty());
    }
    let r = string_of_range(&v, 0, i);
    assert(v@.subrange(0, i as int) == v@.take(i as int));
    r
}

fn message_with(prefix: &str, detail: &str) -> (r: String)
    ensures
        r@ == prefix@ + detail@,
{
    let mut r = prefix.to_owned();
    r.append(detail);
    r
}

/// What a download of catalog model `id` fetches (see `download_plan`).
pub fn plan_download(
    model_id: &str,
    backend: Option<String>,
    filename: Option<String>,
    url: Option<String>,
    size_bytes: Option<u64>,
) -> (r: Result<DownloadPlan, String>)
    ensures
        plan_result_view(r) == download_plan(
            model_id@,
            opt_view(backend),
            opt_view(filename),
            opt_view(url),
            size_bytes,
        ),
{
    let model = match find_model(model_id) {
        Some(m) => m,
        None => {
            return Err(message_with("Unknown model: ", model_id));
        },
    };
    let selected: String = match backend {
        Some(b) => b,
        None => model.default_backend.clone(),
    };
    let resolved: String = match url {
        Some(u) => u,
        None => {
            if str_equals(selected.as_str(), "llama_cpp") {
                match clone_opt_string(&model.llama_cpp_url) {
                    Some(u) => u,
                    None => {
                        return Err(message_with("No llama.cpp URL configured for ", model_id));
                    },
                }
            } else if str_equals(selected.as_str(), "cactus") {
                match clone_opt_string(&model.cactus_url) {
                    Some(u) => u,
                    None => {
                        return Err(message_with("No cactus URL configured for ", model_id));
                    },
                }
            } else {
                return Err(message_with("Unknown backend: ", selected.as_str()));
            }
        },
    };
    let fname: String = match filename {
        Some(f) => f,
        None => last_path_part(resolved.as_str()),
    };
    let size_mb: u64 = match size_bytes {
        Some(n) => n / MIB,
        None => {
            let catalog_size = if str_equals(selected.as_str(), "cactus") {
                model.cactus_size_mb
            } else {
                model.llama_cpp_size_mb
            };
            match catalog_size {
                Some(s) => s,
                None => 0,
            }
        },
    };
    Ok(DownloadPlan { model, backend: selected, url: resolved, filename: fname, size_mb })
}

/// `s` with each `/` written as `--`.
pub open spec fn slash_to_dashes(s: Seq<char>) -> Seq<char>
    decreases s.len(),
{
    if s.len() == 0 {
        Seq::empty()
    } else if s.last() == '/' {
        slash_to_dashes(s.drop_last()) + seq!['-', '-']
    } else {
        slash_to_dashes(s.drop_last()).push(s.last())
    }
}

/// `s` with each `/` written as `--` (`str::replace('/', "--")`).
pub fn replace_slashes(s: &str) -> (r: String)
    ensures
        r@ == slash_to_dashes(s@),
{
    let v = chars_of(s);
    let mut out: Vec<char> = Vec::new();
    let mut i: usize = 0;
    while i < v.len()
        invariant
            i <= v@.len(),
            v@ == s@,
            out@ == slash_to_dashes(v@.take(i as int)),
        decreases v@.len() - i,
    {
        assert(v@.take(i + 1).drop_last() == v@.take(i as int));
        if v[i] == '/' {
            out.push('-');
            out.push('-');
            assert(out@ == slash_to_dashes(v@.take(i as int)) + seq!['-', '-']);
        } else {
            out.push(v[i]);
        }
        i = i + 1;
    }
    assert(v@.take(v@.len() as int) == v@);
    string_of(&out)
}

/// The catalog entry made up for a model downloaded straight from Hugging Face
/// repository `repo` (`owner/name`): its id is the repository with `/` written as
/// `--`, its name the part after the last `/`, its provider the part before the
/// first `/`; it can chat, and the URL is recorded for the chosen backend only.
pub open spec fn hf_model_view(
    repo: Seq<char>,
    filename: Seq<char>,
    url: Seq<char>,
    backend: Seq<char>,
) -> ModelInfoView {
    ModelInfoView {
        id: slash_to_dashes(repo),
        display_name: after_last_slash(repo),
        provider: before_first_slash(repo),
        repo,
        capabilities: seq!["chat"@],
        filename,
        description: "Custom model from "@ + repo,
        default_backend: backend,
        llama_cpp_url: if backend == "llama_cpp"@ {
            Some(url)
        } else {
            None
        },
        llama_cpp_size_mb: None,
        llama_cpp_quant: None,
        cactus_url: if backend == "cactus"@ {
            Some(url)
        } else {
            None
        },
        cactus_size_mb: None,
    }
}

/// The catalog entry for a model downloaded straight from Hugging Face (see `hf_model_view`).
pub fn hf_model_info(repo: &str, filename: &str, url: &str, backend: &str) -> (r: ModelInfo)
    ensures
        r@ == hf_model_view(repo@, filename@, url@, backend@),
{
    let mut caps: Vec<String> = Vec::new();
    caps.push("chat".to_owned());
    let r = ModelInfo {
        id: replace_slashes(repo),
        display_name: last_path_part(repo),
        provider: first_path_part(repo),
        repo: repo.to_owned(),
        capabilities: caps,
        filename: filename.to_owned(),
        description: message_with("Custom model from ", repo),
        default_backend: backend.to_owned(),
        llama_cpp_url: if str_equals(backend, "llama_cpp") {
            Some(url.to_owned())
        } else {
            None
        },
        llama_cpp_size_mb: None,
        llama_cpp_quant: None,
        cactus_url: if str_equals(backend, "cactus") {
            Some(url.to_owned())
        } else {
            None
        },
        cactus_size_mb: None,
    };
    assert(crate::catalog::string_views(r.capabilities@) =~= seq!["chat"@]);
    r
}

/// The registry entry for a model file that was downloaded at time `now`: `info`
/// with `filename` as its file, the file's size, the backend, and `now`.
pub fn installed_entry_at(
    info: ModelInfo,
    filename: String,
    file_size: u64,
    backend: String,
    now: String,
) -> (m: InstalledModel)
    ensures
        m.info@ == (ModelInfoView { filename: filename@, ..info@ }),
        m.file_size_bytes == file_size,
        m.backend@ == backend@,
        m.downloaded_at@ == now@,
{
    let mut info = info;
    info.filename = filename;
    InstalledModel { info, file_size_bytes: file_size, downloaded_at: now, backend }
}

/// The registry entry for a model file that has been downloaded, stamped with the
/// current time (see `installed_entry_at`); an error when the system clock gives
/// no time.
pub fn installed_entry(info: ModelInfo, filename: String, file_size: u64, backend: String) -> (r:
    Result<InstalledModel, String>)
    ensures
        match r {
            Ok(m) => {
                &&& m.info@ == (ModelInfoView { filename: filename@, ..info@ })
                &&& m.file_size_bytes == file_size
                &&& m.backend@ == backend@
                &&& is_utc_rfc3339(m.downloaded_at@)
            },
            Err(e) => e@ == clock_error(),
        },
{
    match now_rfc3339() {
        Some(now) => Ok(installed_entry_at(info, filename, file_size, backend, now)),
        None => Err(clock_error_text()),
    }
}

/// Model `id` is recorded in `reg` as installed for `backend`.
pub open spec fn registered(reg: Seq<InstalledModelView>, id: Seq<char>, backend: Seq<char>) -> bool {
    exists|i: int| 0 <= i < reg.len() && in_slot(#[trigger] reg[i], id, backend)
}

/// A catalog model's file is already in the models folder when its download is
/// asked for: if the registry records the model for the plan's backend, that is an
/// error and nothing changes; otherwise the file is adopted, recorded as the
/// installation of the plan's model (see `installed_entry`) with the file's size,
/// unless the system clock gives no time (an error, and nothing changes).
pub fn adopt_existing_file(reg: &mut ModelRegistry, model_id: &str, plan: DownloadPlan, file_size: u64) -> (r:
    Result<(), String>)
    ensures
        registered(old(reg)@, model_id@, plan@.backend) ==> r is Err,
        r is Err ==> final(reg)@ == old(reg)@,
        match r {
            Err(e) => if registered(old(reg)@, model_id@, plan@.backend) {
                e@ == "Model "@ + model_id@ + " is already downloaded"@
            } else {
                e@ == clock_error()
            },
            Ok(()) => {
                let m = final(reg)@.last();
                &&& !registered(old(reg)@, model_id@, plan@.backend)
                &&& final(reg)@ == without_slot(old(reg)@, plan@.model.id, plan@.backend).push(m)
                &&& m.info == (ModelInfoView { filename: plan@.filename, ..plan@.model })
                &&& m.file_size_bytes == file_size
                &&& m.backend == plan@.backend
                &&& is_utc_rfc3339(m.downloaded_at)
            },
        },
{
    if reg.is_registered(model_id, plan.backend.as_str()) {
        return Err(already_downloaded_error(model_id));
    }
    let entry = installed_entry(plan.model, plan.filename, file_size, plan.backend)?;
    reg.record_install(entry);
    Ok(())
}

/// How far the unpacking of an archive has come: the bytes written so far, and
/// the count at which progress was last reported.
pub struct ExtractionProgress {
    pub extracted: u64,
    pub last_reported: u64,
}

impl ExtractionProgress {
    /// Nothing written, nothing reported.
    pub fn new() -> (p: ExtractionProgress)
        ensures
            p.extracted == 0,
            p.last_reported == 0,
    {
        ExtractionProgress { extracted: 0, last_reported: 0 }
    }

    /// `n` more bytes were written. Progress is due when at least 1 MiB was written
    /// since it was last reported; the report is then counted as made. Returns
    /// whether it is due.
    pub fn advance(&mut self, n: u64) -> (due: bool)
        requires
            old(self).last_reported <= old(self).extracted,
            old(self).extracted + n <= u64::MAX,
        ensures
            final(self).extracted == old(self).extracted + n,
            due == (final(self).extracted - old(self).last_reported >= 1048576),
            final(self).last_reported == if due {
                final(self).extracted
            } else {
                old(self).last_reported
            },
    {
        self.extracted = self.extracted + n;
        let due = self.extracted - self.last_reported >= MIB;
        if due {
            self.last_reported = self.extracted;
        }
        due
    }
}

/// Whole mebibytes in `bytes` (rounded down).
pub fn whole_mib(bytes: u64) -> (r: u64)
    ensures
        r == bytes / 1048576,
{
    bytes / MIB
}

/// The total size a download reports progress against: the length the server
/// announced, else the expected size in MiB converted to bytes.
pub fn download_total(content_length: Option<u64>, expected_size_mb: u64) -> (n: u64)
    requires
        expected_size_mb * 1048576 <= u64::MAX,
    ensures
        n == match content_length {
            Some(l) => l,
            None => (expected_size_mb * 1048576) as u64,
        },
{
    let fallback = expected_size_mb * MIB;
    match content_length {
        Some(l) => l,
        None => fallback,
    }
}

/// A finished download is accepted when the total is unknown (0) or at least 95%
/// (rounded down) of it arrived; else it is an error naming both sizes.
pub open spec fn download_size_check(actual: u64, total: u64) -> Result<(), Seq<char>> {
    if total > 0 && actual < total * 95 / 100 {
        Err("Download incomplete: got "@ + decimal(actual as nat) + " of "@ + decimal(total as nat)
            + " bytes"@)
    } else {
        Ok(())
    }
}

/// Whether a finished download is complete enough (see `download_size_check`).
pub fn check_download_size(actual: u64, total: u64) -> (r: Result<(), String>)
    requires
        total * 95 <= u64::MAX,
    ensures
        match r {
            Ok(()) => download_size_check(actual, total) is Ok,
            Err(e) => download_size_check(actual, total) == Err::<(), Seq<char>>(e@),
        },
{
    if total > 0 && actual < total * 95 / 100 {
        let mut e = "Download incomplete: got ".to_owned();
        e.append(string_of(&u64_decimal(actual)).as_str());
        e.append(" of ");
        e.append(string_of(&u64_decimal(total)).as_str());
        e.append(" bytes");
        Err(e)
    } else {
        Ok(())
    }
}

/// The error shown for a failed download: nothing for a cancelled one (its error
/// mentions `cancelled`), else the error itself.
pub fn download_error_text(err: &str) -> (r: String)
    ensures
        r@ == if occurs(err@, "cancelled"@) {
            Seq::<char>::empty()
        } else {
            err@
        },
{
    if contains(&chars_of(err), &chars_of("cancelled")) {
        String::new()
    } else {
        err.to_owned()
    }
}

/// The error shown for a failed extraction: nothing for a cancelled one, else
/// `Extraction failed: ` and the error.
pub fn extraction_error_text(err: &str) -> (r: String)
    ensures
        r@ == if occurs(err@, "cancelled"@) {
            Seq::<char>::empty()
        } else {
            "Extraction failed: "@ + err@
        },
{
    if contains(&chars_of(err), &chars_of("cancelled")) {
        String::new()
    } else {
        message_with("Extraction failed: ", err)
    }
}

/// The error for a download whose file is already there: `File {filename} already exists`.
pub fn file_exists_error(filename: &str) -> (r: String)
    ensures
        r@ == "File "@ + filename@ + " already exists"@,
{
    let mut r = message_with("File ", filename);
    r.append(" already exists");
    r
}

/// The error for a catalog model that is already downloaded for the backend:
/// `Model {id} is already downloaded`.
pub fn already_downloaded_error(model_id: &str) -> (r: String)
    ensures
        r@ == "Model "@ + model_id@ + " is already downloaded"@,
{
    let mut r = message_with("Model ", model_id);
    r.append(" is already downloaded");
    r
}


/// The `/`-separated parts of `s` (`str::split('/')`): one more part than there are
/// slashes, possibly empty.
pub open spec fn slash_parts(s: Seq<char>) -> Seq<Seq<char>>
    decreases s.len(),
{
    if s.len() == 0 {
        seq![Seq::<char>::empty()]
    } else {
        let p = slash_parts(s.drop_last());
        if s.last() == '/' {
            p.push(Seq::empty())
        } else {
            p.update(p.len() - 1, p.last().push(s.last()))
        }
    }
}

proof fn lemma_slash_parts_nonempty(s: Seq<char>)
    ensures
        slash_parts(s).len() >= 1,
    decreases s.len(),
{
    if s.len() > 0 {
        lemma_slash_parts_nonempty(s.drop_last());
    }
}

/// A path part that is kept when an archive entry is unpacked: not empty and not `..`.
pub open spec fn keep_part(p: Seq<char>) -> bool {
    p.len() > 0 && p != seq!['.', '.']
}

/// The `/`-separated parts of an archive entry's name without empty parts and `..`.
pub open spec fn kept_parts(name: Seq<char>) -> Seq<Seq<char>> {
    slash_parts(name).filter(|p: Seq<char>| keep_part(p))
}

/// The parts of the path an archive entry is unpacked at: its kept parts, less the
/// leading directory when there is more than one, so that files land directly in
/// the target directory.
pub open spec fn entry_parts(name: Seq<char>) -> Seq<Seq<char>> {
    let ks = kept_parts(name);
    if ks.len() > 1 {
        ks.skip(1)
    } else {
        ks
    }
}

/// Where an archive entry named `name` is unpacked, relative to the target
/// directory: its entry parts joined by `/`, so that no entry lands outside the
/// target directory.
pub open spec fn sanitized_entry_path(name: Seq<char>) -> Seq<char> {
    join_with(entry_parts(name), "/"@)
}

proof fn lemma_join_push(xs: Seq<Seq<char>>, x: Seq<char>, sep: Seq<char>)
    ensures
        join_with(xs.push(x), sep) == if xs.len() == 0 {
            x
        } else {
            join_with(xs, sep) + sep + x
        },
{
    assert(xs.push(x).drop_last() == xs);
    if xs.len() == 0 {
        assert(xs.push(x)[0] == x);
    }
}

/// Appends part `cur` to the joined parts `out` when it is kept.
fn add_part(out: &mut Vec<char>, cur: &Vec<char>, any: bool) -> (kept: bool)
    ensures
        kept == keep_part(cur@),
        kept ==> final(out)@ == if any {
            old(out)@ + "/"@ + cur@
        } else {
            cur@
        },
        !kept ==> final(out)@ == old(out)@,
{
    let is_dots = cur.len() == 2 && cur[0] == '.' && cur[1] == '.';
    assert(is_dots == (cur@ == seq!['.', '.'])) by {
        if cur@ == seq!['.', '.'] {
            assert(cur@[0] == '.' && cur@[1] == '.');
        }
        if is_dots {
            assert(cur@ =~= seq!['.', '.']);
        }
    }
    if cur.len() == 0 || is_dots {
        return false;
    }
    if any {
        out.push('/');
        proof {
            reveal_strlit("/");
        }
        assert(out@ == old(out)@ + "/"@);
        let mut i: usize = 0;
        while i < cur.len()
            invariant
                i <= cur@.len(),
                out@ == old(out)@ + "/"@ + cur@.take(i as int),
            decreases cur@.len() - i,
        {
            out.push(cur[i]);
            assert(cur@.take(i + 1) == cur@.take(i as int).push(cur@[i as int]));
            i = i + 1;
        }
        assert(cur@.take(cur@.len() as int) == cur@);
    } else {
        out.clear();
        let mut i: usize = 0;
        while i < cur.len()
            invariant
                i <= cur@.len(),
                out@ == cur@.take(i as int),
            decreases cur@.len() - i,
        {
            out.push(cur[i]);
            assert(cur@.take(i + 1) == cur@.take(i as int).push(cur@[i as int]));
            i = i + 1;
        }
        assert(cur@.take(cur@.len() as int) == cur@);
    }
    true
}

/// The kept parts of an archive entry's name, joined by `/`.
fn join_kept_parts(name: &str) -> (r: Vec<char>)
    ensures
        r@ == join_with(kept_parts(name@), "/"@),
{
    let v = chars_of(name);
    let ghost keep = |p: Seq<char>| keep_part(p);
    let mut out: Vec<char> = Vec::new();
    let mut cur: Vec<char> = Vec::new();
    let mut any = false;
    let mut i: usize = 0;
    while i < v.len()
        invariant
            i <= v@.len(),
            v@ == name@,
            keep == (|p: Seq<char>| keep_part(p)),
            slash_parts(v@.take(i as int)).len() >= 1,
            cur@ == slash_parts(v@.take(i as int)).last(),
            out@ == join_with(slash_parts(v@.take(i as int)).drop_last().filter(keep), "/"@),
            any == (slash_parts(v@.take(i as int)).drop_last().filter(keep).len() > 0),
        decreases v@.len() - i,
    {
        let ghost ps = slash_parts(v@.take(i as int));
        let ghost done = ps.drop_last().filter(keep);
        assert(v@.take(i + 1).drop_last() == v@.take(i as int));
        proof {
            lemma_slash_parts_nonempty(v@.take(i as int));
        }
        if v[i] == '/' {
            let kept = add_part(&mut out, &cur, any);
            proof {
                let ps2 = slash_parts(v@.take(i + 1));
                assert(ps2 == ps.push(Seq::<char>::empty()));
                assert(ps2.drop_last() == ps);
                assert(ps == ps.drop_last().push(ps.last()));
                ps.drop_last().lemma_filter_push(ps.last(), keep);
                if kept {
                    lemma_join_push(done, cur@, "/"@);
                }
            }
            if kept {
                any = true;
            }
            cur = Vec::new();
        } else {
            let ghost before = cur@;
            cur.push(v[i]);
            proof {
                let ps2 = slash_parts(v@.take(i + 1));
                assert(ps2.drop_last() =~= ps.drop_last());
                assert(ps2.last() == before.push(v@[i as int]));
            }
        }
        i = i + 1;
    }
    assert(v@.take(v@.len() as int) == v@);
    let ghost ps = slash_parts(v@);
    proof {
        lemma_slash_parts_nonempty(v@);
        assert(ps == ps.drop_last().push(ps.last()));
        ps.drop_last().lemma_filter_push(ps.last(), keep);
    }
    let ghost done = ps.drop_last().filter(keep);
    let kept = add_part(&mut out, &cur, any);
    proof {
        if kept {
            lemma_join_push(done, cur@, "/"@);
        }
    }
    out
}

/// Joining two or more parts: the first, a `/`, and the rest joined.
proof fn lemma_join_first(ks: Seq<Seq<char>>)
    requires
        ks.len() >= 2,
    ensures
        join_with(ks, "/"@) == ks[0] + "/"@ + join_with(ks.skip(1), "/"@),
    decreases ks.len(),
{
    let sep = "/"@;
    if ks.len() == 2 {
        assert(ks.skip(1).len() == 1);
        assert(join_with(ks.skip(1), sep) == ks.skip(1)[0]);
        assert(ks.skip(1)[0] == ks[1]);
        assert(ks.drop_last().len() == 1);
        assert(join_with(ks.drop_last(), sep) == ks.drop_last()[0]);
        assert(ks.drop_last()[0] == ks[0]);
        assert(join_with(ks, sep) == join_with(ks.drop_last(), sep) + sep + ks.last());
    } else {
        let d = ks.drop_last();
        lemma_join_first(d);
        assert(d.skip(1) =~= ks.skip(1).drop_last());
        assert(ks.skip(1).last() == ks.last());
        assert(d[0] == ks[0]);
        let a = ks[0];
        let c = join_with(d.skip(1), sep);
        assert(join_with(ks, sep) == join_with(d, sep) + sep + ks.last());
        assert(join_with(ks.skip(1), sep) == join_with(ks.skip(1).drop_last(), sep) + sep + ks.skip(1).last());
        assert(a + sep + c + sep + ks.last() =~= a + sep + (c + sep + ks.last()));
    }
}

/// No kept part holds a `/`.
proof fn lemma_kept_parts_plain(name: Seq<char>)
    ensures
        forall|i: int| 0 <= i < kept_parts(name).len() ==> !(#[trigger] kept_parts(name)[i]).contains('/') && keep_part(kept_parts(name)[i]),
{
    let keep = |p: Seq<char>| keep_part(p);
    let ps = slash_parts(name);
    let ks = ps.filter(keep);
    lemma_parts_have_no_slash(name);
    assert forall|i: int| 0 <= i < ks.len() implies !(#[trigger] ks[i]).contains('/') && keep_part(ks[i]) by {
        ps.lemma_filter_pred(keep, i);
        assert(ks.contains(ks[i]));
        ps.lemma_filter_contains_rev(keep, ks[i]);
        let j = choose|j: int| 0 <= j < ps.len() && ps[j] == ks[i];
        assert(!(slash_parts(name)[j]).contains('/'));
    }
}

/// Parts without `/` joined by `/` hold no `/` when there is at most one.
proof fn lemma_join_single_plain(ks: Seq<Seq<char>>)
    requires
        ks.len() <= 1,
        forall|i: int| 0 <= i < ks.len() ==> !(#[trigger] ks[i]).contains('/'),
    ensures
        !join_with(ks, "/"@).contains('/'),
{
    if ks.len() == 1 {
        assert(!ks[0].contains('/'));
    }
}

/// Where an archive entry is unpacked (see `sanitized_entry_path`).
pub fn sanitize_entry_path(name: &str) -> (r: String)
    ensures
        r@ == sanitized_entry_path(name@),
{
    let joined = join_kept_parts(name);
    let slash: Vec<char> = vec!['/'];
    let ghost ks = kept_parts(name@);
    proof {
        reveal_strlit("/");
        lemma_kept_parts_plain(name@);
        if ks.len() >= 2 {
            lemma_join_first(ks);
            let n = ks[0].len() as int;
            assert(joined@[n] == '/');
            assert(joined@.subrange(n, n + 1) =~= slash@);
            assert(occurs_at(joined@, slash@, n));
            assert forall|k: int| 0 <= k < n implies !occurs_at(joined@, slash@, k) by {
                assert(joined@[k] == ks[0][k]);
                assert(!ks[0].contains('/'));
                if occurs_at(joined@, slash@, k) {
                    assert(joined@.subrange(k, k + 1)[0] == joined@[k]);
                }
            }
            assert(joined@.subrange(n + 1, joined@.len() as int) =~= join_with(ks.skip(1), "/"@));
        } else {
            lemma_join_single_plain(ks);
            if occurs(joined@, slash@) {
                let k = choose|k: int| occurs_at(joined@, slash@, k);
                assert(joined@.subrange(k, k + 1)[0] == joined@[k]);
                assert(joined@.contains(joined@[k]));
            }
        }
    }
    match find_first(&joined, &slash) {
        Some(i) => {
            assert(slash@.len() == 1);
            assert(occurs_at(joined@, slash@, i as int));
            let n = joined.len();
            assert(i < n);
            string_of_range(&joined, i + 1, n)
        },
        None => string_of(&joined),
    }
}


/// No part of `slash_parts(s)` holds a `/`.
proof fn lemma_parts_have_no_slash(s: Seq<char>)
    ensures
        forall|i: int| 0 <= i < slash_parts(s).len() ==> !(#[trigger] slash_parts(s)[i]).contains('/'),
    decreases s.len(),
{
    if s.len() > 0 {
        lemma_parts_have_no_slash(s.drop_last());
        lemma_slash_parts_nonempty(s.drop_last());
        let p = slash_parts(s.drop_last());
        if s.last() != '/' {
            assert forall|i: int| 0 <= i < slash_parts(s).len() implies !(
            #[trigger] slash_parts(s)[i]).contains('/') by {
                if i == p.len() - 1 {
                    let q = p.last().push(s.last());
                    assert forall|k: int| 0 <= k < q.len() implies q[k] != '/' by {
                        if k < p.last().len() {
                            assert(q[k] == p.last()[k]);
                            assert(p[p.len() - 1] == p.last());
                        }
                    }
                }
            }
        } else {
            assert forall|i: int| 0 <= i < slash_parts(s).len() implies !(
            #[trigger] slash_parts(s)[i]).contains('/') by {
                if i < p.len() {
                    assert(slash_parts(s)[i] == p[i]);
                }
            }
        }
    }
}

/// Appending text without `/` extends the last part.
proof fn lemma_parts_append_plain(p: Seq<char>, x: Seq<char>)
    requires
        !x.contains('/'),
    ensures
        slash_parts(p + x) == slash_parts(p).update(
            slash_parts(p).len() - 1,
            slash_parts(p).last() + x,
        ),
    decreases x.len(),
{
    lemma_slash_parts_nonempty(p);
    if x.len() == 0 {
        assert(p + x == p);
        assert(slash_parts(p).last() + x == slash_parts(p).last());
        assert(slash_parts(p).update(slash_parts(p).len() - 1, slash_parts(p).last())
            =~= slash_parts(p));
    } else {
        let y = x.drop_last();
        assert(!y.contains('/')) by {
            assert forall|k: int| 0 <= k < y.len() implies y[k] != '/' by {
                assert(y[k] == x[k]);
            }
        }
        lemma_parts_append_plain(p, y);
        assert((p + x).drop_last() == p + y);
        assert((p + x).last() == x.last());
        assert(x[x.len() - 1] != '/');
        lemma_slash_parts_nonempty(p + y);
        assert(slash_parts(p).last() + y + seq![x.last()] =~= slash_parts(p).last() + x);
        assert((slash_parts(p).last() + y).push(x.last()) =~= slash_parts(p).last() + x);
        assert(slash_parts(p + x) =~= slash_parts(p).update(
            slash_parts(p).len() - 1,
            slash_parts(p).last() + x,
        ));
    }
}

/// Splitting parts joined by `/` gives the parts back, when none holds a `/`.
proof fn lemma_split_join(xs: Seq<Seq<char>>)
    requires
        xs.len() >= 1,
        forall|i: int| 0 <= i < xs.len() ==> !(#[trigger] xs[i]).contains('/'),
    ensures
        slash_parts(join_with(xs, "/"@)) == xs,
    decreases xs.len(),
{
    reveal_strlit("/");
    if xs.len() == 1 {
        lemma_parts_append_plain(Seq::empty(), xs[0]);
        assert(Seq::<char>::empty() + xs[0] == xs[0]);
        assert(slash_parts(Seq::<char>::empty()) == seq![Seq::<char>::empty()]);
        assert(Seq::<char>::empty() + xs[0] =~= xs[0]);
        assert(seq![Seq::<char>::empty()].update(0, Seq::<char>::empty() + xs[0]) =~= xs);
    } else {
        let ys = xs.drop_last();
        let x = xs.last();
        assert forall|i: int| 0 <= i < ys.len() implies !(#[trigger] ys[i]).contains('/') by {
            assert(ys[i] == xs[i]);
        }
        lemma_split_join(ys);
        let a = join_with(ys, "/"@);
        assert(join_with(xs, "/"@) == a + "/"@ + x);
        let b = a + "/"@;
        assert(b.drop_last() == a);
        assert(b.last() == '/');
        lemma_parts_append_plain(b, x);
        assert(slash_parts(b) == ys.push(Seq::<char>::empty()));
        assert(Seq::<char>::empty() + x =~= x);
        assert(ys.push(Seq::<char>::empty()).update(ys.len() as int, x) =~= xs);
    }
}

/// An unpacked entry never leaves the target directory: every `/`-separated part
/// of its path is non-empty and not `..` (unless the path is empty, when the entry
/// is skipped).
pub proof fn lemma_sanitized_parts_are_safe(name: Seq<char>)
    ensures
        sanitized_entry_path(name).len() > 0 ==> forall|i: int|
            0 <= i < slash_parts(sanitized_entry_path(name)).len() ==> {
                let part = #[trigger] slash_parts(sanitized_entry_path(name))[i];
                part.len() > 0 && part != seq!['.', '.']
            },
{
    let ks = kept_parts(name);
    let es = entry_parts(name);
    lemma_kept_parts_plain(name);
    if sanitized_entry_path(name).len() > 0 {
        if es.len() == 0 {
            assert(join_with(es, "/"@) == Seq::<char>::empty());
        }
        assert forall|i: int| 0 <= i < es.len() implies !(#[trigger] es[i]).contains('/') && keep_part(es[i]) by {
            if ks.len() > 1 {
                assert(es[i] == ks[i + 1]);
            }
        }
        lemma_split_join(es);
    }
}

} // verus!

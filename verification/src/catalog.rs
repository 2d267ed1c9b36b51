use vstd::prelude::*;

use crate::text::{has_prefix, opt_view, str_equals};

verus! {

/// A model of the built-in catalog, with where to get it for each backend.
#[derive(Debug)]
pub struct ModelInfo {
    pub id: String,
    pub display_name: String,
    pub provider: String,
    pub repo: String,
    pub capabilities: Vec<String>,
    pub filename: String,
    pub description: String,
    pub default_backend: String,
    pub llama_cpp_url: Option<String>,
    pub llama_cpp_size_mb: Option<u64>,
    pub llama_cpp_quant: Option<String>,
    pub cactus_url: Option<String>,
    pub cactus_size_mb: Option<u64>,
}

pub struct ModelInfoView {
    pub id: Seq<char>,
    pub display_name: Seq<char>,
    pub provider: Seq<char>,
    pub repo: Seq<char>,
    pub capabilities: Seq<Seq<char>>,
    pub filename: Seq<char>,
    pub description: Seq<char>,
    pub default_backend: Seq<char>,
    pub llama_cpp_url: Option<Seq<char>>,
    pub llama_cpp_size_mb: Option<u64>,
    pub llama_cpp_quant: Option<Seq<char>>,
    pub cactus_url: Option<Seq<char>>,
    pub cactus_size_mb: Option<u64>,
}

pub open spec fn string_views(v: Seq<String>) -> Seq<Seq<char>> {
    v.map_values(|s: String| s@)
}

impl View for ModelInfo {
    type V = ModelInfoView;

    open spec fn view(&self) -> ModelInfoView {
        ModelInfoView {
            id: self.id@,
            display_name: self.display_name@,
            provider: self.provider@,
            repo: self.repo@,
            capabilities: string_views(self.capabilities@),
            filename: self.filename@,
            description: self.description@,
            default_backend: self.default_backend@,
            llama_cpp_url: opt_view(self.llama_cpp_url),
            llama_cpp_size_mb: self.llama_cpp_size_mb,
            llama_cpp_quant: opt_view(self.llama_cpp_quant),
            cactus_url: opt_view(self.cactus_url),
            cactus_size_mb: self.cactus_size_mb,
        }
    }
}

pub open spec fn model_views(v: Seq<ModelInfo>) -> Seq<ModelInfoView> {
    v.map_values(|m: ModelInfo| m@)
}

/// A copy of an optional string.
pub fn clone_opt_string(o: &Option<String>) -> (r: Option<String>)
    ensures
        opt_view(r) == opt_view(*o),
{
    match o {
        Some(s) => Some(s.clone()),
        None => None,
    }
}

/// A copy of a list of strings.
pub fn clone_strings(v: &Vec<String>) -> (r: Vec<String>)
    ensures
        string_views(r@) == string_views(v@),
{
    let mut r: Vec<String> = Vec::new();
    let mut i: usize = 0;
    while i < v.len()
        invariant
            i <= v@.len(),
            r@.len() == i,
            string_views(r@) == string_views(v@.take(i as int)),
        decreases v@.len() - i,
    {
        let ghost before = r@;
        let c = v[i].clone();
        r.push(c);
        assert(v@.take(i + 1) == v@.take(i as int).push(v@[i as int]));
        assert(string_views(r@) =~= string_views(v@.take(i + 1))) by {
            assert(string_views(before) == string_views(v@.take(i as int)));
            assert forall|k: int| 0 <= k < i + 1 implies string_views(r@)[k] == string_views(
                v@.take(i + 1),
            )[k] by {
                if k < i {
                    assert(string_views(before)[k] == string_views(v@.take(i as int))[k]);
                    assert(r@[k] == before[k]);
                } else {
                    assert(r@[k] == c);
                }
            }
        }
        i = i + 1;
    }
    assert(v@.take(v@.len() as int) == v@);
    r
}

impl Clone for ModelInfo {
    fn clone(&self) -> (r: Self)
        ensures
            r@ == self@,
    {
        ModelInfo {
            id: self.id.clone(),
            display_name: self.display_name.clone(),
            provider: self.provider.clone(),
            repo: self.repo.clone(),
            capabilities: clone_strings(&self.capabilities),
            filename: self.filename.clone(),
            description: self.description.clone(),
            default_backend: self.default_backend.clone(),
            llama_cpp_url: clone_opt_string(&self.llama_cpp_url),
            llama_cpp_size_mb: self.llama_cpp_size_mb,
            llama_cpp_quant: clone_opt_string(&self.llama_cpp_quant),
            cactus_url: clone_opt_string(&self.cactus_url),
            cactus_size_mb: self.cactus_size_mb,
        }
    }
}

/// The built-in catalog, in display order.
pub open spec fn catalog() -> Seq<ModelInfoView> {
    seq![
        ModelInfoView {
            id: "gemma-3-1b-it"@,
            display_name: "Gemma-3-1B"@,
            provider: "Google"@,
            repo: "unsloth/gemma-3-1b-it-GGUF"@,
            capabilities: seq!["chat"@],
            filename: "gemma-3-1b-it-Q4_K_M.gguf"@,
            description: "Google's 1B instruction-tuned model from the Gemma 3 family. Extremely lightweight — runs on almost any hardware with minimal RAM."@,
            default_backend: "llama_cpp"@,
            llama_cpp_url: Some("https://huggingface.co/unsloth/gemma-3-1b-it-GGUF/resolve/main/gemma-3-1b-it-Q4_K_M.gguf"@),
            llama_cpp_size_mb: Some(806u64),
            llama_cpp_quant: Some("Q4_K_M"@),
            cactus_url: Some("https://huggingface.co/Cactus-Compute/gemma-3-1b-it/resolve/main/weights/gemma-3-1b-it-int4.zip"@),
            cactus_size_mb: Some(653u64),
        },
        ModelInfoView {
            id: "gemma-4-e2b-it"@,
            display_name: "Gemma-4-E2B"@,
            provider: "Google"@,
            repo: "unsloth/gemma-4-e2b-it-GGUF"@,
            capabilities: seq!["chat"@],
            filename: "gemma-4-e2b-it-Q4_K_M.gguf"@,
            description: "Google's Gemma 4 Edge 2B instruction-tuned model. Improved reasoning over Gemma 3 in a compact footprint suited for edge devices."@,
            default_backend: "llama_cpp"@,
            llama_cpp_url: Some("https://huggingface.co/unsloth/gemma-4-E2B-it-GGUF/resolve/main/gemma-4-E2B-it-Q4_K_M.gguf"@),
            llama_cpp_size_mb: Some(3111u64),
            llama_cpp_quant: Some("Q4_K_M"@),
            cactus_url: Some("https://huggingface.co/Cactus-Compute/gemma-4-E2B-it/resolve/main/weights/gemma-4-e2b-it-int4.zip"@),
            cactus_size_mb: Some(4680u64),
        },
        ModelInfoView {
            id: "Bonsai-8B"@,
            display_name: "Bonsai-8B"@,
            provider: "Prisma ML"@,
            repo: "prism-ml/Bonsai-8B-gguf"@,
            capabilities: seq!["chat"@],
            filename: "bonsai.gguf"@,
            description: "Prisma ML's 8B chat model optimized for efficiency. Stronger reasoning than smaller models while remaining practical on mid-range hardware."@,
            default_backend: "llama_cpp"@,
            llama_cpp_url: Some("https://huggingface.co/prism-ml/Bonsai-8B-gguf/resolve/main/Bonsai-8B.gguf"@),
            llama_cpp_size_mb: Some(1160u64),
            llama_cpp_quant: None,
            cactus_url: None,
            cactus_size_mb: None,
        },
    ]
}

/// The built-in model catalog.
pub fn get_catalog() -> (r: Vec<ModelInfo>)
    ensures
        model_views(r@) == catalog(),
{
    let mut v: Vec<ModelInfo> = Vec::new();
    let mut caps = Vec::new();
    caps.push("chat".to_owned());
    v.push(ModelInfo {
        id: "gemma-3-1b-it".to_owned(),
        display_name: "Gemma-3-1B".to_owned(),
        provider: "Google".to_owned(),
        repo: "unsloth/gemma-3-1b-it-GGUF".to_owned(),
        capabilities: caps,
        filename: "gemma-3-1b-it-Q4_K_M.gguf".to_owned(),
        description: "Google's 1B instruction-tuned model from the Gemma 3 family. Extremely lightweight — runs on almost any hardware with minimal RAM.".to_owned(),
        default_backend: "llama_cpp".to_owned(),
        llama_cpp_url: Some("https://huggingface.co/unsloth/gemma-3-1b-it-GGUF/resolve/main/gemma-3-1b-it-Q4_K_M.gguf".to_owned()),
        llama_cpp_size_mb: Some(806u64),
        llama_cpp_quant: Some("Q4_K_M".to_owned()),
        cactus_url: Some("https://huggingface.co/Cactus-Compute/gemma-3-1b-it/resolve/main/weights/gemma-3-1b-it-int4.zip".to_owned()),
        cactus_size_mb: Some(653u64),
    });
    let mut caps = Vec::new();
    caps.push("chat".to_owned());
    v.push(ModelInfo {
        id: "gemma-4-e2b-it".to_owned(),
        display_name: "Gemma-4-E2B".to_owned(),
        provider: "Google".to_owned(),
        repo: "unsloth/gemma-4-e2b-it-GGUF".to_owned(),
        capabilities: caps,
        filename: "gemma-4-e2b-it-Q4_K_M.gguf".to_owned(),
        description: "Google's Gemma 4 Edge 2B instruction-tuned model. Improved reasoning over Gemma 3 in a compact footprint suited for edge devices.".to_owned(),
        default_backend: "llama_cpp".to_owned(),
        llama_cpp_url: Some("https://huggingface.co/unsloth/gemma-4-E2B-it-GGUF/resolve/main/gemma-4-E2B-it-Q4_K_M.gguf".to_owned()),
        llama_cpp_size_mb: Some(3111u64),
        llama_cpp_quant: Some("Q4_K_M".to_owned()),
        cactus_url: Some("https://huggingface.co/Cactus-Compute/gemma-4-E2B-it/resolve/main/weights/gemma-4-e2b-it-int4.zip".to_owned()),
        cactus_size_mb: Some(4680u64),
    });
    let mut caps = Vec::new();
    caps.push("chat".to_owned());
    v.push(ModelInfo {
        id: "Bonsai-8B".to_owned(),
        display_name: "Bonsai-8B".to_owned(),
        provider: "Prisma ML".to_owned(),
        repo: "prism-ml/Bonsai-8B-gguf".to_owned(),
        capabilities: caps,
        filename: "bonsai.gguf".to_owned(),
        description: "Prisma ML's 8B chat model optimized for efficiency. Stronger reasoning than smaller models while remaining practical on mid-range hardware.".to_owned(),
        default_backend: "llama_cpp".to_owned(),
        llama_cpp_url: Some("https://huggingface.co/prism-ml/Bonsai-8B-gguf/resolve/main/Bonsai-8B.gguf".to_owned()),
        llama_cpp_size_mb: Some(1160u64),
        llama_cpp_quant: None,
        cactus_url: None,
        cactus_size_mb: None,
    });
    assert(model_views(v@) =~= catalog()) by {
        assert(string_views(v@[0].capabilities@) =~= seq!["chat"@]);
        assert(string_views(v@[1].capabilities@) =~= seq!["chat"@]);
        assert(string_views(v@[2].capabilities@) =~= seq!["chat"@]);
    }
    v
}

/// The first catalog entry whose id is `id`, at or after index `from`.
pub open spec fn find_in(models: Seq<ModelInfoView>, id: Seq<char>, from: int) -> Option<
    ModelInfoView,
>
    decreases models.len() - from,
{
    if from < 0 || from >= models.len() {
        None
    } else if models[from].id == id {
        Some(models[from])
    } else {
        find_in(models, id, from + 1)
    }
}

/// The catalog entry with id `id` (exact, case-sensitive match).
pub open spec fn catalog_model(id: Seq<char>) -> Option<ModelInfoView> {
    find_in(catalog(), id, 0)
}

pub open spec fn opt_model_view(o: Option<ModelInfo>) -> Option<ModelInfoView> {
    match o {
        Some(m) => Some(m@),
        None => None,
    }
}

/// The catalog entry whose id is `id`, if any.
pub fn find_model(id: &str) -> (r: Option<ModelInfo>)
    ensures
        opt_model_view(r) == catalog_model(id@),
{
    let models = get_catalog();
    let mut i: usize = 0;
    while i < models.len()
        invariant
            i <= models@.len(),
            model_views(models@) == catalog(),
            find_in(catalog(), id@, i as int) == catalog_model(id@),
        decreases models@.len() - i,
    {
        if str_equals(models[i].id.as_str(), id) {
            assert(catalog()[i as int] == models@[i as int]@);
            return Some(models[i].clone());
        }
        assert(catalog()[i as int] == models@[i as int]@);
        i = i + 1;
    }
    None
}


/// Catalog ids are unique.
pub open spec fn ids_unique(models: Seq<ModelInfoView>) -> bool {
    forall|i: int, j: int| 0 <= i < j < models.len() ==> models[i].id != models[j].id
}

/// Every catalog entry names an id, a display name, a provider, a repository, a
/// file, a default backend, and at least one capability.
pub open spec fn fields_present(m: ModelInfoView) -> bool {
    &&& m.id.len() > 0
    &&& m.display_name.len() > 0
    &&& m.provider.len() > 0
    &&& m.repo.len() > 0
    &&& m.filename.len() > 0
    &&& m.default_backend.len() > 0
    &&& m.capabilities.len() > 0
}

/// Every download URL of an entry uses HTTPS.
pub open spec fn urls_https(m: ModelInfoView) -> bool {
    &&& (m.llama_cpp_url matches Some(u) ==> has_prefix(u, "https://"@))
    &&& (m.cactus_url matches Some(u) ==> has_prefix(u, "https://"@))
}

/// The catalog is well formed: unique ids, all required fields present, HTTPS
/// downloads only.
pub proof fn lemma_catalog_well_formed()
    ensures
        ids_unique(catalog()),
        forall|i: int| 0 <= i < catalog().len() ==> fields_present(#[trigger] catalog()[i]),
        forall|i: int| 0 <= i < catalog().len() ==> urls_https(#[trigger] catalog()[i]),
{
    reveal_strlit("gemma-3-1b-it");
    reveal_strlit("gemma-4-e2b-it");
    reveal_strlit("Bonsai-8B");
    reveal_strlit("Gemma-3-1B");
    reveal_strlit("Gemma-4-E2B");
    reveal_strlit("Google");
    reveal_strlit("Prisma ML");
    reveal_strlit("unsloth/gemma-3-1b-it-GGUF");
    reveal_strlit("unsloth/gemma-4-e2b-it-GGUF");
    reveal_strlit("prism-ml/Bonsai-8B-gguf");
    reveal_strlit("gemma-3-1b-it-Q4_K_M.gguf");
    reveal_strlit("gemma-4-e2b-it-Q4_K_M.gguf");
    reveal_strlit("bonsai.gguf");
    reveal_strlit("llama_cpp");
    reveal_strlit("https://");
    reveal_strlit("https://huggingface.co/unsloth/gemma-3-1b-it-GGUF/resolve/main/gemma-3-1b-it-Q4_K_M.gguf");
    reveal_strlit("https://huggingface.co/Cactus-Compute/gemma-3-1b-it/resolve/main/weights/gemma-3-1b-it-int4.zip");
    reveal_strlit("https://huggingface.co/unsloth/gemma-4-E2B-it-GGUF/resolve/main/gemma-4-E2B-it-Q4_K_M.gguf");
    reveal_strlit("https://huggingface.co/Cactus-Compute/gemma-4-E2B-it/resolve/main/weights/gemma-4-e2b-it-int4.zip");
    reveal_strlit("https://huggingface.co/prism-ml/Bonsai-8B-gguf/resolve/main/Bonsai-8B.gguf");
    let c = catalog();
    assert(c[0].id[6] != c[1].id[6]);
    assert(c[0].id[0] != c[2].id[0]);
    assert(c[1].id[0] != c[2].id[0]);
    assert(c[0].llama_cpp_url->0.take(8) =~= "https://"@);
    assert(c[0].cactus_url->0.take(8) =~= "https://"@);
    assert(c[1].llama_cpp_url->0.take(8) =~= "https://"@);
    assert(c[1].cactus_url->0.take(8) =~= "https://"@);
    assert(c[2].llama_cpp_url->0.take(8) =~= "https://"@);
}

/// `find_in` finds an entry with the id looked for, and finds nothing only when
/// no entry from `from` on has that id.
pub proof fn lemma_find_in(models: Seq<ModelInfoView>, id: Seq<char>, from: int)
    requires
        0 <= from,
    ensures
        find_in(models, id, from) matches Some(m) ==> m.id == id && exists|i: int|
            from <= i < models.len() && models[i] == m,
        find_in(models, id, from) is None ==> forall|i: int|
            from <= i < models.len() ==> models[i].id != id,
    decreases models.len() - from,
{
    if from < models.len() && models[from].id != id {
        lemma_find_in(models, id, from + 1);
    }
}

/// Looking a model up by id finds the catalog entry with exactly that id
/// (case-sensitive), and finds nothing for an id no entry has.
pub proof fn lemma_find_model_by_id(id: Seq<char>)
    ensures
        catalog_model(id) matches Some(m) ==> m.id == id && catalog().contains(m),
        catalog_model(id) is None <==> forall|i: int|
            0 <= i < catalog().len() ==> catalog()[i].id != id,
{
    lemma_find_in(catalog(), id, 0);
    if catalog_model(id) is Some {
        let i = choose|i: int| 0 <= i < catalog().len() && catalog()[i] == catalog_model(id)->0;
        assert(catalog()[i].id == id);
    }
}

} // verus!

use serde_json::Value;
use vstd::prelude::*;

use crate::text::{opt_view, str_equals};

verus! {

/// The model that is loaded: its id, the backend it runs on, and its usable context size.
#[derive(Debug)]
pub struct LoadedModelInfo {
    pub model_id: String,
    pub backend_name: String,
    pub context_size: u32,
}

pub struct LoadedView {
    pub model_id: Seq<char>,
    pub backend_name: Seq<char>,
    pub context_size: u32,
}

impl View for LoadedModelInfo {
    type V = LoadedView;

    open spec fn view(&self) -> LoadedView {
        LoadedView {
            model_id: self.model_id@,
            backend_name: self.backend_name@,
            context_size: self.context_size,
        }
    }
}

pub open spec fn opt_loaded_view(o: Option<LoadedModelInfo>) -> Option<LoadedView> {
    match o {
        Some(m) => Some(m@),
        None => None,
    }
}

/// The state the commands decide on: the loaded model, a version that every
/// unload bumps (a load that was requested before an unload is discarded when it
/// finishes), whether an inference is running, and whether shutdown has begun.
#[derive(Debug)]
pub struct EngineState {
    pub loaded: Option<LoadedModelInfo>,
    pub model_version: u64,
    pub inference_running: bool,
    pub shutdown_started: bool,
}

pub struct EngineView {
    pub loaded: Option<LoadedView>,
    pub version: u64,
    pub running: bool,
    pub shutdown: bool,
}

impl View for EngineState {
    type V = EngineView;

    open spec fn view(&self) -> EngineView {
        EngineView {
            loaded: opt_loaded_view(self.loaded),
            version: self.model_version,
            running: self.inference_running,
            shutdown: self.shutdown_started,
        }
    }
}

/// What a request to load a model comes to.
#[derive(Debug)]
pub enum LoadDecision {
    /// Refused, with the error.
    Refused(String),
    /// The model is already loaded, on the named backend.
    AlreadyLoaded(String),
    /// The model is to be looked up and loaded; the version is handed back when
    /// the load finishes.
    Proceed(u64),
}

/// The loaded model is model `id` on `backend` (any backend when none is named).
pub open spec fn loaded_matches(l: Option<LoadedView>, id: Seq<char>, backend: Option<Seq<char>>) -> bool {
    match l {
        Some(m) => m.model_id == id && match backend {
            Some(b) => m.backend_name == b,
            None => true,
        },
        None => false,
    }
}

/// The error given for a model change during an inference.
pub open spec fn busy_load_error() -> Seq<char> {
    "Cannot change model during active inference"@
}

/// The error given for an unload during an inference.
pub open spec fn busy_unload_error() -> Seq<char> {
    "Cannot unload model during active inference"@
}

pub enum LoadDecisionView {
    Refused(Seq<char>),
    AlreadyLoaded(Seq<char>),
    Proceed(u64),
}

/// What a load request comes to: refused while an inference runs; nothing to do
/// when the model is already loaded (on the named backend, if one is named);
/// otherwise the load goes ahead, with the current version as its ticket.
pub open spec fn load_decision(s: EngineView, id: Seq<char>, backend: Option<Seq<char>>) -> LoadDecisionView {
    if s.running {
        LoadDecisionView::Refused(busy_load_error())
    } else if loaded_matches(s.loaded, id, backend) {
        LoadDecisionView::AlreadyLoaded(s.loaded->0.backend_name)
    } else {
        LoadDecisionView::Proceed(s.version)
    }
}

pub open spec fn load_decision_view(d: LoadDecision) -> LoadDecisionView {
    match d {
        LoadDecision::Refused(e) => LoadDecisionView::Refused(e@),
        LoadDecision::AlreadyLoaded(b) => LoadDecisionView::AlreadyLoaded(b@),
        LoadDecision::Proceed(t) => LoadDecisionView::Proceed(t),
    }
}

/// The version after an unload.
pub open spec fn next_version(v: u64) -> u64 {
    if v == u64::MAX {
        0
    } else {
        (v + 1) as u64
    }
}

/// The state after a finished load with ticket `ticket`: the model is installed
/// unless an unload happened since the load was requested.
pub open spec fn finish_load_step(s: EngineView, info: LoadedView, ticket: u64) -> EngineView {
    if ticket == s.version {
        EngineView { loaded: Some(info), ..s }
    } else {
        s
    }
}

/// The state after an unload request, and its answer.
pub open spec fn unload_step(s: EngineView) -> (EngineView, Result<(), Seq<char>>) {
    if s.running {
        (s, Err(busy_unload_error()))
    } else {
        (EngineView { loaded: None, version: next_version(s.version), ..s }, Ok(()))
    }
}

/// The state after a request to start an inference, and its answer: refused
/// without a loaded model or while another inference runs.
pub open spec fn begin_step(s: EngineView) -> (EngineView, Result<(), Seq<char>>) {
    if s.loaded is None {
        (s, Err("No model is loaded"@))
    } else if s.running {
        (s, Err("Inference already in progress"@))
    } else {
        (EngineView { running: true, ..s }, Ok(()))
    }
}

/// What a shutdown request comes to.
#[derive(Debug, PartialEq, Eq, Structural)]
pub enum ShutdownAction {
    /// Shutdown had already begun: nothing more to do.
    AlreadyStarted,
    /// Cancel the running inference, wait for it to stop, then exit.
    WaitForInference,
    /// Exit now.
    ExitNow,
}

/// The state after a shutdown request, and what to do.
pub open spec fn shutdown_step(s: EngineView) -> (EngineView, ShutdownAction) {
    if s.shutdown {
        (s, ShutdownAction::AlreadyStarted)
    } else if s.running {
        (EngineView { shutdown: true, ..s }, ShutdownAction::WaitForInference)
    } else {
        (EngineView { shutdown: true, ..s }, ShutdownAction::ExitNow)
    }
}

/// How a finished inference is reported.
#[derive(Debug)]
pub enum InferenceOutcome {
    /// The inference failed with this error.
    Failed(String),
    /// The inference completed; its statistics are reported.
    Completed,
    /// The inference was cancelled and failed on that account: reported as
    /// completed with empty statistics.
    CompletedEmpty,
}

impl EngineState {
    /// Nothing loaded, nothing running.
    pub fn new() -> (s: EngineState)
        ensures
            s@ == (EngineView { loaded: None, version: 0, running: false, shutdown: false }),
    {
        EngineState {
            loaded: None,
            model_version: 0,
            inference_running: false,
            shutdown_started: false,
        }
    }

    fn bump_version(&mut self)
        ensures
            final(self)@ == (EngineView { version: next_version(old(self)@.version), ..old(self)@ }),
    {
        if self.model_version == u64::MAX {
            self.model_version = 0;
        } else {
            self.model_version = self.model_version + 1;
        }
    }

    /// What a request to load model `id` (on `backend`, if one is named) comes to.
    pub fn request_load(&self, model_id: &str, backend: &Option<String>) -> (d: LoadDecision)
        ensures
            load_decision_view(d) == load_decision(self@, model_id@, opt_view(*backend)),
    {
        if self.inference_running {
            return LoadDecision::Refused("Cannot change model during active inference".to_owned());
        }
        match &self.loaded {
            Some(m) => {
                let backend_ok = match backend {
                    Some(b) => str_equals(m.backend_name.as_str(), b.as_str()),
                    None => true,
                };
                if str_equals(m.model_id.as_str(), model_id) && backend_ok {
                    LoadDecision::AlreadyLoaded(m.backend_name.clone())
                } else {
                    LoadDecision::Proceed(self.model_version)
                }
            },
            None => LoadDecision::Proceed(self.model_version),
        }
    }

    /// A load requested with `ticket` finished with `info`: it becomes the loaded
    /// model unless an unload happened in the meantime. Returns whether it did.
    pub fn finish_load(&mut self, info: LoadedModelInfo, ticket: u64) -> (installed: bool)
        ensures
            final(self)@ == finish_load_step(old(self)@, info@, ticket),
            installed == (ticket == old(self)@.version),
    {
        if ticket == self.model_version {
            self.loaded = Some(info);
            true
        } else {
            false
        }
    }

    /// An unload request (see `unload_step`).
    pub fn unload(&mut self) -> (r: Result<(), String>)
        ensures
            final(self)@ == unload_step(old(self)@).0,
            match r {
                Ok(()) => unload_step(old(self)@).1 is Ok,
                Err(e) => unload_step(old(self)@).1 == Err::<(), Seq<char>>(e@),
            },
    {
        if self.inference_running {
            return Err("Cannot unload model during active inference".to_owned());
        }
        self.loaded = None;
        self.bump_version();
        Ok(())
    }

    /// A request to start an inference (see `begin_step`).
    pub fn begin_inference(&mut self) -> (r: Result<(), String>)
        ensures
            final(self)@ == begin_step(old(self)@).0,
            match r {
                Ok(()) => begin_step(old(self)@).1 is Ok,
                Err(e) => begin_step(old(self)@).1 == Err::<(), Seq<char>>(e@),
            },
    {
        if self.loaded.is_none() {
            return Err("No model is loaded".to_owned());
        }
        if self.inference_running {
            return Err("Inference already in progress".to_owned());
        }
        self.inference_running = true;
        Ok(())
    }

    /// The running inference stopped.
    pub fn finish_inference(&mut self)
        ensures
            final(self)@ == (EngineView { running: false, ..old(self)@ }),
    {
        self.inference_running = false;
    }

    /// Model `id` on `backend` is being removed: when it is the loaded model it is
    /// unloaded, even during an inference (the caller cancels and stops that one).
    /// Returns whether it was loaded.
    pub fn release_if_active(&mut self, model_id: &str, backend: &str) -> (was_active: bool)
        ensures
            was_active == loaded_matches(old(self)@.loaded, model_id@, Some(backend@)),
            was_active ==> final(self)@ == (EngineView {
                loaded: None,
                version: next_version(old(self)@.version),
                ..old(self)@
            }),
            !was_active ==> final(self)@ == old(self)@,
    {
        let active = match &self.loaded {
            Some(m) => str_equals(m.model_id.as_str(), model_id) && str_equals(
                m.backend_name.as_str(),
                backend,
            ),
            None => false,
        };
        if active {
            self.loaded = None;
            self.bump_version();
        }
        active
    }

    /// The context size of the loaded model, if any.
    pub fn loaded_context_size(&self) -> (r: Option<u32>)
        ensures
            r == match self@.loaded {
                Some(m) => Some(m.context_size),
                None => None::<u32>,
            },
    {
        match &self.loaded {
            Some(m) => Some(m.context_size),
            None => None,
        }
    }

    /// A shutdown request (see `shutdown_step`).
    pub fn begin_shutdown(&mut self) -> (a: ShutdownAction)
        ensures
            (final(self)@, a) == shutdown_step(old(self)@),
    {
        if self.shutdown_started {
            return ShutdownAction::AlreadyStarted;
        }
        self.shutdown_started = true;
        if self.inference_running {
            ShutdownAction::WaitForInference
        } else {
            ShutdownAction::ExitNow
        }
    }
}

/// How a finished inference is reported: an error that did not come from a
/// cancellation is reported as a failure; a success as completed; an error after a
/// cancellation as completed with empty statistics.
pub fn inference_outcome(error: Option<String>, cancelled: bool) -> (o: InferenceOutcome)
    ensures
        match error {
            Some(e) => if cancelled {
                o is CompletedEmpty
            } else {
                o matches InferenceOutcome::Failed(x) && x@ == e@
            },
            None => o is Completed,
        },
{
    match error {
        Some(e) => if cancelled {
            InferenceOutcome::CompletedEmpty
        } else {
            InferenceOutcome::Failed(e)
        },
        None => InferenceOutcome::Completed,
    }
}

/// One entry of the model registry file as a load reads it: each field when it is
/// present and a string.
#[derive(Debug)]
pub struct RegistryEntry {
    pub id: Option<String>,
    pub backend: Option<String>,
    pub filename: Option<String>,
}

/// The id, backend and file of a registry entry, each when present.
pub open spec fn entry_view(e: RegistryEntry) -> (Option<Seq<char>>, Option<Seq<char>>, Option<Seq<char>>) {
    (opt_view(e.id), opt_view(e.backend), opt_view(e.filename))
}

pub open spec fn registry_entry_views(v: Seq<RegistryEntry>) -> Seq<
    (Option<Seq<char>>, Option<Seq<char>>, Option<Seq<char>>),
> {
    v.map_values(|e: RegistryEntry| entry_view(e))
}

/// The entry matches model `id` (and `backend`, when one is named).
pub open spec fn entry_matches(
    e: (Option<Seq<char>>, Option<Seq<char>>, Option<Seq<char>>),
    id: Seq<char>,
    backend: Option<Seq<char>>,
) -> bool {
    e.0 == Some(id) && match backend {
        Some(b) => e.1 == Some(b),
        None => true,
    }
}

/// The first matching registry entry from index `from` on.
pub open spec fn first_match(
    entries: Seq<(Option<Seq<char>>, Option<Seq<char>>, Option<Seq<char>>)>,
    id: Seq<char>,
    backend: Option<Seq<char>>,
    from: int,
) -> Option<(Option<Seq<char>>, Option<Seq<char>>, Option<Seq<char>>)>
    decreases entries.len() - from,
{
    if from < 0 || from >= entries.len() {
        None
    } else if entry_matches(entries[from], id, backend) {
        Some(entries[from])
    } else {
        first_match(entries, id, backend, from + 1)
    }
}

/// The file and backend a load uses for model `id`: those of the first matching
/// registry entry, the backend being `llama_cpp` when the entry names none; an
/// error when no entry matches or the entry names no file.
pub open spec fn registered_model(
    entries: Seq<(Option<Seq<char>>, Option<Seq<char>>, Option<Seq<char>>)>,
    id: Seq<char>,
    backend: Option<Seq<char>>,
) -> Result<(Seq<char>, Seq<char>), Seq<char>> {
    match first_match(entries, id, backend, 0) {
        None => Err("Model "@ + id + " not found in registry"@),
        Some(e) => match e.2 {
            None => Err("Model "@ + id + " has no filename"@),
            Some(f) => Ok(
                (
                    f,
                    match e.1 {
                        Some(b) => b,
                        None => "llama_cpp"@,
                    },
                ),
            ),
        },
    }
}

/// What `serde_json::from_str` reads from the text of a registry file: for each
/// element of its `installed` array, the `id`, `backend` and `filename` fields
/// where they are strings; nothing when the text is not JSON or has no such array.
pub uninterp spec fn json_registry_entries(text: Seq<char>) -> Seq<
    (Option<Seq<char>>, Option<Seq<char>>, Option<Seq<char>>),
>;

/// `serde_json::from_str` into a `serde_json::Value`, then, for each element of its
/// `installed` array, `Value::as_str` on the `id`, `backend` and `filename` fields.
/// The result is named `json_registry_entries`; nothing more of it is stated.
#[verifier::external_body]
fn registry_entries_of(text: &str) -> (r: Vec<RegistryEntry>)
    ensures
        registry_entry_views(r@) == json_registry_entries(text@),
{
    let reg: Value = serde_json::from_str(text).unwrap_or_default();
    let field = |m: &Value, k: &str| m[k].as_str().map(str::to_string);
    let entry = |m: &Value| RegistryEntry {
        id: field(m, "id"),
        backend: field(m, "backend"),
        filename: field(m, "filename"),
    };
    reg["installed"].as_array().map(|a| a.iter().map(entry).collect()).unwrap_or_default()
}

/// The file and backend a load uses for model `id`, read from the text of the
/// registry file (see `registered_model` and `json_registry_entries`).
pub fn locate_in_registry(registry_text: &str, model_id: &str, backend: &Option<String>) -> (r:
    Result<(String, String), String>)
    ensures
        match r {
            Ok((f, b)) => registered_model(json_registry_entries(registry_text@), model_id@, opt_view(*backend))
                == Ok::<(Seq<char>, Seq<char>), Seq<char>>((f@, b@)),
            Err(e) => registered_model(json_registry_entries(registry_text@), model_id@, opt_view(*backend))
                == Err::<(Seq<char>, Seq<char>), Seq<char>>(e@),
        },
{
    let entries = registry_entries_of(registry_text);
    locate_registered(&entries, model_id, backend)
}

/// The file and backend a load uses (see `registered_model`).
pub fn locate_registered(entries: &Vec<RegistryEntry>, model_id: &str, backend: &Option<String>) -> (r:
    Result<(String, String), String>)
    ensures
        match r {
            Ok((f, b)) => registered_model(registry_entry_views(entries@), model_id@, opt_view(*backend)) == Ok::<
                (Seq<char>, Seq<char>),
                Seq<char>,
            >((f@, b@)),
            Err(e) => registered_model(registry_entry_views(entries@), model_id@, opt_view(*backend)) == Err::<
                (Seq<char>, Seq<char>),
                Seq<char>,
            >(e@),
        },
{
    let mut i: usize = 0;
    while i < entries.len()
        invariant
            i <= entries@.len(),
            first_match(registry_entry_views(entries@), model_id@, opt_view(*backend), i as int)
                == first_match(registry_entry_views(entries@), model_id@, opt_view(*backend), 0),
        decreases entries@.len() - i,
    {
        let e = &entries[i];
        let id_ok = match &e.id {
            Some(x) => str_equals(x.as_str(), model_id),
            None => false,
        };
        let backend_ok = match backend {
            Some(b) => match &e.backend {
                Some(x) => str_equals(x.as_str(), b.as_str()),
                None => false,
            },
            None => true,
        };
        if id_ok && backend_ok {
            assert(first_match(registry_entry_views(entries@), model_id@, opt_view(*backend), i as int)
                == Some(entry_view(entries@[i as int])));
            return match &e.filename {
                None => {
                    let mut m = "Model ".to_owned();
                    m.append(model_id);
                    m.append(" has no filename");
                    Err(m)
                },
                Some(f) => {
                    let b = match &e.backend {
                        Some(b) => b.clone(),
                        None => "llama_cpp".to_owned(),
                    };
                    Ok((f.clone(), b))
                },
            };
        }
        i = i + 1;
    }
    let mut m = "Model ".to_owned();
    m.append(model_id);
    m.append(" not found in registry");
    Err(m)
}

/// While an inference runs, neither an unload nor a load request changes the
/// loaded model, and no second inference starts; the loaded model is still there
/// when the inference has finished.
pub proof fn lemma_inference_guards_model(s: EngineView, id: Seq<char>, backend: Option<Seq<char>>)
    requires
        s.running,
    ensures
        unload_step(s).0 == s,
        unload_step(s).1 is Err,
        load_decision(s, id, backend) is Refused,
        begin_step(s).0 == s,
        begin_step(s).1 is Err,
{
}

/// Starting an inference on a loaded, idle engine and then finishing it leaves
/// the engine as it was.
pub proof fn lemma_inference_round_trip(s: EngineView)
    requires
        s.loaded is Some,
        !s.running,
    ensures
        begin_step(s).1 is Ok,
        (EngineView { running: false, ..begin_step(s).0 }) == s,
{
}

/// Shutdown begins once: a second request does nothing.
pub proof fn lemma_shutdown_once(s: EngineView)
    ensures
        shutdown_step(shutdown_step(s).0).1 == ShutdownAction::AlreadyStarted,
        shutdown_step(shutdown_step(s).0).0 == shutdown_step(s).0,
{
}

/// Once a model is loaded and no inference runs, asking to load the same model
/// again (on the same backend, or naming none) does nothing.
pub proof fn lemma_load_is_idempotent(s: EngineView, info: LoadedView)
    requires
        !s.running,
    ensures
        load_decision(EngineView { loaded: Some(info), ..s }, info.model_id, Some(info.backend_name))
            == LoadDecisionView::AlreadyLoaded(info.backend_name),
        load_decision(EngineView { loaded: Some(info), ..s }, info.model_id, None)
            == LoadDecisionView::AlreadyLoaded(info.backend_name),
{
}

/// A load that was requested before an unload does not bring its model back when
/// it finishes; a load with no unload in between installs its model.
pub proof fn lemma_unload_discards_pending_load(
    s: EngineView,
    id: Seq<char>,
    backend: Option<Seq<char>>,
    info: LoadedView,
)
    requires
        load_decision(s, id, backend) is Proceed,
    ensures
        ({
            let ticket = load_decision(s, id, backend)->Proceed_0;
            let after_unload = unload_step(s).0;
            &&& finish_load_step(after_unload, info, ticket).loaded is None
            &&& finish_load_step(s, info, ticket).loaded == Some(info)
        }),
{
}

} // verus!

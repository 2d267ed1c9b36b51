use vstd::prelude::*;

use crate::text::str_equals;

verus! {

/// The two inference engines a model can run on.
#[derive(PartialEq, Eq, Structural, Clone, Copy, Debug)]
pub enum BackendKind {
    Cactus,
    LlamaCpp,
}

/// The backend that a backend name selects: `"llama_cpp"` (exactly, case-sensitive)
/// selects llama.cpp, every other name selects Cactus.
pub open spec fn backend_kind_of(s: Seq<char>) -> BackendKind {
    if s == "llama_cpp"@ {
        BackendKind::LlamaCpp
    } else {
        BackendKind::Cactus
    }
}

impl BackendKind {
    pub fn from_str(s: &str) -> (kind: BackendKind)
        ensures
            kind == backend_kind_of(s@),
    {
        if str_equals(s, "llama_cpp") {
            BackendKind::LlamaCpp
        } else {
            BackendKind::Cactus
        }
    }
}

} // verus!

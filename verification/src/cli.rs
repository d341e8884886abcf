//! The fixed set of models a configuration may name.
//!
//! Argument parsing itself is I/O and lives outside this library; only
//! the model enumeration and its canonical names belong to the core.

use vstd::prelude::*;

verus! {

/// Supported models.
#[derive(Clone, Copy, Debug)]
pub enum ModelType {
    TinyLlama,
    Phi2,
    Gemma2b,
    Llama2_7b,
}

/// The canonical name of a model.
pub open spec fn model_type_name(m: ModelType) -> Seq<char> {
    match m {
        ModelType::TinyLlama => "tiny-llama"@,
        ModelType::Phi2 => "phi-2"@,
        ModelType::Gemma2b => "gemma-2b"@,
        ModelType::Llama2_7b => "llama-2-7b"@,
    }
}

impl ModelType {
    pub fn as_str(&self) -> (r: &'static str)
        ensures
            r@ == model_type_name(*self),
    {
        match self {
            ModelType::TinyLlama => "tiny-llama",
            ModelType::Phi2 => "phi-2",
            ModelType::Gemma2b => "gemma-2b",
            ModelType::Llama2_7b => "llama-2-7b",
        }
    }
}

/// Every model of the enumeration passes the generator's validation.
pub proof fn lemma_model_names_supported(m: ModelType)
    ensures
        crate::ml::model_supported(model_type_name(m)),
{
}

} // verus!

//! Importers from a model's `config.json` to the typed graph.

pub mod mixtral;

use vstd::prelude::*;

use crate::ir::error::ImportError;
use crate::text::same;

verus! {

/// The importers that exist.
#[derive(Debug, Clone, Copy, PartialEq, Eq, Structural)]
pub enum Importer {
    Mixtral,
}

/// The architectures that are recognized but have no importer yet.
pub open spec fn recognized(arch: Seq<char>) -> bool {
    arch == "LlamaForCausalLM"@ || arch == "MistralForCausalLM"@ || arch == "Qwen2ForCausalLM"@
}

/// Picks the importer by the first entry of the config's `architectures`.
pub fn select_importer(architectures: &Vec<String>) -> (res: Result<Importer, ImportError>)
    ensures
        architectures@.len() == 0 ==> res == Err::<Importer, _>(ImportError::NoArchitecture),
        architectures@.len() > 0 ==> {
            let arch = architectures@[0]@;
            if arch == "MixtralForCausalLM"@ {
                res == Ok::<_, ImportError>(Importer::Mixtral)
            } else if recognized(arch) {
                res matches Err(ImportError::ArchitectureNotYetImplemented { arch: a }) && a@ == arch
            } else {
                res matches Err(ImportError::UnsupportedArchitecture(a)) && a@ == arch
            }
        },
{
    if architectures.len() == 0 {
        return Err(ImportError::NoArchitecture);
    }
    let arch = architectures[0].clone();
    if same(arch.as_str(), "MixtralForCausalLM") {
        return Ok(Importer::Mixtral);
    }
    if same(arch.as_str(), "LlamaForCausalLM") || same(arch.as_str(), "MistralForCausalLM") || same(
        arch.as_str(),
        "Qwen2ForCausalLM",
    ) {
        return Err(ImportError::ArchitectureNotYetImplemented { arch });
    }
    Err(ImportError::UnsupportedArchitecture(arch))
}

/// Exactly the Mixtral architecture is imported, and the first entry alone decides: a later one
/// neither helps nor hurts.
pub proof fn the_first_architecture_decides(
    a: &Vec<String>,
    b: &Vec<String>,
    x: Result<Importer, ImportError>,
    y: Result<Importer, ImportError>,
)
    requires
        call_ensures(select_importer, (a,), x),
        call_ensures(select_importer, (b,), y),
        a@.len() > 0,
        b@.len() > 0,
        a@[0]@ == b@[0]@,
    ensures
        x is Ok <==> a@[0]@ == "MixtralForCausalLM"@,
        x is Ok <==> y is Ok,
        x is Err ==> x->Err_0 is ArchitectureNotYetImplemented || x->Err_0
            is UnsupportedArchitecture,
        x is Err ==> (x->Err_0 is ArchitectureNotYetImplemented <==> y->Err_0
            is ArchitectureNotYetImplemented),
{
}

} // verus!

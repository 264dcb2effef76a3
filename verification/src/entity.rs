//! The pet entity's model specification.

use vstd::prelude::*;

verus! {

/// The pet's built-in default model.
pub const PET_MODEL: &'static str = "chicken";

/// The pet's model scale (one half), written as it follows the `|` of a
/// model specification.
pub const PET_MODEL_SCALE_TEXT: &'static str = "0.5";

/// The model specification ClassiCube's `Entity_SetModel` reads: the model
/// name, `|`, and the scale.
pub open spec fn model_spec_of(name: Seq<char>) -> Seq<char> {
    name + "|"@ + PET_MODEL_SCALE_TEXT@
}

/// The spec passed to `Entity_SetModel`: model name plus a `|scale` suffix
/// that ClassiCube parses into the entity's `ModelScale`.
pub fn model_spec(name: &str) -> (spec: String)
    ensures
        spec@ == model_spec_of(name@),
{
    let mut s = String::from_str(name);
    s.append("|");
    s.append(PET_MODEL_SCALE_TEXT);
    s
}

} // verus!

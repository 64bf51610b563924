//! The placeholder identifiers and neutral values that constructors and the
//! builder substitute when a caller leaves a field unset. They are gathered
//! here so that a deployment can change a placeholder in one place.
use vstd::prelude::*;

verus! {

pub open spec fn spec_dummy_embedding_model() -> Seq<char> {
    "dummy-embedding-model"@
}

/// The placeholder embedding-model id.
pub fn dummy_embedding_model() -> (r: &'static str)
    ensures
        r@ == spec_dummy_embedding_model(),
{
    "dummy-embedding-model"
}

pub open spec fn spec_dummy_chat_model() -> Seq<char> {
    "dummy-chat-model"@
}

/// The placeholder chat-model id.
pub fn dummy_chat_model() -> (r: &'static str)
    ensures
        r@ == spec_dummy_chat_model(),
{
    "dummy-chat-model"
}

pub open spec fn spec_float_format() -> Seq<char> {
    "float"@
}

/// The default embedding encoding format.
pub fn float_format() -> (r: &'static str)
    ensures
        r@ == spec_float_format(),
{
    "float"
}

} // verus!

//! The Spanish descriptor, loaded wholesale from a static rule table.

use vstd::prelude::*;

use crate::transformer::{desc_wf, LanguageTransformer, TransformError};

verus! {

/// Builds the Spanish transformer from its static rule table; a malformed
/// table is rejected before any lookup can see it.
pub fn transformer(table: &str) -> (r: Result<LanguageTransformer, TransformError>)
    ensures
        r matches Ok(t) ==> desc_wf(t@),
{
    LanguageTransformer::from_json(table)
}

} // verus!

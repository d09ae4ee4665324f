//! Semantic validation of an AST. No rule is checked yet: every tree is
//! accepted.
use vstd::prelude::*;
use crate::nodes::Node;

verus! {

/// A validation failure.
#[derive(Debug, Clone)]
pub struct ValidationError {
    pub message: String,
}

impl ValidationError {
    /// The error as text: "Validation error: " and the message.
    pub fn describe(&self) -> (r: String)
        ensures
            r@ == "Validation error: "@ + self.message@,
    {
        let mut s = String::from_str("Validation error: ");
        crate::text::push_text(&mut s, self.message.as_str());
        s
    }
}

/// Validates an AST; every tree is currently valid.
pub fn validate(node: &Node) -> (r: Result<(), ValidationError>)
    ensures
        r is Ok,
{
    Ok(())
}

} // verus!

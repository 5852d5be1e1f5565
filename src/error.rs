//! Errors reported by a render.
use vstd::prelude::*;

verus! {

/// A render that could not be completed.
#[derive(Clone, Debug)]
pub enum RenderError {
    /// The scene could not be rendered; the string says why.
    SceneError(String),
}

impl RenderError {
    /// The human-readable message of the error.
    pub fn message(&self) -> (r: String)
        ensures
            r@ == "Could not render the specified scene"@,
    {
        match self {
            RenderError::SceneError(_) => "Could not render the specified scene".to_owned(),
        }
    }
}

} // verus!

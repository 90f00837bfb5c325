//! The local model provider: a model file run in process.
use vstd::prelude::*;
use crate::text::copy_string;

verus! {

/// A provider that runs the model stored at `model_path`.
#[derive(Debug)]
pub struct LocalProvider {
    model_path: String,
}

impl LocalProvider {
    pub fn new(model_path: String) -> (r: Self)
        ensures
            r.model_path()@ == model_path@,
    {
        Self { model_path }
    }

    pub closed spec fn model_path(&self) -> String {
        self.model_path
    }

    /// The path of the model file.
    pub fn path(&self) -> (r: String)
        ensures
            r@ == self.model_path()@,
    {
        copy_string(&self.model_path)
    }
}

} // verus!

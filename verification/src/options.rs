//! How a document is read.
use vstd::prelude::*;
use crate::extensions::Extensions;

verus! {

/// Settings for reading a document.
#[derive(Clone, Copy, Debug, PartialEq, Eq, Structural)]
pub struct Options {
    /// Extensions that are on even where the document does not ask for them.
    pub default_extensions: Extensions,
}

impl Default for Options {
    fn default() -> (options: Options)
        ensures
            options.default_extensions == Extensions::none(),
    {
        Options { default_extensions: Extensions::empty() }
    }
}

impl Options {
    /// The same settings with more extensions on.
    pub fn with_default_extension(self, extensions: Extensions) -> (options: Options)
        ensures
            options.default_extensions == self.default_extensions.with(extensions),
    {
        Options { default_extensions: self.default_extensions.union(extensions) }
    }
}

} // verus!

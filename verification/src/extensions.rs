//! The language extensions that a document can switch on.
use vstd::prelude::*;
use vstd::string::is_ascii;
use crate::text::{ascii_text, same_bytes};

verus! {

/// A set of language extensions.
#[derive(Clone, Copy, Debug, PartialEq, Eq, Structural)]
pub struct Extensions {
    /// A newtype struct is written as its content alone.
    pub unwrap_newtypes: bool,
    /// A present optional value may be written without `Some(..)`.
    pub implicit_some: bool,
    /// The content of a newtype variant is written directly between the variant's parentheses.
    pub unwrap_variant_newtypes: bool,
}

impl View for Extensions {
    type V = Extensions;

    open spec fn view(&self) -> Extensions {
        *self
    }
}

impl Extensions {
    /// No extension.
    pub open spec fn none() -> Extensions {
        Extensions {
            unwrap_newtypes: false,
            implicit_some: false,
            unwrap_variant_newtypes: false,
        }
    }

    /// The extensions in either set.
    pub open spec fn with(self, other: Extensions) -> Extensions {
        Extensions {
            unwrap_newtypes: self.unwrap_newtypes || other.unwrap_newtypes,
            implicit_some: self.implicit_some || other.implicit_some,
            unwrap_variant_newtypes: self.unwrap_variant_newtypes || other.unwrap_variant_newtypes,
        }
    }

    /// The extension that an attribute names.
    pub open spec fn named(name: Seq<char>) -> Option<Extensions> {
        if name == "unwrap_newtypes"@ {
            Some(Extensions { unwrap_newtypes: true, ..Extensions::none() })
        } else if name == "implicit_some"@ {
            Some(Extensions { implicit_some: true, ..Extensions::none() })
        } else if name == "unwrap_variant_newtypes"@ {
            Some(Extensions { unwrap_variant_newtypes: true, ..Extensions::none() })
        } else {
            None
        }
    }

    /// The empty set.
    pub fn empty() -> (set: Extensions)
        ensures
            set == Extensions::none(),
    {
        Extensions {
            unwrap_newtypes: false,
            implicit_some: false,
            unwrap_variant_newtypes: false,
        }
    }

    /// The union of two sets.
    pub fn union(self, other: Extensions) -> (set: Extensions)
        ensures
            set == self.with(other),
    {
        Extensions {
            unwrap_newtypes: self.unwrap_newtypes || other.unwrap_newtypes,
            implicit_some: self.implicit_some || other.implicit_some,
            unwrap_variant_newtypes: self.unwrap_variant_newtypes || other.unwrap_variant_newtypes,
        }
    }

    /// Looks up the extension that an attribute names.
    pub fn from_ident(ident: &[u8]) -> (found: Option<Extensions>)
        ensures
            found == Extensions::named(ascii_text(ident@)),
    {
        proof {
            reveal_strlit("unwrap_newtypes");
            reveal_strlit("implicit_some");
            reveal_strlit("unwrap_variant_newtypes");
        }
        if names(ident, "unwrap_newtypes") {
            Some(Extensions { unwrap_newtypes: true, ..Extensions::empty() })
        } else if names(ident, "implicit_some") {
            Some(Extensions { implicit_some: true, ..Extensions::empty() })
        } else if names(ident, "unwrap_variant_newtypes") {
            Some(Extensions { unwrap_variant_newtypes: true, ..Extensions::empty() })
        } else {
            None
        }
    }
}

/// Whether the bytes spell the given ASCII word.
fn names(ident: &[u8], word: &str) -> (same: bool)
    requires
        is_ascii(word),
    ensures
        same == (ascii_text(ident@) == word@),
{
    let same = same_bytes(ident, word.as_bytes());
    proof {
        let text = ascii_text(ident@);
        if same {
            assert(text =~= word@);
        } else if text == word@ {
            assert forall|i: int| 0 <= i < ident@.len() implies ident@[i] == word@[i] as u8 by {
                assert(text[i] == word@[i]);
            }
            assert(ident@ =~= Seq::new(word@.len(), |i: int| word@[i] as u8));
        }
    }
    same
}

} // verus!

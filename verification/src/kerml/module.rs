//! The KerML language service: how the language is identified.
use vstd::prelude::*;

verus! {

/// The KerML language service.
#[derive(Debug)]
pub struct KermlLanguageModule;

impl KermlLanguageModule {
    /// The language id, `kerml`.
    pub fn language_id(&self) -> (r: &'static str)
        ensures
            r@ == "kerml"@,
    {
        "kerml"
    }

    /// The file extensions of KerML sources: `kerml`.
    pub fn extensions(&self) -> (r: &'static [&'static str])
        ensures
            r@.len() == 1,
            r@[0]@ == "kerml"@,
    {
        &["kerml"]
    }
}

} // verus!

//! A source document of the later revision, which also knows whether the
//! standard library is to be put in front of it.
use vstd::prelude::*;
use crate::text::{owned, str_eq};

verus! {

broadcast use vstd::string::group_string_axioms;

/// The file name of the standard library, written in Onfex itself.
pub open spec fn std_lib_name() -> Seq<char> {
    "std.onfex"@
}

/// A source document: the language version it is read as, its folder and
/// file name, whether it is being imported by another document, and its text.
#[allow(non_snake_case)]
pub struct OnfexPloneDoph {
    pub version: String,
    pub path: String,
    pub name: String,
    pub isImport: bool,
    pub code: String,
}

impl OnfexPloneDoph {
    /// The language version documents are read as.
    pub open spec fn current_version() -> Seq<char> {
        "2.0.0"@
    }

    /// A document with the given text (read by the caller from `path/name`).
    #[allow(non_snake_case)]
    pub fn with_code(path: String, name: String, isImport: bool, code: String) -> (r: Self)
        ensures
            r.version@ == Self::current_version(),
            r.path == path,
            r.name == name,
            r.isImport == isImport,
            r.code == code,
    {
        OnfexPloneDoph { version: owned("2.0.0"), path, name, isImport, code }
    }

    /// Whether the document is read as language version `v`.
    #[allow(non_snake_case)]
    pub fn verifyVersion(&self, v: String) -> (r: bool)
        ensures
            r == (self.version@ == v@),
    {
        str_eq(self.version.as_str(), v.as_str())
    }

    /// Whether the standard library must not be put in front of this
    /// document: it is imported by another one, or it is the standard library
    /// itself (which would otherwise import itself without end).
    pub fn skip_std_injection(&self) -> (r: bool)
        ensures
            r == (self.isImport || self.name@ == std_lib_name()),
    {
        self.isImport || str_eq(self.name.as_str(), "std.onfex")
    }
}

} // verus!

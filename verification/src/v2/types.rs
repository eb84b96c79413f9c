//! The type kinds of the later revision, with named kinds of their own
//! (`Dynamic`) and decimals, iterators and matrices.
use vstd::prelude::*;
use crate::text::{owned, str_eq};

verus! {

broadcast use vstd::string::group_string_axioms;

/// The kind of a value. `Dynamic` carries the name of a kind that has no
/// keyword of its own.
#[allow(non_camel_case_types)]
#[derive(Debug, Clone)]
pub enum TypeKind {
    Dynamic(String),
    TypeKind,
    Int,
    Float,
    Decimal,
    Str,
    ColStr,
    Vect,
    Matris,
    Lib,
    Bool,
    Void,
    Ref,
    ArrayT,
    BufferT,
    MonoT,
    FuncInht,
    StrctT,
    Srel,
    srel,
    Sprd,
    Iter,
    Aphe,
}

/// The kind that a type keyword names, if any.
pub open spec fn kind_named(name: Seq<char>) -> Option<TypeKind> {
    if name == "intg"@ { Some(TypeKind::Int) }
    else if name == "flotg"@ { Some(TypeKind::Float) }
    else if name == "decmal"@ { Some(TypeKind::Decimal) }
    else if name == "sterge"@ { Some(TypeKind::Str) }
    else if name == "nophe"@ { Some(TypeKind::Void) }
    else if name == "booltg"@ { Some(TypeKind::Bool) }
    else if name == "arrey"@ { Some(TypeKind::ArrayT) }
    else if name == "vek"@ { Some(TypeKind::Vect) }
    else if name == "iterfale"@ { Some(TypeKind::Iter) }
    else if name == "meatris"@ { Some(TypeKind::Matris) }
    else if name == "frounctTc"@ { Some(TypeKind::FuncInht) }
    else if name == "strouctTc"@ { Some(TypeKind::StrctT) }
    else if name == "Srel"@ { Some(TypeKind::Srel) }
    else if name == "srel"@ { Some(TypeKind::srel) }
    else if name == "typect"@ { Some(TypeKind::TypeKind) }
    else if name == "aphe"@ { Some(TypeKind::Aphe) }
    else { None }
}

/// The name under which a kind is shown: a dynamic kind shows its own name,
/// kinds without a name share `<METHAVEOT>`.
pub open spec fn kind_name(k: TypeKind) -> Seq<char> {
    match k {
        TypeKind::Dynamic(x) => x@,
        TypeKind::Int => "intg"@,
        TypeKind::Float => "flotg"@,
        TypeKind::Decimal => "decmal"@,
        TypeKind::Str => "sterg"@,
        TypeKind::Void => "nophe"@,
        TypeKind::Bool => "booltg"@,
        TypeKind::FuncInht => "frounctTc"@,
        TypeKind::StrctT => "strouctTc"@,
        TypeKind::Ref => "repherfal"@,
        TypeKind::ArrayT => "vektöre"@,
        TypeKind::BufferT => "baffer"@,
        TypeKind::Vect => "vek"@,
        TypeKind::Matris => "meatris"@,
        TypeKind::Lib => "lribrass"@,
        TypeKind::Srel => "Srel"@,
        TypeKind::srel => "srel"@,
        TypeKind::Iter => "iterfale"@,
        TypeKind::Aphe => "aphe"@,
        _ => "<METHAVEOT>"@,
    }
}

impl TypeKind {
    /// The kind named by a type keyword, or `None` for any other word.
    pub fn from_string(name: &str) -> (r: Option<Self>)
        ensures
            r == kind_named(name@),
    {
        if str_eq(name, "intg") { Some(TypeKind::Int) }
        else if str_eq(name, "flotg") { Some(TypeKind::Float) }
        else if str_eq(name, "decmal") { Some(TypeKind::Decimal) }
        else if str_eq(name, "sterge") { Some(TypeKind::Str) }
        else if str_eq(name, "nophe") { Some(TypeKind::Void) }
        else if str_eq(name, "booltg") { Some(TypeKind::Bool) }
        else if str_eq(name, "arrey") { Some(TypeKind::ArrayT) }
        else if str_eq(name, "vek") { Some(TypeKind::Vect) }
        else if str_eq(name, "iterfale") { Some(TypeKind::Iter) }
        else if str_eq(name, "meatris") { Some(TypeKind::Matris) }
        else if str_eq(name, "frounctTc") { Some(TypeKind::FuncInht) }
        else if str_eq(name, "strouctTc") { Some(TypeKind::StrctT) }
        else if str_eq(name, "Srel") { Some(TypeKind::Srel) }
        else if str_eq(name, "srel") { Some(TypeKind::srel) }
        else if str_eq(name, "typect") { Some(TypeKind::TypeKind) }
        else if str_eq(name, "aphe") { Some(TypeKind::Aphe) }
        else { None }
    }

    /// The name under which this kind is shown.
    pub fn to_string(&self) -> (s: String)
        ensures
            s@ == kind_name(*self),
    {
        match self {
            TypeKind::Dynamic(x) => x.clone(),
            TypeKind::Int => owned("intg"),
            TypeKind::Float => owned("flotg"),
            TypeKind::Decimal => owned("decmal"),
            TypeKind::Str => owned("sterg"),
            TypeKind::Void => owned("nophe"),
            TypeKind::Bool => owned("booltg"),
            TypeKind::FuncInht => owned("frounctTc"),
            TypeKind::StrctT => owned("strouctTc"),
            TypeKind::Ref => owned("repherfal"),
            TypeKind::ArrayT => owned("vektöre"),
            TypeKind::BufferT => owned("baffer"),
            TypeKind::Vect => owned("vek"),
            TypeKind::Matris => owned("meatris"),
            TypeKind::Lib => owned("lribrass"),
            TypeKind::Srel => owned("Srel"),
            TypeKind::srel => owned("srel"),
            TypeKind::Iter => owned("iterfale"),
            TypeKind::Aphe => owned("aphe"),
            _ => owned("<METHAVEOT>"),
        }
    }

    /// Two kinds are equal when they are shown under the same name.
    pub fn equal(&self, t: TypeKind) -> (r: bool)
        ensures
            r == (kind_name(*self) == kind_name(t)),
    {
        let a = self.to_string();
        let b = t.to_string();
        str_eq(a.as_str(), b.as_str())
    }
}

impl PartialEq for TypeKind {
    fn eq(&self, other: &TypeKind) -> (r: bool) {
        let a = self.to_string();
        let b = other.to_string();
        str_eq(a.as_str(), b.as_str())
    }
}

impl vstd::std_specs::cmp::PartialEqSpecImpl for TypeKind {
    open spec fn obeys_eq_spec() -> bool {
        true
    }

    open spec fn eq_spec(&self, other: &TypeKind) -> bool {
        kind_name(*self) == kind_name(*other)
    }
}

/// A parameter of a function: its name, its declared kind, and whether it
/// collects the remaining arguments.
#[derive(Debug, Clone)]
pub struct Param {
    pub name: String,
    pub kind: TypeKind,
    pub vararg: bool,
}

/// A field of a `strouct`: whether it is public, its name and kind.
#[derive(Debug, Clone)]
pub struct Field {
    pub glb: bool,
    pub name: String,
    pub typ: TypeKind,
}

} // verus!

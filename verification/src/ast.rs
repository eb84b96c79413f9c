//! The syntax tree of an Onfex program, and the type kinds of its values.
use vstd::prelude::*;
use crate::text::{owned, str_eq};

verus! {

broadcast use vstd::string::group_string_axioms;

/// The kind of an Onfex value, as written in declarations (`intg`, `sterg`, ...).
#[allow(non_camel_case_types)]
#[derive(Debug, Clone, Copy)]
pub enum TypeKind {
    Int,
    Float,
    Str,
    Vect,
    Lib,
    Bool,
    Void,
    Ref,
    ArrayT,
    BufferT,
    MonoT,
    FuncInht,
    StrctT,
    Srel,
    srel,
    Sprd,
}

/// The kind that a type keyword names, if any.
pub open spec fn kind_named(name: Seq<char>) -> Option<TypeKind> {
    if name == "intg"@ { Some(TypeKind::Int) }
    else if name == "flotg"@ { Some(TypeKind::Float) }
    else if name == "sterg"@ { Some(TypeKind::Str) }
    else if name == "nophe"@ { Some(TypeKind::Void) }
    else if name == "booltg"@ { Some(TypeKind::Bool) }
    else if name == "frounctTc"@ { Some(TypeKind::FuncInht) }
    else if name == "strouctTc"@ { Some(TypeKind::StrctT) }
    else if name == "Srel"@ { Some(TypeKind::Srel) }
    else if name == "srel"@ { Some(TypeKind::srel) }
    else { None }
}

/// The name under which a kind is shown; kinds without a name of their own
/// share the placeholder `<METHAVEOT>`.
pub open spec fn kind_name(k: TypeKind) -> Seq<char> {
    match k {
        TypeKind::Int => "intg"@,
        TypeKind::Float => "flotg"@,
        TypeKind::Str => "sterg"@,
        TypeKind::Void => "nophe"@,
        TypeKind::Bool => "booltg"@,
        TypeKind::FuncInht => "frounctTc"@,
        TypeKind::StrctT => "strouctTc"@,
        TypeKind::Ref => "repherfal"@,
        TypeKind::ArrayT => "vektöre"@,
        TypeKind::BufferT => "meatris"@,
        TypeKind::Lib => "lribrass"@,
        TypeKind::Srel => "Srel"@,
        TypeKind::srel => "srel"@,
        _ => "<METHAVEOT>"@,
    }
}

impl TypeKind {
    /// The kind named by a type keyword, or `None` for any other word.
    pub fn from_string(name: &str) -> (r: Option<Self>)
        ensures
            r == kind_named(name@),
    {
        if str_eq(name, "intg") { Some(TypeKind::Int) }
        else if str_eq(name, "flotg") { Some(TypeKind::Float) }
        else if str_eq(name, "sterg") { Some(TypeKind::Str) }
        else if str_eq(name, "nophe") { Some(TypeKind::Void) }
        else if str_eq(name, "booltg") { Some(TypeKind::Bool) }
        else if str_eq(name, "frounctTc") { Some(TypeKind::FuncInht) }
        else if str_eq(name, "strouctTc") { Some(TypeKind::StrctT) }
        else if str_eq(name, "Srel") { Some(TypeKind::Srel) }
        else if str_eq(name, "srel") { Some(TypeKind::srel) }
        else { None }
    }

    /// The name under which this kind is shown.
    pub fn to_string(&self) -> (s: String)
        ensures
            s@ == kind_name(*self),
    {
        match self {
            TypeKind::Int => owned("intg"),
            TypeKind::Float => owned("flotg"),
            TypeKind::Str => owned("sterg"),
            TypeKind::Void => owned("nophe"),
            TypeKind::Bool => owned("booltg"),
            TypeKind::FuncInht => owned("frounctTc"),
            TypeKind::StrctT => owned("strouctTc"),
            TypeKind::Ref => owned("repherfal"),
            TypeKind::ArrayT => owned("vektöre"),
            TypeKind::BufferT => owned("meatris"),
            TypeKind::Lib => owned("lribrass"),
            TypeKind::Srel => owned("Srel"),
            TypeKind::srel => owned("srel"),
            _ => owned("<METHAVEOT>"),
        }
    }

    /// Two kinds are equal when they are shown under the same name.
    pub fn equal(&self, t: TypeKind) -> (r: bool)
        ensures
            r == (kind_name(*self) == kind_name(t)),
    {
        self.to_string() == t.to_string()
    }
}

} // verus!

verus! {

/// A parameter of a function: its name, its declared kind, and whether it
/// collects the remaining arguments (`!name: kind`).
#[derive(Debug)]
pub struct Param {
    pub name: String,
    pub kind: TypeKind,
    pub vararg: bool,
}

/// A field of a `strouct`: whether it is public (`prube`), its name and kind.
#[derive(Debug)]
pub struct Field {
    pub glb: bool,
    pub name: String,
    pub typ: TypeKind,
}

/// An expression together with the position where it starts.
#[derive(Debug)]
pub struct ExprNode {
    pub expr: Box<Expr>,
    pub line: usize,
    pub col: usize,
}

impl ExprNode {
    pub fn new(e: Expr, l: usize, c: usize) -> (r: Self)
        ensures
            *r.expr == e,
            r.line == l,
            r.col == c,
    {
        ExprNode { expr: Box::new(e), line: l, col: c }
    }
}

/// An expression. A floating-point literal is kept as the text it was written
/// with (an optional `-` followed by digits and one `.`).
#[derive(Debug)]
pub enum Expr {
    Int(i64),
    Float(String),
    Str(String),
    Bool(bool),
    List(String, Vec<ExprNode>),
    Dict(String, Vec<(ExprNode, ExprNode)>),
    LibList(String, String, Vec<ExprNode>),
    LibDict(String, String, Vec<(ExprNode, ExprNode)>),
    Void,
    MethodCall(Box<Expr>, String, Vec<Expr>),
    Member(Box<Expr>, String),
    Variable(String),
    /// Callee, positional arguments, and the named field initialisers written
    /// in braces after the call (`S(){ a: 1 }`), in source order.
    Call(Box<Expr>, Vec<Expr>, Vec<(String, Expr)>),
    Macro(String),
    LibVariable(String, String),
    ModVariable(String, String),
    Deref(Box<Expr>),
    AddressOf(String),
    Spread(Box<Expr>),
    BinaryOp(Box<Expr>, String, Box<Expr>),
}

/// A statement together with the position where it starts.
#[derive(Debug)]
pub struct StmtNode {
    pub stmt: Stmt,
    pub line: usize,
    pub col: usize,
}

impl StmtNode {
    pub fn new(e: Stmt, l: usize, c: usize) -> (r: Self)
        ensures
            r.stmt == e,
            r.line == l,
            r.col == c,
    {
        StmtNode { stmt: e, line: l, col: c }
    }
}

/// A statement. The fields of a `strouct` and its methods are kept in source
/// order, each name once.
#[derive(Debug)]
pub enum Stmt {
    ExprNode(ExprNode),
    Assign(String, ExprNode),
    ReAssign(String, ExprNode),
    MemberAssign(ExprNode, String, ExprNode),
    Return(Option<ExprNode>),
    Import(String),
    Mod(String),
    Mehen(Vec<StmtNode>),
    FuncCre(String, Vec<Param>, Vec<StmtNode>, TypeKind),
    StrctCre(String, Vec<(String, Field)>, Vec<(String, Stmt)>),
    TypeLib(String, String),
    TypeMod(String, String),
    IfElse(Box<StmtNode>, Vec<StmtNode>, Option<Vec<StmtNode>>),
}

/// A function: parameters, body and declared result kind.
#[derive(Debug)]
pub struct Frounct {
    pub params: Vec<Param>,
    pub body: Vec<StmtNode>,
    pub out: TypeKind,
}

impl Frounct {
    pub fn new(p: Vec<Param>, b: Vec<StmtNode>, o: TypeKind) -> (r: Self)
        ensures
            r.params == p,
            r.body == b,
            r.out == o,
    {
        Frounct { params: p, body: b, out: o }
    }
}

} // verus!

verus! {

/// A copy of a list of strings.
pub fn clone_strings(v: &Vec<String>) -> (r: Vec<String>)
    ensures
        r@ == v@,
{
    let mut r: Vec<String> = Vec::new();
    let mut i: usize = 0;
    while i < v.len()
        invariant
            0 <= i <= v@.len(),
            r@ == v@.subrange(0, i as int),
        decreases v@.len() - i,
    {
        r.push(v[i].clone());
        assert(r@ =~= v@.subrange(0, i + 1));
        i = i + 1;
    }
    assert(r@ =~= v@);
    r
}

impl Param {
    /// A copy of this parameter.
    pub fn duplicate(&self) -> (r: Param)
        ensures
            r == *self,
    {
        Param { name: self.name.clone(), kind: self.kind, vararg: self.vararg }
    }
}

/// A copy of a parameter list.
pub fn clone_params(v: &Vec<Param>) -> (r: Vec<Param>)
    ensures
        r@ == v@,
{
    let mut r: Vec<Param> = Vec::new();
    let mut i: usize = 0;
    while i < v.len()
        invariant
            0 <= i <= v@.len(),
            r@ == v@.subrange(0, i as int),
        decreases v@.len() - i,
    {
        r.push(v[i].duplicate());
        assert(r@ =~= v@.subrange(0, i + 1));
        i = i + 1;
    }
    assert(r@ =~= v@);
    r
}

impl Field {
    /// A copy of this field.
    pub fn duplicate(&self) -> (r: Field)
        ensures
            r == *self,
    {
        Field { glb: self.glb, name: self.name.clone(), typ: self.typ }
    }
}

/// A copy of a field list.
pub fn clone_fields(v: &Vec<(String, Field)>) -> (r: Vec<(String, Field)>)
    ensures
        r@ == v@,
{
    let mut r: Vec<(String, Field)> = Vec::new();
    let mut i: usize = 0;
    while i < v.len()
        invariant
            0 <= i <= v@.len(),
            r@ == v@.subrange(0, i as int),
        decreases v@.len() - i,
    {
        r.push((v[i].0.clone(), v[i].1.duplicate()));
        assert(r@ =~= v@.subrange(0, i + 1));
        i = i + 1;
    }
    assert(r@ =~= v@);
    r
}

} // verus!

verus! {

/// Whether two expressions are alike: the same variant, with equal numbers,
/// texts and positions, and alike parts.
pub open spec fn expr_same(a: Expr, b: Expr) -> bool
    decreases a,
{
    match a {
        Expr::Int(x) => b == Expr::Int(x),
        Expr::Float(s) => b matches Expr::Float(t) && t@ == s@,
        Expr::Str(s) => b matches Expr::Str(t) && t@ == s@,
        Expr::Bool(x) => b == Expr::Bool(x),
        Expr::List(n, xs) => b matches Expr::List(m, ys) && m@ == n@ && nodes_same(xs@, ys@),
        Expr::Dict(n, xs) => b matches Expr::Dict(m, ys) && m@ == n@ && pairs_same(xs@, ys@),
        Expr::LibList(l, n, xs) => b matches Expr::LibList(k, m, ys) && k@ == l@ && m@ == n@ && nodes_same(xs@, ys@),
        Expr::LibDict(l, n, xs) => b matches Expr::LibDict(k, m, ys) && k@ == l@ && m@ == n@ && pairs_same(xs@, ys@),
        Expr::Void => b == Expr::Void,
        Expr::MethodCall(r, n, xs) => b matches Expr::MethodCall(q, m, ys) && expr_same(*r, *q) && m@ == n@
            && exprs_same(xs@, ys@),
        Expr::Member(r, n) => b matches Expr::Member(q, m) && expr_same(*r, *q) && m@ == n@,
        Expr::Variable(n) => b matches Expr::Variable(m) && m@ == n@,
        Expr::Call(c, xs, fs) => b matches Expr::Call(d, ys, gs) && expr_same(*c, *d) && exprs_same(xs@, ys@)
            && named_same(fs@, gs@),
        Expr::Macro(n) => b matches Expr::Macro(m) && m@ == n@,
        Expr::LibVariable(l, n) => b matches Expr::LibVariable(k, m) && k@ == l@ && m@ == n@,
        Expr::ModVariable(l, n) => b matches Expr::ModVariable(k, m) && k@ == l@ && m@ == n@,
        Expr::Deref(r) => b matches Expr::Deref(q) && expr_same(*r, *q),
        Expr::AddressOf(n) => b matches Expr::AddressOf(m) && m@ == n@,
        Expr::Spread(r) => b matches Expr::Spread(q) && expr_same(*r, *q),
        Expr::BinaryOp(l, o, r) => b matches Expr::BinaryOp(k, p, q) && expr_same(*l, *k) && p@ == o@ && expr_same(*r, *q),
    }
}

/// Whether two expression nodes are alike: alike expressions at the same
/// position.
pub open spec fn node_same(a: ExprNode, b: ExprNode) -> bool
    decreases a,
{
    a.line == b.line && a.col == b.col && expr_same(*a.expr, *b.expr)
}

/// Whether two lists of expressions are alike, item by item.
pub open spec fn exprs_same(xs: Seq<Expr>, ys: Seq<Expr>) -> bool
    decreases xs,
{
    xs.len() == ys.len() && forall|i: int| 0 <= i < xs.len() ==> expr_same(#[trigger] xs[i], ys[i])
}

/// Whether two lists of expression nodes are alike, item by item.
pub open spec fn nodes_same(xs: Seq<ExprNode>, ys: Seq<ExprNode>) -> bool
    decreases xs,
{
    xs.len() == ys.len() && forall|i: int| 0 <= i < xs.len() ==> node_same(#[trigger] xs[i], ys[i])
}

/// Whether two lists of key and value nodes are alike, item by item.
pub open spec fn pairs_same(xs: Seq<(ExprNode, ExprNode)>, ys: Seq<(ExprNode, ExprNode)>) -> bool
    decreases xs,
{
    xs.len() == ys.len() && forall|i: int| 0 <= i < xs.len() ==> node_same((#[trigger] xs[i]).0, ys[i].0)
        && node_same(xs[i].1, ys[i].1)
}

/// Whether two lists of named expressions are alike, item by item.
pub open spec fn named_same(xs: Seq<(String, Expr)>, ys: Seq<(String, Expr)>) -> bool
    decreases xs,
{
    xs.len() == ys.len() && forall|i: int| 0 <= i < xs.len() ==> (#[trigger] xs[i]).0@ == ys[i].0@
        && expr_same(xs[i].1, ys[i].1)
}

impl Expr {
    /// A copy of this expression.
    pub fn deep_copy(&self) -> (r: Expr)
        ensures
            expr_same(*self, r),
        decreases self,
    {
        match self {
            Expr::Int(x) => Expr::Int(*x),
            Expr::Float(s) => Expr::Float(s.clone()),
            Expr::Str(s) => Expr::Str(s.clone()),
            Expr::Bool(b) => Expr::Bool(*b),
            Expr::List(n, items) => Expr::List(n.clone(), copy_nodes(items)),
            Expr::Dict(n, items) => Expr::Dict(n.clone(), copy_pairs(items)),
            Expr::LibList(l, n, items) => Expr::LibList(l.clone(), n.clone(), copy_nodes(items)),
            Expr::LibDict(l, n, items) => Expr::LibDict(l.clone(), n.clone(), copy_pairs(items)),
            Expr::Void => Expr::Void,
            Expr::MethodCall(r, n, args) => Expr::MethodCall(Box::new(r.deep_copy()), n.clone(), copy_exprs(args)),
            Expr::Member(b, n) => Expr::Member(Box::new(b.deep_copy()), n.clone()),
            Expr::Variable(n) => Expr::Variable(n.clone()),
            Expr::Call(c, args, ft) => Expr::Call(Box::new(c.deep_copy()), copy_exprs(args), copy_named(ft)),
            Expr::Macro(n) => Expr::Macro(n.clone()),
            Expr::LibVariable(a, b) => Expr::LibVariable(a.clone(), b.clone()),
            Expr::ModVariable(a, b) => Expr::ModVariable(a.clone(), b.clone()),
            Expr::Deref(e) => Expr::Deref(Box::new(e.deep_copy())),
            Expr::AddressOf(n) => Expr::AddressOf(n.clone()),
            Expr::Spread(e) => Expr::Spread(Box::new(e.deep_copy())),
            Expr::BinaryOp(l, op, r) => Expr::BinaryOp(Box::new(l.deep_copy()), op.clone(), Box::new(r.deep_copy())),
        }
    }
}

impl ExprNode {
    /// A copy of this expression node.
    pub fn deep_copy(&self) -> (r: ExprNode)
        ensures
            node_same(*self, r),
        decreases self,
    {
        ExprNode { expr: Box::new(self.expr.deep_copy()), line: self.line, col: self.col }
    }
}

/// Copies of a list of expressions.
pub fn copy_exprs(v: &Vec<Expr>) -> (r: Vec<Expr>)
    ensures
        exprs_same(v@, r@),
    decreases v,
{
    let mut r: Vec<Expr> = Vec::new();
    let mut i: usize = 0;
    while i < v.len()
        invariant
            0 <= i <= v@.len(),
            r@.len() == i,
            forall|j: int| 0 <= j < i ==> expr_same(v@[j], r@[j]),
        decreases v@.len() - i,
    {
        proof { assert(decreases_to!(*v => v[i as int])); }
        r.push(v[i].deep_copy());
        i = i + 1;
    }
    r
}

/// Copies of a list of expression nodes.
pub fn copy_nodes(v: &Vec<ExprNode>) -> (r: Vec<ExprNode>)
    ensures
        nodes_same(v@, r@),
    decreases v,
{
    let mut r: Vec<ExprNode> = Vec::new();
    let mut i: usize = 0;
    while i < v.len()
        invariant
            0 <= i <= v@.len(),
            r@.len() == i,
            forall|j: int| 0 <= j < i ==> node_same(v@[j], r@[j]),
        decreases v@.len() - i,
    {
        proof { assert(decreases_to!(*v => v[i as int])); }
        r.push(v[i].deep_copy());
        i = i + 1;
    }
    r
}

/// Copies of a list of key and value expression nodes.
pub fn copy_pairs(v: &Vec<(ExprNode, ExprNode)>) -> (r: Vec<(ExprNode, ExprNode)>)
    ensures
        pairs_same(v@, r@),
    decreases v,
{
    let mut r: Vec<(ExprNode, ExprNode)> = Vec::new();
    let mut i: usize = 0;
    while i < v.len()
        invariant
            0 <= i <= v@.len(),
            r@.len() == i,
            forall|j: int| 0 <= j < i ==> node_same(v@[j].0, r@[j].0) && node_same(v@[j].1, r@[j].1),
        decreases v@.len() - i,
    {
        proof { assert(decreases_to!(*v => v[i as int])); }
        r.push((v[i].0.deep_copy(), v[i].1.deep_copy()));
        i = i + 1;
    }
    r
}

/// Copies of a list of named expressions.
pub fn copy_named(v: &Vec<(String, Expr)>) -> (r: Vec<(String, Expr)>)
    ensures
        named_same(v@, r@),
    decreases v,
{
    let mut r: Vec<(String, Expr)> = Vec::new();
    let mut i: usize = 0;
    while i < v.len()
        invariant
            0 <= i <= v@.len(),
            r@.len() == i,
            forall|j: int| 0 <= j < i ==> v@[j].0@ == r@[j].0@ && expr_same(v@[j].1, r@[j].1),
        decreases v@.len() - i,
    {
        proof { assert(decreases_to!(*v => v[i as int])); }
        r.push((v[i].0.clone(), v[i].1.deep_copy()));
        i = i + 1;
    }
    r
}

/// Whether two statements are alike: the same variant, with equal names,
/// parameters, fields and kinds, and alike parts.
pub open spec fn stmt_same(a: Stmt, b: Stmt) -> bool
    decreases a,
{
    match a {
        Stmt::ExprNode(e) => b matches Stmt::ExprNode(f) && node_same(e, f),
        Stmt::Assign(n, e) => b matches Stmt::Assign(m, f) && m@ == n@ && node_same(e, f),
        Stmt::ReAssign(n, e) => b matches Stmt::ReAssign(m, f) && m@ == n@ && node_same(e, f),
        Stmt::MemberAssign(o, n, e) => b matches Stmt::MemberAssign(p, m, f) && node_same(o, p) && m@ == n@
            && node_same(e, f),
        Stmt::Return(e) => b matches Stmt::Return(f) && match e {
            Some(x) => f matches Some(y) && node_same(x, y),
            None => f is None,
        },
        Stmt::Import(n) => b matches Stmt::Import(m) && m@ == n@,
        Stmt::Mod(n) => b matches Stmt::Mod(m) && m@ == n@,
        Stmt::Mehen(xs) => b matches Stmt::Mehen(ys) && stmts_same(xs@, ys@),
        Stmt::FuncCre(n, ps, xs, o) => b matches Stmt::FuncCre(m, qs, ys, p) && m@ == n@ && qs@ == ps@
            && stmts_same(xs@, ys@) && p == o,
        Stmt::StrctCre(n, fs, ms) => b matches Stmt::StrctCre(m, gs, ns) && m@ == n@ && gs@ == fs@
            && methods_same(ms@, ns@),
        Stmt::TypeLib(l, n) => b matches Stmt::TypeLib(k, m) && k@ == l@ && m@ == n@,
        Stmt::TypeMod(l, n) => b matches Stmt::TypeMod(k, m) && k@ == l@ && m@ == n@,
        Stmt::IfElse(c, xs, e) => b matches Stmt::IfElse(d, ys, f) && snode_same(*c, *d) && stmts_same(xs@, ys@)
            && match e {
                Some(x) => f matches Some(y) && stmts_same(x@, y@),
                None => f is None,
            },
    }
}

/// Whether two statement nodes are alike: alike statements at the same
/// position.
pub open spec fn snode_same(a: StmtNode, b: StmtNode) -> bool
    decreases a,
{
    a.line == b.line && a.col == b.col && stmt_same(a.stmt, b.stmt)
}

/// Whether two lists of statements are alike, item by item.
pub open spec fn stmts_same(xs: Seq<StmtNode>, ys: Seq<StmtNode>) -> bool
    decreases xs,
{
    xs.len() == ys.len() && forall|i: int| 0 <= i < xs.len() ==> snode_same(#[trigger] xs[i], ys[i])
}

/// Whether two lists of named methods are alike, item by item.
pub open spec fn methods_same(xs: Seq<(String, Stmt)>, ys: Seq<(String, Stmt)>) -> bool
    decreases xs,
{
    xs.len() == ys.len() && forall|i: int| 0 <= i < xs.len() ==> (#[trigger] xs[i]).0@ == ys[i].0@
        && stmt_same(xs[i].1, ys[i].1)
}

impl Stmt {
    /// A copy of this statement.
    pub fn deep_copy(&self) -> (r: Stmt)
        ensures
            stmt_same(*self, r),
        decreases self,
    {
        match self {
            Stmt::ExprNode(e) => Stmt::ExprNode(e.deep_copy()),
            Stmt::Assign(n, e) => Stmt::Assign(n.clone(), e.deep_copy()),
            Stmt::ReAssign(n, e) => Stmt::ReAssign(n.clone(), e.deep_copy()),
            Stmt::MemberAssign(b, f, v) => Stmt::MemberAssign(b.deep_copy(), f.clone(), v.deep_copy()),
            Stmt::Return(e) => Stmt::Return(
                match e {
                    Some(x) => Some(x.deep_copy()),
                    None => None,
                },
            ),
            Stmt::Import(n) => Stmt::Import(n.clone()),
            Stmt::Mod(n) => Stmt::Mod(n.clone()),
            Stmt::Mehen(b) => Stmt::Mehen(copy_stmts(b)),
            Stmt::FuncCre(n, p, b, o) => Stmt::FuncCre(n.clone(), clone_params(p), copy_stmts(b), *o),
            Stmt::StrctCre(n, f, m) => Stmt::StrctCre(n.clone(), clone_fields(f), copy_methods(m)),
            Stmt::TypeLib(a, b) => Stmt::TypeLib(a.clone(), b.clone()),
            Stmt::TypeMod(a, b) => Stmt::TypeMod(a.clone(), b.clone()),
            Stmt::IfElse(c, b, e) => Stmt::IfElse(
                Box::new(c.deep_copy()),
                copy_stmts(b),
                match e {
                    Some(x) => Some(copy_stmts(x)),
                    None => None,
                },
            ),
        }
    }
}

impl StmtNode {
    /// A copy of this statement node.
    pub fn deep_copy(&self) -> (r: StmtNode)
        ensures
            snode_same(*self, r),
        decreases self,
    {
        StmtNode { stmt: self.stmt.deep_copy(), line: self.line, col: self.col }
    }
}

/// Copies of a list of statements.
pub fn copy_stmts(v: &Vec<StmtNode>) -> (r: Vec<StmtNode>)
    ensures
        stmts_same(v@, r@),
    decreases v,
{
    let mut r: Vec<StmtNode> = Vec::new();
    let mut i: usize = 0;
    while i < v.len()
        invariant
            0 <= i <= v@.len(),
            r@.len() == i,
            forall|j: int| 0 <= j < i ==> snode_same(v@[j], r@[j]),
        decreases v@.len() - i,
    {
        proof { assert(decreases_to!(*v => v[i as int])); }
        r.push(v[i].deep_copy());
        i = i + 1;
    }
    r
}

/// Copies of the methods of a `strouct`.
pub fn copy_methods(v: &Vec<(String, Stmt)>) -> (r: Vec<(String, Stmt)>)
    ensures
        methods_same(v@, r@),
    decreases v,
{
    let mut r: Vec<(String, Stmt)> = Vec::new();
    let mut i: usize = 0;
    while i < v.len()
        invariant
            0 <= i <= v@.len(),
            r@.len() == i,
            forall|j: int| 0 <= j < i ==> v@[j].0@ == r@[j].0@ && stmt_same(v@[j].1, r@[j].1),
        decreases v@.len() - i,
    {
        proof { assert(decreases_to!(*v => v[i as int])); }
        r.push((v[i].0.clone(), v[i].1.deep_copy()));
        i = i + 1;
    }
    r
}

} // verus!

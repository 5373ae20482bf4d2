//! The part of the module syntax tree that global symbol preallocation reads.
use vstd::prelude::*;

verus! {

/// An assignment target such as `a` or `a.b.c`, one name per segment.
pub struct Identifier {
    pub names: Vec<String>,
}

/// `import path [as asname]`.
pub struct ImportStmt {
    pub path: String,
    pub asname: Option<String>,
}

/// A schema definition; only its name matters to the scan passes.
pub struct SchemaStmt {
    pub name: String,
}

/// A rule definition; only its name matters to the scan passes.
pub struct RuleStmt {
    pub name: String,
}

/// `t1 = t2 = ... = value`.
pub struct AssignStmt {
    pub targets: Vec<Identifier>,
}

/// `target: Shape {...}`, a single-target binding with a shape constraint.
pub struct UnificationStmt {
    pub target: Identifier,
}

/// `if cond: body else: orelse`.
pub struct IfStmt {
    pub body: Vec<Stmt>,
    pub orelse: Vec<Stmt>,
}

pub enum Stmt {
    Import(ImportStmt),
    Schema(SchemaStmt),
    Rule(RuleStmt),
    Assign(AssignStmt),
    Unification(UnificationStmt),
    If(IfStmt),
    Other,
}

/// One source file: its name and its top-level statements in source order.
pub struct Module {
    pub filename: String,
    pub body: Vec<Stmt>,
}

/// The name bound by a target, when the target is a single name.
pub open spec fn single_name(id: Identifier) -> Option<Seq<char>> {
    if id.names@.len() == 1 {
        Some(id.names@[0]@)
    } else {
        None
    }
}

/// `n` is assigned at global scope by `s`, looking through conditional
/// branches but not into schema or rule bodies.
pub open spec fn stmt_declares_var(s: Stmt, n: Seq<char>) -> bool
    decreases s,
{
    match s {
        Stmt::Unification(u) => single_name(u.target) == Some(n),
        Stmt::Assign(a) => exists|i: int|
            0 <= i < a.targets@.len() && single_name(#[trigger] a.targets@[i]) == Some(n),
        Stmt::If(f) => (exists|i: int|
            0 <= i < f.body@.len() && stmt_declares_var(#[trigger] f.body@[i], n)) || (exists|
            i: int,
        |
            0 <= i < f.orelse@.len() && stmt_declares_var(#[trigger] f.orelse@[i], n)),
        _ => false,
    }
}

/// `n` is assigned at global scope somewhere in `body`.
pub open spec fn body_declares_var(body: Seq<Stmt>, n: Seq<char>) -> bool {
    exists|i: int| 0 <= i < body.len() && stmt_declares_var(#[trigger] body[i], n)
}

/// The name of the schema or rule that `s` defines, if any.
pub open spec fn stmt_type_name(s: Stmt) -> Option<Seq<char>> {
    match s {
        Stmt::Schema(d) => Some(d.name@),
        Stmt::Rule(d) => Some(d.name@),
        _ => None,
    }
}

/// `n` is a schema or rule defined at the top level of `body`.
pub open spec fn body_declares_type(body: Seq<Stmt>, n: Seq<char>) -> bool {
    exists|i: int| 0 <= i < body.len() && stmt_type_name(#[trigger] body[i]) == Some(n)
}

} // verus!

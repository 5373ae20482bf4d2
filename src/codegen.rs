//! The three-pass module compiler: placeholder bindings for every global
//! variable and type are made across all modules before any statement is
//! emitted.
use vstd::prelude::*;

use crate::ast::{
    body_declares_type, body_declares_var, single_name, stmt_declares_var, stmt_type_name,
    ImportStmt, Module, RuleStmt, SchemaStmt, Stmt,
};
use crate::scope::{GlobalScope, SlotValue};

verus! {

/// Why a compilation stopped.
#[derive(PartialEq, Eq, Clone, Debug)]
pub enum CompileError {
    /// The emitter refused a statement; the text says why.
    Emit(String),
    /// The symbol table has no room for another slot.
    SymbolTableFull,
}

/// The statement emitter that the passes drive. It reads the bindings made
/// by the scan passes and the file context, and never binds a name itself.
/// A schema or rule is walked only once its name is bound, and a module
/// only while its file is on top of the file stack and every global
/// variable and type of the whole program (`program`) is bound.
pub trait ModuleWalker {
    fn walk_import_stmt(
        &mut self,
        scope: &GlobalScope,
        files: &Vec<String>,
        stmt: &ImportStmt,
    ) -> Result<(), String>;

    fn walk_schema_stmt(
        &mut self,
        scope: &GlobalScope,
        files: &Vec<String>,
        stmt: &SchemaStmt,
    ) -> Result<(), String>
        requires
            scope.wf(),
            scope.bound(stmt.name@),
    ;

    fn walk_rule_stmt(
        &mut self,
        scope: &GlobalScope,
        files: &Vec<String>,
        stmt: &RuleStmt,
    ) -> Result<(), String>
        requires
            scope.wf(),
            scope.bound(stmt.name@),
    ;

    fn walk_module(
        &mut self,
        scope: &GlobalScope,
        files: &Vec<String>,
        module: &Module,
        program: &Vec<Module>,
    ) -> Result<(), String>
        requires
            files@.len() > 0,
            files@.last()@ == module.filename@,
            scope.wf(),
            forall|n: Seq<char>|
                modules_declare_var(program@, n) || modules_declare_type(program@, n)
                    ==> #[trigger] scope.bound(n),
    ;
}

/// `new` binds what `old` binds and the names `decl` holds, keeps every
/// slot that `old` handed out, stores the placeholder for each name of
/// `decl`, and leaves the value of every other name alone.
pub open spec fn extends_with(
    old: GlobalScope,
    new: GlobalScope,
    decl: spec_fn(Seq<char>) -> bool,
) -> bool {
    &&& new.wf()
    &&& forall|n: Seq<char>| #[trigger] new.bound(n) <==> old.bound(n) || decl(n)
    &&& forall|n: Seq<char>| #[trigger] old.bound(n) ==> new.slot_of(n) == old.slot_of(n)
    &&& forall|n: Seq<char>| decl(n) ==> #[trigger] new.value_of(n) == SlotValue::Undefined
    &&& forall|n: Seq<char>|
        old.bound(n) && !decl(n) ==> #[trigger] new.value_of(n) == old.value_of(n)
}

/// Every binding of `old` is still there, on the same slot, and nothing
/// was bound outside `decl`.
pub open spec fn keeps_within(
    old: GlobalScope,
    new: GlobalScope,
    decl: spec_fn(Seq<char>) -> bool,
) -> bool {
    &&& new.wf()
    &&& forall|n: Seq<char>| #[trigger] new.bound(n) ==> old.bound(n) || decl(n)
    &&& forall|n: Seq<char>|
        #[trigger] old.bound(n) ==> new.bound(n) && new.slot_of(n) == old.slot_of(n)
}

pub proof fn lemma_extends_refl(s: GlobalScope, decl: spec_fn(Seq<char>) -> bool)
    requires
        s.wf(),
        forall|n: Seq<char>| !#[trigger] decl(n),
    ensures
        extends_with(s, s, decl),
{
}

pub proof fn lemma_extends_trans(
    a: GlobalScope,
    b: GlobalScope,
    c: GlobalScope,
    d1: spec_fn(Seq<char>) -> bool,
    d2: spec_fn(Seq<char>) -> bool,
    d: spec_fn(Seq<char>) -> bool,
)
    requires
        extends_with(a, b, d1),
        extends_with(b, c, d2),
        forall|n: Seq<char>| #[trigger] d(n) == (d1(n) || d2(n)),
    ensures
        extends_with(a, c, d),
{
    assert forall|n: Seq<char>| d(n) implies #[trigger] c.value_of(n) == SlotValue::Undefined by {
        if !d2(n) {
            assert(b.bound(n));
        }
    }
    assert forall|n: Seq<char>| a.bound(n) && !d(n) implies #[trigger] c.value_of(n)
        == a.value_of(n) by {
        assert(b.bound(n));
    }
    assert forall|n: Seq<char>| #[trigger] a.bound(n) implies c.slot_of(n) == a.slot_of(n) by {
        assert(b.bound(n));
    }
}

pub proof fn lemma_keeps_trans(
    a: GlobalScope,
    b: GlobalScope,
    c: GlobalScope,
    d: spec_fn(Seq<char>) -> bool,
)
    requires
        keeps_within(a, b, d),
        keeps_within(b, c, d),
    ensures
        keeps_within(a, c, d),
{
    assert forall|n: Seq<char>| #[trigger] a.bound(n) implies c.bound(n) && c.slot_of(n)
        == a.slot_of(n) by {
        assert(b.bound(n));
    }
}

proof fn lemma_distinct_slots(s: GlobalScope, n1: Seq<char>, n2: Seq<char>)
    requires
        s.wf(),
        s.bound(n1),
        s.bound(n2),
        n1 != n2,
    ensures
        s.slot_of(n1) != s.slot_of(n2),
{
    let i = s.entry_of(n1);
    let j = s.entry_of(n2);
    assert(s.names@[i]@ == n1 && s.names@[j]@ == n2);
    assert(i != j);
}

/// `n` is assigned at global scope in some module of `ms`.
pub open spec fn modules_declare_var(ms: Seq<Module>, n: Seq<char>) -> bool {
    exists|k: int| 0 <= k < ms.len() && body_declares_var(#[trigger] ms[k].body@, n)
}

/// `n` is a schema or rule defined at the top level of some module of `ms`.
pub open spec fn modules_declare_type(ms: Seq<Module>, n: Seq<char>) -> bool {
    exists|k: int| 0 <= k < ms.len() && body_declares_type(#[trigger] ms[k].body@, n)
}

/// After the variable and type scans of `compile_ast_modules`, every
/// global variable and every schema or rule type of every module is bound,
/// whether it is declared in an earlier or a later module than the one
/// that refers to it.
pub proof fn lemma_forward_references(
    before: GlobalScope,
    after: GlobalScope,
    modules: Seq<Module>,
    k: int,
    n: Seq<char>,
)
    requires
        extends_with(
            before,
            after,
            |m: Seq<char>| modules_declare_var(modules, m) || modules_declare_type(modules, m),
        ),
        0 <= k < modules.len(),
        body_declares_var(modules[k].body@, n) || body_declares_type(modules[k].body@, n),
    ensures
        after.bound(n),
        after.value_of(n) == SlotValue::Undefined,
{
    assert(modules_declare_var(modules, n) || modules_declare_type(modules, n));
}

/// Declaring a name that is already bound, as `predefine_global_types`
/// does, makes no second binding: the same names are bound, the name keeps
/// its slot, and each name still has exactly one entry.
pub proof fn lemma_rebinding_keeps_one_slot(before: GlobalScope, after: GlobalScope, name: Seq<char>)
    requires
        before.wf(),
        before.bound(name),
        extends_with(before, after, |n: Seq<char>| n == name),
    ensures
        forall|n: Seq<char>| #[trigger] after.bound(n) == before.bound(n),
        after.slot_of(name) == before.slot_of(name),
        forall|i: int, j: int|
            0 <= i < after.names@.len() && 0 <= j < after.names@.len() && #[trigger] after.names@[i]@
                == #[trigger] after.names@[j]@ ==> i == j,
{
}

/// The variable scan binds the targets of both branches of a conditional
/// statement at the enclosing scope, whichever branch would run.
pub proof fn lemma_conditional_targets_visible(
    before: GlobalScope,
    after: GlobalScope,
    body: Seq<Stmt>,
    k: int,
    n: Seq<char>,
)
    requires
        extends_with(before, after, |m: Seq<char>| body_declares_var(body, m)),
        0 <= k < body.len(),
        body[k] is If,
        body_declares_var(body[k]->If_0.body@, n) || body_declares_var(body[k]->If_0.orelse@, n),
    ensures
        after.bound(n),
        after.value_of(n) == SlotValue::Undefined,
{
    assert(stmt_declares_var(body[k], n));
}

/// How many walker calls the type pass makes over `ms`.
pub open spec fn modules_type_pass_walks(ms: Seq<Module>) -> nat
    decreases ms.len(),
{
    if ms.len() == 0 {
        0
    } else {
        modules_type_pass_walks(ms.drop_last()) + type_pass_walks(ms.last().body@)
    }
}

proof fn lemma_type_pass_walks_prefix(body: Seq<Stmt>, i: int)
    requires
        0 <= i <= body.len(),
    ensures
        type_pass_walks(body.subrange(0, i)) <= type_pass_walks(body),
    decreases body.len(),
{
    if i == body.len() {
        assert(body.subrange(0, i) =~= body);
    } else {
        assert(body.subrange(0, i) =~= body.drop_last().subrange(0, i));
        lemma_type_pass_walks_prefix(body.drop_last(), i);
    }
}

/// The compilation context: the global scope, the stack of files being
/// processed, and the statement emitter.
pub struct LLVMCodeGenContext<W> {
    pub scope: GlobalScope,
    pub filename_stack: Vec<String>,
    pub walker: W,
    /// How many walker calls have been made.
    pub walks: Ghost<nat>,
    /// How many of those returned `Err`.
    pub failed_walks: Ghost<nat>,
}

/// A statement that the type pass hands to the walker.
pub open spec fn walked_in_type_pass(s: Stmt) -> bool {
    s is Import || stmt_type_name(s) is Some
}

/// How many statements of `body` the type pass hands to the walker.
pub open spec fn type_pass_walks(body: Seq<Stmt>) -> nat
    decreases body.len(),
{
    if body.len() == 0 {
        0
    } else {
        type_pass_walks(body.drop_last()) + if walked_in_type_pass(body.last()) { 1nat } else { 0nat }
    }
}

impl<W: ModuleWalker> LLVMCodeGenContext<W> {
    pub fn new(walker: W) -> (r: Self)
        ensures
            r.scope.wf(),
            r.scope.values@.len() == 0,
            forall|n: Seq<char>| !r.scope.bound(n),
            r.filename_stack@.len() == 0,
            r.walks@ == 0,
            r.failed_walks@ == 0,
    {
        LLVMCodeGenContext {
            scope: GlobalScope::new(),
            filename_stack: Vec::new(),
            walker,
            walks: Ghost(0),
            failed_walks: Ghost(0),
        }
    }

    /// Counts one walker call, and its failure if it failed.
    fn note_walk(&mut self, failed: bool)
        ensures
            final(self).walks@ == old(self).walks@ + 1,
            final(self).failed_walks@ == old(self).failed_walks@ + if failed { 1nat } else { 0nat },
            final(self).scope == old(self).scope,
            final(self).filename_stack == old(self).filename_stack,
    {
        self.walks = Ghost(self.walks@ + 1);
        self.failed_walks = Ghost(self.failed_walks@ + if failed { 1nat } else { 0nat });
    }

    /// Binds `name` to the placeholder value: a fresh slot if it is
    /// unbound, else the value of its existing slot is overwritten.
    pub fn predefine_global_types(&mut self, name: &str) -> (r: Result<(), CompileError>)
        requires
            old(self).scope.wf(),
        ensures
            r is Ok <==> old(self).scope.bound(name@) || old(self).scope.values@.len()
                < usize::MAX,
            r is Err ==> r == Err::<(), CompileError>(CompileError::SymbolTableFull)
                && final(self).scope == old(self).scope,
            r is Ok ==> extends_with(old(self).scope, final(self).scope, |n: Seq<char>| n == name@),
            old(self).scope.bound(name@) ==> final(self).scope.values@.len()
                == old(self).scope.values@.len(),
            final(self).scope.values@.len() <= old(self).scope.values@.len() + 1,
            final(self).filename_stack == old(self).filename_stack,
            final(self).walks@ == old(self).walks@,
            final(self).failed_walks@ == old(self).failed_walks@,
    {
        let ghost prev = self.scope;
        if self.scope.lookup(name).is_none() && self.scope.values.len() == usize::MAX {
            return Err(CompileError::SymbolTableFull);
        }
        self.scope.add_or_update_global_variable(name, SlotValue::Undefined);
        proof {
            let s = self.scope;
            assert forall|n: Seq<char>| prev.bound(n) && !(n == name@) implies #[trigger] s.value_of(n)
                == prev.value_of(n) by {
                lemma_distinct_slots(s, n, name@);
            }
        }
        Ok(())
    }

    /// Binds the single name of a target, if it is one.
    fn declare_target(&mut self, names: &Vec<String>) -> (r: Result<(), CompileError>)
        requires
            old(self).scope.wf(),
        ensures
            r is Err ==> r == Err::<(), CompileError>(CompileError::SymbolTableFull)
                && final(self).scope.values@.len() >= usize::MAX,
            r is Ok ==> extends_with(
                old(self).scope,
                final(self).scope,
                |n: Seq<char>| names@.len() == 1 && names@[0]@ == n,
            ),
            keeps_within(
                old(self).scope,
                final(self).scope,
                |n: Seq<char>| names@.len() == 1 && names@[0]@ == n,
            ),
            final(self).filename_stack == old(self).filename_stack,
            final(self).walks@ == old(self).walks@,
            final(self).failed_walks@ == old(self).failed_walks@,
    {
        if names.len() == 1 {
            self.predefine_global_types(names[0].as_str())
        } else {
            Ok(())
        }
    }

    /// Binds every single-name variable target of `body` to the placeholder,
    /// looking into both branches of conditionals but not into schema or
    /// rule bodies.
    pub fn emit_global_vars(&mut self, body: &Vec<Stmt>) -> (r: Result<(), CompileError>)
        requires
            old(self).scope.wf(),
        ensures
            r is Err ==> r == Err::<(), CompileError>(CompileError::SymbolTableFull)
                && final(self).scope.values@.len() >= usize::MAX,
            r is Ok ==> extends_with(
                old(self).scope,
                final(self).scope,
                |n: Seq<char>| body_declares_var(body@, n),
            ),
            keeps_within(
                old(self).scope,
                final(self).scope,
                |n: Seq<char>| body_declares_var(body@, n),
            ),
            final(self).filename_stack == old(self).filename_stack,
            final(self).walks@ == old(self).walks@,
            final(self).failed_walks@ == old(self).failed_walks@,
        decreases body@,
    {
        let ghost start = self.scope;
        let ghost decl = |n: Seq<char>| body_declares_var(body@, n);
        let mut i: usize = 0;
        while i < body.len()
            invariant
                i <= body@.len(),
                self.filename_stack == old(self).filename_stack,
                self.walks@ == old(self).walks@,
                self.failed_walks@ == old(self).failed_walks@,
                extends_with(
                    start,
                    self.scope,
                    |n: Seq<char>| exists|k: int| 0 <= k < i && stmt_declares_var(#[trigger] body@[k], n),
                ),
                keeps_within(start, self.scope, decl),
                start == old(self).scope,
                forall|n: Seq<char>| #[trigger] decl(n) == body_declares_var(body@, n),
            decreases body@.len() - i,
        {
            let ghost before = self.scope;
            let ghost here = |n: Seq<char>| stmt_declares_var(body@[i as int], n);
            let step = self.emit_stmt_vars(&body[i]);
            proof {
                assert forall|n: Seq<char>| #[trigger] here(n) implies decl(n) by {
                    assert(stmt_declares_var(body@[i as int], n));
                }
                lemma_keeps_trans(start, before, self.scope, decl);
            }
            if step.is_err() {
                return step;
            }
            proof {
                let prefix = |n: Seq<char>| exists|k: int| 0 <= k < i && stmt_declares_var(#[trigger] body@[k], n);
                let next = |n: Seq<char>| exists|k: int| 0 <= k < i + 1 && stmt_declares_var(#[trigger] body@[k], n);
                assert forall|n: Seq<char>| #[trigger] next(n) == (prefix(n) || here(n)) by {
                    if next(n) {
                        let k = choose|k: int| 0 <= k < i + 1 && stmt_declares_var(#[trigger] body@[k], n);
                        if k < i {
                            assert(prefix(n));
                        }
                    }
                    if here(n) {
                        assert(stmt_declares_var(body@[i as int], n));
                    }
                }
                lemma_extends_trans(start, before, self.scope, prefix, here, next);
            }
            i = i + 1;
        }
        proof {
            let all = |n: Seq<char>| exists|k: int| 0 <= k < i && stmt_declares_var(#[trigger] body@[k], n);
            assert forall|n: Seq<char>| #[trigger] decl(n) == (all(n) || false) by {}
            lemma_extends_trans(start, self.scope, self.scope, all, |n: Seq<char>| false, decl);
        }
        Ok(())
    }

    fn emit_stmt_vars(&mut self, stmt: &Stmt) -> (r: Result<(), CompileError>)
        requires
            old(self).scope.wf(),
        ensures
            r is Err ==> r == Err::<(), CompileError>(CompileError::SymbolTableFull)
                && final(self).scope.values@.len() >= usize::MAX,
            r is Ok ==> extends_with(
                old(self).scope,
                final(self).scope,
                |n: Seq<char>| stmt_declares_var(*stmt, n),
            ),
            keeps_within(
                old(self).scope,
                final(self).scope,
                |n: Seq<char>| stmt_declares_var(*stmt, n),
            ),
            final(self).filename_stack == old(self).filename_stack,
            final(self).walks@ == old(self).walks@,
            final(self).failed_walks@ == old(self).failed_walks@,
        decreases *stmt,
    {
        let ghost start = self.scope;
        let ghost decl = |n: Seq<char>| stmt_declares_var(*stmt, n);
        match stmt {
            Stmt::Unification(u) => {
                let r = self.declare_target(&u.target.names);
                proof {
                    assert forall|n: Seq<char>| #[trigger] decl(n) == (u.target.names@.len() == 1 && u.target.names@[0]@ == n) by {}
                    if r is Ok {
                        lemma_extends_trans(start, self.scope, self.scope,
                            |n: Seq<char>| u.target.names@.len() == 1 && u.target.names@[0]@ == n,
                            |n: Seq<char>| false, decl);
                    }
                }
                r
            },
            Stmt::Assign(a) => {
                let mut j: usize = 0;
                while j < a.targets.len()
                    invariant
                        j <= a.targets@.len(),
                        *stmt == Stmt::Assign(*a),
                        self.filename_stack == old(self).filename_stack,
                        self.walks@ == old(self).walks@,
                        self.failed_walks@ == old(self).failed_walks@,
                        extends_with(
                            start,
                            self.scope,
                            |n: Seq<char>| exists|k: int| 0 <= k < j && single_name(#[trigger] a.targets@[k]) == Some(n),
                        ),
                        keeps_within(start, self.scope, decl),
                        start == old(self).scope,
                        forall|n: Seq<char>| #[trigger] decl(n) == stmt_declares_var(*stmt, n),
                    decreases a.targets@.len() - j,
                {
                    let ghost before = self.scope;
                    let ghost here = |n: Seq<char>| a.targets@[j as int].names@.len() == 1 && a.targets@[j as int].names@[0]@ == n;
                    let step = self.declare_target(&a.targets[j].names);
                    proof {
                        assert forall|n: Seq<char>| #[trigger] here(n) implies decl(n) by {
                            assert(single_name(a.targets@[j as int]) == Some(n));
                        }
                        lemma_keeps_trans(start, before, self.scope, decl);
                    }
                    if step.is_err() {
                        return step;
                    }
                    proof {
                        let prefix = |n: Seq<char>| exists|k: int| 0 <= k < j && single_name(#[trigger] a.targets@[k]) == Some(n);
                        let next = |n: Seq<char>| exists|k: int| 0 <= k < j + 1 && single_name(#[trigger] a.targets@[k]) == Some(n);
                        assert forall|n: Seq<char>| #[trigger] next(n) == (prefix(n) || here(n)) by {
                            if next(n) {
                                let k = choose|k: int| 0 <= k < j + 1 && single_name(#[trigger] a.targets@[k]) == Some(n);
                                if k < j {
                                    assert(prefix(n));
                                }
                            }
                            if here(n) {
                                assert(single_name(a.targets@[j as int]) == Some(n));
                            }
                        }
                        lemma_extends_trans(start, before, self.scope, prefix, here, next);
                    }
                    j = j + 1;
                }
                proof {
                    let all = |n: Seq<char>| exists|k: int| 0 <= k < j && single_name(#[trigger] a.targets@[k]) == Some(n);
                    assert forall|n: Seq<char>| #[trigger] decl(n) == (all(n) || false) by {}
                    lemma_extends_trans(start, self.scope, self.scope, all, |n: Seq<char>| false, decl);
                }
                Ok(())
            },
            Stmt::If(f) => {
                proof {
                    assert(decreases_to!(*stmt => f.body@));
                    assert(decreases_to!(*stmt => f.orelse@));
                }
                let ghost d1 = |n: Seq<char>| body_declares_var(f.body@, n);
                let ghost d2 = |n: Seq<char>| body_declares_var(f.orelse@, n);
                proof {
                    assert forall|n: Seq<char>| #[trigger] decl(n) == (d1(n) || d2(n)) by {}
                    assert forall|n: Seq<char>| #[trigger] d1(n) implies decl(n) by {}
                    assert forall|n: Seq<char>| #[trigger] d2(n) implies decl(n) by {}
                }
                let first = self.emit_global_vars(&f.body);
                let ghost mid = self.scope;
                if first.is_err() {
                    return first;
                }
                let second = self.emit_global_vars(&f.orelse);
                proof {
                    lemma_keeps_trans(start, mid, self.scope, decl);
                }
                if second.is_err() {
                    return second;
                }
                proof {
                    lemma_extends_trans(start, mid, self.scope, d1, d2, decl);
                }
                Ok(())
            },
            _ => {
                proof {
                    lemma_extends_refl(start, decl);
                }
                Ok(())
            },
        }
    }

    /// Pass-two work for one module: binds each top-level schema and rule
    /// name to the placeholder before its definition is walked, and walks
    /// the imports.
    pub fn compile_module_import_and_types(&mut self, module: &Module) -> (r: Result<(), CompileError>)
        requires
            old(self).scope.wf(),
        ensures
            r matches Err(CompileError::SymbolTableFull) ==> final(self).scope.values@.len() >= usize::MAX,
            r is Ok ==> extends_with(
                old(self).scope,
                final(self).scope,
                |n: Seq<char>| body_declares_type(module.body@, n),
            ),
            keeps_within(
                old(self).scope,
                final(self).scope,
                |n: Seq<char>| body_declares_type(module.body@, n),
            ),
            final(self).filename_stack == old(self).filename_stack,
            r matches Err(CompileError::Emit(_)) <==> final(self).failed_walks@ == old(self).failed_walks@ + 1,
            !(r matches Err(CompileError::Emit(_))) ==> final(self).failed_walks@ == old(self).failed_walks@,
            r is Ok ==> final(self).walks@ == old(self).walks@ + type_pass_walks(module.body@),
            final(self).walks@ <= old(self).walks@ + type_pass_walks(module.body@),
            (forall|k: int| 0 <= k < module.body@.len() ==> !walked_in_type_pass(#[trigger] module.body@[k]))
                ==> r is Ok,
            old(self).scope.values@.len() + module.body@.len() < usize::MAX
                ==> !(r matches Err(CompileError::SymbolTableFull)),
    {
        let ghost start = self.scope;
        let ghost decl = |n: Seq<char>| body_declares_type(module.body@, n);
        let mut i: usize = 0;
        while i < module.body.len()
            invariant
                i <= module.body@.len(),
                self.filename_stack == old(self).filename_stack,
                self.walks@ == old(self).walks@ + type_pass_walks(module.body@.subrange(0, i as int)),
                self.failed_walks@ == old(self).failed_walks@,
                self.scope.values@.len() <= old(self).scope.values@.len() + i,
                extends_with(
                    start,
                    self.scope,
                    |n: Seq<char>| exists|k: int| 0 <= k < i && stmt_type_name(#[trigger] module.body@[k]) == Some(n),
                ),
                keeps_within(start, self.scope, decl),
                start == old(self).scope,
                forall|n: Seq<char>| #[trigger] decl(n) == body_declares_type(module.body@, n),
            decreases module.body@.len() - i,
        {
            let ghost before = self.scope;
            let ghost walks_before = self.walks@;
            proof {
                let pre = module.body@.subrange(0, i + 1);
                assert(pre.drop_last() =~= module.body@.subrange(0, i as int));
                assert(pre.last() == module.body@[i as int]);
            }
            let ghost here = |n: Seq<char>| stmt_type_name(module.body@[i as int]) == Some(n);
            let step = match &module.body[i] {
                Stmt::Import(s) => {
                    let r = self.walker.walk_import_stmt(&self.scope, &self.filename_stack, s);
                    self.note_walk(r.is_err());
                    proof {
                        lemma_extends_refl(before, here);
                    }
                    match r {
                        Ok(()) => Ok(()),
                        Err(e) => Err(CompileError::Emit(e)),
                    }
                },
                Stmt::Schema(s) => {
                    match self.predefine_global_types(s.name.as_str()) {
                        Ok(()) => {
                            let r = self.walker.walk_schema_stmt(&self.scope, &self.filename_stack, s);
                            self.note_walk(r.is_err());
                            match r {
                                Ok(()) => Ok(()),
                                Err(e) => Err(CompileError::Emit(e)),
                            }
                        },
                        Err(e) => Err(e),
                    }
                },
                Stmt::Rule(s) => {
                    match self.predefine_global_types(s.name.as_str()) {
                        Ok(()) => {
                            let r = self.walker.walk_rule_stmt(&self.scope, &self.filename_stack, s);
                            self.note_walk(r.is_err());
                            match r {
                                Ok(()) => Ok(()),
                                Err(e) => Err(CompileError::Emit(e)),
                            }
                        },
                        Err(e) => Err(e),
                    }
                },
                _ => {
                    proof {
                        lemma_extends_refl(before, here);
                    }
                    Ok(())
                },
            };
            proof {
                assert forall|n: Seq<char>| #[trigger] here(n) implies decl(n) by {
                    assert(stmt_type_name(module.body@[i as int]) == Some(n));
                }
                if self.scope != before {
                    assert forall|n: Seq<char>| #[trigger] self.scope.bound(n) implies before.bound(n) || decl(n) by {
                        if !before.bound(n) {
                            assert(here(n));
                        }
                    }
                }
                lemma_keeps_trans(start, before, self.scope, decl);
            }
            if step.is_err() {
                proof {
                    lemma_type_pass_walks_prefix(module.body@, i + 1);
                }
                return step;
            }
            proof {
                let prefix = |n: Seq<char>| exists|k: int| 0 <= k < i && stmt_type_name(#[trigger] module.body@[k]) == Some(n);
                let next = |n: Seq<char>| exists|k: int| 0 <= k < i + 1 && stmt_type_name(#[trigger] module.body@[k]) == Some(n);
                assert forall|n: Seq<char>| #[trigger] next(n) == (prefix(n) || here(n)) by {
                    if next(n) {
                        let k = choose|k: int| 0 <= k < i + 1 && stmt_type_name(#[trigger] module.body@[k]) == Some(n);
                        if k < i {
                            assert(prefix(n));
                        }
                    }
                }
                lemma_extends_trans(start, before, self.scope, prefix, here, next);
            }
            i = i + 1;
        }
        proof {
            assert(module.body@.subrange(0, i as int) =~= module.body@);
            let all = |n: Seq<char>| exists|k: int| 0 <= k < i && stmt_type_name(#[trigger] module.body@[k]) == Some(n);
            assert forall|n: Seq<char>| #[trigger] decl(n) == (all(n) || false) by {}
            lemma_extends_trans(start, self.scope, self.scope, all, |n: Seq<char>| false, decl);
        }
        Ok(())
    }

    /// Pass-one work for one module.
    #[inline]
    pub fn predefine_global_vars(&mut self, module: &Module) -> (r: Result<(), CompileError>)
        requires
            old(self).scope.wf(),
        ensures
            r is Err ==> r == Err::<(), CompileError>(CompileError::SymbolTableFull)
                && final(self).scope.values@.len() >= usize::MAX,
            r is Ok ==> extends_with(
                old(self).scope,
                final(self).scope,
                |n: Seq<char>| body_declares_var(module.body@, n),
            ),
            keeps_within(
                old(self).scope,
                final(self).scope,
                |n: Seq<char>| body_declares_var(module.body@, n),
            ),
            final(self).filename_stack == old(self).filename_stack,
            final(self).walks@ == old(self).walks@,
            final(self).failed_walks@ == old(self).failed_walks@,
    {
        self.emit_global_vars(&module.body)
    }

    /// Pass one: the variable scan of every module, each under its file.
    pub fn scan_global_vars(&mut self, modules: &Vec<Module>) -> (r: Result<(), CompileError>)
        requires
            old(self).scope.wf(),
        ensures
            modules@.len() == 0 ==> r is Ok,
            r is Err ==> r == Err::<(), CompileError>(CompileError::SymbolTableFull)
                && final(self).scope.values@.len() >= usize::MAX,
            r is Ok ==> extends_with(
                old(self).scope,
                final(self).scope,
                |n: Seq<char>| modules_declare_var(modules@, n),
            ),
            keeps_within(
                old(self).scope,
                final(self).scope,
                |n: Seq<char>| modules_declare_var(modules@, n),
            ),
            final(self).filename_stack@ == old(self).filename_stack@,
            final(self).walks@ == old(self).walks@,
            final(self).failed_walks@ == old(self).failed_walks@,
    {
        let ghost start = self.scope;
        let ghost decl = |n: Seq<char>| modules_declare_var(modules@, n);
        let mut i: usize = 0;
        while i < modules.len()
            invariant
                i <= modules@.len(),
                self.filename_stack@ == old(self).filename_stack@,
                self.walks@ == old(self).walks@,
                self.failed_walks@ == old(self).failed_walks@,
                extends_with(
                    start,
                    self.scope,
                    |n: Seq<char>| exists|k: int| 0 <= k < i && body_declares_var(#[trigger] modules@[k].body@, n),
                ),
                keeps_within(start, self.scope, decl),
                start == old(self).scope,
                forall|n: Seq<char>| #[trigger] decl(n) == modules_declare_var(modules@, n),
            decreases modules@.len() - i,
        {
            let ghost before = self.scope;
            let ghost here = |n: Seq<char>| body_declares_var(modules@[i as int].body@, n);
            self.filename_stack.push(modules[i].filename.clone());
            let step = self.predefine_global_vars(&modules[i]);
            self.filename_stack.pop();
            proof {
                assert(self.filename_stack@ =~= old(self).filename_stack@);
                assert forall|n: Seq<char>| #[trigger] here(n) implies decl(n) by {
                    assert(body_declares_var(modules@[i as int].body@, n));
                }
                lemma_keeps_trans(start, before, self.scope, decl);
            }
            if step.is_err() {
                return step;
            }
            proof {
                let prefix = |n: Seq<char>| exists|k: int| 0 <= k < i && body_declares_var(#[trigger] modules@[k].body@, n);
                let next = |n: Seq<char>| exists|k: int| 0 <= k < i + 1 && body_declares_var(#[trigger] modules@[k].body@, n);
                assert forall|n: Seq<char>| #[trigger] next(n) == (prefix(n) || here(n)) by {
                    if next(n) {
                        let k = choose|k: int| 0 <= k < i + 1 && body_declares_var(#[trigger] modules@[k].body@, n);
                        if k < i {
                            assert(prefix(n));
                        }
                    }
                }
                lemma_extends_trans(start, before, self.scope, prefix, here, next);
            }
            i = i + 1;
        }
        proof {
            let all = |n: Seq<char>| exists|k: int| 0 <= k < i && body_declares_var(#[trigger] modules@[k].body@, n);
            assert forall|n: Seq<char>| #[trigger] decl(n) == (all(n) || false) by {}
            lemma_extends_trans(start, self.scope, self.scope, all, |n: Seq<char>| false, decl);
        }
        Ok(())
    }

    /// Pass two: the type scan and the imports of every module, each under
    /// its file.
    pub fn scan_global_types(&mut self, modules: &Vec<Module>) -> (r: Result<(), CompileError>)
        requires
            old(self).scope.wf(),
        ensures
            modules@.len() == 0 ==> r is Ok,
            r matches Err(CompileError::SymbolTableFull) ==> final(self).scope.values@.len() >= usize::MAX,
            r is Ok ==> extends_with(
                old(self).scope,
                final(self).scope,
                |n: Seq<char>| modules_declare_type(modules@, n),
            ),
            keeps_within(
                old(self).scope,
                final(self).scope,
                |n: Seq<char>| modules_declare_type(modules@, n),
            ),
            final(self).filename_stack@ == old(self).filename_stack@,
            r matches Err(CompileError::Emit(_)) <==> final(self).failed_walks@ == old(self).failed_walks@ + 1,
            !(r matches Err(CompileError::Emit(_))) ==> final(self).failed_walks@ == old(self).failed_walks@,
            r is Ok ==> final(self).walks@ == old(self).walks@ + modules_type_pass_walks(modules@),
    {
        let ghost start = self.scope;
        let ghost decl = |n: Seq<char>| modules_declare_type(modules@, n);
        let mut i: usize = 0;
        while i < modules.len()
            invariant
                i <= modules@.len(),
                self.filename_stack@ == old(self).filename_stack@,
                self.failed_walks@ == old(self).failed_walks@,
                self.walks@ == old(self).walks@ + modules_type_pass_walks(modules@.subrange(0, i as int)),
                extends_with(
                    start,
                    self.scope,
                    |n: Seq<char>| exists|k: int| 0 <= k < i && body_declares_type(#[trigger] modules@[k].body@, n),
                ),
                keeps_within(start, self.scope, decl),
                start == old(self).scope,
                forall|n: Seq<char>| #[trigger] decl(n) == modules_declare_type(modules@, n),
            decreases modules@.len() - i,
        {
            let ghost before = self.scope;
            proof {
                let pre = modules@.subrange(0, i + 1);
                assert(pre.drop_last() =~= modules@.subrange(0, i as int));
                assert(pre.last() == modules@[i as int]);
            }
            let ghost here = |n: Seq<char>| body_declares_type(modules@[i as int].body@, n);
            self.filename_stack.push(modules[i].filename.clone());
            let step = self.compile_module_import_and_types(&modules[i]);
            self.filename_stack.pop();
            proof {
                assert(self.filename_stack@ =~= old(self).filename_stack@);
                assert forall|n: Seq<char>| #[trigger] here(n) implies decl(n) by {
                    assert(body_declares_type(modules@[i as int].body@, n));
                }
                lemma_keeps_trans(start, before, self.scope, decl);
            }
            if step.is_err() {
                return step;
            }
            proof {
                let prefix = |n: Seq<char>| exists|k: int| 0 <= k < i && body_declares_type(#[trigger] modules@[k].body@, n);
                let next = |n: Seq<char>| exists|k: int| 0 <= k < i + 1 && body_declares_type(#[trigger] modules@[k].body@, n);
                assert forall|n: Seq<char>| #[trigger] next(n) == (prefix(n) || here(n)) by {
                    if next(n) {
                        let k = choose|k: int| 0 <= k < i + 1 && body_declares_type(#[trigger] modules@[k].body@, n);
                        if k < i {
                            assert(prefix(n));
                        }
                    }
                }
                lemma_extends_trans(start, before, self.scope, prefix, here, next);
            }
            i = i + 1;
        }
        proof {
            assert(modules@.subrange(0, i as int) =~= modules@);
            let all = |n: Seq<char>| exists|k: int| 0 <= k < i && body_declares_type(#[trigger] modules@[k].body@, n);
            assert forall|n: Seq<char>| #[trigger] decl(n) == (all(n) || false) by {}
            lemma_extends_trans(start, self.scope, self.scope, all, |n: Seq<char>| false, decl);
        }
        Ok(())
    }

    /// Pass three: the emitter on every module, each under its file. The
    /// bindings are only read here.
    pub fn emit_modules(&mut self, modules: &Vec<Module>) -> (r: Result<(), CompileError>)
        requires
            old(self).scope.wf(),
            forall|n: Seq<char>|
                modules_declare_var(modules@, n) || modules_declare_type(modules@, n)
                    ==> #[trigger] old(self).scope.bound(n),
        ensures
            modules@.len() == 0 ==> r is Ok,
            final(self).scope == old(self).scope,
            final(self).filename_stack@ == old(self).filename_stack@,
            r is Err ==> r->Err_0 is Emit,
            r is Err <==> final(self).failed_walks@ == old(self).failed_walks@ + 1,
            r is Ok ==> final(self).failed_walks@ == old(self).failed_walks@
                && final(self).walks@ == old(self).walks@ + modules@.len(),
            final(self).walks@ <= old(self).walks@ + modules@.len(),
    {
        let mut i: usize = 0;
        while i < modules.len()
            invariant
                i <= modules@.len(),
                self.filename_stack@ == old(self).filename_stack@,
                self.scope == old(self).scope,
                self.walks@ == old(self).walks@ + i,
                self.failed_walks@ == old(self).failed_walks@,
                self.scope.wf(),
                forall|n: Seq<char>|
                    modules_declare_var(modules@, n) || modules_declare_type(modules@, n)
                        ==> #[trigger] self.scope.bound(n),
            decreases modules@.len() - i,
        {
            self.filename_stack.push(modules[i].filename.clone());
            let step = self.walker.walk_module(&self.scope, &self.filename_stack, &modules[i], modules);
            self.note_walk(step.is_err());
            self.filename_stack.pop();
            proof {
                assert(self.filename_stack@ =~= old(self).filename_stack@);
            }
            if let Err(e) = step {
                return Err(CompileError::Emit(e));
            }
            i = i + 1;
        }
        Ok(())
    }

    /// Compiles the modules in three full passes: variables, then types
    /// and imports, then every statement. A failure in any pass ends the
    /// compilation; the file stack is back as it was on every path.
    pub fn compile_ast_modules(&mut self, modules: &Vec<Module>) -> (r: Result<(), CompileError>)
        requires
            old(self).scope.wf(),
        ensures
            modules@.len() == 0 ==> r is Ok,
            r matches Err(CompileError::SymbolTableFull) ==> final(self).scope.values@.len() >= usize::MAX,
            final(self).filename_stack@ == old(self).filename_stack@,
            r matches Err(CompileError::Emit(_)) <==> final(self).failed_walks@ == old(self).failed_walks@ + 1,
            !(r matches Err(CompileError::Emit(_))) ==> final(self).failed_walks@ == old(self).failed_walks@,
            r is Ok ==> final(self).walks@ == old(self).walks@ + modules_type_pass_walks(modules@)
                + modules@.len(),
            final(self).scope.wf(),
            r is Ok ==> extends_with(
                old(self).scope,
                final(self).scope,
                |n: Seq<char>| modules_declare_var(modules@, n) || modules_declare_type(modules@, n),
            ),
            keeps_within(
                old(self).scope,
                final(self).scope,
                |n: Seq<char>| modules_declare_var(modules@, n) || modules_declare_type(modules@, n),
            ),
    {
        let ghost start = self.scope;
        let ghost d1 = |n: Seq<char>| modules_declare_var(modules@, n);
        let ghost d2 = |n: Seq<char>| modules_declare_type(modules@, n);
        let ghost d = |n: Seq<char>| modules_declare_var(modules@, n) || modules_declare_type(modules@, n);
        let first = self.scan_global_vars(modules);
        let ghost mid = self.scope;
        proof {
            assert forall|n: Seq<char>| #[trigger] d1(n) implies d(n) by {}
            assert forall|n: Seq<char>| #[trigger] d2(n) implies d(n) by {}
            assert forall|n: Seq<char>| #[trigger] d(n) == (d1(n) || d2(n)) by {}
            assert(keeps_within(start, mid, d));
        }
        if first.is_err() {
            return first;
        }
        let second = self.scan_global_types(modules);
        proof {
            assert(keeps_within(mid, self.scope, d));
            lemma_keeps_trans(start, mid, self.scope, d);
        }
        if second.is_err() {
            return second;
        }
        proof {
            lemma_extends_trans(start, mid, self.scope, d1, d2, d);
        }
        self.emit_modules(modules)
    }
}

} // verus!

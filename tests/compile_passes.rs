use kclvm_runner::ast::{
    AssignStmt, Identifier, IfStmt, ImportStmt, Module, RuleStmt, SchemaStmt, Stmt,
    UnificationStmt,
};
use kclvm_runner::codegen::{CompileError, LLVMCodeGenContext, ModuleWalker};
use kclvm_runner::scope::{GlobalScope, SlotValue};

fn ident(name: &str) -> Identifier {
    Identifier { names: vec![name.to_string()] }
}

fn assign(name: &str) -> Stmt {
    Stmt::Assign(AssignStmt { targets: vec![ident(name)] })
}

fn module(filename: &str, body: Vec<Stmt>) -> Module {
    Module { filename: filename.to_string(), body }
}

/// Records what it was asked to walk and checks, in the emit pass, that the
/// names it was told to expect are bound.
#[derive(Default)]
struct Recorder {
    imports: Vec<String>,
    types: Vec<String>,
    modules: Vec<(String, usize)>,
    expect_bound: Vec<String>,
    unresolved: Vec<String>,
    fail_on: Option<String>,
    program_sizes: Vec<usize>,
}

impl ModuleWalker for Recorder {
    fn walk_import_stmt(
        &mut self,
        _scope: &GlobalScope,
        _files: &Vec<String>,
        stmt: &ImportStmt,
    ) -> Result<(), String> {
        self.imports.push(stmt.path.clone());
        Ok(())
    }

    fn walk_schema_stmt(
        &mut self,
        scope: &GlobalScope,
        _files: &Vec<String>,
        stmt: &SchemaStmt,
    ) -> Result<(), String> {
        // A schema may refer to itself.
        if scope.lookup(&stmt.name).is_none() {
            self.unresolved.push(stmt.name.clone());
        }
        self.types.push(stmt.name.clone());
        Ok(())
    }

    fn walk_rule_stmt(
        &mut self,
        scope: &GlobalScope,
        _files: &Vec<String>,
        stmt: &RuleStmt,
    ) -> Result<(), String> {
        if scope.lookup(&stmt.name).is_none() {
            self.unresolved.push(stmt.name.clone());
        }
        self.types.push(stmt.name.clone());
        Ok(())
    }

    fn walk_module(
        &mut self,
        scope: &GlobalScope,
        files: &Vec<String>,
        module: &Module,
        program: &Vec<Module>,
    ) -> Result<(), String> {
        self.program_sizes.push(program.len());
        self.modules.push((files.last().cloned().unwrap_or_default(), files.len()));
        for name in &self.expect_bound {
            if scope.lookup(name).is_none() {
                self.unresolved.push(name.clone());
            }
        }
        if self.fail_on.as_deref() == Some(module.filename.as_str()) {
            return Err(format!("cannot emit {}", module.filename));
        }
        Ok(())
    }
}

#[test]
fn forward_references_across_modules_resolve() {
    let modules = vec![
        module("a.k", vec![assign("x")]),
        module(
            "b.k",
            vec![
                Stmt::Schema(SchemaStmt { name: "Person".to_string() }),
                assign("y"),
                Stmt::Rule(RuleStmt { name: "Check".to_string() }),
            ],
        ),
    ];
    let walker = Recorder {
        expect_bound: vec!["x".into(), "y".into(), "Person".into(), "Check".into()],
        ..Default::default()
    };
    let mut ctx = LLVMCodeGenContext::new(walker);
    assert_eq!(ctx.compile_ast_modules(&modules), Ok(()));
    assert!(ctx.walker.unresolved.is_empty());
    assert_eq!(ctx.walker.types, vec!["Person".to_string(), "Check".to_string()]);
    assert_eq!(
        ctx.walker.modules,
        vec![("a.k".to_string(), 1), ("b.k".to_string(), 1)]
    );
    for name in ["x", "y", "Person", "Check"] {
        let slot = ctx.scope.lookup(name).unwrap();
        assert_eq!(ctx.scope.values[slot], SlotValue::Undefined);
    }
    assert!(ctx.filename_stack.is_empty());
    assert_eq!(ctx.walker.program_sizes, vec![2, 2]);
}

#[test]
fn imports_are_walked_in_the_type_pass() {
    let modules = vec![module(
        "main.k",
        vec![
            Stmt::Import(ImportStmt { path: "pkg.sub".to_string(), asname: None }),
            Stmt::Other,
        ],
    )];
    let mut ctx = LLVMCodeGenContext::new(Recorder::default());
    assert_eq!(ctx.compile_ast_modules(&modules), Ok(()));
    assert_eq!(ctx.walker.imports, vec!["pkg.sub".to_string()]);
    assert!(ctx.scope.names.is_empty());
}

#[test]
fn redeclaring_a_type_keeps_one_slot() {
    let mut ctx = LLVMCodeGenContext::new(Recorder::default());
    assert_eq!(ctx.predefine_global_types("Person"), Ok(()));
    let slot = ctx.scope.lookup("Person").unwrap();
    ctx.scope.values[slot] = SlotValue::Handle(7);
    assert_eq!(ctx.predefine_global_types("Person"), Ok(()));
    assert_eq!(ctx.scope.lookup("Person"), Some(slot));
    assert_eq!(ctx.scope.names.len(), 1);
    assert_eq!(ctx.scope.values.len(), 1);
    assert_eq!(ctx.scope.values[slot], SlotValue::Undefined);
}

#[test]
fn variable_then_type_with_one_name_shares_the_slot() {
    let modules = vec![
        module("a.k", vec![assign("Person")]),
        module("b.k", vec![Stmt::Schema(SchemaStmt { name: "Person".to_string() })]),
    ];
    let mut ctx = LLVMCodeGenContext::new(Recorder::default());
    assert_eq!(ctx.compile_ast_modules(&modules), Ok(()));
    assert_eq!(ctx.scope.names.len(), 1);
    assert_eq!(ctx.scope.values.len(), 1);
}

#[test]
fn conditional_branch_targets_are_visible() {
    let body = vec![Stmt::If(IfStmt {
        body: vec![assign("a")],
        orelse: vec![Stmt::If(IfStmt {
            body: vec![Stmt::Unification(UnificationStmt { target: ident("b") })],
            orelse: vec![assign("c")],
        })],
    })];
    let mut ctx = LLVMCodeGenContext::new(Recorder::default());
    assert_eq!(ctx.emit_global_vars(&body), Ok(()));
    for name in ["a", "b", "c"] {
        assert!(ctx.scope.lookup(name).is_some(), "{name} should be bound");
    }
    assert_eq!(ctx.scope.names.len(), 3);
}

#[test]
fn dotted_and_schema_body_targets_are_not_bound() {
    let body = vec![
        Stmt::Assign(AssignStmt {
            targets: vec![
                Identifier { names: vec!["a".to_string(), "b".to_string()] },
                ident("c"),
            ],
        }),
        Stmt::Schema(SchemaStmt { name: "S".to_string() }),
    ];
    let mut ctx = LLVMCodeGenContext::new(Recorder::default());
    assert_eq!(ctx.emit_global_vars(&body), Ok(()));
    assert!(ctx.scope.lookup("a").is_none());
    assert!(ctx.scope.lookup("S").is_none());
    assert!(ctx.scope.lookup("c").is_some());
}

#[test]
fn file_stack_is_empty_after_a_failed_emit_pass() {
    let modules = vec![
        module("a.k", vec![assign("x")]),
        module("b.k", vec![assign("y")]),
        module("c.k", vec![assign("z")]),
    ];
    let walker = Recorder { fail_on: Some("b.k".to_string()), ..Default::default() };
    let mut ctx = LLVMCodeGenContext::new(walker);
    assert_eq!(
        ctx.compile_ast_modules(&modules),
        Err(CompileError::Emit("cannot emit b.k".to_string()))
    );
    assert!(ctx.filename_stack.is_empty());
    assert_eq!(ctx.walker.modules.len(), 2);
}

#[test]
fn store_variable_only_updates_existing_bindings() {
    let mut scope = GlobalScope::new();
    assert!(!scope.store_variable("v", SlotValue::Handle(1)));
    assert!(scope.values.is_empty());
    scope.add_or_update_global_variable("v", SlotValue::Undefined);
    assert!(scope.store_variable("v", SlotValue::Handle(3)));
    assert_eq!(scope.values, vec![SlotValue::Handle(3)]);
}

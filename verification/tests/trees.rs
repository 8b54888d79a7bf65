//! Syntax trees from reactive functions.

use std::rc::Rc;

use reactive_scopes::codegen_ast::fuse::fuse_scope_body_ternaries;
use reactive_scopes::codegen_ast::js::{
    Expr, ForLeft, Function, Item, JsxAttr, JsxName, Key, Member, Stmt, Target, TsType, VariableKind,
};
use reactive_scopes::codegen_ast::make::{
    call as make_call, declare_var, expression, ident, is_plain_attribute,
};
use reactive_scopes::codegen_ast::nested::body_has_any_property_loads;
use reactive_scopes::codegen_ast::outside::{choose_type, parse_ts_type};
use reactive_scopes::codegen_ast::scan::{
    collect_preferred_decl_names, pre_scan_destructure_call_fusion,
};
use reactive_scopes::codegen_ast::state::PreservedInitializer;
use reactive_scopes::codegen_ast::{
    codegen_reactive_function, CachePrologue, CodegenFunctionResult, CodegenOptions,
    FastRefreshPrologue,
};
use reactive_scopes::collections::{IdSet, IdTexts, NameSet};
use reactive_scopes::hir::{
    make_declaration_scope, Argument, ArrayElement, ArrayPattern, BinaryOperator, BlockId,
    DeclarationId, DependencyPathEntry, DirectLowering, EarlyReturnValue, Effect,
    FunctionExpressionType, HIRFunction, Identifier, IdentifierId, IdentifierName, InstructionId,
    InstructionKind, InstructionValue, JsxAttribute, JsxTag, LValue, LValuePattern, LogicalOperator,
    LoweredFunction, MutableRange, NonLocalBinding, NumberLiteral, ObjectProperty,
    ObjectPropertyKey, ObjectPropertyOrSpread, ObjectPropertyType, Pattern, Place, PrimitiveValue,
    PropertyLiteral, ReactiveFunction, ReactiveInstruction, ReactiveLabel, ReactiveScope,
    ReactiveScopeBlock, ReactiveScopeDependency, ReactiveStatement, ReactiveSwitchCase,
    ReactiveTerminal, ReactiveTerminalStatement, ReactiveTerminalTargetKind, ScopeDeclaration,
    ScopeDeclarations, ScopeId, SourceLocation, Type, TypeAnnotationKind, UpdateOperator, HIR,
};

// ---------------------------------------------------------------------------
// Writing trees
// ---------------------------------------------------------------------------

fn key(k: &Key) -> String {
    match k {
        Key::Name(s) => s.clone(),
        Key::Text(s) => format!("{:?}", s),
        Key::Number(s) => s.clone(),
        Key::Computed(e) => format!("[{}]", expr(e)),
    }
}

fn target(t: &Target) -> String {
    match t {
        Target::Identifier(s) => s.clone(),
        Target::Array { elements, rest } => {
            let mut parts: Vec<String> =
                elements.iter().map(|e| e.clone().unwrap_or_default()).collect();
            if let Some(r) = rest {
                parts.push(format!("...{}", r));
            }
            format!("[{}]", parts.join(", "))
        }
        Target::Object { properties, rest } => {
            let mut parts: Vec<String> = properties
                .iter()
                .map(|b| if b.shorthand { b.name.clone() } else { format!("{}: {}", key(&b.key), b.name) })
                .collect();
            if let Some(r) = rest {
                parts.push(format!("...{}", r));
            }
            format!("{{ {} }}", parts.join(", "))
        }
        Target::Member(e) => expr(e),
    }
}

fn items(v: &Vec<Item>) -> String {
    let parts: Vec<String> = v
        .iter()
        .map(|i| match i {
            Item::Value(e) => expr(e),
            Item::Spread(e) => format!("...{}", expr(e)),
            Item::Hole => String::new(),
        })
        .collect();
    parts.join(", ")
}

fn ts(t: &TsType) -> String {
    match t {
        TsType::Source(s) => format!("<{}>", s),
        TsType::Reference(s) => format!("<ref {}>", s),
    }
}

fn function(f: &Function) -> String {
    let mut params = f.params.clone();
    if let Some(r) = &f.rest {
        params.push(format!("...{}", r));
    }
    format!("({}) {}", params.join(", "), block(&f.body))
}

fn expr(e: &Expr) -> String {
    match e {
        Expr::Identifier(s) => s.clone(),
        Expr::Null => "null".to_string(),
        Expr::Boolean(b) => b.to_string(),
        Expr::Number(s) => s.clone(),
        Expr::Text(s) => format!("{:?}", s),
        Expr::Binary(op, l, r) => format!("{} {} {}", expr(l), binary(*op), expr(r)),
        Expr::Logical(op, l, r) => format!(
            "{} {} {}",
            expr(l),
            match op {
                LogicalOperator::And => "&&",
                LogicalOperator::Or => "||",
                LogicalOperator::NullishCoalescing => "??",
            },
            expr(r)
        ),
        Expr::Conditional(t, c, a) => format!("{} ? {} : {}", expr(t), expr(c), expr(a)),
        Expr::Call { callee, type_arg, args, optional } => format!(
            "{}{}{}({})",
            expr(callee),
            type_arg.as_ref().map(ts).unwrap_or_default(),
            if *optional { "?." } else { "" },
            items(args)
        ),
        Expr::New { callee, args } => format!("new {}({})", expr(callee), items(args)),
        Expr::Await(e) => format!("await({})", expr(e)),
        Expr::StaticMember { object, property, optional } => {
            format!("{}{}{}", expr(object), if *optional { "?." } else { "." }, property)
        }
        Expr::ComputedMember { object, property, .. } => format!("{}[{}]", expr(object), expr(property)),
        Expr::Chain(e) => format!("chain({})", expr(e)),
        Expr::Array(v) => format!("[{}]", items(v)),
        Expr::Object(v) => {
            let parts: Vec<String> = v
                .iter()
                .map(|m| match m {
                    Member::Spread(e) => format!("...{}", expr(e)),
                    Member::Property { key: k, value, shorthand, .. } => {
                        if *shorthand {
                            expr(value)
                        } else {
                            format!("{}: {}", key(k), expr(value))
                        }
                    }
                })
                .collect();
            format!("{{ {} }}", parts.join(", "))
        }
        Expr::Assign(t, v) => format!("{} = {}", target(t), expr(v)),
        Expr::Update { operator, prefix, target: t } => {
            let op = match operator {
                UpdateOperator::Increment => "++",
                UpdateOperator::Decrement => "--",
            };
            if *prefix {
                format!("{}{}", op, target(t))
            } else {
                format!("{}{}", target(t), op)
            }
        }
        Expr::Sequence(v) => format!("({})", v.iter().map(|e| expr(e)).collect::<Vec<_>>().join(", ")),
        Expr::Parenthesized(e) => format!("({})", expr(e)),
        Expr::As(e, t) => format!("{} as {}", expr(e), ts(t)),
        Expr::Satisfies(e, t) => format!("{} satisfies {}", expr(e), ts(t)),
        Expr::Arrow { is_expression, function: f } => {
            format!("=>{}{}", if *is_expression { "!" } else { "" }, function(f))
        }
        Expr::Function { id, function: f } => {
            format!("function {}{}", id.clone().unwrap_or_default(), function(f))
        }
        Expr::Direct { ticket, arrow } => format!("direct({}, {})", ticket, arrow),
        Expr::JsxElement { name, attributes, children } => {
            let tag = match name {
                JsxName::Builtin(s) => s.clone(),
                JsxName::Component(e) => expr(e),
                JsxName::Fragment => String::new(),
            };
            let attrs: Vec<String> = attributes
                .iter()
                .map(|a| match a {
                    JsxAttr::Attribute { name, value, fbt } => {
                        format!(" {}{}={{{}}}", name, if *fbt { "!" } else { "" }, expr(value))
                    }
                    JsxAttr::Spread(e) => format!(" {{...{}}}", expr(e)),
                })
                .collect();
            let inner = match children {
                Some(c) => c
                    .iter()
                    .map(|c| if c.text { format!("text {}", expr(&c.value)) } else { expr(&c.value) })
                    .collect::<Vec<_>>()
                    .join("|"),
                None => String::new(),
            };
            format!("<{}{}>{}</>", tag, attrs.join(""), inner)
        }
        other => format!("{:?}", other),
    }
}

fn binary(op: BinaryOperator) -> &'static str {
    match op {
        BinaryOperator::StrictEq => "===",
        BinaryOperator::StrictNotEq => "!==",
        BinaryOperator::Add => "+",
        BinaryOperator::Lt => "<",
        _ => "?",
    }
}

fn block(v: &Vec<Stmt>) -> String {
    if v.is_empty() {
        "{}".to_string()
    } else {
        format!("{{ {} }}", stmts(v))
    }
}

fn stmts(v: &Vec<Stmt>) -> String {
    v.iter().map(stmt).collect::<Vec<_>>().join(" ")
}

fn declaration(d: &reactive_scopes::codegen_ast::js::Declaration) -> String {
    let kind = match d.kind {
        VariableKind::Const => "const",
        VariableKind::Let => "let",
    };
    let parts: Vec<String> = d
        .declarators
        .iter()
        .map(|x| match &x.init {
            Some(e) => format!("{} = {}", target(&x.target), expr(e)),
            None => target(&x.target),
        })
        .collect();
    format!("{} {}", kind, parts.join(", "))
}

fn left(l: &ForLeft) -> String {
    match l {
        ForLeft::Declaration(d) => declaration(d),
        ForLeft::Target(t) => target(t),
    }
}

fn stmt(s: &Stmt) -> String {
    match s {
        Stmt::Expression(e) => format!("{};", expr(e)),
        Stmt::Variable(d) => format!("{};", declaration(d)),
        Stmt::Function { name, function } => format!("declare {} {};", name, expr(function)),
        Stmt::Return(None) => "return;".to_string(),
        Stmt::Return(Some(e)) => format!("return {};", expr(e)),
        Stmt::Throw(e) => format!("throw {};", expr(e)),
        Stmt::Break(l) => format!("break{};", l.as_ref().map(|l| format!(" {}", l)).unwrap_or_default()),
        Stmt::Continue(l) => {
            format!("continue{};", l.as_ref().map(|l| format!(" {}", l)).unwrap_or_default())
        }
        Stmt::If { test, consequent, alternate } => format!(
            "if ({}) {}{}",
            expr(test),
            block(consequent),
            alternate.as_ref().map(|a| format!(" else {}", block(a))).unwrap_or_default()
        ),
        Stmt::Block(v) => block(v),
        Stmt::Switch { discriminant, arms } => {
            let parts: Vec<String> = arms
                .iter()
                .map(|a| {
                    let head = match &a.test {
                        Some(e) => format!("case {}:", expr(e)),
                        None => "default:".to_string(),
                    };
                    if a.body.is_empty() {
                        head
                    } else {
                        format!("{} {}", head, stmts(&a.body))
                    }
                })
                .collect();
            format!("switch ({}) {{ {} }}", expr(discriminant), parts.join(" "))
        }
        Stmt::While { test, body } => format!("while ({}) {}", expr(test), block(body)),
        Stmt::DoWhile { body, test } => format!("do {} while ({});", block(body), expr(test)),
        Stmt::For { init, test, update, body } => format!(
            "for ({}; {}; {}) {}",
            init.as_ref().map(declaration).unwrap_or_default(),
            test.as_ref().map(|e| expr(e)).unwrap_or_default(),
            update.as_ref().map(|e| expr(e)).unwrap_or_default(),
            block(body)
        ),
        Stmt::ForOf { left: l, right, body } => {
            format!("for ({} of {}) {}", left(l), expr(right), block(body))
        }
        Stmt::ForIn { left: l, right, body } => {
            format!("for ({} in {}) {}", left(l), expr(right), block(body))
        }
        Stmt::Labeled { label, body } => format!("{}: {}", label, stmt(body)),
        Stmt::Try { block: b, handler, finalizer } => format!(
            "try {}{}{}",
            block(b),
            handler
                .as_ref()
                .map(|h| format!(
                    " catch{} {}",
                    h.param.as_ref().map(|p| format!(" ({})", p)).unwrap_or_default(),
                    block(&h.body)
                ))
                .unwrap_or_default(),
            finalizer.as_ref().map(|f| format!(" finally {}", block(f))).unwrap_or_default()
        ),
        Stmt::Debugger => "debugger;".to_string(),
        Stmt::Empty => ";".to_string(),
    }
}

// ---------------------------------------------------------------------------
// Building functions
// ---------------------------------------------------------------------------

fn identifier(id: u32, name: Option<&str>) -> Identifier {
    Identifier {
        id: IdentifierId(id),
        declaration_id: DeclarationId(id),
        name: name.map(|n| IdentifierName::Named(n.to_string())),
        mutable_range: MutableRange::default(),
        scope: None,
        type_: Type::Poly,
        loc: SourceLocation::Generated,
    }
}

fn named(id: u32, name: &str) -> Place {
    Place {
        identifier: identifier(id, Some(name)),
        effect: Effect::Unknown,
        reactive: false,
        loc: SourceLocation::Generated,
    }
}

fn temp(id: u32) -> Place {
    Place {
        identifier: identifier(id, None),
        effect: Effect::Unknown,
        reactive: false,
        loc: SourceLocation::Generated,
    }
}

fn instruction(lvalue: Option<Place>, value: InstructionValue) -> ReactiveInstruction {
    ReactiveInstruction { id: InstructionId(0), lvalue, value, loc: SourceLocation::Generated }
}

fn instr(lvalue: Option<Place>, value: InstructionValue) -> ReactiveStatement {
    ReactiveStatement::Instruction(Box::new(instruction(lvalue, value)))
}

fn load(place: Place) -> InstructionValue {
    InstructionValue::LoadLocal { place }
}

fn global(name: &str) -> InstructionValue {
    InstructionValue::LoadGlobal { binding: NonLocalBinding::Global { name: name.to_string() } }
}

fn text(s: &str) -> InstructionValue {
    InstructionValue::Primitive { value: PrimitiveValue::String(s.to_string()) }
}

fn number(n: u64) -> InstructionValue {
    InstructionValue::Primitive {
        value: PrimitiveValue::Number(NumberLiteral { display: n.to_string(), integer: Some(n) }),
    }
}

fn array(elements: Vec<Place>) -> InstructionValue {
    InstructionValue::ArrayExpression {
        elements: elements.into_iter().map(ArrayElement::Place).collect(),
    }
}

fn call(callee: Place, args: Vec<Place>) -> InstructionValue {
    InstructionValue::CallExpression {
        callee,
        args: args.into_iter().map(Argument::Place).collect(),
        optional: false,
    }
}

fn store(kind: InstructionKind, place: Place, value: Place) -> InstructionValue {
    InstructionValue::StoreLocal {
        lvalue: LValue { kind, place },
        value,
        loc: SourceLocation::Generated,
    }
}

fn terminal(t: ReactiveTerminal) -> ReactiveStatement {
    ReactiveStatement::Terminal(Box::new(ReactiveTerminalStatement { terminal: t, label: None }))
}

fn labeled(id: u32, implicit: bool, t: ReactiveTerminal) -> ReactiveStatement {
    ReactiveStatement::Terminal(Box::new(ReactiveTerminalStatement {
        terminal: t,
        label: Some(ReactiveLabel { id: BlockId(id), implicit }),
    }))
}

fn gives_back(place: Place) -> ReactiveStatement {
    terminal(ReactiveTerminal::Return { value: place })
}

fn func(params: Vec<Place>, body: Vec<ReactiveStatement>) -> ReactiveFunction {
    ReactiveFunction {
        loc: SourceLocation::Generated,
        id: Some("Component".to_string()),
        name_hint: None,
        params: params.into_iter().map(Argument::Place).collect(),
        generator: false,
        async_: false,
        body,
        directives: vec![],
    }
}

fn dependency(id: u32, name: &str, path: Vec<&str>) -> ReactiveScopeDependency {
    ReactiveScopeDependency {
        identifier: identifier(id, Some(name)),
        path: path
            .into_iter()
            .map(|p| DependencyPathEntry { property: p.to_string(), optional: false })
            .collect(),
    }
}

fn scope(
    id: u32,
    dependencies: Vec<ReactiveScopeDependency>,
    declares: Vec<(u32, &str)>,
    instructions: Vec<ReactiveStatement>,
) -> ReactiveScopeBlock {
    let mut declarations = ScopeDeclarations::new();
    for (d, name) in declares {
        declarations.insert(
            IdentifierId(d),
            ScopeDeclaration {
                identifier: identifier(d, Some(name)),
                scope: make_declaration_scope(ScopeId(id)),
            },
        );
    }
    ReactiveScopeBlock {
        scope: ReactiveScope {
            id: ScopeId(id),
            range: MutableRange::default(),
            dependencies,
            declarations,
            reassignments: vec![],
            merged_id: None,
            early_return_value: None,
        },
        instructions,
    }
}

fn options() -> CodegenOptions {
    CodegenOptions {
        enable_change_variable_codegen: false,
        enable_emit_hook_guards: false,
        enable_change_detection_for_debugging: false,
        enable_reset_cache_on_source_file_changes: false,
        fast_refresh_source_hash: None,
        disable_memoization_features: false,
        disable_memoization_for_debugging: false,
        fbt_operands: IdSet::new(),
        cache_binding_name: None,
        unique_identifiers: NameSet::new(),
        param_name_overrides: IdTexts::new(),
        enable_name_anonymous_functions: false,
        preserved_initializers: vec![],
    }
}

fn generate(f: &ReactiveFunction, o: CodegenOptions) -> (String, CodegenFunctionResult) {
    let r = codegen_reactive_function(f, o);
    (stmts(&r.body), r)
}

fn plain(params: Vec<Place>, body: Vec<ReactiveStatement>) -> String {
    generate(&func(params, body), options()).0
}

/// `y = [x]` in a scope that depends on `x`.
fn memo_func() -> ReactiveFunction {
    func(
        vec![named(1, "x")],
        vec![
            ReactiveStatement::Scope(scope(
                0,
                vec![dependency(1, "x", vec![])],
                vec![(2, "y")],
                vec![instr(Some(named(2, "y")), array(vec![named(1, "x")]))],
            )),
            gives_back(named(2, "y")),
        ],
    )
}

// ---------------------------------------------------------------------------
// Tests
// ---------------------------------------------------------------------------

#[test]
fn empty_function_has_no_cache() {
    let (body, r) = generate(&func(vec![], vec![]), options());
    assert_eq!(body, "");
    assert_eq!(r.cache_size, 0);
    assert!(!r.needs_cache_import);
    assert!(r.cache_prologue.is_none());
    assert!(r.error.is_none());
    assert!(r.param_names.is_empty());
}

#[test]
fn scope_with_dependency() {
    let (body, r) = generate(&memo_func(), options());
    assert_eq!(
        body,
        "let y; if ($[0] !== x) { y = [x]; $[0] = x; $[1] = y; } else { y = $[1]; } return y;"
    );
    assert_eq!(r.cache_size, 2);
    assert!(r.needs_cache_import);
    assert_eq!(
        r.cache_prologue,
        Some(CachePrologue { binding_name: "$".to_string(), size: 2, fast_refresh: None })
    );
    assert_eq!(r.param_names, vec!["x".to_string()]);
    assert!(!r.needs_hook_guards);
    assert!(!r.needs_function_hook_guard_wrapper);
    assert!(!r.needs_structural_check_import);
}

#[test]
fn scope_without_dependencies() {
    let f = func(
        vec![],
        vec![
            ReactiveStatement::Scope(scope(
                0,
                vec![],
                vec![(2, "y")],
                vec![
                    instr(Some(temp(1)), global("make")),
                    instr(Some(named(2, "y")), array(vec![temp(1)])),
                ],
            )),
            gives_back(named(2, "y")),
        ],
    );
    let (body, r) = generate(&f, options());
    assert_eq!(
        body,
        "let y; if ($[0] === Symbol.for(\"react.memo_cache_sentinel\")) { y = [make]; $[0] = y; } else { y = $[0]; } return y;"
    );
    assert_eq!(r.cache_size, 1);
}

#[test]
fn two_scopes_share_no_slot() {
    let f = func(
        vec![named(1, "a"), named(2, "b")],
        vec![
            ReactiveStatement::Scope(scope(
                0,
                vec![dependency(1, "a", vec![])],
                vec![(3, "y")],
                vec![instr(Some(named(3, "y")), array(vec![named(1, "a")]))],
            )),
            ReactiveStatement::Scope(scope(
                1,
                vec![dependency(2, "b", vec!["p"])],
                vec![(4, "z")],
                vec![instr(Some(named(4, "z")), array(vec![named(2, "b")]))],
            )),
        ],
    );
    let (body, r) = generate(&f, options());
    assert_eq!(
        body,
        "let y; if ($[0] !== a) { y = [a]; $[0] = a; $[1] = y; } else { y = $[1]; } \
         let z; if ($[2] !== b.p) { z = [b]; $[2] = b.p; $[3] = z; } else { z = $[3]; }"
    );
    assert_eq!(r.cache_size, 4);
}

#[test]
fn pruned_scope_is_not_memoized() {
    let f = func(
        vec![named(1, "x")],
        vec![ReactiveStatement::PrunedScope(scope(
            0,
            vec![dependency(1, "x", vec![])],
            vec![(2, "y")],
            vec![instr(Some(named(2, "y")), array(vec![named(1, "x")]))],
        ))],
    );
    let (body, r) = generate(&f, options());
    assert_eq!(body, "const y = [x];");
    assert_eq!(r.cache_size, 0);
}

#[test]
fn trivial_scope_is_not_memoized() {
    let f = func(
        vec![],
        vec![ReactiveStatement::Scope(scope(
            0,
            vec![],
            vec![(2, "y")],
            vec![instr(Some(named(2, "y")), number(7))],
        ))],
    );
    let (body, r) = generate(&f, options());
    assert_eq!(body, "const y = 7;");
    assert_eq!(r.cache_size, 0);
}

#[test]
fn fast_refresh_takes_the_first_slot() {
    let mut o = options();
    o.enable_reset_cache_on_source_file_changes = true;
    o.fast_refresh_source_hash = Some("abc".to_string());
    let (body, r) = generate(&memo_func(), o);
    assert!(body.contains("$[1] !== x"));
    assert_eq!(
        r.cache_prologue,
        Some(CachePrologue {
            binding_name: "$".to_string(),
            size: 3,
            fast_refresh: Some(FastRefreshPrologue {
                cache_index: 0,
                hash: "abc".to_string(),
                index_binding_name: "$i".to_string(),
            }),
        })
    );
    let mut o = options();
    o.enable_reset_cache_on_source_file_changes = true;
    assert_eq!(generate(&memo_func(), o).1.cache_size, 2);
}

#[test]
fn cache_name_is_free() {
    let mut o = options();
    o.unique_identifiers.insert("$");
    o.unique_identifiers.insert("$0");
    let (body, r) = generate(&memo_func(), o);
    assert!(body.contains("if ($1[0] !== x)"));
    assert_eq!(r.cache_prologue.unwrap().binding_name, "$1");
    let mut o = options();
    o.cache_binding_name = Some("memo".to_string());
    let (body, r) = generate(&memo_func(), o);
    assert!(body.contains("if (memo[0] !== x)"));
    assert_eq!(r.cache_prologue.unwrap().binding_name, "memo");
}

#[test]
fn without_memoization_features_there_is_no_cache() {
    let mut o = options();
    o.disable_memoization_features = true;
    let (_, r) = generate(&memo_func(), o);
    assert_eq!(r.cache_size, 2);
    assert!(r.cache_prologue.is_none());
    assert!(!r.needs_cache_import);
}

#[test]
fn debugging_recomputes_always() {
    let mut o = options();
    o.disable_memoization_for_debugging = true;
    let (body, _) = generate(&memo_func(), o);
    assert!(body.contains("if ($[0] !== x || true)"));
}

#[test]
fn change_variables() {
    let mut o = options();
    o.enable_change_variable_codegen = true;
    let (body, _) = generate(&memo_func(), o);
    assert_eq!(
        body,
        "const c_0 = $[0] !== x; let y; if (c_0) { y = [x]; $[0] = x; $[1] = y; } else { y = $[1]; } return y;"
    );
    let mut o = options();
    o.enable_change_variable_codegen = true;
    o.unique_identifiers.insert("c_0");
    let (body, _) = generate(&memo_func(), o);
    assert!(body.starts_with("const c_00 = $[0] !== x;"));
}

#[test]
fn change_detection_checks_results() {
    let mut o = options();
    o.enable_change_detection_for_debugging = true;
    let (body, r) = generate(&memo_func(), o);
    assert!(r.needs_structural_check_import);
    assert!(body.contains("$structuralCheck("));
    assert!(body.contains("\"Component\""));
    assert!(body.contains("\"cached\""));
    assert!(body.contains("\"recomputed\""));
    assert!(!generate(&memo_func(), options()).1.needs_structural_check_import);
}

#[test]
fn early_return_follows_its_scope() {
    let mut b = scope(
        0,
        vec![dependency(1, "x", vec![])],
        vec![(2, "y")],
        vec![instr(Some(named(2, "y")), array(vec![named(1, "x")]))],
    );
    b.scope.early_return_value = Some(EarlyReturnValue { value: identifier(2, Some("y")) });
    let body = plain(vec![named(1, "x")], vec![ReactiveStatement::Scope(b)]);
    assert!(body.ends_with(
        "if (y !== Symbol.for(\"react.early_return_sentinel\")) { return y; }"
    ));
}

#[test]
fn unnamed_parameter_is_an_error() {
    let (_, r) = generate(&func(vec![temp(5)], vec![]), options());
    let e = r.error.as_ref().unwrap();
    assert_eq!(
        e.reason,
        "Expected temporaries to be promoted to named identifiers in an earlier pass"
    );
    assert_eq!(e.description.as_deref(), Some("identifier 5 is unnamed"));
    assert_eq!(r.param_names, vec!["t5".to_string()]);
    let mut o = options();
    o.disable_memoization_features = true;
    let (_, r) = generate(&func(vec![temp(5)], vec![]), o);
    assert!(r.error.is_none());
    assert_eq!(r.param_names, vec!["t0".to_string()]);
}

#[test]
fn metadata_repeats_the_result() {
    let (_, r) = generate(&memo_func(), options());
    let m = r.metadata();
    assert_eq!(m.cache_size, r.cache_size);
    assert_eq!(m.needs_cache_import, r.needs_cache_import);
    assert_eq!(m.param_names, r.param_names);
    assert_eq!(m.needs_hook_guards, r.needs_hook_guards);
    assert_eq!(m.needs_function_hook_guard_wrapper, r.needs_function_hook_guard_wrapper);
    assert_eq!(m.needs_structural_check_import, r.needs_structural_check_import);
    assert_eq!(m.cache_prologue, r.cache_prologue);
    assert_eq!(m.error, r.error);
    let (_, r) = generate(&func(vec![temp(5)], vec![]), options());
    assert_eq!(r.metadata().error, r.error);
}

#[test]
fn hook_guards() {
    let body = || {
        vec![
            instr(Some(temp(1)), global("useValue")),
            instr(Some(named(2, "v")), call(temp(1), vec![])),
        ]
    };
    let mut o = options();
    o.enable_emit_hook_guards = true;
    let (code, r) = generate(&func(vec![], body()), o);
    assert!(r.needs_hook_guards);
    assert!(r.needs_function_hook_guard_wrapper);
    assert_eq!(
        code,
        "const v = function () { try { $dispatcherGuard(2); return useValue(); } finally { $dispatcherGuard(3); } }();"
    );
    let (code, r) = generate(&func(vec![], body()), options());
    assert!(!r.needs_hook_guards);
    assert_eq!(code, "const v = useValue();");
    let mut o = options();
    o.enable_emit_hook_guards = true;
    o.disable_memoization_features = true;
    assert!(!generate(&func(vec![], body()), o).1.needs_hook_guards);
}

#[test]
fn stores_and_temporaries() {
    let code = plain(
        vec![],
        vec![
            instr(Some(temp(1)), number(1)),
            instr(None, store(InstructionKind::Let, named(2, "a"), temp(1))),
            instr(Some(temp(3)), number(2)),
            instr(None, store(InstructionKind::Reassign, named(2, "a"), temp(3))),
            instr(Some(temp(4)), load(named(2, "a"))),
            gives_back(temp(4)),
        ],
    );
    assert_eq!(code, "let a = 1; a = 2; return a;");
}

#[test]
fn preserved_initializers() {
    let declares = vec![instr(
        None,
        InstructionValue::DeclareLocal {
            lvalue: LValue { kind: InstructionKind::Let, place: named(2, "a") },
        },
    )];
    let mut o = options();
    o.preserved_initializers = vec![PreservedInitializer {
        declaration: DeclarationId(2),
        text: "null".to_string(),
    }];
    assert_eq!(generate(&func(vec![], declares), o).0, "let a = null;");
}

#[test]
fn preserved_numbers_and_texts() {
    for (text, code) in [("-1.5", "let a = -1.5;"), ("x1", "let a = \"x1\";")] {
        let declares = vec![instr(
            None,
            InstructionValue::DeclareLocal {
                lvalue: LValue { kind: InstructionKind::Let, place: named(2, "a") },
            },
        )];
        let mut o = options();
        o.preserved_initializers = vec![PreservedInitializer {
            declaration: DeclarationId(2),
            text: text.to_string(),
        }];
        assert_eq!(generate(&func(vec![], declares), o).0, code);
    }
}

#[test]
fn numbers_in_paths_are_computed() {
    let code = plain(
        vec![named(1, "x")],
        vec![ReactiveStatement::Scope(scope(
            0,
            vec![dependency(1, "x", vec!["0", "a"])],
            vec![(2, "y")],
            vec![instr(Some(named(2, "y")), array(vec![named(1, "x")]))],
        ))],
    );
    assert_eq!(
        code,
        "let y; if ($[0] !== x[0].a) { y = [x]; $[0] = x[0].a; $[1] = y; } else { y = $[1]; }"
    );
}

#[test]
fn declarations_are_written_with_change_detection() {
    let mut o = options();
    o.enable_change_variable_codegen = true;
    o.enable_change_detection_for_debugging = true;
    let (body, _) = generate(&memo_func(), o);
    assert!(body.starts_with("let y; {"));
}

fn test_of(name: &str) -> Stmt {
    declare_var(VariableKind::Let, name, Some(ident("a")))
}

fn choice(name: &str) -> Stmt {
    expression(Rc::new(Expr::Conditional(ident(name), ident("b"), ident("c"))))
}

fn calls(callee: &str, args: Vec<Item>) -> Stmt {
    expression(make_call(ident(callee), args, false))
}

fn fuse(mut v: Vec<Stmt>) -> String {
    fuse_scope_body_ternaries(&mut v);
    stmts(&v)
}

#[test]
fn tests_move_into_conditional_expressions() {
    assert_eq!(fuse(vec![test_of("t0"), choice("t0")]), "a ? b : c;");
    assert_eq!(fuse(vec![test_of("t"), choice("t")]), "a ? b : c;");
    assert_eq!(
        fuse(vec![test_of("t0"), calls("f", vec![]), choice("t0")]),
        "a ? (f(), b) : c;"
    );
}

#[test]
fn tests_stay_where_something_would_be_lost() {
    let unset = || declare_var(VariableKind::Let, "d", None);
    assert_eq!(
        fuse(vec![test_of("t0"), unset(), choice("t0")]),
        "let t0 = a; let d; t0 ? b : c;"
    );
    assert_eq!(
        fuse(vec![test_of("t0"), choice("t0"), calls("f", vec![Item::Value(ident("t0"))])]),
        "let t0 = a; t0 ? b : c; f(t0);"
    );
    assert_eq!(
        fuse(vec![test_of("t0"), calls("f", vec![Item::Value(ident("t0"))]), choice("t0")]),
        "let t0 = a; f(t0); t0 ? b : c;"
    );
}

fn in_sequence(value: InstructionValue, last: InstructionValue) -> String {
    plain(
        vec![named(1, "f")],
        vec![instr(
            Some(named(5, "r")),
            InstructionValue::ReactiveSequenceExpression {
                instructions: vec![instruction(Some(temp(2)), value)],
                value: Box::new(last),
            },
        )],
    )
}

#[test]
fn sequences_keep_constructors_and_waiting() {
    let made = || InstructionValue::NewExpression { callee: named(1, "f"), args: vec![] };
    let waits = || InstructionValue::Await { value: named(1, "f") };
    assert_eq!(in_sequence(made(), number(3)), "const r = (new f(), 3);");
    assert_eq!(in_sequence(waits(), number(3)), "const r = (await(f), 3);");
    assert_eq!(in_sequence(made(), load(temp(2))), "const r = new f();");
    assert_eq!(
        in_sequence(
            waits(),
            InstructionValue::PropertyLoad {
                object: temp(2),
                property: PropertyLiteral::String("x".to_string()),
                optional: false,
            },
        ),
        "const r = await(f).x;"
    );
}

#[test]
fn declarations_of_a_scope_stand_there_once() {
    let declares = |d: &mut ScopeDeclarations, id: u32, name: &str| {
        d.insert(
            IdentifierId(id),
            ScopeDeclaration {
                identifier: identifier(id, Some(name)),
                scope: make_declaration_scope(ScopeId(0)),
            },
        )
    };
    let mut d = ScopeDeclarations::new();
    declares(&mut d, 1, "a");
    declares(&mut d, 2, "b");
    declares(&mut d, 1, "c");
    let names: Vec<_> =
        d.entries.iter().map(|e| e.1.identifier.name.as_ref().unwrap().value()).collect();
    assert_eq!(names, vec!["c", "b"]);
}

#[test]
fn plain_attributes() {
    assert!(is_plain_attribute("a 'b' \u{e9}"));
    assert!(!is_plain_attribute("a\"b"));
    assert!(!is_plain_attribute("a\\b"));
    assert!(!is_plain_attribute("a\nb"));
    assert!(!is_plain_attribute("\u{85}"));
}

#[test]
fn destructuring() {
    let pattern = || LValuePattern {
        pattern: Pattern::Array(ArrayPattern {
            items: vec![
                ArrayElement::Place(named(1, "a")),
                ArrayElement::Hole,
                ArrayElement::Spread(named(2, "b")),
            ],
        }),
        kind: InstructionKind::Const,
    };
    let code = plain(
        vec![named(9, "p")],
        vec![instr(
            None,
            InstructionValue::Destructure {
                lvalue: pattern(),
                value: named(9, "p"),
                loc: SourceLocation::Generated,
            },
        )],
    );
    assert_eq!(code, "const [a, , ...b] = p;");
}

#[test]
fn property_keys_follow_the_identifier_syntax() {
    let property = |k: &str, place: Place| {
        ObjectPropertyOrSpread::Property(ObjectProperty {
            key: ObjectPropertyKey::String(k.to_string()),
            type_: ObjectPropertyType::Property,
            place,
        })
    };
    let code = plain(
        vec![named(1, "a")],
        vec![instr(
            Some(named(2, "o")),
            InstructionValue::ObjectExpression {
                properties: vec![
                    ObjectPropertyOrSpread::Property(ObjectProperty {
                        key: ObjectPropertyKey::Identifier("a".to_string()),
                        type_: ObjectPropertyType::Property,
                        place: named(1, "a"),
                    }),
                    property("b", named(1, "a")),
                    property("c-d", named(1, "a")),
                    property("1", named(1, "a")),
                    ObjectPropertyOrSpread::Spread(named(1, "a")),
                ],
            },
        )],
    );
    assert_eq!(code, "const o = { a, b: a, \"c-d\": a, \"1\": a, ...a };");
}

#[test]
fn types_are_parsed() {
    assert!(matches!(parse_ts_type("Array<string>"), TsType::Source(s) if s == "Array<string>"));
    assert!(matches!(parse_ts_type("number | null"), TsType::Source(s) if s == "number | null"));
    assert!(matches!(parse_ts_type("?{"), TsType::Reference(s) if s == "?{"));
    assert!(matches!(choose_type("T", false, 0, true), TsType::Source(s) if s == "T"));
    assert!(matches!(choose_type("T", true, 0, true), TsType::Reference(s) if s == "T"));
    assert!(matches!(choose_type("T", false, 1, true), TsType::Reference(s) if s == "T"));
    assert!(matches!(choose_type("T", false, 0, false), TsType::Reference(s) if s == "T"));
}

#[test]
fn type_casts() {
    let cast = |kind| {
        vec![instr(
            Some(named(2, "y")),
            InstructionValue::TypeCastExpression {
                value: named(1, "x"),
                type_annotation: "number".to_string(),
                type_annotation_kind: kind,
            },
        )]
    };
    assert_eq!(plain(vec![named(1, "x")], cast(TypeAnnotationKind::As)), "const y = x as <number>;");
    assert_eq!(
        plain(vec![named(1, "x")], cast(TypeAnnotationKind::Satisfies)),
        "const y = x satisfies <number>;"
    );
    assert_eq!(
        plain(vec![named(1, "x")], cast(TypeAnnotationKind::Cast)),
        "const y = __REACT_COMPILER_FLOW_CAST__<number>(x);"
    );
}

#[test]
fn conditions() {
    let code = plain(
        vec![named(1, "x")],
        vec![
            terminal(ReactiveTerminal::If {
                test: named(1, "x"),
                consequent: vec![terminal(ReactiveTerminal::Throw { value: named(1, "x") })],
                alternate: Some(vec![]),
            }),
            terminal(ReactiveTerminal::If {
                test: named(1, "x"),
                consequent: vec![],
                alternate: Some(vec![gives_back(named(1, "x"))]),
            }),
        ],
    );
    assert_eq!(code, "if (x) { throw x; } if (x) {} else { return x; }");
}

#[test]
fn switches() {
    let breaks = || {
        terminal(ReactiveTerminal::Break {
            target: BlockId(3),
            target_kind: ReactiveTerminalTargetKind::Unlabeled,
        })
    };
    let code = plain(
        vec![named(1, "x")],
        vec![terminal(ReactiveTerminal::Switch {
            test: named(1, "x"),
            cases: vec![
                ReactiveSwitchCase { test: Some(named(1, "x")), block: Some(vec![breaks()]) },
                ReactiveSwitchCase {
                    test: None,
                    block: Some(vec![
                        instr(None, call(named(1, "x"), vec![])),
                        breaks(),
                    ]),
                },
            ],
        })],
    );
    assert_eq!(code, "switch (x) { case x: default: { x(); break; } }");
}

#[test]
fn labels() {
    let jump = |kind| {
        vec![terminal(ReactiveTerminal::Break { target: BlockId(4), target_kind: kind })]
    };
    let body = |kind| {
        vec![labeled(
            4,
            false,
            ReactiveTerminal::While { test: named(1, "x"), loop_block: jump(kind) },
        )]
    };
    assert_eq!(
        plain(vec![named(1, "x")], body(ReactiveTerminalTargetKind::Labeled)),
        "bb4: while (x) { break bb4; }"
    );
    assert_eq!(
        plain(vec![named(1, "x")], body(ReactiveTerminalTargetKind::Implicit)),
        "bb4: while (x) {}"
    );
    let implicit = vec![labeled(
        4,
        true,
        ReactiveTerminal::DoWhile {
            loop_block: vec![terminal(ReactiveTerminal::Continue {
                target: BlockId(4),
                target_kind: ReactiveTerminalTargetKind::Unlabeled,
            })],
            test: named(1, "x"),
        },
    )];
    assert_eq!(plain(vec![named(1, "x")], implicit), "do { continue; } while (x);");
}

#[test]
fn for_loops() {
    let code = plain(
        vec![named(1, "x")],
        vec![terminal(ReactiveTerminal::For {
            init: vec![
                instr(Some(temp(2)), number(0)),
                instr(None, store(InstructionKind::Let, named(3, "i"), temp(2))),
            ],
            test: named(1, "x"),
            update: Some(vec![instr(
                None,
                InstructionValue::PostfixUpdate {
                    lvalue: named(3, "i"),
                    value: named(3, "i"),
                    operation: UpdateOperator::Increment,
                },
            )]),
            update_value: None,
            loop_block: vec![instr(None, call(named(1, "x"), vec![]))],
        })],
    );
    assert_eq!(code, "for (let i = 0; x; i++) { x(); }");
}

#[test]
fn for_of_and_for_in_loops() {
    let init = |value: InstructionValue| {
        vec![
            instr(Some(temp(2)), value),
            instr(None, store(InstructionKind::Const, named(3, "v"), temp(2))),
        ]
    };
    let of = plain(
        vec![named(1, "x")],
        vec![terminal(ReactiveTerminal::ForOf {
            init: init(InstructionValue::IteratorNext {
                iterator: named(1, "x"),
                collection: named(1, "x"),
            }),
            loop_block: vec![instr(None, call(named(3, "v"), vec![]))],
        })],
    );
    assert_eq!(of, "for (const v of x) { v(); }");
    let within = plain(
        vec![named(1, "x")],
        vec![terminal(ReactiveTerminal::ForIn {
            init: init(InstructionValue::NextPropertyOf { value: named(1, "x") }),
            loop_block: vec![],
        })],
    );
    assert_eq!(within, "for (const v in x) {}");
}

#[test]
fn try_and_catch() {
    let code = plain(
        vec![named(1, "x")],
        vec![terminal(ReactiveTerminal::Try {
            block: vec![instr(None, call(named(1, "x"), vec![]))],
            handler_binding: Some(named(2, "e")),
            handler: vec![terminal(ReactiveTerminal::Throw { value: named(2, "e") })],
        })],
    );
    assert_eq!(code, "try { x(); } catch (e) { throw e; }");
}

#[test]
fn undefined_is_not_returned() {
    let last = plain(
        vec![],
        vec![
            instr(
                Some(temp(1)),
                InstructionValue::Primitive { value: PrimitiveValue::Undefined },
            ),
            gives_back(temp(1)),
        ],
    );
    assert_eq!(last, "");
    let inside = plain(
        vec![named(2, "x")],
        vec![
            instr(
                Some(temp(1)),
                InstructionValue::Primitive { value: PrimitiveValue::Undefined },
            ),
            terminal(ReactiveTerminal::If {
                test: named(2, "x"),
                consequent: vec![gives_back(temp(1))],
                alternate: None,
            }),
        ],
    );
    assert_eq!(inside, "if (x) { return; }");
}

#[test]
fn sequences_keep_side_effects() {
    let code = plain(
        vec![named(1, "f")],
        vec![instr(
            Some(named(5, "r")),
            InstructionValue::ReactiveSequenceExpression {
                instructions: vec![instruction(Some(temp(2)), call(named(1, "f"), vec![]))],
                value: Box::new(number(3)),
            },
        )],
    );
    assert_eq!(code, "const r = (f(), 3);");
}

#[test]
fn logical_and_conditional_values() {
    let code = plain(
        vec![named(1, "a"), named(2, "b")],
        vec![
            instr(
                Some(named(5, "r")),
                InstructionValue::ReactiveLogicalExpression {
                    operator: LogicalOperator::And,
                    left: Box::new(load(named(1, "a"))),
                    right: Box::new(load(named(2, "b"))),
                },
            ),
            instr(
                Some(named(6, "s")),
                InstructionValue::ReactiveConditionalExpression {
                    test: Box::new(load(named(1, "a"))),
                    consequent: Box::new(load(named(2, "b"))),
                    alternate: Box::new(text("no")),
                },
            ),
        ],
    );
    assert_eq!(code, "const r = a && b; const s = a ? b : \"no\";");
}

#[test]
fn optional_chains() {
    let code = plain(
        vec![named(1, "a")],
        vec![instr(
            Some(named(5, "r")),
            InstructionValue::ReactiveOptionalExpression {
                value: Box::new(InstructionValue::PropertyLoad {
                    object: named(1, "a"),
                    property: PropertyLiteral::String("b".to_string()),
                    optional: true,
                }),
                optional: true,
            },
        )],
    );
    assert_eq!(code, "const r = chain(a?.b);");
}

fn hir() -> HIRFunction {
    HIRFunction {
        id: None,
        params: vec![],
        context: vec![],
        body: HIR { entry: BlockId(0), blocks: vec![] },
        directives: vec![],
        generator: false,
        async_: false,
    }
}

fn lowered(body: Vec<ReactiveStatement>, direct: Option<DirectLowering>, id: Option<&str>) -> LoweredFunction {
    let mut f = hir();
    f.id = id.map(|s| s.to_string());
    let mut reactive = func(vec![named(20, "q")], body);
    reactive.id = None;
    LoweredFunction { func: f, reactive: Box::new(reactive), direct }
}

fn function_value(l: LoweredFunction, expr_type: FunctionExpressionType) -> Vec<ReactiveStatement> {
    vec![instr(
        Some(named(5, "g")),
        InstructionValue::FunctionExpression { name: None, lowered_func: l, expr_type },
    )]
}

#[test]
fn nested_functions() {
    let arrow = FunctionExpressionType::ArrowFunctionExpression;
    assert_eq!(
        plain(vec![], function_value(lowered(vec![gives_back(named(20, "q"))], None, None), arrow)),
        "const g = =>!(q) { q; };"
    );
    assert_eq!(
        plain(
            vec![],
            function_value(
                lowered(vec![gives_back(named(20, "q"))], None, None),
                FunctionExpressionType::FunctionExpression
            )
        ),
        "const g = function (q) { return q; };"
    );
    assert_eq!(
        plain(
            vec![],
            function_value(lowered(vec![], Some(DirectLowering { ticket: 9 }), None), arrow)
        ),
        "const g = direct(9, true);"
    );
}

#[test]
fn nested_functions_have_no_labels() {
    let body = vec![labeled(
        4,
        false,
        ReactiveTerminal::While { test: named(20, "q"), loop_block: vec![] },
    )];
    assert_eq!(
        plain(
            vec![],
            function_value(
                lowered(body, None, None),
                FunctionExpressionType::FunctionExpression
            )
        ),
        "const g = function (q) { while (q) {} };"
    );
}

#[test]
fn suggested_names() {
    let mut o = options();
    o.enable_name_anonymous_functions = true;
    let f = func(
        vec![],
        function_value(
            lowered(vec![], Some(DirectLowering { ticket: 9 }), Some("hint")),
            FunctionExpressionType::FunctionExpression,
        ),
    );
    let (code, _) = generate(&f, o);
    assert!(code.contains("hint"));
    assert!(!code.contains("direct"));
}

#[test]
fn elements() {
    let mut o = options();
    o.fbt_operands.insert(1);
    let f = func(
        vec![named(1, "x")],
        vec![
            instr(Some(temp(2)), InstructionValue::JSXText { value: "hi".to_string() }),
            instr(
                Some(named(3, "e")),
                InstructionValue::JsxExpression {
                    tag: JsxTag::BuiltinTag("div".to_string()),
                    props: vec![
                        JsxAttribute::Attribute { name: "id".to_string(), place: named(1, "x") },
                        JsxAttribute::SpreadAttribute { argument: named(1, "x") },
                    ],
                    children: Some(vec![temp(2), named(1, "x")]),
                },
            ),
        ],
    );
    let (code, _) = generate(&f, o);
    assert_eq!(code, "const e = (<div id!={x} {...x}>text \"hi\"|x</>);");
}

#[test]
fn names_of_blocks_end_with_them() {
    let stores = |id: u32, name: &str| {
        vec![
            instr(Some(temp(id + 50)), number(id as u64)),
            instr(None, store(InstructionKind::Const, named(id, name), temp(id + 50))),
        ]
    };
    let code = plain(
        vec![named(1, "x")],
        vec![terminal(ReactiveTerminal::If {
            test: named(1, "x"),
            consequent: stores(2, "a"),
            alternate: Some(stores(3, "a")),
        })],
    );
    assert_eq!(code, "if (x) { const a = 2; } else { const a = 3; }");
}

#[test]
fn pure_values_are_dropped() {
    let code = plain(
        vec![named(1, "x")],
        vec![instr(None, load(named(1, "x"))), instr(None, InstructionValue::Debugger)],
    );
    assert_eq!(code, "debugger;");
}

#[test]
fn optional_dependencies_get_names() {
    let chain = || InstructionValue::PropertyLoad {
        object: named(1, "x"),
        property: PropertyLiteral::String("a".to_string()),
        optional: true,
    };
    let body = || {
        let mut d = dependency(1, "x", vec!["a"]);
        d.path[0].optional = true;
        vec![
            instr(Some(temp(3)), chain()),
            ReactiveStatement::Scope(scope(
                0,
                vec![d],
                vec![(4, "y")],
                vec![instr(Some(named(4, "y")), array(vec![temp(3)]))],
            )),
        ]
    };
    assert_eq!(
        plain(vec![named(1, "x")], body()),
        "const t0 = x?.a; let y; if ($[0] !== t0) { y = [t0]; $[0] = t0; $[1] = y; } else { y = $[1]; }"
    );
    let mut o = options();
    o.unique_identifiers.insert("t0");
    let (code, _) = generate(&func(vec![named(1, "x")], body()), o);
    assert!(code.starts_with("const t1 = x?.a;"));
}

#[test]
fn destructuring_goes_into_the_call_behind_it() {
    let code = plain(
        vec![named(1, "r"), named(2, "f"), named(3, "a")],
        vec![
            instr(
                None,
                InstructionValue::Destructure {
                    lvalue: LValuePattern {
                        pattern: Pattern::Array(ArrayPattern {
                            items: vec![ArrayElement::Place(named(3, "a"))],
                        }),
                        kind: InstructionKind::Reassign,
                    },
                    value: named(1, "r"),
                    loc: SourceLocation::Generated,
                },
            ),
            instr(None, call(named(2, "f"), vec![named(1, "r"), named(3, "a")])),
        ],
    );
    assert_eq!(code, "f(([a] = r), a);");
}

#[test]
fn results_move_away_from_dependencies_of_the_same_name() {
    let f = func(
        vec![named(1, "t0")],
        vec![ReactiveStatement::Scope(scope(
            0,
            vec![dependency(1, "t0", vec![])],
            vec![(2, "t0")],
            vec![instr(Some(named(2, "t0")), array(vec![named(1, "t0")]))],
        ))],
    );
    let (code, _) = generate(&f, options());
    assert_eq!(
        code,
        "let t1; if ($[0] !== t0) { t1 = [t0]; $[0] = t0; $[1] = t1; } else { t1 = $[1]; }"
    );
}

#[test]
fn sequences_keep_assignments_to_properties() {
    let code = plain(
        vec![named(1, "o")],
        vec![instr(
            Some(named(5, "r")),
            InstructionValue::ReactiveSequenceExpression {
                instructions: vec![instruction(
                    Some(temp(2)),
                    InstructionValue::PropertyStore {
                        object: named(1, "o"),
                        property: PropertyLiteral::String("x".to_string()),
                        value: named(1, "o"),
                    },
                )],
                value: Box::new(number(3)),
            },
        )],
    );
    assert_eq!(code, "const r = (o.x = o, 3);");
}

#[test]
fn property_loads_are_found_at_every_depth() {
    let loads = || {
        instr(
            Some(temp(3)),
            InstructionValue::PropertyLoad {
                object: temp(2),
                property: PropertyLiteral::String("x".to_string()),
                optional: false,
            },
        )
    };
    assert!(body_has_any_property_loads(&vec![loads()]));
    assert!(body_has_any_property_loads(&vec![terminal(ReactiveTerminal::If {
        test: named(1, "a"),
        consequent: vec![loads()],
        alternate: None,
    })]));
    assert!(body_has_any_property_loads(&vec![ReactiveStatement::Scope(scope(
        0,
        vec![],
        vec![],
        vec![loads()],
    ))]));
    assert!(!body_has_any_property_loads(&vec![instr(Some(temp(3)), number(1))]));
}

fn fused(more: Vec<ReactiveStatement>) -> Vec<ReactiveStatement> {
    let mut body = vec![
        instr(Some(named(4, "v")), array(vec![])),
        instr(
            None,
            InstructionValue::Destructure {
                lvalue: LValuePattern {
                    pattern: Pattern::Array(ArrayPattern {
                        items: vec![ArrayElement::Place(named(3, "a"))],
                    }),
                    kind: InstructionKind::Reassign,
                },
                value: named(4, "v"),
                loc: SourceLocation::Generated,
            },
        ),
        instr(None, call(named(2, "f"), vec![named(4, "v")])),
    ];
    body.extend(more);
    body
}

#[test]
fn declarations_are_left_out_where_only_the_pair_uses_them() {
    assert_eq!(pre_scan_destructure_call_fusion(&fused(vec![])), vec![true, false, false]);
    assert_eq!(
        pre_scan_destructure_call_fusion(&fused(vec![gives_back(named(4, "v"))])),
        vec![false, false, false, false]
    );
    assert_eq!(
        pre_scan_destructure_call_fusion(&fused(vec![instr(Some(temp(9)), array(vec![named(4, "v")]))])),
        vec![false, false, false, false]
    );
}

#[test]
fn first_names_are_preferred() {
    let names = collect_preferred_decl_names(&vec![
        terminal(ReactiveTerminal::If {
            test: named(1, "a"),
            consequent: vec![instr(None, array(vec![named(2, "b")]))],
            alternate: None,
        }),
        gives_back(named(3, "c")),
    ]);
    assert_eq!(names.get(1), Some(&"a".to_string()));
    assert_eq!(names.get(2), Some(&"b".to_string()));
    assert_eq!(names.get(3), Some(&"c".to_string()));
    assert_eq!(names.get(4), None);
}

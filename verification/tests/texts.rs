//! Code from control flow graphs.

use reactive_scopes::codegen::{
    codegen_function, codegen_function_full, codegen_function_with_options,
    codegen_function_with_temp_start, codegen_outlined_fn,
};
use reactive_scopes::codegen::analyze::Generator;
use reactive_scopes::codegen::context::Context;
use reactive_scopes::codegen::deps::{find_deps_from_anon_params, find_scope_deps};
use reactive_scopes::codegen::escape::can_outline_function;
use reactive_scopes::codegen::outputs::collect_extra_scope_outputs;
use reactive_scopes::codegen::promote::is_allocating_var;
use reactive_scopes::codegen::reads::build_consumed_ids;
use reactive_scopes::collections::{IdSet, NameSet};
use reactive_scopes::graph::instructions_of;
use reactive_scopes::hir::{
    Argument, ArrayElement, ArrayPattern, BasicBlock, BinaryOperator, BlockId, DeclarationId, Effect,
    FunctionExpressionType, GotoVariant, HIRFunction, Identifier, IdentifierId, IdentifierName,
    Instruction, InstructionId, InstructionKind, InstructionValue, LValue, LValuePattern, LoweredFunction,
    MutableRange, NonLocalBinding, NumberLiteral, ObjectPattern, ObjectProperty, ObjectPropertyKey,
    ObjectPropertyOrSpread, ObjectPropertyType, Pattern, Place, PrimitiveValue, PropertyLiteral,
    ReactiveFunction, ReactiveScope, ReactiveScopeDependency, ReturnVariant, ScopeDeclaration,
    ScopeDeclarations, ScopeId, SourceLocation, SwitchCase, Terminal, Type, UnaryOperator, HIR,
    make_declaration_scope,
};

fn identifier(id: u32, name: Option<&str>) -> Identifier {
    Identifier {
        id: IdentifierId(id),
        declaration_id: DeclarationId(id),
        name: name.map(|n| IdentifierName::Named(n.to_string())),
        mutable_range: MutableRange { start: InstructionId(0), end: InstructionId(0) },
        scope: None,
        type_: Type::Poly,
        loc: SourceLocation::Generated,
    }
}

fn place(identifier: Identifier) -> Place {
    Place { identifier, effect: Effect::Unknown, reactive: false, loc: SourceLocation::Generated }
}

fn named(id: u32, name: &str) -> Place {
    place(identifier(id, Some(name)))
}

fn temp(id: u32) -> Place {
    place(identifier(id, None))
}

fn scoped(id: u32, scope: ReactiveScope) -> Place {
    let mut i = identifier(id, None);
    i.scope = Some(Box::new(scope));
    place(i)
}

fn scope(id: u32, start: u32, end: u32, deps: Vec<(u32, &str)>, outs: Vec<(u32, Option<&str>)>) -> ReactiveScope {
    let mut declarations = ScopeDeclarations::new();
    for (d, n) in outs {
        declarations.insert(
            IdentifierId(d),
            ScopeDeclaration {
                identifier: identifier(d, n),
                scope: make_declaration_scope(ScopeId(id)),
            },
        );
    }
    ReactiveScope {
        id: ScopeId(id),
        range: MutableRange { start: InstructionId(start), end: InstructionId(end) },
        dependencies: deps
            .into_iter()
            .map(|(d, n)| ReactiveScopeDependency { identifier: identifier(d, Some(n)), path: vec![] })
            .collect(),
        declarations,
        reassignments: vec![],
        merged_id: None,
        early_return_value: None,
    }
}

fn instr(id: u32, lvalue: Place, value: InstructionValue) -> Instruction {
    Instruction { id: InstructionId(id), lvalue, value, loc: SourceLocation::Generated }
}

fn number(n: u64) -> InstructionValue {
    InstructionValue::Primitive {
        value: PrimitiveValue::Number(NumberLiteral { display: n.to_string(), integer: Some(n) }),
    }
}

fn text(s: &str) -> InstructionValue {
    InstructionValue::Primitive { value: PrimitiveValue::String(s.to_string()) }
}

fn load(p: Place) -> InstructionValue {
    InstructionValue::LoadLocal { place: p }
}

fn add(l: Place, r: Place) -> InstructionValue {
    InstructionValue::BinaryExpression { operator: BinaryOperator::Add, left: l, right: r }
}

fn mul(l: Place, r: Place) -> InstructionValue {
    InstructionValue::BinaryExpression { operator: BinaryOperator::Mul, left: l, right: r }
}

fn func(params: Vec<Place>, instructions: Vec<Instruction>, value: Place) -> HIRFunction {
    HIRFunction {
        id: Some("Component".to_string()),
        params: params.into_iter().map(Argument::Place).collect(),
        context: vec![],
        body: HIR {
            entry: BlockId(0),
            blocks: vec![(
                BlockId(0),
                BasicBlock {
                    id: BlockId(0),
                    instructions,
                    terminal: Terminal::Return { value, return_variant: ReturnVariant::Explicit },
                    phis: vec![],
                },
            )],
        },
        directives: vec![],
        generator: false,
        async_: false,
    }
}

fn memo_func() -> HIRFunction {
    func(
        vec![named(1, "x")],
        vec![
            instr(1, temp(2), load(named(1, "x"))),
            instr(
                2,
                scoped(3, scope(0, 2, 3, vec![(1, "x")], vec![(3, None)])),
                InstructionValue::ArrayExpression { elements: vec![ArrayElement::Place(temp(2))] },
            ),
        ],
        scoped(3, scope(0, 2, 3, vec![(1, "x")], vec![(3, None)])),
    )
}

fn store(kind: InstructionKind, p: Place, value: Place) -> InstructionValue {
    InstructionValue::StoreLocal {
        lvalue: LValue { kind, place: p },
        value,
        loc: SourceLocation::Generated,
    }
}

#[test]
fn arithmetic() {
    let f = func(
        vec![named(1, "x")],
        vec![
            instr(1, temp(2), load(named(1, "x"))),
            instr(2, temp(3), number(1)),
            instr(3, temp(4), add(temp(2), temp(3))),
            instr(4, temp(5), number(2)),
            instr(5, temp(6), mul(temp(4), temp(5))),
        ],
        temp(6),
    );
    let r = codegen_function(&f);
    assert_eq!(r.body, "  return (x + 1) * 2;\n");
    assert_eq!(r.cache_size, 0);
    assert!(!r.needs_cache_import);
    assert!(r.outlined_functions.is_empty());
}

#[test]
fn memoized_array() {
    let r = codegen_function(&memo_func());
    assert_eq!(
        r.body,
        "  const $ = _c(2);\n  let t0;\n  if ($[0] !== x) {\n    t0 = [x];\n    $[0] = x;\n    $[1] = t0;\n  } else {\n    t0 = $[1];\n  }\n  return t0;\n"
    );
    assert_eq!(r.cache_size, 2);
    assert!(r.needs_cache_import);
    assert_eq!(r.next_temp_id, 1);
}

#[test]
fn without_memoization_nothing_is_cached() {
    let r = codegen_function_with_options(&memo_func(), 0, true);
    assert_eq!(r.body, "  return [x];\n");
    assert_eq!(r.cache_size, 0);
    assert!(!r.needs_cache_import);
}

#[test]
fn temporaries_start_where_they_are_told() {
    let r = codegen_function_with_temp_start(&memo_func(), 3);
    assert_eq!(
        r.body,
        "  const $ = _c(2);\n  let t3;\n  if ($[0] !== x) {\n    t3 = [x];\n    $[0] = x;\n    $[1] = t3;\n  } else {\n    t3 = $[1];\n  }\n  return t3;\n"
    );
    assert_eq!(r.next_temp_id, 4);
}

#[test]
fn cache_is_renamed_where_the_source_uses_its_name() {
    let mut names = NameSet::new();
    names.insert("$");
    let r = codegen_function_full(&memo_func(), 0, false, &names);
    assert!(r.body.starts_with("  const $0 = _c(2);\n  let t0;\n  if ($0[0] !== x) {\n"));
    assert_eq!(r.cache_size, 2);
}

#[test]
fn strings_are_escaped() {
    let f = func(vec![], vec![instr(1, temp(2), text("a\"b\n\u{e9}"))], temp(2));
    assert_eq!(codegen_function(&f).body, "  return \"a\\\"b\\n\\u00E9\";\n");
}

#[test]
fn outlined_function() {
    let f = func(
        vec![named(1, "x")],
        vec![
            instr(1, temp(2), load(named(1, "x"))),
            instr(2, temp(3), number(1)),
            instr(3, temp(4), add(temp(2), temp(3))),
        ],
        temp(4),
    );
    let (params, body) = codegen_outlined_fn(&f);
    assert_eq!(params, "x");
    assert_eq!(body, "  return x + 1;\n");
    let g = func(vec![temp(1)], vec![instr(1, temp(2), load(temp(1)))], temp(2));
    assert_eq!(codegen_outlined_fn(&g).0, "t0");
}

/// Two scopes, each with a dependency of its own.
fn two_scopes() -> HIRFunction {
    let first = || scope(0, 2, 3, vec![(1, "a")], vec![(11, Some("y"))]);
    let second = || scope(1, 5, 6, vec![(2, "b")], vec![(12, Some("z"))]);
    func(
        vec![named(1, "a"), named(2, "b")],
        vec![
            instr(1, temp(3), load(named(1, "a"))),
            instr(
                2,
                scoped(4, first()),
                InstructionValue::ArrayExpression { elements: vec![ArrayElement::Place(temp(3))] },
            ),
            instr(3, scoped(5, first()), store(InstructionKind::Reassign, named(11, "y"), scoped(4, first()))),
            instr(4, temp(6), load(named(2, "b"))),
            instr(
                5,
                scoped(7, second()),
                InstructionValue::ArrayExpression { elements: vec![ArrayElement::Place(temp(6))] },
            ),
            instr(6, scoped(8, second()), store(InstructionKind::Reassign, named(12, "z"), scoped(7, second()))),
            instr(7, temp(9), load(named(12, "z"))),
        ],
        temp(9),
    )
}

#[test]
fn two_scopes_lie_one_behind_the_other() {
    let r = codegen_function(&two_scopes());
    assert_eq!(r.cache_size, 4);
    assert_eq!(
        r.body,
        "  const $ = _c(4);\n  let y;\n  if ($[0] !== a) {\n    y = [a];\n    $[0] = a;\n    $[1] = y;\n  } else {\n    y = $[1];\n  }\n  let z;\n  if ($[2] !== b) {\n    z = [b];\n    $[2] = b;\n    $[3] = z;\n  } else {\n    z = $[3];\n  }\n  return z;\n"
    );
}

#[test]
fn statements_in_order() {
    let f = func(
        vec![named(1, "x")],
        vec![
            instr(1, temp(2), load(named(1, "x"))),
            instr(2, temp(3), InstructionValue::PropertyLoad { object: temp(2), property: PropertyLiteral::String("a".to_string()), optional: false }),
            instr(3, temp(5), store(InstructionKind::Const, named(4, "y"), temp(3))),
            instr(4, temp(6), InstructionValue::LoadGlobal { binding: NonLocalBinding::Global { name: "log".to_string() } }),
            instr(5, temp(7), load(named(4, "y"))),
            instr(6, temp(8), InstructionValue::CallExpression { callee: temp(6), args: vec![Argument::Place(temp(7))], optional: false }),
            instr(7, temp(9), load(named(4, "y"))),
        ],
        temp(9),
    );
    let r = codegen_function(&f);
    assert_eq!(r.body, "  const y = x.a;\n  log(y);\n  return y;\n");
    assert_eq!(r.cache_size, 0);
}

fn block(id: u32, instructions: Vec<Instruction>, terminal: Terminal) -> (BlockId, BasicBlock) {
    (BlockId(id), BasicBlock { id: BlockId(id), instructions, terminal, phis: vec![] })
}

fn blocks(params: Vec<Place>, blocks: Vec<(BlockId, BasicBlock)>) -> HIRFunction {
    let mut f = func(params, vec![], temp(99));
    f.body.blocks = blocks;
    f
}

fn goto(id: u32, variant: GotoVariant) -> Terminal {
    Terminal::Goto { block: BlockId(id), variant }
}

fn calls(first: u32, name: &str) -> Vec<Instruction> {
    vec![
        instr(
            first,
            temp(first + 20),
            InstructionValue::LoadGlobal { binding: NonLocalBinding::Global { name: name.to_string() } },
        ),
        instr(
            first + 1,
            temp(first + 21),
            InstructionValue::CallExpression { callee: temp(first + 20), args: vec![], optional: false },
        ),
    ]
}

fn void() -> (Vec<Instruction>, Terminal) {
    (
        vec![instr(90, temp(95), InstructionValue::Primitive { value: PrimitiveValue::Undefined })],
        Terminal::Return { value: temp(95), return_variant: ReturnVariant::Void },
    )
}

#[test]
fn conditional_statements() {
    let (end, ret) = void();
    let f = blocks(
        vec![named(1, "x")],
        vec![
            block(
                0,
                vec![instr(1, temp(2), load(named(1, "x")))],
                Terminal::If {
                    test: temp(2),
                    consequent: BlockId(1),
                    alternate: BlockId(2),
                    fallthrough: BlockId(3),
                },
            ),
            block(1, calls(3, "f"), goto(3, GotoVariant::Break)),
            block(2, calls(5, "g"), goto(3, GotoVariant::Break)),
            block(3, end, ret),
        ],
    );
    assert_eq!(codegen_function(&f).body, "  if (x) {\n    f();\n  } else {\n    g();\n  }\n");
}

#[test]
fn while_statements() {
    let (end, ret) = void();
    let f = blocks(
        vec![named(1, "x")],
        vec![
            block(
                0,
                vec![],
                Terminal::While { test: BlockId(1), loop_block: BlockId(2), fallthrough: BlockId(3) },
            ),
            block(
                1,
                vec![instr(1, temp(2), load(named(1, "x")))],
                Terminal::Branch {
                    test: temp(2),
                    consequent: BlockId(2),
                    alternate: BlockId(3),
                    fallthrough: BlockId(3),
                },
            ),
            block(2, calls(3, "f"), goto(1, GotoVariant::Continue)),
            block(3, end, ret),
        ],
    );
    assert_eq!(codegen_function(&f).body, "  while (x) {\n    f();\n  }\n");
}

#[test]
fn switch_statements() {
    let (end, ret) = void();
    let f = blocks(
        vec![named(1, "x")],
        vec![
            block(
                0,
                vec![instr(1, temp(2), load(named(1, "x"))), instr(2, temp(3), number(1))],
                Terminal::Switch {
                    test: temp(2),
                    cases: vec![
                        SwitchCase { test: Some(temp(3)), block: BlockId(1) },
                        SwitchCase { test: None, block: BlockId(2) },
                    ],
                    fallthrough: BlockId(3),
                },
            ),
            block(1, calls(3, "f"), goto(3, GotoVariant::Break)),
            block(2, calls(5, "g"), goto(3, GotoVariant::Break)),
            block(3, end, ret),
        ],
    );
    assert_eq!(codegen_function(&f).body, "  switch (x) {\n    case 1:\n      f();\n    default:\n      g();\n  }\n");
}

#[test]
fn try_statements() {
    let (end, ret) = void();
    let f = blocks(
        vec![],
        vec![
            block(
                0,
                vec![],
                Terminal::Try {
                    block: BlockId(1),
                    handler_binding: Some(named(7, "e")),
                    handler: BlockId(2),
                    fallthrough: BlockId(3),
                },
            ),
            block(1, calls(3, "f"), goto(3, GotoVariant::Try)),
            block(2, calls(5, "g"), goto(3, GotoVariant::Break)),
            block(3, end, ret),
        ],
    );
    assert_eq!(codegen_function(&f).body, "  try {\n    f();\n  } catch (t0) {\n    g();\n  }\n");
}

#[test]
fn throw_statements() {
    let f = blocks(
        vec![named(1, "x")],
        vec![block(
            0,
            vec![instr(1, temp(2), load(named(1, "x")))],
            Terminal::Throw { value: temp(2) },
        )],
    );
    assert_eq!(codegen_function(&f).body, "  throw x;\n");
}

#[test]
fn for_of_statements() {
    let (end, ret) = void();
    let mut body = vec![instr(4, temp(6), store(InstructionKind::Const, named(5, "v"), temp(4)))];
    body.extend(calls(30, "f"));
    let f = blocks(
        vec![named(1, "xs")],
        vec![
            block(
                0,
                vec![],
                Terminal::ForOf {
                    init: BlockId(1),
                    test: BlockId(4),
                    loop_block: BlockId(2),
                    fallthrough: BlockId(3),
                },
            ),
            block(
                1,
                vec![
                    instr(1, temp(2), load(named(1, "xs"))),
                    instr(2, temp(3), InstructionValue::GetIterator { collection: temp(2) }),
                ],
                goto(4, GotoVariant::Break),
            ),
            block(
                4,
                vec![instr(
                    3,
                    temp(4),
                    InstructionValue::IteratorNext { iterator: temp(3), collection: temp(2) },
                )],
                Terminal::Branch {
                    test: temp(4),
                    consequent: BlockId(2),
                    alternate: BlockId(3),
                    fallthrough: BlockId(3),
                },
            ),
            block(2, body, goto(4, GotoVariant::Continue)),
            block(3, end, ret),
        ],
    );
    assert_eq!(codegen_function(&f).body, "  for (const v of xs) {\n    f();\n  }\n");
}

#[test]
fn functions_that_are_moved_out_have_names_of_their_own() {
    let lowered = || {
        let inner = func(
            vec![named(50, "q")],
            vec![instr(60, temp(61), load(named(50, "q")))],
            temp(61),
        );
        let mut inner = inner;
        inner.id = None;
        LoweredFunction {
            func: inner,
            reactive: Box::new(ReactiveFunction {
                loc: SourceLocation::Generated,
                id: None,
                name_hint: None,
                params: vec![],
                generator: false,
                async_: false,
                body: vec![],
                directives: vec![],
            }),
            direct: None,
        }
    };
    let function = || InstructionValue::FunctionExpression {
        name: None,
        lowered_func: lowered(),
        expr_type: FunctionExpressionType::ArrowFunctionExpression,
    };
    let f = func(
        vec![],
        vec![
            instr(1, temp(2), function()),
            instr(2, temp(3), function()),
            instr(
                3,
                temp(4),
                InstructionValue::ArrayExpression {
                    elements: vec![ArrayElement::Place(temp(2)), ArrayElement::Place(temp(3))],
                },
            ),
        ],
        temp(4),
    );
    let r = codegen_function(&f);
    let names: Vec<&str> = r.outlined_functions.iter().map(|o| o.0.as_str()).collect();
    assert_eq!(names, vec!["_temp", "_temp2"]);
    assert_eq!(r.outlined_functions[0].1, "q");
    assert_eq!(r.outlined_functions[0].2, "  return q;");
    assert_eq!(
        r.body,
        "  const $ = _c(1);\n  let t0;\n  if ($[0] === Symbol.for(\"react.memo_cache_sentinel\")) {\n    t0 = [_temp, _temp2];\n    $[0] = t0;\n  } else {\n    t0 = $[0];\n  }\n  return t0;\n"
    );
}

fn global(name: &str) -> InstructionValue {
    InstructionValue::LoadGlobal { binding: NonLocalBinding::Global { name: name.to_string() } }
}

fn call(callee: Place, args: Vec<Place>) -> InstructionValue {
    InstructionValue::CallExpression {
        callee,
        args: args.into_iter().map(Argument::Place).collect(),
        optional: false,
    }
}

fn array(elements: Vec<Place>) -> InstructionValue {
    InstructionValue::ArrayExpression {
        elements: elements.into_iter().map(ArrayElement::Place).collect(),
    }
}

fn binary(operator: BinaryOperator, left: Place, right: Place) -> InstructionValue {
    InstructionValue::BinaryExpression { operator, left, right }
}

fn takes_apart(kind: InstructionKind, pattern: Pattern, value: Place) -> InstructionValue {
    InstructionValue::Destructure {
        lvalue: LValuePattern { pattern, kind },
        value,
        loc: SourceLocation::Generated,
    }
}

fn object(properties: Vec<ObjectPropertyOrSpread>) -> Pattern {
    Pattern::Object(ObjectPattern { properties })
}

fn part(name: &str, place: Place) -> ObjectPropertyOrSpread {
    ObjectPropertyOrSpread::Property(ObjectProperty {
        key: ObjectPropertyKey::String(name.to_string()),
        type_: ObjectPropertyType::Property,
        place,
    })
}

fn three() -> Vec<Place> {
    vec![named(1, "a"), named(2, "b"), named(3, "c")]
}

fn loads() -> Vec<Instruction> {
    vec![
        instr(1, temp(4), load(named(1, "a"))),
        instr(2, temp(5), load(named(2, "b"))),
        instr(3, temp(6), load(named(3, "c"))),
    ]
}

fn returned(more: Vec<InstructionValue>) -> String {
    let mut instructions = loads();
    let mut id = 7;
    for value in more {
        instructions.push(instr(id, temp(id), value));
        id += 1;
    }
    codegen_function(&func(three(), instructions, temp(id - 1))).body
}

#[test]
fn cache_takes_the_first_name_that_is_free() {
    let mut names = NameSet::new();
    names.insert("$");
    names.insert("$0");
    let r = codegen_function_full(&memo_func(), 0, false, &names);
    assert!(r.body.starts_with("  const $1 = _c(2);\n"));
}

#[test]
fn inlined_operands_keep_their_grouping() {
    assert_eq!(
        returned(vec![binary(BinaryOperator::Exp, temp(4), temp(5)), binary(BinaryOperator::Exp, temp(7), temp(6))]),
        "  return (a ** b) ** c;\n"
    );
    assert_eq!(
        returned(vec![binary(BinaryOperator::Exp, temp(5), temp(6)), binary(BinaryOperator::Exp, temp(4), temp(7))]),
        "  return a ** b ** c;\n"
    );
    assert_eq!(
        returned(vec![binary(BinaryOperator::Sub, temp(5), temp(6)), binary(BinaryOperator::Sub, temp(4), temp(7))]),
        "  return a - (b - c);\n"
    );
    assert_eq!(
        returned(vec![
            binary(BinaryOperator::Add, temp(4), temp(5)),
            InstructionValue::UnaryExpression { operator: UnaryOperator::Minus, value: temp(7) },
        ]),
        "  return -(a + b);\n"
    );
    assert_eq!(
        returned(vec![
            binary(BinaryOperator::Add, temp(4), temp(5)),
            InstructionValue::PropertyLoad {
                object: temp(7),
                property: PropertyLiteral::String("length".to_string()),
                optional: false,
            },
        ]),
        "  return (a + b).length;\n"
    );
    assert_eq!(
        returned(vec![
            binary(BinaryOperator::Add, temp(4), temp(5)),
            InstructionValue::Ternary { test: temp(7), consequent: temp(5), alternate: temp(6) },
        ]),
        "  return a + b ? b : c;\n"
    );
}

#[test]
fn expressions_of_single_instructions_keep_their_grouping() {
    let mut instructions = loads();
    instructions.push(instr(7, temp(7), binary(BinaryOperator::Exp, temp(4), temp(5))));
    instructions.push(instr(8, temp(8), binary(BinaryOperator::Exp, temp(7), temp(6))));
    let f = func(three(), instructions, temp(8));
    let mut cg = Generator::new();
    cg.analyze(&f);
    assert_eq!(
        cg.cx.instruction_to_expr(&f.body.blocks[0].1.instructions[4]),
        Some("(a ** b) ** c".to_string())
    );
}

fn unnamed_param() -> HIRFunction {
    func(
        vec![temp(1)],
        vec![
            instr(
                1,
                temp(2),
                takes_apart(InstructionKind::Const, object(vec![part("x", named(3, "x"))]), temp(1)),
            ),
            instr(2, temp(4), load(named(3, "x"))),
            instr(3, temp(5), array(vec![temp(4)])),
            instr(4, temp(6), number(1)),
        ],
        temp(6),
    )
}

#[test]
fn dependencies_on_unnamed_parameters_follow_the_filter() {
    let cx = Context::new();
    let mut filter = IdSet::new();
    filter.insert(4);
    assert!(cx.find_reactive_deps_filtered(&unnamed_param(), Some(&filter)).is_empty());
    filter.insert(3);
    assert_eq!(cx.find_reactive_deps_filtered(&unnamed_param(), Some(&filter)), vec!["x"]);
    assert_eq!(cx.find_reactive_deps_filtered(&unnamed_param(), None), vec!["x"]);
}

#[test]
fn rest_operands_of_unnamed_parameters_are_dependencies() {
    let f = func(
        vec![temp(1)],
        vec![
            instr(
                1,
                temp(2),
                takes_apart(
                    InstructionKind::Const,
                    object(vec![ObjectPropertyOrSpread::Spread(named(3, "rest"))]),
                    temp(1),
                ),
            ),
            instr(2, temp(4), load(named(3, "rest"))),
            instr(3, temp(5), array(vec![temp(4)])),
        ],
        temp(5),
    );
    assert_eq!(find_deps_from_anon_params(&f, &instructions_of(&f), None), vec!["rest"]);
}

#[test]
fn nested_parts_of_unnamed_parameters_are_dependencies() {
    let f = func(
        vec![temp(1)],
        vec![
            instr(
                1,
                temp(2),
                takes_apart(InstructionKind::Const, object(vec![part("a", temp(3))]), temp(1)),
            ),
            instr(
                2,
                temp(4),
                takes_apart(InstructionKind::Const, object(vec![part("b", named(5, "b"))]), temp(3)),
            ),
            instr(3, temp(6), load(named(5, "b"))),
            instr(4, temp(7), array(vec![temp(6)])),
        ],
        temp(7),
    );
    assert_eq!(find_deps_from_anon_params(&f, &instructions_of(&f), None), vec!["b"]);
}

#[test]
fn computed_keys_are_read() {
    let f = func(
        vec![],
        vec![instr(
            1,
            temp(9),
            InstructionValue::ObjectExpression {
                properties: vec![ObjectPropertyOrSpread::Property(ObjectProperty {
                    key: ObjectPropertyKey::Computed(temp(1)),
                    type_: ObjectPropertyType::Property,
                    place: temp(2),
                })],
            },
        )],
        temp(9),
    );
    let ids = build_consumed_ids(&f);
    for id in 0..12 {
        assert_eq!(ids.contains(id), id == 1 || id == 2 || id == 9);
    }
}

fn hands_over(name: &str) -> HIRFunction {
    func(
        vec![],
        vec![
            instr(1, temp(1), global(name)),
            instr(2, temp(2), array(vec![])),
            instr(3, temp(3), call(temp(1), vec![temp(2)])),
            instr(4, temp(4), number(1)),
        ],
        temp(4),
    )
}

#[test]
fn arguments_of_hooks_do_not_escape() {
    for (name, escapes) in [("useFoo", false), ("foo", true)] {
        let f = hands_over(name);
        let mut cg = Generator::new();
        cg.analyze(&f);
        assert_eq!(cg.cx.allocations_escape(&f), escapes);
    }
}

#[test]
fn empty_branches_make_no_statement() {
    let (end, ret) = void();
    let f = blocks(
        vec![named(1, "a")],
        vec![
            block(
                0,
                vec![instr(1, temp(2), load(named(1, "a")))],
                Terminal::If {
                    test: temp(2),
                    consequent: BlockId(1),
                    alternate: BlockId(2),
                    fallthrough: BlockId(2),
                },
            ),
            block(1, vec![], goto(2, GotoVariant::Break)),
            block(2, end, ret),
        ],
    );
    assert!(!codegen_function(&f).body.contains("if"));
}

#[test]
fn scopes_without_dependencies_have_none() {
    let s = || scope(1, 1, 2, vec![], vec![]);
    let f = func(vec![], vec![instr(1, scoped(1, s()), array(vec![]))], scoped(1, s()));
    assert_eq!(find_scope_deps(&f), None);
    assert_eq!(find_scope_deps(&memo_func()), Some(vec!["x".to_string()]));
}

#[test]
fn rest_elements_get_temporary_names() {
    let i = instr(
        1,
        temp(9),
        takes_apart(
            InstructionKind::Const,
            Pattern::Array(ArrayPattern {
                items: vec![ArrayElement::Place(temp(2)), ArrayElement::Spread(temp(3))],
            }),
            temp(1),
        ),
    );
    let mut cx = Context::new();
    cx.assign_temp_names_for_operands(&i);
    assert_eq!(cx.temp_name_map.get(2), Some(&"t0".to_string()));
    assert_eq!(cx.temp_name_map.get(3), Some(&"t1".to_string()));
    assert_eq!(cx.temp_name_map.get(1), None);
}

#[test]
fn allocating_variables() {
    let made = vec![
        instr(1, temp(1), array(vec![])),
        instr(2, temp(2), store(InstructionKind::Const, named(3, "v"), temp(1))),
    ];
    assert!(is_allocating_var(&made.iter().collect(), "v"));
    let plain = vec![
        instr(1, temp(1), number(1)),
        instr(2, temp(2), store(InstructionKind::Const, named(3, "v"), temp(1))),
    ];
    assert!(!is_allocating_var(&plain.iter().collect(), "v"));
}

#[test]
fn calls_of_the_console_only_read() {
    let cg = {
        let f = func(vec![named(1, "x")], vec![instr(1, temp(2), load(named(1, "x")))], temp(2));
        let mut cg = Generator::new();
        cg.analyze(&f);
        cg
    };
    let method = |receiver: &str| {
        instr(
            4,
            temp(7),
            InstructionValue::MethodCall {
                receiver: named(5, receiver),
                property: temp(6),
                args: vec![Argument::Place(named(1, "x"))],
                receiver_optional: false,
                call_optional: false,
            },
        )
    };
    let promoted = "x".to_string();
    assert!(cg.cx.is_readonly_post_scope_call(&method("console"), Some(&promoted)));
    assert!(!cg.cx.is_readonly_post_scope_call(&method("list"), Some(&promoted)));
}

fn test_block(instructions: Vec<Instruction>, test: Place) -> String {
    let (end, ret) = void();
    let f = blocks(
        vec![named(1, "x"), named(9, "q")],
        vec![
            block(
                0,
                vec![],
                Terminal::While { test: BlockId(1), loop_block: BlockId(2), fallthrough: BlockId(3) },
            ),
            block(
                1,
                instructions,
                Terminal::Branch {
                    test,
                    consequent: BlockId(2),
                    alternate: BlockId(3),
                    fallthrough: BlockId(3),
                },
            ),
            block(2, calls(30, "f"), goto(1, GotoVariant::Continue)),
            block(3, end, ret),
        ],
    );
    codegen_function(&f).body
}

#[test]
fn tests_keep_their_assignments() {
    let pops = || {
        vec![
            instr(1, temp(2), global("pop")),
            instr(2, temp(3), call(temp(2), vec![])),
            instr(3, temp(4), store(InstructionKind::Reassign, named(1, "x"), temp(3))),
        ]
    };
    let mut inside = pops();
    inside.push(instr(4, temp(5), InstructionValue::Primitive { value: PrimitiveValue::Null }));
    inside.push(instr(5, temp(6), binary(BinaryOperator::StrictNotEq, temp(3), temp(5))));
    assert_eq!(
        test_block(inside, temp(6)),
        "  while ((x = pop()) !== null) {\n    f();\n  }\n"
    );
    let mut before = pops();
    before.push(instr(4, temp(5), load(named(9, "q"))));
    assert_eq!(
        test_block(before, temp(5)),
        "  while (x = pop(), q) {\n    f();\n  }\n"
    );
}

fn inner(params: Vec<Argument>, instructions: Vec<Instruction>) -> LoweredFunction {
    let mut f = func(vec![], instructions, temp(50));
    f.id = None;
    f.params = params;
    LoweredFunction {
        func: f,
        reactive: Box::new(ReactiveFunction {
            loc: SourceLocation::Generated,
            id: None,
            name_hint: None,
            params: vec![],
            generator: false,
            async_: false,
            body: vec![],
            directives: vec![],
        }),
        direct: None,
    }
}

#[test]
fn functions_that_capture_stay_inside() {
    let mut outer = NameSet::new();
    outer.insert("x");
    let reads = || InstructionValue::LoadContext { place: named(1, "x") };
    assert!(!can_outline_function(&outer, &inner(vec![], vec![instr(1, temp(50), reads())])));
    assert!(can_outline_function(
        &outer,
        &inner(vec![Argument::Spread(named(1, "x"))], vec![instr(1, temp(50), reads())])
    ));
    let nested = || InstructionValue::FunctionExpression {
        name: None,
        lowered_func: inner(vec![], vec![instr(1, temp(50), reads())]),
        expr_type: FunctionExpressionType::ArrowFunctionExpression,
    };
    assert!(!can_outline_function(&outer, &inner(vec![], vec![instr(1, temp(50), nested())])));
    assert!(can_outline_function(
        &outer,
        &inner(vec![Argument::Place(named(1, "x"))], vec![instr(1, temp(50), nested())])
    ));
}

#[test]
fn variables_that_a_scope_assigns_are_outputs() {
    let s = || scope(1, 2, 4, vec![], vec![]);
    let f = func(
        vec![named(9, "q")],
        vec![
            instr(
                1,
                temp(10),
                InstructionValue::DeclareLocal {
                    lvalue: LValue { kind: InstructionKind::Let, place: named(1, "x") },
                },
            ),
            instr(2, scoped(2, s()), array(vec![])),
            instr(
                3,
                temp(3),
                takes_apart(
                    InstructionKind::Reassign,
                    object(vec![part("x", named(1, "x"))]),
                    named(9, "q"),
                ),
            ),
        ],
        temp(2),
    );
    assert_eq!(collect_extra_scope_outputs(&f, "t0"), (vec!["x".to_string()], 1));
}

#[test]
fn rest_operands_of_hook_results_are_no_dependencies() {
    let f = func(
        vec![],
        vec![
            instr(1, temp(1), global("useFoo")),
            instr(2, temp(2), call(temp(1), vec![])),
            instr(
                3,
                temp(3),
                takes_apart(
                    InstructionKind::Const,
                    object(vec![
                        part("a", named(4, "a")),
                        ObjectPropertyOrSpread::Spread(named(5, "rest")),
                    ]),
                    temp(2),
                ),
            ),
            instr(4, temp(6), load(named(4, "a"))),
            instr(5, temp(7), load(named(5, "rest"))),
            instr(6, temp(8), array(vec![temp(6), temp(7)])),
        ],
        temp(8),
    );
    let mut cg = Generator::new();
    cg.analyze(&f);
    assert_eq!(cg.cx.find_reactive_deps_filtered(&f, None), vec!["a"]);
}

#[test]
fn temporaries_get_their_own_names() {
    let f = func(
        vec![named(30, "x")],
        vec![
            instr(1, temp(31), load(named(30, "x"))),
            instr(
                2,
                temp(32),
                takes_apart(
                    InstructionKind::Const,
                    Pattern::Array(ArrayPattern {
                        items: vec![ArrayElement::Place(temp(1)), ArrayElement::Place(temp(12))],
                    }),
                    temp(31),
                ),
            ),
            instr(3, temp(33), add(temp(12), temp(1))),
        ],
        temp(33),
    );
    let body = codegen_function(&f).body;
    assert!(body.contains("t1 + t0"), "{}", body);
}

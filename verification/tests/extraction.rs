//! Destructuring assignments that mix declared variables with new ones.

use reactive_scopes::collections::IdSet;
use reactive_scopes::extract_scope_destructuring::{
    do_transform_destructure, extract_scope_destructuring,
};
use reactive_scopes::hir::{
    make_declaration_scope, Argument, DeclarationId, Effect, Identifier, IdentifierId, IdentifierName,
    InstructionId, InstructionKind, InstructionValue, LValuePattern, MutableRange, ObjectPattern,
    ObjectProperty, ObjectPropertyKey, ObjectPropertyOrSpread, ObjectPropertyType, Pattern, Place,
    ReactiveFunction, ReactiveInstruction, ReactiveScope, ReactiveScopeBlock, ReactiveStatement,
    ScopeDeclaration, ScopeDeclarations, ScopeId, SourceLocation, Type,
};

fn make_identifier(id: u32, name: Option<IdentifierName>) -> Identifier {
    Identifier {
        id: IdentifierId(id),
        declaration_id: DeclarationId(id),
        name,
        mutable_range: MutableRange::default(),
        scope: None,
        type_: Type::Poly,
        loc: SourceLocation::Generated,
    }
}

fn make_place(id: u32, name: Option<IdentifierName>) -> Place {
    Place {
        identifier: make_identifier(id, name),
        effect: Effect::Unknown,
        reactive: false,
        loc: SourceLocation::Generated,
    }
}

fn make_scope(id: u32) -> ReactiveScope {
    ReactiveScope {
        id: ScopeId(id),
        range: MutableRange::default(),
        dependencies: vec![],
        declarations: ScopeDeclarations::new(),
        reassignments: vec![],
        merged_id: None,
        early_return_value: None,
    }
}

#[test]
fn test_no_transform_when_all_new_declarations() {
    // Destructure where none of the operands are already declared
    let mut func = ReactiveFunction {
        loc: SourceLocation::Generated,
        id: None,
        name_hint: None,
        params: vec![],
        generator: false,
        async_: false,
        body: vec![ReactiveStatement::Instruction(Box::new(
            ReactiveInstruction {
                id: InstructionId(0),
                lvalue: None,
                value: InstructionValue::Destructure {
                    lvalue: LValuePattern {
                        pattern: Pattern::Object(ObjectPattern {
                            properties: vec![ObjectPropertyOrSpread::Property(
                                ObjectProperty {
                                    key: ObjectPropertyKey::String("x".to_string()),
                                    type_: ObjectPropertyType::Property,
                                    place: make_place(
                                        1,
                                        Some(IdentifierName::Named("x".to_string())),
                                    ),
                                },
                            )],
                        }),
                        kind: InstructionKind::Const,
                    },
                    value: make_place(10, None),
                    loc: SourceLocation::Generated,
                },
                loc: SourceLocation::Generated,
            },
        ))],
        directives: vec![],
    };

    let mut next_temp_id: u32 = 900_000;
    extract_scope_destructuring(&mut func, &mut next_temp_id);
    // Should remain a single instruction (no transformation)
    assert_eq!(func.body.len(), 1);
    assert!(matches!(&func.body[0], ReactiveStatement::Instruction(_)));
}

#[test]
fn test_transform_mixed_destructure() {
    // Create a scope that declares `rest` (decl_id=2), then a destructure
    // that has both a new variable `x` (decl_id=1) and the already-declared `rest`.
    let mut scope = make_scope(1);
    scope.declarations.insert(
        IdentifierId(2),
        ScopeDeclaration {
            identifier: make_identifier(2, Some(IdentifierName::Named("rest".to_string()))),
            scope: make_declaration_scope(ScopeId(1)),
        },
    );

    let mut func = ReactiveFunction {
        loc: SourceLocation::Generated,
        id: None,
        name_hint: None,
        params: vec![],
        generator: false,
        async_: false,
        body: vec![ReactiveStatement::Scope(ReactiveScopeBlock {
            scope,
            instructions: vec![ReactiveStatement::Instruction(Box::new(
                ReactiveInstruction {
                    id: InstructionId(1),
                    lvalue: None,
                    value: InstructionValue::Destructure {
                        lvalue: LValuePattern {
                            pattern: Pattern::Object(ObjectPattern {
                                properties: vec![
                                    ObjectPropertyOrSpread::Property(ObjectProperty {
                                        key: ObjectPropertyKey::String("x".to_string()),
                                        type_: ObjectPropertyType::Property,
                                        place: make_place(
                                            1,
                                            Some(IdentifierName::Named("x".to_string())),
                                        ),
                                    }),
                                    ObjectPropertyOrSpread::Spread(make_place(
                                        2,
                                        Some(IdentifierName::Named("rest".to_string())),
                                    )),
                                ],
                            }),
                            kind: InstructionKind::Const,
                        },
                        value: make_place(10, None),
                        loc: SourceLocation::Generated,
                    },
                    loc: SourceLocation::Generated,
                },
            ))],
        })],
        directives: vec![],
    };

    let mut next_temp_id: u32 = 900_000;
    extract_scope_destructuring(&mut func, &mut next_temp_id);

    // The scope should now contain 2 instructions:
    // 1. The modified Destructure (with `rest` replaced by a temporary)
    // 2. A StoreLocal(Reassign) from the temporary back to `rest`
    if let ReactiveStatement::Scope(scope_block) = &func.body[0] {
        assert_eq!(
            scope_block.instructions.len(),
            2,
            "Should have destructure + reassignment"
        );

        // First instruction is the destructure
        assert!(matches!(
            &scope_block.instructions[0],
            ReactiveStatement::Instruction(instr)
                if matches!(instr.as_ref(), ReactiveInstruction {
                    value: InstructionValue::Destructure { .. },
                    ..
                })
        ));

        // Second instruction is the StoreLocal Reassign
        if let ReactiveStatement::Instruction(store_instr) = &scope_block.instructions[1] {
            if let InstructionValue::StoreLocal { lvalue, .. } = &store_instr.value {
                assert_eq!(lvalue.kind, InstructionKind::Reassign);
                assert_eq!(
                    lvalue.place.identifier.name.as_ref().unwrap().value(),
                    "rest"
                );
            } else {
                panic!("Expected StoreLocal instruction");
            }
        } else {
            panic!("Expected Instruction statement");
        }
    } else {
        panic!("Expected Scope statement");
    }
}

fn property(name: &str, place: Place) -> ObjectPropertyOrSpread {
    ObjectPropertyOrSpread::Property(ObjectProperty {
        key: ObjectPropertyKey::String(name.to_string()),
        type_: ObjectPropertyType::Property,
        place,
    })
}

fn named(id: u32, name: &str) -> Place {
    make_place(id, Some(IdentifierName::Named(name.to_string())))
}

fn destructures(properties: Vec<ObjectPropertyOrSpread>) -> ReactiveStatement {
    ReactiveStatement::Instruction(Box::new(ReactiveInstruction {
        id: InstructionId(1),
        lvalue: None,
        value: InstructionValue::Destructure {
            lvalue: LValuePattern {
                pattern: Pattern::Object(ObjectPattern { properties }),
                kind: InstructionKind::Const,
            },
            value: make_place(10, None),
            loc: SourceLocation::Generated,
        },
        loc: SourceLocation::Generated,
    }))
}

fn function(params: Vec<Place>, body: Vec<ReactiveStatement>) -> ReactiveFunction {
    ReactiveFunction {
        loc: SourceLocation::Generated,
        id: None,
        name_hint: None,
        params: params.into_iter().map(Argument::Place).collect(),
        generator: false,
        async_: false,
        body,
        directives: vec![],
    }
}

#[test]
fn temporaries_are_numbered_in_turn() {
    let mut func = function(
        vec![named(1, "a"), named(2, "b")],
        vec![destructures(vec![
            property("a", named(1, "a")),
            property("x", named(3, "x")),
            property("b", named(2, "b")),
        ])],
    );
    let mut next: u32 = 40;
    extract_scope_destructuring(&mut func, &mut next);
    assert_eq!(next, 42);
    assert_eq!(func.body.len(), 3);
    for (i, name) in [(1, "a"), (2, "b")] {
        match &func.body[i] {
            ReactiveStatement::Instruction(instr) => match &instr.value {
                InstructionValue::StoreLocal { lvalue, value, .. } => {
                    assert_eq!(lvalue.kind, InstructionKind::Reassign);
                    assert_eq!(lvalue.place.identifier.name.as_ref().unwrap().value(), name);
                    assert_eq!(value.identifier.id, IdentifierId(39 + i as u32));
                }
                _ => panic!("a store is expected"),
            },
            _ => panic!("an instruction is expected"),
        }
    }
}

#[test]
fn unmixed_destructuring_takes_no_numbers() {
    let mut func = function(
        vec![named(1, "a")],
        vec![
            destructures(vec![property("a", named(1, "a"))]),
            destructures(vec![property("x", named(3, "x"))]),
        ],
    );
    let mut next: u32 = 40;
    extract_scope_destructuring(&mut func, &mut next);
    assert_eq!(next, 40);
    assert_eq!(func.body.len(), 2);
}

fn alone(s: ReactiveStatement) -> ReactiveInstruction {
    match s {
        ReactiveStatement::Instruction(instr) => *instr,
        _ => panic!("an instruction is expected"),
    }
}

#[test]
fn every_destructuring_is_taken() {
    let mut declared = IdSet::new();
    declared.insert(1);
    let mut next: u32 = 40;
    let mixed = || destructures(vec![property("a", named(1, "a")), property("x", named(3, "x"))]);
    assert_eq!(do_transform_destructure(alone(mixed()), &declared, &mut next).len(), 2);
    assert_eq!(next, 41);
    let known = destructures(vec![property("a", named(1, "a"))]);
    assert_eq!(do_transform_destructure(alone(known), &declared, &mut next).len(), 2);
    assert_eq!(next, 42);
    let new = destructures(vec![property("x", named(3, "x"))]);
    assert_eq!(do_transform_destructure(alone(new), &declared, &mut next).len(), 1);
    assert_eq!(next, 42);
}

#[test]
fn extracting_again_changes_nothing() {
    let mut func = function(
        vec![named(1, "a"), named(2, "b")],
        vec![destructures(vec![
            property("a", named(1, "a")),
            property("x", named(3, "x")),
            property("b", named(2, "b")),
        ])],
    );
    let mut next: u32 = 40;
    extract_scope_destructuring(&mut func, &mut next);
    let once = format!("{:?}", func);
    extract_scope_destructuring(&mut func, &mut next);
    assert_eq!(format!("{:?}", func), once);
    assert_eq!(next, 42);
}

#[test]
fn temporaries_of_successive_calls_differ() {
    let make = || {
        function(
            vec![named(1, "a")],
            vec![destructures(vec![property("a", named(1, "a")), property("x", named(3, "x"))])],
        )
    };
    let stored = |func: &ReactiveFunction| match &func.body[1] {
        ReactiveStatement::Instruction(instr) => match &instr.value {
            InstructionValue::StoreLocal { value, .. } => value.identifier.id,
            _ => panic!("a store is expected"),
        },
        _ => panic!("an instruction is expected"),
    };
    let mut next: u32 = 900_000;
    let (mut first, mut second) = (make(), make());
    extract_scope_destructuring(&mut first, &mut next);
    extract_scope_destructuring(&mut second, &mut next);
    assert_eq!(stored(&first), IdentifierId(900_000));
    assert_eq!(stored(&second), IdentifierId(900_001));
}

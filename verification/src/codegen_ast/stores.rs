//! Declarations, assignments and patterns.

use std::rc::Rc;
use vstd::prelude::*;

use crate::codegen::print::{float_text, is_float_text};
use crate::codegen_ast::js::{
    unfold_expr, binding_models, expr_model, item_models, key_model, lemma_binding_push,
    lemma_item_push, lemma_member_push, member_models, option_expr, option_texts, stmt_model,
    target_model, Binding, BindingModel, Ex, Expr, Item, ItemModel, Key, KeyModel, Member,
    MemberModel, St, Stmt, Target, TargetModel, Text, VariableKind,
};
use crate::codegen_ast::make::{
    assign, assign_expr, assign_to, computed_member, declaration, declare_var, expression, ident,
    one_declaration, static_member, var_stmt,
};
use crate::codegen_ast::outside::{identifier_text, is_identifier_name};
use crate::codegen_ast::scan::is_codegen_temp;
use crate::codegen_ast::state::{
    after_place, after_resolving, after_writing, own_name, own_name_of, place_expr, resolved_name,
    with_block_name, with_decl, with_declared, with_name, with_temp, written_name, CodegenContext, Cx,
    PreservedInitializer,
};
use crate::extract_scope_destructuring::{each_pattern_operand, pattern_operands};
use crate::graph::pointees;
use crate::hir::{
    Argument, ArrayElement, DeclarationId, InstructionKind, LValue, LValuePattern, ObjectPropertyKey,
    ObjectPropertyOrSpread, ObjectPropertyType, Pattern, Place,
};
use crate::text::{owned, same, temp_name};

verus! {

broadcast use crate::codegen_ast::js::group_js;

// ---------------------------------------------------------------------------
// Emitting
// ---------------------------------------------------------------------------

/// How a variable of a kind is declared, where it is.
pub open spec fn declared_kind(kind: InstructionKind) -> Option<VariableKind> {
    match kind {
        InstructionKind::Const => Some(VariableKind::Const),
        InstructionKind::HoistedConst => Some(VariableKind::Const),
        InstructionKind::Let => Some(VariableKind::Let),
        InstructionKind::Catch => Some(VariableKind::Let),
        InstructionKind::HoistedLet => Some(VariableKind::Let),
        _ => None,
    }
}

pub fn variable_declaration_kind(kind: InstructionKind) -> (r: Option<VariableKind>)
    ensures
        r == declared_kind(kind),
{
    match kind {
        InstructionKind::Const => Some(VariableKind::Const),
        InstructionKind::HoistedConst => Some(VariableKind::Const),
        InstructionKind::Let => Some(VariableKind::Let),
        InstructionKind::Catch => Some(VariableKind::Let),
        InstructionKind::HoistedLet => Some(VariableKind::Let),
        _ => None,
    }
}

/// An expression with parentheses around it where it is an element.
pub open spec fn framed(e: Ex) -> Ex {
    match e {
        Ex::JsxElement { .. } => Ex::Parenthesized(Box::new(e)),
        Ex::JsxFragment(_) => Ex::Parenthesized(Box::new(e)),
        _ => e,
    }
}

pub fn maybe_parenthesize_jsx(e: Rc<Expr>) -> (r: Rc<Expr>)
    ensures
        expr_model(*r) == framed(expr_model(*e)),
{
    proof {
        unfold_expr(&*e);
    }
    let element = match &*e {
        Expr::JsxElement { .. } => true,
        Expr::JsxFragment(_) => true,
        _ => false,
    };
    if element {
        Rc::new(Expr::Parenthesized(e))
    } else {
        e
    }
}

pub open spec fn assignment(name: Text, e: Ex) -> St {
    St::Expression(assign_expr(name, framed(e)))
}

pub fn emit_assignment_stmt(name: &str, e: Rc<Expr>) -> (r: Stmt)
    ensures
        stmt_model(r) == assignment(name@, expr_model(*e)),
{
    expression(assign(name, maybe_parenthesize_jsx(e)))
}

/// The statement that declares a variable. One that is declared already under its name is assigned.
pub open spec fn var_code(
    cx: Cx,
    name: Text,
    kind: VariableKind,
    init: Option<Ex>,
    decl: u32,
) -> (Cx, St) {
    if cx.declared_names.contains(name) && cx.declared_decls.contains(decl) {
        (
            cx,
            match init {
                Some(e) => assignment(name, e),
                None => St::Empty,
            },
        )
    } else {
        (
            with_decl(with_block_name(with_name(cx, name), name), decl),
            var_stmt(
                kind,
                name,
                match init {
                    Some(e) => Some(framed(e)),
                    None => None,
                },
            ),
        )
    }
}

pub fn emit_var_decl_stmt(
    cx: &mut CodegenContext,
    name: &str,
    kind: VariableKind,
    init: Option<Rc<Expr>>,
    decl: DeclarationId,
) -> (r: Stmt)
    ensures
        (final(cx)@, stmt_model(r)) == var_code(old(cx)@, name@, kind, option_expr(init), decl.0),
{
    if cx.is_name_declared(name) && cx.is_decl_declared(decl) {
        return match init {
            Some(e) => emit_assignment_stmt(name, e),
            None => Stmt::Empty,
        };
    }
    cx.declare_name(name);
    cx.register_scoped_name(name);
    cx.declare_decl(decl);
    let init = match init {
        Some(e) => Some(maybe_parenthesize_jsx(e)),
        None => None,
    };
    declare_var(kind, name, init)
}

// ---------------------------------------------------------------------------
// Declarations and stores
// ---------------------------------------------------------------------------

/// The first initializer from `i` on that is kept for a declaration.
pub open spec fn initializer_from(v: Seq<PreservedInitializer>, decl: u32, i: int) -> Option<
    PreservedInitializer,
>
    decreases v.len() - i,
{
    if i < 0 || i >= v.len() {
        None
    } else if v[i].declaration.0 == decl {
        Some(v[i])
    } else {
        initializer_from(v, decl, i + 1)
    }
}

/// The expression for a kept initializer.
pub open spec fn initializer_expr(p: PreservedInitializer) -> Ex {
    let s = p.text@;
    if s == "null"@ {
        Ex::Null
    } else if s == "undefined"@ {
        Ex::Identifier("undefined"@)
    } else if s == "true"@ {
        Ex::Boolean(true)
    } else if s == "false"@ {
        Ex::Boolean(false)
    } else if float_text(s) {
        Ex::Number(s)
    } else {
        Ex::Text(s)
    }
}

pub open spec fn initializer(v: Seq<PreservedInitializer>, decl: u32) -> Option<Ex> {
    match initializer_from(v, decl, 0) {
        Some(p) => Some(initializer_expr(p)),
        None => None,
    }
}

fn initializer_of(v: &Vec<PreservedInitializer>, decl: u32) -> (r: Option<Rc<Expr>>)
    ensures
        option_expr(r) == initializer(v@, decl),
{
    let mut i: usize = 0;
    while i < v.len()
        invariant
            i <= v@.len(),
            initializer_from(v@, decl, 0) == initializer_from(v@, decl, i as int),
        decreases v@.len() - i,
    {
        if v[i].declaration.0 == decl {
            let s = v[i].text.as_str();
            let e = if same(s, "null") {
                Rc::new(Expr::Null)
            } else if same(s, "undefined") {
                ident("undefined")
            } else if same(s, "true") {
                Rc::new(Expr::Boolean(true))
            } else if same(s, "false") {
                Rc::new(Expr::Boolean(false))
            } else if is_float_text(s) {
                Rc::new(Expr::Number(owned(s)))
            } else {
                Rc::new(Expr::Text(owned(s)))
            };
            assert(expr_model(*e) == initializer_expr(v@[i as int]));
            return Some(e);
        }
        i = i + 1;
    }
    None
}

/// The declaration of a variable without a value.
#[verifier::opaque]
pub open spec fn declare_code(cx: Cx, lvalue: LValue) -> (Cx, Option<St>) {
    let identifier = lvalue.place.identifier;
    let id = identifier.id.0;
    let decl = identifier.declaration_id.0;
    if identifier.name is None || cx.declared.contains(id) || cx.declared_decls.contains(decl) {
        (cx, None)
    } else {
        let kind = match declared_kind(lvalue.kind) {
            Some(k) => k,
            None => VariableKind::Let,
        };
        let out = var_code(
            with_decl(with_declared(cx, id), decl),
            own_name(identifier),
            kind,
            initializer(cx.settings.initializers, decl),
            decl,
        );
        (out.0, Some(out.1))
    }
}

pub open spec fn option_stmt(s: Option<Stmt>) -> Option<St> {
    match s {
        Some(s) => Some(stmt_model(s)),
        None => None,
    }
}

pub fn codegen_declare(cx: &mut CodegenContext, lvalue: &LValue) -> (r: Option<Stmt>)
    ensures
        (final(cx)@, option_stmt(r)) == declare_code(old(cx)@, *lvalue),
{
    proof {
        reveal(declare_code);
    }
    let identifier = &lvalue.place.identifier;
    let name = match own_name_of(identifier) {
        Some(n) => n,
        None => {
            return None;
        },
    };
    if cx.is_declared(identifier.id) || cx.is_decl_declared(identifier.declaration_id) {
        return None;
    }
    cx.declare(identifier.id);
    cx.declare_decl(identifier.declaration_id);
    let kind = match variable_declaration_kind(lvalue.kind) {
        Some(k) => k,
        None => VariableKind::Let,
    };
    let init = initializer_of(cx.initializers(), identifier.declaration_id.0);
    Some(emit_var_decl_stmt(cx, name.as_str(), kind, init, identifier.declaration_id))
}

/// Whether an expression is a function that can be declared.
pub open spec fn declarable(e: Ex) -> bool {
    match e {
        Ex::Function { .. } => true,
        Ex::Direct { arrow, .. } => !arrow,
        _ => false,
    }
}

/// How the first store to a variable of a kind declares it.
pub open spec fn stored_kind(kind: InstructionKind) -> VariableKind {
    match kind {
        InstructionKind::Const => VariableKind::Const,
        InstructionKind::HoistedConst => VariableKind::Const,
        InstructionKind::Function => VariableKind::Const,
        InstructionKind::HoistedFunction => VariableKind::Const,
        _ => VariableKind::Let,
    }
}

pub open spec fn is_function_kind(kind: InstructionKind) -> bool {
    kind == InstructionKind::Function || kind == InstructionKind::HoistedFunction
}

/// A store to a variable: an assignment, or its declaration. A store to a temporary is kept for the
/// places where the temporary is used.
#[verifier::opaque]
pub open spec fn store_code(cx: Cx, lvalue: LValue, value: Place) -> (Cx, Option<St>) {
    let e = place_expr(cx, value);
    let cx1 = after_place(cx, value);
    let identifier = lvalue.place.identifier;
    let id = identifier.id.0;
    let decl = identifier.declaration_id.0;
    if identifier.name is None && !cx1.declared.contains(id) && lvalue.kind
        != InstructionKind::Reassign {
        (with_temp(cx1, decl, e), None)
    } else {
        let name = resolved_name(cx1, identifier);
        let cx2 = after_resolving(cx1, identifier);
        if lvalue.kind == InstructionKind::Reassign {
            if temp_name(name) && !cx2.declared_names.contains(name) && !cx2.declared.contains(id) {
                let out = var_code(
                    with_declared(cx2, id),
                    name,
                    VariableKind::Let,
                    Some(e),
                    decl,
                );
                (out.0, Some(out.1))
            } else {
                (cx2, Some(assignment(name, e)))
            }
        } else if is_function_kind(lvalue.kind) && declarable(e) {
            (with_declared(cx2, id), Some(St::Function { name, function: e }))
        } else if cx2.declared.contains(id) {
            (cx2, Some(assignment(name, e)))
        } else {
            let out = var_code(
                with_declared(cx2, id),
                name,
                stored_kind(lvalue.kind),
                Some(e),
                decl,
            );
            (out.0, Some(out.1))
        }
    }
}

fn is_declarable(e: &Expr) -> (r: bool)
    ensures
        r == declarable(expr_model(*e)),
{
    proof {
        unfold_expr(e);
    }
    match e {
        Expr::Function { .. } => true,
        Expr::Direct { arrow, .. } => !*arrow,
        _ => false,
    }
}

pub fn codegen_store(cx: &mut CodegenContext, lvalue: &LValue, value: &Place) -> (r: Option<Stmt>)
    ensures
        (final(cx)@, option_stmt(r)) == store_code(old(cx)@, *lvalue, *value),
{
    proof {
        reveal(store_code);
    }
    let e = cx.codegen_place(value);
    let identifier = &lvalue.place.identifier;
    let id = identifier.id;
    let decl = identifier.declaration_id;
    let reassigns = lvalue.kind == InstructionKind::Reassign;
    if identifier.name.is_none() && !cx.is_declared(id) && !reassigns {
        cx.set_temp(decl, e);
        return None;
    }
    let name = cx.resolve_identifier_name(identifier);
    if reassigns {
        if is_codegen_temp(name.as_str()) && !cx.is_name_declared(name.as_str())
            && !cx.is_declared(id) {
            cx.declare(id);
            return Some(emit_var_decl_stmt(cx, name.as_str(), VariableKind::Let, Some(e), decl));
        }
        return Some(emit_assignment_stmt(name.as_str(), e));
    }
    let function = lvalue.kind == InstructionKind::Function || lvalue.kind
        == InstructionKind::HoistedFunction;
    if function && is_declarable(&e) {
        cx.declare(id);
        return Some(Stmt::Function { name, function: e });
    }
    if cx.is_declared(id) {
        return Some(emit_assignment_stmt(name.as_str(), e));
    }
    cx.declare(id);
    let kind = if function || lvalue.kind == InstructionKind::Const || lvalue.kind
        == InstructionKind::HoistedConst {
        VariableKind::Const
    } else {
        VariableKind::Let
    };
    Some(emit_var_decl_stmt(cx, name.as_str(), kind, Some(e), decl))
}

// ---------------------------------------------------------------------------
// Patterns
// ---------------------------------------------------------------------------

/// The key of a property. One that is written as text is a name where it can be.
pub open spec fn key_code(cx: Cx, key: ObjectPropertyKey) -> (Cx, KeyModel) {
    match key {
        ObjectPropertyKey::Identifier(s) => (cx, KeyModel::Name(s@)),
        ObjectPropertyKey::String(s) => (
            cx,
            if identifier_text(s@) {
                KeyModel::Name(s@)
            } else {
                KeyModel::Text(s@)
            },
        ),
        ObjectPropertyKey::Number(n) => (cx, KeyModel::Number(n.display@)),
        ObjectPropertyKey::Computed(p) => (
            after_place(cx, p),
            KeyModel::Computed(Box::new(place_expr(cx, p))),
        ),
    }
}

pub fn build_property_key_for_pattern(cx: &mut CodegenContext, key: &ObjectPropertyKey) -> (r: Key)
    ensures
        (final(cx)@, key_model(r)) == key_code(old(cx)@, *key),
{
    match key {
        ObjectPropertyKey::Identifier(s) => Key::Name(owned(s.as_str())),
        ObjectPropertyKey::String(s) => {
            if is_identifier_name(s.as_str()) {
                Key::Name(owned(s.as_str()))
            } else {
                Key::Text(owned(s.as_str()))
            }
        },
        ObjectPropertyKey::Number(n) => Key::Number(owned(n.display.as_str())),
        ObjectPropertyKey::Computed(p) => Key::Computed(cx.codegen_place(p)),
    }
}

/// Whether a key is the plain name `name`.
pub open spec fn is_key_name(key: ObjectPropertyKey, name: Text) -> bool {
    key matches ObjectPropertyKey::Identifier(s) && s@ == name
}

/// A place of a pattern is written; in a declaration it counts as declared from now on.
pub open spec fn after_operand(cx: Cx, p: Place, declares: bool) -> Cx {
    let cx1 = after_writing(cx, p.identifier);
    if declares {
        with_declared(cx1, p.identifier.id.0)
    } else {
        cx1
    }
}

/// The array pattern, where `elements` are the first `i`. Nothing may come behind a rest element.
pub open spec fn array_code(
    cx: Cx,
    items: Seq<ArrayElement>,
    declares: bool,
    i: int,
    elements: Seq<Option<Text>>,
) -> (Cx, Option<TargetModel>)
    decreases items.len() - i,
{
    if i < 0 || i >= items.len() {
        (cx, Some(TargetModel::Array { elements, rest: None }))
    } else {
        match items[i] {
            ArrayElement::Place(p) => array_code(
                after_operand(cx, p, declares),
                items,
                declares,
                i + 1,
                elements.push(Some(written_name(p.identifier))),
            ),
            ArrayElement::Spread(p) => {
                if i + 1 == items.len() {
                    (
                        after_operand(cx, p, declares),
                        Some(
                            TargetModel::Array {
                                elements,
                                rest: Some(written_name(p.identifier)),
                            },
                        ),
                    )
                } else {
                    (cx, None)
                }
            },
            ArrayElement::Hole => array_code(cx, items, declares, i + 1, elements.push(None)),
        }
    }
}

/// The object pattern, where `bindings` are the first `i`. Nothing may come behind a rest element.
pub open spec fn object_code(
    cx: Cx,
    properties: Seq<ObjectPropertyOrSpread>,
    declares: bool,
    i: int,
    bindings: Seq<BindingModel>,
) -> (Cx, Option<TargetModel>)
    decreases properties.len() - i,
{
    if i < 0 || i >= properties.len() {
        (cx, Some(TargetModel::Object { properties: bindings, rest: None }))
    } else {
        match properties[i] {
            ObjectPropertyOrSpread::Property(p) => {
                let name = written_name(p.place.identifier);
                let key = key_code(after_operand(cx, p.place, declares), p.key);
                object_code(
                    key.0,
                    properties,
                    declares,
                    i + 1,
                    bindings.push(
                        BindingModel { key: key.1, name, shorthand: is_key_name(p.key, name) },
                    ),
                )
            },
            ObjectPropertyOrSpread::Spread(p) => {
                if i + 1 == properties.len() {
                    (
                        after_operand(cx, p, declares),
                        Some(
                            TargetModel::Object {
                                properties: bindings,
                                rest: Some(written_name(p.identifier)),
                            },
                        ),
                    )
                } else {
                    (cx, None)
                }
            },
        }
    }
}

/// The pattern of a declaration or of an assignment.
pub open spec fn pattern_code(cx: Cx, pattern: Pattern, declares: bool) -> (Cx, Option<TargetModel>) {
    match pattern {
        Pattern::Array(a) => array_code(cx, a.items@, declares, 0, Seq::empty()),
        Pattern::Object(o) => object_code(cx, o.properties@, declares, 0, Seq::empty()),
    }
}

pub open spec fn option_target(t: Option<Target>) -> Option<TargetModel> {
    match t {
        Some(t) => Some(target_model(t)),
        None => None,
    }
}

fn operand_name(cx: &mut CodegenContext, p: &Place, declares: bool) -> (r: String)
    ensures
        r@ == written_name(p.identifier),
        final(cx)@ == after_operand(old(cx)@, *p, declares),
{
    let name = cx.identifier_name(&p.identifier);
    if declares {
        cx.declare(p.identifier.id);
    }
    name
}

fn build_array(cx: &mut CodegenContext, items: &Vec<ArrayElement>, declares: bool) -> (r: Option<Target>)
    ensures
        (final(cx)@, option_target(r)) == array_code(
            old(cx)@,
            items@,
            declares,
            0,
            Seq::empty(),
        ),
{
    let mut elements: Vec<Option<String>> = Vec::new();
    let ghost goal = array_code(cx@, items@, declares, 0, Seq::empty());
    let mut i: usize = 0;
    proof {
        assert(option_texts(elements@) =~= Seq::<Option<Text>>::empty());
    }
    while i < items.len()
        invariant
            i <= items@.len(),
            goal == array_code(old(cx)@, items@, declares, 0, Seq::empty()),
            goal == array_code(cx@, items@, declares, i as int, option_texts(elements@)),
        decreases items@.len() - i,
    {
        let ghost before = elements@;
        match &items[i] {
            ArrayElement::Place(p) => {
                let name = operand_name(cx, p, declares);
                elements.push(Some(name));
                proof {
                    assert(option_texts(elements@) =~= option_texts(before).push(
                        Some(written_name(p.identifier)),
                    ));
                }
            },
            ArrayElement::Spread(p) => {
                if i + 1 != items.len() {
                    return None;
                }
                let name = operand_name(cx, p, declares);
                return Some(Target::Array { elements, rest: Some(name) });
            },
            ArrayElement::Hole => {
                elements.push(None);
                proof {
                    assert(option_texts(elements@) =~= option_texts(before).push(None));
                }
            },
        }
        i = i + 1;
    }
    Some(Target::Array { elements, rest: None })
}

fn build_object(
    cx: &mut CodegenContext,
    properties: &Vec<ObjectPropertyOrSpread>,
    declares: bool,
) -> (r: Option<Target>)
    ensures
        (final(cx)@, option_target(r)) == object_code(
            old(cx)@,
            properties@,
            declares,
            0,
            Seq::empty(),
        ),
{
    let mut bindings: Vec<Binding> = Vec::new();
    let ghost goal = object_code(cx@, properties@, declares, 0, Seq::empty());
    let mut i: usize = 0;
    while i < properties.len()
        invariant
            i <= properties@.len(),
            goal == object_code(old(cx)@, properties@, declares, 0, Seq::empty()),
            goal == object_code(
                cx@,
                properties@,
                declares,
                i as int,
                binding_models(bindings@),
            ),
        decreases properties@.len() - i,
    {
        match &properties[i] {
            ObjectPropertyOrSpread::Property(p) => {
                let name = operand_name(cx, &p.place, declares);
                let key = build_property_key_for_pattern(cx, &p.key);
                let shorthand = match &p.key {
                    ObjectPropertyKey::Identifier(s) => same(s.as_str(), name.as_str()),
                    _ => false,
                };
                let binding = Binding { key, name, shorthand };
                proof {
                    lemma_binding_push(bindings@, binding);
                }
                bindings.push(binding);
            },
            ObjectPropertyOrSpread::Spread(p) => {
                if i + 1 != properties.len() {
                    return None;
                }
                let name = operand_name(cx, p, declares);
                return Some(Target::Object { properties: bindings, rest: Some(name) });
            },
        }
        i = i + 1;
    }
    Some(Target::Object { properties: bindings, rest: None })
}

fn build_pattern(cx: &mut CodegenContext, pattern: &Pattern, declares: bool) -> (r: Option<Target>)
    ensures
        (final(cx)@, option_target(r)) == pattern_code(old(cx)@, *pattern, declares),
{
    match pattern {
        Pattern::Array(a) => build_array(cx, &a.items, declares),
        Pattern::Object(o) => build_object(cx, &o.properties, declares),
    }
}

/// The pattern of a declaration.
pub fn build_binding_pattern_from_pattern(cx: &mut CodegenContext, pattern: &Pattern) -> (r: Option<
    Target,
>)
    ensures
        (final(cx)@, option_target(r)) == pattern_code(old(cx)@, *pattern, true),
{
    build_pattern(cx, pattern, true)
}

/// The pattern of an assignment.
pub fn build_assignment_target_from_pattern(cx: &mut CodegenContext, pattern: &Pattern) -> (r: Option<
    Target,
>)
    ensures
        (final(cx)@, option_target(r)) == pattern_code(old(cx)@, *pattern, false),
{
    build_pattern(cx, pattern, false)
}

/// Whether the names of all places from `i` on are declared; those that are looked at are written.
pub open spec fn all_declared(cx: Cx, ops: Seq<Place>, i: int) -> (Cx, bool)
    decreases ops.len() - i,
{
    if i < 0 || i >= ops.len() {
        (cx, true)
    } else {
        let cx1 = after_writing(cx, ops[i].identifier);
        if cx1.declared_names.contains(written_name(ops[i].identifier)) {
            all_declared(cx1, ops, i + 1)
        } else {
            (cx1, false)
        }
    }
}

pub fn all_pattern_vars_declared(cx: &mut CodegenContext, pattern: &Pattern) -> (r: bool)
    ensures
        (final(cx)@, r) == all_declared(old(cx)@, pattern_operands(*pattern), 0),
{
    let places = each_pattern_operand(pattern);
    let ghost ops = pattern_operands(*pattern);
    let ghost goal = all_declared(cx@, ops, 0);
    let mut i: usize = 0;
    proof {
        assert(pointees(places@).len() == places@.len());
    }
    while i < places.len()
        invariant
            i <= places@.len(),
            ops == pattern_operands(*pattern),
            pointees(places@) == ops,
            places@.len() == ops.len(),
            goal == all_declared(old(cx)@, ops, 0),
            goal == all_declared(cx@, ops, i as int),
        decreases places@.len() - i,
    {
        assert(*places@[i as int] == ops[i as int]);
        let name = cx.identifier_name(&places[i].identifier);
        if !cx.is_name_declared(name.as_str()) {
            return false;
        }
        i = i + 1;
    }
    true
}

/// A destructuring: a declaration, or an assignment where all its variables are declared already.
#[verifier::opaque]
pub open spec fn destructure_code(cx: Cx, lvalue: LValuePattern, value: Place) -> (Cx, Option<St>) {
    let e = place_expr(cx, value);
    let cx1 = after_place(cx, value);
    match declared_kind(lvalue.kind) {
        Some(kind) => {
            let known = all_declared(cx1, pattern_operands(lvalue.pattern), 0);
            if known.1 {
                assign_pattern_code(known.0, lvalue.pattern, e)
            } else {
                let target = pattern_code(known.0, lvalue.pattern, true);
                (
                    target.0,
                    match target.1 {
                        Some(t) => Some(St::Variable(one_declaration(kind, t, Some(e)))),
                        None => None,
                    },
                )
            }
        },
        None => assign_pattern_code(cx1, lvalue.pattern, e),
    }
}

pub open spec fn assign_pattern_code(cx: Cx, pattern: Pattern, e: Ex) -> (Cx, Option<St>) {
    let target = pattern_code(cx, pattern, false);
    (
        target.0,
        match target.1 {
            Some(t) => Some(St::Expression(Ex::Assign(t, Box::new(e)))),
            None => None,
        },
    )
}

pub fn codegen_destructure(cx: &mut CodegenContext, lvalue: &LValuePattern, value: &Place) -> (r: Option<
    Stmt,
>)
    ensures
        (final(cx)@, option_stmt(r)) == destructure_code(old(cx)@, *lvalue, *value),
{
    proof {
        reveal(destructure_code);
    }
    let e = cx.codegen_place(value);
    let mut kind = variable_declaration_kind(lvalue.kind);
    if kind.is_some() && all_pattern_vars_declared(cx, &lvalue.pattern) {
        kind = None;
    }
    match kind {
        Some(k) => match build_binding_pattern_from_pattern(cx, &lvalue.pattern) {
            Some(t) => Some(Stmt::Variable(declaration(k, t, Some(e)))),
            None => None,
        },
        None => match build_assignment_target_from_pattern(cx, &lvalue.pattern) {
            Some(t) => Some(expression(assign_to(t, e))),
            None => None,
        },
    }
}

// ---------------------------------------------------------------------------
// Lists of places
// ---------------------------------------------------------------------------

/// The arguments of a call: the first `n`.
pub open spec fn args_code(cx: Cx, args: Seq<Argument>, n: int) -> (Cx, Seq<ItemModel>)
    decreases n,
{
    if n <= 0 {
        (cx, Seq::empty())
    } else {
        let front = args_code(cx, args, n - 1);
        let p = args[n - 1].place_of();
        let e = place_expr(front.0, p);
        (
            after_place(front.0, p),
            front.1.push(
                match args[n - 1] {
                    Argument::Place(_) => ItemModel::Value(e),
                    Argument::Spread(_) => ItemModel::Spread(e),
                },
            ),
        )
    }
}

pub fn codegen_arguments(cx: &mut CodegenContext, args: &Vec<Argument>) -> (r: Vec<Item>)
    ensures
        (final(cx)@, item_models(r@)) == args_code(old(cx)@, args@, args@.len() as int),
{
    let mut r: Vec<Item> = Vec::new();
    let mut i: usize = 0;
    while i < args.len()
        invariant
            i <= args@.len(),
            (cx@, item_models(r@)) == args_code(old(cx)@, args@, i as int),
        decreases args@.len() - i,
    {
        let e = cx.codegen_place(args[i].place());
        let item = match &args[i] {
            Argument::Place(_) => Item::Value(e),
            Argument::Spread(_) => Item::Spread(e),
        };
        proof {
            lemma_item_push(r@, item);
        }
        r.push(item);
        i = i + 1;
    }
    r
}

/// The elements of an array: the first `n`.
pub open spec fn elements_code(cx: Cx, elements: Seq<ArrayElement>, n: int) -> (Cx, Seq<ItemModel>)
    decreases n,
{
    if n <= 0 {
        (cx, Seq::empty())
    } else {
        let front = elements_code(cx, elements, n - 1);
        match elements[n - 1] {
            ArrayElement::Place(p) => (
                after_place(front.0, p),
                front.1.push(ItemModel::Value(place_expr(front.0, p))),
            ),
            ArrayElement::Spread(p) => (
                after_place(front.0, p),
                front.1.push(ItemModel::Spread(place_expr(front.0, p))),
            ),
            ArrayElement::Hole => (front.0, front.1.push(ItemModel::Hole)),
        }
    }
}

pub fn codegen_array_elements(cx: &mut CodegenContext, elements: &Vec<ArrayElement>) -> (r: Vec<Item>)
    ensures
        (final(cx)@, item_models(r@)) == elements_code(old(cx)@, elements@, elements@.len() as int),
{
    let mut r: Vec<Item> = Vec::new();
    let mut i: usize = 0;
    while i < elements.len()
        invariant
            i <= elements@.len(),
            (cx@, item_models(r@)) == elements_code(old(cx)@, elements@, i as int),
        decreases elements@.len() - i,
    {
        let item = match &elements[i] {
            ArrayElement::Place(p) => Item::Value(cx.codegen_place(p)),
            ArrayElement::Spread(p) => Item::Spread(cx.codegen_place(p)),
            ArrayElement::Hole => Item::Hole,
        };
        proof {
            lemma_item_push(r@, item);
        }
        r.push(item);
        i = i + 1;
    }
    r
}

/// Whether a property can be written without its value: its plain name is that of its value.
pub open spec fn is_shorthand(key: ObjectPropertyKey, value: Ex) -> bool {
    key matches ObjectPropertyKey::Identifier(s) && value == Ex::Identifier(s@)
}

/// The members of an object: the first `n`.
pub open spec fn members_code(cx: Cx, properties: Seq<ObjectPropertyOrSpread>, n: int) -> (Cx, Seq<
    MemberModel,
>)
    decreases n,
{
    if n <= 0 {
        (cx, Seq::empty())
    } else {
        let front = members_code(cx, properties, n - 1);
        match properties[n - 1] {
            ObjectPropertyOrSpread::Spread(p) => (
                after_place(front.0, p),
                front.1.push(MemberModel::Spread(place_expr(front.0, p))),
            ),
            ObjectPropertyOrSpread::Property(p) => {
                let value = place_expr(front.0, p.place);
                let key = key_code(after_place(front.0, p.place), p.key);
                (
                    key.0,
                    front.1.push(
                        MemberModel::Property {
                            key: key.1,
                            value,
                            method: p.type_ == ObjectPropertyType::Method,
                            shorthand: is_shorthand(p.key, value),
                        },
                    ),
                )
            },
        }
    }
}

fn codegen_object_property_key(cx: &mut CodegenContext, key: &ObjectPropertyKey, value: &Expr) -> (r: (
    Key,
    bool,
))
    ensures
        (final(cx)@, key_model(r.0)) == key_code(old(cx)@, *key),
        r.1 == is_shorthand(*key, expr_model(*value)),
{
    proof {
        unfold_expr(value);
    }
    let shorthand = match key {
        ObjectPropertyKey::Identifier(s) => match value {
            Expr::Identifier(t) => same(t.as_str(), s.as_str()),
            _ => false,
        },
        _ => false,
    };
    (build_property_key_for_pattern(cx, key), shorthand)
}

pub fn codegen_object_properties(
    cx: &mut CodegenContext,
    properties: &Vec<ObjectPropertyOrSpread>,
) -> (r: Vec<Member>)
    ensures
        (final(cx)@, member_models(r@)) == members_code(
            old(cx)@,
            properties@,
            properties@.len() as int,
        ),
{
    let mut r: Vec<Member> = Vec::new();
    let mut i: usize = 0;
    while i < properties.len()
        invariant
            i <= properties@.len(),
            (cx@, member_models(r@)) == members_code(old(cx)@, properties@, i as int),
        decreases properties@.len() - i,
    {
        let member = match &properties[i] {
            ObjectPropertyOrSpread::Spread(p) => Member::Spread(cx.codegen_place(p)),
            ObjectPropertyOrSpread::Property(p) => {
                let value = cx.codegen_place(&p.place);
                let (key, shorthand) = codegen_object_property_key(cx, &p.key, &value);
                Member::Property {
                    key,
                    value,
                    method: p.type_ == ObjectPropertyType::Method,
                    shorthand,
                }
            },
        };
        proof {
            lemma_member_push(r@, member);
        }
        r.push(member);
        i = i + 1;
    }
    r
}

/// The function that a method call calls: a member that is loaded already, else the member of the
/// receiver, by name where its name is one.
pub open spec fn callee_code(cx: Cx, receiver: Place, property: Place, optional: bool) -> (Cx, Ex) {
    let prop = place_expr(cx, property);
    let cx1 = after_place(cx, property);
    match prop {
        Ex::StaticMember { .. } => (cx1, prop),
        Ex::ComputedMember { .. } => (cx1, prop),
        _ => {
            let object = Box::new(place_expr(cx1, receiver));
            (
                after_place(cx1, receiver),
                if prop matches Ex::Text(s) && identifier_text(s) {
                    Ex::StaticMember { object, property: prop->Text_0, optional }
                } else {
                    Ex::ComputedMember { object, property: Box::new(prop), optional }
                },
            )
        },
    }
}

pub fn codegen_method_call_callee(
    cx: &mut CodegenContext,
    receiver: &Place,
    property: &Place,
    receiver_optional: bool,
) -> (r: Rc<Expr>)
    ensures
        (final(cx)@, expr_model(*r)) == callee_code(
            old(cx)@,
            *receiver,
            *property,
            receiver_optional,
        ),
{
    let prop = cx.codegen_place(property);
    proof {
        unfold_expr(&*prop);
    }
    let member = match &*prop {
        Expr::StaticMember { .. } => true,
        Expr::ComputedMember { .. } => true,
        _ => false,
    };
    if member {
        return prop;
    }
    let object = cx.codegen_place(receiver);
    if let Expr::Text(s) = &*prop {
        if is_identifier_name(s.as_str()) {
            return static_member(object, s.as_str(), receiver_optional);
        }
    }
    computed_member(object, prop, receiver_optional)
}

} // verus!

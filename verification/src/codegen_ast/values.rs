//! Expressions for the values of instructions that hold no other instructions.

use std::rc::Rc;
use vstd::prelude::*;

use crate::codegen_ast::js::{
    expr_model, expr_models, function_model, jsx_attr_models, jsx_child_models, jsx_name_model,
    lemma_expr_models, lemma_expr_push, lemma_jsx_attr_push, lemma_jsx_child_push,
    lemma_member_push, member_models, option_expr, option_text, quasi_model, quasi_models,
    stmt_model, stmt_models, target_model, unfold_expr, Ex, Expr, Function, FunctionModel,
    ItemModel, JsxAttr, JsxAttrModel, JsxChild, JsxChildModel, JsxName, JsxNameModel, Key, KeyModel,
    Member, MemberModel, Quasi, QuasiModel, RegExpFlags, St, Stmt, Target, TargetModel, Text,
};
use crate::codegen_ast::make::{
    add_stmt, assign, assign_expr, assign_to, binary, call, call_expr, computed_member, expression,
    ident, logical, number, one_item, one_stmt, static_member, text,
};
use crate::codegen_ast::outside::{identifier_text, is_identifier_name, parse_ts_type, parsed_type};
use crate::codegen_ast::scan::{hook_name, is_hook_name_str};
use crate::codegen_ast::state::{after_place, place_expr, CodegenContext, Cx};
use crate::codegen_ast::stores::{
    args_code, callee_code, codegen_arguments, codegen_array_elements, codegen_method_call_callee,
    codegen_object_properties, elements_code, members_code, option_target,
};
use crate::hir::{
    InstructionValue, JsxAttribute, JsxTag, Place, PrimitiveValue, PropertyLiteral, TemplateQuasi,
    TypeAnnotationKind, UpdateOperator,
};
use crate::text::{chars_of, decimal, owned, texts};

verus! {

broadcast use crate::codegen_ast::js::group_js;

/// The function whose call stands for a Flow cast.
pub const FLOW_CAST_MARKER_HELPER: &'static str = "__REACT_COMPILER_FLOW_CAST__";

/// The function that allows and forbids calls of hooks.
pub const HOOK_GUARD_IDENT: &'static str = "$dispatcherGuard";

pub const HOOK_GUARD_ALLOW: u32 = 2;

pub const HOOK_GUARD_DISALLOW: u32 = 3;

// ---------------------------------------------------------------------------
// Literals and members
// ---------------------------------------------------------------------------

pub open spec fn primitive_expr(value: PrimitiveValue) -> Ex {
    match value {
        PrimitiveValue::Null => Ex::Null,
        PrimitiveValue::Undefined => Ex::Identifier("undefined"@),
        PrimitiveValue::Boolean(b) => Ex::Boolean(b),
        PrimitiveValue::Number(n) => Ex::Number(n.display@),
        PrimitiveValue::String(s) => Ex::Text(s@),
    }
}

pub fn lower_primitive(value: &PrimitiveValue) -> (r: Rc<Expr>)
    ensures
        expr_model(*r) == primitive_expr(*value),
{
    match value {
        PrimitiveValue::Null => Rc::new(Expr::Null),
        PrimitiveValue::Undefined => ident("undefined"),
        PrimitiveValue::Boolean(b) => Rc::new(Expr::Boolean(*b)),
        PrimitiveValue::Number(n) => Rc::new(Expr::Number(owned(n.display.as_str()))),
        PrimitiveValue::String(s) => text(s.as_str()),
    }
}

/// A property of an object, by name where its name is one.
pub open spec fn member_expr(object: Ex, property: PropertyLiteral, optional: bool) -> Ex {
    match property {
        PropertyLiteral::String(s) => {
            if identifier_text(s@) {
                Ex::StaticMember { object: Box::new(object), property: s@, optional }
            } else {
                Ex::ComputedMember {
                    object: Box::new(object),
                    property: Box::new(Ex::Text(s@)),
                    optional,
                }
            }
        },
        PropertyLiteral::Number(n) => Ex::ComputedMember {
            object: Box::new(object),
            property: Box::new(Ex::Number(n.display@)),
            optional,
        },
    }
}

pub fn lower_property_load(object: Rc<Expr>, property: &PropertyLiteral, optional: bool) -> (r: Rc<Expr>)
    ensures
        expr_model(*r) == member_expr(expr_model(*object), *property, optional),
{
    match property {
        PropertyLiteral::String(s) => {
            if is_identifier_name(s.as_str()) {
                static_member(object, s.as_str(), optional)
            } else {
                computed_member(object, text(s.as_str()), optional)
            }
        },
        PropertyLiteral::Number(n) => {
            let key = Rc::new(Expr::Number(owned(n.display.as_str())));
            assert(expr_model(*key) == Ex::Number(n.display@));
            computed_member(object, key, optional)
        },
    }
}

/// What an expression that can be assigned to binds.
pub open spec fn simple_target(e: Ex) -> Option<TargetModel> {
    match e {
        Ex::Identifier(s) => Some(TargetModel::Identifier(s)),
        Ex::StaticMember { .. } => Some(TargetModel::Member(Box::new(e))),
        Ex::ComputedMember { .. } => Some(TargetModel::Member(Box::new(e))),
        _ => None,
    }
}

pub fn expression_to_simple_assignment_target(e: Rc<Expr>) -> (r: Option<Target>)
    ensures
        option_target(r) == simple_target(expr_model(*e)),
{
    proof {
        unfold_expr(&*e);
    }
    match &*e {
        Expr::Identifier(s) => Some(Target::Identifier(owned(s.as_str()))),
        Expr::StaticMember { .. } => Some(Target::Member(e.clone())),
        Expr::ComputedMember { .. } => Some(Target::Member(e.clone())),
        _ => None,
    }
}

/// The flags that stand in a text.
pub open spec fn flags_in(s: Text) -> RegExpFlags {
    RegExpFlags {
        g: s.contains('g'),
        i: s.contains('i'),
        m: s.contains('m'),
        s: s.contains('s'),
        u: s.contains('u'),
        y: s.contains('y'),
        d: s.contains('d'),
        v: s.contains('v'),
    }
}

proof fn lemma_contains_push(s: Text, c: char, x: char)
    ensures
        s.push(c).contains(x) == (s.contains(x) || c == x),
{
    if s.contains(x) {
        let i = choose|i: int| 0 <= i < s.len() && s[i] == x;
        assert(s.push(c)[i] == x);
    }
    if c == x {
        assert(s.push(c)[s.len() as int] == x);
    }
    if s.push(c).contains(x) && c != x {
        let i = choose|i: int| 0 <= i < s.push(c).len() && s.push(c)[i] == x;
        assert(s[i] == x);
    }
}

proof fn lemma_flags_push(s: Text, c: char)
    ensures
        flags_in(s.push(c)) == (RegExpFlags {
            g: flags_in(s).g || c == 'g',
            i: flags_in(s).i || c == 'i',
            m: flags_in(s).m || c == 'm',
            s: flags_in(s).s || c == 's',
            u: flags_in(s).u || c == 'u',
            y: flags_in(s).y || c == 'y',
            d: flags_in(s).d || c == 'd',
            v: flags_in(s).v || c == 'v',
        }),
{
    lemma_contains_push(s, c, 'g');
    lemma_contains_push(s, c, 'i');
    lemma_contains_push(s, c, 'm');
    lemma_contains_push(s, c, 's');
    lemma_contains_push(s, c, 'u');
    lemma_contains_push(s, c, 'y');
    lemma_contains_push(s, c, 'd');
    lemma_contains_push(s, c, 'v');
}

/// The flags of a regular expression. What is no flag is left out.
pub fn parse_regexp_flags(flags: &str) -> (r: RegExpFlags)
    ensures
        r == flags_in(flags@),
{
    let cs = chars_of(flags);
    let mut r = RegExpFlags {
        g: false,
        i: false,
        m: false,
        s: false,
        u: false,
        y: false,
        d: false,
        v: false,
    };
    let mut k: usize = 0;
    proof {
        assert(cs@.take(0) =~= Seq::<char>::empty());
        assert(r == flags_in(cs@.take(0)));
    }
    while k < cs.len()
        invariant
            k <= cs@.len(),
            r == flags_in(cs@.take(k as int)),
        decreases cs@.len() - k,
    {
        let c = cs[k];
        proof {
            assert(cs@.take(k as int + 1) =~= cs@.take(k as int).push(c));
            lemma_flags_push(cs@.take(k as int), c);
        }
        r = RegExpFlags {
            g: r.g || c == 'g',
            i: r.i || c == 'i',
            m: r.m || c == 'm',
            s: r.s || c == 's',
            u: r.u || c == 'u',
            y: r.y || c == 'y',
            d: r.d || c == 'd',
            v: r.v || c == 'v',
        };
        k = k + 1;
    }
    proof {
        assert(cs@.take(cs@.len() as int) =~= cs@);
    }
    r
}

// ---------------------------------------------------------------------------
// Purity
// ---------------------------------------------------------------------------

/// Whether an expression does nothing but give a value: names, literals, and operators on such.
pub open spec fn pure(e: Ex) -> bool
    decreases e,
{
    match e {
        Ex::Identifier(_) => true,
        Ex::Null => true,
        Ex::Boolean(_) => true,
        Ex::Number(_) => true,
        Ex::Text(_) => true,
        Ex::RegExp { .. } => true,
        Ex::Template { exprs, .. } => exprs.len() == 0,
        Ex::Logical(_, l, r) => pure(*l) && pure(*r),
        Ex::Binary(_, l, r) => pure(*l) && pure(*r),
        Ex::Unary(_, a) => pure(*a),
        _ => false,
    }
}

pub fn is_pure_expression(e: &Expr) -> (r: bool)
    ensures
        r == pure(expr_model(*e)),
    decreases e,
{
    proof {
        unfold_expr(e);
    }
    match e {
        Expr::Identifier(_) => true,
        Expr::Null => true,
        Expr::Boolean(_) => true,
        Expr::Number(_) => true,
        Expr::Text(_) => true,
        Expr::RegExp { .. } => true,
        Expr::Template { exprs, .. } => {
            proof {
                lemma_expr_models(exprs@);
            }
            exprs.len() == 0
        },
        Expr::Logical(_, l, r) => is_pure_expression(l) && is_pure_expression(r),
        Expr::Binary(_, l, r) => is_pure_expression(l) && is_pure_expression(r),
        Expr::Unary(_, a) => is_pure_expression(a),
        _ => false,
    }
}

// ---------------------------------------------------------------------------
// Hook guards
// ---------------------------------------------------------------------------

/// Whether an expression is the name of a hook.
pub open spec fn names_hook(e: Ex) -> bool {
    e matches Ex::Identifier(s) && hook_name(s)
}

pub fn expr_is_hook_name(e: &Expr) -> (r: bool)
    ensures
        r == names_hook(expr_model(*e)),
{
    proof {
        unfold_expr(e);
    }
    match e {
        Expr::Identifier(s) => is_hook_name_str(s.as_str()),
        _ => false,
    }
}

/// Whether an expression is a property with the name of a hook.
pub open spec fn member_names_hook(e: Ex) -> bool {
    e matches Ex::StaticMember { property, .. } && hook_name(property)
}

pub fn method_property_is_hook_name(e: &Expr) -> (r: bool)
    ensures
        r == member_names_hook(expr_model(*e)),
{
    proof {
        unfold_expr(e);
    }
    match e {
        Expr::StaticMember { property, .. } => is_hook_name_str(property.as_str()),
        _ => false,
    }
}

/// The statement that tells the guard what is allowed from now on.
pub open spec fn guard_stmt(n: nat) -> St {
    St::Expression(
        call_expr(
            Ex::Identifier(HOOK_GUARD_IDENT@),
            seq![ItemModel::Value(Ex::Number(decimal(n)))],
            false,
        ),
    )
}

/// A function with nothing but a body.
pub open spec fn plain_function(body: Seq<St>) -> FunctionModel {
    FunctionModel {
        params: Seq::empty(),
        rest: None,
        directives: Seq::empty(),
        body,
        async_: false,
        generator: false,
    }
}

/// A call of a hook between the guard's permission and its end.
pub open spec fn guarded(e: Ex) -> Ex {
    call_expr(
        Ex::Function {
            id: None,
            function: plain_function(
                seq![
                    St::Try {
                        block: seq![guard_stmt(HOOK_GUARD_ALLOW as nat), St::Return(Some(e))],
                        handler: None,
                        finalizer: Some(seq![guard_stmt(HOOK_GUARD_DISALLOW as nat)]),
                    },
                ],
            ),
        },
        Seq::empty(),
        false,
    )
}

fn guard(n: u32) -> (r: Stmt)
    ensures
        stmt_model(r) == guard_stmt(n as nat),
{
    expression(call(ident(HOOK_GUARD_IDENT), one_item(number(n)), false))
}

/// Wraps a call of a hook: `(function () { try { guard; return call; } finally { guard; } })()`.
pub fn wrap_hook_guard_iife(cx: &mut CodegenContext, e: Rc<Expr>) -> (r: Rc<Expr>)
    ensures
        expr_model(*r) == guarded(expr_model(*e)),
        final(cx)@ == (Cx { guards: true, ..old(cx)@ }),
{
    cx.note_guard();
    let ghost inner = e@;
    let mut block = one_stmt(guard(HOOK_GUARD_ALLOW));
    let returned = Stmt::Return(Some(e));
    proof {
        assert(option_expr(Some(e)) == Some(inner));
        assert(stmt_model(returned) == St::Return(Some(inner)));
    }
    add_stmt(&mut block, returned);
    let finalizer = one_stmt(guard(HOOK_GUARD_DISALLOW));
    proof {
        assert(stmt_models(block@) =~= seq![
            guard_stmt(HOOK_GUARD_ALLOW as nat),
            St::Return(Some(inner)),
        ]);
    }
    let finalizer = Some(finalizer);
    assert(crate::codegen_ast::js::option_stmts(finalizer) == Some(
        seq![guard_stmt(HOOK_GUARD_DISALLOW as nat)],
    ));
    let handler = None;
    assert(crate::codegen_ast::js::option_catch(handler) is None);
    let body = one_stmt(Stmt::Try { block, handler, finalizer });
    let function = Function {
        params: Vec::new(),
        rest: None,
        directives: Vec::new(),
        body,
        async_: false,
        generator: false,
    };
    proof {
        assert(texts(Seq::<String>::empty()) =~= Seq::<Text>::empty());
        assert(function_model(function) =~= plain_function(stmt_models(body@)));
    }
    let callee = Rc::new(Expr::Function { id: None, function: Box::new(function) });
    assert(expr_model(*callee) == (Ex::Function {
        id: None,
        function: plain_function(stmt_models(body@)),
    }));
    call(callee, Vec::new(), false)
}

// ---------------------------------------------------------------------------
// Templates and elements
// ---------------------------------------------------------------------------

pub open spec fn template_quasi(q: TemplateQuasi) -> QuasiModel {
    QuasiModel { raw: q.raw@, cooked: option_text(q.cooked) }
}

pub open spec fn template_quasis(v: Seq<TemplateQuasi>) -> Seq<QuasiModel> {
    v.map_values(|q: TemplateQuasi| template_quasi(q))
}

fn owned_option(s: &Option<String>) -> (r: Option<String>)
    ensures
        option_text(r) == option_text(*s),
{
    match s {
        Some(t) => Some(owned(t.as_str())),
        None => None,
    }
}

fn quasis_of(v: &Vec<TemplateQuasi>) -> (r: Vec<Quasi>)
    ensures
        quasi_models(r@) == template_quasis(v@),
{
    let mut r: Vec<Quasi> = Vec::new();
    let mut i: usize = 0;
    while i < v.len()
        invariant
            i <= v@.len(),
            r@.len() == i,
            forall|k: int| 0 <= k < i ==> quasi_model(#[trigger] r@[k]) == template_quasi(v@[k]),
        decreases v@.len() - i,
    {
        r.push(Quasi { raw: owned(v[i].raw.as_str()), cooked: owned_option(&v[i].cooked) });
        i = i + 1;
    }
    proof {
        assert(quasi_models(r@) =~= template_quasis(v@));
    }
    r
}

/// The expressions for the first `n` places.
pub open spec fn places_code(cx: Cx, places: Seq<Place>, n: int) -> (Cx, Seq<Ex>)
    decreases n,
{
    if n <= 0 {
        (cx, Seq::empty())
    } else {
        let front = places_code(cx, places, n - 1);
        (
            after_place(front.0, places[n - 1]),
            front.1.push(place_expr(front.0, places[n - 1])),
        )
    }
}

fn codegen_places(cx: &mut CodegenContext, places: &Vec<Place>) -> (r: Vec<Rc<Expr>>)
    ensures
        (final(cx)@, expr_models(r@)) == places_code(old(cx)@, places@, places@.len() as int),
{
    let mut r: Vec<Rc<Expr>> = Vec::new();
    let mut i: usize = 0;
    while i < places.len()
        invariant
            i <= places@.len(),
            (cx@, expr_models(r@)) == places_code(old(cx)@, places@, i as int),
        decreases places@.len() - i,
    {
        let e = cx.codegen_place(&places[i]);
        proof {
            lemma_expr_push(r@, e);
        }
        r.push(e);
        i = i + 1;
    }
    r
}

/// The first `n` attributes of an element.
pub open spec fn attributes_code(cx: Cx, props: Seq<JsxAttribute>, n: int) -> (Cx, Seq<JsxAttrModel>)
    decreases n,
{
    if n <= 0 {
        (cx, Seq::empty())
    } else {
        let front = attributes_code(cx, props, n - 1);
        match props[n - 1] {
            JsxAttribute::Attribute { name, place } => (
                after_place(front.0, place),
                front.1.push(
                    JsxAttrModel::Attribute {
                        name: name@,
                        value: place_expr(front.0, place),
                        fbt: cx.settings.fbt.contains(place.identifier.id.0),
                    },
                ),
            ),
            JsxAttribute::SpreadAttribute { argument } => (
                after_place(front.0, argument),
                front.1.push(JsxAttrModel::Spread(place_expr(front.0, argument))),
            ),
        }
    }
}

fn codegen_attributes(cx: &mut CodegenContext, props: &Vec<JsxAttribute>) -> (r: Vec<JsxAttr>)
    ensures
        (final(cx)@, jsx_attr_models(r@)) == attributes_code(
            old(cx)@,
            props@,
            props@.len() as int,
        ),
{
    let mut r: Vec<JsxAttr> = Vec::new();
    let mut i: usize = 0;
    while i < props.len()
        invariant
            i <= props@.len(),
            cx@.settings == old(cx)@.settings,
            (cx@, jsx_attr_models(r@)) == attributes_code(old(cx)@, props@, i as int),
        decreases props@.len() - i,
    {
        let attr = match &props[i] {
            JsxAttribute::Attribute { name, place } => {
                let value = cx.codegen_place(place);
                let fbt = cx.is_fbt_operand(place.identifier.id);
                JsxAttr::Attribute { name: owned(name.as_str()), value, fbt }
            },
            JsxAttribute::SpreadAttribute { argument } => {
                JsxAttr::Spread(cx.codegen_place(argument))
            },
        };
        proof {
            lemma_jsx_attr_push(r@, attr);
        }
        r.push(attr);
        i = i + 1;
    }
    r
}

/// The first `n` children of an element.
pub open spec fn children_code(cx: Cx, children: Seq<Place>, n: int) -> (Cx, Seq<JsxChildModel>)
    decreases n,
{
    if n <= 0 {
        (cx, Seq::empty())
    } else {
        let front = children_code(cx, children, n - 1);
        let p = children[n - 1];
        (
            after_place(front.0, p),
            front.1.push(
                JsxChildModel {
                    value: place_expr(front.0, p),
                    text: cx.jsx_texts.contains(p.identifier.declaration_id.0),
                },
            ),
        )
    }
}

fn codegen_children(cx: &mut CodegenContext, children: &Vec<Place>) -> (r: Vec<JsxChild>)
    ensures
        (final(cx)@, jsx_child_models(r@)) == children_code(
            old(cx)@,
            children@,
            children@.len() as int,
        ),
{
    let mut r: Vec<JsxChild> = Vec::new();
    let mut i: usize = 0;
    while i < children.len()
        invariant
            i <= children@.len(),
            cx@.jsx_texts == old(cx)@.jsx_texts,
            (cx@, jsx_child_models(r@)) == children_code(old(cx)@, children@, i as int),
        decreases children@.len() - i,
    {
        let value = cx.codegen_place(&children[i]);
        let child = JsxChild {
            value,
            text: cx.is_jsx_text(children[i].identifier.declaration_id),
        };
        proof {
            lemma_jsx_child_push(r@, child);
        }
        r.push(child);
        i = i + 1;
    }
    r
}

/// The name of an element.
pub open spec fn tag_code(cx: Cx, tag: JsxTag) -> (Cx, JsxNameModel) {
    match tag {
        JsxTag::BuiltinTag(s) => (cx, JsxNameModel::Builtin(s@)),
        JsxTag::Component(p) => (
            after_place(cx, p),
            JsxNameModel::Component(Box::new(place_expr(cx, p))),
        ),
        JsxTag::Fragment => (cx, JsxNameModel::Fragment),
    }
}

pub open spec fn element_code(
    cx: Cx,
    tag: JsxTag,
    props: Seq<JsxAttribute>,
    children: Option<Vec<Place>>,
) -> (Cx, Ex) {
    let name = tag_code(cx, tag);
    let attributes = attributes_code(name.0, props, props.len() as int);
    match children {
        Some(c) => {
            let inner = children_code(attributes.0, c@, c@.len() as int);
            (
                inner.0,
                Ex::JsxElement {
                    name: name.1,
                    attributes: attributes.1,
                    children: Some(inner.1),
                },
            )
        },
        None => (
            attributes.0,
            Ex::JsxElement { name: name.1, attributes: attributes.1, children: None },
        ),
    }
}

fn codegen_element(
    cx: &mut CodegenContext,
    tag: &JsxTag,
    props: &Vec<JsxAttribute>,
    children: &Option<Vec<Place>>,
) -> (r: Rc<Expr>)
    ensures
        (final(cx)@, expr_model(*r)) == element_code(old(cx)@, *tag, props@, *children),
{
    let name = match tag {
        JsxTag::BuiltinTag(s) => JsxName::Builtin(owned(s.as_str())),
        JsxTag::Component(p) => JsxName::Component(cx.codegen_place(p)),
        JsxTag::Fragment => JsxName::Fragment,
    };
    assert((cx@, jsx_name_model(name)) == tag_code(old(cx)@, *tag));
    let attributes = codegen_attributes(cx, props);
    let children = match children {
        Some(c) => Some(codegen_children(cx, c)),
        None => None,
    };
    Rc::new(Expr::JsxElement { name, attributes, children })
}

// ---------------------------------------------------------------------------
// Functions with names
// ---------------------------------------------------------------------------

/// `{ "name": e }["name"]`.
pub open spec fn named_expr(e: Ex, name: Text) -> Ex {
    Ex::ComputedMember {
        object: Box::new(
            Ex::Object(
                seq![
                    MemberModel::Property {
                        key: KeyModel::Text(name),
                        value: e,
                        method: false,
                        shorthand: false,
                    },
                ],
            ),
        ),
        property: Box::new(Ex::Text(name)),
        optional: false,
    }
}

/// Gives a function without a name a hint at one.
pub fn wrap_named_anonymous_function_expression(e: Rc<Expr>, name_hint: &str) -> (r: Rc<Expr>)
    ensures
        expr_model(*r) == named_expr(expr_model(*e), name_hint@),
{
    let ghost inner = e@;
    let mut members: Vec<Member> = Vec::new();
    let key = Key::Text(owned(name_hint));
    assert(crate::codegen_ast::js::key_model(key) == KeyModel::Text(name_hint@));
    let member = Member::Property { key, value: e, method: false, shorthand: false };
    proof {
        lemma_member_push(members@, member);
    }
    members.push(member);
    proof {
        assert(member_models(members@) =~= seq![
            MemberModel::Property {
                key: KeyModel::Text(name_hint@),
                value: inner,
                method: false,
                shorthand: false,
            },
        ]);
    }
    let object = Rc::new(Expr::Object(members));
    assert(expr_model(*object) == Ex::Object(member_models(members@)));
    computed_member(object, text(name_hint), false)
}

// ---------------------------------------------------------------------------
// Values
// ---------------------------------------------------------------------------

pub open spec fn boxed(cx: Cx, p: Place) -> Box<Ex> {
    Box::new(place_expr(cx, p))
}

/// The expression for one place.
pub open spec fn one(cx: Cx, p: Place) -> (Cx, Option<Ex>) {
    (after_place(cx, p), Some(place_expr(cx, p)))
}

/// A call, with a guard around it where it is one of a hook.
pub open spec fn guarded_call(cx: Cx, call: Ex, is_hook: bool) -> (Cx, Option<Ex>) {
    if cx.settings.hook_guards && !cx.settings.no_features && is_hook {
        (Cx { guards: true, ..cx }, Some(guarded(call)))
    } else {
        (cx, Some(call))
    }
}

/// The expression for an update of a variable.
pub open spec fn update_code(cx: Cx, lvalue: Place, operator: UpdateOperator, prefix: bool) -> (Cx, Option<
    Ex,
>) {
    (
        after_place(cx, lvalue),
        match simple_target(place_expr(cx, lvalue)) {
            Some(target) => Some(Ex::Update { operator, prefix, target }),
            None => None,
        },
    )
}

/// The expression for a value that holds no other instructions, where it has one.
#[verifier::opaque]
pub open spec fn simple_value(cx: Cx, value: InstructionValue) -> (Cx, Option<Ex>) {
    match value {
        InstructionValue::LoadLocal { place } => one(cx, place),
        InstructionValue::LoadContext { place } => one(cx, place),
        InstructionValue::StoreLocal { value, .. } => one(cx, value),
        InstructionValue::StoreContext { value, .. } => one(cx, value),
        InstructionValue::GetIterator { collection } => one(cx, collection),
        InstructionValue::IteratorNext { collection, .. } => one(cx, collection),
        InstructionValue::NextPropertyOf { value } => one(cx, value),
        InstructionValue::LoadGlobal { binding } => (cx, Some(Ex::Identifier(binding.text()))),
        InstructionValue::Primitive { value } => (cx, Some(primitive_expr(value))),
        InstructionValue::JSXText { value } => (cx, Some(Ex::Text(value@))),
        InstructionValue::BinaryExpression { operator, left, right } => {
            let cx1 = after_place(cx, left);
            (
                after_place(cx1, right),
                Some(Ex::Binary(operator, boxed(cx, left), boxed(cx1, right))),
            )
        },
        InstructionValue::UnaryExpression { operator, value } => (
            after_place(cx, value),
            Some(Ex::Unary(operator, boxed(cx, value))),
        ),
        InstructionValue::LogicalExpression { operator, left, right } => {
            let cx1 = after_place(cx, left);
            (
                after_place(cx1, right),
                Some(Ex::Logical(operator, boxed(cx, left), boxed(cx1, right))),
            )
        },
        InstructionValue::Ternary { test, consequent, alternate } => {
            let cx1 = after_place(cx, test);
            let cx2 = after_place(cx1, consequent);
            (
                after_place(cx2, alternate),
                Some(
                    Ex::Conditional(
                        boxed(cx, test),
                        boxed(cx1, consequent),
                        boxed(cx2, alternate),
                    ),
                ),
            )
        },
        InstructionValue::CallExpression { callee, args, optional } => {
            let f = place_expr(cx, callee);
            let a = args_code(after_place(cx, callee), args@, args@.len() as int);
            guarded_call(a.0, call_expr(f, a.1, optional), names_hook(f))
        },
        InstructionValue::NewExpression { callee, args } => {
            let a = args_code(after_place(cx, callee), args@, args@.len() as int);
            (a.0, Some(Ex::New { callee: boxed(cx, callee), args: a.1 }))
        },
        InstructionValue::MethodCall { receiver, property, args, receiver_optional, call_optional } => {
            let f = callee_code(cx, receiver, property, receiver_optional);
            let a = args_code(f.0, args@, args@.len() as int);
            guarded_call(a.0, call_expr(f.1, a.1, call_optional), member_names_hook(f.1))
        },
        InstructionValue::TypeCastExpression { value, type_annotation, type_annotation_kind } => {
            let t = parsed_type(type_annotation@);
            (
                after_place(cx, value),
                Some(
                    match type_annotation_kind {
                        TypeAnnotationKind::As => Ex::As(boxed(cx, value), t),
                        TypeAnnotationKind::Satisfies => Ex::Satisfies(boxed(cx, value), t),
                        TypeAnnotationKind::Cast => Ex::Call {
                            callee: Box::new(Ex::Identifier(FLOW_CAST_MARKER_HELPER@)),
                            type_arg: Some(t),
                            args: seq![ItemModel::Value(place_expr(cx, value))],
                            optional: false,
                        },
                    },
                ),
            )
        },
        InstructionValue::ArrayExpression { elements } => {
            let a = elements_code(cx, elements@, elements@.len() as int);
            (a.0, Some(Ex::Array(a.1)))
        },
        InstructionValue::ObjectExpression { properties } => {
            let a = members_code(cx, properties@, properties@.len() as int);
            (a.0, Some(Ex::Object(a.1)))
        },
        InstructionValue::TemplateLiteral { subexprs, quasis } => {
            let a = places_code(cx, subexprs@, subexprs@.len() as int);
            (a.0, Some(Ex::Template { quasis: template_quasis(quasis@), exprs: a.1 }))
        },
        InstructionValue::TaggedTemplateExpression { tag, raw, cooked } => (
            after_place(cx, tag),
            Some(
                Ex::TaggedTemplate {
                    tag: boxed(cx, tag),
                    quasi: QuasiModel { raw: raw@, cooked: option_text(cooked) },
                },
            ),
        ),
        InstructionValue::JsxExpression { tag, props, children } => {
            let e = element_code(cx, tag, props@, children);
            (e.0, Some(e.1))
        },
        InstructionValue::JsxFragment { children } => {
            let c = children_code(cx, children@, children@.len() as int);
            (c.0, Some(Ex::JsxFragment(c.1)))
        },
        InstructionValue::PropertyLoad { object, property, optional } => (
            after_place(cx, object),
            Some(member_expr(place_expr(cx, object), property, optional)),
        ),
        InstructionValue::ComputedLoad { object, property, optional } => {
            let cx1 = after_place(cx, object);
            (
                after_place(cx1, property),
                Some(
                    Ex::ComputedMember {
                        object: boxed(cx, object),
                        property: boxed(cx1, property),
                        optional,
                    },
                ),
            )
        },
        InstructionValue::PropertyStore { object, property, value } => {
            let cx1 = after_place(cx, object);
            (
                after_place(cx1, value),
                Some(
                    Ex::Assign(
                        TargetModel::Member(
                            Box::new(member_expr(place_expr(cx, object), property, false)),
                        ),
                        boxed(cx1, value),
                    ),
                ),
            )
        },
        InstructionValue::ComputedStore { object, property, value } => {
            let cx1 = after_place(cx, object);
            let cx2 = after_place(cx1, property);
            (
                after_place(cx2, value),
                Some(
                    Ex::Assign(
                        TargetModel::Member(
                            Box::new(
                                Ex::ComputedMember {
                                    object: boxed(cx, object),
                                    property: boxed(cx1, property),
                                    optional: false,
                                },
                            ),
                        ),
                        boxed(cx2, value),
                    ),
                ),
            )
        },
        InstructionValue::PropertyDelete { object, property } => (
            after_place(cx, object),
            Some(
                Ex::Delete(Box::new(member_expr(place_expr(cx, object), property, false))),
            ),
        ),
        InstructionValue::ComputedDelete { object, property } => {
            let cx1 = after_place(cx, object);
            (
                after_place(cx1, property),
                Some(
                    Ex::Delete(
                        Box::new(
                            Ex::ComputedMember {
                                object: boxed(cx, object),
                                property: boxed(cx1, property),
                                optional: false,
                            },
                        ),
                    ),
                ),
            )
        },
        InstructionValue::StoreGlobal { name, value } => (
            after_place(cx, value),
            Some(assign_expr(name@, place_expr(cx, value))),
        ),
        InstructionValue::PrefixUpdate { lvalue, operation, .. } => update_code(
            cx,
            lvalue,
            operation,
            true,
        ),
        InstructionValue::PostfixUpdate { lvalue, operation, .. } => update_code(
            cx,
            lvalue,
            operation,
            false,
        ),
        InstructionValue::MetaProperty { meta, property } => (
            cx,
            Some(Ex::Meta(meta@, property@)),
        ),
        InstructionValue::RegExpLiteral { pattern, flags } => (
            cx,
            Some(Ex::RegExp { pattern: pattern@, flags: flags_in(flags@) }),
        ),
        InstructionValue::Await { value } => (
            after_place(cx, value),
            Some(Ex::Await(boxed(cx, value))),
        ),
        _ => (cx, None),
    }
}

fn finish_call(cx: &mut CodegenContext, e: Rc<Expr>, is_hook: bool) -> (r: Rc<Expr>)
    ensures
        (final(cx)@, Some(expr_model(*r))) == guarded_call(old(cx)@, expr_model(*e), is_hook),
{
    if cx.hook_guards() && is_hook {
        wrap_hook_guard_iife(cx, e)
    } else {
        e
    }
}

fn codegen_update(cx: &mut CodegenContext, lvalue: &Place, operator: UpdateOperator, prefix: bool) -> (r:
    Option<Rc<Expr>>)
    ensures
        (final(cx)@, option_expr(r)) == update_code(old(cx)@, *lvalue, operator, prefix),
{
    let e = cx.codegen_place(lvalue);
    match expression_to_simple_assignment_target(e) {
        Some(target) => Some(Rc::new(Expr::Update { operator, prefix, target })),
        None => None,
    }
}

fn member_target(e: Rc<Expr>) -> (r: Target)
    ensures
        target_model(r) == TargetModel::Member(Box::new(expr_model(*e))),
{
    Target::Member(e)
}

fn codegen_cast(
    cx: &mut CodegenContext,
    value: &Place,
    annotation: &str,
    kind: TypeAnnotationKind,
) -> (r: Rc<Expr>)
    ensures
        final(cx)@ == after_place(old(cx)@, *value),
        expr_model(*r) == match kind {
            TypeAnnotationKind::As => Ex::As(boxed(old(cx)@, *value), parsed_type(annotation@)),
            TypeAnnotationKind::Satisfies => Ex::Satisfies(
                boxed(old(cx)@, *value),
                parsed_type(annotation@),
            ),
            TypeAnnotationKind::Cast => Ex::Call {
                callee: Box::new(Ex::Identifier(FLOW_CAST_MARKER_HELPER@)),
                type_arg: Some(parsed_type(annotation@)),
                args: seq![ItemModel::Value(place_expr(old(cx)@, *value))],
                optional: false,
            },
        },
{
    let inner = cx.codegen_place(value);
    let t = parse_ts_type(annotation);
    match kind {
        TypeAnnotationKind::As => Rc::new(Expr::As(inner, t)),
        TypeAnnotationKind::Satisfies => Rc::new(Expr::Satisfies(inner, t)),
        TypeAnnotationKind::Cast => {
            let callee = ident(FLOW_CAST_MARKER_HELPER);
            let args = one_item(inner);
            Rc::new(Expr::Call { callee, type_arg: Some(t), args, optional: false })
        },
    }
}

/// The expression for a value that holds no other instructions, where it has one.
pub fn codegen_simple_value(cx: &mut CodegenContext, value: &InstructionValue) -> (r: Option<Rc<Expr>>)
    ensures
        (final(cx)@, option_expr(r)) == simple_value(old(cx)@, *value),
{
    proof {
        reveal(simple_value);
    }
    match value {
        InstructionValue::LoadLocal { place } => Some(cx.codegen_place(place)),
        InstructionValue::LoadContext { place } => Some(cx.codegen_place(place)),
        InstructionValue::StoreLocal { value: v, .. } => Some(cx.codegen_place(v)),
        InstructionValue::StoreContext { value: v, .. } => Some(cx.codegen_place(v)),
        InstructionValue::GetIterator { collection } => Some(cx.codegen_place(collection)),
        InstructionValue::IteratorNext { collection, .. } => Some(cx.codegen_place(collection)),
        InstructionValue::NextPropertyOf { value: v } => Some(cx.codegen_place(v)),
        InstructionValue::LoadGlobal { binding } => Some(ident(binding.name())),
        InstructionValue::Primitive { value: v } => Some(lower_primitive(v)),
        InstructionValue::JSXText { value: v } => Some(text(v.as_str())),
        InstructionValue::BinaryExpression { operator, left, right } => {
            let l = cx.codegen_place(left);
            let e = cx.codegen_place(right);
            Some(binary(*operator, l, e))
        },
        InstructionValue::UnaryExpression { operator, value: v } => {
            let e = cx.codegen_place(v);
            Some(Rc::new(Expr::Unary(*operator, e)))
        },
        InstructionValue::LogicalExpression { operator, left, right } => {
            let l = cx.codegen_place(left);
            let e = cx.codegen_place(right);
            Some(logical(*operator, l, e))
        },
        InstructionValue::Ternary { test, consequent, alternate } => {
            let t = cx.codegen_place(test);
            let c = cx.codegen_place(consequent);
            let a = cx.codegen_place(alternate);
            Some(Rc::new(Expr::Conditional(t, c, a)))
        },
        InstructionValue::CallExpression { callee, args, optional } => {
            let f = cx.codegen_place(callee);
            let is_hook = expr_is_hook_name(&f);
            let a = codegen_arguments(cx, args);
            Some(finish_call(cx, call(f, a, *optional), is_hook))
        },
        InstructionValue::NewExpression { callee, args } => {
            let callee = cx.codegen_place(callee);
            let args = codegen_arguments(cx, args);
            Some(Rc::new(Expr::New { callee, args }))
        },
        InstructionValue::MethodCall { receiver, property, args, receiver_optional, call_optional } => {
            let f = codegen_method_call_callee(cx, receiver, property, *receiver_optional);
            let is_hook = method_property_is_hook_name(&f);
            let a = codegen_arguments(cx, args);
            Some(finish_call(cx, call(f, a, *call_optional), is_hook))
        },
        InstructionValue::TypeCastExpression { value: v, type_annotation, type_annotation_kind } => {
            Some(codegen_cast(cx, v, type_annotation.as_str(), *type_annotation_kind))
        },
        InstructionValue::ArrayExpression { elements } => {
            let items = codegen_array_elements(cx, elements);
            Some(Rc::new(Expr::Array(items)))
        },
        InstructionValue::ObjectExpression { properties } => {
            let members = codegen_object_properties(cx, properties);
            Some(Rc::new(Expr::Object(members)))
        },
        InstructionValue::TemplateLiteral { subexprs, quasis } => {
            let exprs = codegen_places(cx, subexprs);
            Some(Rc::new(Expr::Template { quasis: quasis_of(quasis), exprs }))
        },
        InstructionValue::TaggedTemplateExpression { tag, raw, cooked } => {
            let tag = cx.codegen_place(tag);
            let quasi = Quasi { raw: owned(raw.as_str()), cooked: owned_option(cooked) };
            Some(Rc::new(Expr::TaggedTemplate { tag, quasi }))
        },
        InstructionValue::JsxExpression { tag, props, children } => {
            Some(codegen_element(cx, tag, props, children))
        },
        InstructionValue::JsxFragment { children } => {
            let c = codegen_children(cx, children);
            Some(Rc::new(Expr::JsxFragment(c)))
        },
        InstructionValue::PropertyLoad { object, property, optional } => {
            let o = cx.codegen_place(object);
            Some(lower_property_load(o, property, *optional))
        },
        InstructionValue::ComputedLoad { object, property, optional } => {
            let o = cx.codegen_place(object);
            let p = cx.codegen_place(property);
            Some(computed_member(o, p, *optional))
        },
        InstructionValue::PropertyStore { object, property, value: v } => {
            let o = cx.codegen_place(object);
            let target = member_target(lower_property_load(o, property, false));
            let e = cx.codegen_place(v);
            Some(assign_to(target, e))
        },
        InstructionValue::ComputedStore { object, property, value: v } => {
            let o = cx.codegen_place(object);
            let p = cx.codegen_place(property);
            let target = member_target(computed_member(o, p, false));
            let e = cx.codegen_place(v);
            Some(assign_to(target, e))
        },
        InstructionValue::PropertyDelete { object, property } => {
            let o = cx.codegen_place(object);
            let m = lower_property_load(o, property, false);
            Some(Rc::new(Expr::Delete(m)))
        },
        InstructionValue::ComputedDelete { object, property } => {
            let o = cx.codegen_place(object);
            let p = cx.codegen_place(property);
            let m = computed_member(o, p, false);
            Some(Rc::new(Expr::Delete(m)))
        },
        InstructionValue::StoreGlobal { name, value: v } => {
            let e = cx.codegen_place(v);
            Some(assign(name.as_str(), e))
        },
        InstructionValue::PrefixUpdate { lvalue, operation, .. } => {
            codegen_update(cx, lvalue, *operation, true)
        },
        InstructionValue::PostfixUpdate { lvalue, operation, .. } => {
            codegen_update(cx, lvalue, *operation, false)
        },
        InstructionValue::MetaProperty { meta, property } => Some(
            Rc::new(Expr::Meta(owned(meta.as_str()), owned(property.as_str()))),
        ),
        InstructionValue::RegExpLiteral { pattern, flags } => Some(
            Rc::new(
                Expr::RegExp {
                    pattern: owned(pattern.as_str()),
                    flags: parse_regexp_flags(flags.as_str()),
                },
            ),
        ),
        InstructionValue::Await { value: v } => {
            let e = cx.codegen_place(v);
            Some(Rc::new(Expr::Await(e)))
        },
        _ => None,
    }
}

} // verus!

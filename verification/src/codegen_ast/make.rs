//! Small pieces of syntax trees.

use std::rc::Rc;
use vstd::prelude::*;

use crate::codegen_ast::js::{
    declaration_model, declarator_models, expr_model, item_models, lemma_declarator_push,
    lemma_item_push, lemma_stmt_push, option_expr, stmt_model, stmt_models, target_model,
    Declaration, DeclarationModel, Declarator, DeclaratorModel, Ex, Expr, Item, ItemModel, St, Stmt,
    Target, TargetModel, Text, VariableKind,
};
use crate::hir::{BinaryOperator, LogicalOperator};
use crate::text::{chars_of, decimal, decimal_text, owned};

verus! {

broadcast use crate::codegen_ast::js::group_js;

pub fn ident(name: &str) -> (r: Rc<Expr>)
    ensures
        expr_model(*r) == Ex::Identifier(name@),
{
    Rc::new(Expr::Identifier(owned(name)))
}

pub fn text(s: &str) -> (r: Rc<Expr>)
    ensures
        expr_model(*r) == Ex::Text(s@),
{
    Rc::new(Expr::Text(owned(s)))
}

pub fn number(n: u32) -> (r: Rc<Expr>)
    ensures
        expr_model(*r) == Ex::Number(decimal(n as nat)),
{
    Rc::new(Expr::Number(decimal_text(n as u64)))
}

pub fn boolean(b: bool) -> (r: Rc<Expr>)
    ensures
        expr_model(*r) == Ex::Boolean(b),
{
    Rc::new(Expr::Boolean(b))
}

pub fn binary(op: BinaryOperator, l: Rc<Expr>, e: Rc<Expr>) -> (r: Rc<Expr>)
    ensures
        expr_model(*r) == Ex::Binary(op, Box::new(expr_model(*l)), Box::new(expr_model(*e))),
{
    Rc::new(Expr::Binary(op, l, e))
}

pub fn logical(op: LogicalOperator, l: Rc<Expr>, e: Rc<Expr>) -> (r: Rc<Expr>)
    ensures
        expr_model(*r) == Ex::Logical(op, Box::new(expr_model(*l)), Box::new(expr_model(*e))),
{
    Rc::new(Expr::Logical(op, l, e))
}

pub fn static_member(object: Rc<Expr>, property: &str, optional: bool) -> (r: Rc<Expr>)
    ensures
        expr_model(*r) == (Ex::StaticMember {
            object: Box::new(expr_model(*object)),
            property: property@,
            optional,
        }),
{
    Rc::new(Expr::StaticMember { object, property: owned(property), optional })
}

pub fn computed_member(object: Rc<Expr>, property: Rc<Expr>, optional: bool) -> (r: Rc<Expr>)
    ensures
        expr_model(*r) == (Ex::ComputedMember {
            object: Box::new(expr_model(*object)),
            property: Box::new(expr_model(*property)),
            optional,
        }),
{
    Rc::new(Expr::ComputedMember { object, property, optional })
}

/// A call with no type arguments.
pub open spec fn call_expr(callee: Ex, args: Seq<ItemModel>, optional: bool) -> Ex {
    Ex::Call { callee: Box::new(callee), type_arg: None, args, optional }
}

pub fn call(callee: Rc<Expr>, args: Vec<Item>, optional: bool) -> (r: Rc<Expr>)
    ensures
        expr_model(*r) == call_expr(expr_model(*callee), item_models(args@), optional),
{
    Rc::new(Expr::Call { callee, type_arg: None, args, optional })
}

pub fn add_item(items: &mut Vec<Item>, value: Rc<Expr>)
    ensures
        item_models(final(items)@) == item_models(old(items)@).push(
            ItemModel::Value(expr_model(*value)),
        ),
{
    let item = Item::Value(value);
    proof {
        lemma_item_push(items@, item);
    }
    items.push(item);
}

/// The items for a list of values.
pub open spec fn values(v: Seq<Ex>) -> Seq<ItemModel> {
    v.map_values(|e: Ex| ItemModel::Value(e))
}

pub fn one_item(value: Rc<Expr>) -> (r: Vec<Item>)
    ensures
        item_models(r@) == seq![ItemModel::Value(expr_model(*value))],
{
    let mut r: Vec<Item> = Vec::new();
    add_item(&mut r, value);
    proof {
        assert(item_models(r@) =~= seq![ItemModel::Value(value@)]);
    }
    r
}

/// `name = value`.
pub open spec fn assign_expr(name: Text, value: Ex) -> Ex {
    Ex::Assign(TargetModel::Identifier(name), Box::new(value))
}

pub fn assign(name: &str, value: Rc<Expr>) -> (r: Rc<Expr>)
    ensures
        expr_model(*r) == assign_expr(name@, expr_model(*value)),
{
    let target = Target::Identifier(owned(name));
    assert(target_model(target) == TargetModel::Identifier(name@));
    Rc::new(Expr::Assign(target, value))
}

pub fn assign_to(target: Target, value: Rc<Expr>) -> (r: Rc<Expr>)
    ensures
        expr_model(*r) == Ex::Assign(target_model(target), Box::new(expr_model(*value))),
{
    Rc::new(Expr::Assign(target, value))
}

pub fn parenthesized(value: Rc<Expr>) -> (r: Rc<Expr>)
    ensures
        expr_model(*r) == Ex::Parenthesized(Box::new(expr_model(*value))),
{
    Rc::new(Expr::Parenthesized(value))
}

/// `Symbol.for(name)`.
pub open spec fn symbol_expr(name: Text) -> Ex {
    call_expr(
        Ex::StaticMember {
            object: Box::new(Ex::Identifier("Symbol"@)),
            property: "for"@,
            optional: false,
        },
        seq![ItemModel::Value(Ex::Text(name))],
        false,
    )
}

pub fn symbol(name: &str) -> (r: Rc<Expr>)
    ensures
        expr_model(*r) == symbol_expr(name@),
{
    call(static_member(ident("Symbol"), "for", false), one_item(text(name)), false)
}

/// The declaration of one variable.
pub open spec fn var_stmt(kind: VariableKind, name: Text, init: Option<Ex>) -> St {
    St::Variable(
        DeclarationModel {
            kind,
            declarators: seq![DeclaratorModel { target: TargetModel::Identifier(name), init }],
        },
    )
}

pub open spec fn one_declaration(kind: VariableKind, target: TargetModel, init: Option<Ex>) -> DeclarationModel {
    DeclarationModel { kind, declarators: seq![DeclaratorModel { target, init }] }
}

pub fn declaration(kind: VariableKind, target: Target, init: Option<Rc<Expr>>) -> (r: Declaration)
    ensures
        declaration_model(r) == one_declaration(kind, target_model(target), option_expr(init)),
{
    let mut declarators: Vec<Declarator> = Vec::new();
    let d = Declarator { target, init };
    proof {
        lemma_declarator_push(declarators@, d);
    }
    declarators.push(d);
    let ghost model = one_declaration(kind, target_model(target), option_expr(init));
    assert(declarator_models(declarators@) =~= model.declarators);
    Declaration { kind, declarators }
}

pub fn declare_var(kind: VariableKind, name: &str, init: Option<Rc<Expr>>) -> (r: Stmt)
    ensures
        stmt_model(r) == var_stmt(kind, name@, option_expr(init)),
{
    let target = Target::Identifier(owned(name));
    assert(target_model(target) == TargetModel::Identifier(name@));
    Stmt::Variable(declaration(kind, target, init))
}

pub fn expression(e: Rc<Expr>) -> (r: Stmt)
    ensures
        stmt_model(r) == St::Expression(expr_model(*e)),
{
    Stmt::Expression(e)
}

pub fn add_stmt(stmts: &mut Vec<Stmt>, s: Stmt)
    ensures
        stmt_models(final(stmts)@) == stmt_models(old(stmts)@).push(stmt_model(s)),
{
    proof {
        lemma_stmt_push(stmts@, s);
    }
    stmts.push(s);
}

pub fn one_stmt(s: Stmt) -> (r: Vec<Stmt>)
    ensures
        stmt_models(r@) == seq![stmt_model(s)],
{
    let mut r: Vec<Stmt> = Vec::new();
    let ghost model = stmt_model(s);
    add_stmt(&mut r, s);
    proof {
        assert(stmt_models(r@) =~= seq![model]);
    }
    r
}

pub fn no_stmts() -> (r: Vec<Stmt>)
    ensures
        stmt_models(r@) == Seq::<St>::empty(),
{
    Vec::new()
}

pub fn add_stmts(stmts: &mut Vec<Stmt>, more: Vec<Stmt>)
    ensures
        stmt_models(final(stmts)@) == stmt_models(old(stmts)@) + stmt_models(more@),
{
    let mut more = more;
    proof {
        crate::codegen_ast::js::lemma_stmt_add(stmts@, more@);
    }
    stmts.append(&mut more);
}

// ---------------------------------------------------------------------------
// Attributes
// ---------------------------------------------------------------------------

/// A control character.
pub open spec fn control(c: char) -> bool {
    c <= '\u{1f}' || ('\u{7f}' <= c && c <= '\u{9f}')
}

/// Whether a text can stand in an attribute between double quotes as it is.
pub open spec fn plain_attribute(s: Seq<char>) -> bool {
    forall|i: int|
        0 <= i < s.len() ==> #[trigger] s[i] != '"' && s[i] != '\\' && !control(s[i])
}

/// Checks if a text can stand in an attribute between double quotes as it is.
pub fn is_plain_attribute(s: &str) -> (r: bool)
    ensures
        r == plain_attribute(s@),
{
    let cs = chars_of(s);
    let mut i: usize = 0;
    while i < cs.len()
        invariant
            i <= cs@.len(),
            cs@ == s@,
            forall|k: int|
                0 <= k < i ==> #[trigger] cs@[k] != '"' && cs@[k] != '\\' && !control(cs@[k]),
        decreases cs@.len() - i,
    {
        let c = cs[i];
        if c == '"' || c == '\\' || c <= '\u{1f}' || ('\u{7f}' <= c && c <= '\u{9f}') {
            assert(s@[i as int] == c);
            return false;
        }
        i = i + 1;
    }
    true
}

} // verus!

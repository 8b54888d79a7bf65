//! What is looked for where a condition moves back into the conditional expression that tests it.

use std::rc::Rc;
use vstd::prelude::*;

use crate::codegen_ast::js::{
    unfold_declaration, unfold_declarator, unfold_target, unfold_stmt, unfold_expr,
    declarator_model, declarator_models, expr_model, lemma_declarator_models, option_expr,
    stmt_model, Declarator, DeclaratorModel, Ex, Expr, St, Stmt, Target, TargetModel, Text,
};
use crate::codegen_ast::loops::assigned;
use crate::codegen_ast::make::assign_expr;
use crate::codegen_ast::mention::{ex_names, st_names};
use crate::codegen_ast::scan::is_codegen_temp;
use crate::text::{all_digits, ascii_digit, chars_of, is_ascii_digit, same, temp_name};

verus! {

broadcast use crate::codegen_ast::js::group_js;

// ---------------------------------------------------------------------------
// What is looked for
// ---------------------------------------------------------------------------

/// `t` and nothing but digits behind it.
pub open spec fn t_name(s: Text) -> bool {
    s.len() >= 1 && s[0] == 't' && all_digits(s.skip(1))
}

pub fn is_t_name(s: &str) -> (r: bool)
    ensures
        r == t_name(s@),
{
    let cs = chars_of(s);
    if cs.len() == 0 || cs[0] != 't' {
        return false;
    }
    let mut i: usize = 1;
    while i < cs.len()
        invariant
            1 <= i <= cs@.len(),
            cs@ == s@,
            forall|k: int| 1 <= k < i ==> ascii_digit(#[trigger] cs@[k]),
        decreases cs@.len() - i,
    {
        if !is_ascii_digit(cs[i]) {
            assert(s@.skip(1)[i - 1] == cs@[i as int]);
            return false;
        }
        i = i + 1;
    }
    assert(all_digits(s@.skip(1))) by {
        assert forall|k: int| 0 <= k < s@.skip(1).len() implies ascii_digit(
            #[trigger] s@.skip(1)[k],
        ) by {
            assert(s@.skip(1)[k] == cs@[k + 1]);
        }
    }
    true
}

// ---------------------------------------------------------------------------
// What is looked for
// ---------------------------------------------------------------------------

/// A declarator that gives a variable a value.
pub open spec fn valued(d: DeclaratorModel) -> Option<(Text, Ex)> {
    match d.target {
        TargetModel::Identifier(name) => match d.init {
            Some(e) => Some((name, e)),
            None => None,
        },
        _ => None,
    }
}

/// The declaration of one temporary with a value.
pub open spec fn test_decl(s: St) -> Option<(Text, Ex)> {
    match s {
        St::Variable(d) => {
            if d.declarators.len() == 1 && valued(d.declarators[0]) is Some && t_name(
                (valued(d.declarators[0])->0).0,
            ) {
                valued(d.declarators[0])
            } else {
                None
            }
        },
        _ => None,
    }
}

/// A conditional expression that tests a variable: what it tests, and its branches.
pub open spec fn tested(s: St) -> Option<(Text, Ex, Ex)> {
    match s {
        St::Expression(Ex::Conditional(t, c, a)) => match *t {
            Ex::Identifier(name) => Some((name, *c, *a)),
            _ => None,
        },
        _ => None,
    }
}

/// Whether a statement comes to expressions: it is one, or it declares variables that all get values.
pub open spec fn is_setup(s: St) -> bool {
    match s {
        St::Expression(_) => true,
        St::Variable(d) => forall|i: int|
            0 <= i < d.declarators.len() ==> valued(#[trigger] d.declarators[i]) is Some,
        _ => false,
    }
}

/// The first conditional expression from `j` on that tests `name`, with nothing in front of it but what
/// comes to expressions.
pub open spec fn ternary_from(stmts: Seq<St>, name: Text, j: int) -> Option<int>
    decreases stmts.len() - j,
{
    if j < 0 || j >= stmts.len() {
        None
    } else if tested(stmts[j]) matches Some(t) && t.0 == name {
        Some(j)
    } else if is_setup(stmts[j]) {
        ternary_from(stmts, name, j + 1)
    } else {
        None
    }
}

/// The assignments of the first `n` declarators that give values.
pub open spec fn declared_setup(v: Seq<DeclaratorModel>, n: int) -> Seq<Ex>
    decreases n,
{
    if n <= 0 {
        Seq::empty()
    } else {
        let front = declared_setup(v, n - 1);
        match valued(v[n - 1]) {
            Some(p) => front.push(assign_expr(p.0, p.1)),
            None => front,
        }
    }
}

/// The expressions that a statement comes to.
pub open spec fn setup_in(s: St) -> Seq<Ex> {
    match s {
        St::Expression(e) => seq![e],
        St::Variable(d) => declared_setup(d.declarators, d.declarators.len() as int),
        _ => Seq::empty(),
    }
}

/// The expressions that the statements from `i` up to, and without, `j` come to.
pub open spec fn setup(stmts: Seq<St>, i: int, j: int) -> Seq<Ex>
    decreases j,
{
    if j <= i || j <= 0 {
        Seq::empty()
    } else {
        setup(stmts, i, j - 1) + setup_in(stmts[j - 1])
    }
}

/// The value that the last of the first `n` declarators gives to `name`.
pub open spec fn value_in(v: Seq<DeclaratorModel>, name: Text, n: int) -> Option<Ex>
    decreases n,
{
    if n <= 0 {
        None
    } else if valued(v[n - 1]) matches Some(p) && p.0 == name {
        Some((valued(v[n - 1])->0).1)
    } else {
        value_in(v, name, n - 1)
    }
}

/// The value that the last declaration from `i` up to, and without, `j` gives to `name`.
pub open spec fn declared_value(stmts: Seq<St>, name: Text, i: int, j: int) -> Option<Ex>
    decreases j,
{
    if j <= i || j <= 0 {
        None
    } else {
        let here = match stmts[j - 1] {
            St::Variable(d) => value_in(d.declarators, name, d.declarators.len() as int),
            _ => None,
        };
        if here is Some {
            here
        } else {
            declared_value(stmts, name, i, j - 1)
        }
    }
}

/// The first expression from `k` on that assigns to `name`, or the number of expressions.
pub open spec fn first_assignment(exprs: Seq<Ex>, name: Text, k: int) -> int
    decreases exprs.len() - k,
{
    if k < 0 || k >= exprs.len() {
        exprs.len() as int
    } else if assigned(exprs[k]) matches Some(p) && p.0 == name {
        k
    } else {
        first_assignment(exprs, name, k + 1)
    }
}

/// An expression with others in front of it.
pub open spec fn prefixed(exprs: Seq<Ex>, e: Ex) -> Ex {
    if exprs.len() == 0 {
        e
    } else {
        Ex::Sequence(exprs.push(e))
    }
}

pub open spec fn behind(exprs: Seq<Ex>, k: int) -> Seq<Ex> {
    if k < exprs.len() {
        exprs.skip(k + 1)
    } else {
        Seq::empty()
    }
}

/// The branches with the statements from `i` up to, and without, `j` in them. Where the first branch
/// is a temporary that is declared there, its value takes its place, and what comes behind its
/// declaration goes to the second branch.
pub open spec fn branches(stmts: Seq<St>, i: int, j: int, c: Ex, a: Ex) -> (Ex, Ex) {
    let exprs = setup(stmts, i, j);
    let value = match c {
        Ex::Identifier(name) => {
            if temp_name(name) {
                declared_value(stmts, name, i, j)
            } else {
                None
            }
        },
        _ => None,
    };
    match value {
        Some(v) => {
            let k = first_assignment(exprs, c->Identifier_0, 0);
            (prefixed(exprs.take(k), v), prefixed(behind(exprs, k), a))
        },
        None => (prefixed(exprs, c), a),
    }
}

/// The conditional expression at `j` with the test that is declared at `i`, and with what stands
/// between them in its branches.
pub open spec fn fused_stmt(stmts: Seq<St>, i: int, j: int) -> St {
    let test = (test_decl(stmts[i])->0).1;
    let t = tested(stmts[j])->0;
    let b = branches(stmts, i + 1, j, t.1, t.2);
    St::Expression(Ex::Conditional(Box::new(test), Box::new(b.0), Box::new(b.1)))
}

/// The statements with those from `i` to `j` become one.
pub open spec fn fused_at(stmts: Seq<St>, i: int, j: int) -> Seq<St> {
    stmts.take(i).push(fused_stmt(stmts, i, j)) + stmts.skip(j + 1)
}

/// Whether the variable that is declared at `i` is named nowhere but there and as what is tested at `j`.
pub open spec fn only_tested(stmts: Seq<St>, i: int, j: int, name: Text) -> bool {
    let t = tested(stmts[j])->0;
    &&& !ex_names(t.1, name)
    &&& !ex_names(t.2, name)
    &&& forall|k: int|
        0 <= k < stmts.len() && k != i && k != j ==> !st_names(#[trigger] stmts[k], name)
}

/// The conditional expression that goes with the statement at `i`.
pub open spec fn partner(stmts: Seq<St>, i: int) -> Option<int> {
    match test_decl(stmts[i]) {
        Some(p) => match ternary_from(stmts, p.0, i + 1) {
            Some(j) => if only_tested(stmts, i, j, p.0) {
                Some(j)
            } else {
                None
            },
            None => None,
        },
        None => None,
    }
}

pub proof fn lemma_ternary_bounds(stmts: Seq<St>, name: Text, j: int)
    requires
        0 <= j,
    ensures
        ternary_from(stmts, name, j) matches Some(k) ==> j <= k < stmts.len() && tested(
            stmts[k],
        ) is Some,
    decreases stmts.len() - j,
{
    if j < stmts.len() {
        lemma_ternary_bounds(stmts, name, j + 1);
    }
}

/// From `i` on, each declaration of a temporary that only a conditional expression tests is put into it.
pub open spec fn fused_from(stmts: Seq<St>, i: int) -> Seq<St>
    decreases stmts.len() - i,
{
    if i < 0 || i >= stmts.len() {
        stmts
    } else {
        match partner(stmts, i) {
            Some(j) => {
                if i < j < stmts.len() {
                    fused_from(fused_at(stmts, i, j), i)
                } else {
                    stmts
                }
            },
            None => fused_from(stmts, i + 1),
        }
    }
}

pub fn valued_in(d: &Declarator) -> (r: Option<(&String, &Rc<Expr>)>)
    ensures
        r is Some == valued(declarator_model(*d)) is Some,
        r matches Some(p) ==> (valued(declarator_model(*d))->0).0 == p.0@,
        r matches Some(p) ==> (valued(declarator_model(*d))->0).1 == expr_model(**p.1),
{
    proof {
        unfold_declarator(d);
        unfold_target(&d.target);
    }
    match &d.target {
        Target::Identifier(name) => match &d.init {
            Some(e) => Some((name, e)),
            None => None,
        },
        _ => None,
    }
}

/// The only declarator of a declaration.
pub fn only_declarator(s: &Stmt) -> (r: Option<&Declarator>)
    ensures
        r is Some == (stmt_model(*s) matches St::Variable(d) && d.declarators.len() == 1),
        r matches Some(x) ==> (stmt_model(*s) matches St::Variable(d) && d.declarators[0]
            == declarator_model(*x)),
{
    proof {
        unfold_stmt(s);
    }
    match s {
        Stmt::Variable(d) => {
            proof {
                unfold_declaration(d);
                lemma_declarator_models(d.declarators@);
            }
            if d.declarators.len() == 1 {
                assert(declarator_models(d.declarators@)[0] == declarator_model(d.declarators@[0]));
                Some(&d.declarators[0])
            } else {
                None
            }
        },
        _ => None,
    }
}

pub fn test_decl_in(s: &Stmt) -> (r: Option<(&String, &Rc<Expr>)>)
    ensures
        r is Some == test_decl(stmt_model(*s)) is Some,
        r matches Some(p) ==> (test_decl(stmt_model(*s))->0).0 == p.0@,
        r matches Some(p) ==> (test_decl(stmt_model(*s))->0).1 == expr_model(**p.1),
{
    match only_declarator(s) {
        Some(d) => match valued_in(d) {
            Some((name, e)) => {
                if is_t_name(name.as_str()) {
                    Some((name, e))
                } else {
                    None
                }
            },
            None => None,
        },
        None => None,
    }
}

pub fn tested_in_expr(e: &Expr) -> (r: Option<(&String, &Rc<Expr>, &Rc<Expr>)>)
    ensures
        r is Some == tested(St::Expression(expr_model(*e))) is Some,
        r matches Some(p) ==> tested(St::Expression(expr_model(*e))) == Some(
            (p.0@, expr_model(**p.1), expr_model(**p.2)),
        ),
{
    proof {
        unfold_expr(e);
    }
    match e {
        Expr::Conditional(t, c, a) => {
            proof {
                unfold_expr(&**t);
            }
            match &**t {
                Expr::Identifier(name) => Some((name, c, a)),
                _ => None,
            }
        },
        _ => None,
    }
}

pub fn tested_in(s: &Stmt) -> (r: Option<(&String, &Rc<Expr>, &Rc<Expr>)>)
    ensures
        r is Some == tested(stmt_model(*s)) is Some,
        r matches Some(p) ==> tested(stmt_model(*s)) == Some(
            (p.0@, expr_model(**p.1), expr_model(**p.2)),
        ),
{
    proof {
        unfold_stmt(s);
    }
    match s {
        Stmt::Expression(e) => tested_in_expr(e),
        _ => None,
    }
}

pub fn is_setup_stmt(s: &Stmt) -> (r: bool)
    ensures
        r == is_setup(stmt_model(*s)),
{
    proof {
        unfold_stmt(s);
    }
    match s {
        Stmt::Expression(_) => true,
        Stmt::Variable(d) => {
            proof {
                unfold_declaration(d);
                lemma_declarator_models(d.declarators@);
            }
            all_valued(&d.declarators)
        },
        _ => false,
    }
}

fn all_valued(v: &Vec<Declarator>) -> (r: bool)
    ensures
        r == forall|i: int|
            0 <= i < declarator_models(v@).len() ==> valued(
                #[trigger] declarator_models(v@)[i],
            ) is Some,
{
    let ghost all = declarator_models(v@);
    proof {
        lemma_declarator_models(v@);
    }
    let mut i: usize = 0;
    while i < v.len()
        invariant
            i <= v@.len(),
            all == declarator_models(v@),
            all.len() == v@.len(),
            forall|k: int| 0 <= k < v@.len() ==> #[trigger] all[k] == declarator_model(v@[k]),
            forall|k: int| 0 <= k < i ==> valued(#[trigger] all[k]) is Some,
        decreases v@.len() - i,
    {
        assert(all[i as int] == declarator_model(v@[i as int]));
        if valued_in(&v[i]).is_none() {
            assert(valued(declarator_models(v@)[i as int]) is None);
            return false;
        }
        i = i + 1;
    }
    true
}

pub fn value_of(v: &Vec<Declarator>, name: &str) -> (r: Option<Rc<Expr>>)
    ensures
        option_expr(r) == value_in(declarator_models(v@), name@, v@.len() as int),
{
    let ghost all = declarator_models(v@);
    proof {
        lemma_declarator_models(v@);
    }
    let mut n: usize = v.len();
    while n > 0
        invariant
            n <= v@.len(),
            all == declarator_models(v@),
            all.len() == v@.len(),
            forall|k: int| 0 <= k < v@.len() ==> #[trigger] all[k] == declarator_model(v@[k]),
            value_in(all, name@, v@.len() as int) == value_in(all, name@, n as int),
        decreases n,
    {
        assert(all[n - 1] == declarator_model(v@[n - 1]));
        if let Some((s, e)) = valued_in(&v[n - 1]) {
            if same(s.as_str(), name) {
                return Some(e.clone());
            }
        }
        n = n - 1;
    }
    None
}

pub fn value_here(s: &Stmt, name: &str) -> (r: Option<Rc<Expr>>)
    ensures
        option_expr(r) == match stmt_model(*s) {
            St::Variable(d) => value_in(d.declarators, name@, d.declarators.len() as int),
            _ => None,
        },
{
    proof {
        unfold_stmt(s);
    }
    match s {
        Stmt::Variable(d) => {
            proof {
                unfold_declaration(d);
                lemma_declarator_models(d.declarators@);
            }
            value_of(&d.declarators, name)
        },
        _ => None,
    }
}

/// The temporary that an expression is.
pub fn temp_in(e: &Expr) -> (r: Option<&String>)
    ensures
        r is Some == (expr_model(*e) matches Ex::Identifier(s) && temp_name(s)),
        r matches Some(s) ==> expr_model(*e) == Ex::Identifier(s@),
{
    proof {
        unfold_expr(e);
    }
    match e {
        Expr::Identifier(s) => {
            if is_codegen_temp(s.as_str()) {
                Some(s)
            } else {
                None
            }
        },
        _ => None,
    }
}

} // verus!

//! Conditions that move back into the conditional expressions that test them.

use std::rc::Rc;
use vstd::prelude::*;

use crate::codegen_ast::js::{
    unfold_declaration, unfold_stmt, declarator_model, declarator_models, expr_model, expr_models,
    lemma_declarator_models, lemma_expr_models, lemma_expr_push, lemma_stmt_models, option_expr,
    stmt_model, stmt_models, Declarator, Ex, Expr, St, Stmt,
};
use crate::codegen_ast::loops::assigned_in;
use crate::codegen_ast::make::{assign, expression};
use crate::codegen_ast::mention::{does_ex_name, does_stmt_name, st_names};
use crate::codegen_ast::ternary::{
    behind, branches, declared_setup, declared_value, first_assignment, fused_from, fused_stmt,
    is_setup_stmt, lemma_ternary_bounds, partner, prefixed, setup, setup_in, temp_in, ternary_from,
    test_decl_in, tested_in, value_here, valued_in,
};
use crate::text::same;

verus! {

broadcast use crate::codegen_ast::js::group_js;

// ---------------------------------------------------------------------------
// Looking for it
// ---------------------------------------------------------------------------

fn find_ternary(stmts: &Vec<Stmt>, name: &str, from: usize) -> (r: Option<usize>)
    requires
        from <= stmts@.len(),
    ensures
        r is Some == ternary_from(stmt_models(stmts@), name@, from as int) is Some,
        r matches Some(j) ==> from <= j < stmts@.len() && ternary_from(
            stmt_models(stmts@),
            name@,
            from as int,
        ) == Some(j as int),
{
    let ghost all = stmt_models(stmts@);
    proof {
        lemma_stmt_models(stmts@);
    }
    let mut j: usize = from;
    while j < stmts.len()
        invariant
            from <= j <= stmts@.len(),
            all == stmt_models(stmts@),
            all.len() == stmts@.len(),
            forall|k: int| 0 <= k < stmts@.len() ==> #[trigger] all[k] == stmt_model(stmts@[k]),
            ternary_from(all, name@, from as int) == ternary_from(all, name@, j as int),
        decreases stmts@.len() - j,
    {
        assert(all[j as int] == stmt_model(stmts@[j as int]));
        let found = match tested_in(&stmts[j]) {
            Some((n, _, _)) => same(n.as_str(), name),
            None => false,
        };
        if found {
            return Some(j);
        }
        if !is_setup_stmt(&stmts[j]) {
            return None;
        }
        j = j + 1;
    }
    None
}

fn add_expr(exprs: &mut Vec<Rc<Expr>>, e: Rc<Expr>)
    ensures
        expr_models(final(exprs)@) == expr_models(old(exprs)@).push(expr_model(*e)),
{
    proof {
        lemma_expr_push(exprs@, e);
    }
    exprs.push(e);
}

fn add_declared_setup(exprs: &mut Vec<Rc<Expr>>, v: &Vec<Declarator>)
    ensures
        expr_models(final(exprs)@) == expr_models(old(exprs)@) + declared_setup(
            declarator_models(v@),
            v@.len() as int,
        ),
{
    let ghost all = declarator_models(v@);
    proof {
        lemma_declarator_models(v@);
        assert(expr_models(exprs@) =~= expr_models(exprs@) + declared_setup(all, 0));
    }
    let mut i: usize = 0;
    while i < v.len()
        invariant
            i <= v@.len(),
            all == declarator_models(v@),
            all.len() == v@.len(),
            forall|k: int| 0 <= k < v@.len() ==> #[trigger] all[k] == declarator_model(v@[k]),
            expr_models(exprs@) == expr_models(old(exprs)@) + declared_setup(all, i as int),
        decreases v@.len() - i,
    {
        assert(all[i as int] == declarator_model(v@[i as int]));
        let ghost before = expr_models(exprs@);
        if let Some((name, e)) = valued_in(&v[i]) {
            add_expr(exprs, assign(name.as_str(), e.clone()));
        }
        proof {
            assert(expr_models(exprs@) =~= expr_models(old(exprs)@) + declared_setup(
                all,
                i as int + 1,
            ));
        }
        i = i + 1;
    }
}

fn add_setup(exprs: &mut Vec<Rc<Expr>>, s: &Stmt)
    ensures
        expr_models(final(exprs)@) == expr_models(old(exprs)@) + setup_in(stmt_model(*s)),
{
    proof {
        unfold_stmt(s);
    }
    match s {
        Stmt::Expression(e) => {
            add_expr(exprs, e.clone());
            proof {
                assert(expr_models(exprs@) =~= expr_models(old(exprs)@) + seq![expr_model(**e)]);
            }
        },
        Stmt::Variable(d) => {
            proof {
                unfold_declaration(d);
                lemma_declarator_models(d.declarators@);
            }
            add_declared_setup(exprs, &d.declarators);
        },
        _ => {
            proof {
                assert(expr_models(exprs@) =~= expr_models(old(exprs)@) + Seq::<Ex>::empty());
            }
        },
    }
}

fn setup_of(stmts: &Vec<Stmt>, i: usize, j: usize) -> (r: Vec<Rc<Expr>>)
    requires
        i <= j <= stmts@.len(),
    ensures
        expr_models(r@) == setup(stmt_models(stmts@), i as int, j as int),
{
    let ghost all = stmt_models(stmts@);
    proof {
        lemma_stmt_models(stmts@);
    }
    let mut r: Vec<Rc<Expr>> = Vec::new();
    let mut k: usize = i;
    while k < j
        invariant
            i <= k <= j <= stmts@.len(),
            all == stmt_models(stmts@),
            all.len() == stmts@.len(),
            forall|k: int| 0 <= k < stmts@.len() ==> #[trigger] all[k] == stmt_model(stmts@[k]),
            expr_models(r@) == setup(all, i as int, k as int),
        decreases j - k,
    {
        assert(all[k as int] == stmt_model(stmts@[k as int]));
        add_setup(&mut r, &stmts[k]);
        k = k + 1;
    }
    r
}

fn declared_value_of(stmts: &Vec<Stmt>, name: &str, i: usize, j: usize) -> (r: Option<Rc<Expr>>)
    requires
        i <= j <= stmts@.len(),
    ensures
        option_expr(r) == declared_value(stmt_models(stmts@), name@, i as int, j as int),
{
    let ghost all = stmt_models(stmts@);
    proof {
        lemma_stmt_models(stmts@);
    }
    let mut k: usize = j;
    while k > i
        invariant
            i <= k <= j <= stmts@.len(),
            all == stmt_models(stmts@),
            all.len() == stmts@.len(),
            forall|k: int| 0 <= k < stmts@.len() ==> #[trigger] all[k] == stmt_model(stmts@[k]),
            declared_value(all, name@, i as int, j as int) == declared_value(
                all,
                name@,
                i as int,
                k as int,
            ),
        decreases k,
    {
        assert(all[k - 1] == stmt_model(stmts@[k - 1]));
        let here = value_here(&stmts[k - 1], name);
        if here.is_some() {
            return here;
        }
        k = k - 1;
    }
    None
}

fn find_first_assignment(exprs: &Vec<Rc<Expr>>, name: &str) -> (r: usize)
    ensures
        r == first_assignment(expr_models(exprs@), name@, 0),
        r <= exprs@.len(),
{
    let ghost all = expr_models(exprs@);
    proof {
        lemma_expr_models(exprs@);
    }
    let mut k: usize = 0;
    while k < exprs.len()
        invariant
            k <= exprs@.len(),
            all == expr_models(exprs@),
            all.len() == exprs@.len(),
            forall|i: int| 0 <= i < exprs@.len() ==> #[trigger] all[i] == expr_model(*exprs@[i]),
            first_assignment(all, name@, 0) == first_assignment(all, name@, k as int),
        decreases exprs@.len() - k,
    {
        assert(all[k as int] == expr_model(*exprs@[k as int]));
        let found = match assigned_in(&exprs[k]) {
            Some((n, _)) => same(n.as_str(), name),
            None => false,
        };
        if found {
            return k;
        }
        k = k + 1;
    }
    exprs.len()
}

fn part(exprs: &Vec<Rc<Expr>>, from: usize, to: usize) -> (r: Vec<Rc<Expr>>)
    requires
        from <= to <= exprs@.len(),
    ensures
        expr_models(r@) == expr_models(exprs@).subrange(from as int, to as int),
{
    let mut r: Vec<Rc<Expr>> = Vec::new();
    let mut k: usize = from;
    while k < to
        invariant
            from <= k <= to <= exprs@.len(),
            r@ == exprs@.subrange(from as int, k as int),
        decreases to - k,
    {
        r.push(exprs[k].clone());
        proof {
            assert(r@ =~= exprs@.subrange(from as int, k as int + 1));
        }
        k = k + 1;
    }
    proof {
        lemma_expr_models(exprs@);
        lemma_expr_models(r@);
        assert(expr_models(r@) =~= expr_models(exprs@).subrange(from as int, to as int));
    }
    r
}

fn prefix(exprs: Vec<Rc<Expr>>, e: Rc<Expr>) -> (r: Rc<Expr>)
    ensures
        expr_model(*r) == prefixed(expr_models(exprs@), expr_model(*e)),
{
    proof {
        lemma_expr_models(exprs@);
    }
    if exprs.len() == 0 {
        return e;
    }
    let mut exprs = exprs;
    add_expr(&mut exprs, e);
    Rc::new(Expr::Sequence(exprs))
}

fn split_branches(exprs: &Vec<Rc<Expr>>, name: &str, v: Rc<Expr>, a: Rc<Expr>) -> (r: (
    Rc<Expr>,
    Rc<Expr>,
))
    ensures
        ({
            let all = expr_models(exprs@);
            let k = first_assignment(all, name@, 0);
            &&& expr_model(*r.0) == prefixed(all.take(k), expr_model(*v))
            &&& expr_model(*r.1) == prefixed(behind(all, k), expr_model(*a))
        }),
{
    proof {
        lemma_expr_models(exprs@);
    }
    let ghost all = expr_models(exprs@);
    let k: usize = find_first_assignment(exprs, name);
    let before = part(exprs, 0, k);
    assert(all.subrange(0, k as int) =~= all.take(k as int));
    let after = if k < exprs.len() {
        part(exprs, k + 1, exprs.len())
    } else {
        Vec::new()
    };
    assert(expr_models(after@) =~= behind(all, k as int));
    (prefix(before, v), prefix(after, a))
}

fn branches_of(stmts: &Vec<Stmt>, i: usize, j: usize, c: &Rc<Expr>, a: &Rc<Expr>) -> (r: (
    Rc<Expr>,
    Rc<Expr>,
))
    requires
        i <= j <= stmts@.len(),
    ensures
        (expr_model(*r.0), expr_model(*r.1)) == branches(
            stmt_models(stmts@),
            i as int,
            j as int,
            expr_model(**c),
            expr_model(**a),
        ),
{
    let exprs = setup_of(stmts, i, j);
    if let Some(name) = temp_in(c) {
        if let Some(v) = declared_value_of(stmts, name.as_str(), i, j) {
            return split_branches(&exprs, name.as_str(), v, a.clone());
        }
    }
    (prefix(exprs, c.clone()), a.clone())
}

fn conditional(test: &Rc<Expr>, c: Rc<Expr>, a: Rc<Expr>) -> (r: Stmt)
    ensures
        stmt_model(r) == St::Expression(
            Ex::Conditional(
                Box::new(expr_model(**test)),
                Box::new(expr_model(*c)),
                Box::new(expr_model(*a)),
            ),
        ),
{
    expression(Rc::new(Expr::Conditional(test.clone(), c, a)))
}

/// Checks if another statement than those at `i` and `j` names a variable.
fn is_named_beside(stmts: &Vec<Stmt>, name: &str, i: usize, j: usize) -> (r: bool)
    ensures
        r == exists|k: int|
            0 <= k < stmt_models(stmts@).len() && k != i && k != j && st_names(
                #[trigger] stmt_models(stmts@)[k],
                name@,
            ),
{
    let ghost all = stmt_models(stmts@);
    proof {
        lemma_stmt_models(stmts@);
    }
    let mut k: usize = 0;
    while k < stmts.len()
        invariant
            k <= stmts@.len(),
            all == stmt_models(stmts@),
            all.len() == stmts@.len(),
            forall|m: int| 0 <= m < stmts@.len() ==> #[trigger] all[m] == stmt_model(stmts@[m]),
            forall|m: int|
                0 <= m < k && m != i && m != j ==> !st_names(#[trigger] all[m], name@),
        decreases stmts@.len() - k,
    {
        assert(all[k as int] == stmt_model(stmts@[k as int]));
        if k != i && k != j && does_stmt_name(&stmts[k], name) {
            assert(st_names(stmt_models(stmts@)[k as int], name@));
            return true;
        }
        k = k + 1;
    }
    false
}

/// The conditional expression that goes with the statement at `i`, and what both become.
fn fusion_at(stmts: &Vec<Stmt>, i: usize) -> (r: Option<(usize, Stmt)>)
    requires
        i < stmts@.len(),
    ensures
        r is Some == partner(stmt_models(stmts@), i as int) is Some,
        r matches Some(p) ==> i < p.0 < stmts@.len() && partner(stmt_models(stmts@), i as int)
            == Some(p.0 as int) && stmt_model(p.1) == fused_stmt(
            stmt_models(stmts@),
            i as int,
            p.0 as int,
        ),
{
    let ghost all = stmt_models(stmts@);
    proof {
        lemma_stmt_models(stmts@);
        assert(all[i as int] == stmt_model(stmts@[i as int]));
    }
    let (name, test) = match test_decl_in(&stmts[i]) {
        Some(p) => p,
        None => {
            return None;
        },
    };
    let n: usize = stmts.len();
    assert(i < n);
    let j: usize = match find_ternary(stmts, name.as_str(), i + 1) {
        Some(j) => j,
        None => {
            return None;
        },
    };
    proof {
        lemma_ternary_bounds(all, name@, i as int + 1);
        assert(all[j as int] == stmt_model(stmts@[j as int]));
    }
    match tested_in(&stmts[j]) {
        Some((_, c, a)) => {
            if does_ex_name(c, name.as_str()) || does_ex_name(a, name.as_str()) || is_named_beside(
                stmts,
                name.as_str(),
                i,
                j,
            ) {
                return None;
            }
            let (c, a) = branches_of(stmts, i + 1, j, c, a);
            Some((j, conditional(test, c, a)))
        },
        None => None,
    }
}

/// Puts `s` in the place of the statements from `i` to `j`.
fn replace_range(stmts: &mut Vec<Stmt>, i: usize, j: usize, s: Stmt)
    requires
        i < j < old(stmts)@.len(),
    ensures
        final(stmts)@ == old(stmts)@.take(i as int).push(s) + old(stmts)@.skip(j as int + 1),
{
    let ghost whole = stmts@;
    let mut k: usize = i;
    proof {
        assert(stmts@ =~= whole.take(i as int) + whole.skip(i as int));
    }
    while k < j
        invariant
            i <= k <= j < whole.len(),
            stmts@ == whole.take(i as int) + whole.skip(k as int),
        decreases j - k,
    {
        remove_at(stmts, i);
        proof {
            assert(stmts@ =~= whole.take(i as int) + whole.skip(k as int + 1));
        }
        k = k + 1;
    }
    stmts.set(i, s);
    proof {
        assert(stmts@ =~= whole.take(i as int).push(s) + whole.skip(j as int + 1));
    }
}

fn remove_at(stmts: &mut Vec<Stmt>, i: usize)
    requires
        i < old(stmts)@.len(),
    ensures
        final(stmts)@ == old(stmts)@.remove(i as int),
{
    stmts.remove(i);
}

proof fn lemma_replaced(whole: Seq<Stmt>, i: int, j: int, s: Stmt)
    requires
        0 <= i < j < whole.len(),
    ensures
        stmt_models(whole.take(i).push(s) + whole.skip(j + 1)) == stmt_models(whole).take(i).push(
            stmt_model(s),
        ) + stmt_models(whole).skip(j + 1),
{
    let out = whole.take(i).push(s) + whole.skip(j + 1);
    lemma_stmt_models(whole);
    lemma_stmt_models(out);
    assert(stmt_models(out) =~= stmt_models(whole).take(i).push(stmt_model(s)) + stmt_models(
        whole,
    ).skip(j + 1));
}

/// Puts the declaration of each temporary that only a conditional expression tests into that expression,
/// and what stands between them into its branches.
pub fn fuse_scope_body_ternaries(stmts: &mut Vec<Stmt>)
    ensures
        stmt_models(final(stmts)@) == fused_from(stmt_models(old(stmts)@), 0),
{
    let ghost goal = fused_from(stmt_models(stmts@), 0);
    let mut i: usize = 0;
    proof {
        lemma_stmt_models(stmts@);
    }
    while i < stmts.len()
        invariant
            i <= stmts@.len(),
            stmt_models(stmts@).len() == stmts@.len(),
            goal == fused_from(stmt_models(old(stmts)@), 0),
            goal == fused_from(stmt_models(stmts@), i as int),
        decreases stmts@.len() - i,
    {
        let ghost before = stmts@;
        match fusion_at(stmts, i) {
            Some((j, s)) => {
                let ghost put = s;
                replace_range(stmts, i, j, s);
                proof {
                    lemma_replaced(before, i as int, j as int, put);
                    lemma_stmt_models(stmts@);
                }
            },
            None => {
                i = i + 1;
            },
        }
    }
}

} // verus!

//! What becomes of the statements of a function when its lines are put together.

use vstd::multiset::Multiset;
use vstd::prelude::*;

use crate::codegen::analyze::Gen;
use crate::codegen::blocks::{Rendering, Walk};
use crate::codegen::context::{next_number, temp_text};
use crate::codegen::emit::{kept, outer_stmt, planned, selected, with_row, with_stmt, Plan, Setting};
use crate::codegen::lines::{all_at, let_stmt};
use crate::codegen::scopes::{
    declares_one, flushed, grouped, grouped_upto, scope_index, scope_inserted, scope_lines,
    scope_slots, scopes_sorted, slots_upto, with_group, with_groups, with_lets, with_tagged,
    without_lets, Group, Groups, ScopeText, Tagged, Written,
};
use crate::hir::Instruction;

verus! {

// ---------------------------------------------------------------------------
// Lists of statements
// ---------------------------------------------------------------------------

/// Whether a statement is `let name;` for one of the names.
pub open spec fn is_let_of(stmt: Seq<char>, names: Seq<Seq<char>>) -> bool {
    exists|name: Seq<char>| #[trigger]
        names.contains(name) && stmt == seq!['l', 'e', 't', ' '] + name + seq![';']
}

proof fn lemma_let_stmt(name: Seq<char>)
    ensures
        let_stmt(name) == seq!['l', 'e', 't', ' '] + name + seq![';'],
{
    reveal_strlit("let ");
    reveal_strlit(";");
    assert("let "@ =~= seq!['l', 'e', 't', ' ']);
    assert(";"@ =~= seq![';']);
}

proof fn lemma_declares_one(stmt: Seq<char>, names: Seq<Seq<char>>)
    ensures
        declares_one(stmt, names) == is_let_of(stmt, names),
{
    if declares_one(stmt, names) {
        let k = choose|k: int|
            0 <= k < names.len() && stmt == let_stmt(#[trigger] names[k]);
        lemma_let_stmt(names[k]);
        assert(names.contains(names[k]));
    }
    if is_let_of(stmt, names) {
        let name = choose|name: Seq<char>| #[trigger]
            names.contains(name) && stmt == seq!['l', 'e', 't', ' '] + name + seq![';'];
        lemma_let_stmt(name);
        let k = choose|k: int| 0 <= k < names.len() && names[k] == name;
        assert(stmt == let_stmt(names[k]));
    }
}

/// What a memoized block leaves out are the declarations of its results, and nothing else; the other
/// statements keep their order.
pub proof fn lemma_only_result_declarations_go(stmts: Seq<Seq<char>>, names: Seq<Seq<char>>, n: int)
    requires
        0 <= n <= stmts.len(),
    ensures
        without_lets(stmts, names, n) == stmts.take(n).filter(|s: Seq<char>| !is_let_of(s, names)),
    decreases n,
{
    let pred = |s: Seq<char>| !is_let_of(s, names);
    reveal(Seq::filter);
    if n > 0 {
        lemma_only_result_declarations_go(stmts, names, n - 1);
        lemma_declares_one(stmts[n - 1], names);
        assert(stmts.take(n).drop_last() =~= stmts.take(n - 1));
        assert(stmts.take(n).last() == stmts[n - 1]);
    }
}

/// The statements that move in front of a memoized block and those that stay in it are the statements of
/// the block, each on one side, and in their order on both.
pub proof fn lemma_moved_or_stays(stmts: Seq<Seq<char>>, set: Set<Seq<char>>, n: int)
    requires
        0 <= n <= stmts.len(),
    ensures
        selected(stmts, set, true, n) == stmts.take(n).filter(|s: Seq<char>| set.contains(s)),
        selected(stmts, set, false, n) == stmts.take(n).filter(|s: Seq<char>| !set.contains(s)),
    decreases n,
{
    reveal(Seq::filter);
    if n > 0 {
        lemma_moved_or_stays(stmts, set, n - 1);
        assert(stmts.take(n).drop_last() =~= stmts.take(n - 1));
        assert(stmts.take(n).last() == stmts[n - 1]);
    }
}

/// Of the dependencies, those stay that both ways to find them find, in their order.
pub proof fn lemma_kept_in_both(found: Seq<Seq<char>>, list: Seq<Seq<char>>, n: int)
    requires
        0 <= n <= found.len(),
    ensures
        kept(found, list, n) == found.take(n).filter(|s: Seq<char>| list.contains(s)),
    decreases n,
{
    reveal(Seq::filter);
    if n > 0 {
        lemma_kept_in_both(found, list, n - 1);
        assert(found.take(n).drop_last() =~= found.take(n - 1));
        assert(found.take(n).last() == found[n - 1]);
    }
}

// ---------------------------------------------------------------------------
// Functions with one scope
// ---------------------------------------------------------------------------

/// The statements of the first `n` instructions of a block, in their order.
pub open spec fn row_source(row: Seq<Rendering>, n: int) -> Seq<Seq<char>>
    decreases n,
{
    if n <= 0 {
        Seq::empty()
    } else {
        match row[n - 1].stmt {
            Some(s) => row_source(row, n - 1).push(s),
            None => row_source(row, n - 1),
        }
    }
}

/// The statements of the first `n` blocks that stand on their own, in their order.
pub open spec fn source(w: Walk, owned: Set<u32>, wrapped: bool, n: int) -> Seq<Seq<char>>
    decreases n,
{
    if n <= 0 {
        Seq::empty()
    } else {
        let front = source(w, owned, wrapped, n - 1);
        let block = w.blocks[n - 1].1;
        if owned.contains(block.id.0) {
            front
        } else {
            let stmts = front + row_source(w.rows[n - 1], block.instructions@.len() as int);
            match outer_stmt(w, owned, wrapped, block.terminal) {
                Some(s) => stmts.push(s),
                None => stmts,
            }
        }
    }
}

/// All the statements of a plan, wherever they stand.
pub open spec fn placed(p: Plan) -> Multiset<Seq<char>> {
    p.pre.to_multiset().add(p.memo.to_multiset()).add(p.post.to_multiset())
}

proof fn lemma_pushed(s: Seq<Seq<char>>, x: Seq<char>)
    ensures
        s.push(x).to_multiset() == s.to_multiset().insert(x),
{
    broadcast use vstd::seq_lib::group_to_multiset_ensures;

}

proof fn lemma_stmt_placed(p: Plan, g: Gen, e: Setting, instr: Instruction, stmt: Option<Seq<char>>)
    requires
        e.demoted is None,
        placed(p) == p.in_order.to_multiset(),
    ensures
        ({
            let q = with_stmt(p, g, e, instr, stmt);
            &&& placed(q) == q.in_order.to_multiset()
            &&& q.in_order == match stmt {
                Some(s) => p.in_order.push(s),
                None => p.in_order,
            }
            &&& g.skip_memo && p.memo == p.in_order ==> q.memo == q.in_order
        }),
{
    broadcast use vstd::multiset::group_multiset_axioms;

    let q = with_stmt(p, g, e, instr, stmt);
    if let Some(s) = stmt {
        lemma_pushed(p.in_order, s);
        lemma_pushed(p.pre, s);
        lemma_pushed(p.memo, s);
        lemma_pushed(p.post, s);
        assert(placed(q) =~= q.in_order.to_multiset());
    }
}

proof fn lemma_row_placed(
    p: Plan,
    g: Gen,
    e: Setting,
    instrs: Seq<Instruction>,
    row: Seq<Rendering>,
    n: int,
)
    requires
        e.demoted is None,
        placed(p) == p.in_order.to_multiset(),
    ensures
        ({
            let q = with_row(p, g, e, instrs, row, n);
            &&& placed(q) == q.in_order.to_multiset()
            &&& q.in_order == p.in_order + row_source(row, n)
            &&& g.skip_memo && p.memo == p.in_order ==> q.memo == q.in_order
        }),
    decreases n,
{
    if n > 0 {
        lemma_row_placed(p, g, e, instrs, row, n - 1);
        let q = with_row(p, g, e, instrs, row, n - 1);
        lemma_stmt_placed(q, g, e, instrs[n - 1], row[n - 1].stmt);
        if let Some(s) = row[n - 1].stmt {
            assert((p.in_order + row_source(row, n - 1)).push(s) =~= p.in_order + row_source(
                row,
                n - 1,
            ).push(s));
        }
    } else {
        assert(p.in_order + row_source(row, n) =~= p.in_order);
    }
}

/// Every statement of a function is placed exactly once: in front of the memoized block, in it, or behind
/// it. Without memoization all stand in the order of the source.
pub proof fn lemma_plan_places_every_statement(
    g: Gen,
    e: Setting,
    w: Walk,
    owned: Set<u32>,
    wrapped: bool,
    n: int,
)
    requires
        e.demoted is None,
    ensures
        ({
            let p = planned(g, e, w, owned, wrapped, n);
            let all = source(w, owned, wrapped, n);
            &&& p.in_order == all
            &&& placed(p) == all.to_multiset()
            &&& g.skip_memo ==> p.memo == all
        }),
    decreases n,
{
    broadcast use vstd::multiset::group_multiset_axioms;
    broadcast use vstd::seq_lib::group_to_multiset_ensures;

    if n > 0 {
        lemma_plan_places_every_statement(g, e, w, owned, wrapped, n - 1);
        let front = planned(g, e, w, owned, wrapped, n - 1);
        let block = w.blocks[n - 1].1;
        if !owned.contains(block.id.0) {
            let len = block.instructions@.len() as int;
            lemma_row_placed(front, g, e, block.instructions@, w.rows[n - 1], len);
            let q = with_row(front, g, e, block.instructions@, w.rows[n - 1], len);
            if let Some(s) = outer_stmt(w, owned, wrapped, block.terminal) {
                lemma_pushed(q.memo, s);
                lemma_pushed(q.in_order, s);
                let r = planned(g, e, w, owned, wrapped, n);
                assert(placed(r) =~= r.in_order.to_multiset());
            }
        }
    } else {
        let p = planned(g, e, w, owned, wrapped, n);
        assert(placed(p) =~= Seq::<Seq<char>>::empty().to_multiset());
    }
}

// ---------------------------------------------------------------------------
// Functions with several scopes
// ---------------------------------------------------------------------------

/// The statements of the first `n` groups, each with the scope of its group.
pub open spec fn in_groups(groups: Seq<Group>, n: int) -> Seq<(Seq<char>, Option<u32>)>
    decreases n,
{
    if n <= 0 {
        Seq::empty()
    } else {
        let g = groups[n - 1];
        in_groups(groups, n - 1) + g.stmts.map_values(|s: Seq<char>| (s, g.scope))
    }
}

/// A statement with the scope whose block it stands in: a call of a hook stands in none.
pub open spec fn belonging(t: Tagged) -> (Seq<char>, Option<u32>) {
    (
        t.stmt,
        if t.hook {
            None
        } else {
            t.scope
        },
    )
}

proof fn lemma_in_groups_front(groups: Seq<Group>, x: Group, n: int)
    requires
        n <= groups.len(),
    ensures
        in_groups(groups.push(x), n) == in_groups(groups, n),
    decreases n,
{
    if n > 0 {
        lemma_in_groups_front(groups, x, n - 1);
        assert(groups.push(x)[n - 1] == groups[n - 1]);
    }
}

proof fn lemma_in_groups_push(groups: Seq<Group>, x: Group)
    ensures
        in_groups(groups.push(x), groups.len() as int + 1) == in_groups(groups, groups.len() as int)
            + x.stmts.map_values(|s: Seq<char>| (s, x.scope)),
{
    lemma_in_groups_front(groups, x, groups.len() as int);
    assert(groups.push(x)[groups.len() as int] == x);
}

/// The statements in groups that are complete and in the current one.
spec fn all_of(g: Groups) -> Seq<(Seq<char>, Option<u32>)> {
    in_groups(g.done, g.done.len() as int) + g.current.stmts.map_values(
        |s: Seq<char>| (s, g.current.scope),
    )
}

proof fn lemma_flushed(g: Groups)
    ensures
        in_groups(flushed(g), flushed(g).len() as int) == all_of(g),
{
    if g.current.stmts.len() > 0 {
        lemma_in_groups_push(g.done, g.current);
    } else {
        assert(all_of(g) =~= in_groups(g.done, g.done.len() as int));
    }
}

proof fn lemma_with_tagged(g: Groups, t: Tagged)
    ensures
        all_of(with_tagged(g, t)) == all_of(g).push(belonging(t)),
{
    let h = with_tagged(g, t);
    lemma_flushed(g);
    if t.hook {
        let one = Group { scope: None, stmts: seq![t.stmt] };
        lemma_in_groups_push(flushed(g), one);
        assert(one.stmts.map_values(|s: Seq<char>| (s, one.scope)) =~= seq![belonging(t)]);
        assert(h.current.stmts.len() == 0);
        assert(all_of(h) =~= all_of(g).push(belonging(t)));
    } else if t.scope == g.current.scope {
        assert(all_of(h) =~= all_of(g).push(belonging(t)));
    } else {
        assert(all_of(h) =~= all_of(g).push(belonging(t)));
    }
}

/// Grouping keeps every statement, in its order, and puts it into the block of its own scope; calls of
/// hooks are put into none.
pub proof fn lemma_groups_keep_statements(tagged: Seq<Tagged>)
    ensures
        in_groups(grouped(tagged), grouped(tagged).len() as int) == tagged.map_values(
            |t: Tagged| belonging(t),
        ),
{
    lemma_grouped_upto(tagged, tagged.len() as int);
    lemma_flushed(grouped_upto(tagged, tagged.len() as int));
    assert(tagged.take(tagged.len() as int) =~= tagged);
}

proof fn lemma_grouped_upto(tagged: Seq<Tagged>, n: int)
    requires
        0 <= n <= tagged.len(),
    ensures
        all_of(grouped_upto(tagged, n)) == tagged.take(n).map_values(|t: Tagged| belonging(t)),
    decreases n,
{
    if n > 0 {
        lemma_grouped_upto(tagged, n - 1);
        lemma_with_tagged(grouped_upto(tagged, n - 1), tagged[n - 1]);
        assert(tagged.take(n).map_values(|t: Tagged| belonging(t)) =~= tagged.take(n - 1).map_values(
            |t: Tagged| belonging(t),
        ).push(belonging(tagged[n - 1])));
    } else {
        assert(all_of(grouped_upto(tagged, n)) =~= Seq::empty());
    }
}

/// The results of a scope are declared in front of its block: each that is not declared yet, and none
/// twice. Nothing else is written, and what was written stays.
pub proof fn lemma_results_are_declared(wr: Written, names: Seq<Seq<char>>, n: int)
    requires
        0 <= n <= names.len(),
    ensures
        ({
            let after = with_lets(wr, names, n);
            let old = wr.lines.len() as int;
            &&& old <= after.lines.len()
            &&& after.lines.take(old) == wr.lines
            &&& after.counter == wr.counter
            &&& forall|name: Seq<char>| #[trigger]
                after.declared.contains(name) <==> wr.declared.contains(name) || names.take(n).contains(
                    name,
                )
            &&& forall|k: int|
                old <= k < after.lines.len() ==> is_let_of((#[trigger] after.lines[k]).1, names)
            &&& forall|i: int|
                0 <= i < n && !wr.declared.contains(#[trigger] names[i]) ==> exists|k: int|
                    old <= k < after.lines.len() && (#[trigger] after.lines[k]).1 == seq![
                        'l',
                        'e',
                        't',
                        ' ',
                    ] + names[i] + seq![';']
        }),
    decreases n,
{
    let after = with_lets(wr, names, n);
    let old = wr.lines.len() as int;
    if n > 0 {
        lemma_results_are_declared(wr, names, n - 1);
        let front = with_lets(wr, names, n - 1);
        let last = names[n - 1];
        lemma_let_stmt(last);
        assert(names.take(n) =~= names.take(n - 1).push(last));
        assert(names.contains(last));
        assert(after.lines.take(old) =~= wr.lines);
        assert forall|name: Seq<char>| #[trigger]
            after.declared.contains(name) <==> wr.declared.contains(name) || names.take(n).contains(
                name,
            ) by {
            if names.take(n - 1).contains(name) {
                let front_names = names.take(n - 1);
                let k = choose|k: int| 0 <= k < front_names.len() && front_names[k] == name;
                assert(names.take(n)[k] == name);
            }
            if names.take(n).contains(name) && name != last {
                let now_names = names.take(n);
                let k = choose|k: int| 0 <= k < now_names.len() && now_names[k] == name;
                assert(names.take(n - 1)[k] == name);
            }
            if name == last {
                assert(names.take(n)[n - 1] == name);
            }
        }
        assert forall|k: int| old <= k < after.lines.len() implies is_let_of(
            (#[trigger] after.lines[k]).1,
            names,
        ) by {
            if k < front.lines.len() {
                assert(after.lines[k] == front.lines[k]);
            }
        }
        assert forall|i: int| 0 <= i < n && !wr.declared.contains(#[trigger] names[i]) implies exists|
            k: int,
        |
            old <= k < after.lines.len() && (#[trigger] after.lines[k]).1 == seq!['l', 'e', 't', ' ']
                + names[i] + seq![';'] by {
            let want = seq!['l', 'e', 't', ' '] + names[i] + seq![';'];
            if i < n - 1 || front.declared.contains(last) {
                let j = if i < n - 1 {
                    i
                } else {
                    let front_names = names.take(n - 1);
                    choose|at: int| 0 <= at < front_names.len() && front_names[at] == last
                };
                assert(names[j] == names[i]);
                let k = choose|k: int|
                    old <= k < front.lines.len() && (#[trigger] front.lines[k]).1 == want;
                assert(after.lines[k] == front.lines[k]);
            } else {
                assert(after.lines[after.lines.len() - 1].1 == want);
            }
        }
    } else {
        assert(after.lines.take(old) =~= wr.lines);
        assert(names.take(0) =~= Seq::empty());
    }
}

/// Whether a statement only declares a variable.
pub open spec fn is_let(stmt: Seq<char>) -> bool {
    exists|name: Seq<char>| stmt == seq!['l', 'e', 't', ' '] + name + seq![';']
}

/// Whether a text is one of the lines.
pub open spec fn is_line(lines: Seq<(nat, Seq<char>)>, stmt: Seq<char>) -> bool {
    exists|k: int| 0 <= k < lines.len() && (#[trigger] lines[k]).1 == stmt
}

proof fn lemma_line_in(a: Seq<(nat, Seq<char>)>, b: Seq<(nat, Seq<char>)>, stmt: Seq<char>)
    ensures
        is_line(a + b, stmt) == (is_line(a, stmt) || is_line(b, stmt)),
{
    let all = a + b;
    if is_line(a, stmt) {
        let k = choose|k: int| 0 <= k < a.len() && (#[trigger] a[k]).1 == stmt;
        assert(all[k].1 == stmt);
    }
    if is_line(b, stmt) {
        let k = choose|k: int| 0 <= k < b.len() && (#[trigger] b[k]).1 == stmt;
        assert(all[a.len() + k].1 == stmt);
    }
    if is_line(all, stmt) {
        let k = choose|k: int| 0 <= k < all.len() && (#[trigger] all[k]).1 == stmt;
        if k < a.len() {
            assert(a[k].1 == stmt);
        } else {
            assert(b[k - a.len()].1 == stmt);
        }
    }
}

proof fn lemma_all_at_in(indent: nat, stmts: Seq<Seq<char>>, i: int)
    requires
        0 <= i < stmts.len(),
    ensures
        is_line(all_at(indent, stmts), stmts[i]),
{
    assert(all_at(indent, stmts)[i].1 == stmts[i]);
}

proof fn lemma_without_lets_keeps(stmts: Seq<Seq<char>>, names: Seq<Seq<char>>, n: int, i: int) -> (j: int)
    requires
        0 <= i < n <= stmts.len(),
        !declares_one(stmts[i], names),
    ensures
        0 <= j < without_lets(stmts, names, n).len(),
        without_lets(stmts, names, n)[j] == stmts[i],
    decreases n,
{
    if i == n - 1 {
        without_lets(stmts, names, n).len() as int - 1
    } else {
        lemma_without_lets_keeps(stmts, names, n - 1, i)
    }
}

proof fn lemma_scope_lines_hold(
    cache: Seq<char>,
    start: u64,
    deps: Seq<Seq<char>>,
    names: Seq<Seq<char>>,
    stmts: Seq<Seq<char>>,
    i: int,
)
    requires
        0 <= i < stmts.len(),
        !is_let(stmts[i]),
    ensures
        is_line(scope_lines(cache, start, deps, names, stmts), stmts[i]),
{
    lemma_declares_one(stmts[i], names);
    assert(!is_let_of(stmts[i], names));
    let j = lemma_without_lets_keeps(stmts, names, stmts.len() as int, i);
    let inner = without_lets(stmts, names, stmts.len() as int);
    let lines = scope_lines(cache, start, deps, names, stmts);
    assert(lines[1 + j] == all_at(2, inner)[j]);
    assert(lines[1 + j].1 == stmts[i]);
}

/// No statement of a function with several scopes is lost: each one that does more than to declare a
/// variable is a line, and lines that are written stay.
pub proof fn lemma_grouped_statements_are_lines(
    wr: Written,
    cache: Seq<char>,
    scopes: Seq<ScopeText>,
    groups: Seq<Group>,
    n: int,
    k: int,
    i: int,
)
    requires
        0 <= k < n <= groups.len(),
        0 <= i < groups[k].stmts.len(),
        !is_let(groups[k].stmts[i]),
    ensures
        is_line(with_groups(wr, cache, scopes, groups, n).lines, groups[k].stmts[i]),
    decreases n,
{
    let front = with_groups(wr, cache, scopes, groups, n - 1);
    let g = groups[n - 1];
    let s = groups[k].stmts[i];
    if k < n - 1 {
        lemma_grouped_statements_are_lines(wr, cache, scopes, groups, n - 1, k, i);
        lemma_lines_stay(front, cache, scopes, g, s);
    } else {
        lemma_group_is_written(front, cache, scopes, g, i);
    }
}

proof fn lemma_lines_stay(wr: Written, cache: Seq<char>, scopes: Seq<ScopeText>, g: Group, s: Seq<char>)
    requires
        is_line(wr.lines, s),
    ensures
        is_line(with_group(wr, cache, scopes, g).lines, s),
{
    match g.scope {
        None => lemma_line_in(wr.lines, all_at(1, g.stmts), s),
        Some(id) => {
            let k = scope_index(scopes, id, 0);
            let unnamed = scopes[k].names.len() == 0;
            let names = if unnamed {
                seq![temp_text(wr.counter as nat)]
            } else {
                scopes[k].names
            };
            let start = Written {
                counter: if unnamed {
                    next_number(wr.counter)
                } else {
                    wr.counter
                },
                ..wr
            };
            let lets = with_lets(start, names, names.len() as int);
            lemma_results_are_declared(start, names, names.len() as int);
            let old = wr.lines.len() as int;
            lemma_line_in(lets.lines.take(old), lets.lines.skip(old), s);
            assert(lets.lines =~= lets.lines.take(old) + lets.lines.skip(old));
            lemma_line_in(
                lets.lines,
                scope_lines(
                    cache,
                    slots_upto(scopes, k),
                    scopes[k].deps,
                    names,
                    g.stmts,
                ),
                s,
            );
        },
    }
}

proof fn lemma_group_is_written(wr: Written, cache: Seq<char>, scopes: Seq<ScopeText>, g: Group, i: int)
    requires
        0 <= i < g.stmts.len(),
        !is_let(g.stmts[i]),
    ensures
        is_line(with_group(wr, cache, scopes, g).lines, g.stmts[i]),
{
    let s = g.stmts[i];
    match g.scope {
        None => {
            lemma_all_at_in(1, g.stmts, i);
            lemma_line_in(wr.lines, all_at(1, g.stmts), s);
        },
        Some(id) => {
            let k = scope_index(scopes, id, 0);
            let unnamed = scopes[k].names.len() == 0;
            let names = if unnamed {
                seq![temp_text(wr.counter as nat)]
            } else {
                scopes[k].names
            };
            let start = Written {
                counter: if unnamed {
                    next_number(wr.counter)
                } else {
                    wr.counter
                },
                ..wr
            };
            let lets = with_lets(start, names, names.len() as int);
            let first = slots_upto(scopes, k);
            lemma_scope_lines_hold(cache, first, scopes[k].deps, names, g.stmts, i);
            lemma_line_in(
                lets.lines,
                scope_lines(cache, first, scopes[k].deps, names, g.stmts),
                s,
            );
        },
    }
}

// ---------------------------------------------------------------------------
// Scopes
// ---------------------------------------------------------------------------

/// Whether scopes stand in the order in which they start.
pub open spec fn in_start_order(s: Seq<ScopeText>) -> bool {
    forall|i: int, j: int| 0 <= i < j < s.len() ==> (#[trigger] s[i]).start <= (#[trigger] s[j]).start
}

proof fn lemma_inserted(s: Seq<ScopeText>, x: ScopeText)
    requires
        in_start_order(s),
    ensures
        in_start_order(scope_inserted(s, x)),
        scope_inserted(s, x).to_multiset() == s.to_multiset().insert(x),
        s.len() > 0 && x.start < s.last().start ==> scope_inserted(s, x).last() == s.last(),
    decreases s.len(),
{
    broadcast use vstd::multiset::group_multiset_axioms;
    broadcast use vstd::seq_lib::group_to_multiset_ensures;

    if s.len() > 0 && x.start < s.last().start {
        let front = s.drop_last();
        lemma_inserted(front, x);
        let rest = scope_inserted(front, x);
        assert(front.push(s.last()) =~= s);
        assert(rest.push(s.last()).to_multiset() =~= s.to_multiset().insert(x));
        assert forall|i: int| 0 <= i < rest.len() implies (#[trigger] rest[i]).start <= s.last().start by {
            assert(rest.to_multiset().contains(rest[i])) by {
                assert(rest.contains(rest[i]));
            }
            if rest[i] != x {
                assert(front.to_multiset().contains(rest[i]));
                assert(front.contains(rest[i]));
                let k = choose|k: int| 0 <= k < front.len() && front[k] == rest[i];
                assert(s[k].start <= s[s.len() - 1].start);
            }
        }
    }
}

/// The scopes are written in the order in which they start, each of them and no other.
pub proof fn lemma_scopes_in_start_order(s: Seq<ScopeText>, n: int)
    requires
        0 <= n <= s.len(),
    ensures
        in_start_order(scopes_sorted(s, n)),
        scopes_sorted(s, n).to_multiset() == s.take(n).to_multiset(),
    decreases n,
{
    broadcast use vstd::seq_lib::group_to_multiset_ensures;

    if n > 0 {
        lemma_scopes_in_start_order(s, n - 1);
        lemma_inserted(scopes_sorted(s, n - 1), s[n - 1]);
        assert(s.take(n) =~= s.take(n - 1).push(s[n - 1]));
    } else {
        assert(s.take(0) =~= Seq::empty());
    }
}

/// A scope has a slot for each dependency and each result, and one for its value where it has no result.
pub proof fn lemma_scope_slot_count(s: ScopeText)
    requires
        s.deps.len() + s.names.len() < u64::MAX,
    ensures
        scope_slots(s) == s.deps.len() + if s.names.len() == 0 {
            1int
        } else {
            s.names.len() as int
        },
{
}

} // verus!

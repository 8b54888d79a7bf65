//! How the texts of statements and expressions read: what stands in them, and where.

use vstd::prelude::*;

use crate::codegen::blocks::{
    block_expr, block_stmts, body_stmts, cases_text, chain, chain_stmt, declarators, first_keyword,
    first_operand, init_clause, loop_rest, loop_variable, next_block, row_stmts, terminal_stmt,
    test_expr, under, with_assignment, with_assignments, Assigning, Rendering, Walk,
};
use crate::codegen::context::{name_text, place_text, Ctx};
use crate::codegen::exprs::store_keyword;
use crate::graph::{block_index, lemma_unvisited_shrinks, unvisited};
use crate::hir::{
    BlockId, GotoVariant, Instruction, InstructionKind, InstructionValue, Place, SwitchCase,
    Terminal,
};
use crate::text::{has_infix, joined, occurs_at};

verus! {

// ---------------------------------------------------------------------------
// Texts in a row
// ---------------------------------------------------------------------------

/// Whether the parts stand in a text one behind the other, from `from` to `to`, each at its place in `at`,
/// and with `sep` between each two of them.
pub open spec fn lists(
    text: Seq<char>,
    parts: Seq<Seq<char>>,
    sep: Seq<char>,
    at: Seq<int>,
    from: int,
    to: int,
) -> bool {
    &&& at.len() == parts.len()
    &&& parts.len() == 0 ==> from == to
    &&& parts.len() > 0 ==> at[0] == from && at.last() + parts.last().len() == to
    &&& forall|i: int| 0 <= i < parts.len() ==> occurs_at(text, #[trigger] parts[i], at[i])
    &&& forall|i: int|
        0 <= i < parts.len() - 1 ==> at[i + 1] == #[trigger] at[i] + parts[i].len() + sep.len()
            && occurs_at(text, sep, at[i] + parts[i].len())
}

pub proof fn lemma_occurs(a: Seq<char>, b: Seq<char>, c: Seq<char>)
    ensures
        occurs_at(a + b + c, b, a.len() as int),
{
    assert((a + b + c).subrange(a.len() as int, (a.len() + b.len()) as int) =~= b);
}

pub proof fn lemma_joined_lists(
    before: Seq<char>,
    parts: Seq<Seq<char>>,
    sep: Seq<char>,
    after: Seq<char>,
) -> (at: Seq<int>)
    ensures
        lists(
            before + joined(parts, sep) + after,
            parts,
            sep,
            at,
            before.len() as int,
            (before.len() + joined(parts, sep).len()) as int,
        ),
    decreases parts.len(),
{
    let text = before + joined(parts, sep) + after;
    if parts.len() == 0 {
        Seq::empty()
    } else if parts.len() == 1 {
        lemma_occurs(before, parts[0], after);
        let at = seq![before.len() as int];
        assert(at.last() == before.len());
        at
    } else {
        let front = parts.drop_last();
        let rest = sep + parts.last() + after;
        let old = lemma_joined_lists(before, front, sep, rest);
        let end = before + joined(front, sep);
        assert(text =~= before + joined(front, sep) + rest);
        assert(text =~= end + sep + (parts.last() + after));
        assert(text =~= (end + sep) + parts.last() + after);
        lemma_occurs(end, sep, parts.last() + after);
        lemma_occurs(end + sep, parts.last(), after);
        let at = old.push((end.len() + sep.len()) as int);
        let n = parts.len() as int;
        assert(old.last() + front.last().len() == end.len());
        assert(old.last() == old[n - 2]);
        assert forall|i: int| 0 <= i < parts.len() implies occurs_at(text, #[trigger] parts[i], at[i]) by {
            if i < n - 1 {
                assert(front[i] == parts[i]);
                assert(occurs_at(text, front[i], old[i]));
            }
        }
        assert forall|i: int| 0 <= i < parts.len() - 1 implies at[i + 1] == #[trigger] at[i]
            + parts[i].len() + sep.len() && occurs_at(text, sep, at[i] + parts[i].len()) by {
            assert(at[i] == old[i]);
            assert(front[i] == parts[i]);
            if i < n - 2 {
                assert(old[i + 1] == old[i] + front[i].len() + sep.len());
            }
        }
        assert(at.last() == at[n - 1]);
        at
    }
}

/// Whether statements stand in a text from `from` to `to`, each behind `prefix`.
pub open spec fn holds(
    text: Seq<char>,
    stmts: Seq<Seq<char>>,
    prefix: Seq<char>,
    at: Seq<int>,
    from: int,
    to: int,
) -> bool {
    if stmts.len() == 0 {
        from == to
    } else {
        occurs_at(text, prefix, from) && lists(
            text,
            stmts,
            prefix,
            at,
            from + prefix.len(),
            to,
        )
    }
}

proof fn lemma_under_joined(head: Seq<char>, prefix: Seq<char>, stmts: Seq<Seq<char>>, n: int)
    requires
        0 < n <= stmts.len(),
    ensures
        under(head, prefix, stmts, n) == head + prefix + joined(stmts.take(n), prefix),
    decreases n,
{
    let now = stmts.take(n);
    if n > 1 {
        lemma_under_joined(head, prefix, stmts, n - 1);
        assert(now.drop_last() =~= stmts.take(n - 1));
        assert(under(head, prefix, stmts, n) =~= head + prefix + joined(now, prefix));
    } else {
        assert(under(head, prefix, stmts, 0) == head);
        assert(under(head, prefix, stmts, n) == head + prefix + stmts[0]);
        assert(now.len() == 1 && now[0] == stmts[0]);
    }
}

proof fn lemma_under_holds(
    head: Seq<char>,
    prefix: Seq<char>,
    stmts: Seq<Seq<char>>,
    after: Seq<char>,
) -> (at: Seq<int>)
    ensures
        ({
            let inner = under(head, prefix, stmts, stmts.len() as int);
            &&& holds(
                inner + after,
                stmts,
                prefix,
                at,
                head.len() as int,
                inner.len() as int,
            )
            &&& (inner + after).take(head.len() as int) == head
            &&& head.len() <= inner.len()
        }),
{
    let n = stmts.len() as int;
    let inner = under(head, prefix, stmts, n);
    if n == 0 {
        assert((inner + after).take(head.len() as int) =~= head);
        Seq::empty()
    } else {
        lemma_under_joined(head, prefix, stmts, n);
        assert(stmts.take(n) =~= stmts);
        let at = lemma_joined_lists(head + prefix, stmts, prefix, after);
        assert(inner + after =~= (head + prefix) + joined(stmts, prefix) + after);
        lemma_occurs(head, prefix, joined(stmts, prefix) + after);
        assert(inner + after =~= head + prefix + (joined(stmts, prefix) + after));
        assert((inner + after).take(head.len() as int) =~= head);
        at
    }
}

/// Whether a text is a head, statements on lines of their own, and a closing brace.
pub open spec fn is_block(text: Seq<char>, head: Seq<char>, stmts: Seq<Seq<char>>, at: Seq<int>) -> bool {
    &&& text.len() >= head.len() + 2
    &&& text.take(head.len() as int) == head
    &&& holds(text, stmts, "\n  "@, at, head.len() as int, text.len() - 2)
    &&& text.skip(text.len() - 2) == "\n}"@
}

proof fn lemma_block_reads(head: Seq<char>, stmts: Seq<Seq<char>>) -> (at: Seq<int>)
    ensures
        is_block(under(head, "\n  "@, stmts, stmts.len() as int) + "\n}"@, head, stmts, at),
{
    reveal_strlit("\n}");
    let inner = under(head, "\n  "@, stmts, stmts.len() as int);
    let at = lemma_under_holds(head, "\n  "@, stmts, "\n}"@);
    let text = inner + "\n}"@;
    assert(text.skip(text.len() - 2) =~= "\n}"@);
    at
}

// ---------------------------------------------------------------------------
// Loops
// ---------------------------------------------------------------------------

/// The last instruction of a block, where it assigns a variable: the variable and the value.
pub open spec fn last_assignment(w: Walk, id: BlockId) -> Option<(Seq<char>, Seq<char>)> {
    match block_index(w.blocks, id) {
        Some(b) => {
            let instrs = w.blocks[b].1.instructions@;
            if instrs.len() > 0 {
                match instrs.last().value {
                    InstructionValue::StoreLocal { lvalue, value, .. } => {
                        if lvalue.kind == InstructionKind::Reassign {
                            Some((name_text(w.c, lvalue.place.identifier), place_text(w.c, value)))
                        } else {
                            None
                        }
                    },
                    _ => None,
                }
            } else {
                None
            }
        },
        None => None,
    }
}

/// A `for` loop is written with its three clauses and all statements of its body. Where its update block
/// ends with an assignment, the third clause is that assignment.
pub proof fn lemma_for_keeps_its_update(
    w: Walk,
    depth: nat,
    init: BlockId,
    test: BlockId,
    update: BlockId,
    loop_block: BlockId,
    fallthrough: BlockId,
    nested: bool,
) -> (at: Seq<int>)
    requires
        last_assignment(w, update) is Some,
    ensures
        ({
            let t = Terminal::For { init, test, update: Some(update), loop_block, fallthrough };
            let (name, value) = last_assignment(w, update)->0;
            &&& terminal_stmt(w, depth, t, nested) is Some
            &&& is_block(
                terminal_stmt(w, depth, t, nested)->0,
                "for ("@ + init_clause(w, init) + "; "@ + test_expr(w, test) + "; "@ + (name + " = "@
                    + value) + ") {"@,
                body_stmts(w, depth, loop_block),
                at,
            )
        }),
{
    let (name, value) = last_assignment(w, update)->0;
    let head = "for ("@ + init_clause(w, init) + "; "@ + test_expr(w, test) + "; "@ + (name + " = "@
        + value) + ") {"@;
    lemma_block_reads(head, body_stmts(w, depth, loop_block))
}

/// A `for` loop without an update block has an empty third clause.
pub proof fn lemma_for_without_update(
    w: Walk,
    depth: nat,
    init: BlockId,
    test: BlockId,
    loop_block: BlockId,
    fallthrough: BlockId,
    nested: bool,
) -> (at: Seq<int>)
    ensures
        ({
            let t = Terminal::For { init, test, update: None, loop_block, fallthrough };
            &&& terminal_stmt(w, depth, t, nested) is Some
            &&& is_block(
                terminal_stmt(w, depth, t, nested)->0,
                "for ("@ + init_clause(w, init) + "; "@ + test_expr(w, test) + "; ) {"@,
                body_stmts(w, depth, loop_block),
                at,
            )
        }),
{
    reveal_strlit("; ");
    reveal_strlit("");
    reveal_strlit(") {");
    reveal_strlit("; ) {");
    let a = "for ("@ + init_clause(w, init) + "; "@ + test_expr(w, test);
    let head = a + "; "@ + ""@ + ") {"@;
    assert(head =~= a + "; ) {"@);
    lemma_block_reads(head, body_stmts(w, depth, loop_block))
}

/// A `while` loop tests first, and holds all statements of its body.
pub proof fn lemma_while_reads(
    w: Walk,
    depth: nat,
    test: BlockId,
    loop_block: BlockId,
    fallthrough: BlockId,
    nested: bool,
) -> (at: Seq<int>)
    ensures
        ({
            let t = Terminal::While { test, loop_block, fallthrough };
            &&& terminal_stmt(w, depth, t, nested) is Some
            &&& is_block(
                terminal_stmt(w, depth, t, nested)->0,
                "while ("@ + test_expr(w, test) + ") {"@,
                body_stmts(w, depth, loop_block),
                at,
            )
        }),
{
    lemma_block_reads("while ("@ + test_expr(w, test) + ") {"@, body_stmts(w, depth, loop_block))
}

/// A `do` loop holds all statements of its body, and tests behind them.
pub proof fn lemma_do_while_reads(
    w: Walk,
    depth: nat,
    test: BlockId,
    loop_block: BlockId,
    fallthrough: BlockId,
    nested: bool,
) -> (at: Seq<int>)
    ensures
        ({
            let t = Terminal::DoWhile { loop_block, test, fallthrough };
            let text = terminal_stmt(w, depth, t, nested)->0;
            let tail = "\n} while ("@ + test_expr(w, test) + ");"@;
            &&& terminal_stmt(w, depth, t, nested) is Some
            &&& text.len() >= 4 + tail.len()
            &&& text.take(4) == "do {"@
            &&& holds(text, body_stmts(w, depth, loop_block), "\n  "@, at, 4, text.len() - tail.len())
            &&& text.skip(text.len() - tail.len()) == tail
        }),
{
    reveal_strlit("do {");
    let body = body_stmts(w, depth, loop_block);
    let tail = "\n} while ("@ + test_expr(w, test) + ");"@;
    let inner = under("do {"@, "\n  "@, body, body.len() as int);
    let t = Terminal::DoWhile { loop_block, test, fallthrough };
    let text = terminal_stmt(w, depth, t, nested)->0;
    assert(text =~= inner + tail);
    assert(text.skip(text.len() - tail.len()) =~= tail);
    lemma_under_holds("do {"@, "\n  "@, body, tail)
}

// ---------------------------------------------------------------------------
// Conditions
// ---------------------------------------------------------------------------

/// Whether a text is an `if` with the statements of both branches, the second one left out where it has
/// none.
pub open spec fn is_if(
    text: Seq<char>,
    test: Seq<char>,
    yes: Seq<Seq<char>>,
    no: Seq<Seq<char>>,
    at: Seq<int>,
    mid: int,
    behind: Seq<int>,
) -> bool {
    let head = "if ("@ + test + ") {"@;
    &&& head.len() <= mid <= text.len() - 2
    &&& text.take(head.len() as int) == head
    &&& holds(text, yes, "\n  "@, at, head.len() as int, mid)
    &&& text.skip(text.len() - 2) == "\n}"@
    &&& if no.len() == 0 {
        mid == text.len() - 2
    } else {
        occurs_at(text, "\n} else {"@, mid) && holds(
            text,
            no,
            "\n  "@,
            behind,
            mid + 9,
            text.len() - 2,
        )
    }
}

/// A conditional terminal is written as an `if` on its test, with the statements of the one block where it
/// holds and those of the other one where it does not. It is left out exactly where there are none.
pub proof fn lemma_if_reads(
    w: Walk,
    depth: nat,
    test: Place,
    consequent: BlockId,
    alternate: BlockId,
    fallthrough: BlockId,
    nested: bool,
) -> (r: (Seq<int>, int, Seq<int>))
    ensures
        ({
            let t = Terminal::If { test, consequent, alternate, fallthrough };
            let u = Terminal::Branch { test, consequent, alternate, fallthrough };
            let yes = block_stmts(w, depth, consequent);
            let no = if alternate == fallthrough {
                Seq::empty()
            } else {
                block_stmts(w, depth, alternate)
            };
            &&& terminal_stmt(w, depth, t, nested) == terminal_stmt(w, depth, u, nested)
            &&& terminal_stmt(w, depth, t, nested) is None <==> yes.len() == 0 && no.len() == 0
            &&& terminal_stmt(w, depth, t, nested) matches Some(text) ==> is_if(
                text,
                place_text(w.c, test),
                yes,
                no,
                r.0,
                r.1,
                r.2,
            )
        }),
{
    reveal_strlit("\n}");
    reveal_strlit("\n} else {");
    let t = Terminal::If { test, consequent, alternate, fallthrough };
    let yes = block_stmts(w, depth, consequent);
    let no = if alternate == fallthrough {
        Seq::empty()
    } else {
        block_stmts(w, depth, alternate)
    };
    let head = "if ("@ + place_text(w.c, test) + ") {"@;
    let first = under(head, "\n  "@, yes, yes.len() as int);
    if yes.len() == 0 && no.len() == 0 {
        (Seq::empty(), 0, Seq::empty())
    } else if no.len() == 0 {
        let at = lemma_under_holds(head, "\n  "@, yes, "\n}"@);
        let text = first + "\n}"@;
        assert(text.skip(text.len() - 2) =~= "\n}"@);
        (at, first.len() as int, Seq::empty())
    } else {
        let mid = first + "\n} else {"@;
        let second = under(mid, "\n  "@, no, no.len() as int);
        let text = second + "\n}"@;
        let behind = lemma_under_holds(mid, "\n  "@, no, "\n}"@);
        let rest = text.skip(first.len() as int);
        assert(text.take(mid.len() as int) == mid);
        assert(text =~= first + rest) by {
            assert(text.take(first.len() as int) =~= text.take(mid.len() as int).take(
                first.len() as int,
            ));
            assert(mid.take(first.len() as int) =~= first);
        }
        let at = lemma_under_holds(head, "\n  "@, yes, rest);
        assert(text.skip(text.len() - 2) =~= "\n}"@);
        assert(text.subrange(first.len() as int, first.len() as int + 9) =~= text.take(
            mid.len() as int,
        ).skip(first.len() as int));
        assert(mid.skip(first.len() as int) =~= "\n} else {"@);
        (at, first.len() as int, behind)
    }
}

// ---------------------------------------------------------------------------
// Statements of blocks
// ---------------------------------------------------------------------------

/// How many of the first `n` instructions are statements.
pub open spec fn stmts_among(row: Seq<Rendering>, n: int) -> nat
    decreases n,
{
    if n <= 0 {
        0
    } else if row[n - 1].stmt is Some {
        stmts_among(row, n - 1) + 1
    } else {
        stmts_among(row, n - 1)
    }
}

proof fn lemma_row_stmts(row: Seq<Rendering>, n: int)
    requires
        0 <= n <= row.len(),
    ensures
        row_stmts(row, n).len() == stmts_among(row, n),
        forall|i: int|
            0 <= i < n && (#[trigger] row[i]).stmt is Some ==> stmts_among(row, i) < stmts_among(row, n)
                && row_stmts(row, n)[stmts_among(row, i) as int] == row[i].stmt->0,
    decreases n,
{
    if n > 0 {
        lemma_row_stmts(row, n - 1);
        let front = row_stmts(row, n - 1);
        let all = row_stmts(row, n);
        assert forall|i: int| 0 <= i < n && (#[trigger] row[i]).stmt is Some implies stmts_among(row, i)
            < stmts_among(row, n) && all[stmts_among(row, i) as int] == row[i].stmt->0 by {
            if i < n - 1 {
                assert(stmts_among(row, i) < stmts_among(row, n - 1));
                assert(all[stmts_among(row, i) as int] == front[stmts_among(row, i) as int]);
            }
        }
    }
}

proof fn lemma_chain_begins(
    w: Walk,
    depth: nat,
    id: BlockId,
    stmts: Seq<Seq<char>>,
    visited: Set<u32>,
)
    ensures
        stmts.len() <= chain(w, depth, id, stmts, visited).len(),
        chain(w, depth, id, stmts, visited).take(stmts.len() as int) == stmts,
    decreases unvisited(w.blocks, visited),
{
    let all = chain(w, depth, id, stmts, visited);
    if visited.contains(id.0) {
        assert(all.take(stmts.len() as int) =~= stmts);
    } else {
        match block_index(w.blocks, id) {
            None => {
                assert(all.take(stmts.len() as int) =~= stmts);
            },
            Some(b) => {
                let terminal = w.blocks[b].1.terminal;
                let own = stmts + row_stmts(w.rows[b], w.rows[b].len() as int);
                let now = match chain_stmt(w, depth, terminal) {
                    Some(t) => own.push(t),
                    None => own,
                };
                match next_block(terminal) {
                    Some(next) => {
                        lemma_unvisited_shrinks(w.blocks, visited, id, w.blocks.len() as int);
                        lemma_chain_begins(w, depth, next, now, visited.insert(id.0));
                        assert(all.take(stmts.len() as int) =~= now.take(stmts.len() as int));
                        assert(now.take(stmts.len() as int) =~= stmts);
                    },
                    None => {
                        assert(all.take(stmts.len() as int) =~= stmts);
                    },
                }
            },
        }
    }
}

/// The statements of a block are those of its instructions, in their order, and then the one with which it
/// ends; what comes behind them is from the blocks at which control goes on.
pub proof fn lemma_block_keeps_statements(w: Walk, depth: nat, id: BlockId)
    requires
        depth > 0,
        block_index(w.blocks, id) is Some,
    ensures
        ({
            let b = block_index(w.blocks, id)->0;
            let row = w.rows[b];
            let n = stmts_among(row, row.len() as int) as int;
            let all = block_stmts(w, depth, id);
            let end = chain_stmt(w, (depth - 1) as nat, w.blocks[b].1.terminal);
            &&& n <= all.len()
            &&& forall|i: int|
                0 <= i < row.len() && (#[trigger] row[i]).stmt is Some ==> stmts_among(row, i) < n
                    && all[stmts_among(row, i) as int] == row[i].stmt->0
            &&& end is Some ==> n < all.len() && all[n] == end->0
            &&& next_block(w.blocks[b].1.terminal) is None ==> all.len() == n + if end is Some {
                1int
            } else {
                0
            }
        }),
{
    let d = (depth - 1) as nat;
    let b = block_index(w.blocks, id)->0;
    let row = w.rows[b];
    let terminal = w.blocks[b].1.terminal;
    let own = Seq::empty() + row_stmts(row, row.len() as int);
    lemma_row_stmts(row, row.len() as int);
    assert(own =~= row_stmts(row, row.len() as int));
    let now = match chain_stmt(w, d, terminal) {
        Some(t) => own.push(t),
        None => own,
    };
    let all = block_stmts(w, depth, id);
    match next_block(terminal) {
        Some(next) => {
            lemma_unvisited_shrinks(w.blocks, Set::empty(), id, w.blocks.len() as int);
            lemma_chain_begins(w, d, next, now, Set::empty().insert(id.0));
            assert(all.take(now.len() as int) == now);
        },
        None => {
            assert(all == now);
        },
    }
    assert forall|i: int| 0 <= i < now.len() implies all[i] == #[trigger] now[i] by {
        assert(all.take(now.len() as int) =~= now);
        assert(all.take(now.len() as int)[i] == all[i]);
    }
    assert forall|i: int| 0 <= i < row.len() && (#[trigger] row[i]).stmt is Some implies stmts_among(
        row,
        i,
    ) < own.len() && all[stmts_among(row, i) as int] == row[i].stmt->0 by {
        let k = stmts_among(row, i) as int;
        assert(now[k] == own[k]);
    }
    if let Some(t) = chain_stmt(w, d, terminal) {
        assert(now[own.len() as int] == t);
    }
}

/// A block that ends with a return, a throw or a jump out of a loop or to its next turn ends with that
/// statement.
pub proof fn lemma_block_ends(w: Walk, depth: nat, value: Place, target: BlockId)
    ensures
        ({
            let text = place_text(w.c, value);
            let r = Terminal::Return { value, return_variant: crate::hir::ReturnVariant::Explicit };
            let out = Terminal::Goto { block: target, variant: GotoVariant::Break };
            let again = Terminal::Goto { block: target, variant: GotoVariant::Continue };
            &&& chain_stmt(w, depth, r) == Some(
                if text == "undefined"@ {
                    "return;"@
                } else {
                    "return "@ + text + ";"@
                },
            )
            &&& chain_stmt(w, depth, Terminal::Throw { value }) == Some("throw "@ + text + ";"@)
            &&& chain_stmt(w, depth, out) == if w.c.loop_ends.contains(target.0) {
                Some("break;"@)
            } else {
                None
            }
            &&& chain_stmt(w, depth, again) == if w.c.loop_tests.contains(target.0) {
                Some("continue;"@)
            } else {
                None
            }
        }),
{
}

/// A body holds all statements of its block, but for a `continue;` at the end, which goes without saying.
pub proof fn lemma_body_keeps_statements(w: Walk, depth: nat, id: BlockId, i: int)
    requires
        0 <= i < block_stmts(w, depth, id).len(),
        i < block_stmts(w, depth, id).len() - 1 || block_stmts(w, depth, id)[i] != "continue;"@,
    ensures
        i < body_stmts(w, depth, id).len(),
        body_stmts(w, depth, id)[i] == block_stmts(w, depth, id)[i],
        body_stmts(w, depth, id).len() <= block_stmts(w, depth, id).len(),
{
    let all = block_stmts(w, depth, id);
    assert(all.last() == all[all.len() - 1]);
}

// ---------------------------------------------------------------------------
// The clauses of loops
// ---------------------------------------------------------------------------

/// How many of the first `n` instructions are stores.
pub open spec fn stores_among(instrs: Seq<Instruction>, n: int) -> nat
    decreases n,
{
    if n <= 0 {
        0
    } else if instrs[n - 1].value is StoreLocal {
        stores_among(instrs, n - 1) + 1
    } else {
        stores_among(instrs, n - 1)
    }
}

/// What a store comes to in a list of declarations: the variable and its value, where that is not
/// `undefined`.
pub open spec fn declarator(c: Ctx, value: InstructionValue) -> Option<Seq<char>> {
    match value {
        InstructionValue::StoreLocal { lvalue, value, .. } => {
            let name = name_text(c, lvalue.place.identifier);
            if place_text(c, value) == "undefined"@ {
                Some(name)
            } else {
                Some(name + " = "@ + place_text(c, value))
            }
        },
        _ => None,
    }
}

proof fn lemma_declarators(c: Ctx, instrs: Seq<Instruction>, n: int)
    requires
        0 <= n <= instrs.len(),
    ensures
        declarators(c, instrs, n).len() == stores_among(instrs, n),
        forall|i: int|
            0 <= i < n && (#[trigger] instrs[i]).value is StoreLocal ==> stores_among(instrs, i)
                < stores_among(instrs, n) && declarators(c, instrs, n)[stores_among(instrs, i) as int]
                == declarator(c, instrs[i].value)->0,
    decreases n,
{
    if n > 0 {
        lemma_declarators(c, instrs, n - 1);
        let front = declarators(c, instrs, n - 1);
        let all = declarators(c, instrs, n);
        assert forall|i: int| 0 <= i < n && (#[trigger] instrs[i]).value is StoreLocal implies stores_among(
            instrs,
            i,
        ) < stores_among(instrs, n) && all[stores_among(instrs, i) as int] == declarator(
            c,
            instrs[i].value,
        )->0 by {
            if i < n - 1 {
                assert(stores_among(instrs, i) < stores_among(instrs, n - 1));
                assert(all[stores_among(instrs, i) as int] == front[stores_among(instrs, i) as int]);
            }
        }
    }
}

/// The first clause of a `for` loop declares every variable that its block stores, with its value and in
/// its order: `parts` are all declarations of the clause.
pub proof fn lemma_init_keeps_stores(w: Walk, id: BlockId, k: int) -> (r: (
    Seq<Seq<char>>,
    Seq<int>,
    int,
))
    requires
        block_index(w.blocks, id) is Some,
        ({
            let instrs = w.blocks[block_index(w.blocks, id)->0].1.instructions@;
            0 <= k < instrs.len() && instrs[k].value is StoreLocal && stores_among(instrs, k) == 0
        }),
    ensures
        ({
            let instrs = w.blocks[block_index(w.blocks, id)->0].1.instructions@;
            let text = init_clause(w, id);
            let (parts, at, from) = r;
            &&& lists(text, parts, ", "@, at, from, text.len() as int)
            &&& parts.len() == stores_among(instrs, instrs.len() as int)
            &&& forall|i: int|
                0 <= i < instrs.len() && (#[trigger] instrs[i]).value is StoreLocal ==> stores_among(
                    instrs,
                    i,
                ) < parts.len() && parts[stores_among(instrs, i) as int] == declarator(
                    w.c,
                    instrs[i].value,
                )->0
            &&& instrs[k].value matches InstructionValue::StoreLocal { lvalue, .. } && {
                &&& lvalue.kind == InstructionKind::Let ==> text.take(from) == "let "@
                &&& lvalue.kind == InstructionKind::Const ==> text.take(from) == "const "@
                &&& lvalue.kind == InstructionKind::Reassign ==> from == 0
            }
        }),
{
    reveal_strlit("let");
    reveal_strlit("const");
    reveal_strlit("let ");
    reveal_strlit("const ");
    reveal_strlit(" ");
    reveal_strlit("");
    let instrs = w.blocks[block_index(w.blocks, id)->0].1.instructions@;
    let n = instrs.len() as int;
    let parts = declarators(w.c, instrs, n);
    lemma_declarators(w.c, instrs, n);
    lemma_first_keyword(instrs, 0, k);
    let keyword = first_keyword(instrs, 0);
    let text = init_clause(w, id);
    let front = if keyword.len() == 0 {
        Seq::empty()
    } else {
        keyword + " "@
    };
    assert(parts.len() > 0);
    assert(text =~= front + joined(parts, ", "@) + Seq::<char>::empty());
    let at = lemma_joined_lists(front, parts, ", "@, Seq::empty());
    assert(text.take(front.len() as int) =~= front);
    assert("let"@ + " "@ =~= "let "@);
    assert("const"@ + " "@ =~= "const "@);
    (parts, at, front.len() as int)
}

proof fn lemma_first_keyword(instrs: Seq<Instruction>, i: int, k: int)
    requires
        0 <= i <= k < instrs.len(),
        instrs[k].value is StoreLocal,
        stores_among(instrs, k) == 0,
    ensures
        instrs[k].value matches InstructionValue::StoreLocal { lvalue, .. } && first_keyword(instrs, i)
            == store_keyword(lvalue.kind),
    decreases k - i,
{
    if i < k {
        lemma_no_store(instrs, i, k);
        lemma_first_keyword(instrs, i + 1, k);
    }
}

proof fn lemma_no_store(instrs: Seq<Instruction>, i: int, k: int)
    requires
        0 <= i < k <= instrs.len(),
        stores_among(instrs, k) == 0,
    ensures
        !(instrs[i].value is StoreLocal),
    decreases k,
{
    if i < k - 1 {
        lemma_no_store(instrs, i, k - 1);
    }
}

/// Whether an instruction assigns a variable.
pub open spec fn is_assigning(instr: Instruction) -> bool {
    instr.value matches InstructionValue::StoreLocal { lvalue, .. } && lvalue.kind
        == InstructionKind::Reassign
}

proof fn lemma_no_assignments(c: Ctx, instrs: Seq<Instruction>, expr: Seq<char>, n: int)
    requires
        0 <= n <= instrs.len(),
        forall|i: int| 0 <= i < n ==> !is_assigning(#[trigger] instrs[i]),
    ensures
        with_assignments(c, instrs, expr, n) == (Assigning { before: ""@, expr }),
    decreases n,
{
    if n > 0 {
        lemma_no_assignments(c, instrs, expr, n - 1);
        assert(!is_assigning(instrs[n - 1]));
    }
}

proof fn lemma_same_assignments(c: Ctx, instrs: Seq<Instruction>, expr: Seq<char>, k: int, n: int)
    requires
        0 <= k <= n <= instrs.len(),
        forall|i: int| k <= i < n ==> !is_assigning(#[trigger] instrs[i]),
    ensures
        with_assignments(c, instrs, expr, n) == with_assignments(c, instrs, expr, k),
    decreases n,
{
    if n > k {
        lemma_same_assignments(c, instrs, expr, k, n - 1);
        assert(!is_assigning(instrs[n - 1]));
    }
}

/// The test of a loop is the expression of the last instruction of its block, where that has no name and
/// nothing is assigned there.
pub proof fn lemma_test_reads(w: Walk, id: BlockId)
    requires
        block_index(w.blocks, id) is Some,
        ({
            let instrs = w.blocks[block_index(w.blocks, id)->0].1.instructions@;
            &&& instrs.len() > 0
            &&& forall|i: int| 0 <= i < instrs.len() ==> !is_assigning(#[trigger] instrs[i])
            &&& instrs.last().lvalue.identifier.name is None
            &&& w.c.exprs.contains_key(instrs.last().lvalue.identifier.id.0)
        }),
    ensures
        ({
            let instrs = w.blocks[block_index(w.blocks, id)->0].1.instructions@;
            test_expr(w, id) == w.c.exprs[instrs.last().lvalue.identifier.id.0]
        }),
{
    reveal_strlit("");
    let instrs = w.blocks[block_index(w.blocks, id)->0].1.instructions@;
    let expr = block_expr(w, id);
    lemma_no_assignments(w.c, instrs, expr, instrs.len() as int);
    assert(""@ + expr =~= expr);
}

/// The assignment that the block of a test makes stands in the test.
pub proof fn lemma_test_keeps_its_assignment(w: Walk, id: BlockId, k: int)
    requires
        block_index(w.blocks, id) is Some,
        ({
            let instrs = w.blocks[block_index(w.blocks, id)->0].1.instructions@;
            &&& 0 <= k < instrs.len()
            &&& is_assigning(instrs[k])
            &&& forall|i: int|
                0 <= i < instrs.len() && i != k ==> !is_assigning(#[trigger] instrs[i])
        }),
    ensures
        ({
            let instrs = w.blocks[block_index(w.blocks, id)->0].1.instructions@;
            instrs[k].value matches InstructionValue::StoreLocal { lvalue, value, .. } && has_infix(
                test_expr(w, id),
                name_text(w.c, lvalue.place.identifier) + " = "@ + place_text(w.c, value),
            )
        }),
{
    reveal_strlit("");
    let instrs = w.blocks[block_index(w.blocks, id)->0].1.instructions@;
    let expr = block_expr(w, id);
    lemma_no_assignments(w.c, instrs, expr, k);
    lemma_same_assignments(w.c, instrs, expr, k + 1, instrs.len() as int);
    if let InstructionValue::StoreLocal { lvalue, value, .. } = instrs[k].value {
        let name = name_text(w.c, lvalue.place.identifier);
        let rhs = place_text(w.c, value);
        let sought = name + " = "@ + rhs;
        let a = with_assignment((Assigning { before: ""@, expr }), name, rhs);
        let text = test_expr(w, id);
        assert(text == a.before + a.expr);
        if expr.len() == 0 {
            assert(text =~= Seq::<char>::empty() + sought + Seq::<char>::empty());
            lemma_occurs(Seq::empty(), sought, Seq::empty());
            assert(occurs_at(text, sought, 0));
        } else {
            match first_operand(expr, rhs, 0) {
                Some(p) => {
                    let x = expr.subrange(0, p) + "("@;
                    let y = ")"@ + expr.subrange(p + rhs.len(), expr.len() as int);
                    assert(text =~= x + sought + y);
                    lemma_occurs(x, sought, y);
                    assert(occurs_at(text, sought, x.len() as int));
                },
                None => {
                    assert(text =~= Seq::<char>::empty() + sought + (", "@ + expr));
                    lemma_occurs(Seq::empty(), sought, ", "@ + expr);
                    assert(occurs_at(text, sought, 0));
                },
            }
        }
    }
}

// ---------------------------------------------------------------------------
// Other statements
// ---------------------------------------------------------------------------

/// A `try` holds all statements of both blocks: what is tried, then the name under which the error is
/// caught, then what is done about it. It is left out exactly where nothing is tried.
pub proof fn lemma_try_reads(
    w: Walk,
    depth: nat,
    block: BlockId,
    handler_binding: Option<Place>,
    handler: BlockId,
    fallthrough: BlockId,
    nested: bool,
) -> (r: (Seq<int>, int, Seq<int>))
    ensures
        ({
            let t = Terminal::Try { block, handler_binding, handler, fallthrough };
            let tried = body_stmts(w, depth, block);
            let done = body_stmts(w, depth, handler);
            let prefix = if nested {
                "\n"@
            } else {
                "\n  "@
            };
            let caught = match handler_binding {
                Some(p) => if place_text(w.c, p).len() == 0 {
                    "\n} catch {"@
                } else {
                    "\n} catch ("@ + place_text(w.c, p) + ") {"@
                },
                None => "\n} catch {"@,
            };
            let (at, mid, behind) = r;
            &&& terminal_stmt(w, depth, t, nested) is None <==> tried.len() == 0
            &&& terminal_stmt(w, depth, t, nested) matches Some(text) ==> {
                &&& 5 <= mid <= text.len() - 2
                &&& text.take(5) == "try {"@
                &&& holds(text, tried, prefix, at, 5, mid)
                &&& occurs_at(text, caught, mid)
                &&& holds(text, done, prefix, behind, mid + caught.len(), text.len() - 2)
                &&& text.skip(text.len() - 2) == "\n}"@
            }
        }),
{
    reveal_strlit("try {");
    reveal_strlit("\n}");
    reveal_strlit("");
    let t = Terminal::Try { block, handler_binding, handler, fallthrough };
    let tried = body_stmts(w, depth, block);
    let done = body_stmts(w, depth, handler);
    let prefix = if nested {
        "\n"@
    } else {
        "\n  "@
    };
    let caught = match handler_binding {
        Some(p) => if place_text(w.c, p).len() == 0 {
            "\n} catch {"@
        } else {
            "\n} catch ("@ + place_text(w.c, p) + ") {"@
        },
        None => "\n} catch {"@,
    };
    if tried.len() == 0 {
        (Seq::empty(), 0, Seq::empty())
    } else {
        let first = under("try {"@, prefix, tried, tried.len() as int);
        let mid = first + caught;
        let second = under(mid, prefix, done, done.len() as int);
        let text = second + "\n}"@;
        assert(terminal_stmt(w, depth, t, nested) == Some(text));
        let behind = lemma_under_holds(mid, prefix, done, "\n}"@);
        let rest = text.skip(first.len() as int);
        assert(text =~= first + rest) by {
            assert(text.take(first.len() as int) =~= text.take(mid.len() as int).take(
                first.len() as int,
            ));
            assert(mid.take(first.len() as int) =~= first);
        }
        let at = lemma_under_holds("try {"@, prefix, tried, rest);
        assert(text.skip(text.len() - 2) =~= "\n}"@);
        assert(text.subrange(first.len() as int, (first.len() + caught.len()) as int) =~= text.take(
            mid.len() as int,
        ).skip(first.len() as int));
        assert(mid.skip(first.len() as int) =~= caught);
        (at, first.len() as int, behind)
    }
}

/// The head of a `switch`, the label of each case, and all statements of each case behind it, in their
/// order.
pub open spec fn cases_read(
    w: Walk,
    depth: nat,
    text: Seq<char>,
    cases: Seq<SwitchCase>,
    nested: bool,
    labels: Seq<int>,
    at: Seq<Seq<int>>,
    end: int,
) -> bool {
    let line = if nested {
        "\n"@
    } else {
        "\n  "@
    };
    let inner = if nested {
        "\n  "@
    } else {
        "\n    "@
    };
    &&& labels.len() == cases.len() + 1
    &&& at.len() == cases.len()
    &&& labels.last() == end
    &&& forall|i: int|
        0 <= i < cases.len() ==> {
            let label = line + match (#[trigger] cases[i]).test {
                Some(t) => "case "@ + place_text(w.c, t) + ":"@,
                None => "default:"@,
            };
            &&& occurs_at(text, label, labels[i])
            &&& holds(
                text,
                body_stmts(w, depth, cases[i].block),
                inner,
                at[i],
                labels[i] + label.len(),
                labels[i + 1],
            )
        }
}

proof fn lemma_cases_read(
    w: Walk,
    depth: nat,
    head: Seq<char>,
    cases: Seq<SwitchCase>,
    n: int,
    nested: bool,
    after: Seq<char>,
) -> (r: (Seq<int>, Seq<Seq<int>>))
    requires
        0 <= n <= cases.len(),
    ensures
        ({
            let inner = cases_text(w, depth, head, cases, n, nested);
            &&& cases_read(
                w,
                depth,
                inner + after,
                cases.take(n),
                nested,
                r.0,
                r.1,
                inner.len() as int,
            )
            &&& r.0[0] == head.len()
            &&& head.len() <= inner.len()
            &&& (inner + after).take(head.len() as int) == head
        }),
    decreases n,
{
    let all = cases_text(w, depth, head, cases, n, nested);
    if n == 0 {
        let labels = seq![head.len() as int];
        assert(labels.last() == head.len());
        assert((all + after).take(head.len() as int) =~= head);
        (labels, Seq::empty())
    } else {
        let line = if nested {
            "\n"@
        } else {
            "\n  "@
        };
        let inner = if nested {
            "\n  "@
        } else {
            "\n    "@
        };
        let front = cases_text(w, depth, head, cases, n - 1, nested);
        let body = body_stmts(w, depth, cases[n - 1].block);
        let label = line + match cases[n - 1].test {
            Some(t) => "case "@ + place_text(w.c, t) + ":"@,
            None => "default:"@,
        };
        let open = front + label;
        assert(all == under(open, inner, body, body.len() as int)) by {
            match cases[n - 1].test {
                Some(t) => {
                    assert(open =~= front + line + "case "@ + place_text(w.c, t) + ":"@);
                },
                None => {
                    assert(open =~= front + line + "default:"@);
                },
            }
        }
        let text = all + after;
        let last = lemma_under_holds(open, inner, body, after);
        let rest = text.skip(front.len() as int);
        assert(text =~= front + rest) by {
            assert(text.take(front.len() as int) =~= text.take(open.len() as int).take(
                front.len() as int,
            ));
            assert(open.take(front.len() as int) =~= front);
        }
        let (labels, at) = lemma_cases_read(w, depth, head, cases, n - 1, nested, rest);
        assert(occurs_at(text, label, front.len() as int)) by {
            assert(text.subrange(front.len() as int, (front.len() + label.len()) as int)
                =~= text.take(open.len() as int).skip(front.len() as int));
            assert(open.skip(front.len() as int) =~= label);
        }
        let more = labels.push(all.len() as int);
        let places = at.push(last);
        let old = cases.take(n - 1);
        let now = cases.take(n);
        assert(labels.last() == labels[n - 1]);
        assert forall|i: int| 0 <= i < now.len() implies {
            let l = line + match (#[trigger] now[i]).test {
                Some(t) => "case "@ + place_text(w.c, t) + ":"@,
                None => "default:"@,
            };
            &&& occurs_at(text, l, more[i])
            &&& holds(
                text,
                body_stmts(w, depth, now[i].block),
                inner,
                places[i],
                more[i] + l.len(),
                more[i + 1],
            )
        } by {
            if i < n - 1 {
                assert(now[i] == old[i]);
                assert(more[i] == labels[i] && more[i + 1] == labels[i + 1]);
                assert(places[i] == at[i]);
            }
        }
        (more, places)
    }
}

/// A `switch` is written on its test, with the label and all statements of each case, in their order.
pub proof fn lemma_switch_reads(
    w: Walk,
    depth: nat,
    test: Place,
    cases: Vec<SwitchCase>,
    fallthrough: BlockId,
    nested: bool,
) -> (r: (Seq<int>, Seq<Seq<int>>))
    ensures
        ({
            let t = Terminal::Switch { test, cases, fallthrough };
            let head = "switch ("@ + place_text(w.c, test) + ") {"@;
            &&& terminal_stmt(w, depth, t, nested) matches Some(text) && {
                &&& text.len() >= head.len() + 2
                &&& text.take(head.len() as int) == head
                &&& r.0[0] == head.len()
                &&& cases_read(w, depth, text, cases@, nested, r.0, r.1, text.len() - 2)
                &&& text.skip(text.len() - 2) == "\n}"@
            }
        }),
{
    reveal_strlit("\n}");
    let head = "switch ("@ + place_text(w.c, test) + ") {"@;
    let n = cases@.len() as int;
    let inner = cases_text(w, depth, head, cases@, n, nested);
    let text = inner + "\n}"@;
    let r = lemma_cases_read(w, depth, head, cases@, n, nested, "\n}"@);
    assert(cases@.take(n) =~= cases@);
    assert(text.skip(text.len() - 2) =~= "\n}"@);
    r
}

/// A loop over the items or the keys of a collection names its variable and the collection in its head.
pub proof fn lemma_for_each_reads(
    w: Walk,
    depth: nat,
    init: BlockId,
    test: BlockId,
    loop_block: BlockId,
    fallthrough: BlockId,
    nested: bool,
) -> (r: (Seq<int>, Seq<int>))
    ensures
        ({
            let items = Terminal::ForOf { init, test, loop_block, fallthrough };
            let keys = Terminal::ForIn { init, loop_block, fallthrough };
            let v = loop_variable(w, loop_block);
            let body = body_stmts(w, depth, loop_block);
            let rest = loop_rest(v.0, v.1, body, nested);
            &&& terminal_stmt(w, depth, items, nested) is Some
            &&& is_block(
                terminal_stmt(w, depth, items, nested)->0,
                "for ("@ + v.0 + " of "@ + block_expr(w, init) + ") {"@,
                rest,
                r.0,
            )
            &&& terminal_stmt(w, depth, keys, nested) is Some
            &&& is_block(
                terminal_stmt(w, depth, keys, nested)->0,
                "for ("@ + v.0 + " in "@ + block_expr(w, init) + ") {"@,
                rest,
                r.1,
            )
            &&& v.0.len() > 0 && body.len() > v.1 ==> rest == body.skip(v.1 as int)
            &&& v.0.len() == 0 ==> rest == body
        }),
{
    let v = loop_variable(w, loop_block);
    let rest = loop_rest(v.0, v.1, body_stmts(w, depth, loop_block), nested);
    let items = lemma_block_reads("for ("@ + v.0 + " of "@ + block_expr(w, init) + ") {"@, rest);
    let keys = lemma_block_reads("for ("@ + v.0 + " in "@ + block_expr(w, init) + ") {"@, rest);
    (items, keys)
}

} // verus!

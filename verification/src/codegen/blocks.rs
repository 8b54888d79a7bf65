//! How the blocks behind a terminal are gathered into one structured statement.

use std::collections::HashMap;
use vstd::prelude::*;

use crate::codegen::context::{name_text, place_text, Context, Ctx};
use crate::codegen::exprs::{loop_pattern_text, store_keyword, store_keyword_str};
use crate::codegen::print::{is_word_char, word_char};
use crate::collections::{IdSet, IdTexts};
use crate::graph::{block_index, find_block, lemma_unvisited_shrinks, unvisited};
use crate::hir::{
    BasicBlock, BlockId, GotoVariant, Instruction, InstructionKind, InstructionValue, Place,
    PropertyLiteral, SwitchCase, Terminal,
};
use crate::text::{
    cat2, cat3, cat4, cat5, cat7, chars_occur_at, chars_of, from_chars, join, joined, occurs_at,
    owned, same, strip_trailing, texts, without_trailing,
};

verus! {

broadcast use {crate::text::group_texts, vstd::std_specs::hash::group_hash_axioms};

// ---------------------------------------------------------------------------
// Rendered instructions
// ---------------------------------------------------------------------------

/// An instruction as a statement and as an expression, where it is one.
pub struct Rendering {
    pub stmt: Option<Seq<char>>,
    pub expr: Option<Seq<char>>,
}

/// An instruction as a statement and as an expression, where it is one.
pub struct Rendered {
    pub stmt: Option<String>,
    pub expr: Option<String>,
}

pub open spec fn option_text(s: Option<String>) -> Option<Seq<char>> {
    match s {
        Some(t) => Some(t@),
        None => None,
    }
}

impl View for Rendered {
    type V = Rendering;

    open spec fn view(&self) -> Rendering {
        Rendering { stmt: option_text(self.stmt), expr: option_text(self.expr) }
    }
}

/// What is walked: the blocks of a function, and their instructions as written in a context.
pub struct Walk {
    pub c: Ctx,
    pub blocks: Seq<(BlockId, BasicBlock)>,
    pub rows: Seq<Seq<Rendering>>,
}

/// The blocks of a function, and their instructions as written in a context.
pub struct Walker<'a> {
    pub cg: &'a Context,
    pub blocks: &'a Vec<(BlockId, BasicBlock)>,
    pub rows: &'a Vec<Vec<Rendered>>,
}

pub open spec fn row_view(row: Seq<Rendered>) -> Seq<Rendering> {
    row.map_values(|r: Rendered| r@)
}

pub open spec fn rows_view(rows: Seq<Vec<Rendered>>) -> Seq<Seq<Rendering>> {
    rows.map_values(|r: Vec<Rendered>| row_view(r@))
}

impl<'a> View for Walker<'a> {
    type V = Walk;

    open spec fn view(&self) -> Walk {
        Walk { c: self.cg@, blocks: self.blocks@, rows: rows_view(self.rows@) }
    }
}

/// Whether there is one rendering for each instruction.
pub open spec fn rows_match(blocks: Seq<(BlockId, BasicBlock)>, rows: Seq<Seq<Rendering>>) -> bool {
    rows.len() == blocks.len() && forall|b: int|
        0 <= b < blocks.len() ==> (#[trigger] rows[b]).len() == blocks[b].1.instructions@.len()
}

impl<'a> Walker<'a> {
    pub open spec fn wf(&self) -> bool {
        rows_match(self.blocks@, rows_view(self.rows@))
    }
}

// ---------------------------------------------------------------------------
// The expression of a block
// ---------------------------------------------------------------------------

/// The expression of the last unnamed one among the first `n` instructions that has one.
pub open spec fn last_unnamed_expr(
    c: Ctx,
    instrs: Seq<Instruction>,
    row: Seq<Rendering>,
    n: int,
) -> Option<Seq<char>>
    decreases n,
{
    if n <= 0 {
        None
    } else {
        let id = instrs[n - 1].lvalue.identifier;
        if id.name is None && c.exprs.contains_key(id.id.0) {
            Some(c.exprs[id.id.0])
        } else if id.name is None && row[n - 1].expr is Some {
            row[n - 1].expr
        } else {
            last_unnamed_expr(c, instrs, row, n - 1)
        }
    }
}

/// The last expression among the first `n` instructions.
pub open spec fn last_expr(row: Seq<Rendering>, n: int) -> Option<Seq<char>>
    decreases n,
{
    if n <= 0 {
        None
    } else if row[n - 1].expr is Some {
        row[n - 1].expr
    } else {
        last_expr(row, n - 1)
    }
}

/// The value that a block computes: that of its last unnamed instruction, else of its last one.
pub open spec fn block_expr(w: Walk, id: BlockId) -> Seq<char> {
    match block_index(w.blocks, id) {
        None => ""@,
        Some(b) => {
            let instrs = w.blocks[b].1.instructions@;
            let row = w.rows[b];
            match last_unnamed_expr(w.c, instrs, row, instrs.len() as int) {
                Some(e) => e,
                None => match last_expr(row, instrs.len() as int) {
                    Some(e) => e,
                    None => ""@,
                },
            }
        },
    }
}

/// Whether `operand` stands in `s` at `i`, and is no part of a longer word or a property name there.
pub open spec fn operand_at(s: Seq<char>, operand: Seq<char>, i: int) -> bool {
    &&& operand.len() > 0
    &&& occurs_at(s, operand, i)
    &&& i == 0 || !word_char(operand[0]) || !(word_char(s[i - 1]) || s[i - 1] == '.')
    &&& i + operand.len() >= s.len() || !word_char(operand.last()) || !word_char(
        s[i + operand.len()],
    )
}

/// The first position from `i` on at which `operand` stands in `s`.
pub open spec fn first_operand(s: Seq<char>, operand: Seq<char>, i: int) -> Option<int>
    decreases s.len() - i,
{
    if i < 0 || i >= s.len() {
        None
    } else if operand_at(s, operand, i) {
        Some(i)
    } else {
        first_operand(s, operand, i + 1)
    }
}

/// An expression, and the assignments that are to be made before it.
pub struct Assigning {
    pub before: Seq<char>,
    pub expr: Seq<char>,
}

/// The expression with one more assignment: where `rhs` stands in it, else before it.
pub open spec fn with_assignment(a: Assigning, name: Seq<char>, rhs: Seq<char>) -> Assigning {
    let assignment = name + " = "@ + rhs;
    if a.expr.len() == 0 {
        Assigning { expr: assignment, ..a }
    } else {
        match first_operand(a.expr, rhs, 0) {
            Some(p) => Assigning {
                expr: a.expr.subrange(0, p) + "("@ + assignment + ")"@ + a.expr.subrange(
                    p + rhs.len(),
                    a.expr.len() as int,
                ),
                ..a
            },
            None => Assigning { before: a.before + assignment + ", "@, ..a },
        }
    }
}

/// `expr` with the assignments of the first `n` instructions.
pub open spec fn with_assignments(
    c: Ctx,
    instrs: Seq<Instruction>,
    expr: Seq<char>,
    n: int,
) -> Assigning
    decreases n,
{
    if n <= 0 {
        Assigning { before: ""@, expr }
    } else {
        let a = with_assignments(c, instrs, expr, n - 1);
        match instrs[n - 1].value {
            InstructionValue::StoreLocal { lvalue, value, .. } => {
                if lvalue.kind == InstructionKind::Reassign {
                    with_assignment(a, name_text(c, lvalue.place.identifier), place_text(c, value))
                } else {
                    a
                }
            },
            _ => a,
        }
    }
}

/// The value that a test block computes, with the assignments that it makes on the way.
pub open spec fn test_expr(w: Walk, id: BlockId) -> Seq<char> {
    match block_index(w.blocks, id) {
        None => ""@,
        Some(b) => {
            let instrs = w.blocks[b].1.instructions@;
            let a = with_assignments(w.c, instrs, block_expr(w, id), instrs.len() as int);
            a.before + a.expr
        },
    }
}

/// The update clause of a `for` loop.
pub open spec fn update_expr(w: Walk, id: BlockId) -> Seq<char> {
    match block_index(w.blocks, id) {
        None => ""@,
        Some(b) => {
            let instrs = w.blocks[b].1.instructions@;
            if instrs.len() > 0 {
                match instrs.last().value {
                    InstructionValue::StoreLocal { lvalue, value, .. } => {
                        if lvalue.kind == InstructionKind::Reassign {
                            name_text(w.c, lvalue.place.identifier) + " = "@ + place_text(w.c, value)
                        } else {
                            block_expr(w, id)
                        }
                    },
                    _ => block_expr(w, id),
                }
            } else {
                block_expr(w, id)
            }
        },
    }
}

/// The declarators that the first `n` instructions make.
pub open spec fn declarators(c: Ctx, instrs: Seq<Instruction>, n: int) -> Seq<Seq<char>>
    decreases n,
{
    if n <= 0 {
        Seq::empty()
    } else {
        let front = declarators(c, instrs, n - 1);
        match instrs[n - 1].value {
            InstructionValue::StoreLocal { lvalue, value, .. } => {
                let name = name_text(c, lvalue.place.identifier);
                let val = place_text(c, value);
                front.push(
                    if val == "undefined"@ {
                        name
                    } else {
                        name + " = "@ + val
                    },
                )
            },
            _ => front,
        }
    }
}

/// The keyword of the first store from instruction `i` on.
pub open spec fn first_keyword(instrs: Seq<Instruction>, i: int) -> Seq<char>
    decreases instrs.len() - i,
{
    if i < 0 || i >= instrs.len() {
        ""@
    } else {
        match instrs[i].value {
            InstructionValue::StoreLocal { lvalue, .. } => store_keyword(lvalue.kind),
            _ => first_keyword(instrs, i + 1),
        }
    }
}

/// The statements among the first `n` renderings.
pub open spec fn row_stmts(row: Seq<Rendering>, n: int) -> Seq<Seq<char>>
    decreases n,
{
    if n <= 0 {
        Seq::empty()
    } else {
        let front = row_stmts(row, n - 1);
        match row[n - 1].stmt {
            Some(s) => front.push(s),
            None => front,
        }
    }
}

/// The init clause of a `for` loop: one declaration for all the stores of the block.
pub open spec fn init_clause(w: Walk, id: BlockId) -> Seq<char> {
    match block_index(w.blocks, id) {
        None => ""@,
        Some(b) => {
            let instrs = w.blocks[b].1.instructions@;
            let parts = declarators(w.c, instrs, instrs.len() as int);
            let keyword = first_keyword(instrs, 0);
            if parts.len() == 0 {
                without_trailing(joined(row_stmts(w.rows[b], instrs.len() as int), " "@), ';')
            } else if keyword.len() == 0 {
                joined(parts, ", "@)
            } else {
                keyword + " "@ + joined(parts, ", "@)
            }
        },
    }
}

// ---------------------------------------------------------------------------
// The variable of a for-of or for-in loop
// ---------------------------------------------------------------------------

pub open spec fn loop_keyword(kind: InstructionKind) -> Seq<char> {
    match kind {
        InstructionKind::Let | InstructionKind::HoistedLet | InstructionKind::Catch => "let"@,
        _ => "const"@,
    }
}

/// The position of a destructuring that has only primitives in front of it.
pub open spec fn leading_destructure(instrs: Seq<Instruction>, i: int) -> Option<int>
    decreases instrs.len() - i,
{
    if i < 0 || i >= instrs.len() {
        None
    } else {
        match instrs[i].value {
            InstructionValue::Primitive { .. } => leading_destructure(instrs, i + 1),
            InstructionValue::Destructure { .. } => Some(i),
            _ => None,
        }
    }
}

/// What a scan for property loads and stores has found.
pub struct LoopScan {
    /// The property that an identifier was loaded from.
    pub keys: Map<u32, Seq<char>>,
    /// The object that it was loaded from.
    pub objects: Map<u32, u32>,
    /// The parts of the pattern.
    pub parts: Seq<Seq<char>>,
    /// The keyword of the first store, once there is one.
    pub keyword: Option<Seq<char>>,
    /// The object that all parts come from.
    pub source: Option<u32>,
}

pub open spec fn loop_part(key: Seq<char>, name: Seq<char>) -> Seq<char> {
    if key == name || name.len() == 0 {
        key
    } else {
        key + ": "@ + name
    }
}

pub open spec fn scan_keyword(st: LoopScan) -> Seq<char> {
    match st.keyword {
        Some(k) => k,
        None => "const"@,
    }
}

/// What the scan has come to: the pattern and the number of its parts.
pub open spec fn scan_result(st: LoopScan) -> (Seq<char>, nat) {
    if st.parts.len() > 0 {
        (scan_keyword(st) + " { "@ + joined(st.parts, ", "@) + " }"@, st.parts.len())
    } else {
        (""@, 0)
    }
}

/// Scans the instructions from `i` on for a variable, or for loads of properties of one object that
/// are stored in variables.
pub open spec fn loop_scan(c: Ctx, instrs: Seq<Instruction>, i: int, st: LoopScan) -> (Seq<char>, nat)
    decreases instrs.len() - i,
{
    if i < 0 || i >= instrs.len() {
        scan_result(st)
    } else {
        let id = instrs[i].lvalue.identifier.id.0;
        match instrs[i].value {
            InstructionValue::PropertyLoad { object, property, .. } => match property {
                PropertyLiteral::String(key) => loop_scan(
                    c,
                    instrs,
                    i + 1,
                    LoopScan {
                        keys: st.keys.insert(id, key@),
                        objects: st.objects.insert(id, object.identifier.id.0),
                        ..st
                    },
                ),
                PropertyLiteral::Number(_) => loop_scan(c, instrs, i + 1, st),
            },
            InstructionValue::StoreLocal { lvalue, value, .. } => {
                let name = name_text(c, lvalue.place.identifier);
                let st1 = LoopScan {
                    keyword: Some(
                        match st.keyword {
                            Some(k) => k,
                            None => loop_keyword(lvalue.kind),
                        },
                    ),
                    ..st
                };
                let from = value.identifier.id.0;
                if st.keys.contains_key(from) {
                    let object = st.objects[from];
                    if st.source is Some && st.source != Some(object) {
                        scan_result(st1)
                    } else {
                        loop_scan(
                            c,
                            instrs,
                            i + 1,
                            LoopScan {
                                parts: st1.parts.push(loop_part(st.keys[from], name)),
                                source: Some(object),
                                ..st1
                            },
                        )
                    }
                } else if st.parts.len() == 0 {
                    (scan_keyword(st1) + " "@ + name, 1)
                } else {
                    scan_result(st1)
                }
            },
            _ => if st.keyword is Some {
                scan_result(st)
            } else {
                loop_scan(c, instrs, i + 1, st)
            },
        }
    }
}

pub open spec fn empty_scan() -> LoopScan {
    LoopScan {
        keys: Map::empty(),
        objects: Map::empty(),
        parts: Seq::empty(),
        keyword: None,
        source: None,
    }
}

/// The declaration in the head of a for-of or for-in loop, and the number of statements of its body
/// that it stands for.
pub open spec fn loop_variable(w: Walk, id: BlockId) -> (Seq<char>, nat) {
    match block_index(w.blocks, id) {
        None => (""@, 0),
        Some(b) => {
            let instrs = w.blocks[b].1.instructions@;
            match leading_destructure(instrs, 0) {
                Some(i) => match instrs[i].value {
                    InstructionValue::Destructure { lvalue, .. } => (
                        loop_keyword(lvalue.kind) + " "@ + loop_pattern_text(w.c, lvalue.pattern),
                        1,
                    ),
                    _ => (""@, 0),
                },
                None => loop_scan(w.c, instrs, 0, empty_scan()),
            }
        },
    }
}

// ---------------------------------------------------------------------------
// Structured statements
// ---------------------------------------------------------------------------

/// `head` and the first `n` statements, each with `prefix` in front.
pub open spec fn under(
    head: Seq<char>,
    prefix: Seq<char>,
    stmts: Seq<Seq<char>>,
    n: int,
) -> Seq<char>
    decreases n,
{
    if n <= 0 {
        head
    } else {
        under(head, prefix, stmts, n - 1) + prefix + stmts[n - 1]
    }
}

/// A head, the statements of a body on lines of their own, and a closing brace.
pub open spec fn braced(head: Seq<char>, stmts: Seq<Seq<char>>) -> Seq<char> {
    under(head, "\n  "@, stmts, stmts.len() as int) + "\n}"@
}

/// The statements of the body of a for-of or for-in loop behind those that its head stands for.
pub open spec fn loop_rest(
    decl: Seq<char>,
    skip: nat,
    body: Seq<Seq<char>>,
    nested: bool,
) -> Seq<Seq<char>> {
    if decl.len() > 0 && body.len() > skip {
        body.skip(skip as int)
    } else if decl.len() > 0 && !nested {
        Seq::empty()
    } else {
        body
    }
}

/// What ends a chain of blocks, or where it goes on.
pub open spec fn next_block(terminal: Terminal) -> Option<BlockId> {
    match terminal {
        Terminal::For { fallthrough, .. } => Some(fallthrough),
        Terminal::ForOf { fallthrough, .. } => Some(fallthrough),
        Terminal::ForIn { fallthrough, .. } => Some(fallthrough),
        Terminal::While { fallthrough, .. } => Some(fallthrough),
        Terminal::DoWhile { fallthrough, .. } => Some(fallthrough),
        Terminal::If { fallthrough, .. } => Some(fallthrough),
        Terminal::Branch { fallthrough, .. } => Some(fallthrough),
        Terminal::Try { fallthrough, .. } => Some(fallthrough),
        Terminal::Goto { block, variant } => if variant == GotoVariant::Try {
            Some(block)
        } else {
            None
        },
        _ => None,
    }
}

pub open spec fn push_some(stmts: Seq<Seq<char>>, s: Option<Seq<char>>) -> Seq<Seq<char>> {
    match s {
        Some(t) => stmts.push(t),
        None => stmts,
    }
}

/// `return` with the value of a place; without one where that is `undefined`.
pub open spec fn return_stmt(c: Ctx, value: Place) -> Seq<char> {
    if place_text(c, value) == "undefined"@ {
        "return;"@
    } else {
        "return "@ + place_text(c, value) + ";"@
    }
}

pub open spec fn throw_stmt(c: Ctx, value: Place) -> Seq<char> {
    "throw "@ + place_text(c, value) + ";"@
}

/// The statement with which a block in a chain ends.
pub open spec fn chain_stmt(w: Walk, depth: nat, terminal: Terminal) -> Option<Seq<char>>
    decreases depth, 4nat, 0nat,
{
    match terminal {
        Terminal::Return { value, .. } => Some(return_stmt(w.c, value)),
        Terminal::Goto { block, variant } => {
            if variant == GotoVariant::Break && w.c.loop_ends.contains(block.0) {
                Some("break;"@)
            } else if variant == GotoVariant::Continue && w.c.loop_tests.contains(block.0) {
                Some("continue;"@)
            } else {
                None
            }
        },
        Terminal::Switch { .. } => None,
        _ => terminal_stmt(w, depth, terminal, false),
    }
}

/// `stmts` and the statements of the blocks from `id` on: of each block, and then of the block at
/// which control goes on. A block that was `visited` ends the chain.
pub open spec fn chain(
    w: Walk,
    depth: nat,
    id: BlockId,
    stmts: Seq<Seq<char>>,
    visited: Set<u32>,
) -> Seq<Seq<char>>
    decreases depth, 5nat, unvisited(w.blocks, visited),
{
    if visited.contains(id.0) {
        stmts
    } else {
        match block_index(w.blocks, id) {
            None => stmts,
            Some(b) => {
                let terminal = w.blocks[b].1.terminal;
                let own = stmts + row_stmts(w.rows[b], w.rows[b].len() as int);
                let all = push_some(own, chain_stmt(w, depth, terminal));
                match next_block(terminal) {
                    Some(next) => {
                        proof {
                            lemma_unvisited_shrinks(w.blocks, visited, id, w.blocks.len() as int);
                        }
                        chain(w, depth, next, all, visited.insert(id.0))
                    },
                    None => all,
                }
            },
        }
    }
}

/// The statements of the blocks from `id` on. Statements nest no deeper than `depth`.
pub open spec fn block_stmts(w: Walk, depth: nat, id: BlockId) -> Seq<Seq<char>>
    decreases depth, 0nat, 0nat,
{
    if depth == 0 {
        Seq::empty()
    } else {
        chain(w, (depth - 1) as nat, id, Seq::empty(), Set::empty())
    }
}

/// The statements without a `continue;` at the end, which goes without saying.
pub open spec fn without_continue(stmts: Seq<Seq<char>>) -> Seq<Seq<char>> {
    if stmts.len() > 0 && stmts.last() == "continue;"@ {
        stmts.drop_last()
    } else {
        stmts
    }
}

pub open spec fn body_stmts(w: Walk, depth: nat, id: BlockId) -> Seq<Seq<char>>
    decreases depth, 1nat, 0nat,
{
    without_continue(block_stmts(w, depth, id))
}

/// An `if` statement; none where both branches are empty.
pub open spec fn if_text(test: Seq<char>, cons: Seq<Seq<char>>, alt: Seq<Seq<char>>) -> Option<
    Seq<char>,
> {
    if cons.len() == 0 && alt.len() == 0 {
        None
    } else {
        let head = under("if ("@ + test + ") {"@, "\n  "@, cons, cons.len() as int);
        if alt.len() == 0 {
            Some(head + "\n}"@)
        } else {
            Some(under(head + "\n} else {"@, "\n  "@, alt, alt.len() as int) + "\n}"@)
        }
    }
}

pub open spec fn catch_head(param: Seq<char>) -> Seq<char> {
    if param.len() == 0 {
        "\n} catch {"@
    } else {
        "\n} catch ("@ + param + ") {"@
    }
}

/// A try statement; none where nothing is tried.
pub open spec fn try_text(
    tried: Seq<Seq<char>>,
    param: Seq<char>,
    handler: Seq<Seq<char>>,
    prefix: Seq<char>,
) -> Option<Seq<char>> {
    if tried.len() == 0 {
        None
    } else {
        let head = under("try {"@, prefix, tried, tried.len() as int) + catch_head(param);
        Some(under(head, prefix, handler, handler.len() as int) + "\n}"@)
    }
}

pub open spec fn binding_text(c: Ctx, binding: Option<Place>) -> Seq<char> {
    match binding {
        Some(p) => place_text(c, p),
        None => ""@,
    }
}

/// `head` and the first `n` cases of a switch.
pub open spec fn cases_text(
    w: Walk,
    depth: nat,
    head: Seq<char>,
    cases: Seq<SwitchCase>,
    n: int,
    nested: bool,
) -> Seq<char>
    decreases depth, 2nat, n,
{
    if n <= 0 || n > cases.len() {
        head
    } else {
        let front = cases_text(w, depth, head, cases, n - 1, nested);
        let indent = if nested {
            "\n"@
        } else {
            "\n  "@
        };
        let label = match cases[n - 1].test {
            Some(t) => front + indent + "case "@ + place_text(w.c, t) + ":"@,
            None => front + indent + "default:"@,
        };
        let body = body_stmts(w, depth, cases[n - 1].block);
        under(
            label,
            if nested {
                "\n  "@
            } else {
                "\n    "@
            },
            body,
            body.len() as int,
        )
    }
}

/// The structured statement for a terminal, where it is one. In a nested function the statements of
/// `try` are not indented, those of `switch` less, and a loop keeps a body that its head takes up.
pub open spec fn terminal_stmt(w: Walk, depth: nat, terminal: Terminal, nested: bool) -> Option<
    Seq<char>,
>
    decreases depth, 3nat, 0nat,
{
    match terminal {
        Terminal::For { init, test, update, loop_block, .. } => Some(
            braced(
                "for ("@ + init_clause(w, init) + "; "@ + test_expr(w, test) + "; "@ + match update {
                    Some(u) => update_expr(w, u),
                    None => ""@,
                } + ") {"@,
                body_stmts(w, depth, loop_block),
            ),
        ),
        Terminal::ForOf { init, loop_block, .. } => {
            let v = loop_variable(w, loop_block);
            Some(
                braced(
                    "for ("@ + v.0 + " of "@ + block_expr(w, init) + ") {"@,
                    loop_rest(v.0, v.1, body_stmts(w, depth, loop_block), nested),
                ),
            )
        },
        Terminal::ForIn { init, loop_block, .. } => {
            let v = loop_variable(w, loop_block);
            Some(
                braced(
                    "for ("@ + v.0 + " in "@ + block_expr(w, init) + ") {"@,
                    loop_rest(v.0, v.1, body_stmts(w, depth, loop_block), nested),
                ),
            )
        },
        Terminal::While { test, loop_block, .. } => Some(
            braced("while ("@ + test_expr(w, test) + ") {"@, body_stmts(w, depth, loop_block)),
        ),
        Terminal::DoWhile { test, loop_block, .. } => {
            let body = body_stmts(w, depth, loop_block);
            Some(
                under("do {"@, "\n  "@, body, body.len() as int) + "\n} while ("@ + test_expr(
                    w,
                    test,
                ) + ");"@,
            )
        },
        Terminal::If { test, consequent, alternate, fallthrough } => if_text(
            place_text(w.c, test),
            block_stmts(w, depth, consequent),
            if alternate == fallthrough {
                Seq::empty()
            } else {
                block_stmts(w, depth, alternate)
            },
        ),
        Terminal::Branch { test, consequent, alternate, fallthrough } => if_text(
            place_text(w.c, test),
            block_stmts(w, depth, consequent),
            if alternate == fallthrough {
                Seq::empty()
            } else {
                block_stmts(w, depth, alternate)
            },
        ),
        Terminal::Try { block, handler_binding, handler, .. } => try_text(
            body_stmts(w, depth, block),
            binding_text(w.c, handler_binding),
            body_stmts(w, depth, handler),
            if nested {
                "\n"@
            } else {
                "\n  "@
            },
        ),
        Terminal::Switch { test, cases, .. } => {
            Some(
                cases_text(
                    w,
                    depth,
                    "switch ("@ + place_text(w.c, test) + ") {"@,
                    cases@,
                    cases@.len() as int,
                    nested,
                ) + "\n}"@,
            )
        },
        Terminal::Throw { value } => Some(throw_stmt(w.c, value)),
        _ => None,
    }
}

/// How deep the statements of a function can nest: each statement begins at another block.
pub open spec fn full_depth(blocks: Seq<(BlockId, BasicBlock)>) -> nat {
    blocks.len()
}

// ---------------------------------------------------------------------------
// Execution
// ---------------------------------------------------------------------------

pub fn append_under(head: String, prefix: &str, stmts: &Vec<String>) -> (r: String)
    ensures
        r@ == under(head@, prefix@, texts(stmts@), stmts@.len() as int),
{
    let mut out = head;
    let ghost start = out@;
    let mut i: usize = 0;
    while i < stmts.len()
        invariant
            i <= stmts@.len(),
            out@ == under(start, prefix@, texts(stmts@), i as int),
        decreases stmts@.len() - i,
    {
        out.append(prefix);
        out.append(&stmts[i]);
        assert(texts(stmts@)[i as int] == stmts@[i as int]@);
        i = i + 1;
    }
    out
}

fn braced_str(head: String, stmts: &Vec<String>) -> (r: String)
    ensures
        r@ == braced(head@, texts(stmts@)),
{
    let out = append_under(head, "\n  ", stmts);
    cat2(&out, "\n}")
}

fn loop_keyword_str(kind: InstructionKind) -> (r: &'static str)
    ensures
        r@ == loop_keyword(kind),
{
    match kind {
        InstructionKind::Let | InstructionKind::HoistedLet | InstructionKind::Catch => "let",
        _ => "const",
    }
}

fn is_operand_at(s: &Vec<char>, operand: &Vec<char>, i: usize) -> (r: bool)
    requires
        i < s@.len(),
    ensures
        r == operand_at(s@, operand@, i as int),
{
    let n: usize = operand.len();
    if n == 0 || !chars_occur_at(s, operand, i) {
        return false;
    }
    if i > 0 && is_word_char(operand[0]) && (is_word_char(s[i - 1]) || s[i - 1] == '.') {
        return false;
    }
    !(n < s.len() - i && is_word_char(operand[n - 1]) && is_word_char(s[i + n]))
}

fn find_operand(s: &Vec<char>, operand: &Vec<char>) -> (r: Option<usize>)
    ensures
        match r {
            Some(i) => first_operand(s@, operand@, 0) == Some(i as int) && occurs_at(
                s@,
                operand@,
                i as int,
            ),
            None => first_operand(s@, operand@, 0) is None,
        },
{
    let mut i: usize = 0;
    while i < s.len()
        invariant
            i <= s@.len(),
            first_operand(s@, operand@, i as int) == first_operand(s@, operand@, 0),
        decreases s@.len() - i,
    {
        if is_operand_at(s, operand, i) {
            return Some(i);
        }
        i = i + 1;
    }
    None
}

/// Puts an assignment into an expression, or after those that stand `before` it.
fn assign_in(before: &mut String, expr: String, name: &str, rhs: &str) -> (r: String)
    ensures
        (Assigning { before: final(before)@, expr: r@ }) == with_assignment(
            (Assigning { before: old(before)@, expr: expr@ }),
            name@,
            rhs@,
        ),
{
    let assignment = cat3(name, " = ", rhs);
    let es = chars_of(&expr);
    if es.len() == 0 {
        return assignment;
    }
    let rs = chars_of(rhs);
    let n: usize = es.len();
    match find_operand(&es, &rs) {
        Some(p) => {
            let front = from_chars(&es, 0, p);
            let back = from_chars(&es, p + rs.len(), n);
            cat5(&front, "(", &assignment, ")", &back)
        },
        None => {
            *before = cat3(before, &assignment, ", ");
            expr
        },
    }
}

fn drop_front(v: &Vec<String>, n: usize) -> (r: Vec<String>)
    requires
        n <= v@.len(),
    ensures
        texts(r@) == texts(v@).skip(n as int),
{
    let mut out: Vec<String> = Vec::new();
    let mut i: usize = n;
    while i < v.len()
        invariant
            n <= i <= v@.len(),
            out@.len() == i - n,
            forall|k: int| 0 <= k < out@.len() ==> (#[trigger] out@[k])@ == v@[k + n]@,
        decreases v@.len() - i,
    {
        out.push(v[i].clone());
        i = i + 1;
    }
    proof {
        assert(texts(out@) =~= texts(v@).skip(n as int));
    }
    out
}

fn loop_rest_of(decl: &str, skip: usize, body: Vec<String>, nested: bool) -> (r: Vec<String>)
    ensures
        texts(r@) == loop_rest(decl@, skip as nat, texts(body@), nested),
{
    if !decl.is_empty() && body.len() > skip {
        drop_front(&body, skip)
    } else if !decl.is_empty() && !nested {
        Vec::new()
    } else {
        body
    }
}

fn if_str(test: &str, cons: &Vec<String>, alt: &Vec<String>) -> (r: Option<String>)
    ensures
        option_text(r) == if_text(test@, texts(cons@), texts(alt@)),
{
    if cons.len() == 0 && alt.len() == 0 {
        return None;
    }
    let open = cat3("if (", test, ") {");
    let head = append_under(open, "\n  ", cons);
    if alt.len() == 0 {
        Some(cat2(&head, "\n}"))
    } else {
        let mid = cat2(&head, "\n} else {");
        let out = append_under(mid, "\n  ", alt);
        Some(cat2(&out, "\n}"))
    }
}

fn try_str(tried: &Vec<String>, param: &str, handler: &Vec<String>, prefix: &str) -> (r: Option<
    String,
>)
    ensures
        option_text(r) == try_text(texts(tried@), param@, texts(handler@), prefix@),
{
    if tried.len() == 0 {
        return None;
    }
    let open = owned("try {");
    let head = append_under(open, prefix, tried);
    let catch = if param.is_empty() {
        owned("\n} catch {")
    } else {
        cat3("\n} catch (", param, ") {")
    };
    let mid = cat2(&head, &catch);
    let out = append_under(mid, prefix, handler);
    Some(cat2(&out, "\n}"))
}

impl Context {
    /// The name that a catch clause binds; empty where it binds none.
    pub fn binding_str(&self, binding: &Option<Place>) -> (r: String)
        ensures
            r@ == binding_text(self@, *binding),
    {
        match binding {
            Some(p) => self.resolve_place(p),
            None => owned(""),
        }
    }

    pub fn throw_str(&self, value: &Place) -> (r: String)
        ensures
            r@ == throw_stmt(self@, *value),
    {
        let v = self.resolve_place(value);
        cat3("throw ", &v, ";")
    }
}

impl<'a> Walker<'a> {
    pub fn row(&self, b: usize) -> (r: &Vec<Rendered>)
        requires
            self.wf(),
            b < self.blocks@.len(),
        ensures
            row_view(r@) == self@.rows[b as int],
            r@.len() == self.blocks@[b as int].1.instructions@.len(),
    {
        proof {
            assert(rows_view(self.rows@)[b as int] == row_view(self.rows@[b as int]@));
        }
        &self.rows[b]
    }

    /// The value that a block computes.
    pub fn get_block_expr(&self, id: BlockId) -> (r: String)
        requires
            self.wf(),
        ensures
            r@ == block_expr(self@, id),
    {
        let b: usize = match find_block(self.blocks, id) {
            Some(b) => b,
            None => {
                return owned("");
            },
        };
        let instrs = &self.blocks[b].1.instructions;
        let row = self.row(b);
        let ghost view = row_view(row@);
        let mut n: usize = instrs.len();
        while n > 0
            invariant
                n <= instrs@.len(),
                row@.len() == instrs@.len(),
                view == row_view(row@),
                last_unnamed_expr(self@.c, instrs@, view, n as int) == last_unnamed_expr(
                    self@.c,
                    instrs@,
                    view,
                    instrs@.len() as int,
                ),
                self@.rows[b as int] == view,
                instrs@ == self@.blocks[b as int].1.instructions@,
                block_index(self@.blocks, id) == Some(b as int),
            decreases n,
        {
            assert(view[n - 1] == row@[n - 1]@);
            if instrs[n - 1].lvalue.identifier.name.is_none() {
                if let Some(expr) = self.cg.expr_map.get(instrs[n - 1].lvalue.identifier.id.0) {
                    return expr.clone();
                }
                if let Some(expr) = &row[n - 1].expr {
                    return expr.clone();
                }
            }
            n = n - 1;
        }
        let mut m: usize = instrs.len();
        while m > 0
            invariant
                m <= instrs@.len(),
                row@.len() == instrs@.len(),
                view == row_view(row@),
                last_unnamed_expr(self@.c, instrs@, view, instrs@.len() as int) is None,
                last_expr(view, m as int) == last_expr(view, instrs@.len() as int),
                self@.rows[b as int] == view,
                instrs@ == self@.blocks[b as int].1.instructions@,
                block_index(self@.blocks, id) == Some(b as int),
            decreases m,
        {
            assert(view[m - 1] == row@[m - 1]@);
            if let Some(expr) = &row[m - 1].expr {
                return expr.clone();
            }
            m = m - 1;
        }
        owned("")
    }

    /// The value that a test block computes, with the assignments that it makes on the way.
    pub fn get_block_expr_with_assignments(&self, id: BlockId) -> (r: String)
        requires
            self.wf(),
        ensures
            r@ == test_expr(self@, id),
    {
        let b: usize = match find_block(self.blocks, id) {
            Some(b) => b,
            None => {
                return owned("");
            },
        };
        let instrs = &self.blocks[b].1.instructions;
        let mut before = owned("");
        let mut expr = self.get_block_expr(id);
        let ghost start = expr@;
        let mut i: usize = 0;
        while i < instrs.len()
            invariant
                i <= instrs@.len(),
                (Assigning { before: before@, expr: expr@ }) == with_assignments(
                    self@.c,
                    instrs@,
                    start,
                    i as int,
                ),
            decreases instrs@.len() - i,
        {
            if let InstructionValue::StoreLocal { lvalue, value, .. } = &instrs[i].value {
                if lvalue.kind == InstructionKind::Reassign {
                    let name = self.cg.identifier_name(&lvalue.place.identifier);
                    let rhs = self.cg.resolve_place(value);
                    expr = assign_in(&mut before, expr, &name, &rhs);
                }
            }
            i = i + 1;
        }
        cat2(&before, &expr)
    }

    /// The update clause of a `for` loop.
    pub fn get_for_update_expr(&self, id: BlockId) -> (r: String)
        requires
            self.wf(),
        ensures
            r@ == update_expr(self@, id),
    {
        let b: usize = match find_block(self.blocks, id) {
            Some(b) => b,
            None => {
                return owned("");
            },
        };
        let instrs = &self.blocks[b].1.instructions;
        if instrs.len() > 0 {
            if let InstructionValue::StoreLocal { lvalue, value, .. } = &instrs[instrs.len()
                - 1].value {
                if lvalue.kind == InstructionKind::Reassign {
                    let name = self.cg.identifier_name(&lvalue.place.identifier);
                    let rhs = self.cg.resolve_place(value);
                    return cat3(&name, " = ", &rhs);
                }
            }
        }
        self.get_block_expr(id)
    }

    pub fn row_stmts_of(&self, b: usize) -> (r: Vec<String>)
        requires
            self.wf(),
            b < self.blocks@.len(),
        ensures
            texts(r@) == row_stmts(self@.rows[b as int], self@.rows[b as int].len() as int),
    {
        let row = self.row(b);
        let ghost view = row_view(row@);
        let mut out: Vec<String> = Vec::new();
        let mut i: usize = 0;
        while i < row.len()
            invariant
                i <= row@.len(),
                view == row_view(row@),
                texts(out@) == row_stmts(view, i as int),
            decreases row@.len() - i,
        {
            assert(view[i as int] == row@[i as int]@);
            if let Some(s) = &row[i].stmt {
                let t = s.clone();
                out.push(t);
            }
            i = i + 1;
        }
        out
    }

    /// The init clause of a `for` loop.
    pub fn get_for_init_str(&self, id: BlockId) -> (r: String)
        requires
            self.wf(),
        ensures
            r@ == init_clause(self@, id),
    {
        let b: usize = match find_block(self.blocks, id) {
            Some(b) => b,
            None => {
                return owned("");
            },
        };
        let instrs = &self.blocks[b].1.instructions;
        let mut parts: Vec<String> = Vec::new();
        let mut keyword: &'static str = "";
        let mut i: usize = 0;
        while i < instrs.len()
            invariant
                i <= instrs@.len(),
                texts(parts@) == declarators(self@.c, instrs@, i as int),
                parts@.len() == 0 ==> first_keyword(instrs@, i as int) == first_keyword(instrs@, 0),
                parts@.len() > 0 ==> keyword@ == first_keyword(instrs@, 0),
            decreases instrs@.len() - i,
        {
            if let InstructionValue::StoreLocal { lvalue, value, .. } = &instrs[i].value {
                let name = self.cg.identifier_name(&lvalue.place.identifier);
                let val = self.cg.resolve_place(value);
                if parts.len() == 0 {
                    keyword = store_keyword_str(lvalue.kind);
                }
                let part = if same(&val, "undefined") {
                    name
                } else {
                    cat3(&name, " = ", &val)
                };
                parts.push(part);
            }
            i = i + 1;
        }
        if parts.len() == 0 {
            let stmts = self.row_stmts_of(b);
            let all = join(&stmts, " ");
            return strip_trailing(&all, ';');
        }
        let list = join(&parts, ", ");
        if keyword.is_empty() {
            list
        } else {
            cat3(keyword, " ", &list)
        }
    }

    /// The declaration in the head of a for-of or for-in loop, and the number of statements of its
    /// body that it stands for.
    pub fn get_for_in_of_var_decl(&self, id: BlockId) -> (r: (String, usize))
        ensures
            (r.0@, r.1 as nat) == loop_variable(self@, id),
    {
        let b: usize = match find_block(self.blocks, id) {
            Some(b) => b,
            None => {
                return (owned(""), 0);
            },
        };
        let instrs = &self.blocks[b].1.instructions;
        let mut d: usize = 0;
        let mut scanning = true;
        while scanning && d < instrs.len()
            invariant
                d <= instrs@.len(),
                instrs@ == self@.blocks[b as int].1.instructions@,
                block_index(self@.blocks, id) == Some(b as int),
                scanning ==> leading_destructure(instrs@, d as int) == leading_destructure(
                    instrs@,
                    0,
                ),
                !scanning ==> leading_destructure(instrs@, 0) is None,
            decreases instrs@.len() - d,
                if scanning {
                    1int
                } else {
                    0int
                },
        {
            match &instrs[d].value {
                InstructionValue::Primitive { .. } => {
                    d = d + 1;
                },
                InstructionValue::Destructure { lvalue, .. } => {
                    let pattern = self.cg.format_destructure_pattern(&lvalue.pattern);
                    return (cat3(loop_keyword_str(lvalue.kind), " ", &pattern), 1);
                },
                _ => {
                    scanning = false;
                },
            }
        }
        assert(leading_destructure(instrs@, 0) is None);
        self.scan_loop_variable(instrs)
    }

    fn scan_loop_variable(&self, instrs: &Vec<Instruction>) -> (r: (String, usize))
        ensures
            (r.0@, r.1 as nat) == loop_scan(self@.c, instrs@, 0, empty_scan()),
    {
        let mut keys = IdTexts::new();
        let mut objects: HashMap<u32, u32> = HashMap::new();
        let mut parts: Vec<String> = Vec::new();
        let mut keyword: Option<&'static str> = None;
        let mut source: Option<u32> = None;
        let ghost goal = loop_scan(self@.c, instrs@, 0, empty_scan());
        let ghost mut st = empty_scan();
        let mut i: usize = 0;
        let mut done = false;
        while !done && i < instrs.len()
            invariant
                goal == loop_scan(self@.c, instrs@, 0, empty_scan()),
                i <= instrs@.len(),
                st.keys == keys@,
                st.objects == objects@,
                st.parts == texts(parts@),
                st.keyword == (match keyword {
                    Some(k) => Some(k@),
                    None => None,
                }),
                st.source == source,
                forall|k: u32| keys@.contains_key(k) ==> #[trigger] objects@.contains_key(k),
                !done ==> loop_scan(self@.c, instrs@, i as int, st) == goal,
                done ==> scan_result(st) == goal,
            decreases instrs@.len() - i,
                if done {
                    0int
                } else {
                    1int
                },
        {
            let id: u32 = instrs[i].lvalue.identifier.id.0;
            match &instrs[i].value {
                InstructionValue::PropertyLoad { object, property, .. } => {
                    if let PropertyLiteral::String(key) = property {
                        keys.insert(id, key.clone());
                        objects.insert(id, object.identifier.id.0);
                        proof {
                            st = LoopScan {
                                keys: st.keys.insert(id, key@),
                                objects: st.objects.insert(id, object.identifier.id.0),
                                ..st
                            };
                        }
                    }
                    i = i + 1;
                },
                InstructionValue::StoreLocal { lvalue, value, .. } => {
                    let name = self.cg.identifier_name(&lvalue.place.identifier);
                    let first: &'static str = match keyword {
                        Some(k) => k,
                        None => loop_keyword_str(lvalue.kind),
                    };
                    let ghost st1 = LoopScan { keyword: Some(first@), ..st };
                    keyword = Some(first);
                    let from: u32 = value.identifier.id.0;
                    match keys.get(from) {
                        Some(key) => {
                            assert(objects@.contains_key(from));
                            let object: u32 = match objects.get(&from) {
                                Some(o) => *o,
                                None => 0,
                            };
                            let clash = match source {
                                Some(s) => s != object,
                                None => false,
                            };
                            if clash {
                                proof {
                                    st = st1;
                                }
                                done = true;
                            } else {
                                let part = if same(key, &name) || name.as_str().is_empty() {
                                    key.clone()
                                } else {
                                    cat3(key, ": ", &name)
                                };
                                proof {
                                    st = LoopScan {
                                        parts: st1.parts.push(part@),
                                        source: Some(object),
                                        ..st1
                                    };
                                }
                                parts.push(part);
                                source = Some(object);
                                i = i + 1;
                            }
                        },
                        None => {
                            if parts.len() == 0 {
                                return (cat3(first, " ", &name), 1);
                            }
                            proof {
                                st = st1;
                            }
                            done = true;
                        },
                    }
                },
                _ => {
                    if keyword.is_some() {
                        done = true;
                    } else {
                        i = i + 1;
                    }
                },
            }
        }
        assert(scan_result(st) == goal);
        if parts.len() > 0 {
            let list = join(&parts, ", ");
            let word: &'static str = match keyword {
                Some(k) => k,
                None => "const",
            };
            (cat4(word, " { ", &list, " }"), parts.len())
        } else {
            (owned(""), 0)
        }
    }

    /// The statements of the blocks from `id` on.
    pub fn collect_block_stmts_str(&self, depth: usize, id: BlockId) -> (r: Vec<String>)
        requires
            self.wf(),
        ensures
            texts(r@) == block_stmts(self@, depth as nat, id),
        decreases depth, 0nat, 0nat,
    {
        if depth == 0 {
            return Vec::new();
        }
        self.collect_block_stmts_chain(depth - 1, id)
    }

    /// The statements of a loop body, without the `continue;` at its end.
    pub fn collect_loop_body_stmts(&self, depth: usize, id: BlockId) -> (r: Vec<String>)
        requires
            self.wf(),
        ensures
            texts(r@) == body_stmts(self@, depth as nat, id),
        decreases depth, 1nat, 0nat,
    {
        let mut stmts = self.collect_block_stmts_str(depth, id);
        let ghost all = texts(stmts@);
        let n: usize = stmts.len();
        if n > 0 && same(&stmts[n - 1], "continue;") {
            assert(all.last() == stmts@[n - 1]@);
            stmts.pop();
            assert(texts(stmts@) =~= all.drop_last());
        }
        stmts
    }

    /// Follows a chain of blocks and collects their statements.
    pub fn collect_block_stmts_chain(&self, depth: usize, start: BlockId) -> (r: Vec<String>)
        requires
            self.wf(),
        ensures
            texts(r@) == chain(self@, depth as nat, start, Seq::empty(), Set::empty()),
        decreases depth, 5nat, 0nat,
    {
        let mut stmts: Vec<String> = Vec::new();
        let mut visited = IdSet::new();
        let mut id: BlockId = start;
        let ghost goal = chain(self@, depth as nat, start, Seq::empty(), Set::empty());
        loop
            invariant
                self.wf(),
                goal == chain(self@, depth as nat, start, Seq::empty(), Set::empty()),
                chain(self@, depth as nat, id, texts(stmts@), visited@) == goal,
            decreases unvisited(self.blocks@, visited@),
        {
            let ghost seen = visited@;
            let ghost before = texts(stmts@);
            if !visited.insert(id.0) {
                return stmts;
            }
            let b: usize = match find_block(self.blocks, id) {
                Some(b) => b,
                None => {
                    return stmts;
                },
            };
            proof {
                lemma_unvisited_shrinks(self.blocks@, seen, id, self.blocks@.len() as int);
            }
            let mut own = self.row_stmts_of(b);
            let ghost own_stmts = stmts@;
            let ghost own_more = own@;
            stmts.append(&mut own);
            proof {
                crate::text::lemma_texts_add(own_stmts, own_more);
            }
            let terminal = &self.blocks[b].1.terminal;
            if let Some(s) = self.chain_stmt_str(depth, terminal) {
                stmts.push(s);
            }
            match next_block_of(terminal) {
                Some(next) => {
                    id = next;
                },
                None => {
                    return stmts;
                },
            }
        }
    }

    fn chain_stmt_str(&self, depth: usize, terminal: &Terminal) -> (r: Option<String>)
        requires
            self.wf(),
        ensures
            option_text(r) == chain_stmt(self@, depth as nat, *terminal),
        decreases depth, 4nat, 0nat,
    {
        match terminal {
            Terminal::Return { value, .. } => {
                let v = self.cg.resolve_place(value);
                if same(&v, "undefined") {
                    Some(owned("return;"))
                } else {
                    Some(cat3("return ", &v, ";"))
                }
            },
            Terminal::Goto { block, variant } => {
                if *variant == GotoVariant::Break && self.cg.loop_fallthrough_blocks.contains(
                    block.0,
                ) {
                    Some(owned("break;"))
                } else if *variant == GotoVariant::Continue && self.cg.loop_test_blocks.contains(
                    block.0,
                ) {
                    Some(owned("continue;"))
                } else {
                    None
                }
            },
            Terminal::Switch { .. } => None,
            _ => self.terminal_stmt_str(depth, terminal, false),
        }
    }

    /// An `if` statement; `None` where both branches are empty.
    pub fn emit_if_terminal(
        &self,
        depth: usize,
        test: &Place,
        consequent: BlockId,
        alternate: BlockId,
        fallthrough: BlockId,
    ) -> (r: Option<String>)
        requires
            self.wf(),
        ensures
            option_text(r) == if_text(
                place_text(self@.c, *test),
                block_stmts(self@, depth as nat, consequent),
                if alternate == fallthrough {
                    Seq::empty()
                } else {
                    block_stmts(self@, depth as nat, alternate)
                },
            ),
        decreases depth, 1nat, 0nat,
    {
        let t = self.cg.resolve_place(test);
        let cons = self.collect_block_stmts_str(depth, consequent);
        let alt: Vec<String> = if alternate == fallthrough {
            Vec::new()
        } else {
            self.collect_block_stmts_str(depth, alternate)
        };
        if_str(&t, &cons, &alt)
    }

    fn for_each_str(
        &self,
        depth: usize,
        init: BlockId,
        loop_block: BlockId,
        word: &str,
        nested: bool,
    ) -> (r: String)
        requires
            self.wf(),
        ensures
            r@ == ({
                let v = loop_variable(self@, loop_block);
                braced(
                    "for ("@ + v.0 + word@ + block_expr(self@, init) + ") {"@,
                    loop_rest(v.0, v.1, body_stmts(self@, depth as nat, loop_block), nested),
                )
            }),
        decreases depth, 2nat, 0nat,
    {
        let init_expr = self.get_block_expr(init);
        let body = self.collect_loop_body_stmts(depth, loop_block);
        let (decl, skip) = self.get_for_in_of_var_decl(loop_block);
        let rest = loop_rest_of(&decl, skip, body, nested);
        let head = cat5("for (", &decl, word, &init_expr, ") {");
        braced_str(head, &rest)
    }

    fn switch_str(&self, depth: usize, test: &Place, cases: &Vec<SwitchCase>, nested: bool) -> (r:
        String)
        requires
            self.wf(),
        ensures
            r@ == cases_text(
                self@,
                depth as nat,
                "switch ("@ + place_text(self@.c, *test) + ") {"@,
                cases@,
                cases@.len() as int,
                nested,
            ) + "\n}"@,
        decreases depth, 2nat, 0nat,
    {
        let t = self.cg.resolve_place(test);
        let mut out = cat3("switch (", &t, ") {");
        let ghost head = out@;
        let mut i: usize = 0;
        while i < cases.len()
            invariant
                self.wf(),
                i <= cases@.len(),
                out@ == cases_text(self@, depth as nat, head, cases@, i as int, nested),
            decreases cases@.len() - i,
        {
            let body = self.collect_loop_body_stmts(depth, cases[i].block);
            let indent = if nested {
                "\n"
            } else {
                "\n  "
            };
            let label = match &cases[i].test {
                Some(p) => {
                    let v = self.cg.resolve_place(p);
                    cat5(&out, indent, "case ", &v, ":")
                },
                None => cat3(&out, indent, "default:"),
            };
            let prefix = if nested {
                "\n  "
            } else {
                "\n    "
            };
            out = append_under(label, prefix, &body);
            i = i + 1;
        }
        cat2(&out, "\n}")
    }

    /// The structured statement for a terminal.
    pub fn terminal_stmt_str(&self, depth: usize, terminal: &Terminal, nested: bool) -> (r: Option<
        String,
    >)
        requires
            self.wf(),
        ensures
            option_text(r) == terminal_stmt(self@, depth as nat, *terminal, nested),
        decreases depth, 3nat, 0nat,
    {
        match terminal {
            Terminal::For { init, test, update, loop_block, .. } => {
                let i = self.get_for_init_str(*init);
                let t = self.get_block_expr_with_assignments(*test);
                let u = match update {
                    Some(u) => self.get_for_update_expr(*u),
                    None => owned(""),
                };
                let body = self.collect_loop_body_stmts(depth, *loop_block);
                let head = cat7("for (", &i, "; ", &t, "; ", &u, ") {");
                Some(braced_str(head, &body))
            },
            Terminal::ForOf { init, loop_block, .. } => Some(
                self.for_each_str(depth, *init, *loop_block, " of ", nested),
            ),
            Terminal::ForIn { init, loop_block, .. } => Some(
                self.for_each_str(depth, *init, *loop_block, " in ", nested),
            ),
            Terminal::While { test, loop_block, .. } => {
                let t = self.get_block_expr_with_assignments(*test);
                let body = self.collect_loop_body_stmts(depth, *loop_block);
                let head = cat3("while (", &t, ") {");
                Some(braced_str(head, &body))
            },
            Terminal::DoWhile { test, loop_block, .. } => {
                let t = self.get_block_expr_with_assignments(*test);
                let body = self.collect_loop_body_stmts(depth, *loop_block);
                let open = owned("do {");
                let out = append_under(open, "\n  ", &body);
                Some(cat4(&out, "\n} while (", &t, ");"))
            },
            Terminal::If { test, consequent, alternate, fallthrough } => {
                self.emit_if_terminal(depth, test, *consequent, *alternate, *fallthrough)
            },
            Terminal::Branch { test, consequent, alternate, fallthrough } => {
                self.emit_if_terminal(depth, test, *consequent, *alternate, *fallthrough)
            },
            Terminal::Try { block, handler_binding, handler, .. } => {
                let tried = self.collect_loop_body_stmts(depth, *block);
                let caught = self.collect_loop_body_stmts(depth, *handler);
                let param = self.cg.binding_str(handler_binding);
                let prefix = if nested {
                    "\n"
                } else {
                    "\n  "
                };
                try_str(&tried, &param, &caught, prefix)
            },
            Terminal::Switch { test, cases, .. } => {
                Some(self.switch_str(depth, test, cases, nested))
            },
            Terminal::Throw { value } => Some(self.cg.throw_str(value)),
            _ => None,
        }
    }
}

fn next_block_of(terminal: &Terminal) -> (r: Option<BlockId>)
    ensures
        r == next_block(*terminal),
{
    match terminal {
        Terminal::For { fallthrough, .. } => Some(*fallthrough),
        Terminal::ForOf { fallthrough, .. } => Some(*fallthrough),
        Terminal::ForIn { fallthrough, .. } => Some(*fallthrough),
        Terminal::While { fallthrough, .. } => Some(*fallthrough),
        Terminal::DoWhile { fallthrough, .. } => Some(*fallthrough),
        Terminal::If { fallthrough, .. } => Some(*fallthrough),
        Terminal::Branch { fallthrough, .. } => Some(*fallthrough),
        Terminal::Try { fallthrough, .. } => Some(*fallthrough),
        Terminal::Goto { block, variant } => if *variant == GotoVariant::Try {
            Some(*block)
        } else {
            None
        },
        _ => None,
    }
}

} // verus!

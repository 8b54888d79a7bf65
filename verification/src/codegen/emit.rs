//! Functions with one memoized block, or with none.

use vstd::prelude::*;

use crate::codegen::analyze::{insert_params, maybe_text, with_params, Gen, Generator};
use crate::codegen::blocks::{
    binding_text, body_stmts, full_depth, option_text, row_stmts, row_view, terminal_stmt,
    Rendering, Walk, Walker,
};
use crate::codegen::classify::{
    call_known, calls_global, hook_stmt, is_pre_scope_instruction, is_side_effect_only_call,
    outlined_store, post_scope, pre_scope, readonly_call,
};
use crate::codegen::context::{
    name_text, place_text, temp_name_of, temp_text, Context, Ctx,
};
use crate::codegen::deps::{dep_aliases, find_scope_deps, param_names, reactive_deps, scope_deps};
use crate::codegen::escape::{
    escapes, returns_primitive, returns_primitive_value, trivial_body,
};
use crate::codegen::filter::{find_memo_filter, memo_filter};
use crate::codegen::flow::result_id;
use crate::codegen::inner::walk_of;
use crate::codegen::lines::{
    add_line, add_lines, add_slots, add_stmts, all_at, assign_stmt, assign_stmt_str, cache_stmt,
    cache_stmt_str, let_stmt, let_stmt_str, line_views, memo_head, memo_head_str, return_line,
    slot_load_strs, slot_loads, slot_store_strs, slot_stores, slot_sum, Line,
};
use crate::codegen::outputs::{
    collect_extra_scope_outputs, extra_outputs, find_least_start, find_scope_ranges, least_start,
    scope_ranges,
};
use crate::codegen::owned::{find_owned_blocks, find_try_wrapper, owned_blocks, try_wrapper};
use crate::codegen::print::{reorder_declarations, reordered};
use crate::codegen::reads::{build_consumed_ids, consumed_ids};
use crate::codegen::scopes::{
    drop_lets, multi_scope_lines, return_lines, scope_views, scopes_of, without_lets, write_return,
};
use crate::collections::{renamed_to, IdSet, NameMap, NameSet};
use crate::graph::{instructions, instructions_of, pointees};
use crate::hir::{HIRFunction, Instruction, InstructionValue, ReturnVariant, Terminal};
use crate::sorting::holds_text;
use crate::text::{
    ascii_alphanumeric, cat2, cat3, chars_of, contains, extend_texts, has_infix, has_prefix,
    is_ascii_alphanumeric, owned, same, starts_with, texts,
};

verus! {

broadcast use crate::text::group_texts;

// ---------------------------------------------------------------------------
// Where each statement goes
// ---------------------------------------------------------------------------

/// What decides where a statement goes.
pub struct Setting {
    /// Where the first scope starts.
    pub start: Option<u32>,
    /// The results of loads of globals.
    pub globals: Set<u32>,
    /// The parameters and globals.
    pub given: Set<u32>,
    /// The results that something uses.
    pub consumed: Set<u32>,
    pub instrs: Seq<Instruction>,
    /// The variable that takes over the memoized result behind the block.
    pub demoted: Option<Seq<char>>,
    /// The variable that holds the memoized result.
    pub memo_var: Seq<char>,
}

/// The statements of a function, by where they go.
#[verifier::ext_equal]
pub struct Plan {
    /// In front of the memoized block.
    pub pre: Seq<Seq<char>>,
    /// In the memoized block.
    pub memo: Seq<Seq<char>>,
    /// Behind it.
    pub post: Seq<Seq<char>>,
    /// All of them in the order of the source.
    pub in_order: Seq<Seq<char>>,
    /// The instructions that are not in the block.
    pub outside: Set<u32>,
    /// What is known in front of the block.
    pub known: Set<u32>,
    /// Statements that can move in front of the block.
    pub movable: Set<Seq<char>>,
    /// The value that is returned.
    pub ret: Option<Seq<char>>,
}

/// `ids` and what the first `n` instructions load from globals.
pub open spec fn with_globals(ids: Set<u32>, instrs: Seq<Instruction>, n: int) -> Set<u32>
    decreases n,
{
    if n <= 0 {
        ids
    } else {
        let front = with_globals(ids, instrs, n - 1);
        if instrs[n - 1].value is LoadGlobal {
            front.insert(result_id(instrs[n - 1]))
        } else {
            front
        }
    }
}

/// Where the first scope of a function starts.
pub open spec fn first_start(instrs: Seq<Instruction>) -> Option<u32> {
    let ranges = scope_ranges(instrs, instrs.len() as int).0;
    if ranges.len() == 0 {
        None
    } else {
        Some(least_start(ranges, ranges[0].0, ranges.len() as int))
    }
}

/// The variable that holds the memoized result.
pub open spec fn memo_var(g: Gen) -> Seq<char> {
    match g.promoted {
        Some(name) => name,
        None => temp_text(g.temp_start as nat),
    }
}

/// The variable that takes over the memoized result behind the block.
pub open spec fn demoted_var(g: Gen) -> Option<Seq<char>> {
    if g.scope_output && g.promoted is None {
        g.post_return
    } else {
        None
    }
}

pub open spec fn setting(g: Gen, func: HIRFunction) -> Setting {
    let instrs = instructions(func);
    let n = instrs.len() as int;
    Setting {
        start: first_start(instrs),
        globals: with_globals(Set::empty(), instrs, n),
        given: given_ids(func, instrs),
        consumed: consumed_ids(func),
        instrs,
        demoted: demoted_var(g),
        memo_var: memo_var(g),
    }
}

/// The value that an instruction stores in the variable that takes over the memoized result.
pub open spec fn demotes(c: Ctx, demoted: Option<Seq<char>>, instr: Instruction) -> Option<Seq<char>> {
    match demoted {
        None => None,
        Some(var) => match instr.value {
            InstructionValue::StoreLocal { lvalue, value, .. } => if name_text(
                c,
                lvalue.place.identifier,
            ) == var {
                Some(place_text(c, value))
            } else {
                None
            },
            _ => None,
        },
    }
}

pub open spec fn goes_behind(g: Gen, instr: Instruction) -> bool {
    (g.scope_output && post_scope(g.c, instr, g.promoted)) || readonly_call(g.c, instr, g.promoted)
}

pub open spec fn goes_in_front(g: Gen, e: Setting, known: Set<u32>, instr: Instruction) -> bool {
    hook_stmt(g.c, instr) || outlined_store(g.c, e.instrs, instr) || pre_scope(
        e.start,
        known,
        instr,
    )
}

/// Whether a call can move in front of the block: nothing uses its result, it calls a global, and its
/// arguments are known there.
pub open spec fn can_move(g: Gen, e: Setting, instr: Instruction) -> bool {
    calls_global(e.globals, instr) && !e.consumed.contains(result_id(instr)) && call_known(
        g.c,
        e.given,
        instr,
    )
}

/// The plan with one instruction more, which is written as `stmt`.
pub open spec fn with_stmt(
    p: Plan,
    g: Gen,
    e: Setting,
    instr: Instruction,
    stmt: Option<Seq<char>>,
) -> Plan {
    match demotes(g.c, e.demoted, instr) {
        Some(value) => Plan { memo: p.memo.push(assign_stmt(e.memo_var, value)), ..p },
        None => match stmt {
            None => p,
            Some(s) => {
                let q = Plan { in_order: p.in_order.push(s), ..p };
                if g.skip_memo {
                    Plan { memo: q.memo.push(s), ..q }
                } else if goes_behind(g, instr) {
                    Plan { post: q.post.push(s), outside: q.outside.insert(instr.id.0), ..q }
                } else if goes_in_front(g, e, p.known, instr) {
                    Plan {
                        pre: q.pre.push(s),
                        outside: q.outside.insert(instr.id.0),
                        known: q.known.insert(result_id(instr)),
                        ..q
                    }
                } else {
                    Plan {
                        memo: q.memo.push(s),
                        movable: if can_move(g, e, instr) {
                            q.movable.insert(s)
                        } else {
                            q.movable
                        },
                        ..q
                    }
                }
            },
        },
    }
}

pub open spec fn with_row(
    p: Plan,
    g: Gen,
    e: Setting,
    instrs: Seq<Instruction>,
    row: Seq<Rendering>,
    n: int,
) -> Plan
    decreases n,
{
    if n <= 0 {
        p
    } else {
        with_stmt(with_row(p, g, e, instrs, row, n - 1), g, e, instrs[n - 1], row[n - 1].stmt)
    }
}

/// The statement for a terminal. The `try` around the whole body is none.
pub open spec fn outer_stmt(w: Walk, owned: Set<u32>, wrapped: bool, terminal: Terminal) -> Option<
    Seq<char>,
> {
    match terminal {
        Terminal::Try { block, .. } => if wrapped && !owned.contains(block.0) {
            None
        } else {
            terminal_stmt(w, full_depth(w.blocks), terminal, false)
        },
        _ => terminal_stmt(w, full_depth(w.blocks), terminal, false),
    }
}

/// The value that a terminal returns.
pub open spec fn returned_text(c: Ctx, terminal: Terminal) -> Option<Seq<char>> {
    match terminal {
        Terminal::Return { value, return_variant } => if return_variant == ReturnVariant::Void {
            None
        } else {
            Some(place_text(c, value))
        },
        _ => None,
    }
}

pub open spec fn with_terminal(p: Plan, stmt: Option<Seq<char>>, ret: Option<Seq<char>>) -> Plan {
    let q = match stmt {
        Some(s) => Plan { memo: p.memo.push(s), in_order: p.in_order.push(s), ..p },
        None => p,
    };
    match ret {
        Some(r) => Plan { ret: Some(r), ..q },
        None => q,
    }
}

pub open spec fn empty_plan(given: Set<u32>) -> Plan {
    Plan {
        pre: Seq::empty(),
        memo: Seq::empty(),
        post: Seq::empty(),
        in_order: Seq::empty(),
        outside: Set::empty(),
        known: given,
        movable: Set::empty(),
        ret: None,
    }
}

/// The plan with the first `n` blocks that stand on their own.
pub open spec fn planned(
    g: Gen,
    e: Setting,
    w: Walk,
    owned: Set<u32>,
    wrapped: bool,
    n: int,
) -> Plan
    decreases n,
{
    if n <= 0 {
        empty_plan(e.given)
    } else {
        let front = planned(g, e, w, owned, wrapped, n - 1);
        let block = w.blocks[n - 1].1;
        if owned.contains(block.id.0) {
            front
        } else {
            with_terminal(
                with_row(
                    front,
                    g,
                    e,
                    block.instructions@,
                    w.rows[n - 1],
                    block.instructions@.len() as int,
                ),
                outer_stmt(w, owned, wrapped, block.terminal),
                returned_text(w.c, block.terminal),
            )
        }
    }
}

/// The statement for a terminal where statements are collected anew: `switch` and `throw` are none.
pub open spec fn rebuilt_stmt(w: Walk, owned: Set<u32>, wrapped: bool, terminal: Terminal) -> Option<
    Seq<char>,
> {
    match terminal {
        Terminal::Switch { .. } => None,
        Terminal::Throw { .. } => None,
        _ => outer_stmt(w, owned, wrapped, terminal),
    }
}

/// The statements of the first `n` blocks that stand on their own, in the order of the source.
pub open spec fn rebuilt(w: Walk, owned: Set<u32>, wrapped: bool, n: int) -> Seq<Seq<char>>
    decreases n,
{
    if n <= 0 {
        Seq::empty()
    } else {
        let front = rebuilt(w, owned, wrapped, n - 1);
        let block = w.blocks[n - 1].1;
        if owned.contains(block.id.0) {
            front
        } else {
            let stmts = front + row_stmts(w.rows[n - 1], w.rows[n - 1].len() as int);
            match rebuilt_stmt(w, owned, wrapped, block.terminal) {
                Some(s) => stmts.push(s),
                None => stmts,
            }
        }
    }
}

// ---------------------------------------------------------------------------
// Lists of statements
// ---------------------------------------------------------------------------

/// Those of the first `n` texts that are in the set (with `inside`) or outside of it.
pub open spec fn selected(s: Seq<Seq<char>>, set: Set<Seq<char>>, inside: bool, n: int) -> Seq<
    Seq<char>,
>
    decreases n,
{
    if n <= 0 {
        Seq::empty()
    } else {
        let front = selected(s, set, inside, n - 1);
        if set.contains(s[n - 1]) == inside {
            front.push(s[n - 1])
        } else {
            front
        }
    }
}

/// Those of the first `n` texts that `list` holds too.
pub open spec fn kept(s: Seq<Seq<char>>, list: Seq<Seq<char>>, n: int) -> Seq<Seq<char>>
    decreases n,
{
    if n <= 0 {
        Seq::empty()
    } else {
        let front = kept(s, list, n - 1);
        if list.contains(s[n - 1]) {
            front.push(s[n - 1])
        } else {
            front
        }
    }
}

pub open spec fn aliased(aliases: Seq<(Seq<char>, Seq<char>)>, dep: Seq<char>) -> Seq<char> {
    match renamed_to(aliases, dep) {
        Some(a) => a,
        None => dep,
    }
}

pub open spec fn ascii_name(s: Seq<char>) -> bool {
    forall|i: int|
        0 <= i < s.len() ==> ascii_alphanumeric(#[trigger] s[i]) || s[i] == '_' || s[i] == '$'
}

pub open spec fn assigns(stmt: Seq<char>, name: Seq<char>) -> bool {
    has_prefix(stmt, name + " = "@) || has_infix(stmt, " "@ + name + " = "@)
}

/// Whether the returned value is a variable that is declared and never assigned.
pub open spec fn never_assigned(stmts: Seq<Seq<char>>, ret: Seq<char>) -> bool {
    ascii_name(ret) && stmts.contains(let_stmt(ret)) && !(exists|i: int|
        0 <= i < stmts.len() && assigns(#[trigger] stmts[i], ret))
}

/// Statements and returned value; a variable that is declared and never assigned is not returned.
pub open spec fn without_empty_return(stmts: Seq<Seq<char>>, ret: Option<Seq<char>>) -> (
    Seq<Seq<char>>,
    Option<Seq<char>>,
) {
    match ret {
        Some(r) => if never_assigned(stmts, r) {
            (without_lets(stmts, seq![r], stmts.len() as int), None)
        } else {
            (stmts, ret)
        },
        None => (stmts, ret),
    }
}

// ---------------------------------------------------------------------------
// Lines
// ---------------------------------------------------------------------------

/// The lines that close the `try` around the body.
pub open spec fn catch_lines(param: Seq<char>, handler: Seq<Seq<char>>) -> Seq<Line> {
    seq![
        (
            1nat,
            if param.len() == 0 {
                "} catch {"@
            } else {
                "} catch ("@ + param + ") {"@
            },
        ),
    ] + all_at(2, handler) + seq![(1nat, "}"@)]
}

/// What the `try` around the body does where something was thrown.
pub open spec fn handler_of(w: Walk, wrapper: Option<int>) -> Option<(Seq<char>, Seq<Seq<char>>)> {
    match wrapper {
        None => None,
        Some(b) => match w.blocks[b].1.terminal {
            Terminal::Try { handler_binding, handler, .. } => Some(
                (
                    binding_text(w.c, handler_binding),
                    body_stmts(w, full_depth(w.blocks), handler),
                ),
            ),
            _ => None,
        },
    }
}

/// How deep the body of the function is indented.
pub open spec fn body_indent(wrapped: bool) -> nat {
    if wrapped {
        2
    } else {
        1
    }
}

/// The lines with the `try` around them.
pub open spec fn wrapped_lines(lines: Seq<Line>, handler: Option<(Seq<char>, Seq<Seq<char>>)>) -> Seq<
    Line,
> {
    match handler {
        Some(h) => seq![(1nat, "try {"@)] + lines + catch_lines(h.0, h.1),
        None => lines,
    }
}

/// A memoized block: what it is called, what it depends on, what is in it and what it hands out.
pub struct Memo {
    pub cache: Seq<char>,
    pub var: Seq<char>,
    pub deps: Seq<Seq<char>>,
    pub extra: Seq<Seq<char>>,
    pub stmts: Seq<Seq<char>>,
    /// The value of the result, where the statements do not assign it.
    pub value: Option<Seq<char>>,
}

/// The statement that assigns the result, where there is one.
pub open spec fn value_lines(indent: nat, m: Memo) -> Seq<Line> {
    match m.value {
        Some(v) => seq![(indent, assign_stmt(m.var, v))],
        None => Seq::empty(),
    }
}

/// The slots of a memoized block: the dependencies, the result and the other outputs.
pub open spec fn memo_slots(m: Memo) -> u64 {
    slot_sum(slot_sum(m.deps.len() as u64, 1), m.extra.len() as u64)
}

/// The results of a memoized block.
pub open spec fn memo_results(m: Memo) -> Seq<Seq<char>> {
    seq![m.var] + m.extra
}

/// The lines of a memoized block.
pub open spec fn memo_lines(indent: nat, m: Memo) -> Seq<Line> {
    let n = m.deps.len() as u64;
    let body = without_lets(m.stmts, memo_results(m), m.stmts.len() as int);
    seq![(indent, let_stmt(m.var))] + seq![(indent, memo_head(m.cache, 0, m.deps))] + all_at(
        indent + 1,
        body,
    ) + value_lines(indent + 1, m) + all_at(indent + 1, slot_stores(m.cache, 0, m.deps)) + all_at(
        indent + 1,
        slot_stores(m.cache, n, memo_results(m)),
    ) + seq![(indent, "} else {"@)] + all_at(
        indent + 1,
        slot_loads(m.cache, n, memo_results(m)),
    ) + seq![(indent, "}"@)]
}

/// The dependencies of the memoized block.
pub open spec fn memo_deps(c: Ctx, func: HIRFunction, outside: Set<u32>) -> Seq<Seq<char>> {
    let instrs = instructions(func);
    let n = func.params@.len() as int;
    let by_use = reactive_deps(c, func, None);
    let found = if by_use.len() == 0 {
        match scope_deps(func) {
            Some(d) => d,
            None => by_use,
        }
    } else {
        by_use
    };
    let filtered = match memo_filter(instrs, outside) {
        Some(f) => kept(found, reactive_deps(c, func, Some(f)), found.len() as int),
        None => found,
    };
    let aliases = dep_aliases(c, param_names(func.params@, n), instrs, instrs.len() as int);
    filtered.map_values(|d: Seq<char>| aliased(aliases, d))
}

/// Whether memoizing the function is worth while.
pub open spec fn needs_memo(g: Gen, func: HIRFunction, p: Plan) -> bool {
    (p.memo.len() > 0 || (p.ret is Some && p.ret != Some("undefined"@))) && !trivial_body(
        g.c,
        func,
        p.memo.len() == 0 && p.ret is None,
    ) && escapes(g.c, func) && !returns_primitive(func)
}

/// The variable that is returned.
pub open spec fn return_var(g: Gen) -> Seq<char> {
    if g.scope_output {
        match g.post_return {
            Some(v) => v,
            None => memo_var(g),
        }
    } else {
        memo_var(g)
    }
}

/// The memoized block of a function.
pub open spec fn memo_of(g: Gen, func: HIRFunction, p: Plan) -> Memo {
    let stmts = reordered(p.memo);
    Memo {
        cache: g.cache_var,
        var: memo_var(g),
        deps: memo_deps(g.c, func, p.outside),
        extra: extra_outputs(func, memo_var(g)).0,
        stmts: selected(stmts, p.movable, false, stmts.len() as int),
        value: if demoted_var(g) is Some || g.promoted is Some {
            None
        } else {
            p.ret
        },
    }
}

/// The context in which the result of the memoized block is declared.
pub open spec fn memo_declared(g: Gen) -> Ctx {
    Ctx { declared: g.c.declared.insert(memo_var(g)), ..g.c }
}

/// The lines of a function with a memoized block, and the number of slots.
pub open spec fn memoized_lines(g: Gen, func: HIRFunction, p: Plan, wrapper: Option<int>) -> (
    Seq<Line>,
    u64,
) {
    let stmts = reordered(p.memo);
    let m = memo_of(g, func, p);
    let b = body_indent(wrapper is Some);
    let behind = match demoted_var(g) {
        Some(v) => seq![(b, "const "@ + v + " = "@ + memo_var(g) + ";"@)],
        None => Seq::empty(),
    };
    let body = memo_lines(b, m) + all_at(b, p.post) + behind + seq![(b, return_line(return_var(g)))];
    (
        seq![(1nat, cache_stmt(g.cache_var, memo_slots(m)))] + all_at(1, p.pre) + all_at(
            1,
            selected(stmts, p.movable, true, stmts.len() as int),
        ) + wrapped_lines(body, handler_of(walk_of(memo_declared(g), func), wrapper)),
        memo_slots(m),
    )
}

/// Whether the statements were written for a memoized result and, without one, are written again.
pub open spec fn written_again(g: Gen) -> bool {
    g.c.promoted != Set::<u32>::empty() || demoted_var(g) is Some
}

/// The context in which a function without a memoized block is written.
pub open spec fn plain_context(g: Gen) -> Ctx {
    if written_again(g) {
        Ctx { promoted: Set::empty(), ..g.c }
    } else {
        g.c
    }
}

/// The lines of a function without a memoized block.
pub open spec fn plain_lines(g: Gen, func: HIRFunction, p: Plan, wrapper: Option<int>) -> Seq<Line> {
    let b = body_indent(wrapper is Some);
    let w = walk_of(plain_context(g), func);
    let stmts = if written_again(g) {
        rebuilt(
            w,
            owned_blocks(w.blocks, wrapper),
            wrapper is Some,
            w.blocks.len() as int,
        )
    } else {
        p.in_order
    };
    let r = without_empty_return(reordered(stmts), p.ret);
    wrapped_lines(all_at(b, r.0) + return_lines(b, r.1), handler_of(w, wrapper))
}

/// The plan for a function with at most one scope.
pub open spec fn plan_of(g: Gen, func: HIRFunction) -> Plan {
    let blocks = func.body.blocks@;
    let wrapper = try_wrapper(blocks, 0);
    planned(
        g,
        setting(g, func),
        walk_of(g.c, func),
        owned_blocks(blocks, wrapper),
        wrapper is Some,
        blocks.len() as int,
    )
}

/// The lines of a function, and the number of slots that it needs.
pub open spec fn function_lines(g: Gen, func: HIRFunction) -> (Seq<Line>, u64) {
    if !g.skip_memo && scopes_of(g.c, func).len() > 1 {
        multi_scope_lines(g, func)
    } else {
        let p = plan_of(g, func);
        let wrapper = try_wrapper(func.body.blocks@, 0);
        if !g.skip_memo && p.ret is Some && needs_memo(g, func, p) {
            memoized_lines(g, func, p, wrapper)
        } else {
            (plain_lines(g, func, p, wrapper), 0)
        }
    }
}

/// The generator once the lines of a function are written: the memoized result is declared, or nothing
/// is stored in one.
pub open spec fn after_lines(g: Gen, func: HIRFunction) -> Gen {
    if !g.skip_memo && scopes_of(g.c, func).len() > 1 {
        g
    } else {
        let p = plan_of(g, func);
        if !g.skip_memo && p.ret is Some && needs_memo(g, func, p) {
            Gen { c: memo_declared(g), ..g }
        } else {
            Gen { c: plain_context(g), ..g }
        }
    }
}

// ---------------------------------------------------------------------------
// Execution
// ---------------------------------------------------------------------------

/// What decides where a statement goes.
pub struct Surroundings<'a> {
    pub start: Option<u32>,
    pub globals: IdSet,
    pub given: IdSet,
    pub consumed: IdSet,
    pub instrs: Vec<&'a Instruction>,
    pub demoted: Option<String>,
    pub memo_var: String,
}

impl<'a> View for Surroundings<'a> {
    type V = Setting;

    open spec fn view(&self) -> Setting {
        Setting {
            start: self.start,
            globals: self.globals@,
            given: self.given@,
            consumed: self.consumed@,
            instrs: pointees(self.instrs@),
            demoted: maybe_text(self.demoted),
            memo_var: self.memo_var@,
        }
    }
}

/// The statements of a function, by where they go.
pub struct Planner {
    pub pre_memo_stmts: Vec<String>,
    pub memo_stmts: Vec<String>,
    pub post_scope_stmts: Vec<String>,
    pub all_stmts_in_order: Vec<String>,
    pub pre_scope_instr_ids: IdSet,
    pub known: IdSet,
    pub side_effect_hoistable: NameSet,
    pub return_expr: Option<String>,
}

impl View for Planner {
    type V = Plan;

    open spec fn view(&self) -> Plan {
        Plan {
            pre: texts(self.pre_memo_stmts@),
            memo: texts(self.memo_stmts@),
            post: texts(self.post_scope_stmts@),
            in_order: texts(self.all_stmts_in_order@),
            outside: self.pre_scope_instr_ids@,
            known: self.known@,
            movable: self.side_effect_hoistable@,
            ret: maybe_text(self.return_expr),
        }
    }
}

fn insert_globals(ids: &mut IdSet, instrs: &Vec<&Instruction>)
    ensures
        final(ids)@ == with_globals(old(ids)@, pointees(instrs@), instrs@.len() as int),
{
    let ghost start = ids@;
    let ghost all = pointees(instrs@);
    let mut i: usize = 0;
    while i < instrs.len()
        invariant
            all == pointees(instrs@),
            i <= instrs@.len(),
            ids@ == with_globals(start, all, i as int),
        decreases instrs@.len() - i,
    {
        if let InstructionValue::LoadGlobal { .. } = &instrs[i].value {
            ids.insert(instrs[i].lvalue.identifier.id.0);
        }
        i = i + 1;
    }
}

fn find_first_start(instrs: &Vec<&Instruction>) -> (r: Option<u32>)
    ensures
        r == first_start(pointees(instrs@)),
{
    let ranges = find_scope_ranges(instrs);
    assert(pointees(instrs@).len() == instrs@.len());
    if ranges.len() == 0 {
        None
    } else {
        Some(find_least_start(&ranges, ranges[0].0))
    }
}

fn select_texts(v: &Vec<String>, set: &NameSet, inside: bool) -> (r: Vec<String>)
    ensures
        texts(r@) == selected(texts(v@), set@, inside, v@.len() as int),
{
    let mut out: Vec<String> = Vec::new();
    let mut i: usize = 0;
    while i < v.len()
        invariant
            i <= v@.len(),
            texts(out@) == selected(texts(v@), set@, inside, i as int),
        decreases v@.len() - i,
    {
        assert(texts(v@)[i as int] == v@[i as int]@);
        if set.contains(&v[i]) == inside {
            out.push(v[i].clone());
        }
        i = i + 1;
    }
    out
}

fn keep_texts(v: &Vec<String>, list: &Vec<String>) -> (r: Vec<String>)
    ensures
        texts(r@) == kept(texts(v@), texts(list@), v@.len() as int),
{
    let mut out: Vec<String> = Vec::new();
    let mut i: usize = 0;
    while i < v.len()
        invariant
            i <= v@.len(),
            texts(out@) == kept(texts(v@), texts(list@), i as int),
        decreases v@.len() - i,
    {
        assert(texts(v@)[i as int] == v@[i as int]@);
        if holds_text(list, &v[i]) {
            out.push(v[i].clone());
        }
        i = i + 1;
    }
    out
}

fn use_aliases(v: &Vec<String>, aliases: &NameMap) -> (r: Vec<String>)
    ensures
        texts(r@) == texts(v@).map_values(|d: Seq<char>| aliased(aliases@, d)),
{
    let mut out: Vec<String> = Vec::new();
    let mut i: usize = 0;
    while i < v.len()
        invariant
            i <= v@.len(),
            out@.len() == i,
            forall|k: int| 0 <= k < i ==> (#[trigger] out@[k])@ == aliased(aliases@, v@[k]@),
        decreases v@.len() - i,
    {
        let dep = match aliases.get(&v[i]) {
            Some(a) => a.clone(),
            None => v[i].clone(),
        };
        out.push(dep);
        i = i + 1;
    }
    proof {
        assert(texts(out@) =~= texts(v@).map_values(|d: Seq<char>| aliased(aliases@, d)));
    }
    out
}

fn is_ascii_name(s: &str) -> (r: bool)
    ensures
        r == ascii_name(s@),
{
    let cs = chars_of(s);
    let mut i: usize = 0;
    while i < cs.len()
        invariant
            cs@ == s@,
            i <= cs@.len(),
            forall|k: int|
                0 <= k < i ==> ascii_alphanumeric(#[trigger] s@[k]) || s@[k] == '_' || s@[k] == '$',
        decreases cs@.len() - i,
    {
        let c: char = cs[i];
        if !(is_ascii_alphanumeric(c) || c == '_' || c == '$') {
            assert(!(ascii_alphanumeric(s@[i as int]) || s@[i as int] == '_' || s@[i as int]
                == '$'));
            return false;
        }
        i = i + 1;
    }
    true
}

fn is_assigned(stmts: &Vec<String>, name: &str) -> (r: bool)
    ensures
        r == exists|i: int|
            0 <= i < texts(stmts@).len() && assigns(#[trigger] texts(stmts@)[i], name@),
{
    let first = cat2(name, " = ");
    let inner = cat3(" ", name, " = ");
    let ghost all = texts(stmts@);
    let mut i: usize = 0;
    while i < stmts.len()
        invariant
            all == texts(stmts@),
            first@ == name@ + " = "@,
            inner@ == " "@ + name@ + " = "@,
            i <= stmts@.len(),
            forall|k: int| 0 <= k < i ==> !assigns(#[trigger] all[k], name@),
        decreases stmts@.len() - i,
    {
        assert(all[i as int] == stmts@[i as int]@);
        if starts_with(&stmts[i], &first) || contains(&stmts[i], &inner) {
            assert(assigns(all[i as int], name@));
            return true;
        }
        i = i + 1;
    }
    false
}

fn drop_empty_return(stmts: Vec<String>, ret: Option<String>) -> (r: (Vec<String>, Option<String>))
    ensures
        (texts(r.0@), option_text(r.1)) == without_empty_return(texts(stmts@), option_text(ret)),
{
    if let Some(value) = &ret {
        let decl = let_stmt_str(value);
        if is_ascii_name(value) && holds_text(&stmts, &decl) && !is_assigned(&stmts, value) {
            let mut names: Vec<String> = Vec::new();
            names.push(value.clone());
            assert(texts(names@) =~= seq![value@]);
            let rest = drop_lets(&stmts, &names);
            return (rest, None);
        }
    }
    (stmts, ret)
}

fn clone_maybe(s: &Option<String>) -> (r: Option<String>)
    ensures
        maybe_text(r) == maybe_text(*s),
        option_text(r) == maybe_text(*s),
{
    match s {
        Some(t) => Some(t.clone()),
        None => None,
    }
}

fn returned_str(cg: &Context, terminal: &Terminal) -> (r: Option<String>)
    ensures
        maybe_text(r) == returned_text(cg@, *terminal),
{
    match terminal {
        Terminal::Return { value, return_variant } => {
            if *return_variant == ReturnVariant::Void {
                None
            } else {
                Some(cg.resolve_place(value))
            }
        },
        _ => None,
    }
}

impl<'a> Walker<'a> {
    fn outer_stmt_str(&self, owned: &IdSet, wrapped: bool, terminal: &Terminal) -> (r: Option<String>)
        requires
            self.wf(),
        ensures
            option_text(r) == outer_stmt(self@, owned@, wrapped, *terminal),
    {
        if let Terminal::Try { block, .. } = terminal {
            if wrapped && !owned.contains(block.0) {
                return None;
            }
        }
        self.terminal_stmt_str(self.blocks.len(), terminal, false)
    }

    fn rebuild(&self, owned: &IdSet, wrapped: bool) -> (r: Vec<String>)
        requires
            self.wf(),
        ensures
            texts(r@) == rebuilt(self@, owned@, wrapped, self.blocks@.len() as int),
    {
        let mut stmts: Vec<String> = Vec::new();
        let mut b: usize = 0;
        while b < self.blocks.len()
            invariant
                self.wf(),
                b <= self.blocks@.len(),
                texts(stmts@) == rebuilt(self@, owned@, wrapped, b as int),
            decreases self.blocks@.len() - b,
        {
            let block = &self.blocks[b].1;
            if !owned.contains(block.id.0) {
                let own = self.row_stmts_of(b);
                extend_texts(&mut stmts, &own);
                let more: Option<String> = match &block.terminal {
                    Terminal::Switch { .. } => None,
                    Terminal::Throw { .. } => None,
                    _ => self.outer_stmt_str(owned, wrapped, &block.terminal),
                };
                if let Some(s) = more {
                    stmts.push(s);
                }
            }
            b = b + 1;
        }
        stmts
    }

    fn find_handler(&self, wrapper: Option<usize>) -> (r: Option<(String, Vec<String>)>)
        requires
            self.wf(),
            wrapper matches Some(i) ==> i < self.blocks@.len()
                && self.blocks@[i as int].1.terminal is Try,
        ensures
            match r {
                Some(h) => handler_of(self@, index_view(wrapper)) == Some((h.0@, texts(h.1@))),
                None => handler_of(self@, index_view(wrapper)) is None,
            },
            r is Some <==> wrapper is Some,
    {
        match wrapper {
            None => None,
            Some(b) => match &self.blocks[b].1.terminal {
                Terminal::Try { handler_binding, handler, .. } => {
                    let param = self.cg.binding_str(handler_binding);
                    let stmts = self.collect_loop_body_stmts(self.blocks.len(), *handler);
                    Some((param, stmts))
                },
                _ => None,
            },
        }
    }
}

pub open spec fn index_view(i: Option<usize>) -> Option<int> {
    match i {
        Some(k) => Some(k as int),
        None => None,
    }
}

pub open spec fn handler_view(h: Option<(String, Vec<String>)>) -> Option<
    (Seq<char>, Seq<Seq<char>>),
> {
    match h {
        Some(x) => Some((x.0@, texts(x.1@))),
        None => None,
    }
}

fn wrap_lines(lines: Vec<(usize, String)>, handler: Option<(String, Vec<String>)>) -> (r: Vec<
    (usize, String),
>)
    ensures
        line_views(r@) == wrapped_lines(line_views(lines@), handler_view(handler)),
{
    match handler {
        None => lines,
        Some((param, stmts)) => {
            let ghost body = line_views(lines@);
            let mut out: Vec<(usize, String)> = Vec::new();
            add_line(&mut out, 1, owned("try {"));
            proof {
                assert(line_views(out@) =~= seq![(1nat, "try {"@)]);
            }
            add_lines(&mut out, lines);
            let ghost opened = seq![(1nat, "try {"@)] + body;
            let head = if param.as_str().is_empty() {
                owned("} catch {")
            } else {
                cat3("} catch (", &param, ") {")
            };
            let ghost h = head@;
            add_line(&mut out, 1, head);
            add_stmts(&mut out, 2, &stmts);
            add_line(&mut out, 1, owned("}"));
            proof {
                assert(line_views(out@) =~= opened + catch_lines(param@, texts(stmts@)));
            }
            out
        },
    }
}

fn write_memo(
    indent: usize,
    cache: &str,
    var: &str,
    deps: &Vec<String>,
    extra: &Vec<String>,
    stmts: &Vec<String>,
    value: &Option<String>,
) -> (lines: Vec<(usize, String)>)
    requires
        indent <= 2,
    ensures
        line_views(lines@) == memo_lines(
            indent as nat,
            Memo {
                cache: cache@,
                var: var@,
                deps: texts(deps@),
                extra: texts(extra@),
                stmts: texts(stmts@),
                value: maybe_text(*value),
            },
        ),
{
    let ghost m = Memo {
        cache: cache@,
        var: var@,
        deps: texts(deps@),
        extra: texts(extra@),
        stmts: texts(stmts@),
        value: maybe_text(*value),
    };
    let mut results: Vec<String> = Vec::new();
    results.push(owned(var));
    proof {
        assert(texts(results@) =~= seq![var@]);
    }
    extend_texts(&mut results, extra);
    let n: u64 = deps.len() as u64;
    let body = drop_lets(stmts, &results);
    let mut lines: Vec<(usize, String)> = Vec::new();
    add_line(&mut lines, indent, let_stmt_str(var));
    let ghost l1 = line_views(lines@);
    add_line(&mut lines, indent, memo_head_str(cache, 0, deps));
    proof {
        assert(l1 =~= seq![(indent as nat, let_stmt(var@))]);
        assert(line_views(lines@) =~= l1 + seq![(indent as nat, memo_head(cache@, 0, m.deps))]);
    }
    add_stmts(&mut lines, indent + 1, &body);
    let ghost l2 = line_views(lines@);
    if let Some(v) = value {
        add_line(&mut lines, indent + 1, assign_stmt_str(var, v));
    }
    proof {
        assert(line_views(lines@) =~= l2 + value_lines((indent + 1) as nat, m));
    }
    let dep_stores = slot_store_strs(cache, 0, deps);
    add_stmts(&mut lines, indent + 1, &dep_stores);
    let result_stores = slot_store_strs(cache, n, &results);
    add_stmts(&mut lines, indent + 1, &result_stores);
    let ghost l3 = line_views(lines@);
    add_line(&mut lines, indent, owned("} else {"));
    proof {
        assert(line_views(lines@) =~= l3 + seq![(indent as nat, "} else {"@)]);
    }
    let loads = slot_load_strs(cache, n, &results);
    add_stmts(&mut lines, indent + 1, &loads);
    let ghost l4 = line_views(lines@);
    add_line(&mut lines, indent, owned("}"));
    proof {
        assert(line_views(lines@) =~= l4 + seq![(indent as nat, "}"@)]);
    }
    lines
}

fn find_memo_deps(
    cx: &Context,
    func: &HIRFunction,
    instrs: &Vec<&Instruction>,
    outside: IdSet,
) -> (r: Vec<String>)
    requires
        pointees(instrs@) == instructions(*func),
    ensures
        texts(r@) == memo_deps(cx@, *func, outside@),
{
    let by_use = cx.find_reactive_deps(func);
    assert(texts(by_use@).len() == by_use@.len());
    let found = if by_use.len() == 0 {
        match find_scope_deps(func) {
            Some(d) => d,
            None => by_use,
        }
    } else {
        by_use
    };
    assert(texts(found@).len() == found@.len());
    let filtered = match find_memo_filter(instrs, outside) {
        Some(f) => {
            let used = cx.find_reactive_deps_filtered(func, Some(&f));
            keep_texts(&found, &used)
        },
        None => found,
    };
    let aliases = cx.find_dep_aliases(func);
    use_aliases(&filtered, &aliases)
}

impl Planner {
    fn new(given: IdSet) -> (r: Self)
        ensures
            r@ == empty_plan(given@),
    {
        let r = Planner {
            pre_memo_stmts: Vec::new(),
            memo_stmts: Vec::new(),
            post_scope_stmts: Vec::new(),
            all_stmts_in_order: Vec::new(),
            pre_scope_instr_ids: IdSet::new(),
            known: given,
            side_effect_hoistable: NameSet::new(),
            return_expr: None,
        };
        proof {
            assert(r@ =~= empty_plan(given@));
        }
        r
    }
}

/// What is given to a function: its parameters and globals.
pub open spec fn given_ids(func: HIRFunction, instrs: Seq<Instruction>) -> Set<u32> {
    with_globals(
        with_params(Set::empty(), func.params@, false, func.params@.len() as int),
        instrs,
        instrs.len() as int,
    )
}

fn find_given(func: &HIRFunction, instrs: &Vec<&Instruction>) -> (ids: IdSet)
    ensures
        ids@ == given_ids(*func, pointees(instrs@)),
{
    let mut ids = IdSet::new();
    assert(pointees(instrs@).len() == instrs@.len());
    insert_params(&mut ids, &func.params, false);
    insert_globals(&mut ids, instrs);
    ids
}

impl Generator {
    fn memo_var_str(&self) -> (r: String)
        ensures
            r@ == memo_var(self@),
    {
        match &self.promoted_var {
            Some(name) => name.clone(),
            None => temp_name_of(self.temp_start),
        }
    }

    fn demoted_var_str(&self) -> (r: Option<String>)
        ensures
            maybe_text(r) == demoted_var(self@),
    {
        if self.is_scope_output && self.promoted_var.is_none() {
            clone_maybe(&self.post_scope_return_var)
        } else {
            None
        }
    }

    fn return_var_str(&self) -> (r: String)
        ensures
            r@ == return_var(self@),
    {
        if self.is_scope_output {
            if let Some(v) = &self.post_scope_return_var {
                return v.clone();
            }
        }
        self.memo_var_str()
    }

    fn find_setting<'a>(&self, func: &'a HIRFunction) -> (r: Surroundings<'a>)
        ensures
            r@ == setting(self@, *func),
            pointees(r.instrs@) == instructions(*func),
    {
        let instrs = instructions_of(func);
        assert(pointees(instrs@).len() == instrs@.len());
        let mut globals = IdSet::new();
        insert_globals(&mut globals, &instrs);
        let given = find_given(func, &instrs);
        let start: Option<u32> = find_first_start(&instrs);
        Surroundings {
            start,
            globals,
            given,
            consumed: build_consumed_ids(func),
            instrs,
            demoted: self.demoted_var_str(),
            memo_var: self.memo_var_str(),
        }
    }

    fn find_demoted(&self, demoted: &Option<String>, instr: &Instruction) -> (r: Option<String>)
        ensures
            maybe_text(r) == demotes(self@.c, maybe_text(*demoted), *instr),
    {
        match demoted {
            None => None,
            Some(var) => match &instr.value {
                InstructionValue::StoreLocal { lvalue, value, .. } => {
                    let name = self.cx.identifier_name(&lvalue.place.identifier);
                    if same(&name, var) {
                        Some(self.cx.resolve_place(value))
                    } else {
                        None
                    }
                },
                _ => None,
            },
        }
    }

    fn promoted_ref(&self) -> (r: Option<&String>)
        ensures
            self@.promoted == (match r {
                Some(v) => Some(v@),
                None => None,
            }),
    {
        match &self.promoted_var {
            Some(v) => Some(v),
            None => None,
        }
    }

    fn does_go_behind(&self, instr: &Instruction) -> (r: bool)
        ensures
            r == goes_behind(self@, *instr),
    {
        (self.is_scope_output && self.cx.is_post_scope_instruction(instr, self.promoted_ref()))
            || self.cx.is_readonly_post_scope_call(instr, self.promoted_ref())
    }

    fn does_go_in_front(&self, e: &Surroundings, known: &IdSet, instr: &Instruction) -> (r: bool)
        ensures
            r == goes_in_front(self@, e@, known@, *instr),
    {
        self.cx.is_hook_call_stmt(instr) || self.cx.is_outlined_store(&e.instrs, instr)
            || is_pre_scope_instruction(e.start, known, instr)
    }

    fn is_movable(&self, e: &Surroundings, instr: &Instruction) -> (r: bool)
        ensures
            r == can_move(self@, e@, *instr),
    {
        is_side_effect_only_call(instr, &e.globals) && !e.consumed.contains(
            instr.lvalue.identifier.id.0,
        ) && self.cx.call_args_are_prescope(instr, &e.given)
    }

    fn plan_stmt(
        &self,
        p: &mut Planner,
        e: &Surroundings,
        instr: &Instruction,
        stmt: &Option<String>,
    )
        ensures
            final(p)@ == with_stmt(old(p)@, self@, e@, *instr, option_text(*stmt)),
    {
        let ghost before = p@;
        if let Some(value) = self.find_demoted(&e.demoted, instr) {
            p.memo_stmts.push(assign_stmt_str(&e.memo_var, &value));
        } else if let Some(s) = stmt {
            p.all_stmts_in_order.push(s.clone());
            if self.skip_memo {
                p.memo_stmts.push(s.clone());
            } else if self.does_go_behind(instr) {
                p.post_scope_stmts.push(s.clone());
                p.pre_scope_instr_ids.insert(instr.id.0);
            } else if self.does_go_in_front(e, &p.known, instr) {
                p.pre_memo_stmts.push(s.clone());
                p.pre_scope_instr_ids.insert(instr.id.0);
                p.known.insert(instr.lvalue.identifier.id.0);
            } else {
                if self.is_movable(e, instr) {
                    p.side_effect_hoistable.insert(s);
                }
                p.memo_stmts.push(s.clone());
            }
        }
        proof {
            assert(p@ =~= with_stmt(before, self@, e@, *instr, option_text(*stmt)));
        }
    }

    fn make_plan(
        &self,
        func: &HIRFunction,
        e: &Surroundings,
        walker: &Walker,
        owned: &IdSet,
        wrapped: bool,
    ) -> (p: Planner)
        requires
            walker.wf(),
            walker@ == walk_of(self@.c, *func),
            walker.cg@ == self@.c,
            e.given@ == given_ids(*func, pointees(e.instrs@)),
        ensures
            p@ == planned(
                self@,
                e@,
                walker@,
                owned@,
                wrapped,
                walker.blocks@.len() as int,
            ),
    {
        let mut p = Planner::new(find_given(func, &e.instrs));
        let mut b: usize = 0;
        while b < walker.blocks.len()
            invariant
                walker.wf(),
                walker.cg@ == self@.c,
                b <= walker.blocks@.len(),
                p@ == planned(self@, e@, walker@, owned@, wrapped, b as int),
            decreases walker.blocks@.len() - b,
        {
            let block = &walker.blocks[b].1;
            if !owned.contains(block.id.0) {
                let row = walker.row(b);
                let ghost view = row_view(row@);
                let ghost start = p@;
                let mut j: usize = 0;
                while j < block.instructions.len()
                    invariant
                        view == row_view(row@),
                        row@.len() == block.instructions@.len(),
                        j <= block.instructions@.len(),
                        p@ == with_row(start, self@, e@, block.instructions@, view, j as int),
                    decreases block.instructions@.len() - j,
                {
                    assert(view[j as int] == row@[j as int]@);
                    self.plan_stmt(&mut p, e, &block.instructions[j], &row[j].stmt);
                    j = j + 1;
                }
                let ghost planned_row = p@;
                let stmt = walker.outer_stmt_str(owned, wrapped, &block.terminal);
                let ret = returned_str(walker.cg, &block.terminal);
                if let Some(s) = &stmt {
                    p.all_stmts_in_order.push(s.clone());
                    p.memo_stmts.push(s.clone());
                }
                if ret.is_some() {
                    p.return_expr = clone_maybe(&ret);
                }
                proof {
                    assert(p@ =~= with_terminal(planned_row, option_text(stmt), maybe_text(ret)));
                }
            }
            b = b + 1;
        }
        p
    }

    fn needs_memo_block(&self, func: &HIRFunction, p: &Planner) -> (r: bool)
        ensures
            r == needs_memo(self@, *func, p@),
    {
        let returns_something = match &p.return_expr {
            Some(v) => !same(v, "undefined"),
            None => false,
        };
        let has_memo_content = p.memo_stmts.len() > 0 || returns_something;
        assert(texts(p.memo_stmts@).len() == p.memo_stmts@.len());
        let empty = p.memo_stmts.len() == 0 && p.return_expr.is_none();
        has_memo_content && !self.cx.is_trivial_body(func, empty) && self.cx.allocations_escape(
            func,
        ) && !returns_primitive_value(func)
    }

    fn write_memoized(
        &mut self,
        func: &HIRFunction,
        instrs: &Vec<&Instruction>,
        plan: Planner,
        wrapper: Option<usize>,
    ) -> (r: (Vec<(usize, String)>, u64))
        requires
            pointees(instrs@) == instructions(*func),
            wrapper matches Some(i) ==> i < func.body.blocks@.len()
                && func.body.blocks@[i as int].1.terminal is Try,
        ensures
            (line_views(r.0@), r.1) == memoized_lines(
                old(self)@,
                *func,
                plan@,
                index_view(wrapper),
            ),
            final(self)@ == (Gen { c: memo_declared(old(self)@), ..old(self)@ }),
            final(self).outlined_functions == old(self).outlined_functions,
    {
        let ghost g = self@;
        let mut p = plan;
        let ghost plan_view = p@;
        reorder_declarations(&mut p.memo_stmts);
        let ghost stmts = texts(p.memo_stmts@);
        assert(stmts.len() == p.memo_stmts@.len());
        let moved = select_texts(&p.memo_stmts, &p.side_effect_hoistable, true);
        let inside = select_texts(&p.memo_stmts, &p.side_effect_hoistable, false);
        let var = self.memo_var_str();
        let demoted = self.demoted_var_str();
        let deps = find_memo_deps(&self.cx, func, instrs, p.pre_scope_instr_ids);
        let (extra, _count) = collect_extra_scope_outputs(func, &var);
        let value: Option<String> = if demoted.is_some() || self.promoted_var.is_some() {
            None
        } else {
            clone_maybe(&p.return_expr)
        };
        let ghost m = memo_of(g, *func, plan_view);
        let indent: usize = if wrapper.is_some() {
            2
        } else {
            1
        };
        let mut body = write_memo(
            indent,
            &self.cache_var,
            &var,
            &deps,
            &extra,
            &inside,
            &value,
        );
        assert(texts(deps@).len() == deps@.len());
        assert(texts(extra@).len() == extra@.len());
        let slots: u64 = add_slots(add_slots(deps.len() as u64, 1), extra.len() as u64);
        add_stmts(&mut body, indent, &p.post_scope_stmts);
        let ghost b1 = line_views(body@);
        if let Some(v) = &demoted {
            let head = cat3("const ", v, " = ");
            add_line(&mut body, indent, cat3(&head, &var, ";"));
        }
        let ghost behind = match demoted_var(g) {
            Some(v) => seq![(indent as nat, "const "@ + v + " = "@ + memo_var(g) + ";"@)],
            None => Seq::empty(),
        };
        proof {
            assert(line_views(body@) =~= b1 + behind);
        }
        let ghost b2 = line_views(body@);
        let ret = self.return_var_str();
        add_line(&mut body, indent, cat3("return ", &ret, ";"));
        proof {
            assert(line_views(body@) =~= b2 + seq![(indent as nat, return_line(return_var(g)))]);
        }
        self.cx.emitted_let_decls.insert(&var);
        let rows = self.cx.render_rows(func);
        let walker = Walker { cg: &self.cx, blocks: &func.body.blocks, rows: &rows };
        let handler = walker.find_handler(wrapper);
        let inner = wrap_lines(body, handler);
        let mut lines: Vec<(usize, String)> = Vec::new();
        add_line(&mut lines, 1, cache_stmt_str(&self.cache_var, slots));
        proof {
            assert(line_views(lines@) =~= seq![(1nat, cache_stmt(g.cache_var, slots))]);
        }
        add_stmts(&mut lines, 1, &p.pre_memo_stmts);
        add_stmts(&mut lines, 1, &moved);
        add_lines(&mut lines, inner);
        (lines, slots)
    }

    fn write_plain(&mut self, func: &HIRFunction, plan: Planner, wrapper: Option<usize>) -> (r: Vec<
        (usize, String),
    >)
        requires
            wrapper matches Some(i) ==> i < func.body.blocks@.len()
                && func.body.blocks@[i as int].1.terminal is Try,
        ensures
            line_views(r@) == plain_lines(old(self)@, *func, plan@, index_view(wrapper)),
            final(self)@ == (Gen { c: plain_context(old(self)@), ..old(self)@ }),
            final(self).outlined_functions == old(self).outlined_functions,
    {
        let ghost g = self@;
        let demoted = self.demoted_var_str();
        let again = !self.cx.promoted_store_ids.is_empty() || demoted.is_some();
        if again {
            self.cx.promoted_store_ids = IdSet::new();
        }
        let rows = self.cx.render_rows(func);
        let walker = Walker { cg: &self.cx, blocks: &func.body.blocks, rows: &rows };
        let mut stmts: Vec<String> = if again {
            let owned = find_owned_blocks(&func.body.blocks, wrapper);
            walker.rebuild(&owned, wrapper.is_some())
        } else {
            plan.all_stmts_in_order
        };
        reorder_declarations(&mut stmts);
        let (rest, ret) = drop_empty_return(stmts, plan.return_expr);
        let indent: usize = if wrapper.is_some() {
            2
        } else {
            1
        };
        let mut lines: Vec<(usize, String)> = Vec::new();
        proof {
            assert(line_views(lines@) + all_at(indent as nat, texts(rest@)) =~= all_at(
                indent as nat,
                texts(rest@),
            ));
        }
        add_stmts(&mut lines, indent, &rest);
        write_return(&mut lines, indent, &ret);
        let handler = walker.find_handler(wrapper);
        wrap_lines(lines, handler)
    }

    /// The lines of a function, and the number of slots that it needs. With several scopes each gets
    /// a memoized block of its own; else there is one, where memoizing is worth while.
    pub fn emit_function(&mut self, func: &HIRFunction) -> (r: (Vec<(usize, String)>, u64))
        ensures
            (line_views(r.0@), r.1) == function_lines(old(self)@, *func),
            final(self)@ == after_lines(old(self)@, *func),
            final(self).outlined_functions == old(self).outlined_functions,
    {
        let scopes = self.cx.collect_scope_codegen_info(func);
        assert(scope_views(scopes@).len() == scopes@.len());
        if !self.skip_memo && scopes.len() > 1 {
            return self.emit_function_multi_scope(func, &scopes);
        }
        let e = self.find_setting(func);
        let wrapper = find_try_wrapper(&func.body.blocks);
        let owned = find_owned_blocks(&func.body.blocks, wrapper);
        let rows = self.cx.render_rows(func);
        let walker = Walker { cg: &self.cx, blocks: &func.body.blocks, rows: &rows };
        let p = self.make_plan(func, &e, &walker, &owned, wrapper.is_some());
        if !self.skip_memo && p.return_expr.is_some() && self.needs_memo_block(func, &p) {
            self.write_memoized(func, &e.instrs, p, wrapper)
        } else {
            (self.write_plain(func, p, wrapper), 0)
        }
    }
}

} // verus!

//! The first pass over a function: names, expressions and the variable that is kept.

use vstd::prelude::*;

use crate::codegen::context::{
    bump, empty_ctx, named_var, next_number, temp_name_of, temp_text, with_temp_name, Context, Ctx,
};
use crate::codegen::escape::{
    add_own_params, can_outline_function, outlinable, own_params, source_name, source_name_of,
};
use crate::codegen::exprs::with_written;
use crate::codegen::flow::result_id;
use crate::codegen::inner::{
    binds_only, declared_identifier, declares, expr_text, generate_inner_function_body,
    generate_inner_function_params, inner_body, insert_unnamed, insert_unnamed_operands, only_binds,
    params_text, settled, unnamed_operands, unshadowed, unshadowed_name, with_catch_names,
    with_jsx_kind, with_unnamed,
};
use crate::codegen::print::words_replaced;
use crate::codegen::promote::{
    count_loads_of_var, find_promoted_stores, is_return_place_from_load_global, load_count,
    loads_global, scope_output_var, with_stores,
};
use crate::collections::{
    choose_free_name, free_name, put_pair, renamed_to, IdSet, IdTexts, NameMap, NameSet,
};
use crate::extract_scope_destructuring::{each_pattern_operand, pattern_operands};
use crate::graph::{instructions, instructions_of, pointees, refs_are};
use crate::hir::{
    Argument, BasicBlock, BlockId, HIRFunction, Instruction, InstructionValue,
    ObjectPropertyOrSpread, ObjectPropertyType, Place, ReturnVariant, SwitchCase, Terminal,
};
use crate::sorting::push_new;
use crate::text::{
    all_replaced, cat2, cat3, decimal, decimal_text, is_temp_name_text, owned, same, temp_name,
    texts,
};

verus! {

broadcast use crate::text::group_texts;

// ---------------------------------------------------------------------------
// The generator
// ---------------------------------------------------------------------------

/// What is known of a function before its text is written.
pub struct Gen {
    pub c: Ctx,
    /// The number of the temporary that holds the memoized result.
    pub temp_start: u64,
    /// Whether the function is written without memoization.
    pub skip_memo: bool,
    /// Whether the function is one that was moved out of another.
    pub is_outlined: bool,
    /// The name of the cache.
    pub cache_var: Seq<char>,
    /// The names that the source uses around the function.
    pub taken: Set<Seq<char>>,
    /// The variable that holds the memoized result under its own name.
    pub promoted: Option<Seq<char>>,
    /// Whether something is read from the memoized result behind the memoized block.
    pub scope_output: bool,
    /// The variable that is returned, where it is not the memoized result itself.
    pub post_return: Option<Seq<char>>,
    /// The parameters and the loads of them.
    pub params: Set<u32>,
    /// The functions that were moved out: name, parameters, body.
    pub functions: Seq<(Seq<char>, Seq<char>, Seq<char>)>,
}

/// What is known of a function before its text is written.
pub struct Generator {
    pub cx: Context,
    pub temp_start: u64,
    pub skip_memo: bool,
    pub is_outlined: bool,
    pub cache_var: String,
    pub source_names: NameSet,
    pub promoted_var: Option<String>,
    pub is_scope_output: bool,
    pub post_scope_return_var: Option<String>,
    pub param_ids: IdSet,
    pub outlined_functions: Vec<(String, String, String)>,
}

pub open spec fn maybe_text(s: Option<String>) -> Option<Seq<char>> {
    match s {
        Some(t) => Some(t@),
        None => None,
    }
}

pub open spec fn function_views(v: Seq<(String, String, String)>) -> Seq<
    (Seq<char>, Seq<char>, Seq<char>),
> {
    v.map_values(|f: (String, String, String)| (f.0@, f.1@, f.2@))
}

impl View for Generator {
    type V = Gen;

    open spec fn view(&self) -> Gen {
        Gen {
            c: self.cx@,
            temp_start: self.temp_start,
            skip_memo: self.skip_memo,
            is_outlined: self.is_outlined,
            cache_var: self.cache_var@,
            taken: self.source_names@,
            promoted: maybe_text(self.promoted_var),
            scope_output: self.is_scope_output,
            post_return: maybe_text(self.post_scope_return_var),
            params: self.param_ids@,
            functions: function_views(self.outlined_functions@),
        }
    }
}

/// A generator that knows nothing yet.
pub open spec fn new_generator() -> Gen {
    Gen {
        c: empty_ctx(),
        temp_start: 0,
        skip_memo: false,
        is_outlined: false,
        cache_var: "$"@,
        taken: Set::empty(),
        promoted: None,
        scope_output: false,
        post_return: None,
        params: Set::empty(),
        functions: Seq::empty(),
    }
}

// ---------------------------------------------------------------------------
// Patterns and the entry block
// ---------------------------------------------------------------------------

/// The instructions of those of the first `n` blocks that are the entry.
pub open spec fn entry_instructions(
    blocks: Seq<(BlockId, BasicBlock)>,
    entry: BlockId,
    n: int,
) -> Seq<Instruction>
    decreases n,
{
    if n <= 0 {
        Seq::empty()
    } else {
        let front = entry_instructions(blocks, entry, n - 1);
        if blocks[n - 1].0 == entry {
            front + blocks[n - 1].1.instructions@
        } else {
            front
        }
    }
}

pub open spec fn entry_of(func: HIRFunction) -> Seq<Instruction> {
    entry_instructions(func.body.blocks@, func.body.entry, func.body.blocks@.len() as int)
}

pub fn entry_instructions_of(func: &HIRFunction) -> (r: Vec<&Instruction>)
    ensures
        pointees(r@) == entry_of(*func),
{
    let blocks = &func.body.blocks;
    let mut out: Vec<&Instruction> = Vec::new();
    let mut b: usize = 0;
    proof {
        assert(pointees(out@) =~= entry_instructions(blocks@, func.body.entry, 0));
    }
    while b < blocks.len()
        invariant
            blocks == func.body.blocks,
            b <= blocks@.len(),
            pointees(out@) == entry_instructions(blocks@, func.body.entry, b as int),
        decreases blocks@.len() - b,
    {
        if blocks[b].0 == func.body.entry {
            let instrs = &blocks[b].1.instructions;
            let ghost start = pointees(out@);
            let mut j: usize = 0;
            proof {
                assert(pointees(out@) =~= start + instrs@.take(0));
            }
            while j < instrs.len()
                invariant
                    j <= instrs@.len(),
                    pointees(out@) == start + instrs@.take(j as int),
                decreases instrs@.len() - j,
            {
                let ghost before = out@;
                out.push(&instrs[j]);
                proof {
                    assert(instrs@.take(j as int + 1) =~= instrs@.take(j as int).push(
                        instrs@[j as int],
                    ));
                    assert(pointees(out@) =~= pointees(before).push(instrs@[j as int]));
                    assert(pointees(out@) =~= start + instrs@.take(j as int + 1));
                }
                j = j + 1;
            }
            proof {
                assert(instrs@.take(j as int) =~= instrs@);
            }
        }
        b = b + 1;
    }
    out
}

// ---------------------------------------------------------------------------
// Parameters
// ---------------------------------------------------------------------------

/// `ids` and the first `n` parameters; with `unnamed`, only those without a name.
pub open spec fn with_params(ids: Set<u32>, params: Seq<Argument>, unnamed: bool, n: int) -> Set<u32>
    decreases n,
{
    if n <= 0 {
        ids
    } else {
        let front = with_params(ids, params, unnamed, n - 1);
        let id = params[n - 1].place_of().identifier;
        if !unnamed || id.name is None {
            front.insert(id.id.0)
        } else {
            front
        }
    }
}

/// `ids` and what the first `n` instructions load from an identifier in it.
pub open spec fn with_loads(ids: Set<u32>, instrs: Seq<Instruction>, n: int) -> Set<u32>
    decreases n,
{
    if n <= 0 {
        ids
    } else {
        let front = with_loads(ids, instrs, n - 1);
        match instrs[n - 1].value {
            InstructionValue::LoadLocal { place } => if front.contains(place.identifier.id.0) {
                front.insert(result_id(instrs[n - 1]))
            } else {
                front
            },
            _ => front,
        }
    }
}

/// `ids` and what the first `n` instructions load from one of `sources`.
pub open spec fn with_loads_of(
    ids: Set<u32>,
    sources: Set<u32>,
    instrs: Seq<Instruction>,
    n: int,
) -> Set<u32>
    decreases n,
{
    if n <= 0 {
        ids
    } else {
        let front = with_loads_of(ids, sources, instrs, n - 1);
        match instrs[n - 1].value {
            InstructionValue::LoadLocal { place } => if sources.contains(place.identifier.id.0) {
                front.insert(result_id(instrs[n - 1]))
            } else {
                front
            },
            _ => front,
        }
    }
}

/// What is known of the defaults of parameters that have a pattern.
pub struct Defaults {
    /// Temporaries that a default is computed from.
    pub temps: Set<u32>,
    /// Variables that take a default.
    pub stores: Set<u32>,
}

/// The defaults with the first `n` instructions: `loads` are the parameters that have a pattern.
pub open spec fn with_defaults(
    d: Defaults,
    loads: Set<u32>,
    instrs: Seq<Instruction>,
    n: int,
) -> Defaults
    decreases n,
{
    if n <= 0 {
        d
    } else {
        let front = with_defaults(d, loads, instrs, n - 1);
        let id = result_id(instrs[n - 1]);
        match instrs[n - 1].value {
            InstructionValue::Destructure { lvalue, value, .. } => {
                if loads.contains(value.identifier.id.0) {
                    let places = pattern_operands(lvalue.pattern);
                    Defaults {
                        temps: with_unnamed(front.temps, places, places.len() as int),
                        ..front
                    }
                } else {
                    front
                }
            },
            InstructionValue::StoreLocal { lvalue, value, .. } => {
                if front.temps.contains(value.identifier.id.0) {
                    Defaults {
                        stores: front.stores.insert(lvalue.place.identifier.id.0),
                        ..front
                    }
                } else {
                    front
                }
            },
            InstructionValue::BinaryExpression { left, right, .. } => {
                if front.temps.contains(left.identifier.id.0) || front.temps.contains(
                    right.identifier.id.0,
                ) {
                    Defaults { temps: front.temps.insert(id), ..front }
                } else {
                    front
                }
            },
            InstructionValue::Ternary { test, consequent, alternate } => {
                if front.temps.contains(test.identifier.id.0) || front.temps.contains(
                    consequent.identifier.id.0,
                ) || front.temps.contains(alternate.identifier.id.0) {
                    Defaults { temps: front.temps.insert(id), ..front }
                } else {
                    front
                }
            },
            _ => front,
        }
    }
}

/// The generator once the parameters are known.
pub open spec fn params_known(g: Gen, func: HIRFunction) -> Gen {
    let n = func.params@.len() as int;
    let entry = entry_of(func);
    let params = with_loads(
        with_params(g.params, func.params@, false, n),
        entry,
        entry.len() as int,
    );
    if g.is_outlined {
        Gen { params, ..g }
    } else {
        let anon = with_params(Set::empty(), func.params@, true, n);
        let loads = with_loads_of(
            with_params(g.c.param_loads, func.params@, true, n),
            anon,
            entry,
            entry.len() as int,
        );
        let d = with_defaults(
            Defaults { temps: Set::empty(), stores: g.c.param_defaults },
            loads,
            entry,
            entry.len() as int,
        );
        Gen { params, c: Ctx { param_loads: loads, param_defaults: d.stores, ..g.c }, ..g }
    }
}

// ---------------------------------------------------------------------------
// Source names
// ---------------------------------------------------------------------------

/// `names` and the source names of the first `n` places, each one once.
pub open spec fn with_source_names(names: Seq<Seq<char>>, places: Seq<Place>, n: int) -> Seq<Seq<char>>
    decreases n,
{
    if n <= 0 {
        names
    } else {
        let front = with_source_names(names, places, n - 1);
        match source_name_of(places[n - 1].identifier) {
            Some(name) => push_new(front, name),
            None => front,
        }
    }
}

/// The variables that an instruction declares, stores, loads or takes apart into.
pub open spec fn variable_places(value: InstructionValue) -> Seq<Place> {
    match value {
        InstructionValue::DeclareLocal { lvalue } => seq![lvalue.place],
        InstructionValue::DeclareContext { lvalue } => seq![lvalue.place],
        InstructionValue::StoreLocal { lvalue, .. } => seq![lvalue.place],
        InstructionValue::StoreContext { lvalue, .. } => seq![lvalue.place],
        InstructionValue::LoadLocal { place } => seq![place],
        InstructionValue::LoadContext { place } => seq![place],
        InstructionValue::Destructure { lvalue, .. } => pattern_operands(lvalue.pattern),
        _ => Seq::empty(),
    }
}

/// The source names of the variables of the first `n` instructions, each one once.
pub open spec fn variable_names(instrs: Seq<Instruction>, n: int) -> Seq<Seq<char>>
    decreases n,
{
    if n <= 0 {
        Seq::empty()
    } else {
        let places = variable_places(instrs[n - 1].value);
        with_source_names(variable_names(instrs, n - 1), places, places.len() as int)
    }
}

/// `ids` and the functions among the first `n` properties that are methods.
pub open spec fn with_methods(ids: Set<u32>, properties: Seq<ObjectPropertyOrSpread>, n: int) -> Set<
    u32,
>
    decreases n,
{
    if n <= 0 {
        ids
    } else {
        let front = with_methods(ids, properties, n - 1);
        match properties[n - 1] {
            ObjectPropertyOrSpread::Property(p) => if p.type_ == ObjectPropertyType::Method {
                front.insert(p.place.identifier.id.0)
            } else {
                front
            },
            ObjectPropertyOrSpread::Spread(_) => front,
        }
    }
}

/// The functions that the first `n` instructions use as methods of an object.
pub open spec fn method_ids(instrs: Seq<Instruction>, n: int) -> Set<u32>
    decreases n,
{
    if n <= 0 {
        Set::empty()
    } else {
        let front = method_ids(instrs, n - 1);
        match instrs[n - 1].value {
            InstructionValue::ObjectExpression { properties } => with_methods(
                front,
                properties@,
                properties@.len() as int,
            ),
            _ => front,
        }
    }
}

/// The name of the function that is moved out as number `k`: `_temp`, `_temp2`, `_temp3`, ...
pub open spec fn outline_name(k: nat) -> Seq<char> {
    if k == 1 {
        "_temp"@
    } else {
        "_temp"@ + decimal(k)
    }
}

/// Whether an instruction makes a function that is moved out.
pub open spec fn moves_out(outer: Set<Seq<char>>, methods: Set<u32>, instr: Instruction) -> bool {
    match instr.value {
        InstructionValue::FunctionExpression { lowered_func, .. } => !methods.contains(
            result_id(instr),
        ) && outlinable(outer, lowered_func),
        _ => false,
    }
}

/// How many of the first `n` instructions make a function that is moved out.
pub open spec fn moved_count(
    outer: Set<Seq<char>>,
    methods: Set<u32>,
    instrs: Seq<Instruction>,
    n: int,
) -> nat
    decreases n,
{
    if n <= 0 {
        0
    } else {
        moved_count(outer, methods, instrs, n - 1) + if moves_out(outer, methods, instrs[n - 1]) {
            1nat
        } else {
            0nat
        }
    }
}

/// The context after the functions among the first `n` instructions that move out have got names.
pub open spec fn with_outlined(c: Ctx, methods: Set<u32>, instrs: Seq<Instruction>, n: int) -> Ctx
    decreases n,
{
    if n <= 0 {
        c
    } else {
        let front = with_outlined(c, methods, instrs, n - 1);
        if moves_out(c.outer_names, methods, instrs[n - 1]) {
            let name = outline_name(moved_count(c.outer_names, methods, instrs, n));
            Ctx {
                outlined: front.outlined.insert(result_id(instrs[n - 1]), name),
                outlined_pairs: put_pair(
                    front.outlined_pairs,
                    result_id(instrs[n - 1]),
                    name,
                ),
                ..front
            }
        } else {
            front
        }
    }
}

/// `names` and the source names that the first `n` instructions take a parameter apart into.
pub open spec fn with_param_parts(
    names: Seq<Seq<char>>,
    params: Set<u32>,
    instrs: Seq<Instruction>,
    n: int,
) -> Seq<Seq<char>>
    decreases n,
{
    if n <= 0 {
        names
    } else {
        let front = with_param_parts(names, params, instrs, n - 1);
        match instrs[n - 1].value {
            InstructionValue::Destructure { lvalue, value, .. } => {
                if params.contains(value.identifier.id.0) {
                    let places = pattern_operands(lvalue.pattern);
                    with_source_names(front, places, places.len() as int)
                } else {
                    front
                }
            },
            _ => front,
        }
    }
}

/// The source names of the first `n` parameters that are no rest parameters, each one once.
pub open spec fn param_list(params: Seq<Argument>, n: int) -> Seq<Seq<char>>
    decreases n,
{
    if n <= 0 {
        Seq::empty()
    } else {
        let front = param_list(params, n - 1);
        match params[n - 1] {
            Argument::Place(p) => match source_name_of(p.identifier) {
                Some(name) => push_new(front, name),
                None => front,
            },
            Argument::Spread(_) => front,
        }
    }
}

/// What declarations are called once none of them hides a parameter.
pub struct Renames {
    pub ids: Map<u32, Seq<char>>,
    /// The names that are taken.
    pub names: Seq<Seq<char>>,
}

/// The renames of the first `n` instructions: a declaration with the name of a parameter that is no
/// parameter itself gets the name, an underscore and the least number with which it is free.
pub open spec fn with_renames(
    r: Renames,
    hidden: Seq<Seq<char>>,
    params: Set<u32>,
    instrs: Seq<Instruction>,
    n: int,
) -> Renames
    decreases n,
{
    if n <= 0 {
        r
    } else {
        let front = with_renames(r, hidden, params, instrs, n - 1);
        match declares(instrs[n - 1].value) {
            Some(id) => match id.name {
                Some(name) => if hidden.contains(name.text()) && !params.contains(id.id.0) {
                    let fresh = unshadowed(name.text(), front.names.to_set());
                    Renames {
                        ids: front.ids.insert(id.id.0, fresh),
                        names: push_new(front.names, fresh),
                    }
                } else {
                    front
                },
                None => front,
            },
            None => front,
        }
    }
}

// ---------------------------------------------------------------------------
// Consumed temporaries and loops
// ---------------------------------------------------------------------------

/// The tests of the first `n` cases.
pub open spec fn case_tests(cases: Seq<SwitchCase>, n: int) -> Seq<Place>
    decreases n,
{
    if n <= 0 {
        Seq::empty()
    } else {
        let front = case_tests(cases, n - 1);
        match cases[n - 1].test {
            Some(t) => front.push(t),
            None => front,
        }
    }
}

/// The places that a terminal uses.
pub open spec fn terminal_places(terminal: Terminal) -> Seq<Place> {
    match terminal {
        Terminal::Return { value, .. } => seq![value],
        Terminal::Throw { value } => seq![value],
        Terminal::If { test, .. } => seq![test],
        Terminal::Branch { test, .. } => seq![test],
        Terminal::Switch { test, cases, .. } => seq![test] + case_tests(
            cases@,
            cases@.len() as int,
        ),
        _ => Seq::empty(),
    }
}

/// `ids` and the unnamed places that the terminals of the first `n` blocks use.
pub open spec fn with_terminal_places(
    ids: Set<u32>,
    blocks: Seq<(BlockId, BasicBlock)>,
    n: int,
) -> Set<u32>
    decreases n,
{
    if n <= 0 {
        ids
    } else {
        let places = terminal_places(blocks[n - 1].1.terminal);
        with_unnamed(with_terminal_places(ids, blocks, n - 1), places, places.len() as int)
    }
}

/// The block behind a loop and the block that `continue` goes to.
pub open spec fn loop_targets(terminal: Terminal) -> Option<(BlockId, BlockId)> {
    match terminal {
        Terminal::For { test, fallthrough, .. } => Some((fallthrough, test)),
        Terminal::ForOf { test, fallthrough, .. } => Some((fallthrough, test)),
        Terminal::ForIn { loop_block, fallthrough, .. } => Some((fallthrough, loop_block)),
        Terminal::While { test, fallthrough, .. } => Some((fallthrough, test)),
        Terminal::DoWhile { test, fallthrough, .. } => Some((fallthrough, test)),
        _ => None,
    }
}

/// The context with the targets of `break` and `continue` in the loops of the first `n` blocks.
pub open spec fn with_loops(c: Ctx, blocks: Seq<(BlockId, BasicBlock)>, n: int) -> Ctx
    decreases n,
{
    if n <= 0 {
        c
    } else {
        let front = with_loops(c, blocks, n - 1);
        match loop_targets(blocks[n - 1].1.terminal) {
            Some((end, test)) => Ctx {
                loop_ends: front.loop_ends.insert(end.0),
                loop_tests: front.loop_tests.insert(test.0),
                ..front
            },
            None => front,
        }
    }
}

/// The generator once all source names and uses are known, with the source names.
pub open spec fn names_known(g: Gen, func: HIRFunction) -> (Gen, Seq<Seq<char>>) {
    let instrs = instructions(func);
    let n = instrs.len() as int;
    let blocks = func.body.blocks@;
    let entry = entry_of(func);
    let names = variable_names(instrs, n);
    let c1 = Ctx {
        outer_names: names.to_set().union(own_params(func.params@, func.params@.len() as int)),
        ..g.c
    };
    let c2 = if g.is_outlined {
        c1
    } else {
        with_outlined(c1, method_ids(instrs, n), instrs, n)
    };
    let hidden = with_param_parts(
        param_list(func.params@, func.params@.len() as int),
        g.params,
        entry,
        entry.len() as int,
    );
    let r = with_renames(Renames { ids: c2.id_names, names }, hidden, g.params, instrs, n);
    let c3 = Ctx {
        id_names: r.ids,
        consumed: with_terminal_places(
            unnamed_operands(c2.consumed, instrs, n),
            blocks,
            blocks.len() as int,
        ),
        ..c2
    };
    (
        Gen {
            c: with_loops(c3, blocks, blocks.len() as int),
            cache_var: free_name("$"@, g.taken.union(c1.outer_names)),
            ..g
        },
        r.names,
    )
}

// ---------------------------------------------------------------------------
// Expressions
// ---------------------------------------------------------------------------

/// The context after the expression of one instruction has been written: how tightly it binds is
/// noted with it.
pub open spec fn with_leveled_expr(c: Ctx, instr: Instruction) -> Ctx {
    let marked = with_jsx_kind(c, instr);
    with_written(marked, instr, expr_text(marked, instr))
}

pub open spec fn with_leveled_exprs(c: Ctx, instrs: Seq<Instruction>, n: int) -> Ctx
    decreases n,
{
    if n <= 0 {
        c
    } else {
        with_leveled_expr(with_leveled_exprs(c, instrs, n - 1), instrs[n - 1])
    }
}

/// The context after the unnamed ones of the first `n` places have got temporary names.
pub open spec fn with_place_names(c: Ctx, places: Seq<Place>, n: int) -> Ctx
    decreases n,
{
    if n <= 0 {
        c
    } else {
        let front = with_place_names(c, places, n - 1);
        if places[n - 1].identifier.name is None {
            with_temp_name(front, places[n - 1].identifier.id.0)
        } else {
            front
        }
    }
}

/// The places that an instruction takes a value apart into.
pub open spec fn parts_places(value: InstructionValue) -> Seq<Place> {
    match value {
        InstructionValue::Destructure { lvalue, .. } => pattern_operands(lvalue.pattern),
        _ => Seq::empty(),
    }
}

/// The context after the unnamed results and parts of the first `n` instructions that are not written
/// in place have got temporary names.
pub open spec fn with_all_names(c: Ctx, instrs: Seq<Instruction>, n: int) -> Ctx
    decreases n,
{
    if n <= 0 {
        c
    } else {
        let front = with_all_names(c, instrs, n - 1);
        let id = instrs[n - 1].lvalue.identifier;
        let named = if id.name is None && !front.exprs.contains_key(id.id.0) && !binds_only(
            instrs[n - 1].value,
        ) {
            with_temp_name(front, id.id.0)
        } else {
            front
        };
        let places = parts_places(instrs[n - 1].value);
        with_place_names(named, places, places.len() as int)
    }
}

/// The function that an instruction makes in place.
pub open spec fn inline_function(c: Ctx, instr: Instruction) -> Option<HIRFunction> {
    match instr.value {
        InstructionValue::FunctionExpression { lowered_func, .. } => if c.outlined.contains_key(
            result_id(instr),
        ) {
            None
        } else {
            Some(lowered_func.func)
        },
        InstructionValue::ObjectMethod { lowered_func } => Some(lowered_func.func),
        _ => None,
    }
}

/// Whether a terminal binds what it catches to a name.
pub open spec fn binds_catch(terminal: Terminal) -> bool {
    terminal matches Terminal::Try { handler_binding: Some(p), .. } && p.identifier.name is Some
}

/// The catch bindings that are called otherwise: old numbers and new numbers, and the next number.
pub struct Fixups {
    pub pairs: Seq<(nat, u64)>,
    pub counter: u64,
}

/// The fixups with the catch bindings of the first `n` blocks of an inner function, which were
/// numbered from `first` on.
pub open spec fn with_block_fixups(
    f: Fixups,
    blocks: Seq<(BlockId, BasicBlock)>,
    n: int,
) -> (Fixups, nat)
    decreases n,
{
    if n <= 0 {
        (f, 0)
    } else {
        let front = with_block_fixups(f, blocks, n - 1);
        if binds_catch(blocks[n - 1].1.terminal) {
            (
                Fixups {
                    pairs: front.0.pairs.push((front.1, front.0.counter)),
                    counter: next_number(front.0.counter),
                },
                front.1 + 1,
            )
        } else {
            front
        }
    }
}

/// The fixups with the functions that the first `n` instructions make in place.
pub open spec fn with_fixups(c: Ctx, f: Fixups, instrs: Seq<Instruction>, n: int) -> Fixups
    decreases n,
{
    if n <= 0 {
        f
    } else {
        let front = with_fixups(c, f, instrs, n - 1);
        match inline_function(c, instrs[n - 1]) {
            Some(func) => with_block_fixups(
                front,
                func.body.blocks@,
                func.body.blocks@.len() as int,
            ).0,
            None => front,
        }
    }
}

pub open spec fn catch_text(k: nat) -> Seq<char> {
    "catch ("@ + temp_text(k) + ") {"@
}

/// The expressions with the first `n` fixups made.
pub open spec fn fixed_exprs(exprs: Map<u32, Seq<char>>, pairs: Seq<(nat, u64)>, n: int) -> Map<
    u32,
    Seq<char>,
>
    decreases n,
{
    if n <= 0 {
        exprs
    } else {
        fixed_exprs(exprs, pairs, n - 1).map_values(
            |t: Seq<char>|
                all_replaced(t, catch_text(pairs[n - 1].0), catch_text(pairs[n - 1].1 as nat)),
        )
    }
}

/// The context with the catch bindings of functions in place numbered behind all other names.
pub open spec fn catches_fixed(c: Ctx, instrs: Seq<Instruction>) -> Ctx {
    let f = with_fixups(
        c,
        Fixups { pairs: Seq::empty(), counter: c.counter },
        instrs,
        instrs.len() as int,
    );
    Ctx {
        exprs: fixed_exprs(c.exprs, f.pairs, f.pairs.len() as int),
        counter: f.counter,
        ..c
    }
}

/// The context with the name of the memoized result kept free.
pub open spec fn with_memo_slot(c: Ctx, temp_start: u64, skip_memo: bool) -> Ctx {
    if !skip_memo && c.counter <= temp_start {
        Ctx { counter: next_number(temp_start), ..c }
    } else {
        c
    }
}

/// The generator once all expressions are written and all temporaries have names.
pub open spec fn exprs_known(g: Gen, func: HIRFunction) -> Gen {
    let instrs = instructions(func);
    let n = instrs.len() as int;
    let blocks = func.body.blocks@;
    let c1 = with_all_names(with_leveled_exprs(g.c, instrs, n), instrs, n);
    let c2 = with_memo_slot(
        with_catch_names(c1, blocks, blocks.len() as int),
        g.temp_start,
        g.skip_memo,
    );
    Gen { c: settled(catches_fixed(c2, instrs)), ..g }
}

// ---------------------------------------------------------------------------
// The promoted variable
// ---------------------------------------------------------------------------

/// The generator once it is known what the first `n` blocks return.
pub open spec fn with_promotions(g: Gen, func: HIRFunction, n: int) -> Gen
    decreases n,
{
    if n <= 0 {
        g
    } else {
        let front = with_promotions(g, func, n - 1);
        match func.body.blocks@[n - 1].1.terminal {
            Terminal::Return { value, return_variant } => {
                if return_variant == ReturnVariant::Void {
                    front
                } else {
                    with_promotion(front, instructions(func), value)
                }
            },
            _ => front,
        }
    }
}

pub open spec fn promoted_to(g: Gen, instrs: Seq<Instruction>, name: Seq<char>) -> Gen {
    Gen {
        promoted: Some(name),
        c: Ctx {
            promoted: with_stores(g.c.promoted, instrs, name, instrs.len() as int),
            ..g.c
        },
        ..g
    }
}

/// The generator once it is known that `value` is returned. The variable that the result is taken
/// from is promoted, or the variable that is returned, where it is loaded more than once.
pub open spec fn with_promotion(g: Gen, instrs: Seq<Instruction>, value: Place) -> Gen {
    match scope_output_var(g.c, instrs, value) {
        Some(root) => promoted_to(
            if named_var(g.c, value) == Some(root) {
                g
            } else {
                Gen { scope_output: true, post_return: named_var(g.c, value), ..g }
            },
            instrs,
            root,
        ),
        None => if loads_global(instrs, value) {
            g
        } else {
            match named_var(g.c, value) {
                Some(name) => if load_count(instrs, name, instrs.len() as int) > 1 {
                    promoted_to(g, instrs, name)
                } else {
                    Gen { scope_output: true, post_return: Some(name), ..g }
                },
                None => g,
            }
        },
    }
}

// ---------------------------------------------------------------------------
// Clashes with generated names
// ---------------------------------------------------------------------------

/// Whether a name is one that was generated: that of a temporary, or of the memoized result.
pub open spec fn is_generated(
    temps: Seq<(u32, Seq<char>)>,
    memo: Option<Seq<char>>,
    name: Seq<char>,
) -> bool {
    (exists|k: int| 0 <= k < temps.len() && (#[trigger] temps[k]).1 == name) || memo == Some(name)
}

/// The temporary that holds the memoized result, where no variable does.
pub open spec fn memo_temp(g: Gen) -> Option<Seq<char>> {
    if g.promoted is None {
        Some(temp_text(g.temp_start as nat))
    } else {
        None
    }
}

/// The new name of a source variable whose name was generated too.
pub open spec fn dollar_name(name: Seq<char>) -> Seq<char> {
    name + "$0"@
}

/// The new names of those of the first `n` source names that were generated too.
pub open spec fn with_clashes(
    renames: Seq<(Seq<char>, Seq<char>)>,
    temps: Seq<(u32, Seq<char>)>,
    memo: Option<Seq<char>>,
    names: Seq<Seq<char>>,
    n: int,
) -> Seq<(Seq<char>, Seq<char>)>
    decreases n,
{
    if n <= 0 {
        renames
    } else {
        let front = with_clashes(renames, temps, memo, names, n - 1);
        if is_generated(temps, memo, names[n - 1]) {
            front.push((names[n - 1], dollar_name(names[n - 1])))
        } else {
            front
        }
    }
}

pub open spec fn words_everywhere(
    exprs: Map<u32, Seq<char>>,
    old: Seq<char>,
    new: Seq<char>,
) -> Map<u32, Seq<char>> {
    exprs.map_values(|t: Seq<char>| words_replaced(t, old, new))
}

/// The generator once a promoted variable with the name of a temporary is none any more: the result
/// has the name of a temporary, and the variable takes it over under another name.
pub open spec fn unpromoted(g: Gen, names: Seq<Seq<char>>) -> Gen {
    match g.promoted {
        None => g,
        Some(pv) => {
            let renames = g.c.source_names;
            let clash = temp_name(pv) && renamed_to(renames, pv) is None && names.contains(pv);
            let c1 = if clash {
                Ctx {
                    source_names: renames.push((pv, dollar_name(pv))),
                    exprs: words_everywhere(g.c.exprs, pv, dollar_name(pv)),
                    ..g.c
                }
            } else {
                g.c
            };
            match renamed_to(c1.source_names, pv) {
                Some(renamed) => Gen {
                    c: Ctx { promoted: Set::empty(), ..c1 },
                    promoted: None,
                    scope_output: true,
                    post_return: Some(renamed),
                    ..g
                },
                None => Gen { c: c1, ..g },
            }
        },
    }
}

/// The generator once a returned variable with the name of a temporary has its other name.
pub open spec fn return_renamed(g: Gen, names: Seq<Seq<char>>) -> Gen {
    match g.post_return {
        None => g,
        Some(name) => {
            let clash = temp_name(name) && names.contains(name) && renamed_to(
                g.c.source_names,
                name,
            ) is None;
            let g1 = if clash {
                Gen {
                    c: Ctx {
                        source_names: g.c.source_names.push((name, dollar_name(name))),
                        ..g.c
                    },
                    post_return: Some(dollar_name(name)),
                    ..g
                }
            } else {
                g
            };
            match renamed_to(g1.c.source_names, g1.post_return->0) {
                Some(renamed) => Gen { post_return: Some(renamed), ..g1 },
                None => g1,
            }
        },
    }
}

/// The expressions with the first `n` new names put in.
pub open spec fn renamed_exprs(
    exprs: Map<u32, Seq<char>>,
    renames: Seq<(Seq<char>, Seq<char>)>,
    n: int,
) -> Map<u32, Seq<char>>
    decreases n,
{
    if n <= 0 {
        exprs
    } else {
        words_everywhere(
            renamed_exprs(exprs, renames, n - 1),
            renames[n - 1].0,
            renames[n - 1].1,
        )
    }
}

/// The generator once source variables whose names were generated too have other names.
pub open spec fn clashes_resolved(g: Gen, names: Seq<Seq<char>>) -> Gen {
    let g1 = Gen {
        c: Ctx {
            source_names: with_clashes(
                g.c.source_names,
                g.c.temp_pairs,
                memo_temp(g),
                names,
                names.len() as int,
            ),
            ..g.c
        },
        ..g
    };
    let g2 = return_renamed(unpromoted(g1, names), names);
    Gen {
        c: Ctx {
            exprs: renamed_exprs(
                g2.c.exprs,
                g2.c.source_names,
                g2.c.source_names.len() as int,
            ),
            ..g2.c
        },
        ..g2
    }
}

// ---------------------------------------------------------------------------
// Functions that moved out
// ---------------------------------------------------------------------------

/// The position of the first instruction from `i` on with the result `id`.
pub open spec fn first_in_block(instrs: Seq<Instruction>, id: u32, i: int) -> Option<int>
    decreases instrs.len() - i,
{
    if i < 0 || i >= instrs.len() {
        None
    } else if result_id(instrs[i]) == id {
        Some(i)
    } else {
        first_in_block(instrs, id, i + 1)
    }
}

/// `functions` and those called `name` that the first `n` blocks make as `id`.
pub open spec fn with_function(
    functions: Seq<(Seq<char>, Seq<char>, Seq<char>)>,
    outer: Set<Seq<char>>,
    blocks: Seq<(BlockId, BasicBlock)>,
    id: u32,
    name: Seq<char>,
    n: int,
) -> Seq<(Seq<char>, Seq<char>, Seq<char>)>
    decreases n,
{
    if n <= 0 {
        functions
    } else {
        let front = with_function(functions, outer, blocks, id, name, n - 1);
        let instrs = blocks[n - 1].1.instructions@;
        match first_in_block(instrs, id, 0) {
            Some(i) => match instrs[i].value {
                InstructionValue::FunctionExpression { lowered_func, .. } => front.push(
                    (
                        name,
                        params_text(lowered_func.func.params@),
                        inner_body(outer, lowered_func.func),
                    ),
                ),
                _ => front,
            },
            None => front,
        }
    }
}

/// `functions` and the first `n` of those that moved out.
pub open spec fn with_functions(
    functions: Seq<(Seq<char>, Seq<char>, Seq<char>)>,
    c: Ctx,
    blocks: Seq<(BlockId, BasicBlock)>,
    n: int,
) -> Seq<(Seq<char>, Seq<char>, Seq<char>)>
    decreases n,
{
    if n <= 0 {
        functions
    } else {
        with_function(
            with_functions(functions, c, blocks, n - 1),
            c.outer_names,
            blocks,
            c.outlined_pairs[n - 1].0,
            c.outlined_pairs[n - 1].1,
            blocks.len() as int,
        )
    }
}

/// The generator once a function has been looked through.
pub open spec fn analyzed(g: Gen, func: HIRFunction) -> Gen {
    let known = names_known(params_known(g, func), func);
    let g1 = clashes_resolved(
        with_promotions(exprs_known(known.0, func), func, func.body.blocks@.len() as int),
        known.1,
    );
    Gen {
        functions: with_functions(
            g1.functions,
            g1.c,
            func.body.blocks@,
            g1.c.outlined_pairs.len() as int,
        ),
        ..g1
    }
}

// ---------------------------------------------------------------------------
// Execution
// ---------------------------------------------------------------------------

pub fn insert_params(ids: &mut IdSet, params: &Vec<Argument>, unnamed: bool)
    ensures
        final(ids)@ == with_params(old(ids)@, params@, unnamed, params@.len() as int),
{
    let ghost start = ids@;
    let mut i: usize = 0;
    while i < params.len()
        invariant
            i <= params@.len(),
            ids@ == with_params(start, params@, unnamed, i as int),
        decreases params@.len() - i,
    {
        let id = &params[i].place().identifier;
        if !unnamed || id.name.is_none() {
            ids.insert(id.id.0);
        }
        i = i + 1;
    }
}

fn insert_loads(ids: &mut IdSet, instrs: &Vec<&Instruction>)
    ensures
        final(ids)@ == with_loads(old(ids)@, pointees(instrs@), instrs@.len() as int),
{
    let ghost start = ids@;
    let ghost all = pointees(instrs@);
    let mut i: usize = 0;
    while i < instrs.len()
        invariant
            all == pointees(instrs@),
            i <= instrs@.len(),
            ids@ == with_loads(start, all, i as int),
        decreases instrs@.len() - i,
    {
        if let InstructionValue::LoadLocal { place } = &instrs[i].value {
            if ids.contains(place.identifier.id.0) {
                ids.insert(instrs[i].lvalue.identifier.id.0);
            }
        }
        i = i + 1;
    }
}

fn insert_loads_of(ids: &mut IdSet, sources: &IdSet, instrs: &Vec<&Instruction>)
    ensures
        final(ids)@ == with_loads_of(
            old(ids)@,
            sources@,
            pointees(instrs@),
            instrs@.len() as int,
        ),
{
    let ghost start = ids@;
    let ghost all = pointees(instrs@);
    let mut i: usize = 0;
    while i < instrs.len()
        invariant
            all == pointees(instrs@),
            i <= instrs@.len(),
            ids@ == with_loads_of(start, sources@, all, i as int),
        decreases instrs@.len() - i,
    {
        if let InstructionValue::LoadLocal { place } = &instrs[i].value {
            if sources.contains(place.identifier.id.0) {
                ids.insert(instrs[i].lvalue.identifier.id.0);
            }
        }
        i = i + 1;
    }
}

fn insert_unnamed_places(ids: &mut IdSet, places: &Vec<&Place>)
    ensures
        final(ids)@ == with_unnamed(old(ids)@, pointees(places@), places@.len() as int),
{
    assert(refs_are(places@, pointees(places@)));
    insert_unnamed(ids, places);
}

fn insert_defaults(stores: &mut IdSet, loads: &IdSet, instrs: &Vec<&Instruction>)
    ensures
        final(stores)@ == with_defaults(
            Defaults { temps: Set::empty(), stores: old(stores)@ },
            loads@,
            pointees(instrs@),
            instrs@.len() as int,
        ).stores,
{
    let ghost start = Defaults { temps: Set::empty(), stores: stores@ };
    let ghost all = pointees(instrs@);
    let mut temps = IdSet::new();
    let mut i: usize = 0;
    while i < instrs.len()
        invariant
            all == pointees(instrs@),
            i <= instrs@.len(),
            (Defaults { temps: temps@, stores: stores@ }) == with_defaults(
                start,
                loads@,
                all,
                i as int,
            ),
        decreases instrs@.len() - i,
    {
        let id: u32 = instrs[i].lvalue.identifier.id.0;
        match &instrs[i].value {
            InstructionValue::Destructure { lvalue, value, .. } => {
                if loads.contains(value.identifier.id.0) {
                    let places = each_pattern_operand(&lvalue.pattern);
                    assert(pointees(places@).len() == places@.len());
                    insert_unnamed_places(&mut temps, &places);
                }
            },
            InstructionValue::StoreLocal { lvalue, value, .. } => {
                if temps.contains(value.identifier.id.0) {
                    stores.insert(lvalue.place.identifier.id.0);
                }
            },
            InstructionValue::BinaryExpression { left, right, .. } => {
                if temps.contains(left.identifier.id.0) || temps.contains(right.identifier.id.0) {
                    temps.insert(id);
                }
            },
            InstructionValue::Ternary { test, consequent, alternate } => {
                if temps.contains(test.identifier.id.0) || temps.contains(
                    consequent.identifier.id.0,
                ) || temps.contains(alternate.identifier.id.0) {
                    temps.insert(id);
                }
            },
            _ => {},
        }
        i = i + 1;
    }
}

fn add_source_names(names: &mut NameSet, places: &Vec<&Place>)
    ensures
        final(names).list() == with_source_names(
            old(names).list(),
            pointees(places@),
            places@.len() as int,
        ),
{
    let ghost start = names.list();
    let ghost all = pointees(places@);
    let mut i: usize = 0;
    while i < places.len()
        invariant
            all == pointees(places@),
            i <= places@.len(),
            names.list() == with_source_names(start, all, i as int),
        decreases places@.len() - i,
    {
        if let Some(name) = source_name(&places[i].identifier) {
            names.insert(name);
        }
        i = i + 1;
    }
}

fn variable_places_of(value: &InstructionValue) -> (places: Vec<&Place>)
    ensures
        pointees(places@) == variable_places(*value),
{
    let mut places: Vec<&Place> = Vec::new();
    match value {
        InstructionValue::DeclareLocal { lvalue } => {
            places.push(&lvalue.place);
        },
        InstructionValue::DeclareContext { lvalue } => {
            places.push(&lvalue.place);
        },
        InstructionValue::StoreLocal { lvalue, .. } => {
            places.push(&lvalue.place);
        },
        InstructionValue::StoreContext { lvalue, .. } => {
            places.push(&lvalue.place);
        },
        InstructionValue::LoadLocal { place } => {
            places.push(place);
        },
        InstructionValue::LoadContext { place } => {
            places.push(place);
        },
        InstructionValue::Destructure { lvalue, .. } => {
            places = each_pattern_operand(&lvalue.pattern);
        },
        _ => {},
    }
    proof {
        assert(pointees(places@) =~= variable_places(*value));
    }
    places
}

fn find_variable_names(instrs: &Vec<&Instruction>) -> (names: NameSet)
    ensures
        names.list() == variable_names(pointees(instrs@), instrs@.len() as int),
{
    let ghost all = pointees(instrs@);
    let mut names = NameSet::new();
    let mut i: usize = 0;
    while i < instrs.len()
        invariant
            all == pointees(instrs@),
            i <= instrs@.len(),
            names.list() == variable_names(all, i as int),
        decreases instrs@.len() - i,
    {
        let places = variable_places_of(&instrs[i].value);
        assert(pointees(places@).len() == places@.len());
        add_source_names(&mut names, &places);
        i = i + 1;
    }
    names
}

fn find_param_list(params: &Vec<Argument>) -> (names: NameSet)
    ensures
        names.list() == param_list(params@, params@.len() as int),
{
    let mut names = NameSet::new();
    let mut i: usize = 0;
    while i < params.len()
        invariant
            i <= params@.len(),
            names.list() == param_list(params@, i as int),
        decreases params@.len() - i,
    {
        if let Argument::Place(p) = &params[i] {
            if let Some(name) = source_name(&p.identifier) {
                names.insert(name);
            }
        }
        i = i + 1;
    }
    names
}

fn add_param_parts(names: &mut NameSet, params: &IdSet, instrs: &Vec<&Instruction>)
    ensures
        final(names).list() == with_param_parts(
            old(names).list(),
            params@,
            pointees(instrs@),
            instrs@.len() as int,
        ),
{
    let ghost start = names.list();
    let ghost all = pointees(instrs@);
    let mut i: usize = 0;
    while i < instrs.len()
        invariant
            all == pointees(instrs@),
            i <= instrs@.len(),
            names.list() == with_param_parts(start, params@, all, i as int),
        decreases instrs@.len() - i,
    {
        if let InstructionValue::Destructure { lvalue, value, .. } = &instrs[i].value {
            if params.contains(value.identifier.id.0) {
                let places = each_pattern_operand(&lvalue.pattern);
                assert(pointees(places@).len() == places@.len());
                add_source_names(names, &places);
            }
        }
        i = i + 1;
    }
}

fn find_method_ids(instrs: &Vec<&Instruction>) -> (ids: IdSet)
    ensures
        ids@ == method_ids(pointees(instrs@), instrs@.len() as int),
{
    let ghost all = pointees(instrs@);
    let mut ids = IdSet::new();
    let mut i: usize = 0;
    while i < instrs.len()
        invariant
            all == pointees(instrs@),
            i <= instrs@.len(),
            ids@ == method_ids(all, i as int),
        decreases instrs@.len() - i,
    {
        if let InstructionValue::ObjectExpression { properties } = &instrs[i].value {
            let ghost start = ids@;
            let mut j: usize = 0;
            while j < properties.len()
                invariant
                    j <= properties@.len(),
                    ids@ == with_methods(start, properties@, j as int),
                decreases properties@.len() - j,
            {
                if let ObjectPropertyOrSpread::Property(p) = &properties[j] {
                    if p.type_ == ObjectPropertyType::Method {
                        ids.insert(p.place.identifier.id.0);
                    }
                }
                j = j + 1;
            }
        }
        i = i + 1;
    }
    ids
}

/// The name of the function that is moved out as number `k`.
pub fn next_outline_name(k: u64) -> (r: String)
    ensures
        r@ == outline_name(k as nat),
{
    if k == 1 {
        owned("_temp")
    } else {
        let d = decimal_text(k);
        cat2("_temp", &d)
    }
}

fn terminal_places_of(terminal: &Terminal) -> (places: Vec<&Place>)
    ensures
        pointees(places@) == terminal_places(*terminal),
{
    let mut places: Vec<&Place> = Vec::new();
    match terminal {
        Terminal::Return { value, .. } => {
            places.push(value);
        },
        Terminal::Throw { value } => {
            places.push(value);
        },
        Terminal::If { test, .. } => {
            places.push(test);
        },
        Terminal::Branch { test, .. } => {
            places.push(test);
        },
        Terminal::Switch { test, cases, .. } => {
            places.push(test);
            let mut i: usize = 0;
            proof {
                assert(pointees(places@) =~= seq![*test] + case_tests(cases@, 0));
            }
            while i < cases.len()
                invariant
                    i <= cases@.len(),
                    pointees(places@) == seq![*test] + case_tests(cases@, i as int),
                decreases cases@.len() - i,
            {
                if let Some(t) = &cases[i].test {
                    let ghost before = places@;
                    places.push(t);
                    proof {
                        assert(pointees(places@) =~= pointees(before).push(*t));
                        assert(pointees(places@) =~= seq![*test] + case_tests(cases@, i as int + 1));
                    }
                }
                i = i + 1;
            }
        },
        _ => {},
    }
    proof {
        assert(pointees(places@) =~= terminal_places(*terminal));
    }
    places
}

fn loop_targets_of(terminal: &Terminal) -> (r: Option<(BlockId, BlockId)>)
    ensures
        r == loop_targets(*terminal),
{
    match terminal {
        Terminal::For { test, fallthrough, .. } => Some((*fallthrough, *test)),
        Terminal::ForOf { test, fallthrough, .. } => Some((*fallthrough, *test)),
        Terminal::ForIn { loop_block, fallthrough, .. } => Some((*fallthrough, *loop_block)),
        Terminal::While { test, fallthrough, .. } => Some((*fallthrough, *test)),
        Terminal::DoWhile { test, fallthrough, .. } => Some((*fallthrough, *test)),
        _ => None,
    }
}

fn does_bind_catch(terminal: &Terminal) -> (r: bool)
    ensures
        r == binds_catch(*terminal),
{
    match terminal {
        Terminal::Try { handler_binding, .. } => match handler_binding {
            Some(p) => p.identifier.name.is_some(),
            None => false,
        },
        _ => false,
    }
}

pub open spec fn pair_numbers(v: Seq<(u64, u64)>) -> Seq<(nat, u64)> {
    v.map_values(|p: (u64, u64)| (p.0 as nat, p.1))
}

fn add_block_fixups(
    pairs: &mut Vec<(u64, u64)>,
    start_counter: u64,
    blocks: &Vec<(BlockId, BasicBlock)>,
) -> (counter: u64)
    ensures
        (Fixups { pairs: pair_numbers(final(pairs)@), counter }) == with_block_fixups(
            Fixups { pairs: pair_numbers(old(pairs)@), counter: start_counter },
            blocks@,
            blocks@.len() as int,
        ).0,
{
    let ghost start = Fixups { pairs: pair_numbers(pairs@), counter: start_counter };
    let mut counter: u64 = start_counter;
    let mut k: u64 = 0;
    let mut b: usize = 0;
    while b < blocks.len()
        invariant
            b <= blocks@.len(),
            k <= b,
            (Fixups { pairs: pair_numbers(pairs@), counter }, k as nat) == with_block_fixups(
                start,
                blocks@,
                b as int,
            ),
        decreases blocks@.len() - b,
    {
        if does_bind_catch(&blocks[b].1.terminal) {
            let ghost before = pairs@;
            pairs.push((k, counter));
            proof {
                assert(pair_numbers(pairs@) =~= pair_numbers(before).push((k as nat, counter)));
            }
            counter = bump(counter);
            k = k + 1;
        }
        b = b + 1;
    }
    counter
}

fn catch_str(k: u64) -> (r: String)
    ensures
        r@ == catch_text(k as nat),
{
    let t = temp_name_of(k);
    cat3("catch (", &t, ") {")
}

fn find_in_block(instrs: &Vec<Instruction>, id: u32) -> (r: Option<usize>)
    ensures
        match r {
            Some(i) => first_in_block(instrs@, id, 0) == Some(i as int) && i < instrs@.len(),
            None => first_in_block(instrs@, id, 0) is None,
        },
{
    let mut i: usize = 0;
    while i < instrs.len()
        invariant
            i <= instrs@.len(),
            first_in_block(instrs@, id, i as int) == first_in_block(instrs@, id, 0),
        decreases instrs@.len() - i,
    {
        if instrs[i].lvalue.identifier.id.0 == id {
            return Some(i);
        }
        i = i + 1;
    }
    None
}

impl Context {
    fn outline_functions(&mut self, instrs: &Vec<&Instruction>)
        ensures
            final(self)@ == with_outlined(
                old(self)@,
                method_ids(pointees(instrs@), instrs@.len() as int),
                pointees(instrs@),
                instrs@.len() as int,
            ),
    {
        let methods = find_method_ids(instrs);
        let ghost all = pointees(instrs@);
        let ghost start = self@;
        let mut count: u64 = 0;
        let mut i: usize = 0;
        while i < instrs.len()
            invariant
                all == pointees(instrs@),
                i <= instrs@.len(),
                count <= i,
                count == moved_count(start.outer_names, methods@, all, i as int),
                self@.outer_names == start.outer_names,
                self@ == with_outlined(start, methods@, all, i as int),
            decreases instrs@.len() - i,
        {
            if let InstructionValue::FunctionExpression { lowered_func, .. } = &instrs[i].value {
                let id: u32 = instrs[i].lvalue.identifier.id.0;
                if !methods.contains(id) && can_outline_function(
                    &self.outer_scope_names,
                    lowered_func,
                ) {
                    count = count + 1;
                    let name = next_outline_name(count);
                    self.outlined_map.insert(id, name);
                }
            }
            i = i + 1;
        }
    }

    fn rename_hidden(
        &mut self,
        names: &mut NameSet,
        hidden: &NameSet,
        params: &IdSet,
        instrs: &Vec<&Instruction>,
    )
        ensures
            ({
                let r = with_renames(
                    Renames { ids: old(self)@.id_names, names: old(names).list() },
                    hidden.list(),
                    params@,
                    pointees(instrs@),
                    instrs@.len() as int,
                );
                final(self)@ == (Ctx { id_names: r.ids, ..old(self)@ }) && final(names).list()
                    == r.names
            }),
    {
        let ghost all = pointees(instrs@);
        let ghost c = self@;
        let ghost start = Renames { ids: c.id_names, names: names.list() };
        proof {
            hidden.lemma_list();
        }
        let mut i: usize = 0;
        while i < instrs.len()
            invariant
                all == pointees(instrs@),
                i <= instrs@.len(),
                hidden@ == hidden.list().to_set(),
                self@ == (Ctx { id_names: self@.id_names, ..c }),
                (Renames { ids: self@.id_names, names: names.list() }) == with_renames(
                    start,
                    hidden.list(),
                    params@,
                    all,
                    i as int,
                ),
            decreases instrs@.len() - i,
        {
            if let Some(id) = declared_identifier(&instrs[i].value) {
                if let Some(name) = &id.name {
                    if hidden.contains(name.value()) && !params.contains(id.id.0) {
                        proof {
                            names.lemma_list();
                        }
                        let fresh = unshadowed_name(name.value(), names);
                        names.insert(&fresh);
                        self.id_rename_map.insert(id.id.0, fresh);
                    }
                }
            }
            i = i + 1;
        }
    }

    fn consume(&mut self, func: &HIRFunction, instrs: &Vec<&Instruction>)
        ensures
            final(self)@ == with_loops(
                Ctx {
                    consumed: with_terminal_places(
                        unnamed_operands(
                            old(self)@.consumed,
                            pointees(instrs@),
                            instrs@.len() as int,
                        ),
                        func.body.blocks@,
                        func.body.blocks@.len() as int,
                    ),
                    ..old(self)@
                },
                func.body.blocks@,
                func.body.blocks@.len() as int,
            ),
    {
        let blocks = &func.body.blocks;
        insert_unnamed_operands(&mut self.consumed_temps, instrs);
        let ghost used = self@.consumed;
        let ghost c1 = self@;
        let mut b: usize = 0;
        while b < blocks.len()
            invariant
                b <= blocks@.len(),
                self@ == (Ctx {
                    consumed: with_terminal_places(used, blocks@, b as int),
                    ..c1
                }),
            decreases blocks@.len() - b,
        {
            let places = terminal_places_of(&blocks[b].1.terminal);
            assert(pointees(places@).len() == places@.len());
            insert_unnamed_places(&mut self.consumed_temps, &places);
            b = b + 1;
        }
        let ghost c2 = self@;
        let mut k: usize = 0;
        while k < blocks.len()
            invariant
                k <= blocks@.len(),
                self@ == with_loops(c2, blocks@, k as int),
            decreases blocks@.len() - k,
        {
            if let Some((end, test)) = loop_targets_of(&blocks[k].1.terminal) {
                self.loop_fallthrough_blocks.insert(end.0);
                self.loop_test_blocks.insert(test.0);
            }
            k = k + 1;
        }
    }

    fn write_leveled_exprs(&mut self, instrs: &Vec<&Instruction>)
        ensures
            final(self)@ == with_leveled_exprs(
                old(self)@,
                pointees(instrs@),
                instrs@.len() as int,
            ),
    {
        let ghost all = pointees(instrs@);
        let ghost start = self@;
        let mut i: usize = 0;
        while i < instrs.len()
            invariant
                all == pointees(instrs@),
                i <= instrs@.len(),
                self@ == with_leveled_exprs(start, all, i as int),
            decreases instrs@.len() - i,
        {
            let instr: &Instruction = instrs[i];
            self.mark_jsx_kind(instr);
            if let Some(expr) = self.instruction_to_expr(instr) {
                self.note_expr(instr, expr);
            }
            i = i + 1;
        }
    }

    fn name_places(&mut self, places: &Vec<&Place>)
        ensures
            final(self)@ == with_place_names(
                old(self)@,
                pointees(places@),
                places@.len() as int,
            ),
    {
        let ghost all = pointees(places@);
        let ghost start = self@;
        let mut i: usize = 0;
        while i < places.len()
            invariant
                all == pointees(places@),
                i <= places@.len(),
                self@ == with_place_names(start, all, i as int),
            decreases places@.len() - i,
        {
            if places[i].identifier.name.is_none() {
                self.assign_temp_name(places[i].identifier.id.0);
            }
            i = i + 1;
        }
    }

    /// Gives temporary names to the unnamed parts that an instruction takes a value apart into.
    pub fn assign_temp_names_for_operands(&mut self, instr: &Instruction)
        ensures
            final(self)@ == with_place_names(
                old(self)@,
                parts_places(instr.value),
                parts_places(instr.value).len() as int,
            ),
    {
        if let InstructionValue::Destructure { lvalue, .. } = &instr.value {
            let places = each_pattern_operand(&lvalue.pattern);
            assert(pointees(places@).len() == places@.len());
            self.name_places(&places);
        }
    }

    fn name_all(&mut self, instrs: &Vec<&Instruction>)
        ensures
            final(self)@ == with_all_names(
                old(self)@,
                pointees(instrs@),
                instrs@.len() as int,
            ),
    {
        let ghost all = pointees(instrs@);
        let ghost start = self@;
        let mut i: usize = 0;
        while i < instrs.len()
            invariant
                all == pointees(instrs@),
                i <= instrs@.len(),
                self@ == with_all_names(start, all, i as int),
            decreases instrs@.len() - i,
        {
            let id = &instrs[i].lvalue.identifier;
            if id.name.is_none() && !self.expr_map.contains(id.id.0) && !only_binds(
                &instrs[i].value,
            ) {
                self.assign_temp_name(id.id.0);
            }
            self.assign_temp_names_for_operands(instrs[i]);
            i = i + 1;
        }
    }

    fn inline_function_of<'a>(&self, instr: &'a Instruction) -> (r: Option<&'a HIRFunction>)
        ensures
            match r {
                Some(f) => inline_function(self@, *instr) == Some(*f),
                None => inline_function(self@, *instr) is None,
            },
    {
        match &instr.value {
            InstructionValue::FunctionExpression { lowered_func, .. } => {
                if self.outlined_map.contains(instr.lvalue.identifier.id.0) {
                    None
                } else {
                    Some(&lowered_func.func)
                }
            },
            InstructionValue::ObjectMethod { lowered_func } => Some(&lowered_func.func),
            _ => None,
        }
    }

    fn fix_catches(&mut self, instrs: &Vec<&Instruction>)
        ensures
            final(self)@ == catches_fixed(old(self)@, pointees(instrs@)),
    {
        let ghost all = pointees(instrs@);
        let ghost c = self@;
        let mut pairs: Vec<(u64, u64)> = Vec::new();
        let mut counter: u64 = self.temp_name_counter;
        let ghost start = Fixups { pairs: Seq::empty(), counter: c.counter };
        let mut i: usize = 0;
        proof {
            assert(pair_numbers(pairs@) =~= Seq::empty());
        }
        while i < instrs.len()
            invariant
                all == pointees(instrs@),
                i <= instrs@.len(),
                self@ == c,
                (Fixups { pairs: pair_numbers(pairs@), counter }) == with_fixups(
                    c,
                    start,
                    all,
                    i as int,
                ),
            decreases instrs@.len() - i,
        {
            if let Some(func) = self.inline_function_of(instrs[i]) {
                counter = add_block_fixups(&mut pairs, counter, &func.body.blocks);
            }
            i = i + 1;
        }
        self.temp_name_counter = counter;
        let mut k: usize = 0;
        while k < pairs.len()
            invariant
                k <= pairs@.len(),
                self@ == (Ctx {
                    exprs: fixed_exprs(c.exprs, pair_numbers(pairs@), k as int),
                    counter,
                    ..c
                }),
            decreases pairs@.len() - k,
        {
            let old_catch = catch_str(pairs[k].0);
            let new_catch = catch_str(pairs[k].1);
            proof {
                reveal_strlit("catch (");
                assert(pair_numbers(pairs@)[k as int] == (
                    pairs@[k as int].0 as nat,
                    pairs@[k as int].1,
                ));
            }
            self.expr_map.replace_in_all(&old_catch, &new_catch);
            k = k + 1;
        }
    }
}

fn is_generated_name(temps: &IdTexts, memo: &Option<String>, name: &str) -> (r: bool)
    ensures
        r == is_generated(temps.pairs(), maybe_text(*memo), name@),
{
    let ghost pairs = temps.pairs();
    let mut i: usize = 0;
    while i < temps.entries.len()
        invariant
            i <= temps.entries@.len(),
            pairs == temps.pairs(),
            forall|k: int| 0 <= k < i ==> (#[trigger] pairs[k]).1 != name@,
        decreases temps.entries@.len() - i,
    {
        assert(pairs[i as int] == (temps.entries@[i as int].0, temps.entries@[i as int].1@));
        if same(&temps.entries[i].1, name) {
            assert(pairs[i as int].1 == name@);
            return true;
        }
        i = i + 1;
    }
    match memo {
        Some(m) => same(m, name),
        None => false,
    }
}

fn add_clashes(renames: &mut NameMap, temps: &IdTexts, memo: &Option<String>, names: &Vec<String>)
    ensures
        final(renames)@ == with_clashes(
            old(renames)@,
            temps.pairs(),
            maybe_text(*memo),
            texts(names@),
            names@.len() as int,
        ),
{
    let ghost start = renames@;
    let mut i: usize = 0;
    while i < names.len()
        invariant
            i <= names@.len(),
            renames@ == with_clashes(
                start,
                temps.pairs(),
                maybe_text(*memo),
                texts(names@),
                i as int,
            ),
        decreases names@.len() - i,
    {
        assert(texts(names@)[i as int] == names@[i as int]@);
        if is_generated_name(temps, memo, &names[i]) {
            let fresh = cat2(&names[i], "$0");
            renames.push(names[i].clone(), fresh);
        }
        i = i + 1;
    }
}

fn add_function(
    functions: &mut Vec<(String, String, String)>,
    outer: &NameSet,
    blocks: &Vec<(BlockId, BasicBlock)>,
    id: u32,
    name: &str,
)
    ensures
        function_views(final(functions)@) == with_function(
            function_views(old(functions)@),
            outer@,
            blocks@,
            id,
            name@,
            blocks@.len() as int,
        ),
{
    let ghost start = function_views(functions@);
    let mut b: usize = 0;
    while b < blocks.len()
        invariant
            b <= blocks@.len(),
            function_views(functions@) == with_function(
                start,
                outer@,
                blocks@,
                id,
                name@,
                b as int,
            ),
        decreases blocks@.len() - b,
    {
        let instrs = &blocks[b].1.instructions;
        if let Some(i) = find_in_block(instrs, id) {
            if let InstructionValue::FunctionExpression { lowered_func, .. } = &instrs[i].value {
                let body = generate_inner_function_body(outer, &lowered_func.func);
                let params = generate_inner_function_params(&lowered_func.func);
                let ghost before = functions@;
                let ghost entry = (name@, params@, body@);
                functions.push((owned(name), params, body));
                proof {
                    assert(function_views(functions@) =~= function_views(before).push(entry));
                }
            }
        }
        b = b + 1;
    }
}

fn clone_option(s: &Option<String>) -> (r: Option<String>)
    ensures
        maybe_text(r) == maybe_text(*s),
{
    match s {
        Some(t) => Some(t.clone()),
        None => None,
    }
}

impl Generator {
    pub fn new() -> (r: Self)
        ensures
            r@ == new_generator(),
    {
        let r = Generator {
            cx: Context::new(),
            temp_start: 0,
            skip_memo: false,
            is_outlined: false,
            cache_var: owned("$"),
            source_names: NameSet::new(),
            promoted_var: None,
            is_scope_output: false,
            post_scope_return_var: None,
            param_ids: IdSet::new(),
            outlined_functions: Vec::new(),
        };
        proof {
            assert(r@.functions =~= new_generator().functions);
        }
        r
    }

    fn learn_params(&mut self, func: &HIRFunction)
        ensures
            final(self)@ == params_known(old(self)@, *func),
    {
        let entry = entry_instructions_of(func);
        assert(pointees(entry@).len() == entry@.len());
        insert_params(&mut self.param_ids, &func.params, false);
        insert_loads(&mut self.param_ids, &entry);
        if !self.is_outlined {
            let mut anon = IdSet::new();
            insert_params(&mut anon, &func.params, true);
            insert_params(&mut self.cx.destructured_param_load_ids, &func.params, true);
            insert_loads_of(&mut self.cx.destructured_param_load_ids, &anon, &entry);
            insert_defaults(
                &mut self.cx.param_default_stores,
                &self.cx.destructured_param_load_ids,
                &entry,
            );
        }
    }

    fn learn_names(&mut self, func: &HIRFunction, instrs: &Vec<&Instruction>) -> (names: NameSet)
        requires
            pointees(instrs@) == instructions(*func),
        ensures
            (final(self)@, names.list()) == names_known(old(self)@, *func),
    {
        let entry = entry_instructions_of(func);
        assert(pointees(entry@).len() == entry@.len());
        let mut names = find_variable_names(instrs);
        proof {
            names.lemma_list();
        }
        let mut outer = names.copy();
        add_own_params(&mut outer, &func.params);
        self.cache_var = choose_free_name("$", &self.source_names, &outer);
        self.cx.outer_scope_names = outer;
        if !self.is_outlined {
            self.cx.outline_functions(instrs);
        }
        let mut hidden = find_param_list(&func.params);
        add_param_parts(&mut hidden, &self.param_ids, &entry);
        self.cx.rename_hidden(&mut names, &hidden, &self.param_ids, instrs);
        self.cx.consume(func, instrs);
        names
    }

    fn learn_exprs(&mut self, func: &HIRFunction, instrs: &Vec<&Instruction>)
        requires
            pointees(instrs@) == instructions(*func),
        ensures
            final(self)@ == exprs_known(old(self)@, *func),
    {
        self.cx.write_leveled_exprs(instrs);
        self.cx.name_all(instrs);
        self.cx.name_catch_bindings(&func.body.blocks);
        if !self.skip_memo && self.cx.temp_name_counter <= self.temp_start {
            self.cx.temp_name_counter = bump(self.temp_start);
        }
        self.cx.fix_catches(instrs);
        self.cx.settle();
    }

    fn promote(&mut self, instrs: &Vec<&Instruction>, name: String)
        ensures
            final(self)@ == promoted_to(old(self)@, pointees(instrs@), name@),
    {
        find_promoted_stores(instrs, &name, &mut self.cx.promoted_store_ids);
        self.promoted_var = Some(name);
    }

    fn learn_promotion(&mut self, instrs: &Vec<&Instruction>, value: &Place)
        ensures
            final(self)@ == with_promotion(old(self)@, pointees(instrs@), *value),
    {
        match self.cx.find_scope_output_var(instrs, value) {
            Some(root) => {
                let returned = self.cx.get_named_var(value);
                let is_root = match &returned {
                    Some(n) => same(n, &root),
                    None => false,
                };
                if !is_root {
                    self.is_scope_output = true;
                    self.post_scope_return_var = returned;
                }
                self.promote(instrs, root);
            },
            None => {
                if !is_return_place_from_load_global(instrs, value) {
                    if let Some(name) = self.cx.get_named_var(value) {
                        if count_loads_of_var(instrs, &name) > 1 {
                            self.promote(instrs, name);
                        } else {
                            self.is_scope_output = true;
                            self.post_scope_return_var = Some(name);
                        }
                    }
                }
            },
        }
    }

    fn learn_promotions(&mut self, func: &HIRFunction, instrs: &Vec<&Instruction>)
        requires
            pointees(instrs@) == instructions(*func),
        ensures
            final(self)@ == with_promotions(
                old(self)@,
                *func,
                func.body.blocks@.len() as int,
            ),
    {
        let ghost start = self@;
        let mut b: usize = 0;
        while b < func.body.blocks.len()
            invariant
                pointees(instrs@) == instructions(*func),
                b <= func.body.blocks@.len(),
                self@ == with_promotions(start, *func, b as int),
            decreases func.body.blocks@.len() - b,
        {
            if let Terminal::Return { value, return_variant } = &func.body.blocks[b].1.terminal {
                if *return_variant != ReturnVariant::Void {
                    self.learn_promotion(instrs, value);
                }
            }
            b = b + 1;
        }
    }

    fn find_clashes(&mut self, names: &NameSet)
        ensures
            final(self)@ == (Gen {
                c: Ctx {
                    source_names: with_clashes(
                        old(self)@.c.source_names,
                        old(self)@.c.temp_pairs,
                        memo_temp(old(self)@),
                        names.list(),
                        names.list().len() as int,
                    ),
                    ..old(self)@.c
                },
                ..old(self)@
            }),
    {
        let memo: Option<String> = if self.promoted_var.is_none() {
            Some(temp_name_of(self.temp_start))
        } else {
            None
        };
        let v = names.in_order();
        assert(texts(v@).len() == v@.len());
        add_clashes(&mut self.cx.source_rename_map, &self.cx.temp_name_map, &memo, v);
    }

    fn unpromote(&mut self, names: &NameSet)
        ensures
            final(self)@ == unpromoted(old(self)@, names.list()),
    {
        proof {
            names.lemma_list();
        }
        let promoted = clone_option(&self.promoted_var);
        if let Some(pv) = promoted {
            let clash = is_temp_name_text(&pv) && self.cx.source_rename_map.get(&pv).is_none()
                && names.contains(&pv);
            if clash {
                let fresh = cat2(&pv, "$0");
                self.cx.expr_map.replace_words_in_all(&pv, &fresh);
                self.cx.source_rename_map.push(pv.clone(), fresh);
            }
            let renamed: Option<String> = match self.cx.source_rename_map.get(&pv) {
                Some(r) => Some(r.clone()),
                None => None,
            };
            if renamed.is_some() {
                self.promoted_var = None;
                self.cx.promoted_store_ids = IdSet::new();
                self.is_scope_output = true;
                self.post_scope_return_var = renamed;
            }
        }
    }

    fn rename_return(&mut self, names: &NameSet)
        ensures
            final(self)@ == return_renamed(old(self)@, names.list()),
    {
        proof {
            names.lemma_list();
        }
        let post = clone_option(&self.post_scope_return_var);
        if let Some(name) = post {
            let mut current = name.clone();
            let clash = is_temp_name_text(&name) && names.contains(&name)
                && self.cx.source_rename_map.get(&name).is_none();
            if clash {
                let fresh = cat2(&name, "$0");
                self.cx.source_rename_map.push(name, fresh.clone());
                current = fresh.clone();
                self.post_scope_return_var = Some(fresh);
            }
            let renamed: Option<String> = match self.cx.source_rename_map.get(&current) {
                Some(r) => Some(r.clone()),
                None => None,
            };
            if renamed.is_some() {
                self.post_scope_return_var = renamed;
            }
        }
    }

    fn resolve_clashes(&mut self, names: &NameSet)
        ensures
            final(self)@ == clashes_resolved(old(self)@, names.list()),
    {
        self.find_clashes(names);
        self.unpromote(names);
        self.rename_return(names);
        let ghost g = self@;
        let mut i: usize = 0;
        while i < self.cx.source_rename_map.entries.len()
            invariant
                i <= self.cx.source_rename_map.entries@.len(),
                g.c.source_names == self.cx.source_rename_map@,
                self@ == (Gen {
                    c: Ctx {
                        exprs: renamed_exprs(g.c.exprs, g.c.source_names, i as int),
                        ..g.c
                    },
                    ..g
                }),
            decreases self.cx.source_rename_map.entries@.len() - i,
        {
            proof {
                assert(g.c.source_names[i as int] == (
                    self.cx.source_rename_map.entries@[i as int].0@,
                    self.cx.source_rename_map.entries@[i as int].1@,
                ));
            }
            self.cx.expr_map.replace_words_in_all(
                &self.cx.source_rename_map.entries[i].0,
                &self.cx.source_rename_map.entries[i].1,
            );
            i = i + 1;
        }
    }

    fn add_functions(&mut self, func: &HIRFunction)
        ensures
            final(self)@ == (Gen {
                functions: with_functions(
                    old(self)@.functions,
                    old(self)@.c,
                    func.body.blocks@,
                    old(self)@.c.outlined_pairs.len() as int,
                ),
                ..old(self)@
            }),
    {
        let ghost start = self@;
        let mut i: usize = 0;
        while i < self.cx.outlined_map.entries.len()
            invariant
                i <= self.cx.outlined_map.entries@.len(),
                start.c == self.cx@,
                self@ == (Gen { functions: self@.functions, ..start }),
                self@.functions == with_functions(
                    start.functions,
                    start.c,
                    func.body.blocks@,
                    i as int,
                ),
            decreases self.cx.outlined_map.entries@.len() - i,
        {
            proof {
                assert(start.c.outlined_pairs[i as int] == (
                    self.cx.outlined_map.entries@[i as int].0,
                    self.cx.outlined_map.entries@[i as int].1@,
                ));
            }
            add_function(
                &mut self.outlined_functions,
                &self.cx.outer_scope_names,
                &func.body.blocks,
                self.cx.outlined_map.entries[i].0,
                &self.cx.outlined_map.entries[i].1,
            );
            i = i + 1;
        }
    }

    /// Looks through a function: names, expressions and the variable that is kept.
    pub fn analyze(&mut self, func: &HIRFunction)
        ensures
            final(self)@ == analyzed(old(self)@, *func),
    {
        let instrs = instructions_of(func);
        assert(pointees(instrs@).len() == instrs@.len());
        self.learn_params(func);
        let names = self.learn_names(func, &instrs);
        self.learn_exprs(func, &instrs);
        self.learn_promotions(func, &instrs);
        self.resolve_clashes(&names);
        self.add_functions(func);
    }
}

} // verus!

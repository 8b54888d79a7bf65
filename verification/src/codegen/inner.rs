//! Functions inside of a function: how their parameters and bodies are written.

use vstd::prelude::*;

use crate::codegen::blocks::{
    full_depth, option_text, push_some, row_stmts, row_view, rows_match, rows_view, terminal_stmt,
    Rendered, Rendering, Walk, Walker,
};
use crate::codegen::context::{
    bump, empty_ctx, fallback_name, fallback_text, next_number, place_text, temp_name_of,
    temp_text, with_temp_name, Context, Ctx,
};
use crate::codegen::exprs::{
    declaration_str, declaration_text, function_str, function_text, plain_expr, plain_stmt,
    with_written,
};
use crate::codegen::owned::{find_owned_blocks, owned_blocks};
use crate::codegen::print::words_replaced;
use crate::collections::{find_free_name, least_free, numbered, IdSet, NameSet};
use crate::graph::{
    instructions, instructions_of, lemma_block_instruction_smaller, lemma_instruction_smaller,
    operands, operands_of, pointees, refs_are,
};
use crate::hir::{
    Argument, BasicBlock, BlockId, FunctionExpressionType, HIRFunction, Identifier, Instruction,
    InstructionKind, InstructionValue, Place, ReturnVariant, Terminal,
};
use crate::text::{cat2, cat3, extend_texts, join, joined, owned, same, texts};

verus! {

broadcast use crate::text::group_texts;

// ---------------------------------------------------------------------------
// The context of an inner function
// ---------------------------------------------------------------------------

/// `ids` and the unnamed ones of the first `n` places.
pub open spec fn with_unnamed(ids: Set<u32>, places: Seq<Place>, n: int) -> Set<u32>
    decreases n,
{
    if n <= 0 {
        ids
    } else {
        let front = with_unnamed(ids, places, n - 1);
        if places[n - 1].identifier.name is None {
            front.insert(places[n - 1].identifier.id.0)
        } else {
            front
        }
    }
}

/// `ids` and the unnamed operands of the first `n` instructions.
pub open spec fn unnamed_operands(ids: Set<u32>, instrs: Seq<Instruction>, n: int) -> Set<u32>
    decreases n,
{
    if n <= 0 {
        ids
    } else {
        let places = operands(instrs[n - 1].value);
        with_unnamed(unnamed_operands(ids, instrs, n - 1), places, places.len() as int)
    }
}

/// What a terminal returns or throws.
pub open spec fn exit_places(terminal: Terminal) -> Seq<Place> {
    match terminal {
        Terminal::Return { value, .. } => seq![value],
        Terminal::Throw { value } => seq![value],
        _ => Seq::empty(),
    }
}

/// `ids` and the unnamed values with which the first `n` blocks leave the function.
pub open spec fn unnamed_exits(ids: Set<u32>, blocks: Seq<(BlockId, BasicBlock)>, n: int) -> Set<u32>
    decreases n,
{
    if n <= 0 {
        ids
    } else {
        let places = exit_places(blocks[n - 1].1.terminal);
        with_unnamed(unnamed_exits(ids, blocks, n - 1), places, places.len() as int)
    }
}

/// The unnamed temporaries that an inner function uses.
pub open spec fn inner_consumed(func: HIRFunction) -> Set<u32> {
    let instrs = instructions(func);
    unnamed_exits(
        unnamed_operands(Set::empty(), instrs, instrs.len() as int),
        func.body.blocks@,
        func.body.blocks@.len() as int,
    )
}

/// The identifier that an instruction newly declares.
pub open spec fn declares(value: InstructionValue) -> Option<Identifier> {
    match value {
        InstructionValue::StoreLocal { lvalue, .. } => if lvalue.kind == InstructionKind::Reassign {
            None
        } else {
            Some(lvalue.place.identifier)
        },
        InstructionValue::DeclareLocal { lvalue } => Some(lvalue.place.identifier),
        _ => None,
    }
}

/// The name for a declaration that hides one of the `outer` names: the name, an underscore and the
/// least number with which it is free.
pub open spec fn unshadowed(name: Seq<char>, outer: Set<Seq<char>>) -> Seq<char> {
    numbered(name + "_"@, least_free(name + "_"@, 0, outer))
}

/// The context after the declarations of the first `n` instructions that hide an outer name have
/// got other names.
pub open spec fn with_unshadowed(
    c: Ctx,
    outer: Set<Seq<char>>,
    instrs: Seq<Instruction>,
    n: int,
) -> Ctx
    decreases n,
{
    if n <= 0 {
        c
    } else {
        let front = with_unshadowed(c, outer, instrs, n - 1);
        match declares(instrs[n - 1].value) {
            Some(id) => match id.name {
                Some(name) => if outer.contains(name.text()) {
                    Ctx {
                        id_names: front.id_names.insert(id.id.0, unshadowed(name.text(), outer)),
                        ..front
                    }
                } else {
                    front
                },
                None => front,
            },
            None => front,
        }
    }
}

/// The context after the unnamed ones of the first `n` parameters have got temporary names.
pub open spec fn with_param_names(c: Ctx, params: Seq<Argument>, n: int) -> Ctx
    decreases n,
{
    if n <= 0 {
        c
    } else {
        let front = with_param_names(c, params, n - 1);
        let id = params[n - 1].place_of().identifier;
        if id.name is None {
            with_temp_name(front, id.id.0)
        } else {
            front
        }
    }
}

/// The context with what is known of an instruction as a child of a JSX element.
pub open spec fn with_jsx_kind(c: Ctx, instr: Instruction) -> Ctx {
    let id = instr.lvalue.identifier.id.0;
    match instr.value {
        InstructionValue::JSXText { .. } => Ctx { text_ids: c.text_ids.insert(id), ..c },
        InstructionValue::JsxExpression { .. } => Ctx { element_ids: c.element_ids.insert(id), ..c },
        InstructionValue::JsxFragment { .. } => Ctx { element_ids: c.element_ids.insert(id), ..c },
        _ => c,
    }
}

/// Whether an instruction binds names by a pattern or declaration and has no result of its own.
pub open spec fn binds_only(value: InstructionValue) -> bool {
    match value {
        InstructionValue::Destructure { .. } => true,
        InstructionValue::DeclareLocal { .. } => true,
        InstructionValue::DeclareContext { .. } => true,
        _ => false,
    }
}

/// The context after the results of the first `n` instructions that are neither named nor written in
/// place have got temporary names.
pub open spec fn with_result_names(c: Ctx, instrs: Seq<Instruction>, n: int) -> Ctx
    decreases n,
{
    if n <= 0 {
        c
    } else {
        let front = with_result_names(c, instrs, n - 1);
        let id = instrs[n - 1].lvalue.identifier;
        if id.name is None && !front.exprs.contains_key(id.id.0) && !binds_only(
            instrs[n - 1].value,
        ) {
            with_temp_name(front, id.id.0)
        } else {
            front
        }
    }
}

/// The context after the named bindings of the catch clauses among the first `n` blocks have got
/// temporary names.
pub open spec fn with_catch_names(c: Ctx, blocks: Seq<(BlockId, BasicBlock)>, n: int) -> Ctx
    decreases n,
{
    if n <= 0 {
        c
    } else {
        let front = with_catch_names(c, blocks, n - 1);
        match blocks[n - 1].1.terminal {
            Terminal::Try { handler_binding, .. } => match handler_binding {
                Some(p) => if p.identifier.name is Some {
                    Ctx {
                        id_names: front.id_names.insert(
                            p.identifier.id.0,
                            temp_text(front.counter as nat),
                        ),
                        counter: next_number(front.counter),
                        ..front
                    }
                } else {
                    front
                },
                None => front,
            },
            _ => front,
        }
    }
}

/// The expressions with the stand-ins of the first `n` temporaries replaced by their names.
pub open spec fn with_temps_replaced(
    exprs: Map<u32, Seq<char>>,
    pairs: Seq<(u32, Seq<char>)>,
    n: int,
) -> Map<u32, Seq<char>>
    decreases n,
{
    if n <= 0 {
        exprs
    } else {
        with_temps_replaced(exprs, pairs, n - 1).map_values(
            |t: Seq<char>| words_replaced(t, fallback_text(pairs[n - 1].0), pairs[n - 1].1),
        )
    }
}

pub open spec fn settled(c: Ctx) -> Ctx {
    Ctx { exprs: with_temps_replaced(c.exprs, c.temp_pairs, c.temp_pairs.len() as int), ..c }
}

/// The context in which the expressions of an inner function are written.
pub open spec fn inner_start(outer: Set<Seq<char>>, func: HIRFunction) -> Ctx {
    let instrs = instructions(func);
    let c = Ctx { consumed: inner_consumed(func), ..empty_ctx() };
    with_param_names(
        with_unshadowed(c, outer, instrs, instrs.len() as int),
        func.params@,
        func.params@.len() as int,
    )
}

/// The context of an inner function once its expressions are written: temporaries and catch bindings
/// have their names.
pub open spec fn inner_end(c: Ctx, func: HIRFunction) -> Ctx {
    let instrs = instructions(func);
    settled(
        with_catch_names(
            with_result_names(c, instrs, instrs.len() as int),
            func.body.blocks@,
            func.body.blocks@.len() as int,
        ),
    )
}

// ---------------------------------------------------------------------------
// Instructions
// ---------------------------------------------------------------------------

pub open spec fn optional_name(name: Option<String>) -> Seq<char> {
    match name {
        Some(n) => n@,
        None => ""@,
    }
}

/// The expression that computes what an instruction does, where there is one. A function that stands
/// outside is written as its name there.
pub open spec fn expr_text(c: Ctx, instr: Instruction) -> Option<Seq<char>>
    decreases instr, 0nat, 0nat,
{
    match instr.value {
        InstructionValue::FunctionExpression { name, lowered_func, expr_type } => {
            let id = instr.lvalue.identifier.id.0;
            if c.outlined.contains_key(id) {
                Some(c.outlined[id])
            } else {
                Some(
                    function_text(
                        expr_type,
                        optional_name(name),
                        params_text(lowered_func.func.params@),
                        inner_body(c.outer_names, lowered_func.func),
                    ),
                )
            }
        },
        _ => plain_expr(c, instr.value),
    }
}

/// The statement that an instruction is written as, where it is one.
pub open spec fn stmt_text(c: Ctx, instr: Instruction) -> Option<Seq<char>>
    decreases instr, 0nat, 0nat,
{
    match instr.value {
        InstructionValue::FunctionExpression { name, lowered_func, expr_type } => match name {
            Some(n) => if expr_type == FunctionExpressionType::FunctionDeclaration {
                if c.consumed.contains(instr.lvalue.identifier.id.0) {
                    None
                } else {
                    Some(
                        declaration_text(
                            n@,
                            params_text(lowered_func.func.params@),
                            inner_body(c.outer_names, lowered_func.func),
                        ),
                    )
                }
            } else {
                plain_stmt(c, instr)
            },
            None => plain_stmt(c, instr),
        },
        _ => plain_stmt(c, instr),
    }
}

/// The context after the expressions of the first `n` instructions have been written.
pub open spec fn with_exprs(c: Ctx, func: HIRFunction, n: int) -> Ctx
    decreases func, 1nat, n,
{
    if n <= 0 || n > instructions(func).len() {
        c
    } else {
        let front = with_exprs(c, func, n - 1);
        let instr = instructions(func)[n - 1];
        proof {
            lemma_instruction_smaller(func, n - 1);
        }
        let marked = with_jsx_kind(front, instr);
        with_written(marked, instr, expr_text(marked, instr))
    }
}

/// The first `n` instructions of block `b` as they are written.
pub open spec fn rendered_row(c: Ctx, func: HIRFunction, b: int, n: int) -> Seq<Rendering>
    decreases func, 1nat, n,
{
    if n <= 0 || b < 0 || b >= func.body.blocks@.len()
        || n > func.body.blocks@[b].1.instructions@.len() {
        Seq::empty()
    } else {
        let instr = func.body.blocks@[b].1.instructions@[n - 1];
        proof {
            lemma_block_instruction_smaller(func, b, n - 1);
        }
        rendered_row(c, func, b, n - 1).push(
            Rendering { stmt: stmt_text(c, instr), expr: expr_text(c, instr) },
        )
    }
}

/// The instructions of the first `n` blocks as they are written.
pub open spec fn rendered_rows(c: Ctx, func: HIRFunction, n: int) -> Seq<Seq<Rendering>>
    decreases func, 2nat, n,
{
    if n <= 0 || n > func.body.blocks@.len() {
        Seq::empty()
    } else {
        rendered_rows(c, func, n - 1).push(
            rendered_row(c, func, n - 1, func.body.blocks@[n - 1].1.instructions@.len() as int),
        )
    }
}

/// What is walked to write the blocks of a function in a context.
pub open spec fn walk_of(c: Ctx, func: HIRFunction) -> Walk
    decreases func, 3nat, 0nat,
{
    Walk {
        c,
        blocks: func.body.blocks@,
        rows: rendered_rows(c, func, func.body.blocks@.len() as int),
    }
}

/// The statements of the first `n` blocks that stand on their own, and the value that is returned.
pub open spec fn top_level(w: Walk, owned: Set<u32>, n: int) -> (Seq<Seq<char>>, Option<Seq<char>>)
    decreases n,
{
    if n <= 0 {
        (Seq::empty(), None)
    } else {
        let front = top_level(w, owned, n - 1);
        let block = w.blocks[n - 1].1;
        if owned.contains(block.id.0) {
            front
        } else {
            let stmts = front.0 + row_stmts(w.rows[n - 1], w.rows[n - 1].len() as int);
            match block.terminal {
                Terminal::Return { value, return_variant } => (
                    stmts,
                    if return_variant == ReturnVariant::Void {
                        front.1
                    } else {
                        Some(place_text(w.c, value))
                    },
                ),
                _ => (
                    push_some(
                        stmts,
                        terminal_stmt(w, full_depth(w.blocks), block.terminal, true),
                    ),
                    front.1,
                ),
            }
        }
    }
}

pub open spec fn directive_text(d: Seq<char>) -> Seq<char> {
    "\""@ + d + "\";"@
}

pub open spec fn indented(line: Seq<char>) -> Seq<char> {
    "  "@ + line
}

/// Directives, statements and a `return`, each on a line, indented once.
pub open spec fn body_text(
    directives: Seq<Seq<char>>,
    stmts: Seq<Seq<char>>,
    ret: Option<Seq<char>>,
) -> Seq<char> {
    let lines = directives.map_values(|d: Seq<char>| directive_text(d)) + stmts;
    let all = match ret {
        Some(r) => if r == "undefined"@ {
            lines
        } else {
            lines.push("return "@ + r + ";"@)
        },
        None => lines,
    };
    joined(all.map_values(|l: Seq<char>| indented(l)), "\n"@)
}

/// The body of an inner function, in a function where `outer` names are declared.
pub open spec fn inner_body(outer: Set<Seq<char>>, func: HIRFunction) -> Seq<char>
    decreases func, 4nat, 0nat,
{
    let c = inner_end(
        with_exprs(inner_start(outer, func), func, instructions(func).len() as int),
        func,
    );
    let w = walk_of(c, func);
    let top = top_level(w, owned_blocks(w.blocks, None), w.blocks.len() as int);
    body_text(texts(func.directives@), top.0, top.1)
}

/// How many of the first `n` parameters have no name.
pub open spec fn unnamed_before(params: Seq<Argument>, n: int) -> nat
    decreases n,
{
    if n <= 0 {
        0
    } else {
        unnamed_before(params, n - 1) + if params[n - 1].place_of().identifier.name is None {
            1nat
        } else {
            0nat
        }
    }
}

/// Parameter `i`; the unnamed ones are `t0`, `t1` and so on.
pub open spec fn param_text(params: Seq<Argument>, i: int) -> Seq<char> {
    let name = match params[i].place_of().identifier.name {
        Some(n) => n.text(),
        None => temp_text(unnamed_before(params, i)),
    };
    match params[i] {
        Argument::Place(_) => name,
        Argument::Spread(_) => "..."@ + name,
    }
}

pub open spec fn params_text(params: Seq<Argument>) -> Seq<char> {
    joined(Seq::new(params.len(), |i: int| param_text(params, i)), ", "@)
}

// ---------------------------------------------------------------------------
// Execution
// ---------------------------------------------------------------------------

pub fn insert_unnamed(ids: &mut IdSet, places: &Vec<&Place>)
    ensures
        forall|s: Seq<Place>| #[trigger]
            refs_are(places@, s) ==> final(ids)@ == with_unnamed(old(ids)@, s, s.len() as int),
{
    let ghost start = ids@;
    let ghost all = Seq::new(places@.len(), |k: int| *places@[k]);
    let mut i: usize = 0;
    while i < places.len()
        invariant
            i <= places@.len(),
            all == Seq::new(places@.len(), |k: int| *places@[k]),
            ids@ == with_unnamed(start, all, i as int),
        decreases places@.len() - i,
    {
        if places[i].identifier.name.is_none() {
            ids.insert(places[i].identifier.id.0);
        }
        i = i + 1;
    }
    proof {
        assert forall|s: Seq<Place>| #[trigger] refs_are(places@, s) implies ids@ == with_unnamed(
            start,
            s,
            s.len() as int,
        ) by {
            assert(all =~= s);
        }
    }
}

pub fn insert_unnamed_operands(ids: &mut IdSet, instrs: &Vec<&Instruction>)
    ensures
        final(ids)@ == unnamed_operands(old(ids)@, pointees(instrs@), instrs@.len() as int),
{
    let ghost all = pointees(instrs@);
    let ghost start = ids@;
    let mut i: usize = 0;
    while i < instrs.len()
        invariant
            all == pointees(instrs@),
            i <= instrs@.len(),
            ids@ == unnamed_operands(start, all, i as int),
        decreases instrs@.len() - i,
    {
        let places = operands_of(&instrs[i].value);
        insert_unnamed(ids, &places);
        i = i + 1;
    }
}

fn find_inner_consumed(func: &HIRFunction, instrs: &Vec<&Instruction>) -> (ids: IdSet)
    requires
        pointees(instrs@) == instructions(*func),
    ensures
        ids@ == inner_consumed(*func),
{
    let mut ids = IdSet::new();
    insert_unnamed_operands(&mut ids, instrs);
    let ghost used = ids@;
    let mut b: usize = 0;
    while b < func.body.blocks.len()
        invariant
            b <= func.body.blocks@.len(),
            ids@ == unnamed_exits(used, func.body.blocks@, b as int),
        decreases func.body.blocks@.len() - b,
    {
        let mut exits: Vec<&Place> = Vec::new();
        match &func.body.blocks[b].1.terminal {
            Terminal::Return { value, .. } => {
                exits.push(value);
            },
            Terminal::Throw { value } => {
                exits.push(value);
            },
            _ => {},
        }
        assert(refs_are(exits@, exit_places(func.body.blocks@[b as int].1.terminal)));
        insert_unnamed(&mut ids, &exits);
        b = b + 1;
    }
    ids
}

pub fn declared_identifier(value: &InstructionValue) -> (r: Option<&Identifier>)
    ensures
        match r {
            Some(id) => declares(*value) == Some(*id),
            None => declares(*value) is None,
        },
{
    match value {
        InstructionValue::StoreLocal { lvalue, .. } => if lvalue.kind == InstructionKind::Reassign {
            None
        } else {
            Some(&lvalue.place.identifier)
        },
        InstructionValue::DeclareLocal { lvalue } => Some(&lvalue.place.identifier),
        _ => None,
    }
}

pub fn only_binds(value: &InstructionValue) -> (r: bool)
    ensures
        r == binds_only(*value),
{
    match value {
        InstructionValue::Destructure { .. } => true,
        InstructionValue::DeclareLocal { .. } => true,
        InstructionValue::DeclareContext { .. } => true,
        _ => false,
    }
}

pub fn unshadowed_name(name: &str, outer: &NameSet) -> (r: String)
    ensures
        r@ == unshadowed(name@, outer@),
{
    let base = cat2(name, "_");
    proof {
        assert(outer@.union(outer@) =~= outer@);
    }
    find_free_name(&base, 0, outer, outer)
}

/// The parameters of an inner function; the unnamed ones are `t0`, `t1` and so on.
pub fn generate_inner_function_params(func: &HIRFunction) -> (r: String)
    ensures
        r@ == params_text(func.params@),
{
    let mut parts: Vec<String> = Vec::new();
    let mut unnamed: u64 = 0;
    let mut i: usize = 0;
    while i < func.params.len()
        invariant
            i <= func.params@.len(),
            unnamed == unnamed_before(func.params@, i as int),
            unnamed <= i,
            parts@.len() == i,
            forall|k: int| 0 <= k < i ==> (#[trigger] parts@[k])@ == param_text(func.params@, k),
        decreases func.params@.len() - i,
    {
        let name: String = match &func.params[i].place().identifier.name {
            Some(n) => owned(n.value()),
            None => {
                let t = temp_name_of(unnamed);
                unnamed = unnamed + 1;
                t
            },
        };
        let part = match &func.params[i] {
            Argument::Place(_) => name,
            Argument::Spread(_) => cat2("...", &name),
        };
        parts.push(part);
        i = i + 1;
    }
    proof {
        assert(texts(parts@) =~= Seq::new(
            func.params@.len(),
            |i: int| param_text(func.params@, i),
        ));
    }
    join(&parts, ", ")
}

fn body_str(directives: &Vec<String>, stmts: Vec<String>, ret: Option<String>) -> (r: String)
    ensures
        r@ == body_text(texts(directives@), texts(stmts@), option_text(ret)),
{
    let mut lines: Vec<String> = Vec::new();
    let ghost ds = texts(directives@).map_values(|d: Seq<char>| directive_text(d));
    let mut i: usize = 0;
    while i < directives.len()
        invariant
            i <= directives@.len(),
            lines@.len() == i,
            forall|k: int|
                0 <= k < i ==> (#[trigger] lines@[k])@ == directive_text(directives@[k]@),
        decreases directives@.len() - i,
    {
        lines.push(cat3("\"", &directives[i], "\";"));
        i = i + 1;
    }
    proof {
        assert(texts(lines@) =~= ds);
    }
    extend_texts(&mut lines, &stmts);
    if let Some(text) = &ret {
        if !same(text, "undefined") {
            lines.push(cat3("return ", text, ";"));
        }
    }
    let mut out: Vec<String> = Vec::new();
    let mut j: usize = 0;
    while j < lines.len()
        invariant
            j <= lines@.len(),
            out@.len() == j,
            forall|k: int| 0 <= k < j ==> (#[trigger] out@[k])@ == indented(lines@[k]@),
        decreases lines@.len() - j,
    {
        out.push(cat2("  ", &lines[j]));
        j = j + 1;
    }
    proof {
        assert(texts(out@) =~= texts(lines@).map_values(|l: Seq<char>| indented(l)));
    }
    join(&out, "\n")
}

impl Context {
    fn rename_shadowing(&mut self, outer: &NameSet, instrs: &Vec<&Instruction>)
        ensures
            final(self)@ == with_unshadowed(
                old(self)@,
                outer@,
                pointees(instrs@),
                instrs@.len() as int,
            ),
    {
        let ghost start = self@;
        let ghost all = pointees(instrs@);
        let mut i: usize = 0;
        while i < instrs.len()
            invariant
                i <= instrs@.len(),
                all == pointees(instrs@),
                self@ == with_unshadowed(start, outer@, all, i as int),
            decreases instrs@.len() - i,
        {
            if let Some(id) = declared_identifier(&instrs[i].value) {
                if let Some(name) = &id.name {
                    if outer.contains(name.value()) {
                        let fresh = unshadowed_name(name.value(), outer);
                        self.id_rename_map.insert(id.id.0, fresh);
                    }
                }
            }
            i = i + 1;
        }
    }

    pub fn name_params(&mut self, params: &Vec<Argument>)
        ensures
            final(self)@ == with_param_names(old(self)@, params@, params@.len() as int),
    {
        let ghost start = self@;
        let mut i: usize = 0;
        while i < params.len()
            invariant
                i <= params@.len(),
                self@ == with_param_names(start, params@, i as int),
            decreases params@.len() - i,
        {
            let place = params[i].place();
            if place.identifier.name.is_none() {
                self.assign_temp_name(place.identifier.id.0);
            }
            i = i + 1;
        }
    }

    pub fn mark_jsx_kind(&mut self, instr: &Instruction)
        ensures
            final(self)@ == with_jsx_kind(old(self)@, *instr),
    {
        let id: u32 = instr.lvalue.identifier.id.0;
        match &instr.value {
            InstructionValue::JSXText { .. } => {
                self.jsx_text_ids.insert(id);
            },
            InstructionValue::JsxExpression { .. } => {
                self.jsx_element_ids.insert(id);
            },
            InstructionValue::JsxFragment { .. } => {
                self.jsx_element_ids.insert(id);
            },
            _ => {},
        }
    }

    fn name_results(&mut self, instrs: &Vec<&Instruction>)
        ensures
            final(self)@ == with_result_names(
                old(self)@,
                pointees(instrs@),
                instrs@.len() as int,
            ),
    {
        let ghost start = self@;
        let ghost all = pointees(instrs@);
        let mut i: usize = 0;
        while i < instrs.len()
            invariant
                i <= instrs@.len(),
                all == pointees(instrs@),
                self@ == with_result_names(start, all, i as int),
            decreases instrs@.len() - i,
        {
            let id = &instrs[i].lvalue.identifier;
            if id.name.is_none() && !self.expr_map.contains(id.id.0) && !only_binds(
                &instrs[i].value,
            ) {
                self.assign_temp_name(id.id.0);
            }
            i = i + 1;
        }
    }

    pub fn name_catch_bindings(&mut self, blocks: &Vec<(BlockId, BasicBlock)>)
        ensures
            final(self)@ == with_catch_names(old(self)@, blocks@, blocks@.len() as int),
    {
        let ghost start = self@;
        let mut b: usize = 0;
        while b < blocks.len()
            invariant
                b <= blocks@.len(),
                self@ == with_catch_names(start, blocks@, b as int),
            decreases blocks@.len() - b,
        {
            if let Terminal::Try { handler_binding, .. } = &blocks[b].1.terminal {
                if let Some(p) = handler_binding {
                    if p.identifier.name.is_some() {
                        let name = temp_name_of(self.temp_name_counter);
                        self.temp_name_counter = bump(self.temp_name_counter);
                        self.id_rename_map.insert(p.identifier.id.0, name);
                    }
                }
            }
            b = b + 1;
        }
    }

    /// Puts the names of temporaries in place of their stand-ins.
    pub fn settle(&mut self)
        ensures
            final(self)@ == settled(old(self)@),
    {
        let ghost start = self@;
        let mut i: usize = 0;
        while i < self.temp_name_map.entries.len()
            invariant
                i <= self.temp_name_map.entries@.len(),
                start.temp_pairs == self.temp_name_map.pairs(),
                self@ == (Ctx {
                    exprs: with_temps_replaced(start.exprs, start.temp_pairs, i as int),
                    ..start
                }),
            decreases self.temp_name_map.entries@.len() - i,
        {
            let stand_in = fallback_name(self.temp_name_map.entries[i].0);
            proof {
                reveal_strlit("_t");
                assert(start.temp_pairs[i as int] == (
                    self.temp_name_map.entries@[i as int].0,
                    self.temp_name_map.entries@[i as int].1@,
                ));
            }
            self.expr_map.replace_words_in_all(&stand_in, &self.temp_name_map.entries[i].1);
            i = i + 1;
        }
    }

    /// The expression that computes what an instruction does, where there is one.
    pub fn instruction_to_expr(&self, instr: &Instruction) -> (r: Option<String>)
        ensures
            option_text(r) == expr_text(self@, *instr),
        decreases instr, 0nat, 0nat,
    {
        match &instr.value {
            InstructionValue::FunctionExpression { name, lowered_func, expr_type } => {
                if let Some(outside) = self.outlined_map.get(instr.lvalue.identifier.id.0) {
                    return Some(outside.clone());
                }
                let body = generate_inner_function_body(&self.outer_scope_names, &lowered_func.func);
                let params = generate_inner_function_params(&lowered_func.func);
                let label = match name {
                    Some(n) => owned(n),
                    None => owned(""),
                };
                Some(function_str(*expr_type, &label, &params, &body))
            },
            _ => self.plain_expr_str(&instr.value),
        }
    }

    /// The statement that an instruction is written as, where it is one.
    pub fn instruction_to_stmt(&self, instr: &Instruction) -> (r: Option<String>)
        ensures
            option_text(r) == stmt_text(self@, *instr),
        decreases instr, 0nat, 0nat,
    {
        match &instr.value {
            InstructionValue::FunctionExpression { name, lowered_func, expr_type } => match name {
                Some(n) => {
                    if *expr_type == FunctionExpressionType::FunctionDeclaration {
                        if self.consumed_temps.contains(instr.lvalue.identifier.id.0) {
                            return None;
                        }
                        let body = generate_inner_function_body(
                            &self.outer_scope_names,
                            &lowered_func.func,
                        );
                        let params = generate_inner_function_params(&lowered_func.func);
                        Some(declaration_str(n, &params, &body))
                    } else {
                        self.plain_stmt_str(instr)
                    }
                },
                None => self.plain_stmt_str(instr),
            },
            _ => self.plain_stmt_str(instr),
        }
    }

    fn write_exprs(&mut self, func: &HIRFunction, instrs: &Vec<&Instruction>)
        requires
            refs_are(instrs@, instructions(*func)),
        ensures
            final(self)@ == with_exprs(old(self)@, *func, instrs@.len() as int),
        decreases func, 1nat, 0nat,
    {
        let ghost start = self@;
        let mut i: usize = 0;
        while i < instrs.len()
            invariant
                i <= instrs@.len(),
                refs_are(instrs@, instructions(*func)),
                self@ == with_exprs(start, *func, i as int),
            decreases instrs@.len() - i,
        {
            proof {
                lemma_instruction_smaller(*func, i as int);
            }
            let instr: &Instruction = instrs[i];
            self.mark_jsx_kind(instr);
            if let Some(expr) = self.instruction_to_expr(instr) {
                self.note_expr(instr, expr);
            }
            i = i + 1;
        }
    }

    /// The instructions of a function as they are written.
    pub fn render_rows(&self, func: &HIRFunction) -> (rows: Vec<Vec<Rendered>>)
        ensures
            rows_view(rows@) == walk_of(self@, *func).rows,
            rows_match(func.body.blocks@, rows_view(rows@)),
        decreases func, 1nat, 0nat,
    {
        let blocks = &func.body.blocks;
        let mut rows: Vec<Vec<Rendered>> = Vec::new();
        let mut b: usize = 0;
        while b < blocks.len()
            invariant
                b <= blocks@.len(),
                blocks == func.body.blocks,
                rows_view(rows@) == rendered_rows(self@, *func, b as int),
                rows@.len() == b,
                forall|k: int|
                    0 <= k < b ==> (#[trigger] rows@[k])@.len()
                        == blocks@[k].1.instructions@.len(),
            decreases blocks@.len() - b,
        {
            let instrs = &blocks[b].1.instructions;
            let mut row: Vec<Rendered> = Vec::new();
            let mut j: usize = 0;
            while j < instrs.len()
                invariant
                    b < blocks@.len(),
                    blocks == func.body.blocks,
                    instrs == blocks@[b as int].1.instructions,
                    j <= instrs@.len(),
                    row@.len() == j,
                    row_view(row@) == rendered_row(self@, *func, b as int, j as int),
                decreases instrs@.len() - j,
            {
                proof {
                    lemma_block_instruction_smaller(*func, b as int, j as int);
                }
                let ghost before = row@;
                let stmt = self.instruction_to_stmt(&instrs[j]);
                let expr = self.instruction_to_expr(&instrs[j]);
                row.push(Rendered { stmt, expr });
                proof {
                    assert(row_view(row@) =~= row_view(before).push(row@[j as int]@));
                }
                j = j + 1;
            }
            let ghost before = rows@;
            let ghost added = row@;
            rows.push(row);
            proof {
                assert(rows_view(rows@) =~= rows_view(before).push(row_view(added)));
            }
            b = b + 1;
        }
        rows
    }
}

impl<'a> Walker<'a> {
    fn top_level_stmts(&self, owned: &IdSet) -> (r: (Vec<String>, Option<String>))
        requires
            self.wf(),
        ensures
            (texts(r.0@), option_text(r.1)) == top_level(
                self@,
                owned@,
                self.blocks@.len() as int,
            ),
    {
        let mut stmts: Vec<String> = Vec::new();
        let mut ret: Option<String> = None;
        let depth: usize = self.blocks.len();
        let mut b: usize = 0;
        while b < self.blocks.len()
            invariant
                self.wf(),
                depth == full_depth(self.blocks@),
                b <= self.blocks@.len(),
                (texts(stmts@), option_text(ret)) == top_level(self@, owned@, b as int),
            decreases self.blocks@.len() - b,
        {
            let block = &self.blocks[b].1;
            if !owned.contains(block.id.0) {
                let own = self.row_stmts_of(b);
                extend_texts(&mut stmts, &own);
                match &block.terminal {
                    Terminal::Return { value, return_variant } => {
                        if *return_variant != ReturnVariant::Void {
                            ret = Some(self.cg.resolve_place(value));
                        }
                    },
                    _ => {
                        if let Some(s) = self.terminal_stmt_str(depth, &block.terminal, true) {
                            stmts.push(s);
                        }
                    },
                }
            }
            b = b + 1;
        }
        (stmts, ret)
    }
}

/// The body of an inner function, in a function where `outer` names are declared. A declaration that
/// hides one of them gets another name.
pub fn generate_inner_function_body(outer: &NameSet, func: &HIRFunction) -> (r: String)
    ensures
        r@ == inner_body(outer@, *func),
    decreases func, 4nat, 0nat,
{
    let instrs = instructions_of(func);
    let mut cg = Context::new();
    cg.consumed_temps = find_inner_consumed(func, &instrs);
    cg.rename_shadowing(outer, &instrs);
    cg.name_params(&func.params);
    cg.write_exprs(func, &instrs);
    cg.name_results(&instrs);
    cg.name_catch_bindings(&func.body.blocks);
    cg.settle();
    let rows = cg.render_rows(func);
    let owned = find_owned_blocks(&func.body.blocks, None);
    let walker = Walker { cg: &cg, blocks: &func.body.blocks, rows: &rows };
    let (stmts, ret) = walker.top_level_stmts(&owned);
    body_str(&func.directives, stmts, ret)
}

} // verus!

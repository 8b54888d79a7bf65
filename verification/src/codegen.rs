//! Generation of JavaScript text from the control flow graph of a function.

pub mod analyze;
pub mod blocks;
pub mod classify;
pub mod context;
pub mod dependencies;
pub mod deps;
pub mod emit;
pub mod escape;
pub mod exprs;
pub mod filter;
pub mod flow;
pub mod hooks;
pub mod inner;
pub mod laws;
pub mod lines;
pub mod meaning;
pub mod outputs;
pub mod owned;
pub mod planning;
pub mod print;
pub mod promote;
pub mod reading;
pub mod reads;
pub mod scopes;
pub mod statements;
pub mod structure;
pub mod wording;

use vstd::prelude::*;

use crate::codegen::analyze::{
    analyzed, function_views, new_generator, Gen, Generator,
};
use crate::codegen::context::{empty_ctx, fallback_name, fallback_text, Ctx};
use crate::codegen::emit::{function_lines, returned_text};
use crate::codegen::inner::with_param_names;
use crate::codegen::lines::{cache_count, lines_text, line_views, to_cache_count, write_lines};
use crate::collections::{choose_free_name, free_name, NameSet};
use crate::hir::{Argument, BasicBlock, BlockId, HIRFunction, ReturnVariant, Terminal};
use crate::text::{
    cat2, cat3, concatenated, contains, ends_with_char, has_infix, join, joined, last_is, owned,
    same, texts,
};

verus! {

broadcast use crate::text::group_texts;

/// Result of code generation for a function.
#[derive(Clone)]
pub struct CodegenResult {
    /// The generated function body.
    pub body: String,
    /// Number of cache slots needed.
    pub cache_size: u32,
    /// Whether the function needs the cache import.
    pub needs_cache_import: bool,
    /// The next free number of a temporary.
    pub next_temp_id: usize,
    /// The functions that were moved out: name, parameters and body.
    pub outlined_functions: Vec<(String, String, String)>,
}

/// A generator for a function: `taken` are the names that the source uses around it.
pub open spec fn generator_for(temp_start: usize, skip_memo: bool, taken: Set<Seq<char>>) -> Gen {
    Gen {
        c: Ctx { counter: temp_start as u64, ..empty_ctx() },
        temp_start: temp_start as u64,
        skip_memo,
        cache_var: free_name("$"@, taken),
        taken,
        ..new_generator()
    }
}

/// What code generation gives for a function that has been looked through.
pub open spec fn is_result(r: CodegenResult, g: Gen, func: HIRFunction, temp_start: usize) -> bool {
    let out = function_lines(g, func);
    &&& r.body@ == lines_text(out.0, out.0.len() as int)
    &&& r.cache_size == cache_count(out.1)
    &&& r.needs_cache_import == (out.1 > 0)
    &&& r.next_temp_id == if g.promoted is Some || temp_start == usize::MAX {
        temp_start as int
    } else {
        temp_start + 1
    }
    &&& function_views(r.outlined_functions@) == g.functions
}

/// Generate code for a compiled function.
pub fn codegen_function(func: &HIRFunction) -> (r: CodegenResult)
    ensures
        is_result(r, analyzed(generator_for(0, false, Set::empty()), *func), *func, 0),
{
    codegen_function_with_temp_start(func, 0)
}

/// Generate code for a compiled function, with temporaries numbered from `temp_start` on.
pub fn codegen_function_with_temp_start(func: &HIRFunction, temp_start: usize) -> (r: CodegenResult)
    ensures
        is_result(
            r,
            analyzed(generator_for(temp_start, false, Set::empty()), *func),
            *func,
            temp_start,
        ),
{
    codegen_function_with_options(func, temp_start, false)
}

/// Generate code; with `skip_memo`, without memoization.
pub fn codegen_function_with_options(func: &HIRFunction, temp_start: usize, skip_memo: bool) -> (r:
    CodegenResult)
    ensures
        is_result(
            r,
            analyzed(generator_for(temp_start, skip_memo, Set::empty()), *func),
            *func,
            temp_start,
        ),
{
    let none = NameSet::new();
    codegen_function_full(func, temp_start, skip_memo, &none)
}

/// Generate code. The cache has the first of the names `$`, `$0`, `$1`, ... that neither the source nor
/// the function uses.
pub fn codegen_function_full(
    func: &HIRFunction,
    temp_start: usize,
    skip_memo: bool,
    source_names: &NameSet,
) -> (r: CodegenResult)
    ensures
        is_result(
            r,
            analyzed(generator_for(temp_start, skip_memo, source_names@), *func),
            *func,
            temp_start,
        ),
{
    let mut cg = Generator::new();
    cg.temp_start = temp_start as u64;
    cg.cx.temp_name_counter = temp_start as u64;
    cg.skip_memo = skip_memo;
    let none = NameSet::new();
    cg.cache_var = choose_free_name("$", source_names, &none);
    cg.source_names = source_names.copy();
    assert(source_names@.union(none@) =~= source_names@);
    assert(cg@ == generator_for(temp_start, skip_memo, source_names@));
    cg.analyze(func);
    let next_temp_id: usize = if cg.promoted_var.is_some() || temp_start == usize::MAX {
        temp_start
    } else {
        temp_start + 1
    };
    let (lines, slots) = cg.emit_function(func);
    assert(line_views(lines@).len() == lines@.len());
    CodegenResult {
        body: write_lines(&lines),
        cache_size: to_cache_count(slots),
        needs_cache_import: slots > 0,
        next_temp_id,
        outlined_functions: cg.outlined_functions,
    }
}

// ---------------------------------------------------------------------------
// Functions that were moved out
// ---------------------------------------------------------------------------

/// A generator for a function that was moved out: it is not memoized, and its parameters have the
/// first temporary names.
pub open spec fn outlined_generator(func: HIRFunction) -> Gen {
    let g = new_generator();
    Gen {
        is_outlined: true,
        skip_memo: true,
        c: with_param_names(g.c, func.params@, func.params@.len() as int),
        ..g
    }
}

/// A parameter of a function that was moved out.
pub open spec fn outlined_param(c: Ctx, param: Argument) -> Seq<char> {
    let id = param.place_of().identifier;
    let name = match id.name {
        Some(n) => n.text(),
        None => if c.temps.contains_key(id.id.0) {
            c.temps[id.id.0]
        } else {
            fallback_text(id.id.0)
        },
    };
    match param {
        Argument::Place(_) => name,
        Argument::Spread(_) => "..."@ + name,
    }
}

/// The value that the first block from `i` on returns that returns one.
pub open spec fn first_return(c: Ctx, blocks: Seq<(BlockId, BasicBlock)>, i: int) -> Option<Seq<char>>
    decreases blocks.len() - i,
{
    if i < 0 || i >= blocks.len() {
        None
    } else {
        match returned_text(c, blocks[i].1.terminal) {
            Some(r) => Some(r),
            None => first_return(c, blocks, i + 1),
        }
    }
}

/// The body with a `return` of the value, where it has none yet.
pub open spec fn with_return(body: Seq<char>, ret: Option<Seq<char>>) -> Seq<char> {
    match ret {
        Some(r) => if has_infix(body, "return "@) || r == "undefined"@ {
            body
        } else if last_is(body, '\n') || body.len() == 0 {
            body + ("return "@ + r + ";"@)
        } else {
            body + "\n"@ + ("return "@ + r + ";"@)
        },
        None => body,
    }
}

pub open spec fn directive_line(d: Seq<char>) -> Seq<char> {
    "  \""@ + d + "\";\n"@
}

/// The parameters and the body of a function that was moved out.
pub open spec fn outlined_function(func: HIRFunction) -> (Seq<char>, Seq<char>) {
    let g = analyzed(outlined_generator(func), func);
    let lines = function_lines(g, func).0;
    let body = with_return(
        lines_text(lines, lines.len() as int),
        first_return(g.c, func.body.blocks@, 0),
    );
    (
        joined(func.params@.map_values(|p: Argument| outlined_param(g.c, p)), ", "@),
        concatenated(
            texts(func.directives@).map_values(|d: Seq<char>| directive_line(d)),
        ) + body,
    )
}

impl Generator {
    fn outlined_params(&self, params: &Vec<Argument>) -> (r: String)
        ensures
            r@ == joined(params@.map_values(|p: Argument| outlined_param(self@.c, p)), ", "@),
    {
        let mut parts: Vec<String> = Vec::new();
        let mut i: usize = 0;
        while i < params.len()
            invariant
                i <= params@.len(),
                parts@.len() == i,
                forall|k: int|
                    0 <= k < i ==> (#[trigger] parts@[k])@ == outlined_param(self@.c, params@[k]),
            decreases params@.len() - i,
        {
            let id = &params[i].place().identifier;
            let name = match &id.name {
                Some(n) => owned(n.value()),
                None => match self.cx.temp_name_map.get(id.id.0) {
                    Some(t) => t.clone(),
                    None => fallback_name(id.id.0),
                },
            };
            let part = match &params[i] {
                Argument::Place(_) => name,
                Argument::Spread(_) => cat2("...", &name),
            };
            parts.push(part);
            i = i + 1;
        }
        proof {
            assert(texts(parts@) =~= params@.map_values(
                |p: Argument| outlined_param(self@.c, p),
            ));
        }
        join(&parts, ", ")
    }

    /// The value that the function returns, as the first `return` with a value tells it.
    fn infer_outlined_return_expr(&self, func: &HIRFunction) -> (r: Option<String>)
        ensures
            match r {
                Some(s) => first_return(self@.c, func.body.blocks@, 0) == Some(s@),
                None => first_return(self@.c, func.body.blocks@, 0) is None,
            },
    {
        let blocks = &func.body.blocks;
        let mut i: usize = 0;
        while i < blocks.len()
            invariant
                blocks == func.body.blocks,
                i <= blocks@.len(),
                first_return(self@.c, blocks@, i as int) == first_return(self@.c, blocks@, 0),
            decreases blocks@.len() - i,
        {
            if let Terminal::Return { value, return_variant } = &blocks[i].1.terminal {
                if *return_variant != ReturnVariant::Void {
                    return Some(self.cx.resolve_place(value));
                }
            }
            i = i + 1;
        }
        None
    }
}

fn add_return(body: String, ret: Option<String>) -> (r: String)
    ensures
        r@ == with_return(
            body@,
            match ret {
                Some(s) => Some(s@),
                None => None,
            },
        ),
{
    match ret {
        Some(value) => {
            if contains(&body, "return ") || same(&value, "undefined") {
                body
            } else {
                let stmt = cat3("return ", &value, ";");
                if ends_with_char(&body, '\n') || body.as_str().is_empty() {
                    cat2(&body, &stmt)
                } else {
                    cat3(&body, "\n", &stmt)
                }
            }
        },
        None => body,
    }
}

fn directive_lines(directives: &Vec<String>) -> (r: String)
    ensures
        r@ == concatenated(texts(directives@).map_values(|d: Seq<char>| directive_line(d))),
{
    let ghost all = texts(directives@).map_values(|d: Seq<char>| directive_line(d));
    let mut out = String::new();
    let mut i: usize = 0;
    proof {
        assert(all.take(0) =~= Seq::empty());
        assert(out@ =~= concatenated(all.take(0)));
    }
    while i < directives.len()
        invariant
            all == texts(directives@).map_values(|d: Seq<char>| directive_line(d)),
            i <= directives@.len(),
            out@ == concatenated(all.take(i as int)),
        decreases directives@.len() - i,
    {
        let line = cat3("  \"", &directives[i], "\";\n");
        proof {
            let next = all.take(i as int + 1);
            assert(next.drop_last() =~= all.take(i as int));
            assert(next.last() == line@);
        }
        out.append(&line);
        i = i + 1;
    }
    proof {
        assert(all.take(i as int) =~= all);
    }
    out
}

/// Generate code for a function that was moved out: its parameters and its body.
///
/// Patterns of parameters are taken apart in the body. Parameters without a name are called `t0`, `t1`
/// and so on, as they are in the body.
pub fn codegen_outlined_fn(func: &HIRFunction) -> (r: (String, String))
    ensures
        (r.0@, r.1@) == outlined_function(*func),
{
    let mut cg = Generator::new();
    cg.is_outlined = true;
    cg.skip_memo = true;
    cg.cx.name_params(&func.params);
    assert(cg@ == outlined_generator(*func));
    cg.analyze(func);
    let params = cg.outlined_params(&func.params);
    let fallback = cg.infer_outlined_return_expr(func);
    let (lines, _slots) = cg.emit_function(func);
    assert(line_views(lines@).len() == lines@.len());
    let text = write_lines(&lines);
    let body = add_return(text, fallback);
    let head = directive_lines(&func.directives);
    (params, cat2(&head, &body))
}

} // verus!

//! The dependencies and outputs of the memoized block of a function.

use vstd::prelude::*;

use crate::codegen::context::{name_text, Context, Ctx};
use crate::codegen::flow::{
    all_paths, does_load_name, find_root_paths, loads_name, resolve_paths, root_paths,
};
use crate::codegen::hooks::{
    called_name, hook_call, is_reactive_destructured_element, is_stable_hook_return,
    looks_like_hook_call, reactive_element, stable_hook,
};
use crate::codegen::reads::{terminal_reads, terminal_reads_of};
use crate::collections::{IdSet, IdTexts, NameMap};
use crate::extract_scope_destructuring::{each_pattern_operand, pattern_operands};
use crate::graph::{instructions, instructions_of, operands, operands_of, pointees, refs_are};
use crate::hir::{
    Argument, ArrayElement, BasicBlock, BlockId, DependencyPathEntry, HIRFunction, Identifier,
    Instruction, InstructionValue, ObjectPropertyOrSpread, Pattern, Place, ReactiveScopeDependency,
};
use crate::sorting::{
    add_all_new, add_new, dedup_texts, deduped, holds_text, pair_views, push_all_new, push_new,
    sort_ranked, sort_texts, sorted, sorted_by, with_ranks,
};
use crate::text::{
    before, cat3, chars_of, contains_char, extend_texts, first_is, has_prefix, is_temp_name_text,
    owned, same, starts_with, starts_with_char, strip_trailing, temp_name, text_before, texts,
    without_trailing,
};

verus! {

broadcast use crate::text::group_texts;

// ---------------------------------------------------------------------------
// Parameters
// ---------------------------------------------------------------------------

pub open spec fn identifier_text(id: Identifier) -> Option<Seq<char>> {
    match id.name {
        Some(n) => Some(n.text()),
        None => None,
    }
}

/// The names of the first `n` parameters that have one.
pub open spec fn param_names(params: Seq<Argument>, n: int) -> Seq<Seq<char>>
    decreases n,
{
    if n <= 0 {
        Seq::empty()
    } else {
        let front = param_names(params, n - 1);
        match identifier_text(params[n - 1].place_of().identifier) {
            Some(name) => front.push(name),
            None => front,
        }
    }
}

pub fn find_param_names(func: &HIRFunction) -> (r: Vec<String>)
    ensures
        texts(r@) == param_names(func.params@, func.params@.len() as int),
{
    let mut names: Vec<String> = Vec::new();
    let mut i: usize = 0;
    while i < func.params.len()
        invariant
            i <= func.params@.len(),
            texts(names@) == param_names(func.params@, i as int),
        decreases func.params@.len() - i,
    {
        if let Some(n) = &func.params[i].place().identifier.name {
            names.push(owned(n.value()));
        }
        i = i + 1;
    }
    names
}

// ---------------------------------------------------------------------------
// Dependencies of scopes
// ---------------------------------------------------------------------------

/// A name and the first `n` properties behind it.
pub open spec fn dotted(name: Seq<char>, path: Seq<DependencyPathEntry>, n: int) -> Seq<char>
    decreases n,
{
    if n <= 0 {
        name
    } else {
        dotted(name, path, n - 1) + (if path[n - 1].optional {
            "?."@
        } else {
            "."@
        }) + path[n - 1].property@
    }
}

/// `deps` and the named ones of the first `n` dependencies, each one once.
pub open spec fn with_scope_deps(
    deps: Seq<Seq<char>>,
    list: Seq<ReactiveScopeDependency>,
    n: int,
) -> Seq<Seq<char>>
    decreases n,
{
    if n <= 0 {
        deps
    } else {
        let front = with_scope_deps(deps, list, n - 1);
        match identifier_text(list[n - 1].identifier) {
            Some(name) => push_new(
                front,
                dotted(name, list[n - 1].path@, list[n - 1].path@.len() as int),
            ),
            None => front,
        }
    }
}

/// The dependencies of the scopes of the first `n` instructions, and the scopes.
pub open spec fn scope_deps_upto(instrs: Seq<Instruction>, n: int) -> (Seq<Seq<char>>, Set<u32>)
    decreases n,
{
    if n <= 0 {
        (Seq::empty(), Set::empty())
    } else {
        let front = scope_deps_upto(instrs, n - 1);
        match instrs[n - 1].lvalue.identifier.scope {
            Some(scope) => if front.1.contains(scope.id.0) {
                front
            } else {
                (
                    with_scope_deps(
                        front.0,
                        scope.dependencies@,
                        scope.dependencies@.len() as int,
                    ),
                    front.1.insert(scope.id.0),
                )
            },
            None => front,
        }
    }
}

/// Whether an instruction stands in a scope that has dependencies.
pub open spec fn in_populated_scope(instr: Instruction) -> bool {
    instr.lvalue.identifier.scope matches Some(scope) && scope.dependencies@.len() > 0
}

pub open spec fn has_populated_scope(instrs: Seq<Instruction>) -> bool {
    exists|i: int| 0 <= i < instrs.len() && in_populated_scope(#[trigger] instrs[i])
}

/// The position of `x` in `list` from `i` on; the length where it is not there.
pub open spec fn position_from(list: Seq<Seq<char>>, x: Seq<char>, i: int) -> int
    decreases list.len() - i,
{
    if i < 0 || i >= list.len() || list[i] == x {
        i
    } else {
        position_from(list, x, i + 1)
    }
}

/// The rank of a dependency: the position of the parameter that it begins with; behind all of them
/// where it begins with none.
pub open spec fn param_rank(params: Seq<Seq<char>>, dep: Seq<char>) -> nat {
    position_from(params, before(dep, '.'), 0) as nat
}

/// The dependencies that the scopes of a function name, in the order of the parameters; none where
/// no scope of the function has dependencies.
pub open spec fn scope_deps(func: HIRFunction) -> Option<Seq<Seq<char>>> {
    let instrs = instructions(func);
    let params = param_names(func.params@, func.params@.len() as int);
    if has_populated_scope(instrs) {
        Some(
            sorted_by(
                scope_deps_upto(instrs, instrs.len() as int).0,
                |d: Seq<char>| param_rank(params, d),
            ),
        )
    } else {
        None
    }
}

pub fn dotted_path(name: &str, path: &Vec<DependencyPathEntry>) -> (r: String)
    ensures
        r@ == dotted(name@, path@, path@.len() as int),
{
    let mut out = owned(name);
    let mut i: usize = 0;
    while i < path.len()
        invariant
            i <= path@.len(),
            out@ == dotted(name@, path@, i as int),
        decreases path@.len() - i,
    {
        let sep = if path[i].optional {
            "?."
        } else {
            "."
        };
        out = cat3(&out, sep, &path[i].property);
        i = i + 1;
    }
    out
}

fn find_position(list: &Vec<String>, x: &str) -> (r: usize)
    ensures
        r == position_from(texts(list@), x@, 0),
{
    let mut i: usize = 0;
    while i < list.len()
        invariant
            i <= list@.len(),
            position_from(texts(list@), x@, i as int) == position_from(texts(list@), x@, 0),
        decreases list@.len() - i,
    {
        assert(texts(list@)[i as int] == list@[i as int]@);
        if same(&list[i], x) {
            return i;
        }
        i = i + 1;
    }
    i
}

fn sort_by_params(deps: &Vec<String>, params: &Vec<String>) -> (r: Vec<String>)
    ensures
        texts(r@) == sorted_by(texts(deps@), |d: Seq<char>| param_rank(texts(params@), d)),
{
    let mut pairs: Vec<(usize, String)> = Vec::new();
    let mut i: usize = 0;
    while i < deps.len()
        invariant
            i <= deps@.len(),
            pairs@.len() == i,
            forall|k: int|
                0 <= k < i ==> (#[trigger] pairs@[k]).0 == param_rank(texts(params@), deps@[k]@)
                    && pairs@[k].1@ == deps@[k]@,
        decreases deps@.len() - i,
    {
        let base = text_before(&deps[i], '.');
        let rank: usize = find_position(params, &base);
        pairs.push((rank, deps[i].clone()));
        i = i + 1;
    }
    proof {
        let rank = |d: Seq<char>| param_rank(texts(params@), d);
        assert(pair_views(pairs@) =~= with_ranks(texts(deps@), rank));
    }
    sort_ranked(pairs)
}

/// The dependencies that the scopes of a function name; `None` where no scope has dependencies.
pub fn find_scope_deps(func: &HIRFunction) -> (r: Option<Vec<String>>)
    ensures
        match r {
            Some(deps) => scope_deps(*func) == Some(texts(deps@)),
            None => scope_deps(*func) is None,
        },
{
    let instrs = instructions_of(func);
    let ghost all = instructions(*func);
    let mut deps: Vec<String> = Vec::new();
    let mut seen = IdSet::new();
    let mut any = false;
    let mut i: usize = 0;
    while i < instrs.len()
        invariant
            all == instructions(*func),
            refs_are(instrs@, all),
            i <= instrs@.len(),
            (texts(deps@), seen@) == scope_deps_upto(all, i as int),
            any ==> has_populated_scope(all),
            !any ==> forall|k: int| 0 <= k < i ==> !in_populated_scope(#[trigger] all[k]),
        decreases instrs@.len() - i,
    {
        if let Some(scope) = &instrs[i].lvalue.identifier.scope {
            if scope.dependencies.len() > 0 {
                assert(in_populated_scope(all[i as int]));
                any = true;
            }
            if seen.insert(scope.id.0) {
                let ghost start = texts(deps@);
                let list = &scope.dependencies;
                let mut j: usize = 0;
                while j < list.len()
                    invariant
                        j <= list@.len(),
                        texts(deps@) == with_scope_deps(start, list@, j as int),
                    decreases list@.len() - j,
                {
                    if let Some(n) = &list[j].identifier.name {
                        let dep = dotted_path(n.value(), &list[j].path);
                        add_new(&mut deps, &dep);
                    }
                    j = j + 1;
                }
            } else {
                assert(seen@ == scope_deps_upto(all, i as int).1);
            }
        }
        i = i + 1;
    }
    if !any {
        return None;
    }
    let params = find_param_names(func);
    Some(sort_by_params(&deps, &params))
}

// ---------------------------------------------------------------------------
// Dependencies by use
// ---------------------------------------------------------------------------

/// What is known of the uses of a variable: whether it is used itself, and which of its properties.
pub struct Uses {
    pub direct: bool,
    pub leaves: Seq<Seq<char>>,
}

pub open spec fn with_use(
    roots: Map<u32, Seq<char>>,
    paths: Map<u32, Seq<char>>,
    u: Uses,
    place: Place,
) -> Uses {
    let id = place.identifier.id.0;
    if !paths.contains_key(id) {
        u
    } else if roots.contains_key(id) {
        Uses { direct: true, ..u }
    } else {
        Uses { leaves: push_new(u.leaves, paths[id]), ..u }
    }
}

pub open spec fn with_uses(
    roots: Map<u32, Seq<char>>,
    paths: Map<u32, Seq<char>>,
    u: Uses,
    places: Seq<Place>,
    n: int,
) -> Uses
    decreases n,
{
    if n <= 0 {
        u
    } else {
        with_use(roots, paths, with_uses(roots, paths, u, places, n - 1), places[n - 1])
    }
}

pub open spec fn in_filter(filter: Option<Set<u32>>, id: u32) -> bool {
    match filter {
        Some(f) => f.contains(id),
        None => true,
    }
}

/// The places at which an instruction uses a value otherwise than to load a property from it.
pub open spec fn leaf_places(filter: Option<Set<u32>>, instr: Instruction) -> Seq<Place> {
    match instr.value {
        InstructionValue::PropertyLoad { .. } => Seq::empty(),
        _ => if in_filter(filter, instr.id.0) {
            operands(instr.value)
        } else {
            Seq::empty()
        },
    }
}

pub open spec fn instruction_uses(
    roots: Map<u32, Seq<char>>,
    paths: Map<u32, Seq<char>>,
    filter: Option<Set<u32>>,
    u: Uses,
    instrs: Seq<Instruction>,
    n: int,
) -> Uses
    decreases n,
{
    if n <= 0 {
        u
    } else {
        let places = leaf_places(filter, instrs[n - 1]);
        with_uses(
            roots,
            paths,
            instruction_uses(roots, paths, filter, u, instrs, n - 1),
            places,
            places.len() as int,
        )
    }
}

/// Whether the filter lets an instruction of the block pass.
pub open spec fn block_in_filter(filter: Option<Set<u32>>, block: BasicBlock) -> bool {
    match filter {
        Some(f) => exists|i: int|
            0 <= i < block.instructions@.len() && f.contains(
                (#[trigger] block.instructions@[i]).id.0,
            ),
        None => true,
    }
}

/// The places that a terminal reads, where its block has an instruction that counts.
pub open spec fn leaf_tests(filter: Option<Set<u32>>, block: BasicBlock) -> Seq<Place> {
    if block_in_filter(filter, block) {
        terminal_reads(block.terminal)
    } else {
        Seq::empty()
    }
}

pub open spec fn block_uses(
    roots: Map<u32, Seq<char>>,
    paths: Map<u32, Seq<char>>,
    filter: Option<Set<u32>>,
    blocks: Seq<(BlockId, BasicBlock)>,
    n: int,
) -> Uses
    decreases n,
{
    if n <= 0 {
        Uses { direct: false, leaves: Seq::empty() }
    } else {
        let block = blocks[n - 1].1;
        let u = instruction_uses(
            roots,
            paths,
            filter,
            block_uses(roots, paths, filter, blocks, n - 1),
            block.instructions@,
            block.instructions@.len() as int,
        );
        let tests = leaf_tests(filter, block);
        with_uses(roots, paths, u, tests, tests.len() as int)
    }
}

/// Whether `path` leads on from `base`, behind a dot.
pub open spec fn sub_path(path: Seq<char>, base: Seq<char>) -> bool {
    has_prefix(path, base) && path.len() > base.len() && path[base.len() as int] == '.'
}

/// The first `n` paths without those that lead on from one in front of them.
pub open spec fn shortest_paths(paths: Seq<Seq<char>>, n: int) -> Seq<Seq<char>>
    decreases n,
{
    if n <= 0 {
        Seq::empty()
    } else {
        let front = shortest_paths(paths, n - 1);
        if exists|k: int| 0 <= k < front.len() && sub_path(paths[n - 1], #[trigger] front[k]) {
            front
        } else {
            front.push(paths[n - 1])
        }
    }
}

/// The dependencies on one variable: on the properties of it that are used, where it is not used
/// itself. With a filter, only uses by the instructions that it lets pass count.
pub open spec fn variable_deps(
    func: HIRFunction,
    name: Seq<char>,
    globals: bool,
    filter: Option<Set<u32>>,
) -> Seq<Seq<char>> {
    let instrs = instructions(func);
    let roots = root_paths(instrs, name, globals, instrs.len() as int);
    let paths = all_paths(roots, instrs);
    let u = block_uses(roots, paths, filter, func.body.blocks@, func.body.blocks@.len() as int);
    let leaves = sorted(u.leaves);
    let short = shortest_paths(leaves, leaves.len() as int);
    if !is_loaded(instrs, name, globals) {
        Seq::empty()
    } else if u.direct {
        seq![name]
    } else if short.len() > 0 {
        short
    } else if filter is None {
        seq![name]
    } else {
        Seq::empty()
    }
}

pub open spec fn is_loaded(instrs: Seq<Instruction>, name: Seq<char>, globals: bool) -> bool {
    exists|i: int| 0 <= i < instrs.len() && loads_name(#[trigger] instrs[i], name, globals)
}

/// The dependencies on the first `n` of the variables.
pub open spec fn all_variable_deps(
    func: HIRFunction,
    names: Seq<Seq<char>>,
    globals: bool,
    filter: Option<Set<u32>>,
    n: int,
) -> Seq<Seq<char>>
    decreases n,
{
    if n <= 0 {
        Seq::empty()
    } else {
        all_variable_deps(func, names, globals, filter, n - 1) + variable_deps(
            func,
            names[n - 1],
            globals,
            filter,
        )
    }
}

// ---------------------------------------------------------------------------
// Results of hooks
// ---------------------------------------------------------------------------

/// The names of the first `n` array elements that can change.
pub open spec fn reactive_elements(items: Seq<ArrayElement>, hook: Seq<char>, n: int) -> Seq<Seq<char>>
    decreases n,
{
    if n <= 0 {
        Seq::empty()
    } else {
        let front = reactive_elements(items, hook, n - 1);
        match items[n - 1] {
            ArrayElement::Place(p) => match identifier_text(p.identifier) {
                Some(name) => if reactive_element(hook, n - 1) {
                    front.push(name)
                } else {
                    front
                },
                None => front,
            },
            _ => front,
        }
    }
}

/// The names that the first `n` properties of a pattern bind under a key.
pub open spec fn keyed_names(properties: Seq<ObjectPropertyOrSpread>, n: int) -> Seq<Seq<char>>
    decreases n,
{
    if n <= 0 {
        Seq::empty()
    } else {
        let front = keyed_names(properties, n - 1);
        match properties[n - 1] {
            ObjectPropertyOrSpread::Property(p) => match identifier_text(p.place.identifier) {
                Some(name) => front.push(name),
                None => front,
            },
            ObjectPropertyOrSpread::Spread(_) => front,
        }
    }
}

/// The names that the first `n` properties of a pattern bind, a rest operand among them.
pub open spec fn property_names(properties: Seq<ObjectPropertyOrSpread>, n: int) -> Seq<Seq<char>>
    decreases n,
{
    if n <= 0 {
        Seq::empty()
    } else {
        let front = property_names(properties, n - 1);
        match properties[n - 1] {
            ObjectPropertyOrSpread::Property(p) => match identifier_text(p.place.identifier) {
                Some(name) => front.push(name),
                None => front,
            },
            ObjectPropertyOrSpread::Spread(p) => match identifier_text(p.identifier) {
                Some(name) => front.push(name),
                None => front,
            },
        }
    }
}

/// The names that the first `n` elements of a pattern bind, a rest element among them.
pub open spec fn element_names(items: Seq<ArrayElement>, n: int) -> Seq<Seq<char>>
    decreases n,
{
    if n <= 0 {
        Seq::empty()
    } else {
        let front = element_names(items, n - 1);
        match items[n - 1] {
            ArrayElement::Place(p) => match identifier_text(p.identifier) {
                Some(name) => front.push(name),
                None => front,
            },
            ArrayElement::Spread(p) => match identifier_text(p.identifier) {
                Some(name) => front.push(name),
                None => front,
            },
            ArrayElement::Hole => front,
        }
    }
}

/// The variables that an instruction gives a result of a hook that can change. Rest operands of a result
/// are none.
pub open spec fn hook_results(c: Ctx, instr: Instruction) -> Seq<Seq<char>> {
    match instr.value {
        InstructionValue::StoreLocal { lvalue, value, .. } => {
            let id = value.identifier.id.0;
            let name = name_text(c, lvalue.place.identifier);
            if c.exprs.contains_key(id) && hook_call(c.exprs[id]) && !stable_hook(
                called_name(c.exprs[id]),
            ) && !first_is(name, '_') {
                seq![name]
            } else {
                Seq::empty()
            }
        },
        InstructionValue::Destructure { lvalue, value, .. } => {
            let id = value.identifier.id.0;
            if c.exprs.contains_key(id) && hook_call(c.exprs[id]) {
                let hook = called_name(c.exprs[id]);
                match lvalue.pattern {
                    Pattern::Array(a) => reactive_elements(a.items@, hook, a.items@.len() as int),
                    Pattern::Object(o) => if stable_hook(hook) {
                        Seq::empty()
                    } else {
                        keyed_names(o.properties@, o.properties@.len() as int)
                    },
                }
            } else {
                Seq::empty()
            }
        },
        _ => Seq::empty(),
    }
}

pub open spec fn all_hook_results(c: Ctx, instrs: Seq<Instruction>, n: int) -> Seq<Seq<char>>
    decreases n,
{
    if n <= 0 {
        Seq::empty()
    } else {
        all_hook_results(c, instrs, n - 1) + hook_results(c, instrs[n - 1])
    }
}

// ---------------------------------------------------------------------------
// Parameters without a name
// ---------------------------------------------------------------------------

/// `ids` and those of the unnamed ones of the first `n` places.
pub open spec fn with_unnamed_ids(ids: Set<u32>, places: Seq<Place>, n: int) -> Set<u32>
    decreases n,
{
    if n <= 0 {
        ids
    } else {
        let front = with_unnamed_ids(ids, places, n - 1);
        if places[n - 1].identifier.name is None {
            front.insert(places[n - 1].identifier.id.0)
        } else {
            front
        }
    }
}

/// The places that an instruction stores a value in, where it is one that `ids` stand for.
pub open spec fn places_from(ids: Set<u32>, value: InstructionValue) -> Seq<Place> {
    match value {
        InstructionValue::Destructure { lvalue, value, .. } => if ids.contains(
            value.identifier.id.0,
        ) {
            pattern_operands(lvalue.pattern)
        } else {
            Seq::empty()
        },
        InstructionValue::StoreLocal { lvalue, value, .. } => if ids.contains(
            value.identifier.id.0,
        ) {
            seq![lvalue.place]
        } else {
            Seq::empty()
        },
        _ => Seq::empty(),
    }
}

/// The identifiers that stand for a parameter after the first `n` instructions: the parameter, unnamed
/// parts of it, and loads of these.
pub open spec fn param_ids(instrs: Seq<Instruction>, param: Identifier, n: int) -> Set<u32>
    decreases n,
{
    if n <= 0 {
        Set::empty().insert(param.id.0)
    } else {
        let front = param_ids(instrs, param, n - 1);
        match instrs[n - 1].value {
            InstructionValue::LoadLocal { place } => if place.identifier.declaration_id
                == param.declaration_id || front.contains(place.identifier.id.0) {
                front.insert(instrs[n - 1].lvalue.identifier.id.0)
            } else {
                front
            },
            _ => {
                let places = places_from(front, instrs[n - 1].value);
                with_unnamed_ids(front, places, places.len() as int)
            },
        }
    }
}

/// Whether a value is the parameter itself, an unnamed part of it, or a load of these.
pub open spec fn from_param(instrs: Seq<Instruction>, param: Identifier, value: Place) -> bool {
    param_ids(instrs, param, instrs.len() as int).contains(value.identifier.id.0)
}

/// The variables that an instruction takes out of a parameter.
pub open spec fn derived_names(instrs: Seq<Instruction>, param: Identifier, instr: Instruction) -> Seq<
    Seq<char>,
> {
    match instr.value {
        InstructionValue::Destructure { lvalue, value, .. } => if from_param(instrs, param, value) {
            match lvalue.pattern {
                Pattern::Array(a) => element_names(a.items@, a.items@.len() as int),
                Pattern::Object(o) => property_names(o.properties@, o.properties@.len() as int),
            }
        } else {
            Seq::empty()
        },
        InstructionValue::StoreLocal { lvalue, value, .. } => if from_param(instrs, param, value) {
            match identifier_text(lvalue.place.identifier) {
                Some(name) => seq![name],
                None => Seq::empty(),
            }
        } else {
            Seq::empty()
        },
        _ => Seq::empty(),
    }
}

pub open spec fn all_derived_names(instrs: Seq<Instruction>, param: Identifier, n: int) -> Seq<
    Seq<char>,
>
    decreases n,
{
    if n <= 0 {
        Seq::empty()
    } else {
        all_derived_names(instrs, param, n - 1) + derived_names(instrs, param, instrs[n - 1])
    }
}

/// The dependencies on what the unnamed ones of the first `n` parameters are taken apart into. With a
/// filter, only uses by the instructions that it lets pass count.
pub open spec fn anon_deps(func: HIRFunction, filter: Option<Set<u32>>, n: int) -> Seq<Seq<char>>
    decreases n,
{
    if n <= 0 {
        Seq::empty()
    } else {
        let front = anon_deps(func, filter, n - 1);
        let id = func.params@[n - 1].place_of().identifier;
        if id.name is None {
            let instrs = instructions(func);
            let names = all_derived_names(instrs, id, instrs.len() as int);
            front + all_variable_deps(func, names, false, filter, names.len() as int)
        } else {
            front
        }
    }
}

/// The texts in order, each one once.
pub open spec fn sorted_once(s: Seq<Seq<char>>) -> Seq<Seq<char>> {
    deduped(sorted(s), sorted(s).len() as int)
}

/// The values that decide whether a memoized result still holds: parameters, or the properties of
/// them that are used, and results of hooks.
pub open spec fn reactive_deps(c: Ctx, func: HIRFunction, filter: Option<Set<u32>>) -> Seq<Seq<char>> {
    let instrs = instructions(func);
    let names = param_names(func.params@, func.params@.len() as int);
    let hooks = all_hook_results(c, instrs, instrs.len() as int);
    let anon = sorted_once(anon_deps(func, filter, func.params@.len() as int));
    if names.len() == 0 && func.params@.len() > 0 {
        push_all_new(anon, hooks, hooks.len() as int)
    } else {
        sorted_once(
            push_all_new(
                all_variable_deps(func, names, true, filter, names.len() as int) + anon,
                hooks,
                hooks.len() as int,
            ),
        )
    }
}

// ---------------------------------------------------------------------------
// Aliases
// ---------------------------------------------------------------------------

/// What a store makes a name for: a property of something that is no parameter, by a variable that is
/// no temporary.
pub open spec fn alias_of(c: Ctx, params: Seq<Seq<char>>, instr: Instruction) -> Option<
    (Seq<char>, Seq<char>),
> {
    match instr.value {
        InstructionValue::StoreLocal { lvalue, value, .. } => {
            let id = value.identifier.id.0;
            let name = name_text(c, lvalue.place.identifier);
            if c.exprs.contains_key(id) {
                let expr = c.exprs[id];
                if !expr.contains('(') && expr.contains('.') && !params.contains(
                    without_trailing(before(expr, '.'), '?'),
                ) && !first_is(name, '_') && !temp_name(name) {
                    Some((expr, name))
                } else {
                    None
                }
            } else {
                None
            }
        },
        _ => None,
    }
}

/// The aliases that the instructions from `i` on make, the last ones first.
pub open spec fn dep_aliases(c: Ctx, params: Seq<Seq<char>>, instrs: Seq<Instruction>, n: int) -> Seq<
    (Seq<char>, Seq<char>),
>
    decreases n,
{
    if n <= 0 {
        Seq::empty()
    } else {
        let rest = dep_aliases(c, params, instrs, n - 1);
        match alias_of(c, params, instrs[n - 1]) {
            Some(a) => seq![a] + rest,
            None => rest,
        }
    }
}

// ---------------------------------------------------------------------------
// Execution
// ---------------------------------------------------------------------------

pub open spec fn filter_view(filter: Option<&IdSet>) -> Option<Set<u32>> {
    match filter {
        Some(f) => Some(f@),
        None => None,
    }
}

fn note_uses(
    roots: &IdTexts,
    paths: &IdTexts,
    places: &Vec<&Place>,
    direct: &mut bool,
    leaves: &mut Vec<String>,
)
    ensures
        forall|s: Seq<Place>| #[trigger]
            refs_are(places@, s) ==> (Uses { direct: *final(direct), leaves: texts(final(leaves)@) })
                == with_uses(
                roots@,
                paths@,
                Uses { direct: *old(direct), leaves: texts(old(leaves)@) },
                s,
                s.len() as int,
            ),
{
    let ghost start = Uses { direct: *direct, leaves: texts(leaves@) };
    let ghost all = pointees(places@);
    let mut i: usize = 0;
    while i < places.len()
        invariant
            all == pointees(places@),
            i <= places@.len(),
            (Uses { direct: *direct, leaves: texts(leaves@) }) == with_uses(
                roots@,
                paths@,
                start,
                all,
                i as int,
            ),
        decreases places@.len() - i,
    {
        let id: u32 = places[i].identifier.id.0;
        if let Some(path) = paths.get(id) {
            if roots.contains(id) {
                *direct = true;
            } else {
                add_new(leaves, path);
            }
        }
        i = i + 1;
    }
    proof {
        assert forall|s: Seq<Place>| #[trigger] refs_are(places@, s) implies (Uses {
            direct: *direct,
            leaves: texts(leaves@),
        }) == with_uses(roots@, paths@, start, s, s.len() as int) by {
            assert(all =~= s);
        }
    }
}

fn lets_pass(filter: Option<&IdSet>, id: u32) -> (r: bool)
    ensures
        r == in_filter(filter_view(filter), id),
{
    match filter {
        Some(f) => f.contains(id),
        None => true,
    }
}

fn leaf_places_of<'a>(filter: Option<&IdSet>, instr: &'a Instruction) -> (places: Vec<&'a Place>)
    ensures
        refs_are(places@, leaf_places(filter_view(filter), *instr)),
{
    match &instr.value {
        InstructionValue::PropertyLoad { .. } => Vec::new(),
        _ => {
            if lets_pass(filter, instr.id.0) {
                operands_of(&instr.value)
            } else {
                Vec::new()
            }
        },
    }
}

fn is_block_in_filter(filter: Option<&IdSet>, block: &BasicBlock) -> (r: bool)
    ensures
        r == block_in_filter(filter_view(filter), *block),
{
    match filter {
        Some(f) => {
            let mut i: usize = 0;
            while i < block.instructions.len()
                invariant
                    i <= block.instructions@.len(),
                    filter_view(filter) == Some(f@),
                    forall|k: int|
                        0 <= k < i ==> !f@.contains((#[trigger] block.instructions@[k]).id.0),
                decreases block.instructions@.len() - i,
            {
                if f.contains(block.instructions[i].id.0) {
                    return true;
                }
                i = i + 1;
            }
            false
        },
        None => true,
    }
}

fn leaf_tests_of<'a>(filter: Option<&IdSet>, block: &'a BasicBlock) -> (tests: Vec<&'a Place>)
    ensures
        refs_are(tests@, leaf_tests(filter_view(filter), *block)),
{
    if is_block_in_filter(filter, block) {
        terminal_reads_of(&block.terminal)
    } else {
        Vec::new()
    }
}

fn find_uses(
    func: &HIRFunction,
    roots: &IdTexts,
    paths: &IdTexts,
    filter: Option<&IdSet>,
) -> (r: (bool, Vec<String>))
    ensures
        (Uses { direct: r.0, leaves: texts(r.1@) }) == block_uses(
            roots@,
            paths@,
            filter_view(filter),
            func.body.blocks@,
            func.body.blocks@.len() as int,
        ),
{
    let mut direct = false;
    let mut leaves: Vec<String> = Vec::new();
    let ghost f = filter_view(filter);
    let mut b: usize = 0;
    while b < func.body.blocks.len()
        invariant
            f == filter_view(filter),
            b <= func.body.blocks@.len(),
            (Uses { direct, leaves: texts(leaves@) }) == block_uses(
                roots@,
                paths@,
                f,
                func.body.blocks@,
                b as int,
            ),
        decreases func.body.blocks@.len() - b,
    {
        let block = &func.body.blocks[b].1;
        let ghost start = Uses { direct, leaves: texts(leaves@) };
        let mut j: usize = 0;
        while j < block.instructions.len()
            invariant
                f == filter_view(filter),
                j <= block.instructions@.len(),
                (Uses { direct, leaves: texts(leaves@) }) == instruction_uses(
                    roots@,
                    paths@,
                    f,
                    start,
                    block.instructions@,
                    j as int,
                ),
            decreases block.instructions@.len() - j,
        {
            let places = leaf_places_of(filter, &block.instructions[j]);
            note_uses(roots, paths, &places, &mut direct, &mut leaves);
            j = j + 1;
        }
        let tests = leaf_tests_of(filter, block);
        note_uses(roots, paths, &tests, &mut direct, &mut leaves);
        b = b + 1;
    }
    (direct, leaves)
}

fn is_sub_path(path: &str, base: &str) -> (r: bool)
    ensures
        r == sub_path(path@, base@),
{
    if !starts_with(path, base) {
        return false;
    }
    let ps = chars_of(path);
    let bs = chars_of(base);
    ps.len() > bs.len() && ps[bs.len()] == '.'
}

fn keep_shortest_paths(paths: &Vec<String>) -> (r: Vec<String>)
    ensures
        texts(r@) == shortest_paths(texts(paths@), paths@.len() as int),
{
    let mut out: Vec<String> = Vec::new();
    let mut i: usize = 0;
    while i < paths.len()
        invariant
            i <= paths@.len(),
            texts(out@) == shortest_paths(texts(paths@), i as int),
        decreases paths@.len() - i,
    {
        let ghost front = texts(out@);
        assert(texts(paths@)[i as int] == paths@[i as int]@);
        let mut found = false;
        let mut k: usize = 0;
        while k < out.len() && !found
            invariant
                i < paths@.len(),
                k <= out@.len(),
                front == texts(out@),
                found ==> exists|m: int|
                    0 <= m < front.len() && sub_path(paths@[i as int]@, #[trigger] front[m]),
                !found ==> forall|m: int|
                    0 <= m < k ==> !sub_path(paths@[i as int]@, #[trigger] front[m]),
            decreases out@.len() - k,
        {
            assert(front[k as int] == out@[k as int]@);
            if is_sub_path(&paths[i], &out[k]) {
                found = true;
            }
            k = k + 1;
        }
        if !found {
            out.push(paths[i].clone());
        }
        i = i + 1;
    }
    out
}

fn is_name_loaded(instrs: &Vec<&Instruction>, name: &str, globals: bool) -> (r: bool)
    ensures
        r == is_loaded(pointees(instrs@), name@, globals),
{
    let ghost all = pointees(instrs@);
    let mut i: usize = 0;
    while i < instrs.len()
        invariant
            all == pointees(instrs@),
            i <= instrs@.len(),
            forall|k: int| 0 <= k < i ==> !loads_name(#[trigger] all[k], name@, globals),
        decreases instrs@.len() - i,
    {
        if does_load_name(instrs[i], name, globals) {
            assert(loads_name(all[i as int], name@, globals));
            return true;
        }
        i = i + 1;
    }
    false
}

fn find_variable_deps(
    func: &HIRFunction,
    instrs: &Vec<&Instruction>,
    name: &str,
    globals: bool,
    filter: Option<&IdSet>,
) -> (r: Vec<String>)
    requires
        pointees(instrs@) == instructions(*func),
    ensures
        texts(r@) == variable_deps(*func, name@, globals, filter_view(filter)),
{
    let mut out: Vec<String> = Vec::new();
    if !is_name_loaded(instrs, name, globals) {
        return out;
    }
    let roots = find_root_paths(instrs, name, globals);
    let mut paths = find_root_paths(instrs, name, globals);
    resolve_paths(instrs, &mut paths);
    let (direct, leaves) = find_uses(func, &roots, &paths, filter);
    let order = sort_texts(&leaves);
    let short = keep_shortest_paths(&order);
    assert(texts(order@).len() == order@.len());
    if direct {
        out.push(owned(name));
        assert(texts(out@) =~= seq![name@]);
        out
    } else if short.len() > 0 {
        short
    } else if filter.is_none() {
        out.push(owned(name));
        assert(texts(out@) =~= seq![name@]);
        out
    } else {
        out
    }
}

fn find_all_variable_deps(
    func: &HIRFunction,
    instrs: &Vec<&Instruction>,
    names: &Vec<String>,
    globals: bool,
    filter: Option<&IdSet>,
) -> (r: Vec<String>)
    requires
        pointees(instrs@) == instructions(*func),
    ensures
        texts(r@) == all_variable_deps(
            *func,
            texts(names@),
            globals,
            filter_view(filter),
            names@.len() as int,
        ),
{
    let mut out: Vec<String> = Vec::new();
    let mut i: usize = 0;
    while i < names.len()
        invariant
            pointees(instrs@) == instructions(*func),
            i <= names@.len(),
            texts(out@) == all_variable_deps(
                *func,
                texts(names@),
                globals,
                filter_view(filter),
                i as int,
            ),
        decreases names@.len() - i,
    {
        assert(texts(names@)[i as int] == names@[i as int]@);
        let deps = find_variable_deps(func, instrs, &names[i], globals, filter);
        extend_texts(&mut out, &deps);
        i = i + 1;
    }
    out
}

fn find_reactive_elements(items: &Vec<ArrayElement>, hook: &str) -> (r: Vec<String>)
    ensures
        texts(r@) == reactive_elements(items@, hook@, items@.len() as int),
{
    let mut out: Vec<String> = Vec::new();
    let mut i: usize = 0;
    while i < items.len()
        invariant
            i <= items@.len(),
            texts(out@) == reactive_elements(items@, hook@, i as int),
        decreases items@.len() - i,
    {
        if let ArrayElement::Place(p) = &items[i] {
            if let Some(n) = &p.identifier.name {
                if is_reactive_destructured_element(hook, i) {
                    out.push(owned(n.value()));
                }
            }
        }
        i = i + 1;
    }
    out
}

fn find_keyed_names(properties: &Vec<ObjectPropertyOrSpread>) -> (r: Vec<String>)
    ensures
        texts(r@) == keyed_names(properties@, properties@.len() as int),
{
    let mut out: Vec<String> = Vec::new();
    let mut i: usize = 0;
    while i < properties.len()
        invariant
            i <= properties@.len(),
            texts(out@) == keyed_names(properties@, i as int),
        decreases properties@.len() - i,
    {
        if let ObjectPropertyOrSpread::Property(p) = &properties[i] {
            if let Some(n) = &p.place.identifier.name {
                out.push(owned(n.value()));
            }
        }
        i = i + 1;
    }
    out
}

pub fn find_property_names(properties: &Vec<ObjectPropertyOrSpread>) -> (r: Vec<String>)
    ensures
        texts(r@) == property_names(properties@, properties@.len() as int),
{
    let mut out: Vec<String> = Vec::new();
    let mut i: usize = 0;
    while i < properties.len()
        invariant
            i <= properties@.len(),
            texts(out@) == property_names(properties@, i as int),
        decreases properties@.len() - i,
    {
        let place = match &properties[i] {
            ObjectPropertyOrSpread::Property(p) => &p.place,
            ObjectPropertyOrSpread::Spread(p) => p,
        };
        if let Some(n) = &place.identifier.name {
            out.push(owned(n.value()));
        }
        i = i + 1;
    }
    out
}

pub fn find_element_names(items: &Vec<ArrayElement>) -> (r: Vec<String>)
    ensures
        texts(r@) == element_names(items@, items@.len() as int),
{
    let mut out: Vec<String> = Vec::new();
    let mut i: usize = 0;
    while i < items.len()
        invariant
            i <= items@.len(),
            texts(out@) == element_names(items@, i as int),
        decreases items@.len() - i,
    {
        match &items[i] {
            ArrayElement::Place(p) => {
                if let Some(n) = &p.identifier.name {
                    out.push(owned(n.value()));
                }
            },
            ArrayElement::Spread(p) => {
                if let Some(n) = &p.identifier.name {
                    out.push(owned(n.value()));
                }
            },
            ArrayElement::Hole => {},
        }
        i = i + 1;
    }
    out
}

fn places_from_ids<'a>(ids: &IdSet, value: &'a InstructionValue) -> (places: Vec<&'a Place>)
    ensures
        pointees(places@) == places_from(ids@, *value),
{
    let mut places: Vec<&Place> = Vec::new();
    match value {
        InstructionValue::Destructure { lvalue, value, .. } => {
            if ids.contains(value.identifier.id.0) {
                places = each_pattern_operand(&lvalue.pattern);
            }
        },
        InstructionValue::StoreLocal { lvalue, value, .. } => {
            if ids.contains(value.identifier.id.0) {
                places.push(&lvalue.place);
            }
        },
        _ => {},
    }
    proof {
        assert(pointees(places@) =~= places_from(ids@, *value));
    }
    places
}

fn add_unnamed_ids(ids: &mut IdSet, places: &Vec<&Place>)
    ensures
        final(ids)@ == with_unnamed_ids(old(ids)@, pointees(places@), places@.len() as int),
{
    let ghost start = ids@;
    let ghost all = pointees(places@);
    let mut i: usize = 0;
    while i < places.len()
        invariant
            all == pointees(places@),
            i <= places@.len(),
            ids@ == with_unnamed_ids(start, all, i as int),
        decreases places@.len() - i,
    {
        if places[i].identifier.name.is_none() {
            ids.insert(places[i].identifier.id.0);
        }
        i = i + 1;
    }
}

fn find_param_ids(instrs: &Vec<&Instruction>, param: &Identifier) -> (ids: IdSet)
    ensures
        ids@ == param_ids(pointees(instrs@), *param, instrs@.len() as int),
{
    let ghost all = pointees(instrs@);
    let mut ids = IdSet::new();
    ids.insert(param.id.0);
    proof {
        assert(ids@ =~= param_ids(all, *param, 0));
    }
    let mut i: usize = 0;
    while i < instrs.len()
        invariant
            all == pointees(instrs@),
            i <= instrs@.len(),
            ids@ == param_ids(all, *param, i as int),
        decreases instrs@.len() - i,
    {
        assert(all[i as int] == *instrs@[i as int]);
        if let InstructionValue::LoadLocal { place } = &instrs[i].value {
            if place.identifier.declaration_id == param.declaration_id || ids.contains(
                place.identifier.id.0,
            ) {
                ids.insert(instrs[i].lvalue.identifier.id.0);
            }
        } else {
            let places = places_from_ids(&ids, &instrs[i].value);
            assert(pointees(places@).len() == places@.len());
            add_unnamed_ids(&mut ids, &places);
        }
        i = i + 1;
    }
    ids
}

fn find_derived_names(instrs: &Vec<&Instruction>, param: &Identifier) -> (r: Vec<String>)
    ensures
        texts(r@) == all_derived_names(pointees(instrs@), *param, instrs@.len() as int),
{
    let ghost all = pointees(instrs@);
    let ids = find_param_ids(instrs, param);
    let mut out: Vec<String> = Vec::new();
    let mut i: usize = 0;
    while i < instrs.len()
        invariant
            all == pointees(instrs@),
            ids@ == param_ids(all, *param, all.len() as int),
            i <= instrs@.len(),
            texts(out@) == all_derived_names(all, *param, i as int),
        decreases instrs@.len() - i,
    {
        let mut more: Vec<String> = Vec::new();
        match &instrs[i].value {
            InstructionValue::Destructure { lvalue, value, .. } => {
                if ids.contains(value.identifier.id.0) {
                    more = match &lvalue.pattern {
                        Pattern::Array(a) => find_element_names(&a.items),
                        Pattern::Object(o) => find_property_names(&o.properties),
                    };
                }
            },
            InstructionValue::StoreLocal { lvalue, value, .. } => {
                if ids.contains(value.identifier.id.0) {
                    if let Some(n) = &lvalue.place.identifier.name {
                        more.push(owned(n.value()));
                    }
                }
            },
            _ => {},
        }
        assert(texts(more@) =~= derived_names(all, *param, all[i as int]));
        extend_texts(&mut out, &more);
        i = i + 1;
    }
    out
}

/// The dependencies on what the parameters without a name are taken apart into. With a filter, only
/// uses by the instructions that it lets pass count.
pub fn find_deps_from_anon_params(
    func: &HIRFunction,
    instrs: &Vec<&Instruction>,
    memo_filter: Option<&IdSet>,
) -> (r: Vec<String>)
    requires
        pointees(instrs@) == instructions(*func),
    ensures
        texts(r@) == sorted_once(
            anon_deps(*func, filter_view(memo_filter), func.params@.len() as int),
        ),
{
    let mut all_deps: Vec<String> = Vec::new();
    let mut i: usize = 0;
    while i < func.params.len()
        invariant
            pointees(instrs@) == instructions(*func),
            i <= func.params@.len(),
            texts(all_deps@) == anon_deps(*func, filter_view(memo_filter), i as int),
        decreases func.params@.len() - i,
    {
        let id = &func.params[i].place().identifier;
        if id.name.is_none() {
            let names = find_derived_names(instrs, id);
            assert(texts(names@).len() == names@.len());
            let deps = find_all_variable_deps(func, instrs, &names, false, memo_filter);
            extend_texts(&mut all_deps, &deps);
        }
        i = i + 1;
    }
    sort_once(&all_deps)
}

pub fn sort_once(v: &Vec<String>) -> (r: Vec<String>)
    ensures
        texts(r@) == sorted_once(texts(v@)),
{
    let order = sort_texts(v);
    assert(texts(order@).len() == order@.len());
    dedup_texts(&order)
}

impl Context {
    fn find_hook_results(&self, instr: &Instruction) -> (r: Vec<String>)
        ensures
            texts(r@) == hook_results(self@, *instr),
    {
        let mut out: Vec<String> = Vec::new();
        match &instr.value {
            InstructionValue::StoreLocal { lvalue, value, .. } => {
                if let Some(expr) = self.expr_map.get(value.identifier.id.0) {
                    if looks_like_hook_call(expr) {
                        let hook = text_before(expr, '(');
                        if !is_stable_hook_return(&hook) {
                            let name = self.identifier_name(&lvalue.place.identifier);
                            if !starts_with_char(&name, '_') {
                                out.push(name);
                            }
                        }
                    }
                }
            },
            InstructionValue::Destructure { lvalue, value, .. } => {
                if let Some(expr) = self.expr_map.get(value.identifier.id.0) {
                    if looks_like_hook_call(expr) {
                        let hook = text_before(expr, '(');
                        out = match &lvalue.pattern {
                            Pattern::Array(a) => find_reactive_elements(&a.items, &hook),
                            Pattern::Object(o) => if is_stable_hook_return(&hook) {
                                Vec::new()
                            } else {
                                find_keyed_names(&o.properties)
                            },
                        };
                    }
                }
            },
            _ => {},
        }
        assert(texts(out@) =~= hook_results(self@, *instr));
        out
    }

    fn find_all_hook_results(&self, instrs: &Vec<&Instruction>) -> (r: Vec<String>)
        ensures
            texts(r@) == all_hook_results(self@, pointees(instrs@), instrs@.len() as int),
    {
        let ghost all = pointees(instrs@);
        let mut out: Vec<String> = Vec::new();
        let mut i: usize = 0;
        while i < instrs.len()
            invariant
                all == pointees(instrs@),
                i <= instrs@.len(),
                texts(out@) == all_hook_results(self@, all, i as int),
            decreases instrs@.len() - i,
        {
            let more = self.find_hook_results(instrs[i]);
            extend_texts(&mut out, &more);
            i = i + 1;
        }
        out
    }

    /// The values that decide whether a memoized result still holds. With a filter, only uses by the
    /// instructions that it lets pass count.
    pub fn find_reactive_deps_filtered(&self, func: &HIRFunction, memo_filter: Option<&IdSet>) -> (r:
        Vec<String>)
        ensures
            texts(r@) == reactive_deps(self@, *func, filter_view(memo_filter)),
    {
        let instrs = instructions_of(func);
        let names = find_param_names(func);
        let hooks = self.find_all_hook_results(&instrs);
        assert(texts(names@).len() == names@.len());
        assert(texts(hooks@).len() == hooks@.len());
        let mut anon = find_deps_from_anon_params(func, &instrs, memo_filter);
        if names.len() == 0 && func.params.len() > 0 {
            add_all_new(&mut anon, &hooks);
            return anon;
        }
        let mut deps = find_all_variable_deps(func, &instrs, &names, true, memo_filter);
        extend_texts(&mut deps, &anon);
        add_all_new(&mut deps, &hooks);
        sort_once(&deps)
    }

    /// The values that decide whether a memoized result still holds.
    pub fn find_reactive_deps(&self, func: &HIRFunction) -> (r: Vec<String>)
        ensures
            texts(r@) == reactive_deps(self@, *func, None),
    {
        self.find_reactive_deps_filtered(func, None)
    }

    fn find_alias(&self, params: &Vec<String>, instr: &Instruction) -> (r: Option<(String, String)>)
        ensures
            match r {
                Some(a) => alias_of(self@, texts(params@), *instr) == Some((a.0@, a.1@)),
                None => alias_of(self@, texts(params@), *instr) is None,
            },
    {
        if let InstructionValue::StoreLocal { lvalue, value, .. } = &instr.value {
            if let Some(expr) = self.expr_map.get(value.identifier.id.0) {
                if !contains_char(expr, '(') && contains_char(expr, '.') {
                    let head = text_before(expr, '.');
                    let base = strip_trailing(&head, '?');
                    if !holds_text(params, &base) {
                        let name = self.identifier_name(&lvalue.place.identifier);
                        if !starts_with_char(&name, '_') && !is_temp_name_text(&name) {
                            return Some((expr.clone(), name));
                        }
                    }
                }
            }
        }
        None
    }

    /// The names that stores make for properties of something that is no parameter. Where an
    /// expression has several, the last one counts.
    pub fn find_dep_aliases(&self, func: &HIRFunction) -> (r: NameMap)
        ensures
            r@ == dep_aliases(
                self@,
                param_names(func.params@, func.params@.len() as int),
                instructions(*func),
                instructions(*func).len() as int,
            ),
    {
        let instrs = instructions_of(func);
        let params = find_param_names(func);
        let ghost all = instructions(*func);
        let mut aliases = NameMap::new();
        let mut n: usize = instrs.len();
        let ghost goal = dep_aliases(self@, texts(params@), all, all.len() as int);
        proof {
            assert(aliases@ + dep_aliases(self@, texts(params@), all, n as int) =~= goal);
        }
        while n > 0
            invariant
                all == pointees(instrs@),
                n <= instrs@.len(),
                aliases@ + dep_aliases(self@, texts(params@), all, n as int) == goal,
            decreases n,
        {
            let ghost before = aliases@;
            let ghost rest = dep_aliases(self@, texts(params@), all, n - 1);
            assert(all[n - 1] == *instrs@[n - 1]);
            if let Some((expr, name)) = self.find_alias(&params, instrs[n - 1]) {
                let ghost a = (expr@, name@);
                aliases.push(expr, name);
                proof {
                    assert(before + (seq![a] + rest) =~= before.push(a) + rest);
                }
            }
            n = n - 1;
        }
        proof {
            assert(aliases@ + Seq::empty() =~= aliases@);
        }
        aliases
    }
}

} // verus!

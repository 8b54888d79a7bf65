//! The variables that the memoized block of a function hands out beside its main value.

use vstd::prelude::*;
use std::collections::HashMap;

use crate::collections::{IdSet, IdTexts};
use crate::extract_scope_destructuring::{each_pattern_operand, pattern_operands};
use crate::graph::{instructions, instructions_of, pointees};
use crate::hir::{
    BasicBlock, BlockId, HIRFunction, IdentifierName, Instruction, InstructionKind,
    InstructionValue, Place, Terminal,
};
use crate::sorting::{add_new, push_new};
use crate::text::{chars_of, is_temp_name_text, same, skip_chars, temp_name, texts};

verus! {

broadcast use {crate::text::group_texts, vstd::std_specs::hash::group_hash_axioms};

/// A name that looks like a temporary: `t0`, `_t0` and the like.
pub open spec fn looks_temporary(name: Seq<char>) -> bool {
    temp_name(name) || (name.len() > 0 && name[0] == '_' && temp_name(name.skip(1)))
}

/// Checks if a name looks like a temporary.
pub fn is_temp_name(name: &str) -> (r: bool)
    ensures
        r == looks_temporary(name@),
{
    if is_temp_name_text(name) {
        return true;
    }
    let cs = chars_of(name);
    if cs.len() > 0 && cs[0] == '_' {
        let rest = skip_chars(name, 1);
        is_temp_name_text(&rest)
    } else {
        false
    }
}

/// The ranges of the scopes of the first `n` instructions, each scope once, and the scopes.
pub open spec fn scope_ranges(instrs: Seq<Instruction>, n: int) -> (Seq<(u32, u32)>, Set<u32>)
    decreases n,
{
    if n <= 0 {
        (Seq::empty(), Set::empty())
    } else {
        let front = scope_ranges(instrs, n - 1);
        match instrs[n - 1].lvalue.identifier.scope {
            Some(scope) => if front.1.contains(scope.id.0) {
                front
            } else {
                (
                    front.0.push((scope.range.start.0, scope.range.end.0)),
                    front.1.insert(scope.id.0),
                )
            },
            None => front,
        }
    }
}

/// The least start among the first `n` ranges; `first` where there is none.
pub open spec fn least_start(ranges: Seq<(u32, u32)>, first: u32, n: int) -> u32
    decreases n,
{
    if n <= 0 {
        first
    } else {
        let m = least_start(ranges, first, n - 1);
        if ranges[n - 1].0 < m {
            ranges[n - 1].0
        } else {
            m
        }
    }
}

/// Whether an instruction lies in one of the ranges.
pub open spec fn in_ranges(ranges: Seq<(u32, u32)>, id: u32) -> bool {
    exists|i: int| 0 <= i < ranges.len() && (#[trigger] ranges[i]).0 <= id < ranges[i].1
}

/// Where the first `n` instructions declare each variable first.
pub open spec fn declared_at(instrs: Seq<Instruction>, n: int) -> Map<u32, u32>
    decreases n,
{
    if n <= 0 {
        Map::empty()
    } else {
        let front = declared_at(instrs, n - 1);
        match instrs[n - 1].value {
            InstructionValue::DeclareLocal { lvalue } => {
                let d = lvalue.place.identifier.declaration_id.0;
                if front.contains_key(d) {
                    front
                } else {
                    front.insert(d, instrs[n - 1].id.0)
                }
            },
            _ => front,
        }
    }
}

/// The source names under which the first `n` instructions declare variables.
pub open spec fn declared_names(instrs: Seq<Instruction>, n: int) -> Map<u32, Seq<char>>
    decreases n,
{
    if n <= 0 {
        Map::empty()
    } else {
        let front = declared_names(instrs, n - 1);
        match instrs[n - 1].value {
            InstructionValue::DeclareLocal { lvalue } => {
                let d = lvalue.place.identifier.declaration_id.0;
                match lvalue.place.identifier.name {
                    Some(IdentifierName::Named(name)) => if front.contains_key(d) {
                        front
                    } else {
                        front.insert(d, name@)
                    },
                    _ => front,
                }
            },
            _ => front,
        }
    }
}

/// The declarations of a function, as far as they decide what is an output.
pub struct Declared {
    pub at: Map<u32, u32>,
    pub names: Map<u32, Seq<char>>,
}

/// Whether a variable can be an output: it has a name that is neither that of a temporary nor
/// `memo_var`.
pub open spec fn nameable(names: Map<u32, Seq<char>>, memo_var: Seq<char>, decl: u32) -> bool {
    names.contains_key(decl) && !looks_temporary(names[decl]) && names[decl] != memo_var
}

/// The variables that an instruction assigns.
pub open spec fn assigned_places(value: InstructionValue) -> Seq<Place> {
    match value {
        InstructionValue::StoreLocal { lvalue, .. } => if lvalue.kind == InstructionKind::Reassign {
            seq![lvalue.place]
        } else {
            Seq::empty()
        },
        InstructionValue::Destructure { lvalue, .. } => if lvalue.kind == InstructionKind::Reassign {
            pattern_operands(lvalue.pattern)
        } else {
            Seq::empty()
        },
        _ => Seq::empty(),
    }
}

/// `decls` and the ones of the first `n` places that are declared before `boundary` and can be outputs.
pub open spec fn with_assigned(
    d: Declared,
    boundary: u32,
    memo_var: Seq<char>,
    decls: Seq<u32>,
    places: Seq<Place>,
    n: int,
) -> Seq<u32>
    decreases n,
{
    if n <= 0 {
        decls
    } else {
        let front = with_assigned(d, boundary, memo_var, decls, places, n - 1);
        let decl = places[n - 1].identifier.declaration_id.0;
        if d.at.contains_key(decl) && d.at[decl] < boundary && !front.contains(decl) && nameable(
            d.names,
            memo_var,
            decl,
        ) {
            front.push(decl)
        } else {
            front
        }
    }
}

/// The variables from before the first scope that the first `n` instructions assign in a scope.
pub open spec fn reassigned(
    d: Declared,
    ranges: Seq<(u32, u32)>,
    boundary: u32,
    memo_var: Seq<char>,
    instrs: Seq<Instruction>,
    n: int,
) -> Seq<u32>
    decreases n,
{
    if n <= 0 {
        Seq::empty()
    } else {
        let front = reassigned(d, ranges, boundary, memo_var, instrs, n - 1);
        if in_ranges(ranges, instrs[n - 1].id.0) {
            let places = assigned_places(instrs[n - 1].value);
            with_assigned(d, boundary, memo_var, front, places, places.len() as int)
        } else {
            front
        }
    }
}

/// From an identifier to the identifier and the declaration that it was loaded from.
pub open spec fn load_sources(
    sources: Map<u32, (u32, u32)>,
    instrs: Seq<Instruction>,
    n: int,
) -> Map<u32, (u32, u32)>
    decreases n,
{
    if n <= 0 {
        sources
    } else {
        let front = load_sources(sources, instrs, n - 1);
        match instrs[n - 1].value {
            InstructionValue::LoadLocal { place } => front.insert(
                instrs[n - 1].lvalue.identifier.id.0,
                (place.identifier.id.0, place.identifier.declaration_id.0),
            ),
            _ => front,
        }
    }
}

pub open spec fn push_id(s: Seq<u32>, x: u32) -> Seq<u32> {
    if s.contains(x) {
        s
    } else {
        s.push(x)
    }
}

/// How many loads a returned value is followed through.
pub const TRACE_LIMIT: u32 = 20;

/// `decls` and the declarations that `id` was loaded from, through at most `steps` loads.
pub open spec fn traced(
    sources: Map<u32, (u32, u32)>,
    id: u32,
    decls: Seq<u32>,
    steps: nat,
) -> Seq<u32>
    decreases steps,
{
    if steps == 0 || !sources.contains_key(id) {
        decls
    } else {
        traced(sources, sources[id].0, push_id(decls, sources[id].1), (steps - 1) as nat)
    }
}

/// The declarations that flow into the returned values of the first `n` blocks, and the loads that
/// were met on the way.
pub open spec fn returned(blocks: Seq<(BlockId, BasicBlock)>, n: int) -> (
    Seq<u32>,
    Map<u32, (u32, u32)>,
)
    decreases n,
{
    if n <= 0 {
        (Seq::empty(), Map::empty())
    } else {
        let front = returned(blocks, n - 1);
        let block = blocks[n - 1].1;
        let sources = load_sources(
            front.1,
            block.instructions@,
            block.instructions@.len() as int,
        );
        match block.terminal {
            Terminal::Return { value, .. } => (
                push_id(
                    traced(sources, value.identifier.id.0, front.0, TRACE_LIMIT as nat),
                    value.identifier.declaration_id.0,
                ),
                sources,
            ),
            _ => (front.0, sources),
        }
    }
}

/// The names of the first `n` of the declarations that are outputs, none of them twice. `decls` is
/// filtered to those for which `late` does not hold back: declared at or behind the boundary.
pub open spec fn with_returned(
    outputs: Seq<Seq<char>>,
    d: Declared,
    boundary: u32,
    memo_var: Seq<char>,
    taken: Seq<u32>,
    decls: Seq<u32>,
    n: int,
) -> Seq<Seq<char>>
    decreases n,
{
    if n <= 0 {
        outputs
    } else {
        let front = with_returned(outputs, d, boundary, memo_var, taken, decls, n - 1);
        let decl = decls[n - 1];
        if !taken.contains(decl) && d.at.contains_key(decl) && d.at[decl] >= boundary && nameable(
            d.names,
            memo_var,
            decl,
        ) {
            push_new(front, d.names[decl])
        } else {
            front
        }
    }
}

pub open spec fn with_reassigned(d: Declared, decls: Seq<u32>, n: int) -> Seq<Seq<char>>
    decreases n,
{
    if n <= 0 {
        Seq::empty()
    } else {
        push_new(with_reassigned(d, decls, n - 1), d.names[decls[n - 1]])
    }
}

/// The outputs beside `memo_var`, and the number of scopes: first the variables from before the
/// first scope that are assigned in a scope, then those declared behind its start that are returned.
pub open spec fn extra_outputs(func: HIRFunction, memo_var: Seq<char>) -> (Seq<Seq<char>>, nat) {
    let instrs = instructions(func);
    let n = instrs.len() as int;
    let ranges = scope_ranges(instrs, n).0;
    if ranges.len() == 0 {
        (Seq::empty(), 0)
    } else {
        let boundary = least_start(ranges, ranges[0].0, ranges.len() as int);
        let d = Declared { at: declared_at(instrs, n), names: declared_names(instrs, n) };
        let first = reassigned(d, ranges, boundary, memo_var, instrs, n);
        let last = returned(func.body.blocks@, func.body.blocks@.len() as int).0;
        (
            with_returned(
                with_reassigned(d, first, first.len() as int),
                d,
                boundary,
                memo_var,
                first,
                last,
                last.len() as int,
            ),
            ranges.len(),
        )
    }
}

// ---------------------------------------------------------------------------
// Execution
// ---------------------------------------------------------------------------

pub fn find_scope_ranges(instrs: &Vec<&Instruction>) -> (r: Vec<(u32, u32)>)
    ensures
        r@ == scope_ranges(pointees(instrs@), instrs@.len() as int).0,
{
    let ghost all = pointees(instrs@);
    let mut ranges: Vec<(u32, u32)> = Vec::new();
    let mut seen = IdSet::new();
    let mut i: usize = 0;
    while i < instrs.len()
        invariant
            all == pointees(instrs@),
            i <= instrs@.len(),
            (ranges@, seen@) == scope_ranges(all, i as int),
        decreases instrs@.len() - i,
    {
        if let Some(scope) = &instrs[i].lvalue.identifier.scope {
            if !seen.contains(scope.id.0) {
                seen.insert(scope.id.0);
                ranges.push((scope.range.start.0, scope.range.end.0));
            }
        }
        i = i + 1;
    }
    ranges
}

pub fn find_least_start(ranges: &Vec<(u32, u32)>, first: u32) -> (r: u32)
    ensures
        r == least_start(ranges@, first, ranges@.len() as int),
{
    let mut m: u32 = first;
    let mut i: usize = 0;
    while i < ranges.len()
        invariant
            i <= ranges@.len(),
            m == least_start(ranges@, first, i as int),
        decreases ranges@.len() - i,
    {
        if ranges[i].0 < m {
            m = ranges[i].0;
        }
        i = i + 1;
    }
    m
}

fn is_in_ranges(ranges: &Vec<(u32, u32)>, id: u32) -> (r: bool)
    ensures
        r == in_ranges(ranges@, id),
{
    let mut i: usize = 0;
    while i < ranges.len()
        invariant
            i <= ranges@.len(),
            forall|k: int|
                0 <= k < i ==> !((#[trigger] ranges@[k]).0 <= id && id < ranges@[k].1),
        decreases ranges@.len() - i,
    {
        if ranges[i].0 <= id && id < ranges[i].1 {
            return true;
        }
        i = i + 1;
    }
    false
}

fn find_declared(instrs: &Vec<&Instruction>) -> (r: (HashMap<u32, u32>, IdTexts))
    ensures
        r.0@ == declared_at(pointees(instrs@), instrs@.len() as int),
        r.1@ == declared_names(pointees(instrs@), instrs@.len() as int),
{
    let ghost all = pointees(instrs@);
    let mut at: HashMap<u32, u32> = HashMap::new();
    let mut names = IdTexts::new();
    let mut i: usize = 0;
    while i < instrs.len()
        invariant
            all == pointees(instrs@),
            i <= instrs@.len(),
            at@ == declared_at(all, i as int),
            names@ == declared_names(all, i as int),
        decreases instrs@.len() - i,
    {
        if let InstructionValue::DeclareLocal { lvalue } = &instrs[i].value {
            let d: u32 = lvalue.place.identifier.declaration_id.0;
            if !at.contains_key(&d) {
                at.insert(d, instrs[i].id.0);
            }
            if let Some(IdentifierName::Named(name)) = &lvalue.place.identifier.name {
                if !names.contains(d) {
                    names.insert(d, name.clone());
                }
            }
        }
        i = i + 1;
    }
    (at, names)
}

fn holds_id(v: &Vec<u32>, x: u32) -> (r: bool)
    ensures
        r == v@.contains(x),
{
    let mut i: usize = 0;
    while i < v.len()
        invariant
            i <= v@.len(),
            forall|k: int| 0 <= k < i ==> #[trigger] v@[k] != x,
        decreases v@.len() - i,
    {
        if v[i] == x {
            return true;
        }
        i = i + 1;
    }
    false
}

fn add_id(v: &mut Vec<u32>, x: u32)
    ensures
        final(v)@ == push_id(old(v)@, x),
{
    if !holds_id(v, x) {
        v.push(x);
    }
}

fn is_nameable(names: &IdTexts, memo_var: &str, decl: u32) -> (r: bool)
    ensures
        r == nameable(names@, memo_var@, decl),
{
    match names.get(decl) {
        Some(name) => !is_temp_name(name) && !same(name, memo_var),
        None => false,
    }
}

fn assigned_places_of(value: &InstructionValue) -> (places: Vec<&Place>)
    ensures
        pointees(places@) == assigned_places(*value),
{
    let mut places: Vec<&Place> = Vec::new();
    match value {
        InstructionValue::StoreLocal { lvalue, .. } => {
            if lvalue.kind == InstructionKind::Reassign {
                places.push(&lvalue.place);
            }
        },
        InstructionValue::Destructure { lvalue, .. } => {
            if lvalue.kind == InstructionKind::Reassign {
                places = each_pattern_operand(&lvalue.pattern);
            }
        },
        _ => {},
    }
    proof {
        assert(pointees(places@) =~= assigned_places(*value));
    }
    places
}

fn add_assigned(
    out: &mut Vec<u32>,
    at: &HashMap<u32, u32>,
    names: &IdTexts,
    boundary: u32,
    memo_var: &str,
    places: &Vec<&Place>,
)
    ensures
        final(out)@ == with_assigned(
            Declared { at: at@, names: names@ },
            boundary,
            memo_var@,
            old(out)@,
            pointees(places@),
            places@.len() as int,
        ),
{
    let ghost all = pointees(places@);
    let ghost start = out@;
    let ghost d = Declared { at: at@, names: names@ };
    let mut i: usize = 0;
    while i < places.len()
        invariant
            all == pointees(places@),
            d == (Declared { at: at@, names: names@ }),
            i <= places@.len(),
            out@ == with_assigned(d, boundary, memo_var@, start, all, i as int),
        decreases places@.len() - i,
    {
        let decl: u32 = places[i].identifier.declaration_id.0;
        let early = match at.get(&decl) {
            Some(id) => *id < boundary,
            None => false,
        };
        if early && !holds_id(out, decl) && is_nameable(names, memo_var, decl) {
            out.push(decl);
        }
        i = i + 1;
    }
}

fn find_reassigned(
    at: &HashMap<u32, u32>,
    names: &IdTexts,
    ranges: &Vec<(u32, u32)>,
    boundary: u32,
    memo_var: &str,
    instrs: &Vec<&Instruction>,
) -> (r: Vec<u32>)
    ensures
        r@ == reassigned(
            Declared { at: at@, names: names@ },
            ranges@,
            boundary,
            memo_var@,
            pointees(instrs@),
            instrs@.len() as int,
        ),
{
    let ghost all = pointees(instrs@);
    let ghost d = Declared { at: at@, names: names@ };
    let mut out: Vec<u32> = Vec::new();
    let mut i: usize = 0;
    while i < instrs.len()
        invariant
            all == pointees(instrs@),
            d == (Declared { at: at@, names: names@ }),
            i <= instrs@.len(),
            out@ == reassigned(d, ranges@, boundary, memo_var@, all, i as int),
        decreases instrs@.len() - i,
    {
        if is_in_ranges(ranges, instrs[i].id.0) {
            let places = assigned_places_of(&instrs[i].value);
            assert(pointees(places@).len() == places@.len());
            add_assigned(&mut out, at, names, boundary, memo_var, &places);
        }
        i = i + 1;
    }
    out
}

fn note_load_sources(sources: &mut HashMap<u32, (u32, u32)>, instrs: &Vec<Instruction>)
    ensures
        final(sources)@ == load_sources(old(sources)@, instrs@, instrs@.len() as int),
{
    let ghost start = sources@;
    let mut i: usize = 0;
    while i < instrs.len()
        invariant
            i <= instrs@.len(),
            sources@ == load_sources(start, instrs@, i as int),
        decreases instrs@.len() - i,
    {
        if let InstructionValue::LoadLocal { place } = &instrs[i].value {
            sources.insert(
                instrs[i].lvalue.identifier.id.0,
                (place.identifier.id.0, place.identifier.declaration_id.0),
            );
        }
        i = i + 1;
    }
}

fn trace_loads(sources: &HashMap<u32, (u32, u32)>, start: u32, decls: &mut Vec<u32>)
    ensures
        final(decls)@ == traced(sources@, start, old(decls)@, TRACE_LIMIT as nat),
{
    let mut id: u32 = start;
    let mut steps: u32 = TRACE_LIMIT;
    let ghost goal = traced(sources@, start, decls@, TRACE_LIMIT as nat);
    while steps > 0
        invariant
            traced(sources@, id, decls@, steps as nat) == goal,
        decreases steps,
    {
        match sources.get(&id) {
            Some(source) => {
                add_id(decls, source.1);
                id = source.0;
                steps = steps - 1;
            },
            None => {
                steps = 0;
            },
        }
    }
}

fn find_returned(blocks: &Vec<(BlockId, BasicBlock)>) -> (decls: Vec<u32>)
    ensures
        decls@ == returned(blocks@, blocks@.len() as int).0,
{
    let mut decls: Vec<u32> = Vec::new();
    let mut sources: HashMap<u32, (u32, u32)> = HashMap::new();
    let mut b: usize = 0;
    while b < blocks.len()
        invariant
            b <= blocks@.len(),
            (decls@, sources@) == returned(blocks@, b as int),
        decreases blocks@.len() - b,
    {
        let block = &blocks[b].1;
        note_load_sources(&mut sources, &block.instructions);
        if let Terminal::Return { value, .. } = &block.terminal {
            trace_loads(&sources, value.identifier.id.0, &mut decls);
            add_id(&mut decls, value.identifier.declaration_id.0);
        }
        b = b + 1;
    }
    decls
}

/// The outputs of the memoized block beside `memo_var`, and the number of scopes.
pub fn collect_extra_scope_outputs(func: &HIRFunction, memo_var: &str) -> (r: (Vec<String>, usize))
    ensures
        (texts(r.0@), r.1 as nat) == extra_outputs(*func, memo_var@),
{
    let instrs = instructions_of(func);
    let ghost all = instructions(*func);
    let ranges = find_scope_ranges(&instrs);
    let mut outputs: Vec<String> = Vec::new();
    if ranges.len() == 0 {
        return (outputs, 0);
    }
    let boundary: u32 = find_least_start(&ranges, ranges[0].0);
    let (at, names) = find_declared(&instrs);
    let first = find_reassigned(&at, &names, &ranges, boundary, memo_var, &instrs);
    let last = find_returned(&func.body.blocks);
    let ghost d = Declared { at: at@, names: names@ };
    let mut i: usize = 0;
    proof {
        lemma_reassigned_named(d, ranges@, boundary, memo_var@, all, all.len() as int);
    }
    while i < first.len()
        invariant
            d == (Declared { at: at@, names: names@ }),
            i <= first@.len(),
            forall|k: int| 0 <= k < first@.len() ==> names@.contains_key(#[trigger] first@[k]),
            texts(outputs@) == with_reassigned(d, first@, i as int),
        decreases first@.len() - i,
    {
        if let Some(name) = names.get(first[i]) {
            add_new(&mut outputs, name);
        }
        i = i + 1;
    }
    let ghost start = texts(outputs@);
    let mut j: usize = 0;
    while j < last.len()
        invariant
            d == (Declared { at: at@, names: names@ }),
            j <= last@.len(),
            texts(outputs@) == with_returned(
                start,
                d,
                boundary,
                memo_var@,
                first@,
                last@,
                j as int,
            ),
        decreases last@.len() - j,
    {
        let decl: u32 = last[j];
        let late = match at.get(&decl) {
            Some(id) => *id >= boundary,
            None => false,
        };
        if late && !holds_id(&first, decl) && is_nameable(&names, memo_var, decl) {
            if let Some(name) = names.get(decl) {
                add_new(&mut outputs, name);
            }
        }
        j = j + 1;
    }
    (outputs, ranges.len())
}

/// Whether all of the declarations have names.
pub open spec fn all_named(d: Declared, decls: Seq<u32>) -> bool {
    forall|k: int| 0 <= k < decls.len() ==> d.names.contains_key(#[trigger] decls[k])
}

proof fn lemma_with_assigned_named(
    d: Declared,
    boundary: u32,
    memo_var: Seq<char>,
    decls: Seq<u32>,
    places: Seq<Place>,
    n: int,
)
    requires
        all_named(d, decls),
    ensures
        all_named(d, with_assigned(d, boundary, memo_var, decls, places, n)),
    decreases n,
{
    if n > 0 {
        lemma_with_assigned_named(d, boundary, memo_var, decls, places, n - 1);
    }
}

proof fn lemma_reassigned_named(
    d: Declared,
    ranges: Seq<(u32, u32)>,
    boundary: u32,
    memo_var: Seq<char>,
    instrs: Seq<Instruction>,
    n: int,
)
    ensures
        all_named(d, reassigned(d, ranges, boundary, memo_var, instrs, n)),
    decreases n,
{
    if n > 0 {
        lemma_reassigned_named(d, ranges, boundary, memo_var, instrs, n - 1);
        let front = reassigned(d, ranges, boundary, memo_var, instrs, n - 1);
        let places = assigned_places(instrs[n - 1].value);
        lemma_with_assigned_named(d, boundary, memo_var, front, places, places.len() as int);
    }
}

} // verus!

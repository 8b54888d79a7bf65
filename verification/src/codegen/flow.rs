//! What follows from the instructions of a function by passing over them until nothing is new.

use vstd::prelude::*;

use crate::codegen::reads::{flow_places, instruction_input_place_ids, place_ids};
use crate::collections::{IdSet, IdTexts};
use crate::graph::pointees;
use crate::hir::{
    DeclarationId, IdentifierId, Instruction, InstructionValue, NonLocalBinding, PropertyLiteral,
};
use crate::text::{cat3, owned, same};

verus! {

/// The number of the identifier that an instruction defines.
pub open spec fn result_id(instr: Instruction) -> u32 {
    instr.lvalue.identifier.id.0
}

/// How many of the first `n` instructions define an identifier outside of `ids`.
pub open spec fn missing(instrs: Seq<Instruction>, ids: Set<u32>, n: int) -> nat
    decreases n,
{
    if n <= 0 {
        0
    } else {
        missing(instrs, ids, n - 1) + if ids.contains(result_id(instrs[n - 1])) {
            0nat
        } else {
            1nat
        }
    }
}

pub proof fn lemma_missing_shrinks(instrs: Seq<Instruction>, a: Set<u32>, b: Set<u32>, n: int)
    requires
        0 <= n <= instrs.len(),
        a.subset_of(b),
    ensures
        missing(instrs, b, n) <= missing(instrs, a, n),
        (exists|k: int|
            0 <= k < n && !a.contains(result_id(#[trigger] instrs[k])) && b.contains(
                result_id(instrs[k]),
            )) ==> missing(instrs, b, n) < missing(instrs, a, n),
    decreases n,
{
    if n > 0 {
        lemma_missing_shrinks(instrs, a, b, n - 1);
    }
}

// ---------------------------------------------------------------------------
// Where a value can flow
// ---------------------------------------------------------------------------

pub open spec fn any_of(ids: Set<u32>, list: Seq<IdentifierId>) -> bool {
    exists|i: int| 0 <= i < list.len() && ids.contains((#[trigger] list[i]).0)
}

/// Whether one of `ids` is stored in the declaration.
pub open spec fn stored_from(instrs: Seq<Instruction>, ids: Set<u32>, decl: DeclarationId) -> bool {
    exists|i: int|
        0 <= i < instrs.len() && ((#[trigger] instrs[i]).value matches InstructionValue::StoreLocal {
            lvalue,
            value,
            ..
        } && lvalue.place.identifier.declaration_id == decl && ids.contains(value.identifier.id.0))
}

/// Whether a value of `ids` flows into what an instruction computes: it is an input, or it is stored
/// in the variable that is loaded.
pub open spec fn receives(instrs: Seq<Instruction>, ids: Set<u32>, instr: Instruction) -> bool {
    any_of(ids, place_ids(flow_places(instr.value))) || (
    instr.value matches InstructionValue::LoadLocal { place } && stored_from(
        instrs,
        ids,
        place.identifier.declaration_id,
    ))
}

pub open spec fn flow_step(instrs: Seq<Instruction>, ids: Set<u32>, instr: Instruction) -> Set<u32> {
    if receives(instrs, ids, instr) {
        ids.insert(result_id(instr))
    } else {
        ids
    }
}

pub open spec fn flow_pass(instrs: Seq<Instruction>, ids: Set<u32>, n: int) -> Set<u32>
    decreases n,
{
    if n <= 0 {
        ids
    } else {
        flow_step(instrs, flow_pass(instrs, ids, n - 1), instrs[n - 1])
    }
}

pub proof fn lemma_flow_pass(instrs: Seq<Instruction>, ids: Set<u32>, n: int)
    requires
        0 <= n <= instrs.len(),
    ensures
        ids.subset_of(flow_pass(instrs, ids, n)),
        flow_pass(instrs, ids, n) == ids || exists|k: int|
            0 <= k < n && !ids.contains(result_id(#[trigger] instrs[k])) && flow_pass(
                instrs,
                ids,
                n,
            ).contains(result_id(instrs[k])),
    decreases n,
{
    if n > 0 {
        lemma_flow_pass(instrs, ids, n - 1);
        let before = flow_pass(instrs, ids, n - 1);
        let after = flow_pass(instrs, ids, n);
        let id = result_id(instrs[n - 1]);
        if receives(instrs, before, instrs[n - 1]) {
            if ids.contains(id) && before == ids {
                assert(after =~= ids);
            } else if !ids.contains(id) {
                assert(after.contains(result_id(instrs[n - 1])));
            } else {
                let k = choose|k: int|
                    0 <= k < n - 1 && !ids.contains(result_id(#[trigger] instrs[k]))
                        && before.contains(result_id(instrs[k]));
                assert(after.contains(result_id(instrs[k])));
            }
        }
    }
}

/// All identifiers that a value of `ids` can flow to.
pub open spec fn flow_closure(instrs: Seq<Instruction>, ids: Set<u32>) -> Set<u32>
    decreases missing(instrs, ids, instrs.len() as int),
{
    let next = flow_pass(instrs, ids, instrs.len() as int);
    if next == ids {
        ids
    } else {
        proof {
            lemma_flow_pass(instrs, ids, instrs.len() as int);
            lemma_missing_shrinks(instrs, ids, next, instrs.len() as int);
        }
        flow_closure(instrs, next)
    }
}

fn holds_any(ids: &IdSet, list: &Vec<IdentifierId>) -> (r: bool)
    ensures
        r == any_of(ids@, list@),
{
    let mut i: usize = 0;
    while i < list.len()
        invariant
            i <= list@.len(),
            forall|k: int| 0 <= k < i ==> !ids@.contains((#[trigger] list@[k]).0),
        decreases list@.len() - i,
    {
        if ids.contains(list[i].0) {
            return true;
        }
        i = i + 1;
    }
    false
}

fn is_stored_from(instrs: &Vec<&Instruction>, ids: &IdSet, decl: DeclarationId) -> (r: bool)
    ensures
        r == stored_from(pointees(instrs@), ids@, decl),
{
    let ghost all = pointees(instrs@);
    let mut i: usize = 0;
    while i < instrs.len()
        invariant
            all == pointees(instrs@),
            i <= instrs@.len(),
            forall|k: int|
                0 <= k < i ==> !((#[trigger] all[k]).value matches InstructionValue::StoreLocal {
                    lvalue,
                    value,
                    ..
                } && lvalue.place.identifier.declaration_id == decl && ids@.contains(
                    value.identifier.id.0,
                )),
        decreases instrs@.len() - i,
    {
        if let InstructionValue::StoreLocal { lvalue, value, .. } = &instrs[i].value {
            if lvalue.place.identifier.declaration_id == decl && ids.contains(
                value.identifier.id.0,
            ) {
                assert(all[i as int] == *instrs@[i as int]);
                return true;
            }
        }
        i = i + 1;
    }
    false
}

fn does_receive(instrs: &Vec<&Instruction>, ids: &IdSet, instr: &Instruction) -> (r: bool)
    ensures
        r == receives(pointees(instrs@), ids@, *instr),
{
    let inputs = instruction_input_place_ids(&instr.value);
    if holds_any(ids, &inputs) {
        return true;
    }
    match &instr.value {
        InstructionValue::LoadLocal { place } => is_stored_from(
            instrs,
            ids,
            place.identifier.declaration_id,
        ),
        _ => false,
    }
}

/// Adds to `ids` all identifiers that their values can flow to.
pub fn close_over_flow(instrs: &Vec<&Instruction>, ids: &mut IdSet)
    ensures
        final(ids)@ == flow_closure(pointees(instrs@), old(ids)@),
{
    let ghost all = pointees(instrs@);
    let ghost goal = flow_closure(all, ids@);
    loop
        invariant
            all == pointees(instrs@),
            flow_closure(all, ids@) == goal,
        ensures
            ids@ == goal,
        decreases missing(all, ids@, all.len() as int),
    {
        let ghost start = ids@;
        let mut changed = false;
        let mut i: usize = 0;
        while i < instrs.len()
            invariant
                all == pointees(instrs@),
                i <= instrs@.len(),
                ids@ == flow_pass(all, start, i as int),
                start.subset_of(ids@),
                changed ==> ids@ != start,
                !changed ==> ids@ == start,
            decreases instrs@.len() - i,
        {
            let id: u32 = instrs[i].lvalue.identifier.id.0;
            let ghost before = ids@;
            if does_receive(instrs, ids, instrs[i]) {
                let new = ids.insert(id);
                if new {
                    changed = true;
                    assert(ids@.contains(id) && !start.contains(id));
                } else {
                    assert(ids@ =~= before);
                }
            }
            i = i + 1;
        }
        proof {
            lemma_flow_pass(all, start, all.len() as int);
            lemma_missing_shrinks(all, start, ids@, all.len() as int);
        }
        if !changed {
            break;
        }
    }
}

/// Whatever receives a value of the closure is in it.
pub proof fn lemma_flow_closure_closed(instrs: Seq<Instruction>, ids: Set<u32>)
    ensures
        ids.subset_of(flow_closure(instrs, ids)),
        forall|i: int|
            0 <= i < instrs.len() && receives(
                instrs,
                flow_closure(instrs, ids),
                #[trigger] instrs[i],
            ) ==> flow_closure(instrs, ids).contains(result_id(instrs[i])),
    decreases missing(instrs, ids, instrs.len() as int),
{
    let next = flow_pass(instrs, ids, instrs.len() as int);
    lemma_flow_pass(instrs, ids, instrs.len() as int);
    if next == ids {
        assert forall|i: int| 0 <= i < instrs.len() && receives(
            instrs,
            ids,
            #[trigger] instrs[i],
        ) implies ids.contains(result_id(instrs[i])) by {
            lemma_flow_pass_stable(instrs, ids, i + 1, instrs.len() as int);
            lemma_flow_pass_stable(instrs, ids, i, instrs.len() as int);
        }
    } else {
        lemma_missing_shrinks(instrs, ids, next, instrs.len() as int);
        lemma_flow_closure_closed(instrs, next);
    }
}

proof fn lemma_flow_pass_stable(instrs: Seq<Instruction>, ids: Set<u32>, m: int, n: int)
    requires
        0 <= m <= n <= instrs.len(),
        flow_pass(instrs, ids, n) == ids,
    ensures
        flow_pass(instrs, ids, m) == ids,
    decreases n - m,
{
    if m < n {
        lemma_flow_pass(instrs, ids, n - 1);
        assert(flow_pass(instrs, ids, n - 1).subset_of(flow_pass(instrs, ids, n)));
        assert(flow_pass(instrs, ids, n - 1) =~= ids);
        lemma_flow_pass_stable(instrs, ids, m, n - 1);
    }
}

// ---------------------------------------------------------------------------
// Paths of properties
// ---------------------------------------------------------------------------

/// Whether an instruction loads the variable `name`; with `globals`, a global of that name counts.
pub open spec fn loads_name(instr: Instruction, name: Seq<char>, globals: bool) -> bool {
    match instr.value {
        InstructionValue::LoadLocal { place } => match place.identifier.name {
            Some(n) => n.text() == name,
            None => false,
        },
        InstructionValue::LoadGlobal { binding } => globals && match binding {
            NonLocalBinding::Global { name: n } => n@ == name,
            NonLocalBinding::ModuleLocal { name: n } => n@ == name,
            _ => false,
        },
        _ => false,
    }
}

/// The identifiers that the first `n` instructions load the variable into, with its name.
pub open spec fn root_paths(
    instrs: Seq<Instruction>,
    name: Seq<char>,
    globals: bool,
    n: int,
) -> Map<u32, Seq<char>>
    decreases n,
{
    if n <= 0 {
        Map::empty()
    } else {
        let front = root_paths(instrs, name, globals, n - 1);
        if loads_name(instrs[n - 1], name, globals) {
            front.insert(result_id(instrs[n - 1]), name)
        } else {
            front
        }
    }
}

pub open spec fn property_key(property: PropertyLiteral) -> Seq<char> {
    match property {
        PropertyLiteral::String(s) => s@,
        PropertyLiteral::Number(n) => n.display@,
    }
}

/// A path and one property more.
pub open spec fn extended_path(base: Seq<char>, optional: bool, property: PropertyLiteral) -> Seq<
    char,
> {
    base + (if optional {
        "?."@
    } else {
        "."@
    }) + property_key(property)
}

pub open spec fn path_step(m: Map<u32, Seq<char>>, instr: Instruction) -> Map<u32, Seq<char>> {
    match instr.value {
        InstructionValue::PropertyLoad { object, property, optional } => {
            let id = object.identifier.id.0;
            if !m.contains_key(result_id(instr)) && m.contains_key(id) {
                m.insert(result_id(instr), extended_path(m[id], optional, property))
            } else {
                m
            }
        },
        _ => m,
    }
}

pub open spec fn path_pass(m: Map<u32, Seq<char>>, instrs: Seq<Instruction>, n: int) -> Map<
    u32,
    Seq<char>,
>
    decreases n,
{
    if n <= 0 {
        m
    } else {
        path_step(path_pass(m, instrs, n - 1), instrs[n - 1])
    }
}

pub proof fn lemma_path_pass(m: Map<u32, Seq<char>>, instrs: Seq<Instruction>, n: int)
    requires
        0 <= n <= instrs.len(),
    ensures
        m.dom().subset_of(path_pass(m, instrs, n).dom()),
        path_pass(m, instrs, n) == m || exists|k: int|
            0 <= k < n && !m.dom().contains(result_id(#[trigger] instrs[k])) && path_pass(
                m,
                instrs,
                n,
            ).dom().contains(result_id(instrs[k])),
    decreases n,
{
    if n > 0 {
        lemma_path_pass(m, instrs, n - 1);
        let before = path_pass(m, instrs, n - 1);
        let after = path_pass(m, instrs, n);
        if after != before {
            assert(after.dom().contains(result_id(instrs[n - 1])));
            if m.dom().contains(result_id(instrs[n - 1])) {
                assert(before.dom().contains(result_id(instrs[n - 1])));
            }
        }
    }
}

/// The paths with which all loads of properties are known, from the roots in `m`.
pub open spec fn all_paths(m: Map<u32, Seq<char>>, instrs: Seq<Instruction>) -> Map<u32, Seq<char>>
    decreases missing(instrs, m.dom(), instrs.len() as int),
{
    let next = path_pass(m, instrs, instrs.len() as int);
    if next == m {
        m
    } else {
        proof {
            lemma_path_pass(m, instrs, instrs.len() as int);
            lemma_missing_shrinks(instrs, m.dom(), next.dom(), instrs.len() as int);
        }
        all_paths(next, instrs)
    }
}

pub fn does_load_name(instr: &Instruction, name: &str, globals: bool) -> (r: bool)
    ensures
        r == loads_name(*instr, name@, globals),
{
    match &instr.value {
        InstructionValue::LoadLocal { place } => match &place.identifier.name {
            Some(n) => same(n.value(), name),
            None => false,
        },
        InstructionValue::LoadGlobal { binding } => globals && match binding {
            NonLocalBinding::Global { name: n } => same(n, name),
            NonLocalBinding::ModuleLocal { name: n } => same(n, name),
            _ => false,
        },
        _ => false,
    }
}

pub fn find_root_paths(instrs: &Vec<&Instruction>, name: &str, globals: bool) -> (m: IdTexts)
    ensures
        m@ == root_paths(pointees(instrs@), name@, globals, instrs@.len() as int),
{
    let ghost all = pointees(instrs@);
    let mut m = IdTexts::new();
    let mut i: usize = 0;
    while i < instrs.len()
        invariant
            all == pointees(instrs@),
            i <= instrs@.len(),
            m@ == root_paths(all, name@, globals, i as int),
        decreases instrs@.len() - i,
    {
        if does_load_name(instrs[i], name, globals) {
            m.insert(instrs[i].lvalue.identifier.id.0, owned(name));
        }
        i = i + 1;
    }
    m
}

pub fn property_key_str(property: &PropertyLiteral) -> (r: &String)
    ensures
        r@ == property_key(*property),
{
    match property {
        PropertyLiteral::String(s) => s,
        PropertyLiteral::Number(n) => &n.display,
    }
}

/// Adds to the roots in `m` the paths of all properties that are loaded from them.
pub fn resolve_paths(instrs: &Vec<&Instruction>, m: &mut IdTexts)
    ensures
        final(m)@ == all_paths(old(m)@, pointees(instrs@)),
{
    let ghost all = pointees(instrs@);
    let ghost goal = all_paths(m@, all);
    loop
        invariant
            all == pointees(instrs@),
            all_paths(m@, all) == goal,
        ensures
            m@ == goal,
        decreases missing(all, m@.dom(), all.len() as int),
    {
        let ghost start = m@;
        let mut changed = false;
        let mut i: usize = 0;
        while i < instrs.len()
            invariant
                all == pointees(instrs@),
                i <= instrs@.len(),
                m@ == path_pass(start, all, i as int),
                start.dom().subset_of(m@.dom()),
                changed ==> m@ != start,
                !changed ==> m@ == start,
            decreases instrs@.len() - i,
        {
            if let InstructionValue::PropertyLoad { object, property, optional } = &instrs[i].value {
                let id: u32 = instrs[i].lvalue.identifier.id.0;
                if !m.contains(id) {
                    let path: Option<String> = match m.get(object.identifier.id.0) {
                        Some(base) => {
                            let sep = if *optional {
                                "?."
                            } else {
                                "."
                            };
                            Some(cat3(base, sep, property_key_str(property)))
                        },
                        None => None,
                    };
                    if let Some(p) = path {
                        m.insert(id, p);
                        changed = true;
                        assert(m@.dom().contains(id) && !start.dom().contains(id));
                    }
                }
            }
            i = i + 1;
        }
        proof {
            lemma_path_pass(start, all, all.len() as int);
            lemma_missing_shrinks(all, start.dom(), m@.dom(), all.len() as int);
        }
        if !changed {
            break;
        }
    }
}

// ---------------------------------------------------------------------------
// Primitive values
// ---------------------------------------------------------------------------

/// The position of the first instruction from `i` on that defines the identifier.
pub open spec fn definition(instrs: Seq<Instruction>, id: u32, i: int) -> Option<int>
    decreases instrs.len() - i,
{
    if i < 0 || i >= instrs.len() {
        None
    } else if result_id(instrs[i]) == id {
        Some(i)
    } else {
        definition(instrs, id, i + 1)
    }
}

/// The identifiers that the first `n` instructions store in a declaration.
pub open spec fn stored_ids(instrs: Seq<Instruction>, decl: DeclarationId, n: int) -> Seq<u32>
    decreases n,
{
    if n <= 0 {
        Seq::empty()
    } else {
        let front = stored_ids(instrs, decl, n - 1);
        match instrs[n - 1].value {
            InstructionValue::StoreLocal { lvalue, value, .. } => if lvalue.place.identifier.declaration_id
                == decl {
                front.push(value.identifier.id.0)
            } else {
                front
            },
            _ => front,
        }
    }
}

/// Whether an identifier is known to hold a primitive value, and which identifiers have been looked
/// at. One that was looked at before is taken for none. Definitions are followed up to `depth`.
pub open spec fn primitive_id(
    instrs: Seq<Instruction>,
    depth: nat,
    id: u32,
    visited: Set<u32>,
) -> (bool, Set<u32>)
    decreases depth, 1nat, 0nat,
{
    if visited.contains(id) || depth == 0 {
        (false, visited)
    } else {
        let v = visited.insert(id);
        match definition(instrs, id, 0) {
            None => (false, v),
            Some(i) => match instrs[i].value {
                InstructionValue::Primitive { .. } => (true, v),
                InstructionValue::BinaryExpression { .. } => (true, v),
                InstructionValue::UnaryExpression { .. } => (true, v),
                InstructionValue::PropertyDelete { .. } => (true, v),
                InstructionValue::ComputedDelete { .. } => (true, v),
                InstructionValue::TemplateLiteral { .. } => (true, v),
                InstructionValue::LoadLocal { place } => {
                    let ids = stored_ids(
                        instrs,
                        place.identifier.declaration_id,
                        instrs.len() as int,
                    );
                    if ids.len() == 0 {
                        (false, v)
                    } else {
                        primitive_ids(instrs, (depth - 1) as nat, ids, 0, v)
                    }
                },
                _ => (false, v),
            },
        }
    }
}

/// Whether all identifiers from position `i` on are known to hold primitive values.
pub open spec fn primitive_ids(
    instrs: Seq<Instruction>,
    depth: nat,
    ids: Seq<u32>,
    i: int,
    visited: Set<u32>,
) -> (bool, Set<u32>)
    decreases depth, 2nat, ids.len() - i,
{
    if i < 0 || i >= ids.len() {
        (true, visited)
    } else {
        let r = primitive_id(instrs, depth, ids[i], visited);
        if r.0 {
            primitive_ids(instrs, depth, ids, i + 1, r.1)
        } else {
            r
        }
    }
}

pub fn find_definition(instrs: &Vec<&Instruction>, id: u32) -> (r: Option<usize>)
    ensures
        match r {
            Some(i) => definition(pointees(instrs@), id, 0) == Some(i as int) && i < instrs@.len(),
            None => definition(pointees(instrs@), id, 0) is None,
        },
{
    let ghost all = pointees(instrs@);
    let mut i: usize = 0;
    while i < instrs.len()
        invariant
            all == pointees(instrs@),
            i <= instrs@.len(),
            definition(all, id, i as int) == definition(all, id, 0),
        decreases instrs@.len() - i,
    {
        if instrs[i].lvalue.identifier.id.0 == id {
            return Some(i);
        }
        i = i + 1;
    }
    None
}

fn find_stored_ids(instrs: &Vec<&Instruction>, decl: DeclarationId) -> (ids: Vec<u32>)
    ensures
        ids@ == stored_ids(pointees(instrs@), decl, instrs@.len() as int),
{
    let ghost all = pointees(instrs@);
    let mut ids: Vec<u32> = Vec::new();
    let mut i: usize = 0;
    while i < instrs.len()
        invariant
            all == pointees(instrs@),
            i <= instrs@.len(),
            ids@ == stored_ids(all, decl, i as int),
        decreases instrs@.len() - i,
    {
        if let InstructionValue::StoreLocal { lvalue, value, .. } = &instrs[i].value {
            if lvalue.place.identifier.declaration_id == decl {
                ids.push(value.identifier.id.0);
            }
        }
        i = i + 1;
    }
    ids
}

/// Whether an identifier is known to hold a primitive value.
pub fn id_produces_primitive(
    instrs: &Vec<&Instruction>,
    depth: usize,
    id: u32,
    visited: &mut IdSet,
) -> (r: bool)
    ensures
        (r, final(visited)@) == primitive_id(pointees(instrs@), depth as nat, id, old(visited)@),
    decreases depth,
{
    let ghost all = pointees(instrs@);
    if visited.contains(id) || depth == 0 {
        return false;
    }
    visited.insert(id);
    let i: usize = match find_definition(instrs, id) {
        Some(i) => i,
        None => {
            return false;
        },
    };
    assert(all[i as int] == *instrs@[i as int]);
    match &instrs[i].value {
        InstructionValue::Primitive { .. } => true,
        InstructionValue::BinaryExpression { .. } => true,
        InstructionValue::UnaryExpression { .. } => true,
        InstructionValue::PropertyDelete { .. } => true,
        InstructionValue::ComputedDelete { .. } => true,
        InstructionValue::TemplateLiteral { .. } => true,
        InstructionValue::LoadLocal { place } => {
            let ids = find_stored_ids(instrs, place.identifier.declaration_id);
            if ids.len() == 0 {
                return false;
            }
            let ghost goal = primitive_ids(all, (depth - 1) as nat, ids@, 0, visited@);
            let mut k: usize = 0;
            while k < ids.len()
                invariant
                    all == pointees(instrs@),
                    0 < depth,
                    k <= ids@.len(),
                    goal == primitive_id(all, depth as nat, id, old(visited)@),
                    primitive_ids(all, (depth - 1) as nat, ids@, k as int, visited@) == goal,
                decreases ids@.len() - k,
            {
                if !id_produces_primitive(instrs, depth - 1, ids[k], visited) {
                    return false;
                }
                k = k + 1;
            }
            true
        },
        _ => false,
    }
}

} // verus!

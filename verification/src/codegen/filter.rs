//! The instructions that only serve what stands outside of the memoized block.

use vstd::prelude::*;

use crate::collections::IdSet;
use crate::graph::{operands, operands_of, pointees, refs_are};
use crate::hir::Instruction;

verus! {

/// Whether an instruction uses an identifier.
pub open spec fn uses(instr: Instruction, id: u32) -> bool {
    exists|k: int|
        0 <= k < operands(instr.value).len() && (#[trigger] operands(
            instr.value,
        )[k]).identifier.id.0 == id
}

/// Whether an identifier is used, and only by instructions of `outside`.
pub open spec fn used_only_by(instrs: Seq<Instruction>, outside: Set<u32>, id: u32) -> bool {
    (exists|j: int| 0 <= j < instrs.len() && uses(#[trigger] instrs[j], id)) && (forall|j: int|
        0 <= j < instrs.len() && uses(#[trigger] instrs[j], id) ==> outside.contains(
            instrs[j].id.0,
        ))
}

pub open spec fn outside_step(instrs: Seq<Instruction>, outside: Set<u32>, instr: Instruction) -> Set<
    u32,
> {
    if used_only_by(instrs, outside, instr.lvalue.identifier.id.0) {
        outside.insert(instr.id.0)
    } else {
        outside
    }
}

pub open spec fn outside_pass(instrs: Seq<Instruction>, outside: Set<u32>, n: int) -> Set<u32>
    decreases n,
{
    if n <= 0 {
        outside
    } else {
        outside_step(instrs, outside_pass(instrs, outside, n - 1), instrs[n - 1])
    }
}

/// How many of the first `n` instructions are not in `ids`.
pub open spec fn not_in(instrs: Seq<Instruction>, ids: Set<u32>, n: int) -> nat
    decreases n,
{
    if n <= 0 {
        0
    } else {
        not_in(instrs, ids, n - 1) + if ids.contains(instrs[n - 1].id.0) {
            0nat
        } else {
            1nat
        }
    }
}

pub proof fn lemma_not_in_shrinks(instrs: Seq<Instruction>, a: Set<u32>, b: Set<u32>, n: int)
    requires
        0 <= n <= instrs.len(),
        a.subset_of(b),
    ensures
        not_in(instrs, b, n) <= not_in(instrs, a, n),
        (exists|k: int|
            0 <= k < n && !a.contains((#[trigger] instrs[k]).id.0) && b.contains(instrs[k].id.0))
            ==> not_in(instrs, b, n) < not_in(instrs, a, n),
    decreases n,
{
    if n > 0 {
        lemma_not_in_shrinks(instrs, a, b, n - 1);
    }
}

pub proof fn lemma_outside_pass(instrs: Seq<Instruction>, outside: Set<u32>, n: int)
    requires
        0 <= n <= instrs.len(),
    ensures
        outside.subset_of(outside_pass(instrs, outside, n)),
        outside_pass(instrs, outside, n) == outside || exists|k: int|
            0 <= k < n && !outside.contains((#[trigger] instrs[k]).id.0) && outside_pass(
                instrs,
                outside,
                n,
            ).contains(instrs[k].id.0),
    decreases n,
{
    if n > 0 {
        lemma_outside_pass(instrs, outside, n - 1);
        let before = outside_pass(instrs, outside, n - 1);
        let after = outside_pass(instrs, outside, n);
        let id = instrs[n - 1].id.0;
        if after != before {
            if outside.contains(id) {
                assert(before.contains(id));
                assert(before.insert(id) =~= before);
            } else {
                assert(!outside.contains(instrs[n - 1].id.0) && after.contains(instrs[n - 1].id.0));
            }
        }
    }
}

/// `outside` and all instructions whose results only serve instructions of it.
pub open spec fn outside_closure(instrs: Seq<Instruction>, outside: Set<u32>) -> Set<u32>
    decreases not_in(instrs, outside, instrs.len() as int),
{
    let next = outside_pass(instrs, outside, instrs.len() as int);
    if next == outside {
        outside
    } else {
        proof {
            lemma_outside_pass(instrs, outside, instrs.len() as int);
            lemma_not_in_shrinks(instrs, outside, next, instrs.len() as int);
        }
        outside_closure(instrs, next)
    }
}

/// Those of the first `n` instructions that are not in `ids`.
pub open spec fn remaining(instrs: Seq<Instruction>, ids: Set<u32>, n: int) -> Set<u32>
    decreases n,
{
    if n <= 0 {
        Set::empty()
    } else {
        let front = remaining(instrs, ids, n - 1);
        if ids.contains(instrs[n - 1].id.0) {
            front
        } else {
            front.insert(instrs[n - 1].id.0)
        }
    }
}

/// The instructions that count for the memoized block, where some do not and some do.
pub open spec fn memo_filter(instrs: Seq<Instruction>, outside: Set<u32>) -> Option<Set<u32>> {
    let rest = remaining(instrs, outside_closure(instrs, outside), instrs.len() as int);
    if outside == Set::<u32>::empty() || rest == Set::<u32>::empty() {
        None
    } else {
        Some(rest)
    }
}

fn does_use(instr: &Instruction, id: u32) -> (r: bool)
    ensures
        r == uses(*instr, id),
{
    let places = operands_of(&instr.value);
    let ghost all = operands(instr.value);
    let mut i: usize = 0;
    while i < places.len()
        invariant
            all == operands(instr.value),
            refs_are(places@, all),
            i <= places@.len(),
            forall|k: int| 0 <= k < i ==> (#[trigger] all[k]).identifier.id.0 != id,
        decreases places@.len() - i,
    {
        if places[i].identifier.id.0 == id {
            assert(all[i as int].identifier.id.0 == id);
            return true;
        }
        i = i + 1;
    }
    false
}

fn is_used_only_by(instrs: &Vec<&Instruction>, outside: &IdSet, id: u32) -> (r: bool)
    ensures
        r == used_only_by(pointees(instrs@), outside@, id),
{
    let ghost all = pointees(instrs@);
    let mut any = false;
    let mut i: usize = 0;
    while i < instrs.len()
        invariant
            all == pointees(instrs@),
            i <= instrs@.len(),
            any ==> exists|j: int| 0 <= j < i && uses(#[trigger] all[j], id),
            !any ==> forall|j: int| 0 <= j < i ==> !uses(#[trigger] all[j], id),
            forall|j: int|
                0 <= j < i && uses(#[trigger] all[j], id) ==> outside@.contains(all[j].id.0),
        decreases instrs@.len() - i,
    {
        if does_use(instrs[i], id) {
            assert(uses(all[i as int], id));
            any = true;
            if !outside.contains(instrs[i].id.0) {
                return false;
            }
        }
        i = i + 1;
    }
    any
}

fn close_outside(instrs: &Vec<&Instruction>, outside: &mut IdSet)
    ensures
        final(outside)@ == outside_closure(pointees(instrs@), old(outside)@),
{
    let ghost all = pointees(instrs@);
    let ghost goal = outside_closure(all, outside@);
    loop
        invariant
            all == pointees(instrs@),
            outside_closure(all, outside@) == goal,
        ensures
            outside@ == goal,
        decreases not_in(all, outside@, all.len() as int),
    {
        let ghost start = outside@;
        let mut changed = false;
        let mut i: usize = 0;
        while i < instrs.len()
            invariant
                all == pointees(instrs@),
                i <= instrs@.len(),
                outside@ == outside_pass(all, start, i as int),
                start.subset_of(outside@),
                changed ==> outside@ != start,
                !changed ==> outside@ == start,
            decreases instrs@.len() - i,
        {
            let id: u32 = instrs[i].id.0;
            let ghost before = outside@;
            if is_used_only_by(instrs, outside, instrs[i].lvalue.identifier.id.0) {
                let new = outside.insert(id);
                if new {
                    changed = true;
                    assert(outside@.contains(id) && !start.contains(id));
                } else {
                    assert(outside@ =~= before);
                }
            }
            i = i + 1;
        }
        proof {
            lemma_outside_pass(all, start, all.len() as int);
            lemma_not_in_shrinks(all, start, outside@, all.len() as int);
        }
        if !changed {
            break;
        }
    }
}

/// The instructions that count for the memoized block, where some do not and some do.
pub fn find_memo_filter(instrs: &Vec<&Instruction>, outside: IdSet) -> (r: Option<IdSet>)
    ensures
        match r {
            Some(f) => memo_filter(pointees(instrs@), outside@) == Some(f@),
            None => memo_filter(pointees(instrs@), outside@) is None,
        },
{
    if outside.is_empty() {
        return None;
    }
    let ghost all = pointees(instrs@);
    let mut closed = outside;
    close_outside(instrs, &mut closed);
    let mut rest = IdSet::new();
    let mut i: usize = 0;
    while i < instrs.len()
        invariant
            all == pointees(instrs@),
            i <= instrs@.len(),
            rest@ == remaining(all, closed@, i as int),
        decreases instrs@.len() - i,
    {
        if !closed.contains(instrs[i].id.0) {
            rest.insert(instrs[i].id.0);
        }
        i = i + 1;
    }
    if rest.is_empty() {
        None
    } else {
        Some(rest)
    }
}

} // verus!

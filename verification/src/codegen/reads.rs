//! Which identifiers the instructions of a function read, and from which a value can flow.

use vstd::prelude::*;

use crate::collections::IdSet;
use crate::graph::{operands, operands_of, pointees, refs_are};
use crate::hir::{
    BasicBlock, BlockId, HIRFunction, IdentifierId, Instruction, InstructionValue,
    ObjectPropertyKey, ObjectPropertyOrSpread, Pattern, Phi, Place, SwitchCase, Terminal,
};

verus! {

/// The places of the first `n` properties: the value, then a computed key.
pub open spec fn flow_properties(properties: Seq<ObjectPropertyOrSpread>, n: int) -> Seq<Place>
    decreases n,
{
    if n <= 0 {
        Seq::empty()
    } else {
        let front = flow_properties(properties, n - 1);
        match properties[n - 1] {
            ObjectPropertyOrSpread::Property(p) => match p.key {
                ObjectPropertyKey::Computed(key) => front.push(p.place).push(key),
                _ => front.push(p.place),
            },
            ObjectPropertyOrSpread::Spread(p) => front.push(p),
        }
    }
}

/// The places from which what an instruction computes can hold a value. Operators and deletions make
/// primitives, and the test of a conditional does not reach its result.
pub open spec fn flow_places(value: InstructionValue) -> Seq<Place> {
    match value {
        InstructionValue::StoreContext { value, .. } => seq![value],
        InstructionValue::BinaryExpression { .. } => Seq::empty(),
        InstructionValue::UnaryExpression { .. } => Seq::empty(),
        InstructionValue::ObjectExpression { properties } => flow_properties(
            properties@,
            properties@.len() as int,
        ),
        InstructionValue::PropertyDelete { .. } => Seq::empty(),
        InstructionValue::ComputedDelete { .. } => Seq::empty(),
        InstructionValue::PrefixUpdate { lvalue, value, .. } => seq![lvalue, value],
        InstructionValue::PostfixUpdate { lvalue, value, .. } => seq![lvalue, value],
        InstructionValue::Ternary { consequent, alternate, .. } => seq![consequent, alternate],
        InstructionValue::FunctionExpression { .. } => Seq::empty(),
        InstructionValue::ObjectMethod { .. } => Seq::empty(),
        _ => operands(value),
    }
}

/// The identifiers of `places`.
pub open spec fn place_ids(places: Seq<Place>) -> Seq<IdentifierId> {
    places.map_values(|p: Place| p.identifier.id)
}

fn ids_of(places: &Vec<&Place>) -> (r: Vec<IdentifierId>)
    ensures
        forall|s: Seq<Place>| #[trigger] refs_are(places@, s) ==> r@ == place_ids(s),
{
    let mut out: Vec<IdentifierId> = Vec::new();
    let mut i: usize = 0;
    while i < places.len()
        invariant
            i <= places@.len(),
            out@.len() == i,
            forall|k: int| 0 <= k < i ==> #[trigger] out@[k] == places@[k].identifier.id,
        decreases places@.len() - i,
    {
        out.push(places[i].identifier.id);
        i = i + 1;
    }
    proof {
        assert forall|s: Seq<Place>| #[trigger] refs_are(places@, s) implies out@ == place_ids(
            s,
        ) by {
            assert(out@ =~= place_ids(s));
        }
    }
    out
}

/// The identifiers from which what an instruction computes can hold a value.
pub fn instruction_input_place_ids(value: &InstructionValue) -> (r: Vec<IdentifierId>)
    ensures
        r@ == place_ids(flow_places(*value)),
{
    let mut places: Vec<&Place> = Vec::new();
    match value {
        InstructionValue::StoreContext { value, .. } => {
            places.push(value);
        },
        InstructionValue::BinaryExpression { .. } => {},
        InstructionValue::UnaryExpression { .. } => {},
        InstructionValue::ObjectExpression { properties } => {
            let mut i: usize = 0;
            while i < properties.len()
                invariant
                    i <= properties@.len(),
                    refs_are(places@, flow_properties(properties@, i as int)),
                decreases properties@.len() - i,
            {
                match &properties[i] {
                    ObjectPropertyOrSpread::Property(p) => {
                        places.push(&p.place);
                        if let ObjectPropertyKey::Computed(key) = &p.key {
                            places.push(key);
                        }
                    },
                    ObjectPropertyOrSpread::Spread(p) => {
                        places.push(p);
                    },
                }
                i = i + 1;
            }
        },
        InstructionValue::PropertyDelete { .. } => {},
        InstructionValue::ComputedDelete { .. } => {},
        InstructionValue::PrefixUpdate { lvalue, value, .. } => {
            places.push(lvalue);
            places.push(value);
        },
        InstructionValue::PostfixUpdate { lvalue, value, .. } => {
            places.push(lvalue);
            places.push(value);
        },
        InstructionValue::Ternary { consequent, alternate, .. } => {
            places.push(consequent);
            places.push(alternate);
        },
        InstructionValue::FunctionExpression { .. } => {},
        InstructionValue::ObjectMethod { .. } => {},
        _ => {
            places = operands_of(value);
        },
    }
    assert(refs_are(places@, flow_places(*value)));
    ids_of(&places)
}

/// The values of the first `n` properties.
pub open spec fn property_values(properties: Seq<ObjectPropertyOrSpread>) -> Seq<Place> {
    properties.map_values(
        |p: ObjectPropertyOrSpread|
            match p {
                ObjectPropertyOrSpread::Property(p) => p.place,
                ObjectPropertyOrSpread::Spread(p) => p,
            },
    )
}

/// The places of the computed keys of the first `n` properties.
pub open spec fn key_places(properties: Seq<ObjectPropertyOrSpread>, n: int) -> Seq<Place>
    decreases n,
{
    if n <= 0 {
        Seq::empty()
    } else {
        let front = key_places(properties, n - 1);
        match properties[n - 1] {
            ObjectPropertyOrSpread::Property(p) => match p.key {
                ObjectPropertyKey::Computed(key) => front.push(key),
                _ => front,
            },
            ObjectPropertyOrSpread::Spread(_) => front,
        }
    }
}

/// The places that a pattern reads: its computed keys.
pub open spec fn pattern_reads(pattern: Pattern) -> Seq<Place> {
    match pattern {
        Pattern::Array(_) => Seq::empty(),
        Pattern::Object(o) => key_places(o.properties@, o.properties@.len() as int),
    }
}

/// The places whose values an instruction uses. Captured places count as no use.
pub open spec fn read_places(value: InstructionValue) -> Seq<Place> {
    match value {
        InstructionValue::StoreContext { value, .. } => seq![value],
        InstructionValue::Destructure { lvalue, value, .. } => seq![value] + pattern_reads(
            lvalue.pattern,
        ),
        InstructionValue::PrefixUpdate { lvalue, value, .. } => seq![lvalue, value],
        InstructionValue::PostfixUpdate { lvalue, value, .. } => seq![lvalue, value],
        InstructionValue::FunctionExpression { .. } => Seq::empty(),
        InstructionValue::ObjectMethod { .. } => Seq::empty(),
        _ => operands(value),
    }
}

fn push_keys<'a>(out: &mut Vec<&'a Place>, properties: &'a Vec<ObjectPropertyOrSpread>)
    ensures
        forall|s: Seq<Place>| #[trigger]
            refs_are(old(out)@, s) ==> refs_are(
                final(out)@,
                s + key_places(properties@, properties@.len() as int),
            ),
{
    let ghost start = pointees(out@);
    let mut i: usize = 0;
    proof {
        assert(start + Seq::<Place>::empty() =~= start);
    }
    while i < properties.len()
        invariant
            i <= properties@.len(),
            refs_are(out@, start + key_places(properties@, i as int)),
        decreases properties@.len() - i,
    {
        if let ObjectPropertyOrSpread::Property(p) = &properties[i] {
            if let ObjectPropertyKey::Computed(key) = &p.key {
                out.push(key);
            }
        }
        i = i + 1;
    }
    proof {
        assert forall|s: Seq<Place>| #[trigger] refs_are(old(out)@, s) implies refs_are(
            out@,
            s + key_places(properties@, properties@.len() as int),
        ) by {
            assert(s =~= start);
        }
    }
}

/// Adds the places that a pattern reads.
pub fn push_pattern_reads<'a>(out: &mut Vec<&'a Place>, pattern: &'a Pattern)
    ensures
        forall|s: Seq<Place>| #[trigger]
            refs_are(old(out)@, s) ==> refs_are(final(out)@, s + pattern_reads(*pattern)),
{
    match pattern {
        Pattern::Array(_) => {
            proof {
                assert forall|s: Seq<Place>| #[trigger] refs_are(old(out)@, s) implies refs_are(
                    out@,
                    s + pattern_reads(*pattern),
                ) by {
                    assert(s + Seq::<Place>::empty() =~= s);
                }
            }
        },
        Pattern::Object(o) => {
            push_keys(out, &o.properties);
        },
    }
}

fn read_places_of(value: &InstructionValue) -> (places: Vec<&Place>)
    ensures
        refs_are(places@, read_places(*value)),
{
    let mut places: Vec<&Place> = Vec::new();
    match value {
        InstructionValue::StoreContext { value, .. } => {
            places.push(value);
        },
        InstructionValue::Destructure { lvalue, value, .. } => {
            places.push(value);
            assert(refs_are(places@, seq![*value]));
            push_pattern_reads(&mut places, &lvalue.pattern);
        },
        InstructionValue::PrefixUpdate { lvalue, value, .. } => {
            places.push(lvalue);
            places.push(value);
        },
        InstructionValue::PostfixUpdate { lvalue, value, .. } => {
            places.push(lvalue);
            places.push(value);
        },
        InstructionValue::FunctionExpression { .. } => {},
        InstructionValue::ObjectMethod { .. } => {},
        _ => {
            places = operands_of(value);
        },
    }
    places
}

/// The places that the first `n` cases compare with.
pub open spec fn case_tests(cases: Seq<SwitchCase>, n: int) -> Seq<Place>
    decreases n,
{
    if n <= 0 {
        Seq::empty()
    } else {
        let front = case_tests(cases, n - 1);
        match cases[n - 1].test {
            Some(p) => front.push(p),
            None => front,
        }
    }
}

/// The places that a terminal reads.
pub open spec fn terminal_reads(terminal: Terminal) -> Seq<Place> {
    match terminal {
        Terminal::Return { value, .. } => seq![value],
        Terminal::Throw { value } => seq![value],
        Terminal::If { test, .. } => seq![test],
        Terminal::Branch { test, .. } => seq![test],
        Terminal::Switch { test, cases, .. } => seq![test] + case_tests(cases@, cases@.len() as int),
        _ => Seq::empty(),
    }
}

/// The places that a terminal reads.
pub fn terminal_reads_of(terminal: &Terminal) -> (tests: Vec<&Place>)
    ensures
        refs_are(tests@, terminal_reads(*terminal)),
{
    let mut tests: Vec<&Place> = Vec::new();
    match terminal {
        Terminal::Return { value, .. } => {
            tests.push(value);
        },
        Terminal::Throw { value } => {
            tests.push(value);
        },
        Terminal::If { test, .. } => {
            tests.push(test);
        },
        Terminal::Branch { test, .. } => {
            tests.push(test);
        },
        Terminal::Switch { test, cases, .. } => {
            tests.push(test);
            let mut i: usize = 0;
            while i < cases.len()
                invariant
                    i <= cases@.len(),
                    refs_are(tests@, seq![*test] + case_tests(cases@, i as int)),
                decreases cases@.len() - i,
            {
                if let Some(p) = &cases[i].test {
                    tests.push(p);
                }
                i = i + 1;
            }
        },
        _ => {},
    }
    tests
}

/// Adds the identifiers of the places to a set of numbers.
pub open spec fn with_places(ids: Set<u32>, places: Seq<Place>) -> Set<u32> {
    ids.union(place_numbers(places))
}

/// The numbers of the identifiers of `places`.
pub open spec fn place_numbers(places: Seq<Place>) -> Set<u32> {
    Set::new(|id: u32| exists|i: int| 0 <= i < places.len() && (#[trigger] places[i]).identifier.id.0 == id)
}

fn insert_places(ids: &mut IdSet, places: &Vec<&Place>)
    ensures
        forall|s: Seq<Place>| #[trigger]
            refs_are(places@, s) ==> final(ids)@ == with_places(old(ids)@, s),
{
    let ghost start = ids@;
    let mut i: usize = 0;
    while i < places.len()
        invariant
            i <= places@.len(),
            forall|id: u32| #[trigger]
                ids@.contains(id) <==> start.contains(id) || exists|k: int|
                    0 <= k < i && (#[trigger] places@[k]).identifier.id.0 == id,
        decreases places@.len() - i,
    {
        let ghost before = ids@;
        ids.insert(places[i].identifier.id.0);
        proof {
            assert forall|id: u32| #[trigger] ids@.contains(id) <==> start.contains(id) || exists|
                k: int,
            |
                0 <= k < i + 1 && (#[trigger] places@[k]).identifier.id.0 == id by {
                if before.contains(id) && !start.contains(id) {
                    let k = choose|k: int|
                        0 <= k < i && (#[trigger] places@[k]).identifier.id.0 == id;
                    assert(places@[k].identifier.id.0 == id);
                }
                if id == places@[i as int].identifier.id.0 {
                    assert(places@[i as int].identifier.id.0 == id);
                }
                if exists|k: int| 0 <= k < i + 1 && (#[trigger] places@[k]).identifier.id.0 == id {
                    let k = choose|k: int|
                        0 <= k < i + 1 && (#[trigger] places@[k]).identifier.id.0 == id;
                    if k < i {
                        assert(before.contains(id));
                    }
                }
            }
        }
        i = i + 1;
    }
    proof {
        assert forall|s: Seq<Place>| #[trigger] refs_are(places@, s) implies ids@ == with_places(
            start,
            s,
        ) by {
            assert forall|id: u32| ids@.contains(id) <==> with_places(start, s).contains(id) by {
                if ids@.contains(id) && !start.contains(id) {
                    let k = choose|k: int|
                        0 <= k < places@.len() && (#[trigger] places@[k]).identifier.id.0 == id;
                    assert(s[k].identifier.id.0 == id);
                }
                if place_numbers(s).contains(id) {
                    let k = choose|k: int| 0 <= k < s.len() && (#[trigger] s[k]).identifier.id.0 == id;
                    assert((*places@[k]).identifier.id.0 == id);
                }
            }
            assert(ids@ =~= with_places(start, s));
        }
    }
}

/// The identifiers read by the first `n` instructions.
pub open spec fn instruction_reads(instrs: Seq<Instruction>, n: int) -> Set<u32>
    decreases n,
{
    if n <= 0 {
        Set::empty()
    } else {
        with_places(instruction_reads(instrs, n - 1), read_places(instrs[n - 1].value))
    }
}

pub open spec fn operand_places(operands: Seq<(BlockId, Place)>) -> Seq<Place> {
    operands.map_values(|o: (BlockId, Place)| o.1)
}

/// The identifiers that flow into the first `n` phis.
pub open spec fn phi_reads(phis: Seq<Phi>, n: int) -> Set<u32>
    decreases n,
{
    if n <= 0 {
        Set::empty()
    } else {
        with_places(phi_reads(phis, n - 1), operand_places(phis[n - 1].operands@))
    }
}

/// The identifiers that a block reads: in its instructions, in its terminal and in its phis.
pub open spec fn block_reads(block: BasicBlock) -> Set<u32> {
    instruction_reads(block.instructions@, block.instructions@.len() as int).union(
        place_numbers(terminal_reads(block.terminal)),
    ).union(phi_reads(block.phis@, block.phis@.len() as int))
}

/// The identifiers that are read in one of the first `n` blocks.
pub open spec fn reads_upto(blocks: Seq<(BlockId, BasicBlock)>, n: int) -> Set<u32>
    decreases n,
{
    if n <= 0 {
        Set::empty()
    } else {
        reads_upto(blocks, n - 1).union(block_reads(blocks[n - 1].1))
    }
}

/// The identifiers that some instruction, terminal or phi of the function reads.
pub open spec fn consumed_ids(func: HIRFunction) -> Set<u32> {
    reads_upto(func.body.blocks@, func.body.blocks@.len() as int)
}

/// Builds the set of identifiers that some instruction, terminal or phi reads. An identifier outside
/// of the set has a result that nothing uses.
pub fn build_consumed_ids(func: &HIRFunction) -> (ids: IdSet)
    ensures
        ids@ == consumed_ids(*func),
{
    let mut ids = IdSet::new();
    let mut b: usize = 0;
    while b < func.body.blocks.len()
        invariant
            b <= func.body.blocks@.len(),
            ids@ == reads_upto(func.body.blocks@, b as int),
        decreases func.body.blocks@.len() - b,
    {
        let block = &func.body.blocks[b].1;
        let ghost start = ids@;
        let mut j: usize = 0;
        proof {
            assert(start.union(Set::empty()) =~= start);
        }
        while j < block.instructions.len()
            invariant
                j <= block.instructions@.len(),
                ids@ == start.union(instruction_reads(block.instructions@, j as int)),
            decreases block.instructions@.len() - j,
        {
            let places = read_places_of(&block.instructions[j].value);
            insert_places(&mut ids, &places);
            proof {
                assert(ids@ =~= start.union(instruction_reads(block.instructions@, j as int + 1)));
            }
            j = j + 1;
        }
        let ghost instr_reads = instruction_reads(
            block.instructions@,
            block.instructions@.len() as int,
        );
        let tests = terminal_reads_of(&block.terminal);
        insert_places(&mut ids, &tests);
        let ghost mid = ids@;
        let mut p: usize = 0;
        proof {
            assert(mid.union(Set::empty()) =~= mid);
        }
        while p < block.phis.len()
            invariant
                p <= block.phis@.len(),
                ids@ == mid.union(phi_reads(block.phis@, p as int)),
            decreases block.phis@.len() - p,
        {
            let phi = &block.phis[p];
            let mut ops: Vec<&Place> = Vec::new();
            let mut o: usize = 0;
            while o < phi.operands.len()
                invariant
                    o <= phi.operands@.len(),
                    ops@.len() == o,
                    forall|k: int| 0 <= k < o ==> *(#[trigger] ops@[k]) == phi.operands@[k].1,
                decreases phi.operands@.len() - o,
            {
                ops.push(&phi.operands[o].1);
                o = o + 1;
            }
            assert(refs_are(ops@, operand_places(phi.operands@)));
            insert_places(&mut ids, &ops);
            proof {
                assert(ids@ =~= mid.union(phi_reads(block.phis@, p as int + 1)));
            }
            p = p + 1;
        }
        proof {
            assert(ids@ =~= start.union(block_reads(*block)));
        }
        b = b + 1;
    }
    ids
}

/// An identifier counts as consumed exactly where some instruction, terminal or phi of the function
/// reads it.
pub proof fn lemma_consumed_iff_read(func: HIRFunction, id: u32)
    ensures
        consumed_ids(func).contains(id) <==> exists|b: int|
            0 <= b < func.body.blocks@.len() && block_reads(
                (#[trigger] func.body.blocks@[b]).1,
            ).contains(id),
{
    lemma_reads_upto(func.body.blocks@, func.body.blocks@.len() as int, id);
}

proof fn lemma_reads_upto(blocks: Seq<(BlockId, BasicBlock)>, n: int, id: u32)
    requires
        0 <= n <= blocks.len(),
    ensures
        reads_upto(blocks, n).contains(id) <==> exists|b: int|
            0 <= b < n && block_reads((#[trigger] blocks[b]).1).contains(id),
    decreases n,
{
    if n > 0 {
        lemma_reads_upto(blocks, n - 1, id);
        if block_reads(blocks[n - 1].1).contains(id) {
            assert(0 <= n - 1 < n && block_reads(blocks[n - 1].1).contains(id));
        }
    }
}

} // verus!

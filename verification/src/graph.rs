//! Walks over the control flow graph: the instructions of a function in order, the places that an
//! instruction reads, and the blocks that a loop owns.

use vstd::prelude::*;

use crate::collections::IdSet;
use crate::hir::{
    Argument, ArrayElement, BasicBlock, BlockId, HIRFunction, Instruction, InstructionValue,
    JsxAttribute, JsxTag, ObjectPropertyKey, ObjectPropertyOrSpread, Place, SwitchCase, Terminal,
};

verus! {

// ---------------------------------------------------------------------------
// Instructions in order
// ---------------------------------------------------------------------------

/// The instructions of the first `n` blocks, in order.
pub open spec fn instructions_upto(blocks: Seq<(BlockId, BasicBlock)>, n: int) -> Seq<Instruction>
    decreases n,
{
    if n <= 0 {
        Seq::empty()
    } else {
        instructions_upto(blocks, n - 1) + blocks[n - 1].1.instructions@
    }
}

/// All instructions of `func`, block by block.
pub open spec fn instructions(func: HIRFunction) -> Seq<Instruction> {
    instructions_upto(func.body.blocks@, func.body.blocks@.len() as int)
}

/// Whether the references `v` point at the values `s`, one by one.
pub open spec fn refs_are<T>(v: Seq<&T>, s: Seq<T>) -> bool {
    v.len() == s.len() && forall|i: int| 0 <= i < s.len() ==> *(#[trigger] v[i]) == s[i]
}

/// The values that the references `v` point at.
pub open spec fn pointees<T>(v: Seq<&T>) -> Seq<T> {
    Seq::new(v.len(), |i: int| *v[i])
}

/// All instructions of `func`, block by block.
pub fn instructions_of(func: &HIRFunction) -> (r: Vec<&Instruction>)
    ensures
        refs_are(r@, instructions(*func)),
        pointees(r@) == instructions(*func),
{
    let mut out: Vec<&Instruction> = Vec::new();
    let ghost blocks = func.body.blocks@;
    let mut b: usize = 0;
    while b < func.body.blocks.len()
        invariant
            b <= blocks.len(),
            blocks == func.body.blocks@,
            refs_are(out@, instructions_upto(blocks, b as int)),
        decreases blocks.len() - b,
    {
        let block = &func.body.blocks[b].1;
        let ghost before = out@;
        let mut j: usize = 0;
        while j < block.instructions.len()
            invariant
                b < blocks.len(),
                *block == blocks[b as int].1,
                j <= block.instructions@.len(),
                refs_are(before, instructions_upto(blocks, b as int)),
                out@.len() == before.len() + j,
                forall|k: int| 0 <= k < before.len() ==> out@[k] == before[k],
                forall|k: int|
                    before.len() <= k < out@.len() ==> *(#[trigger] out@[k])
                        == block.instructions@[k - before.len()],
            decreases block.instructions@.len() - j,
        {
            out.push(&block.instructions[j]);
            j = j + 1;
        }
        proof {
            let next = instructions_upto(blocks, b + 1);
            assert forall|k: int| 0 <= k < next.len() implies *(#[trigger] out@[k]) == next[k] by {
                if k < before.len() {
                    assert(*before[k] == instructions_upto(blocks, b as int)[k]);
                }
            }
        }
        b = b + 1;
    }
    proof {
        assert(pointees(out@) =~= instructions(*func));
    }
    out
}

/// A nested instruction is smaller than the function that holds it.
pub proof fn lemma_block_instruction_smaller(func: HIRFunction, b: int, j: int)
    requires
        0 <= b < func.body.blocks@.len(),
        0 <= j < func.body.blocks@[b].1.instructions@.len(),
    ensures
        decreases_to!(func => func.body.blocks@[b].1.instructions@[j]),
{
    let blocks = func.body.blocks;
    let pair = blocks@[b];
    let block = pair.1;
    assert(decreases_to!(func => func.body));
    assert(decreases_to!(func.body => func.body.blocks));
    assert(decreases_to!(blocks => blocks@));
    assert(decreases_to!(blocks@ => blocks@[b]));
    assert(decreases_to!(pair => pair.1));
    assert(decreases_to!(block => block.instructions));
    assert(decreases_to!(block.instructions => block.instructions@));
    assert(decreases_to!(block.instructions@ => block.instructions@[j]));
}

/// Every instruction of a function stands in one of its blocks.
pub proof fn lemma_instruction_in_block(blocks: Seq<(BlockId, BasicBlock)>, n: int, i: int)
    requires
        0 <= n <= blocks.len(),
        0 <= i < instructions_upto(blocks, n).len(),
    ensures
        exists|b: int, j: int|
            0 <= b < n && 0 <= j < blocks[b].1.instructions@.len() && instructions_upto(blocks, n)[i]
                == #[trigger] blocks[b].1.instructions@[j],
    decreases n,
{
    if n > 0 {
        let front = instructions_upto(blocks, n - 1);
        if i < front.len() {
            lemma_instruction_in_block(blocks, n - 1, i);
            let (b, j) = choose|b: int, j: int|
                0 <= b < n - 1 && 0 <= j < blocks[b].1.instructions@.len() && front[i]
                    == #[trigger] blocks[b].1.instructions@[j];
            assert(instructions_upto(blocks, n)[i] == blocks[b].1.instructions@[j]);
        } else {
            assert(instructions_upto(blocks, n)[i] == blocks[n - 1].1.instructions@[i
                - front.len()]);
        }
    }
}

/// Every instruction of a function is smaller than the function.
pub proof fn lemma_instruction_smaller(func: HIRFunction, i: int)
    requires
        0 <= i < instructions(func).len(),
    ensures
        decreases_to!(func => instructions(func)[i]),
{
    let blocks = func.body.blocks@;
    lemma_instruction_in_block(blocks, blocks.len() as int, i);
    let (b, j) = choose|b: int, j: int|
        0 <= b < blocks.len() && 0 <= j < blocks[b].1.instructions@.len() && instructions(func)[i]
            == #[trigger] blocks[b].1.instructions@[j];
    lemma_block_instruction_smaller(func, b, j);
}

// ---------------------------------------------------------------------------
// Blocks by number
// ---------------------------------------------------------------------------

/// The position of the block `id` among the first `n`; of two blocks with one number the last counts.
pub open spec fn block_index_upto(blocks: Seq<(BlockId, BasicBlock)>, id: BlockId, n: int) -> Option<int>
    decreases n,
{
    if n <= 0 {
        None
    } else if blocks[n - 1].0 == id {
        Some(n - 1)
    } else {
        block_index_upto(blocks, id, n - 1)
    }
}

pub open spec fn block_index(blocks: Seq<(BlockId, BasicBlock)>, id: BlockId) -> Option<int> {
    block_index_upto(blocks, id, blocks.len() as int)
}

pub fn find_block(blocks: &Vec<(BlockId, BasicBlock)>, id: BlockId) -> (r: Option<usize>)
    ensures
        match r {
            Some(i) => block_index(blocks@, id) == Some(i as int) && i < blocks@.len()
                && blocks@[i as int].0 == id,
            None => block_index(blocks@, id) is None,
        },
{
    let mut n: usize = blocks.len();
    while n > 0
        invariant
            n <= blocks@.len(),
            block_index(blocks@, id) == block_index_upto(blocks@, id, n as int),
        decreases n,
    {
        if blocks[n - 1].0 == id {
            return Some(n - 1);
        }
        n = n - 1;
    }
    None
}

/// How many of the first `n` blocks have a number outside of `visited`.
pub open spec fn unvisited_upto(
    blocks: Seq<(BlockId, BasicBlock)>,
    visited: Set<u32>,
    n: int,
) -> nat
    decreases n,
{
    if n <= 0 {
        0
    } else {
        unvisited_upto(blocks, visited, n - 1) + if visited.contains(blocks[n - 1].0.0) {
            0nat
        } else {
            1nat
        }
    }
}

pub open spec fn unvisited(blocks: Seq<(BlockId, BasicBlock)>, visited: Set<u32>) -> nat {
    unvisited_upto(blocks, visited, blocks.len() as int)
}

pub proof fn lemma_unvisited_shrinks(
    blocks: Seq<(BlockId, BasicBlock)>,
    visited: Set<u32>,
    id: BlockId,
    n: int,
)
    requires
        0 <= n <= blocks.len(),
    ensures
        unvisited_upto(blocks, visited.insert(id.0), n) <= unvisited_upto(blocks, visited, n),
        !visited.contains(id.0) && block_index_upto(blocks, id, n) is Some ==> unvisited_upto(
            blocks,
            visited.insert(id.0),
            n,
        ) < unvisited_upto(blocks, visited, n),
    decreases n,
{
    if n > 0 {
        lemma_unvisited_shrinks(blocks, visited, id, n - 1);
    }
}

// ---------------------------------------------------------------------------
// Successors
// ---------------------------------------------------------------------------

pub open spec fn case_blocks(cases: Seq<SwitchCase>) -> Seq<BlockId> {
    cases.map_values(|c: SwitchCase| c.block)
}

/// The blocks that control can pass to from `terminal`.
pub open spec fn successors(terminal: Terminal) -> Seq<BlockId> {
    match terminal {
        Terminal::Return { .. } | Terminal::Throw { .. } => Seq::empty(),
        Terminal::Goto { block, .. } => seq![block],
        Terminal::If { consequent, alternate, .. } => seq![consequent, alternate],
        Terminal::Branch { consequent, alternate, .. } => seq![consequent, alternate],
        Terminal::Switch { cases, .. } => case_blocks(cases@),
        Terminal::For { init, .. } => seq![init],
        Terminal::ForOf { init, .. } => seq![init],
        Terminal::ForIn { init, .. } => seq![init],
        Terminal::While { test, .. } => seq![test],
        Terminal::DoWhile { loop_block, .. } => seq![loop_block],
        Terminal::Try { block, .. } => seq![block],
        Terminal::Other { successors } => successors@,
    }
}

pub fn terminal_successors(terminal: &Terminal) -> (r: Vec<BlockId>)
    ensures
        r@ == successors(*terminal),
{
    let mut out: Vec<BlockId> = Vec::new();
    match terminal {
        Terminal::Return { .. } | Terminal::Throw { .. } => {},
        Terminal::Goto { block, .. } => {
            out.push(*block);
        },
        Terminal::If { consequent, alternate, .. } => {
            out.push(*consequent);
            out.push(*alternate);
        },
        Terminal::Branch { consequent, alternate, .. } => {
            out.push(*consequent);
            out.push(*alternate);
        },
        Terminal::Switch { cases, .. } => {
            let mut i: usize = 0;
            while i < cases.len()
                invariant
                    i <= cases@.len(),
                    out@ == case_blocks(cases@).take(i as int),
                decreases cases@.len() - i,
            {
                out.push(cases[i].block);
                proof {
                    assert(out@ =~= case_blocks(cases@).take(i as int + 1));
                }
                i = i + 1;
            }
            proof {
                assert(case_blocks(cases@).take(cases@.len() as int) =~= case_blocks(cases@));
            }
        },
        Terminal::For { init, .. } => {
            out.push(*init);
        },
        Terminal::ForOf { init, .. } => {
            out.push(*init);
        },
        Terminal::ForIn { init, .. } => {
            out.push(*init);
        },
        Terminal::While { test, .. } => {
            out.push(*test);
        },
        Terminal::DoWhile { loop_block, .. } => {
            out.push(*loop_block);
        },
        Terminal::Try { block, .. } => {
            out.push(*block);
        },
        Terminal::Other { successors } => {
            let mut i: usize = 0;
            while i < successors.len()
                invariant
                    i <= successors@.len(),
                    out@ == successors@.take(i as int),
                decreases successors@.len() - i,
            {
                out.push(successors[i]);
                proof {
                    assert(out@ =~= successors@.take(i as int + 1));
                }
                i = i + 1;
            }
            proof {
                assert(successors@.take(successors@.len() as int) =~= successors@);
            }
        },
    }
    proof {
        assert(out@ =~= successors(*terminal));
    }
    out
}

/// Whether control can pass from block `a` to block `b` in one step.
pub open spec fn has_edge(blocks: Seq<(BlockId, BasicBlock)>, a: u32, b: u32) -> bool {
    match block_index(blocks, BlockId(a)) {
        Some(i) => successors(blocks[i].1.terminal).contains(BlockId(b)),
        None => false,
    }
}

/// Whether `path` leads along edges and meets `stop` nowhere.
pub open spec fn is_path(blocks: Seq<(BlockId, BasicBlock)>, stop: u32, path: Seq<u32>) -> bool {
    &&& path.len() > 0
    &&& forall|i: int| 0 <= i < path.len() ==> #[trigger] path[i] != stop
    &&& forall|i: int|
        0 <= i < path.len() - 1 ==> has_edge(blocks, #[trigger] path[i], path[i + 1])
}

/// Whether block `to` can be reached from block `from` without meeting `stop`.
pub open spec fn reachable(blocks: Seq<(BlockId, BasicBlock)>, from: u32, stop: u32, to: u32) -> bool {
    exists|path: Seq<u32>|
        #[trigger] is_path(blocks, stop, path) && path[0] == from && path.last() == to
}

proof fn lemma_reachable_step(
    blocks: Seq<(BlockId, BasicBlock)>,
    from: u32,
    stop: u32,
    a: u32,
    b: u32,
)
    requires
        reachable(blocks, from, stop, a),
        has_edge(blocks, a, b),
        b != stop,
    ensures
        reachable(blocks, from, stop, b),
{
    let path = choose|path: Seq<u32>|
        #[trigger] is_path(blocks, stop, path) && path[0] == from && path.last() == a;
    let longer = path.push(b);
    assert forall|i: int| 0 <= i < longer.len() - 1 implies has_edge(
        blocks,
        #[trigger] longer[i],
        longer[i + 1],
    ) by {
        if i < path.len() - 1 {
            assert(has_edge(blocks, path[i], path[i + 1]));
        }
    }
    assert(is_path(blocks, stop, longer));
}

/// A set that holds the start and every successor of its members holds all that can be reached.
proof fn lemma_closed_holds_reachable(
    blocks: Seq<(BlockId, BasicBlock)>,
    from: u32,
    stop: u32,
    set: Set<u32>,
    path: Seq<u32>,
)
    requires
        from != stop ==> set.contains(from),
        forall|a: u32, b: u32|
            set.contains(a) && a != stop && #[trigger] has_edge(blocks, a, b) ==> set.contains(b),
        is_path(blocks, stop, path),
        path[0] == from,
    ensures
        set.contains(path.last()),
    decreases path.len(),
{
    if path.len() > 1 {
        let shorter = path.drop_last();
        assert forall|i: int| 0 <= i < shorter.len() - 1 implies has_edge(
            blocks,
            #[trigger] shorter[i],
            shorter[i + 1],
        ) by {
            assert(has_edge(blocks, path[i], path[i + 1]));
        }
        assert(is_path(blocks, stop, shorter));
        lemma_closed_holds_reachable(blocks, from, stop, set, shorter);
        let a = path[path.len() - 2];
        assert(shorter.last() == a);
        assert(has_edge(blocks, a, path[path.len() - 2 + 1]));
        assert(a != stop);
    } else {
        assert(path[0] != stop);
    }
}

/// Adds to `owned` every block that can be reached from `loop_body` without meeting the block that
/// follows the loop.
pub fn collect_loop_body_owned_blocks(
    loop_body: BlockId,
    loop_fallthrough: BlockId,
    blocks: &Vec<(BlockId, BasicBlock)>,
    owned: &mut IdSet,
)
    ensures
        final(owned)@ == old(owned)@.union(
            Set::new(|b: u32| reachable(blocks@, loop_body.0, loop_fallthrough.0, b)),
        ),
{
    let mut queue: Vec<BlockId> = Vec::new();
    queue.push(loop_body);
    let mut visited = IdSet::new();
    let ghost start = owned@;
    let ghost from = loop_body.0;
    let ghost stop = loop_fallthrough.0;
    proof {
        if from != stop {
            let p = seq![from];
            assert(is_path(blocks@, stop, p));
            assert(reachable(blocks@, from, stop, from));
        }
        assert(queue@[0].0 == from);
    }
    while queue.len() > 0
        invariant
            from == loop_body.0,
            stop == loop_fallthrough.0,
            forall|b: u32|
                #[trigger] visited@.contains(b) && b != stop ==> reachable(blocks@, from, stop, b),
            forall|i: int|
                0 <= i < queue@.len() && (#[trigger] queue@[i]).0 != stop ==> reachable(
                    blocks@,
                    from,
                    stop,
                    queue@[i].0,
                ),
            visited@.contains(from) || exists|i: int| 0 <= i < queue@.len() && queue@[i].0 == from,
            forall|a: u32, b: u32|
                visited@.contains(a) && a != stop && #[trigger] has_edge(blocks@, a, b)
                    ==> visited@.contains(b) || exists|i: int|
                    0 <= i < queue@.len() && (#[trigger] queue@[i]).0 == b,
            owned@ =~= start.union(Set::new(|b: u32| visited@.contains(b) && b != stop)),
        decreases unvisited(blocks@, visited@), queue@.len(),
    {
        let ghost queue_before = queue@;
        let ghost visited_before = visited@;
        let bid: BlockId = match queue.pop() {
            Some(b) => b,
            None => {
                return;
            },
        };
        proof {
            assert(queue_before == queue@.push(bid));
            lemma_unvisited_shrinks(blocks@, visited@, bid, blocks@.len() as int);
        }
        if !visited.insert(bid.0) {
            proof {
                assert(visited@ =~= visited_before);
                assert forall|a: u32, b: u32|
                    visited@.contains(a) && a != stop && #[trigger] has_edge(blocks@, a, b) implies
                    visited@.contains(b) || exists|i: int|
                    0 <= i < queue@.len() && (#[trigger] queue@[i]).0 == b by {
                    if !visited@.contains(b) {
                        let i = choose|i: int|
                            0 <= i < queue_before.len() && (#[trigger] queue_before[i]).0 == b;
                        assert(queue@[i].0 == b);
                    }
                }
                if !visited@.contains(from) {
                    let i = choose|i: int| 0 <= i < queue_before.len() && queue_before[i].0 == from;
                    assert(queue@[i].0 == from);
                }
            }
            continue;
        }
        let ghost popped = queue@;
        if bid == loop_fallthrough {
            proof {
                assert forall|a: u32, b: u32|
                    visited@.contains(a) && a != stop && #[trigger] has_edge(blocks@, a, b) implies
                    visited@.contains(b) || exists|i: int|
                    0 <= i < queue@.len() && (#[trigger] queue@[i]).0 == b by {
                    if !visited@.contains(b) {
                        let i = choose|i: int|
                            0 <= i < queue_before.len() && (#[trigger] queue_before[i]).0 == b;
                        assert(queue@[i].0 == b);
                    }
                }
                if !visited@.contains(from) {
                    let i = choose|i: int| 0 <= i < queue_before.len() && queue_before[i].0 == from;
                    assert(queue@[i].0 == from);
                }
            }
            continue;
        }
        proof {
            assert(queue_before[queue_before.len() - 1].0 == bid.0);
            assert(reachable(blocks@, from, stop, bid.0));
        }
        owned.insert(bid.0);
        let mut succs: Vec<BlockId> = Vec::new();
        if let Some(bi) = find_block(blocks, bid) {
            succs = terminal_successors(&blocks[bi].1.terminal);
        }
        proof {
            assert forall|b: u32| #[trigger] has_edge(blocks@, bid.0, b) implies succs@.contains(
                BlockId(b),
            ) by {}
            assert forall|k: int| 0 <= k < succs@.len() implies has_edge(
                blocks@,
                bid.0,
                (#[trigger] succs@[k]).0,
            ) by {}
        }
        let mut k: usize = 0;
        while k < succs.len()
            invariant
                k <= succs@.len(),
                from == loop_body.0,
                stop == loop_fallthrough.0,
                reachable(blocks@, from, stop, bid.0),
                forall|m: int|
                    0 <= m < succs@.len() ==> has_edge(blocks@, bid.0, (#[trigger] succs@[m]).0),
                popped.len() <= queue@.len(),
                forall|m: int| 0 <= m < popped.len() ==> #[trigger] queue@[m] == popped[m],
                forall|i: int|
                    0 <= i < queue@.len() && (#[trigger] queue@[i]).0 != stop ==> reachable(
                        blocks@,
                        from,
                        stop,
                        queue@[i].0,
                    ),
                forall|m: int|
                    0 <= m < k ==> visited@.contains((#[trigger] succs@[m]).0) || exists|i: int|
                        0 <= i < queue@.len() && (#[trigger] queue@[i]).0 == succs@[m].0,
                block_index(blocks@, bid) is None ==> succs@.len() == 0 && queue@ == popped,
            decreases succs@.len() - k,
        {
            let succ: BlockId = succs[k];
            if !visited.contains(succ.0) {
                let ghost q = queue@;
                queue.push(succ);
                proof {
                    if succ.0 != stop {
                        lemma_reachable_step(blocks@, from, stop, bid.0, succ.0);
                    }
                    assert(queue@[q.len() as int].0 == succs@[k as int].0);
                    assert forall|m: int| 0 <= m < k + 1 implies visited@.contains(
                        (#[trigger] succs@[m]).0,
                    ) || exists|i: int|
                        0 <= i < queue@.len() && (#[trigger] queue@[i]).0 == succs@[m].0 by {
                        if m < k && !visited@.contains(succs@[m].0) {
                            let i = choose|i: int|
                                0 <= i < q.len() && (#[trigger] q[i]).0 == succs@[m].0;
                            assert(queue@[i].0 == succs@[m].0);
                        }
                    }
                }
            }
            k = k + 1;
        }
        proof {
            assert forall|a: u32, b: u32|
                visited@.contains(a) && a != stop && #[trigger] has_edge(blocks@, a, b) implies
                visited@.contains(b) || exists|i: int|
                0 <= i < queue@.len() && (#[trigger] queue@[i]).0 == b by {
                if a == bid.0 {
                    assert(succs@.contains(BlockId(b)));
                    let m = choose|m: int| 0 <= m < succs@.len() && succs@[m] == BlockId(b);
                    assert(visited@.contains(succs@[m].0) || exists|i: int|
                        0 <= i < queue@.len() && (#[trigger] queue@[i]).0 == succs@[m].0);
                } else if !visited@.contains(b) {
                    let i = choose|i: int|
                        0 <= i < queue_before.len() && (#[trigger] queue_before[i]).0 == b;
                    assert(queue@[i].0 == b);
                }
            }
            if !visited@.contains(from) {
                let i = choose|i: int| 0 <= i < queue_before.len() && queue_before[i].0 == from;
                assert(queue@[i].0 == from);
            }
        }
    }
    proof {
        let reach = Set::new(|b: u32| reachable(blocks@, from, stop, b));
        assert forall|b: u32| reach.contains(b) implies visited@.contains(b) && b != stop by {
            let path = choose|path: Seq<u32>|
                #[trigger] is_path(blocks@, stop, path) && path[0] == from && path.last() == b;
            lemma_closed_holds_reachable(blocks@, from, stop, visited@, path);
            assert(path[path.len() - 1] != stop);
        }
        assert(owned@ =~= start.union(reach));
    }
}

// ---------------------------------------------------------------------------
// What an instruction reads
// ---------------------------------------------------------------------------

pub open spec fn argument_places(args: Seq<Argument>) -> Seq<Place> {
    args.map_values(|a: Argument| a.place_of())
}

/// The places of the first `n` array elements.
pub open spec fn element_places(elements: Seq<ArrayElement>, n: int) -> Seq<Place>
    decreases n,
{
    if n <= 0 {
        Seq::empty()
    } else {
        let front = element_places(elements, n - 1);
        match elements[n - 1] {
            ArrayElement::Place(p) => front.push(p),
            ArrayElement::Spread(p) => front.push(p),
            ArrayElement::Hole => front,
        }
    }
}

/// The places of the first `n` properties: a computed key, then the value.
pub open spec fn property_places(properties: Seq<ObjectPropertyOrSpread>, n: int) -> Seq<Place>
    decreases n,
{
    if n <= 0 {
        Seq::empty()
    } else {
        let front = property_places(properties, n - 1);
        match properties[n - 1] {
            ObjectPropertyOrSpread::Property(p) => match p.key {
                ObjectPropertyKey::Computed(key) => front.push(key).push(p.place),
                _ => front.push(p.place),
            },
            ObjectPropertyOrSpread::Spread(p) => front.push(p),
        }
    }
}

pub open spec fn attribute_places(props: Seq<JsxAttribute>) -> Seq<Place> {
    props.map_values(
        |a: JsxAttribute|
            match a {
                JsxAttribute::Attribute { place, .. } => place,
                JsxAttribute::SpreadAttribute { argument } => argument,
            },
    )
}

pub open spec fn tag_places(tag: JsxTag) -> Seq<Place> {
    match tag {
        JsxTag::Component(p) => seq![p],
        _ => Seq::empty(),
    }
}

pub open spec fn child_places(children: Option<Vec<Place>>) -> Seq<Place> {
    match children {
        Some(c) => c@,
        None => Seq::empty(),
    }
}

/// The places that an instruction with this value reads.
pub open spec fn operands(value: InstructionValue) -> Seq<Place> {
    match value {
        InstructionValue::LoadLocal { place } => seq![place],
        InstructionValue::LoadContext { place } => seq![place],
        InstructionValue::StoreLocal { value, .. } => seq![value],
        InstructionValue::StoreContext { lvalue, value } => seq![lvalue.place, value],
        InstructionValue::Destructure { value, .. } => seq![value],
        InstructionValue::BinaryExpression { left, right, .. } => seq![left, right],
        InstructionValue::UnaryExpression { value, .. } => seq![value],
        InstructionValue::LogicalExpression { left, right, .. } => seq![left, right],
        InstructionValue::Ternary { test, consequent, alternate } => {
            seq![test, consequent, alternate]
        },
        InstructionValue::CallExpression { callee, args, .. } => seq![callee] + argument_places(
            args@,
        ),
        InstructionValue::MethodCall { receiver, property, args, .. } => seq![receiver, property]
            + argument_places(args@),
        InstructionValue::NewExpression { callee, args } => seq![callee] + argument_places(args@),
        InstructionValue::TypeCastExpression { value, .. } => seq![value],
        InstructionValue::ObjectExpression { properties } => property_places(
            properties@,
            properties@.len() as int,
        ),
        InstructionValue::ArrayExpression { elements } => element_places(
            elements@,
            elements@.len() as int,
        ),
        InstructionValue::JsxExpression { tag, props, children } => tag_places(tag)
            + attribute_places(props@) + child_places(children),
        InstructionValue::JsxFragment { children } => children@,
        InstructionValue::PropertyLoad { object, .. } => seq![object],
        InstructionValue::PropertyStore { object, value, .. } => seq![object, value],
        InstructionValue::PropertyDelete { object, .. } => seq![object],
        InstructionValue::ComputedLoad { object, property, .. } => seq![object, property],
        InstructionValue::ComputedStore { object, property, value } => {
            seq![object, property, value]
        },
        InstructionValue::ComputedDelete { object, property } => seq![object, property],
        InstructionValue::StoreGlobal { value, .. } => seq![value],
        InstructionValue::TaggedTemplateExpression { tag, .. } => seq![tag],
        InstructionValue::TemplateLiteral { subexprs, .. } => subexprs@,
        InstructionValue::Await { value } => seq![value],
        InstructionValue::GetIterator { collection } => seq![collection],
        InstructionValue::IteratorNext { iterator, collection } => seq![iterator, collection],
        InstructionValue::NextPropertyOf { value } => seq![value],
        InstructionValue::PrefixUpdate { value, .. } => seq![value],
        InstructionValue::PostfixUpdate { value, .. } => seq![value],
        InstructionValue::FinishMemoize { decl } => seq![decl],
        InstructionValue::FunctionExpression { lowered_func, .. } => lowered_func.func.context@,
        InstructionValue::ObjectMethod { lowered_func } => lowered_func.func.context@,
        _ => Seq::empty(),
    }
}

fn push_arguments<'a>(out: &mut Vec<&'a Place>, args: &'a Vec<Argument>)
    ensures
        forall|s: Seq<Place>| #[trigger]
            refs_are(old(out)@, s) ==> refs_are(final(out)@, s + argument_places(args@)),
{
    let ghost start = out@;
    let mut i: usize = 0;
    while i < args.len()
        invariant
            i <= args@.len(),
            out@.len() == start.len() + i,
            forall|k: int| 0 <= k < start.len() ==> #[trigger] out@[k] == start[k],
            forall|k: int|
                start.len() <= k < out@.len() ==> *(#[trigger] out@[k])
                    == args@[k - start.len()].place_of(),
        decreases args@.len() - i,
    {
        out.push(args[i].place());
        i = i + 1;
    }
}

fn push_places<'a>(out: &mut Vec<&'a Place>, places: &'a Vec<Place>)
    ensures
        forall|s: Seq<Place>| #[trigger]
            refs_are(old(out)@, s) ==> refs_are(final(out)@, s + places@),
{
    let ghost start = out@;
    let mut i: usize = 0;
    while i < places.len()
        invariant
            i <= places@.len(),
            out@.len() == start.len() + i,
            forall|k: int| 0 <= k < start.len() ==> #[trigger] out@[k] == start[k],
            forall|k: int|
                start.len() <= k < out@.len() ==> *(#[trigger] out@[k]) == places@[k - start.len()],
        decreases places@.len() - i,
    {
        out.push(&places[i]);
        i = i + 1;
    }
}

fn push_attributes<'a>(out: &mut Vec<&'a Place>, props: &'a Vec<JsxAttribute>)
    ensures
        forall|s: Seq<Place>| #[trigger]
            refs_are(old(out)@, s) ==> refs_are(final(out)@, s + attribute_places(props@)),
{
    let ghost start = out@;
    let mut i: usize = 0;
    while i < props.len()
        invariant
            i <= props@.len(),
            out@.len() == start.len() + i,
            forall|k: int| 0 <= k < start.len() ==> #[trigger] out@[k] == start[k],
            forall|k: int|
                start.len() <= k < out@.len() ==> *(#[trigger] out@[k])
                    == attribute_places(props@)[k - start.len()],
        decreases props@.len() - i,
    {
        match &props[i] {
            JsxAttribute::Attribute { place, .. } => {
                out.push(place);
            },
            JsxAttribute::SpreadAttribute { argument } => {
                out.push(argument);
            },
        }
        i = i + 1;
    }
}

fn element_operands(elements: &Vec<ArrayElement>) -> (out: Vec<&Place>)
    ensures
        refs_are(out@, element_places(elements@, elements@.len() as int)),
{
    let mut out: Vec<&Place> = Vec::new();
    let mut i: usize = 0;
    while i < elements.len()
        invariant
            i <= elements@.len(),
            refs_are(out@, element_places(elements@, i as int)),
        decreases elements@.len() - i,
    {
        match &elements[i] {
            ArrayElement::Place(p) => {
                out.push(p);
            },
            ArrayElement::Spread(p) => {
                out.push(p);
            },
            ArrayElement::Hole => {},
        }
        i = i + 1;
    }
    out
}

fn property_operands(properties: &Vec<ObjectPropertyOrSpread>) -> (out: Vec<&Place>)
    ensures
        refs_are(out@, property_places(properties@, properties@.len() as int)),
{
    let mut out: Vec<&Place> = Vec::new();
    let mut i: usize = 0;
    while i < properties.len()
        invariant
            i <= properties@.len(),
            refs_are(out@, property_places(properties@, i as int)),
        decreases properties@.len() - i,
    {
        match &properties[i] {
            ObjectPropertyOrSpread::Property(p) => {
                if let ObjectPropertyKey::Computed(key) = &p.key {
                    out.push(key);
                }
                out.push(&p.place);
            },
            ObjectPropertyOrSpread::Spread(p) => {
                out.push(p);
            },
        }
        i = i + 1;
    }
    out
}

/// The places that an instruction with this value reads.
pub fn operands_of(value: &InstructionValue) -> (out: Vec<&Place>)
    ensures
        refs_are(out@, operands(*value)),
{
    let mut out: Vec<&Place> = Vec::new();
    proof {
        assert(refs_are(out@, Seq::<Place>::empty()));
    }
    match value {
        InstructionValue::LoadLocal { place } => {
            out.push(place);
        },
        InstructionValue::LoadContext { place } => {
            out.push(place);
        },
        InstructionValue::StoreLocal { value, .. } => {
            out.push(value);
        },
        InstructionValue::StoreContext { lvalue, value } => {
            out.push(&lvalue.place);
            out.push(value);
        },
        InstructionValue::Destructure { value, .. } => {
            out.push(value);
        },
        InstructionValue::BinaryExpression { left, right, .. } => {
            out.push(left);
            out.push(right);
        },
        InstructionValue::UnaryExpression { value, .. } => {
            out.push(value);
        },
        InstructionValue::LogicalExpression { left, right, .. } => {
            out.push(left);
            out.push(right);
        },
        InstructionValue::Ternary { test, consequent, alternate } => {
            out.push(test);
            out.push(consequent);
            out.push(alternate);
        },
        InstructionValue::CallExpression { callee, args, .. } => {
            out.push(callee);
            assert(refs_are(out@, seq![*callee]));
            push_arguments(&mut out, args);
        },
        InstructionValue::MethodCall { receiver, property, args, .. } => {
            out.push(receiver);
            out.push(property);
            assert(refs_are(out@, seq![*receiver, *property]));
            push_arguments(&mut out, args);
        },
        InstructionValue::NewExpression { callee, args } => {
            out.push(callee);
            assert(refs_are(out@, seq![*callee]));
            push_arguments(&mut out, args);
        },
        InstructionValue::TypeCastExpression { value, .. } => {
            out.push(value);
        },
        InstructionValue::ObjectExpression { properties } => {
            out = property_operands(properties);
        },
        InstructionValue::ArrayExpression { elements } => {
            out = element_operands(elements);
        },
        InstructionValue::JsxExpression { tag, props, children } => {
            if let JsxTag::Component(p) = tag {
                out.push(p);
            }
            assert(refs_are(out@, tag_places(*tag)));
            push_attributes(&mut out, props);
            assert(refs_are(out@, tag_places(*tag) + attribute_places(props@)));
            match children {
                Some(c) => {
                    push_places(&mut out, c);
                },
                None => {
                    proof {
                        let s = tag_places(*tag) + attribute_places(props@);
                        assert(s + Seq::<Place>::empty() =~= s);
                    }
                },
            }
        },
        InstructionValue::JsxFragment { children } => {
            push_places(&mut out, children);
            assert(Seq::<Place>::empty() + children@ =~= children@);
        },
        InstructionValue::PropertyLoad { object, .. } => {
            out.push(object);
        },
        InstructionValue::PropertyStore { object, value, .. } => {
            out.push(object);
            out.push(value);
        },
        InstructionValue::PropertyDelete { object, .. } => {
            out.push(object);
        },
        InstructionValue::ComputedLoad { object, property, .. } => {
            out.push(object);
            out.push(property);
        },
        InstructionValue::ComputedStore { object, property, value } => {
            out.push(object);
            out.push(property);
            out.push(value);
        },
        InstructionValue::ComputedDelete { object, property } => {
            out.push(object);
            out.push(property);
        },
        InstructionValue::StoreGlobal { value, .. } => {
            out.push(value);
        },
        InstructionValue::TaggedTemplateExpression { tag, .. } => {
            out.push(tag);
        },
        InstructionValue::TemplateLiteral { subexprs, .. } => {
            push_places(&mut out, subexprs);
            assert(Seq::<Place>::empty() + subexprs@ =~= subexprs@);
        },
        InstructionValue::Await { value } => {
            out.push(value);
        },
        InstructionValue::GetIterator { collection } => {
            out.push(collection);
        },
        InstructionValue::IteratorNext { iterator, collection } => {
            out.push(iterator);
            out.push(collection);
        },
        InstructionValue::NextPropertyOf { value } => {
            out.push(value);
        },
        InstructionValue::PrefixUpdate { value, .. } => {
            out.push(value);
        },
        InstructionValue::PostfixUpdate { value, .. } => {
            out.push(value);
        },
        InstructionValue::FinishMemoize { decl } => {
            out.push(decl);
        },
        InstructionValue::FunctionExpression { lowered_func, .. } => {
            push_places(&mut out, &lowered_func.func.context);
            assert(Seq::<Place>::empty() + lowered_func.func.context@
                =~= lowered_func.func.context@);
        },
        InstructionValue::ObjectMethod { lowered_func } => {
            push_places(&mut out, &lowered_func.func.context);
            assert(Seq::<Place>::empty() + lowered_func.func.context@
                =~= lowered_func.func.context@);
        },
        _ => {},
    }
    out
}

} // verus!

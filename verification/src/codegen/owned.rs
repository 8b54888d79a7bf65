//! Which blocks belong to a structured statement and are not written on their own.

use vstd::prelude::*;

use crate::collections::IdSet;
use crate::graph::{
    block_index, case_blocks, collect_loop_body_owned_blocks, find_block, reachable,
};
use crate::hir::{BasicBlock, BlockId, SwitchCase, Terminal};

verus! {

/// The numbers of `blocks`.
pub open spec fn block_numbers(blocks: Seq<BlockId>) -> Set<u32> {
    Set::new(|b: u32| blocks.contains(BlockId(b)))
}

/// The blocks that a terminal names as its parts. The statement behind it is no part, nor is an
/// alternative that is that statement. Of a `try` that wraps the whole body only the handler is.
pub open spec fn parts(terminal: Terminal, wrapper: bool) -> Seq<BlockId> {
    match terminal {
        Terminal::For { init, test, update, loop_block, .. } => match update {
            Some(u) => seq![init, test, u, loop_block],
            None => seq![init, test, loop_block],
        },
        Terminal::ForOf { init, test, loop_block, .. } => seq![init, test, loop_block],
        Terminal::ForIn { init, loop_block, .. } => seq![init, loop_block],
        Terminal::While { test, loop_block, .. } => seq![test, loop_block],
        Terminal::DoWhile { loop_block, test, .. } => seq![loop_block, test],
        Terminal::If { consequent, alternate, fallthrough, .. } => if alternate == fallthrough {
            seq![consequent]
        } else {
            seq![consequent, alternate]
        },
        Terminal::Branch { consequent, alternate, fallthrough, .. } => if alternate == fallthrough {
            seq![consequent]
        } else {
            seq![consequent, alternate]
        },
        Terminal::Try { block, handler, .. } => if wrapper {
            seq![handler]
        } else {
            seq![block, handler]
        },
        Terminal::Switch { cases, .. } => case_blocks(cases@),
        _ => Seq::empty(),
    }
}

/// The parts of the first `n` terminals. The terminal of block `wrapper` wraps the body.
pub open spec fn parts_upto(
    blocks: Seq<(BlockId, BasicBlock)>,
    wrapper: Option<int>,
    n: int,
) -> Set<u32>
    decreases n,
{
    if n <= 0 {
        Set::empty()
    } else {
        parts_upto(blocks, wrapper, n - 1).union(
            block_numbers(parts(blocks[n - 1].1.terminal, wrapper == Some(n - 1))),
        )
    }
}

/// The two blocks from which the body of a loop is entered, and the block behind the loop.
pub open spec fn loop_entries(terminal: Terminal) -> Option<(BlockId, BlockId, BlockId)> {
    match terminal {
        Terminal::For { init, loop_block, fallthrough, .. } => Some((init, loop_block, fallthrough)),
        Terminal::ForOf { init, loop_block, fallthrough, .. } => Some(
            (init, loop_block, fallthrough),
        ),
        Terminal::ForIn { init, loop_block, fallthrough, .. } => Some(
            (init, loop_block, fallthrough),
        ),
        Terminal::While { test, loop_block, fallthrough, .. } => Some(
            (test, loop_block, fallthrough),
        ),
        Terminal::DoWhile { loop_block, test, fallthrough } => Some(
            (loop_block, test, fallthrough),
        ),
        _ => None,
    }
}

/// The blocks that can be reached from `from` before `stop`.
pub open spec fn reached(blocks: Seq<(BlockId, BasicBlock)>, from: BlockId, stop: BlockId) -> Set<
    u32,
> {
    Set::new(|b: u32| reachable(blocks, from.0, stop.0, b))
}

/// The blocks inside of the loops of the first `n` terminals.
pub open spec fn loops_upto(blocks: Seq<(BlockId, BasicBlock)>, n: int) -> Set<u32>
    decreases n,
{
    if n <= 0 {
        Set::empty()
    } else {
        let front = loops_upto(blocks, n - 1);
        match loop_entries(blocks[n - 1].1.terminal) {
            Some((a, b, stop)) => front.union(reached(blocks, a, stop)).union(
                reached(blocks, b, stop),
            ),
            None => front,
        }
    }
}

/// The blocks that belong to a structured statement: as one of its parts, or inside of a loop.
pub open spec fn owned_blocks(blocks: Seq<(BlockId, BasicBlock)>, wrapper: Option<int>) -> Set<u32> {
    parts_upto(blocks, wrapper, blocks.len() as int).union(
        loops_upto(blocks, blocks.len() as int),
    )
}

pub fn case_blocks_of(cases: &Vec<SwitchCase>) -> (r: Vec<BlockId>)
    ensures
        r@ == case_blocks(cases@),
{
    let mut out: Vec<BlockId> = Vec::new();
    let mut i: usize = 0;
    while i < cases.len()
        invariant
            i <= cases@.len(),
            out@.len() == i,
            forall|k: int| 0 <= k < i ==> #[trigger] out@[k] == cases@[k].block,
        decreases cases@.len() - i,
    {
        out.push(cases[i].block);
        i = i + 1;
    }
    proof {
        assert(out@ =~= case_blocks(cases@));
    }
    out
}

fn parts_of(terminal: &Terminal, wrapper: bool) -> (r: Vec<BlockId>)
    ensures
        r@ == parts(*terminal, wrapper),
{
    match terminal {
        Terminal::For { init, test, update, loop_block, .. } => match update {
            Some(u) => vec![*init, *test, *u, *loop_block],
            None => vec![*init, *test, *loop_block],
        },
        Terminal::ForOf { init, test, loop_block, .. } => vec![*init, *test, *loop_block],
        Terminal::ForIn { init, loop_block, .. } => vec![*init, *loop_block],
        Terminal::While { test, loop_block, .. } => vec![*test, *loop_block],
        Terminal::DoWhile { loop_block, test, .. } => vec![*loop_block, *test],
        Terminal::If { consequent, alternate, fallthrough, .. } => if *alternate == *fallthrough {
            vec![*consequent]
        } else {
            vec![*consequent, *alternate]
        },
        Terminal::Branch { consequent, alternate, fallthrough, .. } => if *alternate
            == *fallthrough {
            vec![*consequent]
        } else {
            vec![*consequent, *alternate]
        },
        Terminal::Try { block, handler, .. } => if wrapper {
            vec![*handler]
        } else {
            vec![*block, *handler]
        },
        Terminal::Switch { cases, .. } => case_blocks_of(cases),
        _ => Vec::new(),
    }
}

fn loop_entries_of(terminal: &Terminal) -> (r: Option<(BlockId, BlockId, BlockId)>)
    ensures
        r == loop_entries(*terminal),
{
    match terminal {
        Terminal::For { init, loop_block, fallthrough, .. } => Some(
            (*init, *loop_block, *fallthrough),
        ),
        Terminal::ForOf { init, loop_block, fallthrough, .. } => Some(
            (*init, *loop_block, *fallthrough),
        ),
        Terminal::ForIn { init, loop_block, fallthrough, .. } => Some(
            (*init, *loop_block, *fallthrough),
        ),
        Terminal::While { test, loop_block, fallthrough, .. } => Some(
            (*test, *loop_block, *fallthrough),
        ),
        Terminal::DoWhile { loop_block, test, fallthrough } => Some(
            (*loop_block, *test, *fallthrough),
        ),
        _ => None,
    }
}

fn insert_blocks(ids: &mut IdSet, blocks: &Vec<BlockId>)
    ensures
        final(ids)@ == old(ids)@.union(block_numbers(blocks@)),
{
    let ghost start = ids@;
    let mut i: usize = 0;
    proof {
        assert(start =~= start.union(block_numbers(blocks@.take(0))));
    }
    while i < blocks.len()
        invariant
            i <= blocks@.len(),
            ids@ == start.union(block_numbers(blocks@.take(i as int))),
        decreases blocks@.len() - i,
    {
        ids.insert(blocks[i].0);
        proof {
            let before = blocks@.take(i as int);
            let after = blocks@.take(i as int + 1);
            assert(after =~= before.push(blocks@[i as int]));
            assert forall|b: u32| #[trigger] block_numbers(after).contains(b) <==> (
            block_numbers(before).contains(b) || b == blocks@[i as int].0) by {
                if before.contains(BlockId(b)) {
                    let k = choose|k: int| 0 <= k < before.len() && before[k] == BlockId(b);
                    assert(after[k] == BlockId(b));
                }
                if b == blocks@[i as int].0 {
                    assert(after[i as int] == BlockId(b));
                }
            }
            assert(ids@ =~= start.union(block_numbers(after)));
        }
        i = i + 1;
    }
    proof {
        assert(blocks@.take(i as int) =~= blocks@);
    }
}

/// The blocks that belong to a structured statement.
pub fn find_owned_blocks(blocks: &Vec<(BlockId, BasicBlock)>, wrapper: Option<usize>) -> (owned:
    IdSet)
    ensures
        owned@ == owned_blocks(
            blocks@,
            match wrapper {
                Some(i) => Some(i as int),
                None => None,
            },
        ),
{
    let ghost at = match wrapper {
        Some(i) => Some(i as int),
        None => None,
    };
    let mut owned = IdSet::new();
    let mut i: usize = 0;
    while i < blocks.len()
        invariant
            i <= blocks@.len(),
            at == (match wrapper {
                Some(i) => Some(i as int),
                None => None,
            }),
            owned@ == parts_upto(blocks@, at, i as int),
        decreases blocks@.len() - i,
    {
        let wraps = match wrapper {
            Some(w) => w == i,
            None => false,
        };
        let ps = parts_of(&blocks[i].1.terminal, wraps);
        insert_blocks(&mut owned, &ps);
        i = i + 1;
    }
    let ghost structure = owned@;
    proof {
        assert(owned@ =~= structure.union(loops_upto(blocks@, 0)));
    }
    let mut j: usize = 0;
    while j < blocks.len()
        invariant
            j <= blocks@.len(),
            owned@ == structure.union(loops_upto(blocks@, j as int)),
        decreases blocks@.len() - j,
    {
        if let Some((a, b, stop)) = loop_entries_of(&blocks[j].1.terminal) {
            collect_loop_body_owned_blocks(a, stop, blocks, &mut owned);
            collect_loop_body_owned_blocks(b, stop, blocks, &mut owned);
            proof {
                assert(owned@ =~= structure.union(loops_upto(blocks@, j as int + 1)));
            }
        }
        j = j + 1;
    }
    owned
}

// ---------------------------------------------------------------------------
// A try statement around the whole body
// ---------------------------------------------------------------------------

/// Whether a block does nothing and goes on elsewhere.
pub open spec fn does_nothing(block: BasicBlock) -> bool {
    block.instructions@.len() == 0 && block.terminal is Goto
}

/// Whether a terminal is a `try` whose block does something.
pub open spec fn tries_something(blocks: Seq<(BlockId, BasicBlock)>, terminal: Terminal) -> bool {
    match terminal {
        Terminal::Try { block, .. } => match block_index(blocks, block) {
            Some(b) => !does_nothing(blocks[b].1),
            None => true,
        },
        _ => false,
    }
}

/// The first block from `i` on that ends in a `try` that tries something and is no part of a statement
/// of the blocks in front of it: that `try` wraps the body.
pub open spec fn try_wrapper(blocks: Seq<(BlockId, BasicBlock)>, i: int) -> Option<int>
    decreases blocks.len() - i,
{
    if i < 0 || i >= blocks.len() {
        None
    } else if tries_something(blocks, blocks[i].1.terminal) && !parts_upto(
        blocks,
        None,
        i,
    ).contains(blocks[i].1.id.0) {
        Some(i)
    } else {
        try_wrapper(blocks, i + 1)
    }
}

fn does_try_something(blocks: &Vec<(BlockId, BasicBlock)>, terminal: &Terminal) -> (r: bool)
    ensures
        r == tries_something(blocks@, *terminal),
{
    match terminal {
        Terminal::Try { block, .. } => match find_block(blocks, *block) {
            Some(b) => {
                let target = &blocks[b].1;
                let goes_on = match &target.terminal {
                    Terminal::Goto { .. } => true,
                    _ => false,
                };
                !(target.instructions.len() == 0 && goes_on)
            },
            None => true,
        },
        _ => false,
    }
}

/// The block that ends in the `try` that wraps the body.
pub fn find_try_wrapper(blocks: &Vec<(BlockId, BasicBlock)>) -> (r: Option<usize>)
    ensures
        match r {
            Some(i) => try_wrapper(blocks@, 0) == Some(i as int) && i < blocks@.len()
                && blocks@[i as int].1.terminal is Try,
            None => try_wrapper(blocks@, 0) is None,
        },
{
    let mut owned = IdSet::new();
    let mut i: usize = 0;
    while i < blocks.len()
        invariant
            i <= blocks@.len(),
            owned@ == parts_upto(blocks@, None, i as int),
            try_wrapper(blocks@, i as int) == try_wrapper(blocks@, 0),
        decreases blocks@.len() - i,
    {
        if does_try_something(blocks, &blocks[i].1.terminal) && !owned.contains(
            blocks[i].1.id.0,
        ) {
            return Some(i);
        }
        let ps = parts_of(&blocks[i].1.terminal, false);
        insert_blocks(&mut owned, &ps);
        i = i + 1;
    }
    None
}

} // verus!

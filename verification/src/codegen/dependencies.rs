//! What the dependencies of a memoized result cover.

use vstd::prelude::*;

use crate::codegen::context::Ctx;
use crate::codegen::deps::{
    all_hook_results, all_variable_deps, anon_deps, block_uses, dotted, identifier_text,
    instruction_uses, is_loaded, leaf_places, leaf_tests, param_names, reactive_deps,
    scope_deps_upto, shortest_paths, sorted_once, sub_path, variable_deps, with_scope_deps, with_uses,
    Uses,
};
use crate::codegen::flow::{all_paths, root_paths};
use crate::graph::{instructions, operands};
use crate::hir::{
    BasicBlock, BlockId, DependencyPathEntry, HIRFunction, Instruction, Place,
    ReactiveScopeDependency,
};
use crate::sorting::{deduped, lemma_sorted, push_all_new, push_new, sorted};

verus! {

// ---------------------------------------------------------------------------
// Lists
// ---------------------------------------------------------------------------

/// Whether every text of one list is in another one.
pub open spec fn within(a: Seq<Seq<char>>, b: Seq<Seq<char>>) -> bool {
    forall|x: Seq<char>| a.contains(x) ==> #[trigger] b.contains(x)
}

proof fn lemma_push_new(s: Seq<Seq<char>>, x: Seq<char>)
    ensures
        push_new(s, x).contains(x),
        within(s, push_new(s, x)),
{
    let t = push_new(s, x);
    if !s.contains(x) {
        assert(t[s.len() as int] == x);
        assert forall|y: Seq<char>| s.contains(y) implies #[trigger] t.contains(y) by {
            let k = choose|k: int| 0 <= k < s.len() && s[k] == y;
            assert(t[k] == y);
        }
    }
}

proof fn lemma_push_all_new(s: Seq<Seq<char>>, more: Seq<Seq<char>>, n: int)
    requires
        0 <= n <= more.len(),
    ensures
        within(s, push_all_new(s, more, n)),
        forall|i: int| 0 <= i < n ==> push_all_new(s, more, n).contains(#[trigger] more[i]),
    decreases n,
{
    if n > 0 {
        lemma_push_all_new(s, more, n - 1);
        lemma_push_new(push_all_new(s, more, n - 1), more[n - 1]);
    }
}

proof fn lemma_sorted_holds(s: Seq<Seq<char>>)
    ensures
        within(s, sorted(s)),
{
    broadcast use vstd::seq_lib::group_to_multiset_ensures;

    lemma_sorted(s);
    assert forall|x: Seq<char>| s.contains(x) implies #[trigger] sorted(s).contains(x) by {
        assert(s.to_multiset().contains(x));
        assert(sorted(s).to_multiset().contains(x));
    }
}

proof fn lemma_deduped(s: Seq<Seq<char>>, n: int)
    requires
        0 <= n <= s.len(),
    ensures
        forall|i: int| 0 <= i < n ==> deduped(s, n).contains(#[trigger] s[i]),
    decreases n,
{
    if n > 0 {
        lemma_deduped(s, n - 1);
        let front = deduped(s, n - 1);
        let now = deduped(s, n);
        assert forall|i: int| 0 <= i < n implies now.contains(#[trigger] s[i]) by {
            if i < n - 1 {
                let k = choose|k: int| 0 <= k < front.len() && front[k] == s[i];
                assert(now[k] == s[i]);
            } else {
                assert(now[now.len() - 1] == s[i]);
            }
        }
    }
}

/// Sorting a list without repetitions loses nothing.
pub proof fn lemma_sorted_once_holds(s: Seq<Seq<char>>)
    ensures
        within(s, sorted_once(s)),
{
    lemma_sorted_holds(s);
    let t = sorted(s);
    lemma_deduped(t, t.len() as int);
    assert forall|x: Seq<char>| s.contains(x) implies #[trigger] sorted_once(s).contains(x) by {
        assert(t.contains(x));
        let k = choose|k: int| 0 <= k < t.len() && t[k] == x;
        assert(deduped(t, t.len() as int).contains(t[k]));
    }
}

// ---------------------------------------------------------------------------
// Uses
// ---------------------------------------------------------------------------

/// Whether a use of the value of a place is noted: that the variable itself is used, or the path.
pub open spec fn noted(
    roots: Map<u32, Seq<char>>,
    paths: Map<u32, Seq<char>>,
    u: Uses,
    p: Place,
) -> bool {
    let id = p.identifier.id.0;
    paths.contains_key(id) ==> if roots.contains_key(id) {
        u.direct
    } else {
        u.leaves.contains(paths[id])
    }
}

/// Whether nothing noted is lost.
pub open spec fn notes_more(a: Uses, b: Uses) -> bool {
    (a.direct ==> b.direct) && within(a.leaves, b.leaves)
}

proof fn lemma_with_uses(
    roots: Map<u32, Seq<char>>,
    paths: Map<u32, Seq<char>>,
    u: Uses,
    places: Seq<Place>,
    n: int,
)
    requires
        0 <= n <= places.len(),
    ensures
        notes_more(u, with_uses(roots, paths, u, places, n)),
        forall|j: int|
            0 <= j < n ==> noted(
                roots,
                paths,
                with_uses(roots, paths, u, places, n),
                #[trigger] places[j],
            ),
    decreases n,
{
    if n > 0 {
        lemma_with_uses(roots, paths, u, places, n - 1);
        let front = with_uses(roots, paths, u, places, n - 1);
        let id = places[n - 1].identifier.id.0;
        if paths.contains_key(id) {
            lemma_push_new(front.leaves, paths[id]);
        }
        let now = with_uses(roots, paths, u, places, n);
        assert(notes_more(front, now));
    }
}

proof fn lemma_instruction_uses(
    roots: Map<u32, Seq<char>>,
    paths: Map<u32, Seq<char>>,
    u: Uses,
    instrs: Seq<Instruction>,
    n: int,
)
    requires
        0 <= n <= instrs.len(),
    ensures
        ({
            let now = instruction_uses(roots, paths, None, u, instrs, n);
            &&& notes_more(u, now)
            &&& forall|i: int, j: int|
                0 <= i < n && !((#[trigger] instrs[i]).value is PropertyLoad) && 0 <= j < operands(
                    instrs[i].value,
                ).len() ==> noted(roots, paths, now, #[trigger] operands(instrs[i].value)[j])
        }),
    decreases n,
{
    if n > 0 {
        lemma_instruction_uses(roots, paths, u, instrs, n - 1);
        let front = instruction_uses(roots, paths, None, u, instrs, n - 1);
        let places = leaf_places(None, instrs[n - 1]);
        lemma_with_uses(roots, paths, front, places, places.len() as int);
        let now = instruction_uses(roots, paths, None, u, instrs, n);
        assert forall|i: int, j: int|
            0 <= i < n && !((#[trigger] instrs[i]).value is PropertyLoad) && 0 <= j < operands(
                instrs[i].value,
            ).len() implies noted(roots, paths, now, #[trigger] operands(instrs[i].value)[j]) by {
            if i < n - 1 {
                assert(noted(roots, paths, front, operands(instrs[i].value)[j]));
            } else {
                assert(places[j] == operands(instrs[i].value)[j]);
            }
        }
    }
}

proof fn lemma_block_uses(
    roots: Map<u32, Seq<char>>,
    paths: Map<u32, Seq<char>>,
    blocks: Seq<(BlockId, BasicBlock)>,
    n: int,
    b: int,
    i: int,
    j: int,
)
    requires
        0 <= b < n <= blocks.len(),
        0 <= i < blocks[b].1.instructions@.len(),
        !(blocks[b].1.instructions@[i].value is PropertyLoad),
        0 <= j < operands(blocks[b].1.instructions@[i].value).len(),
    ensures
        noted(
            roots,
            paths,
            block_uses(roots, paths, None, blocks, n),
            operands(blocks[b].1.instructions@[i].value)[j],
        ),
    decreases n,
{
    let front = block_uses(roots, paths, None, blocks, n - 1);
    let block = blocks[n - 1].1;
    let len = block.instructions@.len() as int;
    let u = instruction_uses(roots, paths, None, front, block.instructions@, len);
    let tests = leaf_tests(None, block);
    lemma_instruction_uses(roots, paths, front, block.instructions@, len);
    lemma_with_uses(roots, paths, u, tests, tests.len() as int);
    let p = operands(blocks[b].1.instructions@[i].value)[j];
    if b < n - 1 {
        lemma_block_uses(roots, paths, blocks, n - 1, b, i, j);
    }
    assert(noted(roots, paths, u, p));
}

/// Whether a dependency on `d` sees a change of what the path reads: it is the path, or what the path
/// leads on from.
pub open spec fn sees(d: Seq<char>, path: Seq<char>) -> bool {
    d == path || (path.len() > d.len() && path.take(d.len() as int) == d && path[d.len() as int] == '.')
}

proof fn lemma_shortest_paths(paths: Seq<Seq<char>>, n: int, i: int) -> (k: int)
    requires
        0 <= i < n <= paths.len(),
    ensures
        0 <= k < shortest_paths(paths, n).len(),
        sees(shortest_paths(paths, n)[k], paths[i]),
    decreases n,
{
    let front = shortest_paths(paths, n - 1);
    if i < n - 1 {
        lemma_shortest_paths(paths, n - 1, i)
    } else if exists|k: int| 0 <= k < front.len() && sub_path(paths[n - 1], #[trigger] front[k]) {
        let k = choose|k: int| 0 <= k < front.len() && sub_path(paths[n - 1], #[trigger] front[k]);
        assert(paths[i].take(front[k].len() as int) =~= front[k]);
        k
    } else {
        front.len() as int
    }
}

/// Where a variable is used, otherwise than to load a property, its dependencies see a change of what is
/// used: they name the variable, or a path that sees it.
pub proof fn lemma_variable_use_is_seen(
    func: HIRFunction,
    name: Seq<char>,
    globals: bool,
    b: int,
    i: int,
    j: int,
) -> (k: int)
    requires
        is_loaded(instructions(func), name, globals),
        0 <= b < func.body.blocks@.len(),
        0 <= i < func.body.blocks@[b].1.instructions@.len(),
        !(func.body.blocks@[b].1.instructions@[i].value is PropertyLoad),
        0 <= j < operands(func.body.blocks@[b].1.instructions@[i].value).len(),
        paths_of(func, name, globals).contains_key(
            operands(func.body.blocks@[b].1.instructions@[i].value)[j].identifier.id.0,
        ),
    ensures
        ({
            let id = operands(func.body.blocks@[b].1.instructions@[i].value)[j].identifier.id.0;
            let deps = variable_deps(func, name, globals, None);
            &&& 0 <= k < deps.len()
            &&& deps[k] == name || sees(deps[k], paths_of(func, name, globals)[id])
        }),
{
    let instrs = instructions(func);
    let roots = root_paths(instrs, name, globals, instrs.len() as int);
    let paths = all_paths(roots, instrs);
    let blocks = func.body.blocks@;
    let id = operands(blocks[b].1.instructions@[i].value)[j].identifier.id.0;
    lemma_block_uses(roots, paths, blocks, blocks.len() as int, b, i, j);
    let u = block_uses(roots, paths, None, blocks, blocks.len() as int);
    if u.direct {
        0
    } else {
        let leaves = sorted(u.leaves);
        lemma_sorted_holds(u.leaves);
        assert(leaves.contains(paths[id]));
        let at = choose|at: int| 0 <= at < leaves.len() && leaves[at] == paths[id];
        lemma_shortest_paths(leaves, leaves.len() as int, at)
    }
}

/// The path by which each identifier reads a variable or a property of it.
pub open spec fn paths_of(func: HIRFunction, name: Seq<char>, globals: bool) -> Map<u32, Seq<char>> {
    let instrs = instructions(func);
    all_paths(root_paths(instrs, name, globals, instrs.len() as int), instrs)
}

proof fn lemma_all_variable_deps(
    func: HIRFunction,
    names: Seq<Seq<char>>,
    globals: bool,
    n: int,
    v: int,
    d: Seq<char>,
)
    requires
        0 <= v < n <= names.len(),
        variable_deps(func, names[v], globals, None).contains(d),
    ensures
        all_variable_deps(func, names, globals, None, n).contains(d),
    decreases n,
{
    let front = all_variable_deps(func, names, globals, None, n - 1);
    let more = variable_deps(func, names[n - 1], globals, None);
    let now = front + more;
    if v < n - 1 {
        lemma_all_variable_deps(func, names, globals, n - 1, v, d);
        let k = choose|k: int| 0 <= k < front.len() && front[k] == d;
        assert(now[k] == d);
    } else {
        let k = choose|k: int| 0 <= k < more.len() && more[k] == d;
        assert(now[front.len() + k] == d);
    }
}

/// A memoized result is computed anew whenever a parameter that was used has changed: where a function
/// uses one, otherwise than to load a property, one of its dependencies is the parameter or a path that
/// sees what is used. Results of hooks are dependencies too.
pub proof fn lemma_every_use_is_a_dependency(
    c: Ctx,
    func: HIRFunction,
    v: int,
    b: int,
    i: int,
    j: int,
) -> (d: Seq<char>)
    requires
        ({
            let names = param_names(func.params@, func.params@.len() as int);
            let blocks = func.body.blocks@;
            let instr = blocks[b].1.instructions@[i];
            &&& 0 <= v < names.len()
            &&& is_loaded(instructions(func), names[v], true)
            &&& 0 <= b < blocks.len()
            &&& 0 <= i < blocks[b].1.instructions@.len()
            &&& !(instr.value is PropertyLoad)
            &&& 0 <= j < operands(instr.value).len()
            &&& paths_of(func, names[v], true).contains_key(
                operands(instr.value)[j].identifier.id.0,
            )
        }),
    ensures
        ({
            let names = param_names(func.params@, func.params@.len() as int);
            let id = operands(func.body.blocks@[b].1.instructions@[i].value)[j].identifier.id.0;
            &&& reactive_deps(c, func, None).contains(d)
            &&& d == names[v] || sees(d, paths_of(func, names[v], true)[id])
        }),
{
    let names = param_names(func.params@, func.params@.len() as int);
    let k = lemma_variable_use_is_seen(func, names[v], true, b, i, j);
    let deps = variable_deps(func, names[v], true, None);
    let d = deps[k];
    assert(deps.contains(d));
    lemma_all_variable_deps(func, names, true, names.len() as int, v, d);
    let instrs = instructions(func);
    let hooks = all_hook_results(c, instrs, instrs.len() as int);
    let anon = sorted_once(anon_deps(func, None, func.params@.len() as int));
    let vars = all_variable_deps(func, names, true, None, names.len() as int);
    let at = choose|at: int| 0 <= at < vars.len() && vars[at] == d;
    assert((vars + anon)[at] == d);
    let all = push_all_new(vars + anon, hooks, hooks.len() as int);
    lemma_push_all_new(vars + anon, hooks, hooks.len() as int);
    assert(all.contains(d));
    lemma_sorted_once_holds(all);
    d
}

/// The result of a hook that can change is a dependency.
pub proof fn lemma_hook_result_is_a_dependency(c: Ctx, func: HIRFunction, i: int)
    requires
        0 <= i < all_hook_results(c, instructions(func), instructions(func).len() as int).len(),
    ensures
        reactive_deps(c, func, None).contains(
            all_hook_results(c, instructions(func), instructions(func).len() as int)[i],
        ),
{
    let names = param_names(func.params@, func.params@.len() as int);
    let instrs = instructions(func);
    let hooks = all_hook_results(c, instrs, instrs.len() as int);
    let anon = sorted_once(anon_deps(func, None, func.params@.len() as int));
    let vars = all_variable_deps(func, names, true, None, names.len() as int);
    lemma_push_all_new(vars + anon, hooks, hooks.len() as int);
    lemma_push_all_new(anon, hooks, hooks.len() as int);
    let all = push_all_new(vars + anon, hooks, hooks.len() as int);
    assert(all.contains(hooks[i]));
    lemma_sorted_once_holds(all);
}

// ---------------------------------------------------------------------------
// Paths
// ---------------------------------------------------------------------------

/// The text of a path is the name, and each property behind a dot; the dot of an optional one has a
/// question mark.
pub proof fn lemma_dotted_reads(name: Seq<char>, path: Seq<DependencyPathEntry>, n: int)
    requires
        0 < n <= path.len(),
    ensures
        dotted(name, path, 0) == name,
        dotted(name, path, n) == dotted(name, path, n - 1) + (if path[n - 1].optional {
            seq!['?', '.']
        } else {
            seq!['.']
        }) + path[n - 1].property@,
{
    reveal_strlit("?.");
    reveal_strlit(".");
    assert("?."@ =~= seq!['?', '.']);
    assert("."@ =~= seq!['.']);
}

proof fn lemma_with_scope_deps(deps: Seq<Seq<char>>, list: Seq<ReactiveScopeDependency>, n: int)
    requires
        0 <= n <= list.len(),
    ensures
        within(deps, with_scope_deps(deps, list, n)),
        forall|i: int|
            0 <= i < n ==> (identifier_text((#[trigger] list[i]).identifier) matches Some(name)
                ==> with_scope_deps(deps, list, n).contains(
                dotted(name, list[i].path@, list[i].path@.len() as int),
            )),
    decreases n,
{
    if n > 0 {
        lemma_with_scope_deps(deps, list, n - 1);
        let front = with_scope_deps(deps, list, n - 1);
        match identifier_text(list[n - 1].identifier) {
            Some(name) => lemma_push_new(
                front,
                dotted(name, list[n - 1].path@, list[n - 1].path@.len() as int),
            ),
            None => {},
        }
    }
}

/// Every dependency with a name of every scope is kept, where scopes with one number are one.
pub proof fn lemma_scope_dependencies_are_kept(instrs: Seq<Instruction>, n: int, i: int, j: int)
    requires
        0 <= i < n <= instrs.len(),
        instrs[i].lvalue.identifier.scope is Some,
        0 <= j < (instrs[i].lvalue.identifier.scope->0).dependencies@.len(),
        identifier_text(
            (instrs[i].lvalue.identifier.scope->0).dependencies@[j].identifier,
        ) is Some,
        forall|a: int, b: int|
            #![trigger instrs[a], instrs[b]]
            0 <= a < instrs.len() && 0 <= b < instrs.len()
                && instrs[a].lvalue.identifier.scope is Some
                && instrs[b].lvalue.identifier.scope is Some
                && (instrs[a].lvalue.identifier.scope->0).id
                == (instrs[b].lvalue.identifier.scope->0).id ==> instrs[a].lvalue.identifier.scope
                == instrs[b].lvalue.identifier.scope,
    ensures
        ({
            let d = (instrs[i].lvalue.identifier.scope->0).dependencies@[j];
            scope_deps_upto(instrs, n).0.contains(
                dotted(identifier_text(d.identifier)->0, d.path@, d.path@.len() as int),
            )
        }),
    decreases n,
{
    let front = scope_deps_upto(instrs, n - 1);
    let scope = instrs[i].lvalue.identifier.scope->0;
    let d = scope.dependencies@[j];
    match instrs[n - 1].lvalue.identifier.scope {
        Some(last) => {
            lemma_with_scope_deps(front.0, last.dependencies@, last.dependencies@.len() as int);
        },
        None => {},
    }
    if i < n - 1 {
        lemma_scope_dependencies_are_kept(instrs, n - 1, i, j);
    } else if front.1.contains(scope.id.0) {
        let k = lemma_known_scope(instrs, n - 1, scope.id.0);
        assert(instrs[k].lvalue.identifier.scope == instrs[i].lvalue.identifier.scope);
        lemma_scope_dependencies_are_kept(instrs, n - 1, k, j);
    }
}

proof fn lemma_known_scope(instrs: Seq<Instruction>, n: int, id: u32) -> (k: int)
    requires
        0 <= n <= instrs.len(),
        scope_deps_upto(instrs, n).1.contains(id),
    ensures
        0 <= k < n,
        instrs[k].lvalue.identifier.scope is Some,
        (instrs[k].lvalue.identifier.scope->0).id.0 == id,
    decreases n,
{
    if n <= 0 {
        0
    } else if scope_deps_upto(instrs, n - 1).1.contains(id) {
        lemma_known_scope(instrs, n - 1, id)
    } else {
        n - 1
    }
}

} // verus!

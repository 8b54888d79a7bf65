//! What holds of the code of every function.

use vstd::prelude::*;

use crate::codegen::analyze::{
    analyzed, exprs_known, names_known, outline_name, params_known, variable_names,
    with_promotions, Gen,
};
use crate::codegen::context::{next_number, temp_text, Ctx};
use crate::codegen::emit::function_lines;
use crate::codegen::escape::own_params;
use crate::codegen::inner::walk_of;
use crate::codegen::lines::{assign_stmt, cache_stmt, slot_loads, slot_stores, slot_sum, slot_text};
use crate::codegen::owned::owned_blocks;
use crate::codegen::scopes::{
    grouped, has_scope_id, scope_index, scope_inserted, scope_slots, scope_text, scopes_of,
    scopes_sorted, scopes_upto, slots_upto, tagged_blocks, with_groups, with_lets, Group, ScopeText,
    Written,
};
use crate::codegen::{generator_for, is_result, outlined_generator, CodegenResult};
use crate::collections::{free_name, lemma_free_name};
use crate::graph::instructions;
use crate::hir::{Argument, HIRFunction, Instruction};
use crate::text::{decimal, lemma_decimal_injective};

verus! {

proof fn lemma_promotions_keep(g: Gen, func: HIRFunction, n: int)
    ensures
        with_promotions(g, func, n).skip_memo == g.skip_memo,
        with_promotions(g, func, n).cache_var == g.cache_var,
    decreases n,
{
    if n > 0 {
        lemma_promotions_keep(g, func, n - 1);
    }
}

/// Looking through a function does not switch memoization on or off.
pub proof fn lemma_analysis_keeps_memoization(g: Gen, func: HIRFunction)
    ensures
        analyzed(g, func).skip_memo == g.skip_memo,
{
    let known = names_known(params_known(g, func), func);
    lemma_promotions_keep(exprs_known(known.0, func), func, func.body.blocks@.len() as int);
}

proof fn lemma_own_params_finite(params: Seq<Argument>, n: int)
    ensures
        own_params(params, n).finite(),
    decreases n,
{
    if n > 0 {
        lemma_own_params_finite(params, n - 1);
    }
}

/// The name of the cache is not used by the source.
pub proof fn lemma_cache_name_is_free(
    func: HIRFunction,
    temp_start: usize,
    skip_memo: bool,
    taken: Set<Seq<char>>,
)
    requires
        taken.finite(),
    ensures
        !taken.contains(analyzed(generator_for(temp_start, skip_memo, taken), func).cache_var),
{
    let g = generator_for(temp_start, skip_memo, taken);
    let known = names_known(params_known(g, func), func);
    lemma_promotions_keep(exprs_known(known.0, func), func, func.body.blocks@.len() as int);
    let instrs = instructions(func);
    let names = variable_names(instrs, instrs.len() as int);
    vstd::seq_lib::seq_to_set_is_finite(names);
    lemma_own_params_finite(func.params@, func.params@.len() as int);
    let own = names.to_set().union(own_params(func.params@, func.params@.len() as int));
    lemma_free_name("$"@, taken.union(own));
    assert(known.0.cache_var == free_name("$"@, taken.union(own)));
}

/// Without memoization a function takes no slots.
pub proof fn lemma_no_slots_without_memoization(g: Gen, func: HIRFunction)
    requires
        g.skip_memo,
    ensures
        function_lines(analyzed(g, func), func).1 == 0,
{
    lemma_analysis_keeps_memoization(g, func);
}

/// A result that was made without memoization has no cache and imports none.
pub proof fn lemma_result_without_memoization(
    r: CodegenResult,
    func: HIRFunction,
    temp_start: usize,
    taken: Set<Seq<char>>,
)
    requires
        is_result(r, analyzed(generator_for(temp_start, true, taken), func), func, temp_start),
    ensures
        r.cache_size == 0,
        !r.needs_cache_import,
{
    lemma_no_slots_without_memoization(generator_for(temp_start, true, taken), func);
}

/// A function that was moved out takes no slots.
pub proof fn lemma_outlined_takes_no_slots(func: HIRFunction)
    ensures
        function_lines(analyzed(outlined_generator(func), func), func).1 == 0,
{
    lemma_no_slots_without_memoization(outlined_generator(func), func);
}

/// The cache is imported where, and only where, it has slots.
pub proof fn lemma_import_iff_slots(r: CodegenResult, g: Gen, func: HIRFunction, temp_start: usize)
    requires
        is_result(r, g, func, temp_start),
    ensures
        r.needs_cache_import == (r.cache_size > 0),
{
}

proof fn lemma_lets_prefix(wr: Written, names: Seq<Seq<char>>, n: int)
    requires
        wr.lines.len() > 0,
    ensures
        with_lets(wr, names, n).lines.len() > 0,
        with_lets(wr, names, n).lines[0] == wr.lines[0],
    decreases n,
{
    if n > 0 {
        lemma_lets_prefix(wr, names, n - 1);
    }
}

proof fn lemma_groups_prefix(
    wr: Written,
    cache: Seq<char>,
    scopes: Seq<ScopeText>,
    groups: Seq<Group>,
    n: int,
)
    requires
        wr.lines.len() > 0,
    ensures
        with_groups(wr, cache, scopes, groups, n).lines.len() > 0,
        with_groups(wr, cache, scopes, groups, n).lines[0] == wr.lines[0],
    decreases n,
{
    if n > 0 {
        lemma_groups_prefix(wr, cache, scopes, groups, n - 1);
        let front = with_groups(wr, cache, scopes, groups, n - 1);
        let g = groups[n - 1];
        if let Some(id) = g.scope {
            let k = scope_index(scopes, id, 0);
            let unnamed = scopes[k].names.len() == 0;
            let names = if unnamed {
                seq![temp_text(front.counter as nat)]
            } else {
                scopes[k].names
            };
            lemma_lets_prefix(
                Written {
                    counter: if unnamed {
                        next_number(front.counter)
                    } else {
                        front.counter
                    },
                    ..front
                },
                names,
                names.len() as int,
            );
        }
    }
}

/// Where a function takes slots, its first line declares a cache with that many.
pub proof fn lemma_cache_is_declared_first(g: Gen, func: HIRFunction)
    ensures
        ({
            let out = function_lines(g, func);
            out.1 > 0 ==> out.0.len() > 0 && out.0[0] == (1nat, cache_stmt(g.cache_var, out.1))
        }),
{
    if !g.skip_memo && scopes_of(g.c, func).len() > 1 {
        let scopes = scopes_of(g.c, func);
        let w = walk_of(g.c, func);
        let tagged = tagged_blocks(
            w,
            owned_blocks(w.blocks, None),
            w.blocks.len() as int,
        );
        let groups = grouped(tagged.0);
        let total = slots_upto(scopes, scopes.len() as int);
        let first = Written {
            lines: seq![(1nat, cache_stmt(g.cache_var, total))],
            counter: g.c.counter,
            declared: g.c.declared,
        };
        lemma_groups_prefix(first, g.cache_var, scopes, groups, groups.len() as int);
    }
}

/// The slots of the scopes of a function lie one behind the other: those of a scope end where those of
/// the next one begin, while there are numbers left.
pub proof fn lemma_scopes_have_own_slots(scopes: Seq<ScopeText>, i: int, j: int)
    requires
        0 <= i < j <= scopes.len(),
    ensures
        slot_sum(slots_upto(scopes, i), scope_slots(scopes[i])) == slots_upto(scopes, i + 1),
        slots_upto(scopes, i + 1) <= slots_upto(scopes, j),
    decreases j,
{
    if j > i + 1 {
        lemma_scopes_have_own_slots(scopes, i, j - 1);
    }
}

/// What a memoized block stores in a slot is loaded from the same slot again.
pub proof fn lemma_stored_is_loaded(cache: Seq<char>, start: u64, names: Seq<Seq<char>>, i: int)
    requires
        0 <= i < names.len(),
    ensures
        slot_stores(cache, start, names).len() == slot_loads(cache, start, names).len(),
        ({
            let slot = slot_text(cache, slot_sum(start, i as u64));
            &&& slot_stores(cache, start, names)[i] == assign_stmt(slot, names[i])
            &&& slot_loads(cache, start, names)[i] == assign_stmt(names[i], slot)
        }),
{
}

/// Two functions that are moved out have different names.
pub proof fn lemma_outlined_names_differ(a: nat, b: nat)
    requires
        outline_name(a) == outline_name(b),
        1 <= a,
        1 <= b,
    ensures
        a == b,
{
    let base = "_temp"@;
    if a > 1 && b > 1 {
        assert(outline_name(a).skip(base.len() as int) =~= decimal(a));
        assert(outline_name(b).skip(base.len() as int) =~= decimal(b));
        lemma_decimal_injective(a, b);
    } else if a > 1 || b > 1 {
        lemma_decimal_not_empty(a);
        lemma_decimal_not_empty(b);
        assert(outline_name(a).len() == outline_name(b).len());
    }
}

proof fn lemma_decimal_not_empty(n: nat)
    ensures
        decimal(n).len() > 0,
{
}

proof fn lemma_scope_inserted(s: Seq<ScopeText>, x: ScopeText)
    requires
        forall|i: int, j: int| 0 <= i <= j < s.len() ==> (#[trigger] s[i]).start <= (#[trigger] s[j]).start,
    ensures
        ({
            let r = scope_inserted(s, x);
            &&& r.len() == s.len() + 1
            &&& forall|i: int, j: int|
                0 <= i <= j < r.len() ==> (#[trigger] r[i]).start <= (#[trigger] r[j]).start
            &&& forall|i: int| 0 <= i < r.len() ==> #[trigger] r[i] == x || s.contains(r[i])
            &&& exists|k: int| 0 <= k <= s.len() && r == #[trigger] s.insert(k, x)
        }),
    decreases s.len(),
{
    let r = scope_inserted(s, x);
    if s.len() > 0 && x.start < s.last().start {
        let front = s.drop_last();
        lemma_scope_inserted(front, x);
        let k = choose|k: int|
            0 <= k <= front.len() && scope_inserted(front, x) == #[trigger] front.insert(k, x);
        assert(r =~= s.insert(k, x));
        let f = scope_inserted(front, x);
        assert forall|i: int| 0 <= i < r.len() implies #[trigger] r[i] == x || s.contains(r[i]) by {
            if i < f.len() {
                assert(r[i] == f[i]);
                if f[i] != x {
                    let m = choose|m: int| 0 <= m < front.len() && front[m] == f[i];
                    assert(s[m] == r[i]);
                }
            } else {
                assert(r[i] == s.last());
                assert(s[s.len() - 1] == r[i]);
            }
        }
        assert forall|i: int, j: int| 0 <= i <= j < r.len() implies (#[trigger] r[i]).start <= (
        #[trigger] r[j]).start by {
            if j < f.len() {
                assert(r[i] == f[i] && r[j] == f[j]);
            } else if i < f.len() {
                assert(r[i] == f[i]);
                if f[i] != x {
                    let m = choose|m: int| 0 <= m < front.len() && front[m] == f[i];
                    assert(s[m] == r[i] && s[s.len() - 1] == r[j]);
                }
            }
        }
    } else {
        assert(r =~= s.insert(s.len() as int, x));
        assert forall|i: int| 0 <= i < r.len() implies #[trigger] r[i] == x || s.contains(r[i]) by {
            if i < s.len() {
                assert(s[i] == r[i]);
            }
        }
        assert forall|i: int, j: int| 0 <= i <= j < r.len() implies (#[trigger] r[i]).start <= (
        #[trigger] r[j]).start by {
            if i < s.len() && j == s.len() {
                assert(s[i].start <= s[s.len() - 1].start);
            }
        }
    }
}

/// Whether no two scopes of a list are the same one.
pub open spec fn all_differ(s: Seq<ScopeText>) -> bool {
    forall|i: int, j: int| 0 <= i < j < s.len() ==> (#[trigger] s[i]).id != (#[trigger] s[j]).id
}

proof fn lemma_scopes_upto_differ(c: Ctx, instrs: Seq<Instruction>, n: int)
    ensures
        all_differ(scopes_upto(c, instrs, n)),
    decreases n,
{
    if n > 0 {
        lemma_scopes_upto_differ(c, instrs, n - 1);
        let front = scopes_upto(c, instrs, n - 1);
        if let Some(scope) = instrs[n - 1].lvalue.identifier.scope {
            if !has_scope_id(front, scope.id.0) {
                let s = front.push(scope_text(c, *scope));
                assert forall|i: int, j: int| 0 <= i < j < s.len() implies (#[trigger] s[i]).id != (
                #[trigger] s[j]).id by {
                    assert(s[i] == front[i]);
                    if j < front.len() {
                        assert(s[j] == front[j]);
                    }
                }
            }
        }
    }
}

proof fn lemma_scopes_sorted(all: Seq<ScopeText>, n: int)
    requires
        0 <= n <= all.len(),
        all_differ(all),
    ensures
        ({
            let r = scopes_sorted(all, n);
            &&& r.len() == n
            &&& all_differ(r)
            &&& forall|i: int, j: int|
                0 <= i <= j < r.len() ==> (#[trigger] r[i]).start <= (#[trigger] r[j]).start
            &&& forall|i: int| 0 <= i < r.len() ==> all.take(n).contains(#[trigger] r[i])
        }),
    decreases n,
{
    if n > 0 {
        lemma_scopes_sorted(all, n - 1);
        let front = scopes_sorted(all, n - 1);
        let x = all[n - 1];
        lemma_scope_inserted(front, x);
        let r = scope_inserted(front, x);
        let k = choose|k: int| 0 <= k <= front.len() && r == #[trigger] front.insert(k, x);
        assert forall|i: int| 0 <= i < front.len() implies (#[trigger] front[i]).id != x.id by {
            let before = all.take(n - 1);
            assert(before.contains(front[i]));
            let m = choose|m: int| 0 <= m < before.len() && before[m] == front[i];
            assert(all[m] == front[i]);
        }
        assert forall|i: int, j: int| 0 <= i < j < r.len() implies (#[trigger] r[i]).id != (
        #[trigger] r[j]).id by {
            if i == k {
                assert(r[j] == front[j - 1]);
            } else if j == k {
                assert(r[i] == front[i]);
            } else {
                let a = if i < k {
                    i
                } else {
                    i - 1
                };
                let b = if j < k {
                    j
                } else {
                    j - 1
                };
                assert(r[i] == front[a] && r[j] == front[b]);
            }
        }
        assert forall|i: int| 0 <= i < r.len() implies all.take(n).contains(#[trigger] r[i]) by {
            if r[i] == x {
                assert(all.take(n)[n - 1] == x);
            } else {
                let m = choose|m: int| 0 <= m < front.len() && front[m] == r[i];
                let before = all.take(n - 1);
                assert(before.contains(front[m]));
                let p = choose|p: int| 0 <= p < before.len() && before[p] == front[m];
                assert(all.take(n)[p] == r[i]);
            }
        }
    }
}

/// The scopes of a function are all different, and come in the order in which they start.
pub proof fn lemma_scopes_are_unique(c: Ctx, func: HIRFunction)
    ensures
        all_differ(scopes_of(c, func)),
        forall|i: int, j: int|
            0 <= i <= j < scopes_of(c, func).len() ==> (#[trigger] scopes_of(c, func)[i]).start <= (
            #[trigger] scopes_of(c, func)[j]).start,
{
    let instrs = instructions(func);
    let all = scopes_upto(c, instrs, instrs.len() as int);
    lemma_scopes_upto_differ(c, instrs, instrs.len() as int);
    lemma_scopes_sorted(all, all.len() as int);
}

} // verus!

//! What the passes together keep of a kernel: its effects beside vector registers.
use vstd::prelude::*;

use crate::combine::{combined, combined_op, products_at};
use crate::compile::CoalescedGroup;
use crate::fold::{
    effects, folded, folded_op, known_at, lemma_needed_keeps_effects, only_vregs, sources,
};
use crate::ir::{Op, OpOf};
use crate::loops::{
    bumps, counter_of, first_values, hoist_one, hoist_spans, invariant_at, invariants, multiple,
    plain, reduce_one, reduce_spans, reducible, unreduced, variants,
};
use crate::opt_passes::{
    OptConfig, Passes, after_cleaning, after_coalescing, after_combining, after_copies, after_cse,
    after_folding, after_hoisting, after_reduction, after_simplifying, after_unrolling, after_waits,
    backedges, clean_removed, clean_simplified, cleaned, closes_loop, closes_some_loop,
    coalescing_keeps_accesses, copies, header_of, lemma_backedges, loop_spans, max_vreg, optimized,
    private_ids, renamed_body, renamed_op, schedule_is_permutation, steps, unroll_copies,
    unroll_one, unroll_without_loops_is_identity,
};
use crate::simplify::{
    Copied, copies_at, kept_or_propagated, propagated, propagated_op, simple_known, simpler_op,
    simplified,
};
use crate::subexpr::{held_at, reduced_op, without_common};
use crate::waits::{no_waits, only_waits_go, without_idle_waits};

verus! {

/// Whether two operations have the same effect: they are the same, or one reads the operands
/// of the other from registers that those are copies of.
pub open spec fn alike(a: Op, b: Op) -> bool {
    a == b || exists|copies: Seq<Copied>| b == #[trigger] propagated_op(a, copies)
}

/// Whether operations have the same effects, one by one.
pub open spec fn all_alike(a: Seq<Op>, b: Seq<Op>) -> bool {
    a.len() == b.len() && forall|i: int| 0 <= i < a.len() ==> alike(#[trigger] a[i], b[i])
}

/// Operations of which one by one only vector registers differ have the same effects.
proof fn lemma_alike(a: Seq<Op>, b: Seq<Op>)
    requires
        a.len() == b.len(),
        forall|i: int|
            0 <= i < a.len() ==> only_vregs(#[trigger] a[i]) == only_vregs(b[i]) && (only_vregs(
                a[i],
            ) || alike(a[i], b[i])),
    ensures
        all_alike(effects(a), effects(b)),
    decreases a.len(),
{
    if a.len() > 0 {
        let (x, y) = (a.drop_last(), b.drop_last());
        assert forall|i: int| 0 <= i < x.len() implies only_vregs(#[trigger] x[i]) == only_vregs(
            y[i],
        ) && (only_vregs(x[i]) || alike(x[i], y[i])) by {
            assert(x[i] == a[i] && y[i] == b[i]);
        }
        lemma_alike(x, y);
        assert(a[a.len() - 1] == a.last() && b[b.len() - 1] == b.last());
    }
}

/// The same where nothing but operations on vector registers differs.
proof fn lemma_same(a: Seq<Op>, b: Seq<Op>)
    requires
        a.len() == b.len(),
        forall|i: int|
            0 <= i < a.len() ==> only_vregs(#[trigger] a[i]) == only_vregs(b[i]) && (only_vregs(
                a[i],
            ) || a[i] == b[i]),
    ensures
        effects(a) == effects(b),
    decreases a.len(),
{
    if a.len() > 0 {
        let (x, y) = (a.drop_last(), b.drop_last());
        assert forall|i: int| 0 <= i < x.len() implies only_vregs(#[trigger] x[i]) == only_vregs(
            y[i],
        ) && (only_vregs(x[i]) || x[i] == y[i]) by {
            assert(x[i] == a[i] && y[i] == b[i]);
        }
        lemma_same(x, y);
        assert(a[a.len() - 1] == a.last() && b[b.len() - 1] == b.last());
    }
}

/// The effects of one sequence behind another.
proof fn lemma_concat(a: Seq<Op>, b: Seq<Op>)
    ensures
        effects(a + b) == effects(a) + effects(b),
    decreases b.len(),
{
    if b.len() == 0 {
        assert(a + b =~= a);
        assert(effects(a) + effects(b) =~= effects(a));
    } else {
        lemma_concat(a, b.drop_last());
        assert((a + b).drop_last() =~= a + b.drop_last());
        assert(effects(a + b) =~= effects(a) + effects(b));
    }
}

/// Operations on vector registers alone have no effects.
proof fn lemma_none(a: Seq<Op>)
    requires
        forall|i: int| 0 <= i < a.len() ==> only_vregs(#[trigger] a[i]),
    ensures
        effects(a) == Seq::<Op>::empty(),
    decreases a.len(),
{
    if a.len() > 0 {
        assert forall|i: int| 0 <= i < a.drop_last().len() implies only_vregs(
            #[trigger] a.drop_last()[i],
        ) by {
            assert(a.drop_last()[i] == a[i]);
        }
        lemma_none(a.drop_last());
        assert(a[a.len() - 1] == a.last());
    }
}

/// An operation on two sources, and other plain ones, change vector registers only.
proof fn lemma_plain(op: Op)
    requires
        plain(op) || op is VMovFromSgpr,
    ensures
        only_vregs(op),
{
}

proof fn lemma_folded(ops: Seq<Op>)
    ensures
        effects(folded(ops)) == effects(ops),
{
    assert forall|i: int| 0 <= i < ops.len() implies only_vregs(#[trigger] folded(ops)[i])
        == only_vregs(ops[i]) && (only_vregs(folded(ops)[i]) || folded(ops)[i] == ops[i]) by {
        let op = folded_op(ops[i], known_at(ops, i));
        if op != ops[i] {
            lemma_plain(ops[i]);
            lemma_plain(op);
        }
    }
    lemma_same(folded(ops), ops);
}

proof fn lemma_simplified(ops: Seq<Op>)
    ensures
        effects(simplified(ops)) == effects(ops),
{
    assert forall|i: int| 0 <= i < ops.len() implies only_vregs(#[trigger] simplified(ops)[i])
        == only_vregs(ops[i]) && (only_vregs(simplified(ops)[i]) || simplified(ops)[i]
        == ops[i]) by {
        let op = simpler_op(ops[i], simple_known(ops, i));
        if op != ops[i] {
            lemma_plain(ops[i]);
            lemma_plain(op);
        }
    }
    lemma_same(simplified(ops), ops);
}

proof fn lemma_common(ops: Seq<Op>)
    ensures
        effects(without_common(ops)) == effects(ops),
{
    let out = without_common(ops);
    assert forall|i: int| 0 <= i < ops.len() implies only_vregs(#[trigger] out[i]) == only_vregs(
        ops[i],
    ) && (only_vregs(out[i]) || out[i] == ops[i]) by {
        let op = reduced_op(ops[i], held_at(ops, i));
        if op != ops[i] {
            lemma_plain(ops[i]);
            lemma_plain(op);
        }
    }
    lemma_same(out, ops);
}

proof fn lemma_combined(ops: Seq<Op>)
    ensures
        effects(combined(ops)) == effects(ops),
{
    assert forall|i: int| 0 <= i < ops.len() implies only_vregs(#[trigger] combined(ops)[i])
        == only_vregs(ops[i]) && (only_vregs(combined(ops)[i]) || combined(ops)[i] == ops[i]) by {
        let op = combined_op(ops[i], products_at(ops, i));
        if op != ops[i] {
            lemma_plain(ops[i]);
            lemma_plain(op);
        }
    }
    lemma_same(combined(ops), ops);
}

#[verifier::spinoff_prover]
proof fn lemma_propagated_op(op: Op, copies: Seq<Copied>)
    ensures
        only_vregs(propagated_op(op, copies)) == only_vregs(op),
{
}

proof fn lemma_propagated(ops: Seq<Op>, groups: Seq<CoalescedGroup>)
    ensures
        all_alike(effects(ops), effects(propagated(ops, groups))),
{
    let out = propagated(ops, groups);
    assert forall|i: int| 0 <= i < ops.len() implies only_vregs(#[trigger] ops[i]) == only_vregs(
        out[i],
    ) && (only_vregs(ops[i]) || alike(ops[i], out[i])) by {
        let copies = copies_at(ops, i, groups);
        assert(out[i] == kept_or_propagated(ops[i], copies, groups));
        lemma_propagated_op(ops[i], copies);
    }
    lemma_alike(ops, out);
}

/// Whether spans are of loops in operations of a length.
spec fn spans_fit(spans: Seq<(int, int)>, len: nat) -> bool {
    forall|k: int|
        0 <= k < spans.len() ==> 0 <= (#[trigger] spans[k]).0 && spans[k].0 + 3 <= spans[k].1 - 1
            && spans[k].1 < len
}

proof fn lemma_spans(ops: Seq<Op>)
    ensures
        spans_fit(loop_spans(ops), ops.len()),
{
    let all = backedges(ops, ops.len() as int);
    let spans = loop_spans(ops);
    lemma_backedges(ops, ops.len() as int);
    assert forall|k: int| 0 <= k < spans.len() implies 0 <= (#[trigger] spans[k]).0 && spans[k].0
        + 3 <= spans[k].1 - 1 && spans[k].1 < ops.len() by {
        let i = all[k];
        assert(closes_some_loop(ops, i));
        assert(closes_loop(ops, header_of(ops, i), i));
    }
}

proof fn lemma_hoisted_parts(ops: Seq<Op>, h: int, i: int, n: int)
    requires
        0 <= h,
        h + 3 <= n <= i - 1,
        i < ops.len(),
    ensures
        effects(invariants(ops, h, i, n)) == Seq::<Op>::empty(),
        effects(variants(ops, h, i, n)) == effects(ops.subrange(h + 3, n)),
        invariants(ops, h, i, n).len() + variants(ops, h, i, n).len() == n - (h + 3),
    decreases n,
{
    if n > h + 3 {
        lemma_hoisted_parts(ops, h, i, n - 1);
        let now = ops.subrange(h + 3, n);
        assert(now.drop_last() =~= ops.subrange(h + 3, n - 1));
        assert(now.last() == ops[n - 1]);
        if invariant_at(ops, h, i, n - 1) {
            lemma_plain(ops[n - 1]);
            let rest = invariants(ops, h, i, n - 1);
            assert(rest.push(ops[n - 1]).drop_last() =~= rest);
        } else {
            let rest = variants(ops, h, i, n - 1);
            assert(rest.push(ops[n - 1]).drop_last() =~= rest);
        }
    } else {
        assert(ops.subrange(h + 3, n) =~= Seq::empty());
    }
}

proof fn lemma_hoist_one(ops: Seq<Op>, h: int, i: int)
    requires
        0 <= h,
        h + 3 <= i - 1,
        i < ops.len(),
    ensures
        effects(hoist_one(ops, h, i)) == effects(ops),
        hoist_one(ops, h, i).len() == ops.len(),
{
    let front = ops.subrange(0, h);
    let test = ops.subrange(h, h + 3);
    let body = ops.subrange(h + 3, i - 1);
    let end = ops.subrange(i - 1, ops.len() as int);
    let moved = invariants(ops, h, i, i - 1);
    let rest = variants(ops, h, i, i - 1);
    lemma_hoisted_parts(ops, h, i, i - 1);
    assert(ops =~= front + test + body + end);
    lemma_concat(front, test);
    lemma_concat(front + test, body);
    lemma_concat(front + test + body, end);
    lemma_concat(front, moved);
    lemma_concat(front + moved, test);
    lemma_concat(front + moved + test, rest);
    lemma_concat(front + moved + test + rest, end);
    assert(effects(hoist_one(ops, h, i)) =~= effects(ops));
}

proof fn lemma_hoisted(ops: Seq<Op>, spans: Seq<(int, int)>)
    requires
        spans_fit(spans, ops.len()),
    ensures
        effects(hoist_spans(ops, spans).0) == effects(ops),
    decreases spans.len(),
{
    if spans.len() > 0 {
        let (h, i) = spans[spans.len() - 1];
        lemma_hoist_one(ops, h, i);
        let next = hoist_one(ops, h, i);
        assert forall|k: int| 0 <= k < spans.drop_last().len() implies 0 <= (
        #[trigger] spans.drop_last()[k]).0 && spans.drop_last()[k].0 + 3 <= spans.drop_last()[k].1
            - 1 && spans.drop_last()[k].1 < next.len() by {
            assert(spans.drop_last()[k] == spans[k]);
        }
        lemma_hoisted(next, spans.drop_last());
    }
}

proof fn lemma_reduced_parts(ops: Seq<Op>, h: int, i: int, n: int)
    requires
        0 <= h,
        h + 3 <= n <= i - 1,
        i < ops.len(),
    ensures
        effects(first_values(ops, h, i, n)) == Seq::<Op>::empty(),
        effects(bumps(ops, h, i, n)) == Seq::<Op>::empty(),
        effects(unreduced(ops, h, i, n)) == effects(ops.subrange(h + 3, n)),
        first_values(ops, h, i, n).len() + unreduced(ops, h, i, n).len() + bumps(
            ops,
            h,
            i,
            n,
        ).len() >= n - (h + 3),
    decreases n,
{
    if n > h + 3 {
        lemma_reduced_parts(ops, h, i, n - 1);
        let now = ops.subrange(h + 3, n);
        assert(now.drop_last() =~= ops.subrange(h + 3, n - 1));
        assert(now.last() == ops[n - 1]);
        if reducible(ops, h, i, n - 1) {
            let (counter, step) = counter_of(ops, i);
            let (dst, _, scale, bump) = multiple(ops[n - 1], step)->0;
            let bring: Op = OpOf::VMovFromSgpr { dst, src: counter };
            lemma_plain(ops[n - 1]);
            lemma_plain(bring);
            lemma_plain(scale);
            lemma_plain(bump);
            let first = first_values(ops, h, i, n - 1);
            assert(first.push(bring).drop_last() =~= first);
            assert(effects(first.push(bring)) == effects(first));
            assert(first.push(bring).push(scale).drop_last() =~= first.push(bring));
            assert(effects(first.push(bring).push(scale)) == effects(first.push(bring)));
            let rest = bumps(ops, h, i, n - 1);
            assert(rest.push(bump).drop_last() =~= rest);
        } else {
            let rest = unreduced(ops, h, i, n - 1);
            assert(rest.push(ops[n - 1]).drop_last() =~= rest);
        }
    } else {
        assert(ops.subrange(h + 3, n) =~= Seq::empty());
    }
}

proof fn lemma_reduce_one(ops: Seq<Op>, h: int, i: int)
    requires
        0 <= h,
        h + 3 <= i - 1,
        i < ops.len(),
    ensures
        effects(reduce_one(ops, h, i)) == effects(ops),
        reduce_one(ops, h, i).len() >= ops.len(),
{
    let front = ops.subrange(0, h);
    let test = ops.subrange(h, h + 3);
    let body = ops.subrange(h + 3, i - 1);
    let end = ops.subrange(i - 1, ops.len() as int);
    let first = first_values(ops, h, i, i - 1);
    let rest = unreduced(ops, h, i, i - 1);
    let more = bumps(ops, h, i, i - 1);
    lemma_reduced_parts(ops, h, i, i - 1);
    assert(ops =~= front + test + body + end);
    lemma_concat(front, test);
    lemma_concat(front + test, body);
    lemma_concat(front + test + body, end);
    lemma_concat(front, first);
    lemma_concat(front + first, test);
    lemma_concat(front + first + test, rest);
    lemma_concat(front + first + test + rest, more);
    lemma_concat(front + first + test + rest + more, end);
    assert(effects(reduce_one(ops, h, i)) =~= effects(ops));
}

proof fn lemma_reduced(ops: Seq<Op>, spans: Seq<(int, int)>)
    requires
        spans_fit(spans, ops.len()),
    ensures
        effects(reduce_spans(ops, spans).0) == effects(ops),
    decreases spans.len(),
{
    if spans.len() > 0 {
        let (h, i) = spans[spans.len() - 1];
        lemma_reduce_one(ops, h, i);
        let next = reduce_one(ops, h, i);
        assert forall|k: int| 0 <= k < spans.drop_last().len() implies 0 <= (
        #[trigger] spans.drop_last()[k]).0 && spans.drop_last()[k].0 + 3 <= spans.drop_last()[k].1
            - 1 && spans.drop_last()[k].1 < next.len() by {
            assert(spans.drop_last()[k] == spans[k]);
        }
        lemma_reduced(next, spans.drop_last());
    }
}

proof fn lemma_cleaned(ops: Seq<Op>, groups: Seq<CoalescedGroup>, p: Passes, rounds: nat)
    ensures
        effects(cleaned(ops, groups, p, rounds).0) == effects(ops),
    decreases rounds,
{
    if rounds > 0 {
        let simple = clean_simplified(ops, p);
        let less = clean_removed(simple, groups, p);
        lemma_simplified(ops);
        lemma_needed_keeps_effects(simple, simple, groups);
        lemma_cleaned(less, groups, p, (rounds - 1) as nat);
    }
}

/// The passes up to unrolling keep the effects of a kernel, in order: every operation that does
/// more than to write vector registers stays, or reads an operand from the register that it is
/// a copy of.
pub proof fn first_passes_keep_effects(
    ops: Seq<Op>,
    groups: Seq<CoalescedGroup>,
    c: OptConfig,
)
    ensures
        all_alike(effects(ops), effects(after_hoisting(ops, groups, c).0)),
{
    lemma_folded(ops);
    lemma_simplified(after_folding(ops, c));
    let simple = after_simplifying(ops, c);
    assert(effects(simple) == effects(ops));
    lemma_propagated(simple, groups);
    lemma_common(after_copies(ops, groups, c));
    lemma_combined(after_cse(ops, groups, c));
    let before = after_combining(ops, groups, c);
    lemma_spans(before);
    lemma_hoisted(before, loop_spans(before));
}

/// The passes behind unrolling keep the effects: strength reduction, simplification and the
/// removal of dead operations keep every operation that does more than to write vector
/// registers; the removal of waits takes nothing but waits; coalescing keeps every access to
/// memory; and scheduling keeps every operation.
pub proof fn last_passes_keep_effects(
    ops: Seq<Op>,
    groups: Seq<CoalescedGroup>,
    c: OptConfig,
)
    ensures
        effects(after_cleaning(ops, groups, c).0) == effects(after_unrolling(ops, groups, c).0),
        no_waits(after_waits(ops, groups, c)) == no_waits(after_cleaning(ops, groups, c).0),
        steps(after_coalescing(ops, groups, c)) == steps(after_waits(ops, groups, c)),
        optimized(ops, groups, c).0.to_multiset() == after_coalescing(
            ops,
            groups,
            c,
        ).to_multiset(),
{
    let unrolled = after_unrolling(ops, groups, c).0;
    lemma_spans(unrolled);
    lemma_reduced(unrolled, loop_spans(unrolled));
    let reduced = after_reduction(ops, groups, c).0;
    lemma_cleaned(reduced, groups, c.passes, crate::opt_passes::CLEAN_ROUNDS as nat);
    only_waits_go(after_cleaning(ops, groups, c).0);
    coalescing_keeps_accesses(after_waits(ops, groups, c));
    schedule_is_permutation(after_coalescing(ops, groups, c));
}

/// Renaming vector registers changes nothing else.
#[verifier::spinoff_prover]
#[verifier::rlimit(60)]
proof fn lemma_renamed_op(op: Op, delta: u32, set: Set<u32>)
    ensures
        only_vregs(renamed_op(op, delta, set)) == only_vregs(op),
{
}

proof fn lemma_renamed(body: Seq<Op>, delta: u32, set: Set<u32>)
    ensures
        effects(renamed_body(body, delta, set)) == renamed_body(effects(body), delta, set),
    decreases body.len(),
{
    let out = renamed_body(body, delta, set);
    if body.len() == 0 {
        assert(out =~= Seq::empty());
        assert(renamed_body(effects(body), delta, set) =~= Seq::empty());
    } else {
        let init = body.drop_last();
        lemma_renamed(init, delta, set);
        lemma_renamed_op(body.last(), delta, set);
        assert(out.drop_last() =~= renamed_body(init, delta, set));
        assert(out.last() == renamed_op(body.last(), delta, set));
        assert(effects(out) =~= renamed_body(effects(body), delta, set));
    }
}

proof fn lemma_copies(
    test: Seq<Op>,
    body: Seq<Op>,
    latch: Op,
    n: nat,
    stride: nat,
    set: Set<u32>,
)
    requires
        !only_vregs(latch),
        effects(test) == test,
    ensures
        effects(copies(test, body, latch, n, stride, set)) == copies(
            test,
            effects(body),
            latch,
            n,
            stride,
            set,
        ),
    decreases n,
{
    let all = copies(test, body, latch, n, stride, set);
    if n == 1 {
        assert(all.drop_last() =~= body);
    } else if n > 1 {
        let before = copies(test, body, latch, (n - 1) as nat, stride, set);
        let delta = (stride * (n - 1)) as u32;
        let last = renamed_body(body, delta, set);
        lemma_copies(test, body, latch, (n - 1) as nat, stride, set);
        lemma_renamed(body, delta, set);
        assert(last.push(latch).drop_last() =~= last);
        assert(effects(last.push(latch)) == effects(last).push(latch));
        lemma_concat(before, test);
        lemma_concat(before + test, last.push(latch));
    }
}

/// Unrolling a loop repeats the effects of a round in each copy, with the loop's test in front
/// of all but the first, and keeps all others.
pub proof fn unrolling_repeats_effects(ops: Seq<Op>, h: int, i: int)
    requires
        closes_loop(ops, h, i),
    ensures
        effects(unroll_one(ops, h, i)) == effects(ops.take(h + 3)) + copies(
            ops.subrange(h + 1, h + 3),
            effects(ops.subrange(h + 3, i - 1)),
            ops[i - 1],
            unroll_copies(ops, h, i),
            max_vreg(ops) + 1,
            private_ids(ops, h + 3, i - 1),
        ) + effects(ops.skip(i)),
{
    let front = ops.take(h + 3);
    let test = ops.subrange(h + 1, h + 3);
    let body = ops.subrange(h + 3, i - 1);
    let latch = ops[i - 1];
    let n = unroll_copies(ops, h, i);
    let stride = max_vreg(ops) + 1;
    let set = private_ids(ops, h + 3, i - 1);
    let rest = ops.skip(i);
    let all = copies(test, body, latch, n, stride, set);
    assert(effects(test) == test) by {
        assert(test[0] == ops[h + 1] && test[1] == ops[h + 2]);
        assert(test.drop_last() =~= seq![test[0]]);
        assert(test.drop_last().drop_last() =~= Seq::empty());
        assert(effects(test.drop_last().drop_last()) =~= Seq::empty());
        assert(effects(test.drop_last()) =~= test.drop_last());
        assert(effects(test) =~= test);
    }
    lemma_copies(test, body, latch, n, stride, set);
    lemma_concat(front, all);
    lemma_concat(front + all, rest);
    assert(unroll_one(ops, h, i) =~= front + all + rest);
}

/// All passes together keep the effects of a kernel none of whose loops is unrolled. Up to the
/// removal of waits its operations with effects stay, in order; and with waits, merged accesses
/// and scheduling apart, that is what comes out. Unrolling repeats the effects of rounds.
pub proof fn optimizing_keeps_effects(
    ops: Seq<Op>,
    groups: Seq<CoalescedGroup>,
    c: OptConfig,
)
    requires
        after_unrolling(ops, groups, c).1 == 0,
    ensures
        all_alike(effects(ops), effects(after_cleaning(ops, groups, c).0)),
        c.level < 3 ==> all_alike(effects(ops), effects(optimized(ops, groups, c).0)),
        no_waits(after_waits(ops, groups, c)) == no_waits(after_cleaning(ops, groups, c).0),
        steps(after_coalescing(ops, groups, c)) == steps(after_waits(ops, groups, c)),
        optimized(ops, groups, c).0.to_multiset() == after_coalescing(
            ops,
            groups,
            c,
        ).to_multiset(),
{
    first_passes_keep_effects(ops, groups, c);
    last_passes_keep_effects(ops, groups, c);
    let before = after_hoisting(ops, groups, c).0;
    if c.level >= 2 {
        unroll_without_loops_is_identity(before, loop_spans(before));
    }
}

} // verus!

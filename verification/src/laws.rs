//! Proved properties of the difference algorithm.

use crate::model::{
    cell_or_zero, diag_match, obj_acc_init, ops_acc_init, spec_added, spec_arr_diff,
    spec_backtrack, spec_cell, spec_fold_ops, spec_obj_diff, spec_obj_scan, spec_value_diff,
    step_count, ObjAcc, OpsAcc, Sign, SpecOp,
};
use crate::rat::{
    lemma_rat_add_bound, lemma_rat_bound_mono, lemma_rat_div_bound, lemma_rat_half_credit_bound,
    rat_one, rat_zero, spec_rat_add, spec_rat_le,
};
use crate::value::{
    empty_object, height, height_elems, height_fields, lemma_deep_eq_refl, wf, SpecValue,
};
use vstd::prelude::*;

verus! {

broadcast use {crate::value::lemma_height_elem, crate::value::lemma_height_field};

/// Law: diffing any well-formed value against itself yields the empty
/// object and similarity one, at any nesting depth.
pub proof fn lemma_value_diff_self(v: SpecValue)
    requires
        wf(v),
    ensures
        spec_value_diff(v, v) == Some((empty_object(), rat_one())),
{
    lemma_deep_eq_refl(v);
}

/// Law: when the backtrack does not take the diagonal and the cell to the
/// left is at least the cell above — in particular on a tie — the
/// operation emitted at `(i, j)` is an insertion, never a deletion.
pub proof fn lemma_tie_prefers_insertion(sa: Seq<SpecValue>, sb: Seq<SpecValue>, i: int, j: int)
    requires
        0 <= i <= sa.len(),
        1 <= j <= sb.len(),
        !(i > 0 && diag_match(sa, sb, i, j)),
        spec_rat_le(cell_or_zero(sa, sb, i - 1, j), cell_or_zero(sa, sb, i, j - 1)),
    ensures
        spec_backtrack(sa, sb, i, j) == spec_backtrack(sa, sb, i, j - 1).push(
            SpecOp {
                sign: Sign::Positive,
                value: sb[j - 1],
                position: j - 1,
                similarity: rat_zero(),
            },
        ),
{
}

/// Law: the backtrack reports positions in order. Insertions and aligned
/// pairs index the second array and stay below `j`; deletions index the
/// first array and stay below `i`; and within each tag the positions are
/// strictly ascending. The fold into partitions keeps the order in which
/// operations arrive, one tag at a time.
pub proof fn lemma_backtrack_positions_ascend(
    sa: Seq<SpecValue>,
    sb: Seq<SpecValue>,
    i: int,
    j: int,
)
    requires
        0 <= i <= sa.len(),
        0 <= j <= sb.len(),
    ensures
        ({
            let ops = spec_backtrack(sa, sb, i, j);
            &&& forall|t: int|
                0 <= t < ops.len() ==> {
                    &&& 0 <= (#[trigger] ops[t]).position
                    &&& (ops[t].sign == Sign::Negative ==> ops[t].position < i)
                    &&& (ops[t].sign != Sign::Negative ==> ops[t].position < j)
                }
            &&& forall|t1: int, t2: int|
                0 <= t1 < t2 < ops.len() && (#[trigger] ops[t1]).sign == (#[trigger] ops[t2]).sign
                    ==> ops[t1].position < ops[t2].position
        }),
    decreases step_count(i, j),
{
    let ops = spec_backtrack(sa, sb, i, j);
    if i <= 0 && j <= 0 {
    } else if i > 0 && j > 0 && diag_match(sa, sb, i, j) {
        lemma_backtrack_positions_ascend(sa, sb, i - 1, j - 1);
        assert(forall|t: int|
            0 <= t < ops.len() - 1 ==> ops[t] == spec_backtrack(sa, sb, i - 1, j - 1)[t]);
    } else if j > 0 && (i == 0 || spec_rat_le(
        cell_or_zero(sa, sb, i - 1, j),
        cell_or_zero(sa, sb, i, j - 1),
    )) {
        lemma_backtrack_positions_ascend(sa, sb, i, j - 1);
        assert(forall|t: int|
            0 <= t < ops.len() - 1 ==> ops[t] == spec_backtrack(sa, sb, i, j - 1)[t]);
    } else {
        assert(i > 0 && (j == 0 || !spec_rat_le(
            cell_or_zero(sa, sb, i - 1, j),
            cell_or_zero(sa, sb, i, j - 1),
        )));
        lemma_backtrack_positions_ascend(sa, sb, i - 1, j);
        assert(forall|t: int|
            0 <= t < ops.len() - 1 ==> ops[t] == spec_backtrack(sa, sb, i - 1, j)[t]);
    }
}

/// Folding operations whose positions ascend within each tag keeps each
/// partition's positions ascending.
proof fn lemma_fold_positions(ops: Seq<SpecOp>, k: int, acc: OpsAcc)
    requires
        forall|t1: int, t2: int|
            0 <= t1 < t2 < ops.len() && (#[trigger] ops[t1]).sign == (#[trigger] ops[t2]).sign
                ==> ops[t1].position < ops[t2].position,
        forall|t1: int, t2: int|
            0 <= t1 < acc.inserted.len() && k <= t2 < ops.len() && (#[trigger] ops[t2]).sign
                == Sign::Positive ==> (#[trigger] acc.inserted[t1]).0 < ops[t2].position,
        forall|t1: int, t2: int|
            0 <= t1 < acc.deleted.len() && k <= t2 < ops.len() && (#[trigger] ops[t2]).sign
                == Sign::Negative ==> (#[trigger] acc.deleted[t1]).0 < ops[t2].position,
        forall|t1: int, t2: int|
            0 <= t1 < t2 < acc.inserted.len() ==> (#[trigger] acc.inserted[t1]).0 < (
            #[trigger] acc.inserted[t2]).0,
        forall|t1: int, t2: int|
            0 <= t1 < t2 < acc.deleted.len() ==> (#[trigger] acc.deleted[t1]).0 < (
            #[trigger] acc.deleted[t2]).0,
    ensures
        spec_fold_ops(ops, k, acc) matches Some(f) ==> {
            &&& forall|t1: int, t2: int|
                0 <= t1 < t2 < f.inserted.len() ==> (#[trigger] f.inserted[t1]).0 < (
                #[trigger] f.inserted[t2]).0
            &&& forall|t1: int, t2: int|
                0 <= t1 < t2 < f.deleted.len() ==> (#[trigger] f.deleted[t1]).0 < (
                #[trigger] f.deleted[t2]).0
        },
    decreases ops.len() - k,
{
    if 0 <= k < ops.len() {
        let op = ops[k];
        match spec_rat_add(acc.tots, op.similarity) {
            None => {},
            Some(t) => {
                let acc1 = match op.sign {
                    Sign::Positive => OpsAcc {
                        inserted: acc.inserted.push((op.position, op.value)),
                        deleted: acc.deleted,
                        changed: acc.changed,
                        tots: t,
                    },
                    Sign::Negative => OpsAcc {
                        inserted: acc.inserted,
                        deleted: acc.deleted.push((op.position, op.value)),
                        changed: acc.changed,
                        tots: t,
                    },
                    Sign::Zero => if crate::rat::spec_rat_lt(op.similarity, rat_one()) {
                        OpsAcc {
                            inserted: acc.inserted,
                            deleted: acc.deleted,
                            changed: acc.changed.push(
                                (crate::decimal::spec_dec(op.position as nat), op.value),
                            ),
                            tots: t,
                        }
                    } else {
                        OpsAcc {
                            inserted: acc.inserted,
                            deleted: acc.deleted,
                            changed: acc.changed,
                            tots: t,
                        }
                    },
                };
                lemma_fold_positions(ops, k + 1, acc1);
            },
        }
    }
}

/// Law: the `inserted` and `deleted` partitions of an array difference
/// list their positions in strictly ascending order.
pub proof fn lemma_partitions_ascend(sa: Seq<SpecValue>, sb: Seq<SpecValue>)
    ensures
        ({
            let ops = spec_backtrack(sa, sb, sa.len() as int, sb.len() as int);
            match spec_fold_ops(ops, 0, ops_acc_init()) {
                Some(f) => {
                    &&& forall|t1: int, t2: int|
                        0 <= t1 < t2 < f.inserted.len() ==> (#[trigger] f.inserted[t1]).0 < (
                        #[trigger] f.inserted[t2]).0
                    &&& forall|t1: int, t2: int|
                        0 <= t1 < t2 < f.deleted.len() ==> (#[trigger] f.deleted[t1]).0 < (
                        #[trigger] f.deleted[t2]).0
                },
                None => true,
            }
        }),
{
    let ops = spec_backtrack(sa, sb, sa.len() as int, sb.len() as int);
    lemma_backtrack_positions_ascend(sa, sb, sa.len() as int, sb.len() as int);
    lemma_fold_positions(ops, 0, ops_acc_init());
}

/// The number of operations from index `k` on that carry the given tag.
pub open spec fn count_from(ops: Seq<SpecOp>, k: int, sg: Sign) -> nat
    decreases ops.len() - k,
{
    if k < 0 || k >= ops.len() {
        0
    } else {
        (if ops[k].sign == sg {
            1nat
        } else {
            0nat
        }) + count_from(ops, k + 1, sg)
    }
}

/// Appending an operation adds to the tag count.
proof fn lemma_count_from_push(ops: Seq<SpecOp>, l: SpecOp, k: int, sg: Sign)
    requires
        0 <= k <= ops.len(),
    ensures
        count_from(ops.push(l), k, sg) == count_from(ops, k, sg) + (if l.sign == sg {
            1nat
        } else {
            0nat
        }),
    decreases ops.len() - k,
{
    if k < ops.len() {
        lemma_count_from_push(ops, l, k + 1, sg);
        assert(ops.push(l)[k] == ops[k]);
        assert(count_from(ops.push(l), k, sg) == (if ops[k].sign == sg {
            1nat
        } else {
            0nat
        }) + count_from(ops.push(l), k + 1, sg));
    } else {
        assert(ops.push(l)[k] == l);
        assert(count_from(ops, k, sg) == 0);
        assert(count_from(ops.push(l), k + 1, sg) == 0);
        assert(count_from(ops.push(l), k, sg) == (if l.sign == sg {
            1nat
        } else {
            0nat
        }) + count_from(ops.push(l), k + 1, sg));
    }
}

/// The shape of a backtrack: aligned pairs and deletions account exactly
/// for the first `i` elements, aligned pairs and insertions for the first
/// `j`; every similarity is well-formed and in the unit interval, and
/// only aligned pairs carry a non-zero one.
proof fn lemma_backtrack_shape(sa: Seq<SpecValue>, sb: Seq<SpecValue>, i: int, j: int)
    requires
        0 <= i <= sa.len(),
        0 <= j <= sb.len(),
    ensures
        ({
            let ops = spec_backtrack(sa, sb, i, j);
            &&& count_from(ops, 0, Sign::Zero) + count_from(ops, 0, Sign::Negative) == i
            &&& count_from(ops, 0, Sign::Zero) + count_from(ops, 0, Sign::Positive) == j
            &&& forall|t: int|
                0 <= t < ops.len() ==> {
                    &&& (#[trigger] ops[t]).similarity.wf()
                    &&& ops[t].similarity.num <= ops[t].similarity.den
                    &&& (ops[t].sign != Sign::Zero ==> ops[t].similarity == rat_zero())
                }
        }),
    decreases height_elems(sa) + height_elems(sb) + 2, 18int, step_count(i, j),
{
    let ops = spec_backtrack(sa, sb, i, j);
    if i <= 0 && j <= 0 {
    } else if i > 0 && j > 0 && diag_match(sa, sb, i, j) {
        lemma_backtrack_shape(sa, sb, i - 1, j - 1);
        lemma_score_in_unit(sa[i - 1], sb[j - 1]);
        let rest = spec_backtrack(sa, sb, i - 1, j - 1);
        let op = match spec_value_diff(sa[i - 1], sb[j - 1]) {
            Some((d, s)) => SpecOp {
                sign: Sign::Zero,
                value: d,
                position: j - 1,
                similarity: s,
            },
            None => SpecOp {
                sign: Sign::Zero,
                value: SpecValue::Null,
                position: 0,
                similarity: rat_zero(),
            },
        };
        lemma_count_from_push(rest, op, 0, Sign::Zero);
        lemma_count_from_push(rest, op, 0, Sign::Negative);
        lemma_count_from_push(rest, op, 0, Sign::Positive);
        assert(ops == rest.push(op));
    } else if j > 0 && (i == 0 || spec_rat_le(
        cell_or_zero(sa, sb, i - 1, j),
        cell_or_zero(sa, sb, i, j - 1),
    )) {
        lemma_backtrack_shape(sa, sb, i, j - 1);
        let rest = spec_backtrack(sa, sb, i, j - 1);
        let op = SpecOp {
            sign: Sign::Positive,
            value: sb[j - 1],
            position: j - 1,
            similarity: rat_zero(),
        };
        lemma_count_from_push(rest, op, 0, Sign::Zero);
        lemma_count_from_push(rest, op, 0, Sign::Negative);
        lemma_count_from_push(rest, op, 0, Sign::Positive);
        assert(ops == rest.push(op));
    } else {
        assert(i > 0 && (j == 0 || !spec_rat_le(
            cell_or_zero(sa, sb, i - 1, j),
            cell_or_zero(sa, sb, i, j - 1),
        )));
        lemma_backtrack_shape(sa, sb, i - 1, j);
        let rest = spec_backtrack(sa, sb, i - 1, j);
        let op = SpecOp {
            sign: Sign::Negative,
            value: sa[i - 1],
            position: i - 1,
            similarity: rat_zero(),
        };
        lemma_count_from_push(rest, op, 0, Sign::Zero);
        lemma_count_from_push(rest, op, 0, Sign::Negative);
        lemma_count_from_push(rest, op, 0, Sign::Positive);
        assert(ops == rest.push(op));
    }
}

/// Folding operations whose similarities lie in the unit interval grows
/// the similarity sum by at most the number of aligned pairs folded.
proof fn lemma_fold_bound(ops: Seq<SpecOp>, k: int, acc: OpsAcc, z: nat)
    requires
        acc.tots.wf(),
        acc.tots.num <= z * acc.tots.den,
        forall|t: int|
            0 <= t < ops.len() ==> {
                &&& (#[trigger] ops[t]).similarity.wf()
                &&& ops[t].similarity.num <= ops[t].similarity.den
                &&& (ops[t].sign != Sign::Zero ==> ops[t].similarity == rat_zero())
            },
    ensures
        spec_fold_ops(ops, k, acc) matches Some(f) ==> f.tots.wf() && f.tots.num <= (z
            + count_from(ops, k, Sign::Zero)) * f.tots.den,
    decreases ops.len() - k,
{
    if 0 <= k < ops.len() {
        let op = ops[k];
        if op.sign == Sign::Zero {
            lemma_rat_add_bound(acc.tots, op.similarity, z, 1);
        } else {
            lemma_rat_add_bound(acc.tots, op.similarity, z, 0);
        }
        match spec_rat_add(acc.tots, op.similarity) {
            None => {},
            Some(t) => {
                let acc1 = match op.sign {
                    Sign::Positive => OpsAcc {
                        inserted: acc.inserted.push((op.position, op.value)),
                        deleted: acc.deleted,
                        changed: acc.changed,
                        tots: t,
                    },
                    Sign::Negative => OpsAcc {
                        inserted: acc.inserted,
                        deleted: acc.deleted.push((op.position, op.value)),
                        changed: acc.changed,
                        tots: t,
                    },
                    Sign::Zero => if crate::rat::spec_rat_lt(op.similarity, rat_one()) {
                        OpsAcc {
                            inserted: acc.inserted,
                            deleted: acc.deleted,
                            changed: acc.changed.push(
                                (crate::decimal::spec_dec(op.position as nat), op.value),
                            ),
                            tots: t,
                        }
                    } else {
                        OpsAcc {
                            inserted: acc.inserted,
                            deleted: acc.deleted,
                            changed: acc.changed,
                            tots: t,
                        }
                    },
                };
                if op.sign == Sign::Zero {
                    lemma_fold_bound(ops, k + 1, acc1, z + 1);
                } else {
                    lemma_fold_bound(ops, k + 1, acc1, z);
                }
            },
        }
    }
}

/// The similarity of two objects lies in the unit interval: each of the
/// keys matched so far has contributed at most one to the sum.
proof fn lemma_obj_scan_bound(
    fa: Seq<(Seq<char>, SpecValue)>,
    fb: Seq<(Seq<char>, SpecValue)>,
    k: int,
    acc: ObjAcc,
    cnt: nat,
)
    requires
        0 <= k,
        acc.smatched.wf(),
        acc.smatched.num <= cnt * acc.smatched.den,
    ensures
        spec_obj_scan(fa, fb, k, acc) matches Some(a2) ==> a2.smatched.wf() && a2.smatched.num
            <= (cnt + (if k <= fa.len() {
            (fa.len() - k) as nat
        } else {
            0nat
        })) * a2.smatched.den,
    decreases height_fields(fa) + height_fields(fb) + 2, 17int, fa.len() - k,
{
    if k < fa.len() {
        let key = fa[k].0;
        let j = crate::value::key_index(fb, key);
        if 0 <= j < fb.len() {
            lemma_score_in_unit(fa[k].1, fb[j].1);
            match spec_value_diff(fa[k].1, fb[j].1) {
                None => {},
                Some((d, s)) => {
                    lemma_rat_half_credit_bound(s);
                    match crate::rat::spec_rat_half_credit(s) {
                        None => {},
                        Some(h) => {
                            lemma_rat_add_bound(acc.smatched, h, cnt, 1);
                            match spec_rat_add(acc.smatched, h) {
                                None => {},
                                Some(sm) => {
                                    let changed = if crate::rat::spec_rat_lt(s, rat_one()) {
                                        acc.changed.push((key, d))
                                    } else {
                                        acc.changed
                                    };
                                    lemma_obj_scan_bound(
                                        fa,
                                        fb,
                                        k + 1,
                                        ObjAcc { removed: acc.removed, changed, smatched: sm },
                                        cnt + 1,
                                    );
                                },
                            }
                        },
                    }
                },
            }
        } else {
            lemma_obj_scan_bound(
                fa,
                fb,
                k + 1,
                ObjAcc {
                    removed: acc.removed.push(fa[k]),
                    changed: acc.changed,
                    smatched: acc.smatched,
                },
                cnt,
            );
            match spec_obj_scan(fa, fb, k, acc) {
                None => {},
                Some(a2) => {
                    lemma_rat_bound_mono(
                        a2.smatched,
                        cnt + (fa.len() - k - 1) as nat,
                        cnt + (fa.len() - k) as nat,
                    );
                },
            }
        }
    }
}

/// The similarity of two objects lies in the unit interval.
proof fn lemma_obj_diff_bound(fa: Seq<(Seq<char>, SpecValue)>, fb: Seq<(Seq<char>, SpecValue)>)
    ensures
        spec_obj_diff(fa, fb) matches Some((d, s)) ==> s.wf() && s.num <= s.den,
    decreases height_fields(fa) + height_fields(fb) + 2, 19int, 0nat,
{
    lemma_obj_scan_bound(fa, fb, 0, obj_acc_init(), 0);
    match spec_obj_scan(fa, fb, 0, obj_acc_init()) {
        None => {},
        Some(acc) => {
            let added = spec_added(fa, fb, 0);
            let n_tot = fa.len() + added.len();
            if n_tot != 0 {
                lemma_rat_bound_mono(acc.smatched, fa.len(), n_tot);
                lemma_rat_div_bound(acc.smatched, n_tot);
            }
        },
    }
}

/// The similarity of two arrays lies in the unit interval.
proof fn lemma_arr_diff_bound(sa: Seq<SpecValue>, sb: Seq<SpecValue>)
    ensures
        spec_arr_diff(sa, sb) matches Some((d, s)) ==> s.wf() && s.num <= s.den,
    decreases height_elems(sa) + height_elems(sb) + 2, 19int, 0nat,
{
    if sa.len() < usize::MAX && sb.len() < usize::MAX {
        let x = sa.len() as int;
        let y = sb.len() as int;
        match spec_cell(sa, sb, x, y) {
            None => {},
            Some(_) => {
                let ops = spec_backtrack(sa, sb, x, y);
                lemma_backtrack_shape(sa, sb, x, y);
                lemma_fold_bound(ops, 0, ops_acc_init(), 0);
                match spec_fold_ops(ops, 0, ops_acc_init()) {
                    None => {},
                    Some(f) => {
                        let tot_n = sa.len() + f.inserted.len();
                        if tot_n != 0 {
                            lemma_rat_bound_mono(
                                f.tots,
                                count_from(ops, 0, Sign::Zero),
                                tot_n,
                            );
                            lemma_rat_div_bound(f.tots, tot_n);
                        }
                    },
                }
            },
        }
    }
}

/// Law: every similarity score lies in the unit interval: it is a
/// well-formed rational with numerator at most its denominator.
pub proof fn lemma_score_in_unit(a: SpecValue, b: SpecValue)
    ensures
        spec_value_diff(a, b) matches Some((d, s)) ==> s.wf() && s.num <= s.den,
    decreases height(a) + height(b), 20int, 0nat,
{
    if crate::value::deep_eq(a, b) {
    } else if a is Obj && b is Obj {
        lemma_obj_diff_bound(a->Obj_0, b->Obj_0);
    } else if a is Arr && b is Arr {
        lemma_arr_diff_bound(a->Arr_0, b->Arr_0);
    }
}

} // verus!

//! The mathematical model of the difference algorithm.
//!
//! Every executable function of the library is proved equal to the
//! corresponding specification function here. A result of `None` means
//! that an exact rational score could not be represented in 32 bits.

use crate::decimal::spec_dec;
use crate::rat::{
    rat_one, rat_zero, spec_rat_add, spec_rat_div, spec_rat_half_credit, spec_rat_le, spec_rat_lt,
    spec_rat_max, Rat,
};
use crate::value::{
    deep_eq, empty_object, height, height_elems, height_fields, key_index, Num, SpecValue,
};
use vstd::prelude::*;

verus! {

broadcast use {crate::value::lemma_height_elem, crate::value::lemma_height_field};

/// The tag of one alignment operation: an insertion into the second
/// array, a deletion from the first, or a pairing of two aligned elements.
#[derive(Clone, Copy, PartialEq, Eq, Structural, Debug)]
pub enum Sign {
    /// The element at `position` in the second array was inserted.
    Positive,
    /// The element at `position` in the first array was deleted.
    Negative,
    /// Two elements were aligned; the operation carries their difference.
    Zero,
}

/// The model of one alignment operation.
pub struct SpecOp {
    /// The operation's tag.
    pub sign: Sign,
    /// The inserted element, the deleted element, or the aligned pair's
    /// difference tree.
    pub value: SpecValue,
    /// An index into the second array (`Positive`, `Zero`) or the first
    /// (`Negative`).
    pub position: int,
    /// The aligned pair's similarity; zero for insertions and deletions.
    pub similarity: Rat,
}

/// The running state of an object comparison: pairs of the first object
/// whose key the second lacks, nested differences of matched keys, and
/// the accumulated similarity of the matched keys.
pub struct ObjAcc {
    /// Pairs present only in the first object.
    pub removed: Seq<(Seq<char>, SpecValue)>,
    /// Keys present in both, mapped to the nested difference.
    pub changed: Seq<(Seq<char>, SpecValue)>,
    /// The sum of `1/2 + s/2` over the matched keys seen so far.
    pub smatched: Rat,
}

/// The empty object-comparison state.
pub open spec fn obj_acc_init() -> ObjAcc {
    ObjAcc { removed: Seq::empty(), changed: Seq::empty(), smatched: rat_zero() }
}

/// The running state of an array comparison, folded over the alignment
/// operations.
pub struct OpsAcc {
    /// Positions and elements inserted into the second array, ascending.
    pub inserted: Seq<(int, SpecValue)>,
    /// Positions and elements deleted from the first array, ascending.
    pub deleted: Seq<(int, SpecValue)>,
    /// Decimal positions in the second array mapped to nested differences.
    pub changed: Seq<(Seq<char>, SpecValue)>,
    /// The sum of every operation's similarity.
    pub tots: Rat,
}

/// The empty array-comparison state.
pub open spec fn ops_acc_init() -> OpsAcc {
    OpsAcc { inserted: Seq::empty(), deleted: Seq::empty(), changed: Seq::empty(), tots: rat_zero() }
}

/// The number of remaining backtrack steps from cell `(i, j)`.
pub open spec fn step_count(i: int, j: int) -> nat {
    (if i > 0 {
        i
    } else {
        0
    }) as nat + (if j > 0 {
        j
    } else {
        0
    }) as nat
}

/// The difference of two values, with its similarity score, or `None`
/// when a score cannot be represented exactly.
///
/// Equal values yield an empty object and similarity one; two objects or
/// two arrays are compared structurally; any other pair yields the second
/// value and similarity zero.
pub open spec fn spec_value_diff(a: SpecValue, b: SpecValue) -> Option<(SpecValue, Rat)>
    decreases height(a) + height(b), 10int, 0nat,
{
    if deep_eq(a, b) {
        Some((empty_object(), rat_one()))
    } else if a is Obj && b is Obj {
        spec_obj_diff(a->Obj_0, b->Obj_0)
    } else if a is Arr && b is Arr {
        spec_arr_diff(a->Arr_0, b->Arr_0)
    } else {
        Some((b, rat_zero()))
    }
}

/// One step of the object comparison: the pair at index `k` of `fa` is
/// matched against `fb`, and the scan continues at `k + 1`.
pub open spec fn spec_obj_scan(
    fa: Seq<(Seq<char>, SpecValue)>,
    fb: Seq<(Seq<char>, SpecValue)>,
    k: int,
    acc: ObjAcc,
) -> Option<ObjAcc>
    decreases height_fields(fa) + height_fields(fb) + 2, 5int, fa.len() - k,
{
    if k < 0 || k >= fa.len() {
        Some(acc)
    } else {
        let key = fa[k].0;
        let j = key_index(fb, key);
        if 0 <= j < fb.len() {
            match spec_value_diff(fa[k].1, fb[j].1) {
                None => None,
                Some((d, s)) => match spec_rat_half_credit(s) {
                    None => None,
                    Some(h) => match spec_rat_add(acc.smatched, h) {
                        None => None,
                        Some(sm) => {
                            let changed = if spec_rat_lt(s, rat_one()) {
                                acc.changed.push((key, d))
                            } else {
                                acc.changed
                            };
                            spec_obj_scan(
                                fa,
                                fb,
                                k + 1,
                                ObjAcc { removed: acc.removed, changed, smatched: sm },
                            )
                        },
                    },
                },
            }
        } else {
            spec_obj_scan(
                fa,
                fb,
                k + 1,
                ObjAcc {
                    removed: acc.removed.push(fa[k]),
                    changed: acc.changed,
                    smatched: acc.smatched,
                },
            )
        }
    }
}

/// The pairs of `fb`, from index `k` on, whose keys `fa` lacks, in order.
pub open spec fn spec_added(
    fa: Seq<(Seq<char>, SpecValue)>,
    fb: Seq<(Seq<char>, SpecValue)>,
    k: int,
) -> Seq<(Seq<char>, SpecValue)>
    decreases fb.len() - k,
{
    if k < 0 || k >= fb.len() {
        Seq::empty()
    } else {
        let rest = spec_added(fa, fb, k + 1);
        if key_index(fa, fb[k].0) < 0 {
            seq![fb[k]] + rest
        } else {
            rest
        }
    }
}

/// The difference tree of an object comparison: an object holding only
/// the non-empty partitions, under the keys `added`, `removed`, `changed`.
pub open spec fn obj_diff_tree(
    added: Seq<(Seq<char>, SpecValue)>,
    removed: Seq<(Seq<char>, SpecValue)>,
    changed: Seq<(Seq<char>, SpecValue)>,
) -> SpecValue {
    if added.len() == 0 && removed.len() == 0 && changed.len() == 0 {
        empty_object()
    } else {
        let s0 = Seq::<(Seq<char>, SpecValue)>::empty();
        let s1 = if added.len() > 0 {
            s0.push(("added"@, SpecValue::Obj(added)))
        } else {
            s0
        };
        let s2 = if removed.len() > 0 {
            s1.push(("removed"@, SpecValue::Obj(removed)))
        } else {
            s1
        };
        let s3 = if changed.len() > 0 {
            s2.push(("changed"@, SpecValue::Obj(changed)))
        } else {
            s2
        };
        SpecValue::Obj(s3)
    }
}

/// The difference of two objects: matched keys contribute `1/2 + s/2`
/// to the similarity sum, which is divided by the number of keys present
/// in either object.
pub open spec fn spec_obj_diff(
    fa: Seq<(Seq<char>, SpecValue)>,
    fb: Seq<(Seq<char>, SpecValue)>,
) -> Option<(SpecValue, Rat)>
    decreases height_fields(fa) + height_fields(fb) + 2, 9int, 0nat,
{
    match spec_obj_scan(fa, fb, 0, obj_acc_init()) {
        None => None,
        Some(acc) => {
            let added = spec_added(fa, fb, 0);
            let n_tot = fa.len() + added.len();
            let s_opt = if n_tot != 0 {
                spec_rat_div(acc.smatched, n_tot)
            } else {
                Some(rat_one())
            };
            match s_opt {
                None => None,
                Some(s) => Some((obj_diff_tree(added, acc.removed, acc.changed), s)),
            }
        },
    }
}

/// One cell of the alignment matrix: `M[0][j] = M[i][0] = 0`, and
/// otherwise the maximum of the cell to the left, the cell above, and the
/// diagonal cell plus the pairwise similarity of the two elements.
pub open spec fn spec_cell(sa: Seq<SpecValue>, sb: Seq<SpecValue>, i: int, j: int) -> Option<Rat>
    decreases height_elems(sa) + height_elems(sb) + 2, 4int, step_count(i, j),
{
    if i <= 0 || j <= 0 {
        Some(rat_zero())
    } else if i > sa.len() || j > sb.len() {
        Some(rat_zero())
    } else {
        match spec_value_diff(sa[i - 1], sb[j - 1]) {
            None => None,
            Some((d, s)) => match (
                spec_cell(sa, sb, i, j - 1),
                spec_cell(sa, sb, i - 1, j),
                spec_cell(sa, sb, i - 1, j - 1),
            ) {
                (Some(left), Some(up), Some(diag)) => match spec_rat_add(diag, s) {
                    None => None,
                    Some(ds) => Some(spec_rat_max(left, spec_rat_max(up, ds))),
                },
                _ => None,
            },
        }
    }
}

/// The value of a matrix cell, taking zero for an unrepresentable cell.
pub open spec fn cell_or_zero(sa: Seq<SpecValue>, sb: Seq<SpecValue>, i: int, j: int) -> Rat
    decreases height_elems(sa) + height_elems(sb) + 2, 5int, step_count(i, j),
{
    match spec_cell(sa, sb, i, j) {
        Some(r) => r,
        None => rat_zero(),
    }
}

/// Whether the backtrack takes the diagonal at `(i, j)`: the two elements
/// have positive similarity, and the cell's value equals the diagonal
/// cell's value plus that similarity.
pub open spec fn diag_match(sa: Seq<SpecValue>, sb: Seq<SpecValue>, i: int, j: int) -> bool
    decreases height_elems(sa) + height_elems(sb) + 2, 6int, step_count(i, j),
{
    if i < 1 || j < 1 || i > sa.len() || j > sb.len() {
        false
    } else {
        match spec_value_diff(sa[i - 1], sb[j - 1]) {
            Some((d, s)) => spec_rat_lt(rat_zero(), s) && spec_rat_add(
                cell_or_zero(sa, sb, i - 1, j - 1),
                s,
            ) == Some(cell_or_zero(sa, sb, i, j)),
            None => false,
        }
    }
}

/// The ordered alignment operations recovered by walking the matrix from
/// `(i, j)` back to the origin. The diagonal is preferred where it
/// matches; otherwise, on a tie between the cell to the left and the cell
/// above, insertion is chosen over deletion.
pub open spec fn spec_backtrack(sa: Seq<SpecValue>, sb: Seq<SpecValue>, i: int, j: int) -> Seq<
    SpecOp,
>
    decreases height_elems(sa) + height_elems(sb) + 2, 7int, step_count(i, j),
{
    if i <= 0 && j <= 0 {
        Seq::empty()
    } else if i < 0 || j < 0 || i > sa.len() || j > sb.len() {
        Seq::empty()
    } else if i > 0 && j > 0 && diag_match(sa, sb, i, j) {
        match spec_value_diff(sa[i - 1], sb[j - 1]) {
            Some((d, s)) => spec_backtrack(sa, sb, i - 1, j - 1).push(
                SpecOp { sign: Sign::Zero, value: d, position: j - 1, similarity: s },
            ),
            None => Seq::empty(),
        }
    } else if j > 0 && (i == 0 || spec_rat_le(
        cell_or_zero(sa, sb, i - 1, j),
        cell_or_zero(sa, sb, i, j - 1),
    )) {
        spec_backtrack(sa, sb, i, j - 1).push(
            SpecOp {
                sign: Sign::Positive,
                value: sb[j - 1],
                position: j - 1,
                similarity: rat_zero(),
            },
        )
    } else if i > 0 && (j == 0 || spec_rat_lt(
        cell_or_zero(sa, sb, i, j - 1),
        cell_or_zero(sa, sb, i - 1, j),
    )) {
        spec_backtrack(sa, sb, i - 1, j).push(
            SpecOp {
                sign: Sign::Negative,
                value: sa[i - 1],
                position: i - 1,
                similarity: rat_zero(),
            },
        )
    } else {
        Seq::empty()
    }
}

/// The fold of the alignment operations from index `k` on: insertions and
/// deletions are partitioned by position, aligned-but-different pairs go
/// to `changed` under their decimal position, and every operation's
/// similarity joins the sum.
pub open spec fn spec_fold_ops(ops: Seq<SpecOp>, k: int, acc: OpsAcc) -> Option<OpsAcc>
    decreases ops.len() - k,
{
    if k < 0 || k >= ops.len() {
        Some(acc)
    } else {
        let op = ops[k];
        let acc1 = match op.sign {
            Sign::Positive => OpsAcc {
                inserted: acc.inserted.push((op.position, op.value)),
                deleted: acc.deleted,
                changed: acc.changed,
                tots: acc.tots,
            },
            Sign::Negative => OpsAcc {
                inserted: acc.inserted,
                deleted: acc.deleted.push((op.position, op.value)),
                changed: acc.changed,
                tots: acc.tots,
            },
            Sign::Zero => if spec_rat_lt(op.similarity, rat_one()) {
                OpsAcc {
                    inserted: acc.inserted,
                    deleted: acc.deleted,
                    changed: acc.changed.push((spec_dec(op.position as nat), op.value)),
                    tots: acc.tots,
                }
            } else {
                acc
            },
        };
        match spec_rat_add(acc1.tots, op.similarity) {
            None => None,
            Some(t) => spec_fold_ops(
                ops,
                k + 1,
                OpsAcc {
                    inserted: acc1.inserted,
                    deleted: acc1.deleted,
                    changed: acc1.changed,
                    tots: t,
                },
            ),
        }
    }
}

/// A sequence of position-value pairs as a value tree: an array of
/// two-element arrays.
pub open spec fn pairs_tree(ps: Seq<(int, SpecValue)>) -> SpecValue {
    SpecValue::Arr(
        Seq::new(
            ps.len(),
            |i: int|
                if 0 <= i < ps.len() {
                    SpecValue::Arr(seq![SpecValue::Num(Num::Uint(ps[i].0 as u64)), ps[i].1])
                } else {
                    SpecValue::Null
                },
        ),
    )
}

/// The difference tree of an array comparison: an object holding only the
/// non-empty partitions, under the keys `inserted`, `deleted`, `changed`.
pub open spec fn arr_diff_tree(
    inserted: Seq<(int, SpecValue)>,
    deleted: Seq<(int, SpecValue)>,
    changed: Seq<(Seq<char>, SpecValue)>,
) -> SpecValue {
    let s0 = Seq::<(Seq<char>, SpecValue)>::empty();
    let s1 = if inserted.len() > 0 {
        s0.push(("inserted"@, pairs_tree(inserted)))
    } else {
        s0
    };
    let s2 = if deleted.len() > 0 {
        s1.push(("deleted"@, pairs_tree(deleted)))
    } else {
        s1
    };
    let s3 = if changed.len() > 0 {
        s2.push(("changed"@, SpecValue::Obj(changed)))
    } else {
        s2
    };
    SpecValue::Obj(s3)
}

/// The difference of two arrays: the alignment operations are folded into
/// partitions, the similarity sum is divided by the union size, and a
/// score of exactly zero or one collapses the tree to a copy of the
/// second array or to an empty object.
pub open spec fn spec_arr_diff(sa: Seq<SpecValue>, sb: Seq<SpecValue>) -> Option<(SpecValue, Rat)>
    decreases height_elems(sa) + height_elems(sb) + 2, 9int, 0nat,
{
    if sa.len() >= usize::MAX || sb.len() >= usize::MAX {
        // The alignment matrix would need more rows or columns than a
        // machine-sized collection can hold.
        None
    } else {
        spec_arr_diff_in_range(sa, sb)
    }
}

/// The difference of two arrays whose matrix fits machine limits.
pub open spec fn spec_arr_diff_in_range(sa: Seq<SpecValue>, sb: Seq<SpecValue>) -> Option<
    (SpecValue, Rat),
>
    decreases height_elems(sa) + height_elems(sb) + 2, 8int, 0nat,
{
    match spec_cell(sa, sb, sa.len() as int, sb.len() as int) {
        None => None,
        Some(_) => {
            let ops = spec_backtrack(sa, sb, sa.len() as int, sb.len() as int);
            match spec_fold_ops(ops, 0, ops_acc_init()) {
                None => None,
                Some(f) => {
                    let tot_n = sa.len() + f.inserted.len();
                    let s_opt = if tot_n != 0 {
                        spec_rat_div(f.tots, tot_n)
                    } else {
                        Some(rat_one())
                    };
                    match s_opt {
                        None => None,
                        Some(s) => {
                            let tree = if s.is_zero() {
                                SpecValue::Arr(sb)
                            } else if s.is_one() {
                                empty_object()
                            } else if f.inserted.len() == 0 && f.deleted.len() == 0
                                && f.changed.len() == 0 {
                                empty_object()
                            } else {
                                arr_diff_tree(f.inserted, f.deleted, f.changed)
                            };
                            Some((tree, s))
                        },
                    }
                },
            }
        },
    }
}

/// An unrepresentable cell makes every cell below and to the right of it
/// unrepresentable too.
pub proof fn lemma_cell_none_mono(
    sa: Seq<SpecValue>,
    sb: Seq<SpecValue>,
    i: int,
    j: int,
    x: int,
    y: int,
)
    requires
        1 <= i <= x <= sa.len(),
        1 <= j <= y <= sb.len(),
        spec_cell(sa, sb, i, j) is None,
    ensures
        spec_cell(sa, sb, x, y) is None,
    decreases x + y - i - j,
{
    if x > i {
        lemma_cell_none_mono(sa, sb, i, j, x - 1, y);
        assert(spec_cell(sa, sb, x, y) is None);
    } else if y > j {
        lemma_cell_none_mono(sa, sb, i, j, x, y - 1);
        assert(spec_cell(sa, sb, x, y) is None);
    }
}

} // verus!

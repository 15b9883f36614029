//! The alignment matrix over two arrays and its backtrack into an
//! ordered sequence of alignment operations.

use crate::model::{
    cell_or_zero, diag_match, lemma_cell_none_mono, spec_backtrack, spec_cell, spec_value_diff,
    Sign, SpecOp,
};
use crate::rat::{rat_add, rat_le, rat_lt, rat_max, rat_zero, spec_rat_add, spec_rat_lt, Rat};
use crate::value::{deep_clone, elems_view, height_elems, SpecValue, Value};
use vstd::prelude::*;

verus! {

broadcast use {crate::value::lemma_height_elem, crate::value::lemma_height_field};

/// One alignment operation: an element inserted into the second array,
/// deleted from the first, or a pair of aligned elements with their
/// nested difference and similarity.
pub struct Length {
    /// The operation's tag.
    pub sign: Sign,
    /// The inserted element, the deleted element, or the aligned pair's
    /// difference tree.
    pub value: Value,
    /// An index into the second array (`Positive`, `Zero`) or the first
    /// (`Negative`).
    pub position: usize,
    /// The aligned pair's similarity; zero for insertions and deletions.
    pub similarity: Rat,
}

impl View for Length {
    type V = SpecOp;

    open spec fn view(&self) -> SpecOp {
        SpecOp {
            sign: self.sign,
            value: self.value@,
            position: self.position as int,
            similarity: self.similarity,
        }
    }
}

impl Length {
    /// An operation from its parts.
    pub fn new(sign: Sign, value: Value, position: usize, similarity: Rat) -> (r: Length)
        ensures
            r@ == (SpecOp { sign, value: value@, position: position as int, similarity }),
    {
        Length { sign, value, position, similarity }
    }
}

/// The models of a sequence of operations, elementwise.
pub open spec fn ops_view(s: Seq<Length>) -> Seq<SpecOp> {
    Seq::new(
        s.len(),
        |i: int|
            if 0 <= i < s.len() {
                s[i]@
            } else {
                SpecOp {
                    sign: Sign::Zero,
                    value: SpecValue::Null,
                    position: 0,
                    similarity: rat_zero(),
                }
            },
    )
}

/// Appending an operation appends its model.
pub proof fn lemma_ops_view_push(s: Seq<Length>, l: Length)
    ensures
        ops_view(s.push(l)) == ops_view(s).push(l@),
{
    assert(ops_view(s.push(l)) =~= ops_view(s).push(l@));
}

/// The rows of a filled matrix agree with `spec_cell` everywhere.
pub open spec fn matrix_ok(m: Seq<Vec<Rat>>, sa: Seq<SpecValue>, sb: Seq<SpecValue>) -> bool {
    &&& m.len() == sa.len() + 1
    &&& forall|i: int| 0 <= i < m.len() ==> (#[trigger] m[i])@.len() == sb.len() + 1
    &&& forall|i: int, j: int|
        0 <= i <= sa.len() && 0 <= j <= sb.len() ==> spec_cell(sa, sb, i, j) == Some(
            #[trigger] m[i]@[j],
        ) && m[i]@[j].wf()
}

/// Fills the alignment matrix of the two arrays, or reports `None` when
/// some cell's exact score cannot be represented.
pub fn init_matrix(a1: &Vec<Value>, a2: &Vec<Value>) -> (r: Option<Vec<Vec<Rat>>>)
    requires
        a1@.len() < usize::MAX,
        a2@.len() < usize::MAX,
    ensures
        ({
            let sa = elems_view(a1@);
            let sb = elems_view(a2@);
            match r {
                Some(m) => matrix_ok(m@, sa, sb),
                None => spec_cell(sa, sb, sa.len() as int, sb.len() as int) is None,
            }
        }),
    decreases height_elems(elems_view(a1@)) + height_elems(elems_view(a2@)) + 2, 3int, 0nat,
{
    let ghost sa = elems_view(a1@);
    let ghost sb = elems_view(a2@);
    let x = a1.len();
    let y = a2.len();
    let rows = x + 1;
    let cols = y + 1;

    let mut m: Vec<Vec<Rat>> = Vec::new();
    let mut row0: Vec<Rat> = Vec::new();
    let mut j0: usize = 0;
    while j0 < cols
        invariant
            j0 <= cols,
            row0@.len() == j0,
            forall|j: int| 0 <= j < j0 ==> row0@[j] == rat_zero() && (#[trigger] row0@[j]).wf(),
        decreases cols - j0,
    {
        row0.push(Rat { num: 0, den: 1 });
        j0 += 1;
    }
    m.push(row0);

    let mut i: usize = 1;
    while i < rows
        invariant
            1 <= i <= rows,
            rows == x + 1,
            cols == y + 1,
            x == a1@.len(),
            y == a2@.len(),
            x < usize::MAX,
            y < usize::MAX,
            sa == elems_view(a1@),
            sb == elems_view(a2@),
            m@.len() == i,
            forall|r: int| 0 <= r < i ==> (#[trigger] m@[r])@.len() == cols,
            forall|r: int, c: int|
                0 <= r < i && 0 <= c <= y ==> spec_cell(sa, sb, r, c) == Some(#[trigger] m@[r]@[c])
                    && m@[r]@[c].wf(),
        decreases rows - i,
    {
        let mut row: Vec<Rat> = Vec::new();
        row.push(Rat { num: 0, den: 1 });
        let mut j: usize = 1;
        while j < cols
            invariant
                1 <= i < rows,
                1 <= j <= cols,
                rows == x + 1,
                cols == y + 1,
                x == a1@.len(),
                y == a2@.len(),
                x < usize::MAX,
                y < usize::MAX,
                sa == elems_view(a1@),
                sb == elems_view(a2@),
                m@.len() == i,
                forall|r: int| 0 <= r < i ==> (#[trigger] m@[r])@.len() == cols,
                forall|r: int, c: int|
                    0 <= r < i && 0 <= c <= y ==> spec_cell(sa, sb, r, c) == Some(
                        #[trigger] m@[r]@[c],
                    ) && m@[r]@[c].wf(),
                row@.len() == j,
                forall|c: int|
                    0 <= c < j ==> spec_cell(sa, sb, i as int, c) == Some(#[trigger] row@[c])
                        && row@[c].wf(),
            decreases cols - j,
        {
            proof {
                assert(sa[i - 1] == a1@[i - 1]@);
                assert(sb[j - 1] == a2@[j - 1]@);
            }
            let ds = crate::diff::value_diff(&a1[i - 1], &a2[j - 1]);
            match ds {
                None => {
                    proof {
                        assert(spec_cell(sa, sb, i as int, j as int) is None);
                        lemma_cell_none_mono(sa, sb, i as int, j as int, x as int, y as int);
                    }
                    return None;
                },
                Some((_, s)) => {
                    let diag: Rat = m[i - 1][j - 1];
                    let up: Rat = m[i - 1][j];
                    let left: Rat = row[j - 1];
                    match rat_add(diag, s) {
                        None => {
                            proof {
                                assert(spec_cell(sa, sb, i as int, j as int) is None);
                                lemma_cell_none_mono(
                                    sa,
                                    sb,
                                    i as int,
                                    j as int,
                                    x as int,
                                    y as int,
                                );
                            }
                            return None;
                        },
                        Some(ds2) => {
                            let v = rat_max(left, rat_max(up, ds2));
                            proof {
                                assert(spec_cell(sa, sb, i as int, j as int) == Some(v));
                            }
                            row.push(v);
                        },
                    }
                },
            }
            j += 1;
        }
        m.push(row);
        i += 1;
    }
    Some(m)
}

/// Decides whether the backtrack takes the diagonal at `(i, j)`, handing
/// back the aligned pair's difference and similarity when it does.
#[verifier::rlimit(100)]
fn diag_step(
    m: &Vec<Vec<Rat>>,
    a1: &Vec<Value>,
    a2: &Vec<Value>,
    i: usize,
    j: usize,
) -> (r: Option<(Value, Rat)>)
    requires
        matrix_ok(m@, elems_view(a1@), elems_view(a2@)),
        1 <= i <= a1@.len(),
        1 <= j <= a2@.len(),
    ensures
        ({
            let sa = elems_view(a1@);
            let sb = elems_view(a2@);
            match r {
                Some((d, s)) => diag_match(sa, sb, i as int, j as int) && spec_value_diff(
                    sa[i - 1],
                    sb[j - 1],
                ) == Some((d@, s)) && s.wf(),
                None => !diag_match(sa, sb, i as int, j as int),
            }
        }),
    decreases height_elems(elems_view(a1@)) + height_elems(elems_view(a2@)) + 2, 6int, 0nat,
{
    let ghost sa = elems_view(a1@);
    let ghost sb = elems_view(a2@);
    proof {
        assert(sa.len() == a1@.len());
        assert(sb.len() == a2@.len());
        assert(sa[i as int - 1] == a1@[i as int - 1]@);
        assert(sb[j as int - 1] == a2@[j as int - 1]@);
        assert(spec_cell(sa, sb, i as int, j as int) == Some(m@[i as int]@[j as int]));
        assert(cell_or_zero(sa, sb, i as int, j as int) == m@[i as int]@[j as int]);
        assert(spec_cell(sa, sb, i as int - 1, j as int - 1) == Some(
            m@[i as int - 1]@[j as int - 1],
        ));
        assert(cell_or_zero(sa, sb, i as int - 1, j as int - 1) == m@[i as int - 1]@[j as int
            - 1]);
    }
    let ds = crate::diff::value_diff(&a1[i - 1], &a2[j - 1]);
    match ds {
        None => {
            proof {
                assert(spec_cell(sa, sb, i as int, j as int) is None);
                assert(false);
            }
            None
        },
        Some((d, s)) => {
            if s.num > 0 {
                let diag: Rat = m[i - 1][j - 1];
                let cur: Rat = m[i][j];
                match rat_add(diag, s) {
                    None => {
                        proof {
                            assert(spec_cell(sa, sb, i as int, j as int) is None);
                            assert(false);
                        }
                        None
                    },
                    Some(ds2) => {
                        if cur == ds2 {
                            proof {
                                assert(spec_value_diff(sa[i as int - 1], sb[j as int - 1])
                                    == Some((d@, s)));
                                assert(spec_rat_lt(crate::rat::rat_zero(), s));
                                assert(spec_rat_add(
                                    cell_or_zero(sa, sb, i as int - 1, j as int - 1),
                                    s,
                                ) == Some(cell_or_zero(sa, sb, i as int, j as int)));
                                assert(diag_match(sa, sb, i as int, j as int));
                            }
                            Some((d, s))
                        } else {
                            proof {
                                assert(!diag_match(sa, sb, i as int, j as int));
                            }
                            None
                        }
                    },
                }
            } else {
                proof {
                    assert(!diag_match(sa, sb, i as int, j as int));
                }
                None
            }
        },
    }
}

/// Walks a filled matrix from `(i, j)` back to the origin, yielding the
/// alignment operations in ascending position order.
#[verifier::rlimit(100)]
pub fn rec_length(
    m: &Vec<Vec<Rat>>,
    a1: &Vec<Value>,
    a2: &Vec<Value>,
    i: usize,
    j: usize,
) -> (r: Vec<Length>)
    requires
        matrix_ok(m@, elems_view(a1@), elems_view(a2@)),
        i <= a1@.len(),
        j <= a2@.len(),
    ensures
        ops_view(r@) == spec_backtrack(elems_view(a1@), elems_view(a2@), i as int, j as int),
        forall|t: int| 0 <= t < r@.len() ==> (#[trigger] r@[t]).similarity.wf(),
    decreases height_elems(elems_view(a1@)) + height_elems(elems_view(a2@)) + 2, 7int, i + j,
{
    let ghost sa = elems_view(a1@);
    let ghost sb = elems_view(a2@);
    proof {
        assert(sa.len() == a1@.len());
        assert(sb.len() == a2@.len());
        if i > 0 {
            assert(spec_cell(sa, sb, i as int - 1, j as int) == Some(m@[i as int - 1]@[j as int]));
            assert(cell_or_zero(sa, sb, i as int - 1, j as int) == m@[i as int - 1]@[j as int]);
            assert(sa[i as int - 1] == a1@[i as int - 1]@);
        }
        if j > 0 {
            assert(spec_cell(sa, sb, i as int, j as int - 1) == Some(m@[i as int]@[j as int - 1]));
            assert(cell_or_zero(sa, sb, i as int, j as int - 1) == m@[i as int]@[j as int - 1]);
            assert(sb[j as int - 1] == a2@[j as int - 1]@);
        }
    }
    let mut take_diag = false;
    let mut dval = Value::Null;
    let mut dsim = Rat { num: 0, den: 1 };
    if i > 0 && j > 0 {
        match diag_step(m, a1, a2, i, j) {
            Some((d, s)) => {
                take_diag = true;
                dval = d;
                dsim = s;
            },
            None => {},
        }
    }
    if take_diag {
        let mut rest = rec_length(m, a1, a2, i - 1, j - 1);
        let ghost prev = rest@;
        let op = Length { sign: Sign::Zero, value: dval, position: j - 1, similarity: dsim };
        let ghost opg = op;
        rest.push(op);
        proof {
            lemma_ops_view_push(prev, opg);
            assert(ops_view(rest@) =~= spec_backtrack(sa, sb, i as int, j as int));
        }
        return rest;
    }
    if j > 0 && (i == 0 || rat_le(m[i - 1][j], m[i][j - 1])) {
        let mut rest = rec_length(m, a1, a2, i, j - 1);
        let ghost prev = rest@;
        let val = deep_clone(&a2[j - 1]);
        let op = Length::new(Sign::Positive, val, j - 1, Rat { num: 0, den: 1 });
        let ghost opg = op;
        rest.push(op);
        proof {
            lemma_ops_view_push(prev, opg);
            assert(ops_view(rest@) =~= spec_backtrack(sa, sb, i as int, j as int));
        }
        return rest;
    }
    if i > 0 && (j == 0 || rat_lt(m[i][j - 1], m[i - 1][j])) {
        let mut rest = rec_length(m, a1, a2, i - 1, j);
        let ghost prev = rest@;
        let val = deep_clone(&a1[i - 1]);
        let op = Length::new(Sign::Negative, val, i - 1, Rat { num: 0, den: 1 });
        let ghost opg = op;
        rest.push(op);
        proof {
            lemma_ops_view_push(prev, opg);
            assert(ops_view(rest@) =~= spec_backtrack(sa, sb, i as int, j as int));
        }
        return rest;
    }
    proof {
        assert(i == 0 && j == 0);
        assert(ops_view(Seq::<Length>::empty()) =~= spec_backtrack(sa, sb, 0, 0));
    }
    Vec::new()
}

/// The alignment operations that turn the first array into the second,
/// or `None` when some cell's exact score cannot be represented.
pub fn length(array1: &Value, array2: &Value) -> (r: Option<Vec<Length>>)
    requires
        array1@ is Arr,
        array2@ is Arr,
        array1@->Arr_0.len() < usize::MAX,
        array2@->Arr_0.len() < usize::MAX,
    ensures
        ({
            let sa = array1@->Arr_0;
            let sb = array2@->Arr_0;
            match r {
                Some(ops) => spec_cell(sa, sb, sa.len() as int, sb.len() as int) is Some
                    && ops_view(ops@) == spec_backtrack(sa, sb, sa.len() as int, sb.len() as int),
                None => spec_cell(sa, sb, sa.len() as int, sb.len() as int) is None,
            }
        }),
{
    match (array1, array2) {
        (Value::Arr(x), Value::Arr(y)) => {
            let ghost sa = elems_view(x@);
            let ghost sb = elems_view(y@);
            proof {
                assert(array1@ == SpecValue::Arr(sa));
                assert(array2@ == SpecValue::Arr(sb));
            }
            match init_matrix(x, y) {
                None => None,
                Some(m) => {
                    proof {
                        assert(spec_cell(sa, sb, sa.len() as int, sb.len() as int) == Some(
                            m@[sa.len() as int]@[sb.len() as int],
                        ));
                    }
                    Some(rec_length(&m, x, y, x.len(), y.len()))
                },
            }
        },
        _ => {
            proof {
                assert(false);
            }
            None
        },
    }
}

} // verus!

//! The difference and similarity of two values: the recursive entry
//! point, the object comparison, and the array comparison over the
//! alignment matrix.

use crate::decimal::dec_string;
use crate::matrix::{init_matrix, matrix_ok, ops_view, rec_length};
use crate::model::{
    arr_diff_tree, obj_acc_init, obj_diff_tree, ops_acc_init, pairs_tree, spec_added,
    spec_arr_diff, spec_arr_diff_in_range, spec_backtrack, spec_cell, spec_fold_ops, spec_obj_diff,
    spec_obj_scan, spec_value_diff, ObjAcc, OpsAcc, Sign,
};
use crate::rat::{rat_add, rat_div, rat_half_credit, Rat};
use crate::value::{
    deep_clone, elems_view, empty_object, fields_view, find_key, height, height_elems,
    height_fields, key_index, lemma_fields_view_push, value_eq, Num, SpecValue, Value,
};
use vstd::prelude::*;

verus! {

broadcast use {crate::value::lemma_height_elem, crate::value::lemma_height_field};

/// The models of a sequence of position-value pairs, elementwise.
pub open spec fn pos_pairs_view(s: Seq<(usize, Value)>) -> Seq<(int, SpecValue)> {
    Seq::new(
        s.len(),
        |i: int|
            if 0 <= i < s.len() {
                (s[i].0 as int, s[i].1@)
            } else {
                (0int, SpecValue::Null)
            },
    )
}

/// Appending a position-value pair appends its model.
pub proof fn lemma_pos_pairs_view_push(s: Seq<(usize, Value)>, p: usize, v: Value)
    ensures
        pos_pairs_view(s.push((p, v))) == pos_pairs_view(s).push((p as int, v@)),
{
    assert(pos_pairs_view(s.push((p, v))) =~= pos_pairs_view(s).push((p as int, v@)));
}

/// A sequence of position-value pairs as a value: an array of
/// two-element arrays.
fn build_pairs(ps: Vec<(usize, Value)>) -> (r: Value)
    ensures
        r@ == pairs_tree(pos_pairs_view(ps@)),
{
    let mut out: Vec<Value> = Vec::new();
    let mut i: usize = 0;
    while i < ps.len()
        invariant
            i <= ps@.len(),
            out@.len() == i,
            forall|k: int|
                0 <= k < i ==> (#[trigger] out@[k])@ == SpecValue::Arr(
                    seq![SpecValue::Num(Num::Uint(ps@[k].0 as u64)), ps@[k].1@],
                ),
        decreases ps@.len() - i,
    {
        let pos = ps[i].0;
        let val = deep_clone(&ps[i].1);
        let ghost valv = val@;
        let mut pv: Vec<Value> = Vec::new();
        pv.push(Value::Num(Num::Uint(pos as u64)));
        pv.push(val);
        proof {
            assert(elems_view(pv@) =~= seq![
                SpecValue::Num(Num::Uint(ps@[i as int].0 as u64)),
                valv,
            ]);
        }
        out.push(Value::Arr(pv));
        i += 1;
    }
    proof {
        assert(elems_view(out@) =~= pairs_tree(pos_pairs_view(ps@))->Arr_0);
    }
    Value::Arr(out)
}

/// An object holding the non-empty partitions of an object difference.
fn build_obj_tree(
    added: Vec<(String, Value)>,
    removed: Vec<(String, Value)>,
    changed: Vec<(String, Value)>,
) -> (r: Value)
    ensures
        r@ == obj_diff_tree(fields_view(added@), fields_view(removed@), fields_view(changed@)),
{
    if added.len() == 0 && removed.len() == 0 && changed.len() == 0 {
        proof {
            assert(fields_view(Seq::<(String, Value)>::empty())
                =~= Seq::<(Seq<char>, SpecValue)>::empty());
        }
        Value::Obj(Vec::new())
    } else {
        let mut fs: Vec<(String, Value)> = Vec::new();
        if added.len() > 0 {
            fs.push(("added".to_owned(), Value::Obj(added)));
        }
        if removed.len() > 0 {
            fs.push(("removed".to_owned(), Value::Obj(removed)));
        }
        if changed.len() > 0 {
            fs.push(("changed".to_owned(), Value::Obj(changed)));
        }
        proof {
            assert(fields_view(fs@) =~= obj_diff_tree(
                fields_view(added@),
                fields_view(removed@),
                fields_view(changed@),
            )->Obj_0);
        }
        Value::Obj(fs)
    }
}

/// An object holding the non-empty partitions of an array difference.
fn build_arr_tree(
    inserted: Vec<(usize, Value)>,
    deleted: Vec<(usize, Value)>,
    changed: Vec<(String, Value)>,
) -> (r: Value)
    requires
        inserted@.len() > 0 || deleted@.len() > 0 || changed@.len() > 0,
    ensures
        r@ == arr_diff_tree(
            pos_pairs_view(inserted@),
            pos_pairs_view(deleted@),
            fields_view(changed@),
        ),
{
    let mut fs: Vec<(String, Value)> = Vec::new();
    if inserted.len() > 0 {
        let tree = build_pairs(inserted);
        fs.push(("inserted".to_owned(), tree));
    }
    if deleted.len() > 0 {
        let tree = build_pairs(deleted);
        fs.push(("deleted".to_owned(), tree));
    }
    if changed.len() > 0 {
        fs.push(("changed".to_owned(), Value::Obj(changed)));
    }
    proof {
        assert(fields_view(fs@) =~= arr_diff_tree(
            pos_pairs_view(inserted@),
            pos_pairs_view(deleted@),
            fields_view(changed@),
        )->Obj_0);
    }
    Value::Obj(fs)
}

/// The difference and similarity of two objects.
fn obj_diff(a: &Value, b: &Value) -> (r: Option<(Value, Rat)>)
    requires
        a@ is Obj,
        b@ is Obj,
    ensures
        ({
            match (r, spec_obj_diff(a@->Obj_0, b@->Obj_0)) {
                (Some((d, s)), Some((sd, ss))) => d@ == sd && s == ss && s.wf(),
                (None, None) => true,
                _ => false,
            }
        }),
    decreases height(a@) + height(b@), 9int, 0nat,
{
    match (a, b) {
        (Value::Obj(fa), Value::Obj(fb)) => {
            let ghost sfa = fields_view(fa@);
            let ghost sfb = fields_view(fb@);
            proof {
                assert(a@ == SpecValue::Obj(sfa));
                assert(b@ == SpecValue::Obj(sfb));
                assert(sfa.len() == fa@.len());
                assert(sfb.len() == fb@.len());
                assert(fields_view(Seq::<(String, Value)>::empty())
                    =~= Seq::<(Seq<char>, SpecValue)>::empty());
            }
            let mut removed: Vec<(String, Value)> = Vec::new();
            let mut changed: Vec<(String, Value)> = Vec::new();
            let mut smatched = Rat { num: 0, den: 1 };
            let mut k: usize = 0;
            while k < fa.len()
                invariant
                    k <= fa@.len(),
                    sfa == fields_view(fa@),
                    sfb == fields_view(fb@),
                    a@ == SpecValue::Obj(sfa),
                    b@ == SpecValue::Obj(sfb),
                    smatched.wf(),
                    spec_obj_scan(sfa, sfb, 0, obj_acc_init()) == spec_obj_scan(
                        sfa,
                        sfb,
                        k as int,
                        ObjAcc {
                            removed: fields_view(removed@),
                            changed: fields_view(changed@),
                            smatched,
                        },
                    ),
                decreases fa@.len() - k,
            {
                let ghost acc = ObjAcc {
                    removed: fields_view(removed@),
                    changed: fields_view(changed@),
                    smatched,
                };
                proof {
                    assert(sfa[k as int].0 == fa@[k as int].0@);
                    assert(sfa[k as int].1 == fa@[k as int].1@);
                }
                match find_key(fb, &fa[k].0) {
                    Some(jj) => {
                        proof {
                            assert(key_index(sfb, sfa[k as int].0) == jj as int);
                            assert(sfb[jj as int].1 == fb@[jj as int].1@);
                        }
                        match value_diff(&fa[k].1, &fb[jj].1) {
                            None => {
                                proof {
                                    assert(spec_obj_scan(sfa, sfb, k as int, acc) is None);
                                }
                                return None;
                            },
                            Some((d, s)) => {
                                match rat_half_credit(s) {
                                    None => {
                                        proof {
                                            assert(spec_obj_scan(sfa, sfb, k as int, acc) is None);
                                        }
                                        return None;
                                    },
                                    Some(hc) => {
                                        match rat_add(smatched, hc) {
                                            None => {
                                                proof {
                                                    assert(spec_obj_scan(sfa, sfb, k as int, acc)
                                                        is None);
                                                }
                                                return None;
                                            },
                                            Some(sm2) => {
                                                let ghost oldchanged = changed@;
                                                if s.num < s.den {
                                                    let keyc = fa[k].0.clone();
                                                    changed.push((keyc, d));
                                                    proof {
                                                        lemma_fields_view_push(
                                                            oldchanged,
                                                            fa@[k as int].0,
                                                            changed@[changed@.len() - 1].1,
                                                        );
                                                    }
                                                }
                                                smatched = sm2;
                                                proof {
                                                    assert(spec_obj_scan(sfa, sfb, k as int, acc)
                                                        == spec_obj_scan(
                                                        sfa,
                                                        sfb,
                                                        k as int + 1,
                                                        ObjAcc {
                                                            removed: fields_view(removed@),
                                                            changed: fields_view(changed@),
                                                            smatched,
                                                        },
                                                    ));
                                                }
                                            },
                                        }
                                    },
                                }
                            },
                        }
                    },
                    None => {
                        proof {
                            assert(key_index(sfb, sfa[k as int].0) == -1);
                        }
                        let ghost oldremoved = removed@;
                        let keyc = fa[k].0.clone();
                        let vc = deep_clone(&fa[k].1);
                        removed.push((keyc, vc));
                        proof {
                            lemma_fields_view_push(
                                oldremoved,
                                removed@[removed@.len() - 1].0,
                                removed@[removed@.len() - 1].1,
                            );
                            assert(fields_view(removed@) == fields_view(oldremoved).push(
                                sfa[k as int],
                            ));
                            assert(spec_obj_scan(sfa, sfb, k as int, acc) == spec_obj_scan(
                                sfa,
                                sfb,
                                k as int + 1,
                                ObjAcc {
                                    removed: fields_view(removed@),
                                    changed: fields_view(changed@),
                                    smatched,
                                },
                            ));
                        }
                    },
                }
                k += 1;
            }
            proof {
                assert(spec_obj_scan(sfa, sfb, fa@.len() as int, ObjAcc {
                    removed: fields_view(removed@),
                    changed: fields_view(changed@),
                    smatched,
                }) == Some(ObjAcc {
                    removed: fields_view(removed@),
                    changed: fields_view(changed@),
                    smatched,
                }));
            }

            let mut added: Vec<(String, Value)> = Vec::new();
            let mut t: usize = 0;
            while t < fb.len()
                invariant
                    t <= fb@.len(),
                    sfa == fields_view(fa@),
                    sfb == fields_view(fb@),
                    spec_added(sfa, sfb, 0) == fields_view(added@) + spec_added(
                        sfa,
                        sfb,
                        t as int,
                    ),
                decreases fb@.len() - t,
            {
                proof {
                    assert(sfb[t as int].0 == fb@[t as int].0@);
                    assert(sfb[t as int].1 == fb@[t as int].1@);
                }
                match find_key(fa, &fb[t].0) {
                    Some(_) => {
                        proof {
                            assert(spec_added(sfa, sfb, t as int) == spec_added(
                                sfa,
                                sfb,
                                t as int + 1,
                            ));
                        }
                    },
                    None => {
                        let ghost oldadded = added@;
                        let keyc = fb[t].0.clone();
                        let vc = deep_clone(&fb[t].1);
                        added.push((keyc, vc));
                        proof {
                            lemma_fields_view_push(
                                oldadded,
                                added@[added@.len() - 1].0,
                                added@[added@.len() - 1].1,
                            );
                            assert(spec_added(sfa, sfb, t as int) == seq![sfb[t as int]]
                                + spec_added(sfa, sfb, t as int + 1));
                            assert(fields_view(added@) + spec_added(sfa, sfb, t as int + 1)
                                =~= fields_view(oldadded) + spec_added(sfa, sfb, t as int));
                        }
                    },
                }
                t += 1;
            }
            proof {
                assert(spec_added(sfa, sfb, fb@.len() as int) == Seq::<(Seq<char>, SpecValue)>::empty());
                assert(spec_added(sfa, sfb, 0) =~= fields_view(added@));
            }

            let n_tot: u128 = fa.len() as u128 + added.len() as u128;
            let s_final: Rat;
            if n_tot != 0 {
                match rat_div(smatched, n_tot) {
                    None => {
                        return None;
                    },
                    Some(sv) => {
                        s_final = sv;
                    },
                }
            } else {
                s_final = Rat { num: 1, den: 1 };
            }
            let tree = build_obj_tree(added, removed, changed);
            Some((tree, s_final))
        },
        _ => {
            proof {
                assert(false);
            }
            None
        },
    }
}

/// The difference and similarity of two arrays.
fn array_diff(a: &Value, b: &Value) -> (r: Option<(Value, Rat)>)
    requires
        a@ is Arr,
        b@ is Arr,
    ensures
        ({
            match (r, spec_arr_diff(a@->Arr_0, b@->Arr_0)) {
                (Some((d, s)), Some((sd, ss))) => d@ == sd && s == ss && s.wf(),
                (None, None) => true,
                _ => false,
            }
        }),
    decreases height(a@) + height(b@), 9int, 0nat,
{
    match (a, b) {
        (Value::Arr(xv), Value::Arr(yv)) => {
            let ghost sa = elems_view(xv@);
            let ghost sb = elems_view(yv@);
            proof {
                assert(a@ == SpecValue::Arr(sa));
                assert(b@ == SpecValue::Arr(sb));
                assert(sa.len() == xv@.len());
                assert(sb.len() == yv@.len());
            }
            if xv.len() == usize::MAX || yv.len() == usize::MAX {
                return None;
            }
            proof {
                assert(spec_arr_diff(sa, sb) == spec_arr_diff_in_range(sa, sb));
            }
            match init_matrix(xv, yv) {
                None => {
                    return None;
                },
                Some(m) => {
                    proof {
                        assert(spec_cell(sa, sb, sa.len() as int, sb.len() as int) == Some(
                            m@[sa.len() as int]@[sb.len() as int],
                        ));
                        assert(fields_view(Seq::<(String, Value)>::empty())
                            =~= Seq::<(Seq<char>, SpecValue)>::empty());
                        assert(pos_pairs_view(Seq::<(usize, Value)>::empty())
                            =~= Seq::<(int, SpecValue)>::empty());
                    }
                    let ops = rec_length(&m, xv, yv, xv.len(), yv.len());
                    let ghost sops = ops_view(ops@);
                    let mut inserted: Vec<(usize, Value)> = Vec::new();
                    let mut deleted: Vec<(usize, Value)> = Vec::new();
                    let mut changed: Vec<(String, Value)> = Vec::new();
                    let mut tots = Rat { num: 0, den: 1 };
                    let mut k: usize = 0;
                    while k < ops.len()
                        invariant
                            k <= ops@.len(),
                            sops == ops_view(ops@),
                            a@ == SpecValue::Arr(sa),
                            b@ == SpecValue::Arr(sb),
                            sa.len() == xv@.len(),
                            sb.len() == yv@.len(),
                            sa.len() < usize::MAX,
                            sb.len() < usize::MAX,
                            spec_arr_diff(sa, sb) == spec_arr_diff_in_range(sa, sb),
                            spec_cell(sa, sb, sa.len() as int, sb.len() as int) is Some,
                            sops == spec_backtrack(sa, sb, sa.len() as int, sb.len() as int),
                            tots.wf(),
                            forall|t: int|
                                0 <= t < ops@.len() ==> (#[trigger] ops@[t]).similarity.wf(),
                            spec_fold_ops(sops, 0, ops_acc_init()) == spec_fold_ops(
                                sops,
                                k as int,
                                OpsAcc {
                                    inserted: pos_pairs_view(inserted@),
                                    deleted: pos_pairs_view(deleted@),
                                    changed: fields_view(changed@),
                                    tots,
                                },
                            ),
                        decreases ops@.len() - k,
                    {
                        let ghost acc = OpsAcc {
                            inserted: pos_pairs_view(inserted@),
                            deleted: pos_pairs_view(deleted@),
                            changed: fields_view(changed@),
                            tots,
                        };
                        proof {
                            assert(sops[k as int] == ops@[k as int]@);
                        }
                        let sim = ops[k].similarity;
                        match ops[k].sign {
                            Sign::Positive => {
                                let ghost oldins = inserted@;
                                let pos = ops[k].position;
                                let vc = deep_clone(&ops[k].value);
                                inserted.push((pos, vc));
                                proof {
                                    lemma_pos_pairs_view_push(
                                        oldins,
                                        pos,
                                        inserted@[inserted@.len() - 1].1,
                                    );
                                    assert(pos_pairs_view(inserted@) == acc.inserted.push(
                                        (sops[k as int].position, sops[k as int].value),
                                    ));
                                }
                            },
                            Sign::Negative => {
                                let ghost olddel = deleted@;
                                let pos = ops[k].position;
                                let vc = deep_clone(&ops[k].value);
                                deleted.push((pos, vc));
                                proof {
                                    lemma_pos_pairs_view_push(
                                        olddel,
                                        pos,
                                        deleted@[deleted@.len() - 1].1,
                                    );
                                    assert(pos_pairs_view(deleted@) == acc.deleted.push(
                                        (sops[k as int].position, sops[k as int].value),
                                    ));
                                }
                            },
                            Sign::Zero => {
                                if sim.num < sim.den {
                                    let ghost oldch = changed@;
                                    let pos = ops[k].position;
                                    let keyc = dec_string(pos as u64);
                                    let vc = deep_clone(&ops[k].value);
                                    changed.push((keyc, vc));
                                    proof {
                                        lemma_fields_view_push(
                                            oldch,
                                            changed@[changed@.len() - 1].0,
                                            changed@[changed@.len() - 1].1,
                                        );
                                        assert((pos as u64) as nat == sops[k as int].position
                                            as nat);
                                        assert(fields_view(changed@) == acc.changed.push(
                                            (
                                                crate::decimal::spec_dec(
                                                    sops[k as int].position as nat,
                                                ),
                                                sops[k as int].value,
                                            ),
                                        ));
                                    }
                                }
                            },
                        }
                        match rat_add(tots, sim) {
                            None => {
                                proof {
                                    assert(spec_fold_ops(sops, k as int, acc) is None);
                                }
                                return None;
                            },
                            Some(t2) => {
                                tots = t2;
                            },
                        }
                        proof {
                            assert(spec_fold_ops(sops, k as int, acc) == spec_fold_ops(
                                sops,
                                k as int + 1,
                                OpsAcc {
                                    inserted: pos_pairs_view(inserted@),
                                    deleted: pos_pairs_view(deleted@),
                                    changed: fields_view(changed@),
                                    tots,
                                },
                            ));
                        }
                        k += 1;
                    }
                    let ghost accf = OpsAcc {
                        inserted: pos_pairs_view(inserted@),
                        deleted: pos_pairs_view(deleted@),
                        changed: fields_view(changed@),
                        tots,
                    };
                    proof {
                        assert(spec_fold_ops(sops, ops@.len() as int, accf) == Some(accf));
                    }
                    let tot_n: u128 = xv.len() as u128 + inserted.len() as u128;
                    let s_final: Rat;
                    if tot_n != 0 {
                        match rat_div(tots, tot_n) {
                            None => {
                                return None;
                            },
                            Some(sv) => {
                                s_final = sv;
                            },
                        }
                    } else {
                        s_final = Rat { num: 1, den: 1 };
                    }
                    let tree: Value;
                    if s_final.num == 0 {
                        tree = deep_clone(b);
                    } else if s_final.num == s_final.den {
                        proof {
                            assert(fields_view(Seq::<(String, Value)>::empty())
                                =~= Seq::<(Seq<char>, SpecValue)>::empty());
                        }
                        tree = Value::Obj(Vec::new());
                    } else if inserted.len() == 0 && deleted.len() == 0 && changed.len() == 0 {
                        proof {
                            assert(fields_view(Seq::<(String, Value)>::empty())
                                =~= Seq::<(Seq<char>, SpecValue)>::empty());
                        }
                        tree = Value::Obj(Vec::new());
                    } else {
                        tree = build_arr_tree(inserted, deleted, changed);
                    }
                    Some((tree, s_final))
                },
            }
        },
        _ => {
            proof {
                assert(false);
            }
            None
        },
    }
}

/// The difference of two values, with their similarity score, or `None`
/// when an exact score cannot be represented.
///
/// Equal values yield an empty object and similarity one; two objects or
/// two arrays are compared structurally; any other pair yields a copy of
/// the second value and similarity zero.
pub fn value_diff(a: &Value, b: &Value) -> (r: Option<(Value, Rat)>)
    ensures
        ({
            match (r, spec_value_diff(a@, b@)) {
                (Some((d, s)), Some((sd, ss))) => d@ == sd && s == ss && s.wf(),
                (None, None) => true,
                _ => false,
            }
        }),
    decreases height(a@) + height(b@), 10int, 0nat,
{
    if value_eq(a, b) {
        proof {
            assert(fields_view(Seq::<(String, Value)>::empty())
                =~= Seq::<(Seq<char>, SpecValue)>::empty());
        }
        return Some((Value::Obj(Vec::new()), Rat { num: 1, den: 1 }));
    }
    match (a, b) {
        (Value::Obj(_), Value::Obj(_)) => obj_diff(a, b),
        (Value::Arr(_), Value::Arr(_)) => array_diff(a, b),
        _ => Some((deep_clone(b), Rat { num: 0, den: 1 })),
    }
}

/// The difference of two values, or `None` when an exact similarity
/// score cannot be represented along the way.
pub fn diff(a: &Value, b: &Value) -> (r: Option<Value>)
    ensures
        ({
            match (r, spec_value_diff(a@, b@)) {
                (Some(d), Some((sd, _))) => d@ == sd,
                (None, None) => true,
                _ => false,
            }
        }),
{
    match value_diff(a, b) {
        Some((d, _)) => Some(d),
        None => None,
    }
}

/// The similarity of two values, or `None` when an exact score cannot
/// be represented. A returned score always lies in the unit interval,
/// and the whole result is a function of the two values' models, so two
/// calls on equal inputs return equal results.
pub fn similarity(a: &Value, b: &Value) -> (r: Option<Rat>)
    ensures
        ({
            match (r, spec_value_diff(a@, b@)) {
                (Some(s), Some((_, ss))) => s == ss && s.wf() && s.num <= s.den,
                (None, None) => true,
                _ => false,
            }
        }),
{
    proof {
        crate::laws::lemma_score_in_unit(a@, b@);
    }
    match value_diff(a, b) {
        Some((_, s)) => Some(s),
        None => None,
    }
}

/// The difference of two values, as `diff`.
pub fn compare(a: &Value, b: &Value) -> (r: Option<Value>)
    ensures
        ({
            match (r, spec_value_diff(a@, b@)) {
                (Some(d), Some((sd, _))) => d@ == sd,
                (None, None) => true,
                _ => false,
            }
        }),
{
    diff(a, b)
}

} // verus!

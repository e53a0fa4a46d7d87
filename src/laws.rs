//! What holds of planning and applying, over the models that the contracts
//! of the planner and the objects managers speak of.
use vstd::prelude::*;
use crate::actions::{
    absent_from, apply_op, apply_ops, changed_in, create_ops, delete_ops, modify_ops, plan_ops,
    Action, OperationCreate, OperationDelete, OperationModify,
};
use crate::object::{
    float_eq, has_id, is_listing, is_nan, lemma_objects_map, lemma_objects_map_domain, objects_map,
    unique_ids, Object, ObjectID,
};

verus! {

/// Applying `x + y` applies `x`, then `y`.
proof fn lemma_apply_concat(x: Seq<Action>, y: Seq<Action>, m: Map<ObjectID, u64>)
    ensures
        apply_ops(x + y, m) == apply_ops(y, apply_ops(x, m)),
    decreases y.len(),
{
    if y.len() == 0 {
        assert(x + y =~= x);
    } else {
        lemma_apply_concat(x, y.drop_last(), m);
        assert((x + y).drop_last() =~= x + y.drop_last());
        assert((x + y).last() == y.last());
    }
}

/// Applying a one-operation sequence applies that operation.
proof fn lemma_apply_single(op: Action, m: Map<ObjectID, u64>)
    ensures
        apply_ops(seq![op], m) == apply_op(op, m),
{
    assert(seq![op].drop_last() =~= Seq::<Action>::empty());
    assert(apply_ops(Seq::<Action>::empty(), m) == m);
    assert(seq![op].last() == op);
}

/// An identifier is held by a nonempty sequence iff its last object or the
/// rest holds it.
proof fn lemma_has_id_last(s: Seq<Object>)
    requires
        s.len() > 0,
    ensures
        forall|k: ObjectID|
            #[trigger] has_id(s, k) <==> has_id(s.drop_last(), k) || s.last().id == k,
{
    let p = s.drop_last();
    assert forall|k: ObjectID| #[trigger] has_id(s, k) <==> has_id(p, k) || s.last().id == k by {
        if has_id(s, k) {
            let i = choose|i: int| 0 <= i < s.len() && #[trigger] s[i].id == k;
            if i < s.len() - 1 {
                assert(p[i].id == k);
            }
        }
        if has_id(p, k) {
            let i = choose|i: int| 0 <= i < p.len() && #[trigger] p[i].id == k;
            assert(s[i].id == k);
        }
        if s.last().id == k {
            assert(s[s.len() - 1].id == k);
        }
    }
}

/// A filter that keeps no element of `s` yields nothing.
proof fn lemma_filter_none(s: Seq<Object>, pred: spec_fn(Object) -> bool)
    requires
        forall|i: int| 0 <= i < s.len() ==> !pred(#[trigger] s[i]),
    ensures
        s.filter(pred) == Seq::<Object>::empty(),
    decreases s.len(),
{
    reveal(Seq::filter);
    if s.len() > 0 {
        let p = s.drop_last();
        assert forall|i: int| 0 <= i < p.len() implies !pred(#[trigger] p[i]) by {
            assert(p[i] == s[i]);
        }
        lemma_filter_none(p, pred);
        assert(!pred(s[s.len() - 1]));
    }
}

/// Splits off the last object of `desired` in the create pass.
proof fn lemma_create_ops_last(desired: Seq<Object>, existing: Seq<Object>)
    requires
        desired.len() > 0,
    ensures
        create_ops(desired, existing) == create_ops(desired.drop_last(), existing) + if (absent_from(
            existing,
        ))(desired.last()) {
            seq![Action::Create(OperationCreate { object: desired.last() })]
        } else {
            Seq::<Action>::empty()
        },
{
    reveal(Seq::filter);
    assert(create_ops(desired, existing) =~= create_ops(desired.drop_last(), existing) + if (
    absent_from(existing))(desired.last()) {
        seq![Action::Create(OperationCreate { object: desired.last() })]
    } else {
        Seq::<Action>::empty()
    });
}

/// Splits off the last object of `desired` in the modify pass.
proof fn lemma_modify_ops_last(desired: Seq<Object>, existing: Seq<Object>)
    requires
        desired.len() > 0,
    ensures
        modify_ops(desired, existing) == modify_ops(desired.drop_last(), existing) + if (changed_in(
            existing,
        ))(desired.last()) {
            seq![
                Action::Modify(
                    OperationModify { object_id: desired.last().id, value: desired.last().value },
                ),
            ]
        } else {
            Seq::<Action>::empty()
        },
{
    reveal(Seq::filter);
    assert(modify_ops(desired, existing) =~= modify_ops(desired.drop_last(), existing) + if (
    changed_in(existing))(desired.last()) {
        seq![
            Action::Modify(
                OperationModify { object_id: desired.last().id, value: desired.last().value },
            ),
        ]
    } else {
        Seq::<Action>::empty()
    });
}

/// Splits off the last object of `existing` in the delete pass.
proof fn lemma_delete_ops_last(desired: Seq<Object>, existing: Seq<Object>)
    requires
        existing.len() > 0,
    ensures
        delete_ops(desired, existing) == delete_ops(desired, existing.drop_last()) + if (absent_from(
            desired,
        ))(existing.last()) {
            seq![Action::Delete(OperationDelete { object_id: existing.last().id })]
        } else {
            Seq::<Action>::empty()
        },
{
    reveal(Seq::filter);
    assert(delete_ops(desired, existing) =~= delete_ops(desired, existing.drop_last()) + if (
    absent_from(desired))(existing.last()) {
        seq![Action::Delete(OperationDelete { object_id: existing.last().id })]
    } else {
        Seq::<Action>::empty()
    });
}

/// Every element that a filter keeps carries an identifier of `s`.
proof fn lemma_filter_ids(s: Seq<Object>, pred: spec_fn(Object) -> bool)
    ensures
        forall|i: int|
            0 <= i < s.filter(pred).len() ==> pred(#[trigger] s.filter(pred)[i]) && has_id(
                s,
                s.filter(pred)[i].id,
            ),
    decreases s.len(),
{
    reveal(Seq::filter);
    if s.len() > 0 {
        let p = s.drop_last();
        lemma_filter_ids(p, pred);
        lemma_has_id_last(s);
        let f = s.filter(pred);
        assert forall|i: int| 0 <= i < f.len() implies pred(#[trigger] f[i]) && has_id(s, f[i].id) by {
            if i < p.filter(pred).len() {
                assert(f[i] == p.filter(pred)[i]);
            }
        }
    }
}

/// What the create pass does to a state `m`: it adds each desired object
/// that `existing` lacks, with its desired value, and leaves the rest.
proof fn lemma_creates_effect(desired: Seq<Object>, existing: Seq<Object>, m: Map<ObjectID, u64>)
    ensures
        forall|k: ObjectID| #[trigger]
            apply_ops(create_ops(desired, existing), m).contains_key(k) <==> (m.contains_key(k) || (
            has_id(desired, k) && !has_id(existing, k))),
        forall|k: ObjectID|
            has_id(desired, k) && !has_id(existing, k) ==> #[trigger] apply_ops(
                create_ops(desired, existing),
                m,
            )[k] == objects_map(desired)[k],
        forall|k: ObjectID|
            !(has_id(desired, k) && !has_id(existing, k)) && m.contains_key(k) ==> #[trigger] apply_ops(
                create_ops(desired, existing),
                m,
            )[k] == m[k],
    decreases desired.len(),
{
    if desired.len() == 0 {
        reveal(Seq::filter);
        assert(create_ops(desired, existing) =~= Seq::<Action>::empty());
    } else {
        let p = desired.drop_last();
        let o = desired.last();
        lemma_creates_effect(p, existing, m);
        lemma_create_ops_last(desired, existing);
        lemma_has_id_last(desired);
        let op = Action::Create(OperationCreate { object: o });
        let added = if (absent_from(existing))(o) {
            seq![op]
        } else {
            Seq::<Action>::empty()
        };
        lemma_apply_concat(create_ops(p, existing), added, m);
        let r1 = apply_ops(create_ops(p, existing), m);
        if (absent_from(existing))(o) {
            lemma_apply_single(op, r1);
        } else {
            assert(apply_ops(added, r1) == r1);
        }
    }
}

/// A desired identifier that `existing` holds with a value that does not
/// compare equal: the modify pass targets it.
pub open spec fn is_modify_candidate(
    desired: Seq<Object>,
    existing: Seq<Object>,
    k: ObjectID,
) -> bool {
    has_id(desired, k) && has_id(existing, k) && !float_eq(
        objects_map(existing)[k],
        objects_map(desired)[k],
    )
}

/// What the modify pass does to a state `m` that holds every candidate: it
/// sets each candidate to its desired value and leaves the rest.
proof fn lemma_modifies_effect(desired: Seq<Object>, existing: Seq<Object>, m: Map<ObjectID, u64>)
    requires
        unique_ids(desired),
        forall|k: ObjectID| #[trigger] is_modify_candidate(desired, existing, k) ==> m.contains_key(k),
    ensures
        forall|k: ObjectID| #[trigger]
            apply_ops(modify_ops(desired, existing), m).contains_key(k) <==> m.contains_key(k),
        forall|k: ObjectID|
            is_modify_candidate(desired, existing, k) ==> #[trigger] apply_ops(
                modify_ops(desired, existing),
                m,
            )[k] == objects_map(desired)[k],
        forall|k: ObjectID|
            !is_modify_candidate(desired, existing, k) && m.contains_key(k) ==> #[trigger] apply_ops(
                modify_ops(desired, existing),
                m,
            )[k] == m[k],
    decreases desired.len(),
{
    if desired.len() == 0 {
        reveal(Seq::filter);
        assert(modify_ops(desired, existing) =~= Seq::<Action>::empty());
        assert forall|k: ObjectID| !is_modify_candidate(desired, existing, k) by {}
    } else {
        let p = desired.drop_last();
        let o = desired.last();
        lemma_has_id_last(desired);
        assert(unique_ids(p)) by {
            assert forall|i: int, j: int| 0 <= i < p.len() && 0 <= j < p.len() && i != j implies p[i].id
                != p[j].id by {
                assert(p[i] == desired[i] && p[j] == desired[j]);
            }
        }
        assert(!has_id(p, o.id)) by {
            if has_id(p, o.id) {
                let i = choose|i: int| 0 <= i < p.len() && #[trigger] p[i].id == o.id;
                assert(desired[i].id == desired[desired.len() - 1].id);
            }
        }
        assert forall|k: ObjectID| #[trigger] is_modify_candidate(p, existing, k) implies m.contains_key(
            k,
        ) by {
            assert(is_modify_candidate(desired, existing, k));
        }
        lemma_modifies_effect(p, existing, m);
        lemma_modify_ops_last(desired, existing);
        let op = Action::Modify(OperationModify { object_id: o.id, value: o.value });
        let changed = (changed_in(existing))(o);
        let added = if changed {
            seq![op]
        } else {
            Seq::<Action>::empty()
        };
        lemma_apply_concat(modify_ops(p, existing), added, m);
        let r1 = apply_ops(modify_ops(p, existing), m);
        if changed {
            lemma_apply_single(op, r1);
        } else {
            assert(apply_ops(added, r1) == r1);
        }
        assert(changed == is_modify_candidate(desired, existing, o.id));
        assert forall|k: ObjectID| k != o.id implies is_modify_candidate(desired, existing, k)
            == is_modify_candidate(p, existing, k) by {}
    }
}

/// What the delete pass does to a state `m`: it drops each identifier of
/// `existing` that is not desired and leaves the rest.
proof fn lemma_deletes_effect(desired: Seq<Object>, existing: Seq<Object>, m: Map<ObjectID, u64>)
    ensures
        forall|k: ObjectID| #[trigger]
            apply_ops(delete_ops(desired, existing), m).contains_key(k) <==> (m.contains_key(k) && !(
            has_id(existing, k) && !has_id(desired, k))),
        forall|k: ObjectID| #[trigger]
            apply_ops(delete_ops(desired, existing), m).contains_key(k) ==> apply_ops(
                delete_ops(desired, existing),
                m,
            )[k] == m[k],
    decreases existing.len(),
{
    if existing.len() == 0 {
        reveal(Seq::filter);
        assert(delete_ops(desired, existing) =~= Seq::<Action>::empty());
    } else {
        let p = existing.drop_last();
        let o = existing.last();
        lemma_deletes_effect(desired, p, m);
        lemma_delete_ops_last(desired, existing);
        lemma_has_id_last(existing);
        let op = Action::Delete(OperationDelete { object_id: o.id });
        let added = if (absent_from(desired))(o) {
            seq![op]
        } else {
            Seq::<Action>::empty()
        };
        lemma_apply_concat(delete_ops(desired, p), added, m);
        let r1 = apply_ops(delete_ops(desired, p), m);
        if (absent_from(desired))(o) {
            lemma_apply_single(op, r1);
        } else {
            assert(apply_ops(added, r1) == r1);
        }
    }
}

/// Convergence: planning on a snapshot pair and applying the plan to the
/// state of the actual snapshot leaves exactly the desired identifiers, each
/// with its desired value, or with an actual value that already compared
/// equal to it and was left as it was.
pub proof fn lemma_convergence(desired: Seq<Object>, existing: Seq<Object>)
    requires
        unique_ids(desired),
        unique_ids(existing),
    ensures
        forall|k: ObjectID| #[trigger]
            apply_ops(plan_ops(desired, existing), objects_map(existing)).contains_key(k)
                <==> objects_map(desired).contains_key(k),
        forall|k: ObjectID| #[trigger]
            apply_ops(plan_ops(desired, existing), objects_map(existing)).contains_key(k) ==> {
                let v = apply_ops(plan_ops(desired, existing), objects_map(existing))[k];
                v == objects_map(desired)[k] || (objects_map(existing).contains_key(k) && v
                    == objects_map(existing)[k] && float_eq(v, objects_map(desired)[k]))
            },
{
    let m0 = objects_map(existing);
    let c = create_ops(desired, existing);
    let u = modify_ops(desired, existing);
    let x = delete_ops(desired, existing);
    lemma_objects_map_domain(existing);
    lemma_objects_map_domain(desired);
    lemma_creates_effect(desired, existing, m0);
    let m1 = apply_ops(c, m0);
    assert forall|k: ObjectID| #[trigger] is_modify_candidate(desired, existing, k) implies m1.contains_key(
        k,
    ) by {}
    lemma_modifies_effect(desired, existing, m1);
    let m2 = apply_ops(u, m1);
    lemma_deletes_effect(desired, existing, m2);
    lemma_apply_concat(c, u, m0);
    lemma_apply_concat(c + u, x, m0);
    assert(plan_ops(desired, existing) == c + u + x);
}

/// Convergence from nothing: with no actual object, one plan and apply
/// leaves exactly the desired objects.
pub proof fn lemma_convergence_from_empty(desired: Seq<Object>)
    requires
        unique_ids(desired),
    ensures
        apply_ops(plan_ops(desired, Seq::<Object>::empty()), Map::<ObjectID, u64>::empty())
            == objects_map(desired),
{
    let e = Seq::<Object>::empty();
    assert(objects_map(e) == Map::<ObjectID, u64>::empty());
    lemma_convergence(desired, e);
    assert(apply_ops(plan_ops(desired, e), objects_map(e)) =~= objects_map(desired));
}

/// Idempotence: where no desired value is a NaN, a second plan made right
/// after applying the first, on any listing of the resulting actual state,
/// holds no operation.
pub proof fn lemma_idempotence(desired: Seq<Object>, existing: Seq<Object>, listing: Seq<Object>)
    requires
        unique_ids(desired),
        unique_ids(existing),
        forall|i: int| 0 <= i < desired.len() ==> !is_nan(#[trigger] desired[i].value),
        is_listing(listing, apply_ops(plan_ops(desired, existing), objects_map(existing))),
    ensures
        plan_ops(desired, listing) == Seq::<Action>::empty(),
{
    let r = apply_ops(plan_ops(desired, existing), objects_map(existing));
    lemma_convergence(desired, existing);
    lemma_objects_map(desired);
    lemma_objects_map(listing);
    assert forall|i: int| 0 <= i < desired.len() implies !(absent_from(listing))(
        #[trigger] desired[i],
    ) by {
        assert(objects_map(desired).contains_key(desired[i].id));
        assert(r.contains_key(desired[i].id));
    }
    lemma_filter_none(desired, absent_from(listing));
    assert forall|i: int| 0 <= i < desired.len() implies !(changed_in(listing))(
        #[trigger] desired[i],
    ) by {
        let k = desired[i].id;
        assert(objects_map(desired).contains_key(k));
        assert(r.contains_key(k));
        assert(objects_map(desired)[desired[i].id] == desired[i].value);
    }
    lemma_filter_none(desired, changed_in(listing));
    assert forall|i: int| 0 <= i < listing.len() implies !(absent_from(desired))(
        #[trigger] listing[i],
    ) by {
        let k = listing[i].id;
        assert(has_id(listing, k));
        assert(r.contains_key(k));
    }
    lemma_filter_none(listing, absent_from(desired));
    assert(create_ops(desired, listing) =~= Seq::<Action>::empty());
    assert(modify_ops(desired, listing) =~= Seq::<Action>::empty());
    assert(delete_ops(desired, listing) =~= Seq::<Action>::empty());
    assert(plan_ops(desired, listing) =~= Seq::<Action>::empty());
}

/// Independence of the passes: the plan holds one operation per candidate
/// of each pass, and the candidates of the three passes have pairwise
/// distinct identifiers (creates are desired and not actual, modifies are
/// desired and actual, deletes are actual and not desired).
pub proof fn lemma_passes_independent(desired: Seq<Object>, existing: Seq<Object>)
    ensures
        plan_ops(desired, existing).len() == desired.filter(absent_from(existing)).len()
            + desired.filter(changed_in(existing)).len() + existing.filter(absent_from(desired)).len(),
        forall|i: int|
            0 <= i < desired.filter(absent_from(existing)).len() ==> {
                let k = (#[trigger] desired.filter(absent_from(existing))[i]).id;
                has_id(desired, k) && !has_id(existing, k)
            },
        forall|i: int|
            0 <= i < desired.filter(changed_in(existing)).len() ==> {
                let k = (#[trigger] desired.filter(changed_in(existing))[i]).id;
                has_id(desired, k) && has_id(existing, k)
            },
        forall|i: int|
            0 <= i < existing.filter(absent_from(desired)).len() ==> {
                let k = (#[trigger] existing.filter(absent_from(desired))[i]).id;
                has_id(existing, k) && !has_id(desired, k)
            },
{
    lemma_filter_ids(desired, absent_from(existing));
    lemma_filter_ids(desired, changed_in(existing));
    lemma_filter_ids(existing, absent_from(desired));
}

/// Tolerance of a missing identifier: modifying or deleting an object that
/// a state does not hold leaves that state as it was.
pub proof fn lemma_not_found_tolerance(m: Map<ObjectID, u64>, object_id: ObjectID, value: u64)
    requires
        !m.contains_key(object_id),
    ensures
        apply_op(Action::Modify(OperationModify { object_id, value }), m) == m,
        apply_op(Action::Delete(OperationDelete { object_id }), m) == m,
{
    assert(m.remove(object_id) =~= m);
}

} // verus!

use vstd::prelude::*;

use crate::numbers::{dec_val, lemma_dec_str_props};
use crate::reconcile::{
    ReconcileOutcome, assign_from, assign_one, assign_target, assigned_entrant, delete_pass,
    delete_pass_class, delete_pass_slot, driver_guid_str, driver_team_or_empty,
    first_class_for_car, first_class_from, first_slot_with_guid, ignored_contains,
    lemma_first_class_from_props, lemma_first_slot_with_guid_from_props,
    lemma_first_vacant_from_props, reconcile_spec, slot_survives, write_slot,
};
use crate::roster::{
    ClassView, DriverView, EntrantView, class_has_car, class_wf, doc_wf, slot_occupied,
};

verus! {

// The laws of reconciliation.
//
// These proof functions state, once and for all inputs, what the
// reconciliation algorithm guarantees: the slot-exclusivity invariant is
// preserved, occupied slots answer to desired drivers after a full
// resync, ignored identities are never touched, and reconciling twice
// with the same desired list changes nothing the second time.

/// The two documents have the same classes with the same car lists.
pub open spec fn cars_match(a: Seq<ClassView>, b: Seq<ClassView>) -> bool {
    &&& a.len() == b.len()
    &&& forall|i: int| 0 <= i < a.len() ==> (#[trigger] a[i]).cars == b[i].cars
}

/// The two documents have the same slot layout: as many classes, as many
/// slots, with the same identifiers and car models.
pub open spec fn frame_match(a: Seq<ClassView>, b: Seq<ClassView>) -> bool {
    &&& cars_match(a, b)
    &&& forall|i: int| 0 <= i < a.len() ==> (#[trigger] a[i]).slots.len() == b[i].slots.len()
    &&& forall|i: int, j: int|
        0 <= i < a.len() && 0 <= j < a[i].slots.len() ==> (#[trigger] a[i].slots[j]).slot_id
            == b[i].slots[j].slot_id && a[i].slots[j].entrant.model == b[i].slots[j].entrant.model
}

/// Classes with equal car lists agree on `first_class_from`.
pub proof fn lemma_first_class_cars_match(a: Seq<ClassView>, b: Seq<ClassView>, car: Seq<char>, lo: int)
    requires
        cars_match(a, b),
        0 <= lo,
    ensures
        first_class_from(a, car, lo) == first_class_from(b, car, lo),
    decreases a.len() - lo,
{
    if lo < a.len() {
        assert(class_has_car(a[lo], car) == class_has_car(b[lo], car));
        lemma_first_class_cars_match(a, b, car, lo + 1);
    }
}

/// One assignment step keeps the slot layout.
pub proof fn lemma_assign_one_frame(cs: Seq<ClassView>, d: DriverView, cs2: Seq<ClassView>)
    requires
        assign_one(cs, d) == ReconcileOutcome::Done(cs2),
    ensures
        frame_match(cs, cs2),
{
    lemma_first_class_from_props(cs, d.car, 0);
    let ci = first_class_for_car(cs, d.car)->Some_0;
    let si = assign_target(cs[ci], d)->Some_0;
    lemma_first_slot_with_guid_from_props(cs[ci].slots, driver_guid_str(d), 0);
    lemma_first_vacant_from_props(cs[ci].slots, 0);
    assert(cs2 == write_slot(cs, ci, si, d));
}

/// The whole assignment pass keeps the slot layout.
pub proof fn lemma_assign_from_frame(cs: Seq<ClassView>, ds: Seq<DriverView>, k: int, cs2: Seq<ClassView>)
    requires
        0 <= k,
        assign_from(cs, ds, k) == ReconcileOutcome::Done(cs2),
    ensures
        frame_match(cs, cs2),
    decreases ds.len() - k,
{
    if k >= ds.len() {
        assert(cs2 == cs);
    } else {
        match assign_one(cs, ds[k]) {
            ReconcileOutcome::Done(cs1) => {
                lemma_assign_one_frame(cs, ds[k], cs1);
                lemma_assign_from_frame(cs1, ds, k + 1, cs2);
            },
            _ => {},
        }
    }
}

/// A slot whose identity no remaining driver carries is never touched by
/// the assignment pass.
pub proof fn lemma_assign_from_untouched(
    cs: Seq<ClassView>,
    ds: Seq<DriverView>,
    k: int,
    cs2: Seq<ClassView>,
    i: int,
    j: int,
)
    requires
        0 <= k,
        assign_from(cs, ds, k) == ReconcileOutcome::Done(cs2),
        0 <= i < cs.len(),
        0 <= j < cs[i].slots.len(),
        slot_occupied(cs[i].slots[j]),
        forall|m: int|
            k <= m < ds.len() ==> driver_guid_str(#[trigger] ds[m]) != cs[i].slots[j].entrant.guid,
    ensures
        cs2[i].slots[j] == cs[i].slots[j],
    decreases ds.len() - k,
{
    if k >= ds.len() {
        assert(cs2 == cs);
    } else {
        match assign_one(cs, ds[k]) {
            ReconcileOutcome::Done(cs1) => {
                let d = ds[k];
                lemma_first_class_from_props(cs, d.car, 0);
                let ci = first_class_for_car(cs, d.car)->Some_0;
                let si = assign_target(cs[ci], d)->Some_0;
                lemma_first_slot_with_guid_from_props(cs[ci].slots, driver_guid_str(d), 0);
                lemma_first_vacant_from_props(cs[ci].slots, 0);
                lemma_dec_str_props(d.steam_id as nat);
                assert(cs1 == write_slot(cs, ci, si, d));
                if ci == i && si == j {
                    // The claimed slot either carries the driver's
                    // identity or is vacant; both contradict the
                    // hypothesis about slot (i, j).
                    assert(false);
                }
                assert(cs1[i].slots[j] == cs[i].slots[j]);
                lemma_assign_from_untouched(cs1, ds, k + 1, cs2, i, j);
            },
            _ => {},
        }
    }
}

/// The deletion pass keeps the slot layout.
pub proof fn lemma_delete_pass_frame(cs: Seq<ClassView>, ds: Seq<DriverView>, ignored: Seq<u64>)
    ensures
        frame_match(cs, delete_pass(cs, ds, ignored)),
{
    let cs1 = delete_pass(cs, ds, ignored);
    assert forall|i: int, j: int|
        0 <= i < cs.len() && 0 <= j < cs[i].slots.len() implies (#[trigger] cs[i].slots[j]).slot_id
        == cs1[i].slots[j].slot_id && cs[i].slots[j].entrant.model
        == cs1[i].slots[j].entrant.model by {
        assert(cs1[i] == delete_pass_class(cs[i], ds, ignored));
        assert(cs1[i].slots[j] == delete_pass_slot(cs[i], cs[i].slots[j], ds, ignored));
    }
}

/// Reconciliation never changes the document's layout: the classes, their
/// car lists, the number of slots, and each slot's identifier and
/// car model all come through unchanged — slots are car-fixed, and the
/// car a slot represents is read-only for this component.
pub proof fn lemma_reconcile_keeps_layout(
    cs: Seq<ClassView>,
    ds: Seq<DriverView>,
    delete_missing: bool,
    ignored: Seq<u64>,
    cs2: Seq<ClassView>,
)
    requires
        reconcile_spec(cs, ds, delete_missing, ignored) == ReconcileOutcome::Done(cs2),
    ensures
        frame_match(cs, cs2),
{
    if delete_missing {
        let cs1 = delete_pass(cs, ds, ignored);
        lemma_delete_pass_frame(cs, ds, ignored);
        lemma_assign_from_frame(cs1, ds, 0, cs2);
    } else {
        lemma_assign_from_frame(cs, ds, 0, cs2);
    }
}

/// One assignment step preserves slot exclusivity.
pub proof fn lemma_assign_one_wf(cs: Seq<ClassView>, d: DriverView, cs2: Seq<ClassView>)
    requires
        assign_one(cs, d) == ReconcileOutcome::Done(cs2),
        doc_wf(cs),
    ensures
        doc_wf(cs2),
{
    lemma_first_class_from_props(cs, d.car, 0);
    let ci = first_class_for_car(cs, d.car)->Some_0;
    let si = assign_target(cs[ci], d)->Some_0;
    let g = driver_guid_str(d);
    lemma_first_slot_with_guid_from_props(cs[ci].slots, g, 0);
    lemma_first_vacant_from_props(cs[ci].slots, 0);
    assert(cs2 == write_slot(cs, ci, si, d));
    assert forall|i: int| 0 <= i < cs2.len() implies class_wf(#[trigger] cs2[i]) by {
        if i != ci {
            assert(cs2[i] == cs[i]);
        } else {
            let olds = cs[ci].slots;
            let news = cs2[ci].slots;
            assert forall|a: int, b: int|
                0 <= a < b < news.len() && slot_occupied(#[trigger] news[a]) && slot_occupied(
                    #[trigger] news[b],
                ) implies news[a].entrant.guid != news[b].entrant.guid by {
                if a != si && b != si {
                    assert(news[a] == olds[a] && news[b] == olds[b]);
                } else {
                    let t = if a == si { b } else { a };
                    assert(news[t] == olds[t]);
                    assert(news[si].entrant.guid == g);
                    match first_slot_with_guid(cs[ci].slots, g) {
                        Option::Some(fsi) => {
                            assert(si == fsi);
                            assert(olds[si].entrant.guid == g);
                            assert(slot_occupied(olds[t]));
                        },
                        Option::None => {
                            assert(olds[t].entrant.guid != g);
                        },
                    }
                }
            }
        }
    }
}

/// The whole assignment pass preserves slot exclusivity.
pub proof fn lemma_assign_from_wf(cs: Seq<ClassView>, ds: Seq<DriverView>, k: int, cs2: Seq<ClassView>)
    requires
        0 <= k,
        assign_from(cs, ds, k) == ReconcileOutcome::Done(cs2),
        doc_wf(cs),
    ensures
        doc_wf(cs2),
    decreases ds.len() - k,
{
    if k >= ds.len() {
        assert(cs2 == cs);
    } else {
        match assign_one(cs, ds[k]) {
            ReconcileOutcome::Done(cs1) => {
                lemma_assign_one_wf(cs, ds[k], cs1);
                lemma_assign_from_wf(cs1, ds, k + 1, cs2);
            },
            _ => {},
        }
    }
}

/// The deletion pass preserves slot exclusivity.
pub proof fn lemma_delete_pass_wf(cs: Seq<ClassView>, ds: Seq<DriverView>, ignored: Seq<u64>)
    requires
        doc_wf(cs),
    ensures
        doc_wf(delete_pass(cs, ds, ignored)),
{
    let cs1 = delete_pass(cs, ds, ignored);
    assert forall|i: int| 0 <= i < cs1.len() implies class_wf(#[trigger] cs1[i]) by {
        assert(cs1[i] == delete_pass_class(cs[i], ds, ignored));
        assert forall|a: int, b: int|
            0 <= a < b < cs1[i].slots.len() && slot_occupied(#[trigger] cs1[i].slots[a])
                && slot_occupied(#[trigger] cs1[i].slots[b]) implies cs1[i].slots[a].entrant.guid
            != cs1[i].slots[b].entrant.guid by {
            assert(cs1[i].slots[a] == delete_pass_slot(cs[i], cs[i].slots[a], ds, ignored));
            assert(cs1[i].slots[b] == delete_pass_slot(cs[i], cs[i].slots[b], ds, ignored));
            assert(slot_occupied(cs[i].slots[a]) && cs1[i].slots[a].entrant.guid
                == cs[i].slots[a].entrant.guid);
            assert(slot_occupied(cs[i].slots[b]) && cs1[i].slots[b].entrant.guid
                == cs[i].slots[b].entrant.guid);
        }
    }
}

/// Slot exclusivity: reconciliation never introduces a duplicate
/// identity — a well-formed document stays well-formed.
pub proof fn lemma_slot_exclusivity(
    cs: Seq<ClassView>,
    ds: Seq<DriverView>,
    delete_missing: bool,
    ignored: Seq<u64>,
    cs2: Seq<ClassView>,
)
    requires
        doc_wf(cs),
        reconcile_spec(cs, ds, delete_missing, ignored) == ReconcileOutcome::Done(cs2),
    ensures
        doc_wf(cs2),
{
    if delete_missing {
        lemma_delete_pass_wf(cs, ds, ignored);
        lemma_assign_from_wf(delete_pass(cs, ds, ignored), ds, 0, cs2);
    } else {
        lemma_assign_from_wf(cs, ds, 0, cs2);
    }
}

/// Some desired driver carries the identity of slot (i, j) and a car its
/// class lists.
pub open spec fn occupant_is_desired(cs: Seq<ClassView>, ds: Seq<DriverView>, i: int, j: int) -> bool {
    exists|m: int|
        0 <= m < ds.len() && (#[trigger] ds[m]).steam_id as nat == dec_val(
            cs[i].slots[j].entrant.guid,
        ) && class_has_car(cs[i], ds[m].car)
}

/// Every occupied slot answers to a desired driver.
pub open spec fn all_occupants_desired(cs: Seq<ClassView>, ds: Seq<DriverView>) -> bool {
    forall|i: int, j: int|
        0 <= i < cs.len() && 0 <= j < cs[i].slots.len() && slot_occupied(#[trigger] cs[i].slots[j])
            ==> occupant_is_desired(cs, ds, i, j)
}

/// One assignment step preserves `all_occupants_desired`.
pub proof fn lemma_assign_one_desired(cs: Seq<ClassView>, ds: Seq<DriverView>, k: int, cs2: Seq<ClassView>)
    requires
        0 <= k < ds.len(),
        assign_one(cs, ds[k]) == ReconcileOutcome::Done(cs2),
        all_occupants_desired(cs, ds),
    ensures
        all_occupants_desired(cs2, ds),
{
    let d = ds[k];
    lemma_first_class_from_props(cs, d.car, 0);
    let ci = first_class_for_car(cs, d.car)->Some_0;
    let si = assign_target(cs[ci], d)->Some_0;
    lemma_first_slot_with_guid_from_props(cs[ci].slots, driver_guid_str(d), 0);
    lemma_first_vacant_from_props(cs[ci].slots, 0);
    lemma_dec_str_props(d.steam_id as nat);
    assert(cs2 == write_slot(cs, ci, si, d));
    assert forall|i: int, j: int|
        0 <= i < cs2.len() && 0 <= j < cs2[i].slots.len() && slot_occupied(
            #[trigger] cs2[i].slots[j],
        ) implies occupant_is_desired(cs2, ds, i, j) by {
        assert(cs2[i].cars == cs[i].cars);
        if i == ci && j == si {
            assert(cs2[i].slots[j].entrant.guid == driver_guid_str(d));
            assert(dec_val(cs2[i].slots[j].entrant.guid) == d.steam_id as nat);
            assert(class_has_car(cs[ci], d.car));
            assert((ds[k]).steam_id as nat == dec_val(cs2[i].slots[j].entrant.guid)
                && class_has_car(cs2[i], ds[k].car));
        } else {
            assert(cs2[i].slots[j] == cs[i].slots[j]);
            assert(slot_occupied(cs[i].slots[j]));
            let m = choose|m: int|
                0 <= m < ds.len() && (#[trigger] ds[m]).steam_id as nat == dec_val(
                    cs[i].slots[j].entrant.guid,
                ) && class_has_car(cs[i], ds[m].car);
            assert((ds[m]).steam_id as nat == dec_val(cs2[i].slots[j].entrant.guid)
                && class_has_car(cs2[i], ds[m].car));
        }
    }
}

/// The whole assignment pass preserves `all_occupants_desired`.
pub proof fn lemma_assign_from_desired(
    cs: Seq<ClassView>,
    ds: Seq<DriverView>,
    k: int,
    cs2: Seq<ClassView>,
)
    requires
        0 <= k,
        assign_from(cs, ds, k) == ReconcileOutcome::Done(cs2),
        all_occupants_desired(cs, ds),
    ensures
        all_occupants_desired(cs2, ds),
    decreases ds.len() - k,
{
    if k >= ds.len() {
        assert(cs2 == cs);
    } else {
        match assign_one(cs, ds[k]) {
            ReconcileOutcome::Done(cs1) => {
                lemma_assign_one_desired(cs, ds, k, cs1);
                lemma_assign_from_desired(cs1, ds, k + 1, cs2);
            },
            _ => {},
        }
    }
}

/// Car eligibility after a full resync: when the deletion pass runs with
/// an empty ignore list, every occupied slot of the result answers to a
/// desired driver — same identity, and a car the slot's class lists.
pub proof fn lemma_car_eligibility(cs: Seq<ClassView>, ds: Seq<DriverView>, cs2: Seq<ClassView>)
    requires
        reconcile_spec(cs, ds, true, Seq::<u64>::empty()) == ReconcileOutcome::Done(cs2),
    ensures
        all_occupants_desired(cs2, ds),
{
    let ign = Seq::<u64>::empty();
    let cs1 = delete_pass(cs, ds, ign);
    assert forall|i: int, j: int|
        0 <= i < cs1.len() && 0 <= j < cs1[i].slots.len() && slot_occupied(
            #[trigger] cs1[i].slots[j],
        ) implies occupant_is_desired(cs1, ds, i, j) by {
        assert(cs1[i] == delete_pass_class(cs[i], ds, ign));
        assert(cs1[i].slots[j] == delete_pass_slot(cs[i], cs[i].slots[j], ds, ign));
        assert(slot_survives(cs[i], cs[i].slots[j], ds, ign));
        assert(!ignored_contains(ign, dec_val(cs[i].slots[j].entrant.guid) as u64));
        let m = choose|m: int|
            0 <= m < ds.len() && (#[trigger] ds[m]).steam_id as nat == dec_val(
                cs[i].slots[j].entrant.guid,
            ) && class_has_car(cs[i], ds[m].car);
        assert(cs1[i].cars == cs[i].cars);
        assert((ds[m]).steam_id as nat == dec_val(cs1[i].slots[j].entrant.guid) && class_has_car(
            cs1[i],
            ds[m].car,
        ));
    }
    lemma_assign_from_desired(cs1, ds, 0, cs2);
}

/// The deletion pass leaves a slot with an ignored identity unchanged.
pub proof fn lemma_delete_pass_ignored(
    cs: Seq<ClassView>,
    ds: Seq<DriverView>,
    ignored: Seq<u64>,
    i: int,
    j: int,
)
    requires
        0 <= i < cs.len(),
        0 <= j < cs[i].slots.len(),
        slot_occupied(cs[i].slots[j]),
        ignored_contains(ignored, dec_val(cs[i].slots[j].entrant.guid) as u64),
    ensures
        delete_pass(cs, ds, ignored)[i].slots[j] == cs[i].slots[j],
{
    assert(delete_pass(cs, ds, ignored)[i] == delete_pass_class(cs[i], ds, ignored));
    assert(slot_survives(cs[i], cs[i].slots[j], ds, ignored));
}

/// Deletion respects the ignore list: a slot whose occupant's identity
/// stands in the ignore list, while no desired driver carries that
/// identity, comes out of reconciliation exactly as it went in.
pub proof fn lemma_deletion_respects_ignore_list(
    cs: Seq<ClassView>,
    ds: Seq<DriverView>,
    delete_missing: bool,
    ignored: Seq<u64>,
    cs2: Seq<ClassView>,
    i: int,
    j: int,
)
    requires
        reconcile_spec(cs, ds, delete_missing, ignored) == ReconcileOutcome::Done(cs2),
        0 <= i < cs.len(),
        0 <= j < cs[i].slots.len(),
        slot_occupied(cs[i].slots[j]),
        ignored_contains(ignored, dec_val(cs[i].slots[j].entrant.guid) as u64),
        forall|m: int|
            0 <= m < ds.len() ==> (#[trigger] ds[m]).steam_id as nat != dec_val(
                cs[i].slots[j].entrant.guid,
            ),
    ensures
        cs2[i].slots[j] == cs[i].slots[j],
{
    let s = cs[i].slots[j];
    assert forall|m: int| 0 <= m < ds.len() implies driver_guid_str(#[trigger] ds[m])
        != s.entrant.guid by {
        if driver_guid_str(ds[m]) == s.entrant.guid {
            lemma_dec_str_props(ds[m].steam_id as nat);
            assert(dec_val(s.entrant.guid) == ds[m].steam_id as nat);
        }
    }
    if delete_missing {
        let cs1 = delete_pass(cs, ds, ignored);
        lemma_delete_pass_ignored(cs, ds, ignored, i, j);
        assert(cs1[i].slots[j] == s);
        assert(cs1.len() == cs.len());
        assert(cs1[i].slots.len() == cs[i].slots.len());
        lemma_assign_from_untouched(cs1, ds, 0, cs2, i, j);
    } else {
        lemma_assign_from_untouched(cs, ds, 0, cs2, i, j);
    }
}

// Idempotence.

/// No two desired drivers share an identity. The desired-driver source
/// supplies each identity at most once.
pub open spec fn distinct_ids(ds: Seq<DriverView>) -> bool {
    forall|m1: int, m2: int|
        0 <= m1 < m2 < ds.len() ==> (#[trigger] ds[m1]).steam_id != (#[trigger] ds[m2]).steam_id
}

/// The entrant holds exactly what the driver writes.
pub open spec fn entrant_matches_driver(e: EntrantView, d: DriverView) -> bool {
    e.name == d.name && e.team == driver_team_or_empty(d) && e.guid == driver_guid_str(d)
}

/// The driver's target class exists and holds a slot carrying its data.
pub open spec fn driver_settled(cs: Seq<ClassView>, d: DriverView) -> bool {
    match first_class_for_car(cs, d.car) {
        Option::Some(ci) => exists|j: int|
            0 <= j < cs[ci].slots.len() && entrant_matches_driver(
                (#[trigger] cs[ci].slots[j]).entrant,
                d,
            ),
        Option::None => false,
    }
}

/// After a successful assignment pass over drivers with distinct
/// identities, every processed driver is settled in the result.
pub proof fn lemma_assign_from_settles(
    cs: Seq<ClassView>,
    ds: Seq<DriverView>,
    k: int,
    cs2: Seq<ClassView>,
)
    requires
        0 <= k,
        distinct_ids(ds),
        assign_from(cs, ds, k) == ReconcileOutcome::Done(cs2),
    ensures
        forall|m: int| k <= m < ds.len() ==> driver_settled(cs2, #[trigger] ds[m]),
    decreases ds.len() - k,
{
    if k < ds.len() {
        match assign_one(cs, ds[k]) {
            ReconcileOutcome::Done(cs1) => {
                let d = ds[k];
                lemma_first_class_from_props(cs, d.car, 0);
                let ci = first_class_for_car(cs, d.car)->Some_0;
                let si = assign_target(cs[ci], d)->Some_0;
                lemma_first_slot_with_guid_from_props(cs[ci].slots, driver_guid_str(d), 0);
                lemma_first_vacant_from_props(cs[ci].slots, 0);
                lemma_dec_str_props(d.steam_id as nat);
                assert(cs1 == write_slot(cs, ci, si, d));
                lemma_assign_from_settles(cs1, ds, k + 1, cs2);
                // The slot driver k just wrote carries its identity, and
                // no later driver carries the same one, so it reaches the
                // final document unchanged.
                assert(cs1[ci].slots[si].entrant == assigned_entrant(cs[ci].slots[si].entrant, d));
                assert(slot_occupied(cs1[ci].slots[si]));
                assert forall|m: int| k + 1 <= m < ds.len() implies driver_guid_str(#[trigger] ds[m])
                    != cs1[ci].slots[si].entrant.guid by {
                    if driver_guid_str(ds[m]) == driver_guid_str(d) {
                        crate::numbers::lemma_dec_str_injective(
                            ds[m].steam_id as nat,
                            d.steam_id as nat,
                        );
                    }
                }
                lemma_assign_one_frame(cs, d, cs1);
                lemma_assign_from_frame(cs1, ds, k + 1, cs2);
                lemma_assign_from_untouched(cs1, ds, k + 1, cs2, ci, si);
                lemma_first_class_cars_match(cs, cs1, d.car, 0);
                lemma_first_class_cars_match(cs1, cs2, d.car, 0);
                assert(first_class_for_car(cs2, d.car) == Option::Some(ci));
                assert(entrant_matches_driver(cs2[ci].slots[si].entrant, d));
                assert(driver_settled(cs2, d));
            },
            _ => {},
        }
    }
}

/// Assigning a settled driver changes nothing, so a document in which
/// every driver is settled is a fixed point of the assignment pass.
pub proof fn lemma_assign_fixpoint(cs2: Seq<ClassView>, ds: Seq<DriverView>, k: int)
    requires
        0 <= k <= ds.len(),
        doc_wf(cs2),
        forall|m: int| k <= m < ds.len() ==> driver_settled(cs2, #[trigger] ds[m]),
    ensures
        assign_from(cs2, ds, k) == ReconcileOutcome::Done(cs2),
    decreases ds.len() - k,
{
    if k < ds.len() {
        let d = ds[k];
        assert(driver_settled(cs2, d));
        lemma_first_class_from_props(cs2, d.car, 0);
        let ci = first_class_for_car(cs2, d.car)->Some_0;
        let g = driver_guid_str(d);
        let j = choose|j: int|
            0 <= j < cs2[ci].slots.len() && entrant_matches_driver(
                (#[trigger] cs2[ci].slots[j]).entrant,
                d,
            );
        lemma_dec_str_props(d.steam_id as nat);
        assert(slot_occupied(cs2[ci].slots[j]));
        lemma_first_slot_with_guid_from_props(cs2[ci].slots, g, 0);
        assert(first_slot_with_guid(cs2[ci].slots, g) is Some);
        let si = first_slot_with_guid(cs2[ci].slots, g)->Some_0;
        if si != j {
            let a = if si < j { si } else { j };
            let b = if si < j { j } else { si };
            assert(slot_occupied(cs2[ci].slots[a]) && slot_occupied(cs2[ci].slots[b]));
            assert(cs2[ci].slots[a].entrant.guid == cs2[ci].slots[b].entrant.guid);
            assert(class_wf(cs2[ci]));
            assert(false);
        }
        assert(assign_target(cs2[ci], d) == Option::Some(si));
        assert(assigned_entrant(cs2[ci].slots[si].entrant, d) =~= cs2[ci].slots[si].entrant);
        assert(write_slot(cs2, ci, si, d) =~~= cs2);
        assert(assign_one(cs2, d) == ReconcileOutcome::Done(cs2));
        lemma_assign_fixpoint(cs2, ds, k + 1);
    }
}

/// Idempotence: applying the same desired list twice in succession, with
/// the deletion pass off, leaves the document of the first run unchanged
/// — the second run returns it as it is.
pub proof fn lemma_idempotence(
    cs: Seq<ClassView>,
    ds: Seq<DriverView>,
    ignored: Seq<u64>,
    cs2: Seq<ClassView>,
)
    requires
        doc_wf(cs),
        distinct_ids(ds),
        reconcile_spec(cs, ds, false, ignored) == ReconcileOutcome::Done(cs2),
    ensures
        reconcile_spec(cs2, ds, false, ignored) == ReconcileOutcome::Done(cs2),
{
    lemma_assign_from_wf(cs, ds, 0, cs2);
    lemma_assign_from_settles(cs, ds, 0, cs2);
    lemma_assign_fixpoint(cs2, ds, 0);
}

} // verus!

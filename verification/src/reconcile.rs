use vstd::prelude::*;

use crate::errors::UpdateError;
use crate::numbers::{dec_str, dec_val, valid_u64_digits};
use crate::roster::{
    BasicDriver, ClassEntry, ClassView, DriverView, Entrant, EntrantView, RosterDocument,
    SlotView, class_has_car, class_lists_car, copy_document, slot_occupied,
};

verus! {

// Roster reconciliation.
//
// Given a loaded document, a desired list of drivers, the delete-missing
// flag and the set of ignored identities, compute the next document: an
// optional deletion pass vacates slots whose occupant is no longer
// desired, then an assignment pass places each desired driver, in input
// order, into the first class listing its car — preferring a slot that
// already carries its identity, then the first vacant slot.
//
// The whole computation is specified by `reconcile_spec`, a mathematical
// function over document views, and `reconcile` is proved to return
// exactly its outcome.

// Views of collections.

/// The views of a sequence of classes.
pub open spec fn class_views(cs: Seq<ClassEntry>) -> Seq<ClassView> {
    cs.map_values(|c: ClassEntry| c@)
}

/// The views of a sequence of desired drivers.
pub open spec fn driver_views(ds: Seq<BasicDriver>) -> Seq<DriverView> {
    ds.map_values(|d: BasicDriver| d@)
}

// Small helpers on views.

/// `id` stands in the ignore list.
pub open spec fn ignored_contains(ignored: Seq<u64>, id: u64) -> bool {
    exists|i: int| 0 <= i < ignored.len() && ignored[i] == id
}

/// The canonical decimal identity string a driver writes into a slot.
pub open spec fn driver_guid_str(d: DriverView) -> Seq<char> {
    dec_str(d.steam_id as nat)
}

/// The team field a driver writes: its team name, or empty if none.
pub open spec fn driver_team_or_empty(d: DriverView) -> Seq<char> {
    match d.team_name {
        Option::Some(t) => t,
        Option::None => Seq::<char>::empty(),
    }
}

/// A vacated entrant: name, team and identity cleared, car kept.
pub open spec fn vacated_entrant(e: EntrantView) -> EntrantView {
    EntrantView {
        name: Seq::<char>::empty(),
        team: Seq::<char>::empty(),
        guid: Seq::<char>::empty(),
        model: e.model,
    }
}

/// The entrant a driver writes into a slot: the slot's car is kept, the
/// rest is the driver's data.
pub open spec fn assigned_entrant(e: EntrantView, d: DriverView) -> EntrantView {
    EntrantView {
        name: d.name,
        team: driver_team_or_empty(d),
        guid: driver_guid_str(d),
        model: e.model,
    }
}

// Shape validity: every occupied slot's identity parses.

/// Every occupied slot of the class carries a decimal 64-bit identity.
pub open spec fn class_guids_parseable(c: ClassView) -> bool {
    forall|j: int|
        0 <= j < c.slots.len() && slot_occupied(#[trigger] c.slots[j]) ==> valid_u64_digits(
            c.slots[j].entrant.guid,
        )
}

/// Every occupied slot of the document carries a decimal 64-bit identity.
pub open spec fn doc_guids_parseable(cs: Seq<ClassView>) -> bool {
    forall|i: int| 0 <= i < cs.len() ==> class_guids_parseable(#[trigger] cs[i])
}

// The deletion pass.

/// The slot keeps its occupant: it is vacant already, its identity is
/// ignored, or some desired driver carries the same identity and a car
/// this class lists.
pub open spec fn slot_survives(
    c: ClassView,
    s: SlotView,
    ds: Seq<DriverView>,
    ignored: Seq<u64>,
) -> bool {
    ||| !slot_occupied(s)
    ||| ignored_contains(ignored, dec_val(s.entrant.guid) as u64)
    ||| exists|k: int|
        0 <= k < ds.len() && (#[trigger] ds[k]).steam_id as nat == dec_val(s.entrant.guid)
            && class_has_car(c, ds[k].car)
}

/// One slot after the deletion pass.
pub open spec fn delete_pass_slot(
    c: ClassView,
    s: SlotView,
    ds: Seq<DriverView>,
    ignored: Seq<u64>,
) -> SlotView {
    if slot_survives(c, s, ds, ignored) {
        s
    } else {
        SlotView { slot_id: s.slot_id, entrant: vacated_entrant(s.entrant) }
    }
}

/// One class after the deletion pass.
pub open spec fn delete_pass_class(c: ClassView, ds: Seq<DriverView>, ignored: Seq<u64>) -> ClassView {
    ClassView {
        cars: c.cars,
        slots: Seq::new(c.slots.len(), |j: int| delete_pass_slot(c, c.slots[j], ds, ignored)),
    }
}

/// The whole document after the deletion pass.
pub open spec fn delete_pass(cs: Seq<ClassView>, ds: Seq<DriverView>, ignored: Seq<u64>) -> Seq<
    ClassView,
> {
    Seq::new(cs.len(), |i: int| delete_pass_class(cs[i], ds, ignored))
}

// First-match searches, as they run over the document.

/// Index of the first class at or after `i` listing `car`.
pub open spec fn first_class_from(cs: Seq<ClassView>, car: Seq<char>, i: int) -> Option<int>
    decreases cs.len() - i,
{
    if i < 0 || i >= cs.len() {
        Option::None
    } else if class_has_car(cs[i], car) {
        Option::Some(i)
    } else {
        first_class_from(cs, car, i + 1)
    }
}

/// Index of the first class listing `car`.
pub open spec fn first_class_for_car(cs: Seq<ClassView>, car: Seq<char>) -> Option<int> {
    first_class_from(cs, car, 0)
}

/// Index of the first slot at or after `j` whose identity equals `g`.
pub open spec fn first_slot_with_guid_from(slots: Seq<SlotView>, g: Seq<char>, j: int) -> Option<
    int,
>
    decreases slots.len() - j,
{
    if j < 0 || j >= slots.len() {
        Option::None
    } else if slots[j].entrant.guid == g {
        Option::Some(j)
    } else {
        first_slot_with_guid_from(slots, g, j + 1)
    }
}

/// Index of the first slot whose identity equals `g`.
pub open spec fn first_slot_with_guid(slots: Seq<SlotView>, g: Seq<char>) -> Option<int> {
    first_slot_with_guid_from(slots, g, 0)
}

/// Index of the first vacant slot at or after `j`.
pub open spec fn first_vacant_from(slots: Seq<SlotView>, j: int) -> Option<int>
    decreases slots.len() - j,
{
    if j < 0 || j >= slots.len() {
        Option::None
    } else if !slot_occupied(slots[j]) {
        Option::Some(j)
    } else {
        first_vacant_from(slots, j + 1)
    }
}

/// Index of the first vacant slot.
pub open spec fn first_vacant_slot(slots: Seq<SlotView>) -> Option<int> {
    first_vacant_from(slots, 0)
}

/// What `first_class_from` returns: the least index at or after `lo`
/// whose class lists the car, if any.
pub proof fn lemma_first_class_from_props(cs: Seq<ClassView>, car: Seq<char>, lo: int)
    requires
        0 <= lo <= cs.len(),
    ensures
        match first_class_from(cs, car, lo) {
            Option::Some(ci) => lo <= ci < cs.len() && class_has_car(cs[ci], car) && (forall|j: int|
                lo <= j < ci ==> !class_has_car(#[trigger] cs[j], car)),
            Option::None => forall|j: int| lo <= j < cs.len() ==> !class_has_car(#[trigger] cs[j], car),
        },
    decreases cs.len() - lo,
{
    if lo < cs.len() && !class_has_car(cs[lo], car) {
        lemma_first_class_from_props(cs, car, lo + 1);
    }
}

/// What `first_slot_with_guid_from` returns.
pub proof fn lemma_first_slot_with_guid_from_props(slots: Seq<SlotView>, g: Seq<char>, lo: int)
    requires
        0 <= lo <= slots.len(),
    ensures
        match first_slot_with_guid_from(slots, g, lo) {
            Option::Some(si) => lo <= si < slots.len() && slots[si].entrant.guid == g && (forall|
                j: int,
            |
                lo <= j < si ==> (#[trigger] slots[j]).entrant.guid != g),
            Option::None => forall|j: int|
                lo <= j < slots.len() ==> (#[trigger] slots[j]).entrant.guid != g,
        },
    decreases slots.len() - lo,
{
    if lo < slots.len() && slots[lo].entrant.guid != g {
        lemma_first_slot_with_guid_from_props(slots, g, lo + 1);
    }
}

/// What `first_vacant_from` returns.
pub proof fn lemma_first_vacant_from_props(slots: Seq<SlotView>, lo: int)
    requires
        0 <= lo <= slots.len(),
    ensures
        match first_vacant_from(slots, lo) {
            Option::Some(si) => lo <= si < slots.len() && !slot_occupied(slots[si]) && (forall|
                j: int,
            |
                lo <= j < si ==> slot_occupied(#[trigger] slots[j])),
            Option::None => forall|j: int| lo <= j < slots.len() ==> slot_occupied(#[trigger] slots[j]),
        },
    decreases slots.len() - lo,
{
    if lo < slots.len() && slot_occupied(slots[lo]) {
        lemma_first_vacant_from_props(slots, lo + 1);
    }
}

// The assignment pass.

/// Outcome of a reconciliation step or of the whole computation.
pub enum ReconcileOutcome {
    /// The next document.
    Done(Seq<ClassView>),
    /// An occupied slot's identity is not a decimal 64-bit number.
    Malformed,
    /// No class lists this driver's car.
    NoClass(DriverView),
    /// The driver's class has no slot carrying its identity and no vacancy.
    NoSlot(DriverView),
}

/// The document with the entrant of slot `si` of class `ci` overwritten
/// by driver `d` (the slot's car and identifier kept).
pub open spec fn write_slot(cs: Seq<ClassView>, ci: int, si: int, d: DriverView) -> Seq<ClassView> {
    let c = cs[ci];
    cs.update(
        ci,
        ClassView {
            cars: c.cars,
            slots: c.slots.update(
                si,
                SlotView { slot_id: c.slots[si].slot_id, entrant: assigned_entrant(c.slots[si].entrant, d) },
            ),
        },
    )
}

/// The slot driver `d` claims within its class: the first slot already
/// carrying its identity, else the first vacant slot.
pub open spec fn assign_target(c: ClassView, d: DriverView) -> Option<int> {
    match first_slot_with_guid(c.slots, driver_guid_str(d)) {
        Option::Some(si) => Option::Some(si),
        Option::None => first_vacant_slot(c.slots),
    }
}

/// Assignment of one desired driver.
pub open spec fn assign_one(cs: Seq<ClassView>, d: DriverView) -> ReconcileOutcome {
    match first_class_for_car(cs, d.car) {
        Option::None => ReconcileOutcome::NoClass(d),
        Option::Some(ci) => match assign_target(cs[ci], d) {
            Option::None => ReconcileOutcome::NoSlot(d),
            Option::Some(si) => ReconcileOutcome::Done(write_slot(cs, ci, si, d)),
        },
    }
}

/// Assignment of the desired drivers from index `k` on, in input order;
/// the first failure aborts the whole pass.
pub open spec fn assign_from(cs: Seq<ClassView>, ds: Seq<DriverView>, k: int) -> ReconcileOutcome
    decreases ds.len() - k,
{
    if k < 0 || k >= ds.len() {
        ReconcileOutcome::Done(cs)
    } else {
        match assign_one(cs, ds[k]) {
            ReconcileOutcome::Done(cs2) => assign_from(cs2, ds, k + 1),
            o => o,
        }
    }
}

/// Assignment of all desired drivers.
pub open spec fn assign_all(cs: Seq<ClassView>, ds: Seq<DriverView>) -> ReconcileOutcome {
    assign_from(cs, ds, 0)
}

/// The full reconciliation: the optional deletion pass (which demands
/// that every occupied identity parses), then the assignment pass.
pub open spec fn reconcile_spec(
    cs: Seq<ClassView>,
    ds: Seq<DriverView>,
    delete_missing: bool,
    ignored: Seq<u64>,
) -> ReconcileOutcome {
    if delete_missing {
        if !doc_guids_parseable(cs) {
            ReconcileOutcome::Malformed
        } else {
            assign_all(delete_pass(cs, ds, ignored), ds)
        }
    } else {
        assign_all(cs, ds)
    }
}

// Executable helpers.

/// The document with the entrant of slot `si` of class `ci` replaced by
/// `ev`, everything else in place.
pub open spec fn set_entrant_spec(cs: Seq<ClassView>, ci: int, si: int, ev: EntrantView) -> Seq<
    ClassView,
> {
    let c = cs[ci];
    cs.update(
        ci,
        ClassView {
            cars: c.cars,
            slots: c.slots.update(si, SlotView { slot_id: c.slots[si].slot_id, entrant: ev }),
        },
    )
}

/// Overwrites the entrant of slot `si` of class `ci`.
fn set_slot_entrant(classes: &mut Vec<ClassEntry>, ci: usize, si: usize, ent: Entrant)
    requires
        ci < old(classes)@.len(),
        si < old(classes)@[ci as int].entrants@.len(),
    ensures
        class_views(final(classes)@) == set_entrant_spec(
            class_views(old(classes)@),
            ci as int,
            si as int,
            ent@,
        ),
{
    let ghost ocs = class_views(old(classes)@);
    let ghost ev = ent@;
    let class_ref = &mut classes[ci];
    let slot_ref = &mut class_ref.entrants[si];
    slot_ref.entrant = ent;
    proof {
        let ncs = class_views(classes@);
        assert(classes@ == old(classes)@.update(ci as int, classes@[ci as int]));
        assert(classes@[ci as int].entrants@ == old(classes)@[ci as int].entrants@.update(
            si as int,
            classes@[ci as int].entrants@[si as int],
        ));
        assert(classes@[ci as int].entrants@[si as int].entrant == ent);
        assert(classes@[ci as int].entrants@[si as int].slot_id == old(
            classes,
        )@[ci as int].entrants@[si as int].slot_id);
        assert(classes@[ci as int].available_cars == old(classes)@[ci as int].available_cars);
        assert(ncs =~~= set_entrant_spec(ocs, ci as int, si as int, ev));
    }
}

/// True exactly when `id` stands in the ignore list.
#[verifier::loop_isolation(false)]
fn contains_id(ignored: &Vec<u64>, id: u64) -> (r: bool)
    ensures
        r == ignored_contains(ignored@, id),
{
    let n = ignored.len();
    let mut i: usize = 0;
    while i < n
        invariant
            0 <= i <= n,
            forall|j: int| 0 <= j < i ==> ignored@[j] != id,
        decreases n - i,
    {
        if ignored[i] == id {
            return true;
        }
        i = i + 1;
    }
    false
}

/// True exactly when some desired driver carries identity `id` and a car
/// the class lists — the condition that protects a slot from deletion.
#[verifier::loop_isolation(false)]
fn driver_protects(drivers: &Vec<BasicDriver>, class: &ClassEntry, id: u64) -> (r: bool)
    ensures
        r == exists|k: int|
            0 <= k < driver_views(drivers@).len() && (#[trigger] driver_views(drivers@)[k]).steam_id
                == id && class_has_car(class@, driver_views(drivers@)[k].car),
{
    let ghost ds = driver_views(drivers@);
    let n = drivers.len();
    let mut k: usize = 0;
    while k < n
        invariant
            0 <= k <= n,
            n == ds.len(),
            forall|j: int|
                0 <= j < k ==> !((#[trigger] ds[j]).steam_id == id && class_has_car(
                    class@,
                    ds[j].car,
                )),
        decreases n - k,
    {
        if drivers[k].steam_id == id {
            if class_lists_car(class, &drivers[k].car) {
                assert(ds[k as int] == drivers@[k as int]@);
                return true;
            }
        }
        proof {
            assert(ds[k as int] == drivers@[k as int]@);
        }
        k = k + 1;
    }
    false
}

/// Index of the first class listing `car`, if any.
#[verifier::loop_isolation(false)]
fn find_matching_class(classes: &Vec<ClassEntry>, car: &String) -> (r: Option<usize>)
    ensures
        r matches Some(ci) ==> first_class_for_car(class_views(classes@), car@)
            == Option::<int>::Some(ci as int),
        r is None ==> first_class_for_car(class_views(classes@), car@) is None,
{
    let ghost cv = class_views(classes@);
    let n = classes.len();
    let mut i: usize = 0;
    while i < n
        invariant
            0 <= i <= n,
            n == cv.len(),
            forall|j: int| 0 <= j < i ==> !class_has_car(#[trigger] cv[j], car@),
        decreases n - i,
    {
        if class_lists_car(&classes[i], car) {
            proof {
                assert(cv[i as int] == classes@[i as int]@);
                lemma_first_class_from_props(cv, car@, 0);
            }
            return Some(i);
        }
        proof {
            assert(cv[i as int] == classes@[i as int]@);
        }
        i = i + 1;
    }
    proof {
        lemma_first_class_from_props(cv, car@, 0);
    }
    None
}

/// Index of the first slot of the class whose identity equals `g`.
#[verifier::loop_isolation(false)]
fn find_slot_with_guid(class: &ClassEntry, g: &String) -> (r: Option<usize>)
    ensures
        r matches Some(si) ==> first_slot_with_guid(class@.slots, g@) == Option::<int>::Some(
            si as int,
        ),
        r is None ==> first_slot_with_guid(class@.slots, g@) is None,
{
    let n = class.entrants.len();
    let mut i: usize = 0;
    while i < n
        invariant
            0 <= i <= n,
            n == class@.slots.len(),
            forall|j: int| 0 <= j < i ==> (#[trigger] class@.slots[j]).entrant.guid != g@,
        decreases n - i,
    {
        if class.entrants[i].entrant.guid == *g {
            proof {
                assert(class@.slots[i as int] == class.entrants@[i as int]@);
                lemma_first_slot_with_guid_from_props(class@.slots, g@, 0);
            }
            return Some(i);
        }
        proof {
            assert(class@.slots[i as int] == class.entrants@[i as int]@);
        }
        i = i + 1;
    }
    proof {
        lemma_first_slot_with_guid_from_props(class@.slots, g@, 0);
    }
    None
}

/// Index of the first vacant slot of the class.
#[verifier::loop_isolation(false)]
fn find_vacant_slot(class: &ClassEntry) -> (r: Option<usize>)
    ensures
        r matches Some(si) ==> first_vacant_slot(class@.slots) == Option::<int>::Some(si as int),
        r is None ==> first_vacant_slot(class@.slots) is None,
{
    let n = class.entrants.len();
    let mut i: usize = 0;
    while i < n
        invariant
            0 <= i <= n,
            n == class@.slots.len(),
            forall|j: int| 0 <= j < i ==> slot_occupied(#[trigger] class@.slots[j]),
        decreases n - i,
    {
        if class.entrants[i].entrant.guid.as_str().is_empty() {
            proof {
                assert(class@.slots[i as int] == class.entrants@[i as int]@);
                lemma_first_vacant_from_props(class@.slots, 0);
            }
            return Some(i);
        }
        proof {
            assert(class@.slots[i as int] == class.entrants@[i as int]@);
        }
        i = i + 1;
    }
    proof {
        lemma_first_vacant_from_props(class@.slots, 0);
    }
    None
}

// The two passes.

/// Runs the deletion pass in place. Fails with `Malformed` exactly when
/// some occupied slot's identity is not a decimal 64-bit number.
#[verifier::loop_isolation(false)]
fn run_delete_pass(
    classes: &mut Vec<ClassEntry>,
    drivers: &Vec<BasicDriver>,
    ignored: &Vec<u64>,
) -> (r: Result<(), UpdateError>)
    ensures
        r matches Ok(_) ==> doc_guids_parseable(class_views(old(classes)@)) && class_views(
            final(classes)@,
        ) == delete_pass(class_views(old(classes)@), driver_views(drivers@), ignored@),
        r matches Err(e) ==> e is Malformed && !doc_guids_parseable(class_views(old(classes)@)),
{
    let ghost ocs = class_views(old(classes)@);
    let ghost ds = driver_views(drivers@);
    let nc = classes.len();
    let mut ci: usize = 0;
    while ci < nc
        invariant
            0 <= ci <= nc,
            classes@.len() == nc,
            nc == ocs.len(),
            forall|k: int|
                ci <= k < nc ==> class_views(classes@)[k] == ocs[k],
            forall|k: int|
                0 <= k < ci ==> class_guids_parseable(#[trigger] ocs[k]),
            forall|k: int|
                0 <= k < ci ==> class_views(classes@)[k] == delete_pass_class(
                    #[trigger] ocs[k],
                    ds,
                    ignored@,
                ),
        decreases nc - ci,
    {
        let ns = classes[ci].entrants.len();
        let mut si: usize = 0;
        while si < ns
            invariant
                0 <= si <= ns,
                0 <= ci < nc,
                classes@.len() == nc,
                ns == class_views(classes@)[ci as int].slots.len(),
                ns == ocs[ci as int].slots.len(),
                class_views(classes@)[ci as int].cars == ocs[ci as int].cars,
                forall|k: int|
                    ci < k < nc ==> class_views(classes@)[k] == ocs[k],
                forall|k: int|
                    0 <= k < ci ==> class_views(classes@)[k] == delete_pass_class(
                        #[trigger] ocs[k],
                        ds,
                        ignored@,
                    ),
                forall|j: int|
                    si <= j < ns ==> class_views(classes@)[ci as int].slots[j]
                        == ocs[ci as int].slots[j],
                forall|j: int|
                    0 <= j < si ==> class_views(classes@)[ci as int].slots[j] == delete_pass_slot(
                        ocs[ci as int],
                        #[trigger] ocs[ci as int].slots[j],
                        ds,
                        ignored@,
                    ),
                forall|j: int|
                    0 <= j < si && slot_occupied(#[trigger] ocs[ci as int].slots[j])
                        ==> valid_u64_digits(ocs[ci as int].slots[j].entrant.guid),
        decreases ns - si,
        {
            let ghost orig_slot = ocs[ci as int].slots[si as int];
            proof {
                assert(class_views(classes@)[ci as int].slots[si as int]
                    == classes@[ci as int]@.slots[si as int]);
                assert(classes@[ci as int]@.slots[si as int]
                    == classes@[ci as int].entrants@[si as int]@);
            }
            if classes[ci].entrants[si].entrant.guid.as_str().is_empty() {
                proof {
                    assert(!slot_occupied(orig_slot));
                    assert(delete_pass_slot(ocs[ci as int], orig_slot, ds, ignored@) == orig_slot);
                }
                si = si + 1;
                continue;
            }
            assert(slot_occupied(orig_slot));
            let parsed = crate::numbers::parse_u64(classes[ci].entrants[si].entrant.guid.as_str());
            match parsed {
                None => {
                    proof {
                        assert(!valid_u64_digits(orig_slot.entrant.guid));
                        assert(!class_guids_parseable(ocs[ci as int]));
                        assert(!doc_guids_parseable(ocs));
                    }
                    return Err(UpdateError::Malformed);
                },
                Some(id) => {
                    proof {
                        assert(id as nat == dec_val(orig_slot.entrant.guid));
                    }
                    let keep = if contains_id(ignored, id) {
                        proof {
                            assert(slot_survives(ocs[ci as int], orig_slot, ds, ignored@));
                        }
                        true
                    } else if driver_protects(drivers, &classes[ci], id) {
                        proof {
                            assert(class_views(classes@)[ci as int].cars == ocs[ci as int].cars);
                            assert(classes@[ci as int]@.cars == ocs[ci as int].cars);
                            let pk = choose|k: int|
                                0 <= k < ds.len() && (#[trigger] ds[k]).steam_id == id
                                    && class_has_car(classes@[ci as int]@, ds[k].car);
                            assert(class_has_car(ocs[ci as int], ds[pk].car));
                            assert(slot_survives(ocs[ci as int], orig_slot, ds, ignored@));
                        }
                        true
                    } else {
                        proof {
                            assert(!ignored_contains(ignored@, dec_val(orig_slot.entrant.guid) as u64));
                            assert(classes@[ci as int]@.cars == ocs[ci as int].cars);
                            assert(forall|k: int|
                                0 <= k < ds.len() ==> !((#[trigger] ds[k]).steam_id as nat == dec_val(
                                    orig_slot.entrant.guid,
                                ) && class_has_car(ocs[ci as int], ds[k].car)));
                            assert(!slot_survives(ocs[ci as int], orig_slot, ds, ignored@));
                        }
                        false
                    };
                    if keep {
                        proof {
                            assert(delete_pass_slot(ocs[ci as int], orig_slot, ds, ignored@)
                                == orig_slot);
                        }
                        si = si + 1;
                        continue;
                    }
                    let model = classes[ci].entrants[si].entrant.model.clone();
                    let vacated = Entrant {
                        name: String::new(),
                        team: String::new(),
                        guid: String::new(),
                        model,
                    };
                    proof {
                        assert(vacated@ =~= vacated_entrant(orig_slot.entrant));
                    }
                    set_slot_entrant(classes, ci, si, vacated);
                    proof {
                        let ncs = class_views(classes@);
                        assert(ncs.len() == classes@.len());
                        assert(classes@.len() == nc);
                        assert(ncs[ci as int].slots[si as int] =~= delete_pass_slot(
                            ocs[ci as int],
                            orig_slot,
                            ds,
                            ignored@,
                        ));
                    }
                    si = si + 1;
                },
            }
        }
        proof {
            assert(class_views(classes@)[ci as int] =~~= delete_pass_class(
                ocs[ci as int],
                ds,
                ignored@,
            ));
            assert(class_guids_parseable(ocs[ci as int]));
        }
        ci = ci + 1;
    }
    proof {
        assert(doc_guids_parseable(ocs));
        assert(class_views(classes@) =~~= delete_pass(ocs, ds, ignored@));
    }
    Ok(())
}

/// Runs the assignment pass in place: each desired driver, in input
/// order, claims its slot; the first failure aborts the pass.
#[verifier::loop_isolation(false)]
fn run_assignment_pass(classes: &mut Vec<ClassEntry>, drivers: &Vec<BasicDriver>) -> (r: Result<
    (),
    UpdateError,
>)
    ensures
        r matches Ok(_) ==> assign_all(class_views(old(classes)@), driver_views(drivers@))
            == ReconcileOutcome::Done(class_views(final(classes)@)),
        r matches Err(e) ==> match assign_all(class_views(old(classes)@), driver_views(drivers@)) {
            ReconcileOutcome::NoClass(d) => &e matches UpdateError::NoMatchingClass { car }
                && car@ == d.car,
            ReconcileOutcome::NoSlot(d) => &e matches UpdateError::NoAvailableSlot { driver_name }
                && driver_name@ == d.name,
            _ => false,
        },
{
    let ghost ocs = class_views(old(classes)@);
    let ghost ds = driver_views(drivers@);
    let n = drivers.len();
    let mut k: usize = 0;
    while k < n
        invariant
            0 <= k <= n,
            n == ds.len(),
            assign_from(ocs, ds, 0) == assign_from(class_views(classes@), ds, k as int),
        decreases n - k,
    {
        let ghost cur = class_views(classes@);
        proof {
            assert(ds[k as int] == drivers@[k as int]@);
        }
        let found_class = find_matching_class(classes, &drivers[k].car);
        let ci = match found_class {
            None => {
                proof {
                    assert(assign_one(cur, ds[k as int]) == ReconcileOutcome::NoClass(
                        ds[k as int],
                    ));
                }
                return Err(UpdateError::NoMatchingClass { car: drivers[k].car.clone() });
            },
            Some(ci) => ci,
        };
        proof {
            lemma_first_class_from_props(cur, ds[k as int].car, 0);
            assert(cur.len() == classes@.len());
            assert(ci < classes@.len());
        }
        let idstr = crate::numbers::u64_to_string(drivers[k].steam_id);
        proof {
            assert(idstr@ == driver_guid_str(ds[k as int]));
        }
        let found_slot = match find_slot_with_guid(&classes[ci], &idstr) {
            Some(si) => Some(si),
            None => find_vacant_slot(&classes[ci]),
        };
        proof {
            assert(cur[ci as int] == classes@[ci as int]@);
        }
        let si = match found_slot {
            None => {
                proof {
                    assert(assign_target(cur[ci as int], ds[k as int]) is None);
                    assert(assign_one(cur, ds[k as int]) == ReconcileOutcome::NoSlot(
                        ds[k as int],
                    ));
                }
                return Err(UpdateError::NoAvailableSlot { driver_name: drivers[k].name.clone() });
            },
            Some(si) => si,
        };
        proof {
            assert(cur[ci as int] == classes@[ci as int]@);
            lemma_first_slot_with_guid_from_props(
                cur[ci as int].slots,
                driver_guid_str(ds[k as int]),
                0,
            );
            lemma_first_vacant_from_props(cur[ci as int].slots, 0);
            assert(si < cur[ci as int].slots.len());
            assert(cur[ci as int].slots.len() == classes@[ci as int].entrants@.len());
            assert(assign_target(cur[ci as int], ds[k as int]) == Option::<int>::Some(si as int));
        }
        let team = match &drivers[k].team_name {
            Some(t) => t.clone(),
            None => String::new(),
        };
        let model = classes[ci].entrants[si].entrant.model.clone();
        let ent = Entrant { name: drivers[k].name.clone(), team, guid: idstr, model };
        proof {
            assert(classes@[ci as int].entrants@[si as int]@ == cur[ci as int].slots[si as int]);
            assert(ent@ =~= assigned_entrant(cur[ci as int].slots[si as int].entrant, ds[k as int]));
        }
        set_slot_entrant(classes, ci, si, ent);
        proof {
            let ncs = class_views(classes@);
            assert(ncs =~~= write_slot(cur, ci as int, si as int, ds[k as int]));
            assert(assign_one(cur, ds[k as int]) == ReconcileOutcome::Done(ncs));
            assert(assign_from(cur, ds, k as int) == assign_from(ncs, ds, k as int + 1));
        }
        k = k + 1;
    }
    proof {
        assert(assign_from(class_views(classes@), ds, n as int) == ReconcileOutcome::Done(
            class_views(classes@),
        ));
    }
    Ok(())
}

/// Computes the next document from the loaded one: the optional deletion
/// pass, then the assignment pass. Returns exactly the outcome of
/// `reconcile_spec` on the documents' views: the reconciled document on
/// success, and otherwise the error the specification names, with the
/// offending car or driver.
pub fn reconcile(
    doc: &RosterDocument,
    delete_missing: bool,
    drivers: &Vec<BasicDriver>,
    ignored: &Vec<u64>,
) -> (r: Result<RosterDocument, UpdateError>)
    ensures
        match reconcile_spec(doc@, driver_views(drivers@), delete_missing, ignored@) {
            ReconcileOutcome::Done(cs) => r matches Ok(d) && d@ == cs,
            ReconcileOutcome::Malformed => r matches Err(e) && e is Malformed,
            ReconcileOutcome::NoClass(d) => r matches Err(e) && (&e matches
                UpdateError::NoMatchingClass { car } && car@ == d.car),
            ReconcileOutcome::NoSlot(d) => r matches Err(e) && (&e matches
                UpdateError::NoAvailableSlot { driver_name } && driver_name@ == d.name),
        },
{
    let work = copy_document(doc);
    let mut classes = work.classes;
    proof {
        assert(class_views(classes@) == doc@);
    }
    if delete_missing {
        match run_delete_pass(&mut classes, drivers, ignored) {
            Ok(_) => {},
            Err(e) => {
                return Err(e);
            },
        }
    }
    match run_assignment_pass(&mut classes, drivers) {
        Ok(_) => {
            let out = RosterDocument { classes };
            proof {
                assert(out@ == class_views(out.classes@));
            }
            Ok(out)
        },
        Err(e) => Err(e),
    }
}

} // verus!

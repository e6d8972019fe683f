use vstd::prelude::*;

verus! {

// The roster document.
//
// A document is an ordered sequence of classes; a class lists the cars it
// may host and holds a fixed sequence of slots; a slot carries an entrant
// whose `guid` field is the decimal identity of its occupant, the empty
// string standing for a vacant slot.

/// One fixed physical slot's occupant record. An empty `guid` means the
/// slot is vacant; `model` names the car the slot currently represents and
/// is never changed by reconciliation.
pub struct Entrant {
    pub name: String,
    pub team: String,
    pub guid: String,
    pub model: String,
}

/// A slot: an addressable position within a class.
pub struct Slot {
    pub slot_id: String,
    pub entrant: Entrant,
}

/// A named grouping of slots sharing a set of eligible cars.
pub struct ClassEntry {
    pub available_cars: Vec<String>,
    pub entrants: Vec<Slot>,
}

/// The full structured roster file.
pub struct RosterDocument {
    pub classes: Vec<ClassEntry>,
}

/// A desired driver entry, supplied by the external source of truth.
pub struct BasicDriver {
    pub name: String,
    pub car: String,
    pub steam_id: u64,
    pub team_name: Option<String>,
}

// Mathematical views of the document types.

#[verifier::ext_equal]
pub struct EntrantView {
    pub name: Seq<char>,
    pub team: Seq<char>,
    pub guid: Seq<char>,
    pub model: Seq<char>,
}

#[verifier::ext_equal]
pub struct SlotView {
    pub slot_id: Seq<char>,
    pub entrant: EntrantView,
}

#[verifier::ext_equal]
pub struct ClassView {
    pub cars: Seq<Seq<char>>,
    pub slots: Seq<SlotView>,
}

#[verifier::ext_equal]
pub struct DriverView {
    pub name: Seq<char>,
    pub car: Seq<char>,
    pub steam_id: u64,
    pub team_name: Option<Seq<char>>,
}

impl View for Entrant {
    type V = EntrantView;

    open spec fn view(&self) -> EntrantView {
        EntrantView { name: self.name@, team: self.team@, guid: self.guid@, model: self.model@ }
    }
}

impl View for Slot {
    type V = SlotView;

    open spec fn view(&self) -> SlotView {
        SlotView { slot_id: self.slot_id@, entrant: self.entrant@ }
    }
}

impl View for ClassEntry {
    type V = ClassView;

    open spec fn view(&self) -> ClassView {
        ClassView {
            cars: self.available_cars@.map_values(|s: String| s@),
            slots: self.entrants@.map_values(|s: Slot| s@),
        }
    }
}

impl View for RosterDocument {
    type V = Seq<ClassView>;

    open spec fn view(&self) -> Seq<ClassView> {
        self.classes@.map_values(|c: ClassEntry| c@)
    }
}

impl View for BasicDriver {
    type V = DriverView;

    open spec fn view(&self) -> DriverView {
        DriverView {
            name: self.name@,
            car: self.car@,
            steam_id: self.steam_id,
            team_name: match self.team_name {
                Option::Some(ref t) => Option::Some(t@),
                Option::None => Option::None,
            },
        }
    }
}

// Predicates.

/// The slot holds an occupant.
pub open spec fn slot_occupied(s: SlotView) -> bool {
    s.entrant.guid.len() > 0
}

/// The class lists `car` among its available cars.
pub open spec fn class_has_car(c: ClassView, car: Seq<char>) -> bool {
    exists|i: int| 0 <= i < c.cars.len() && c.cars[i] == car
}

/// No two occupied slots of the class share an identity.
pub open spec fn class_wf(c: ClassView) -> bool {
    forall|i: int, j: int|
        0 <= i < j < c.slots.len() && slot_occupied(#[trigger] c.slots[i]) && slot_occupied(
            #[trigger] c.slots[j],
        ) ==> c.slots[i].entrant.guid != c.slots[j].entrant.guid
}

/// Every class of the document satisfies the slot-exclusivity invariant.
pub open spec fn doc_wf(cs: Seq<ClassView>) -> bool {
    forall|i: int| 0 <= i < cs.len() ==> class_wf(#[trigger] cs[i])
}

// Executable checks and copies.

/// True exactly when the class lists `car`.
#[verifier::loop_isolation(false)]
pub fn class_lists_car(class: &ClassEntry, car: &String) -> (r: bool)
    ensures
        r == class_has_car(class@, car@),
{
    let n = class.available_cars.len();
    let mut i: usize = 0;
    while i < n
        invariant
            0 <= i <= n,
            n == class.available_cars@.len(),
            forall|j: int| 0 <= j < i ==> class@.cars[j] != car@,
        decreases n - i,
    {
        if class.available_cars[i] == *car {
            assert(class@.cars[i as int] == car@);
            return true;
        }
        i = i + 1;
    }
    false
}

/// True exactly when the document satisfies the slot-exclusivity
/// invariant: within each class, no identity occupies two slots.
#[verifier::loop_isolation(false)]
pub fn document_well_formed(doc: &RosterDocument) -> (r: bool)
    ensures
        r == doc_wf(doc@),
{
    let nc = doc.classes.len();
    let mut ci: usize = 0;
    while ci < nc
        invariant
            0 <= ci <= nc,
            nc == doc.classes@.len(),
            forall|k: int| 0 <= k < ci ==> class_wf(#[trigger] doc@[k]),
        decreases nc - ci,
    {
        let class = &doc.classes[ci];
        let ns = class.entrants.len();
        let mut i: usize = 0;
        while i < ns
            invariant
                0 <= i <= ns,
                ns == class.entrants@.len(),
                class@ == doc@[ci as int],
                forall|a: int, b: int|
                    0 <= a < b < ns && a < i && slot_occupied(#[trigger] class@.slots[a])
                        && slot_occupied(#[trigger] class@.slots[b]) ==> class@.slots[a].entrant.guid
                        != class@.slots[b].entrant.guid,
            decreases ns - i,
        {
            if !class.entrants[i].entrant.guid.as_str().is_empty() {
                let mut j: usize = i + 1;
                while j < ns
                    invariant
                        i < j <= ns,
                        ns == class.entrants@.len(),
                        class@ == doc@[ci as int],
                        slot_occupied(class@.slots[i as int]),
                        forall|b: int|
                            i < b < j && slot_occupied(#[trigger] class@.slots[b])
                                ==> class@.slots[i as int].entrant.guid
                                != class@.slots[b].entrant.guid,
                    decreases ns - j,
                {
                    if !class.entrants[j].entrant.guid.as_str().is_empty() {
                        if class.entrants[i].entrant.guid == class.entrants[j].entrant.guid {
                            proof {
                                assert(class@.slots[i as int] == class.entrants@[i as int]@);
                                assert(class@.slots[j as int] == class.entrants@[j as int]@);
                                assert(slot_occupied(class@.slots[j as int]));
                                let gj = class@.slots[j as int].entrant.guid;
                                assert(class@.slots[i as int].entrant.guid == gj);
                                assert(!class_wf(doc@[ci as int]));
                                assert(doc@.len() == nc);
                                assert(!doc_wf(doc@));
                            }
                            return false;
                        }
                    }
                    j = j + 1;
                }
            }
            i = i + 1;
        }
        assert(class_wf(doc@[ci as int]));
        ci = ci + 1;
    }
    true
}

/// A copy of the entrant, equal to the original.
pub fn copy_entrant(e: &Entrant) -> (r: Entrant)
    ensures
        r == *e,
{
    Entrant { name: e.name.clone(), team: e.team.clone(), guid: e.guid.clone(), model: e.model.clone() }
}

/// A copy of the slot, equal to the original.
pub fn copy_slot(s: &Slot) -> (r: Slot)
    ensures
        r == *s,
{
    Slot { slot_id: s.slot_id.clone(), entrant: copy_entrant(&s.entrant) }
}

/// A copy of the class, with the same view.
#[verifier::loop_isolation(false)]
pub fn copy_class_entry(c: &ClassEntry) -> (r: ClassEntry)
    ensures
        r@ == c@,
{
    let mut cars: Vec<String> = Vec::new();
    let nc = c.available_cars.len();
    let mut i: usize = 0;
    while i < nc
        invariant
            0 <= i <= nc,
            nc == c.available_cars@.len(),
            cars@.len() == i,
            forall|j: int| 0 <= j < i ==> cars@[j] == c.available_cars@[j],
        decreases nc - i,
    {
        cars.push(c.available_cars[i].clone());
        i = i + 1;
    }
    let mut slots: Vec<Slot> = Vec::new();
    let ns = c.entrants.len();
    let mut k: usize = 0;
    while k < ns
        invariant
            0 <= k <= ns,
            ns == c.entrants@.len(),
            slots@.len() == k,
            forall|j: int| 0 <= j < k ==> slots@[j] == c.entrants@[j],
        decreases ns - k,
    {
        slots.push(copy_slot(&c.entrants[k]));
        k = k + 1;
    }
    let r = ClassEntry { available_cars: cars, entrants: slots };
    proof {
        assert(r@.cars =~= c@.cars);
        assert(r@.slots =~= c@.slots);
        assert(r@ =~= c@);
    }
    r
}

/// A copy of the whole document, with the same view.
#[verifier::loop_isolation(false)]
pub fn copy_document(doc: &RosterDocument) -> (r: RosterDocument)
    ensures
        r@ == doc@,
{
    let mut classes: Vec<ClassEntry> = Vec::new();
    let nc = doc.classes.len();
    let mut i: usize = 0;
    while i < nc
        invariant
            0 <= i <= nc,
            nc == doc.classes@.len(),
            classes@.len() == i,
            forall|j: int| 0 <= j < i ==> classes@[j]@ == doc.classes@[j]@,
        decreases nc - i,
    {
        classes.push(copy_class_entry(&doc.classes[i]));
        i = i + 1;
    }
    let r = RosterDocument { classes };
    proof {
        assert(r@ =~= doc@);
    }
    r
}

} // verus!

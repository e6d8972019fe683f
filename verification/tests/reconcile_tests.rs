use roster_sync::errors::UpdateError;
use roster_sync::reconcile::reconcile;
use roster_sync::roster::{
    BasicDriver, ClassEntry, Entrant, RosterDocument, Slot, class_lists_car, copy_document,
    document_well_formed,
};

fn entrant(name: &str, team: &str, guid: &str, model: &str) -> Entrant {
    Entrant {
        name: name.to_string(),
        team: team.to_string(),
        guid: guid.to_string(),
        model: model.to_string(),
    }
}

fn slot(id: &str, e: Entrant) -> Slot {
    Slot { slot_id: id.to_string(), entrant: e }
}

fn class(cars: &[&str], slots: Vec<Slot>) -> ClassEntry {
    ClassEntry {
        available_cars: cars.iter().map(|c| c.to_string()).collect(),
        entrants: slots,
    }
}

fn driver(name: &str, car: &str, steam_id: u64, team: Option<&str>) -> BasicDriver {
    BasicDriver {
        name: name.to_string(),
        car: car.to_string(),
        steam_id,
        team_name: team.map(|t| t.to_string()),
    }
}

fn one_class_doc() -> RosterDocument {
    RosterDocument {
        classes: vec![class(&["car_a"], vec![slot("slot1", entrant("", "", "", "car_a"))])],
    }
}

fn docs_equal(a: &RosterDocument, b: &RosterDocument) -> bool {
    if a.classes.len() != b.classes.len() {
        return false;
    }
    for (ca, cb) in a.classes.iter().zip(b.classes.iter()) {
        if ca.available_cars != cb.available_cars || ca.entrants.len() != cb.entrants.len() {
            return false;
        }
        for (sa, sb) in ca.entrants.iter().zip(cb.entrants.iter()) {
            if sa.slot_id != sb.slot_id
                || sa.entrant.name != sb.entrant.name
                || sa.entrant.team != sb.entrant.team
                || sa.entrant.guid != sb.entrant.guid
                || sa.entrant.model != sb.entrant.model
            {
                return false;
            }
        }
    }
    true
}

#[test]
fn fills_vacant_slot_with_new_driver() {
    let doc = one_class_doc();
    let drivers = vec![driver("A Driver", "car_a", 42, None)];
    let out = reconcile(&doc, false, &drivers, &vec![]).unwrap();
    let s = &out.classes[0].entrants[0];
    assert_eq!(s.slot_id, "slot1");
    assert_eq!(s.entrant.guid, "42");
    assert_eq!(s.entrant.name, "A Driver");
    assert_eq!(s.entrant.team, "");
    assert_eq!(s.entrant.model, "car_a");
}

#[test]
fn full_resync_with_empty_list_vacates_slot() {
    let doc = one_class_doc();
    let drivers = vec![driver("A Driver", "car_a", 42, None)];
    let occupied = reconcile(&doc, false, &drivers, &vec![]).unwrap();
    let out = reconcile(&occupied, true, &vec![], &vec![]).unwrap();
    let s = &out.classes[0].entrants[0];
    assert_eq!(s.entrant.guid, "");
    assert_eq!(s.entrant.name, "");
    assert_eq!(s.entrant.team, "");
    assert_eq!(s.entrant.model, "car_a");
}

#[test]
fn unmatched_car_fails_and_repeats_on_identical_input() {
    let doc = one_class_doc();
    let drivers = vec![driver("A Driver", "car_x", 42, None)];
    for _ in 0..2 {
        match reconcile(&doc, false, &drivers, &vec![]) {
            Err(UpdateError::NoMatchingClass { car }) => assert_eq!(car, "car_x"),
            other => panic!("expected NoMatchingClass, got {:?}", other.is_ok()),
        }
    }
    // The document the caller holds is unchanged: nothing was committed.
    assert!(docs_equal(&doc, &one_class_doc()));
}

#[test]
fn applying_same_list_twice_changes_nothing() {
    let doc = RosterDocument {
        classes: vec![
            class(
                &["car_a", "car_b"],
                vec![
                    slot("s1", entrant("Old", "T", "7", "car_a")),
                    slot("s2", entrant("", "", "", "car_b")),
                    slot("s3", entrant("", "", "", "car_a")),
                ],
            ),
            class(&["car_c"], vec![slot("s4", entrant("", "", "", "car_c"))]),
        ],
    };
    let drivers = vec![
        driver("P One", "car_a", 7, Some("Reds")),
        driver("P Two", "car_b", 8, None),
        driver("P Three", "car_c", 9, Some("Blues")),
    ];
    let once = reconcile(&doc, false, &drivers, &vec![]).unwrap();
    let twice = reconcile(&once, false, &drivers, &vec![]).unwrap();
    assert!(docs_equal(&once, &twice));
    // The first run really did the work.
    assert_eq!(once.classes[0].entrants[0].entrant.name, "P One");
    assert_eq!(once.classes[0].entrants[0].entrant.team, "Reds");
    assert_eq!(once.classes[0].entrants[1].entrant.guid, "8");
    assert_eq!(once.classes[1].entrants[0].entrant.guid, "9");
}

#[test]
fn updates_existing_slot_in_place() {
    let doc = RosterDocument {
        classes: vec![class(
            &["car_a"],
            vec![
                slot("s1", entrant("P One", "Old Team", "7", "car_a")),
                slot("s2", entrant("", "", "", "car_a")),
            ],
        )],
    };
    let drivers = vec![driver("P One Renamed", "car_a", 7, Some("New Team"))];
    let out = reconcile(&doc, false, &drivers, &vec![]).unwrap();
    let s1 = &out.classes[0].entrants[0];
    assert_eq!(s1.entrant.name, "P One Renamed");
    assert_eq!(s1.entrant.team, "New Team");
    assert_eq!(s1.entrant.guid, "7");
    // The vacant slot stays vacant: the driver was updated, not added.
    assert_eq!(out.classes[0].entrants[1].entrant.guid, "");
}

#[test]
fn no_available_slot_names_the_driver() {
    let doc = RosterDocument {
        classes: vec![class(&["car_a"], vec![slot("s1", entrant("P One", "", "7", "car_a"))])],
    };
    let drivers = vec![driver("P Two", "car_a", 8, None)];
    match reconcile(&doc, false, &drivers, &vec![]) {
        Err(UpdateError::NoAvailableSlot { driver_name }) => assert_eq!(driver_name, "P Two"),
        _ => panic!("expected NoAvailableSlot"),
    }
}

#[test]
fn deletion_respects_ignore_list() {
    let doc = RosterDocument {
        classes: vec![class(
            &["car_a"],
            vec![
                slot("s1", entrant("Keep Me", "Crew", "77", "car_a")),
                slot("s2", entrant("Drop Me", "", "88", "car_a")),
            ],
        )],
    };
    let out = reconcile(&doc, true, &vec![], &vec![77]).unwrap();
    let kept = &out.classes[0].entrants[0];
    assert_eq!(kept.entrant.name, "Keep Me");
    assert_eq!(kept.entrant.team, "Crew");
    assert_eq!(kept.entrant.guid, "77");
    let dropped = &out.classes[0].entrants[1];
    assert_eq!(dropped.entrant.name, "");
    assert_eq!(dropped.entrant.guid, "");
}

#[test]
fn driver_listed_for_another_class_does_not_protect_a_slot() {
    let doc = RosterDocument {
        classes: vec![
            class(
                &["car_a"],
                vec![
                    slot("s1", entrant("P One", "", "7", "car_a")),
                    slot("s2", entrant("", "", "", "car_a")),
                ],
            ),
            class(&["car_b"], vec![slot("s3", entrant("P Two", "", "8", "car_b"))]),
        ],
    };
    // Driver 8 is still desired, but now for car_a: it does not protect
    // the slot it occupies in the car_b class.
    let drivers = vec![driver("P One", "car_a", 7, None), driver("P Two", "car_a", 8, None)];
    let out = reconcile(&doc, true, &drivers, &vec![]).unwrap();
    assert_eq!(out.classes[0].entrants[0].entrant.guid, "7");
    // P Two moved: vacated from the car_b class, placed in the first
    // vacant slot of the car_a class.
    assert_eq!(out.classes[0].entrants[1].entrant.guid, "8");
    assert_eq!(out.classes[1].entrants[0].entrant.guid, "");
}

#[test]
fn malformed_identity_fails_deletion_pass() {
    let doc = RosterDocument {
        classes: vec![class(&["car_a"], vec![slot("s1", entrant("P", "", "notanumber", "car_a"))])],
    };
    match reconcile(&doc, true, &vec![], &vec![]) {
        Err(UpdateError::Malformed) => {},
        _ => panic!("expected Malformed"),
    }
    // Without the deletion pass nothing parses identities: the same
    // document is accepted.
    assert!(reconcile(&doc, false, &vec![], &vec![]).is_ok());
}

#[test]
fn result_is_well_formed_and_car_eligible() {
    let doc = RosterDocument {
        classes: vec![
            class(
                &["car_a", "car_b"],
                vec![
                    slot("s1", entrant("Old", "", "5", "car_a")),
                    slot("s2", entrant("", "", "", "car_b")),
                ],
            ),
            class(&["car_c"], vec![slot("s3", entrant("Gone", "", "6", "car_c"))]),
        ],
    };
    let drivers = vec![driver("P Five", "car_b", 5, None), driver("P Ten", "car_c", 10, None)];
    let out = reconcile(&doc, true, &drivers, &vec![]).unwrap();
    assert!(document_well_formed(&out));
    // Every occupied slot's occupant is a desired driver whose car the
    // class lists.
    for (ci, c) in out.classes.iter().enumerate() {
        for s in &c.entrants {
            if !s.entrant.guid.is_empty() {
                let id: u64 = s.entrant.guid.parse().unwrap();
                let d = drivers.iter().find(|d| d.steam_id == id).unwrap();
                assert!(c.available_cars.contains(&d.car), "class {} lists {:?}", ci, d.car);
            }
        }
    }
    // Driver 5 was updated in place in the first class.
    assert_eq!(out.classes[0].entrants[0].entrant.name, "P Five");
    // Driver 6 was vacated; driver 10 took the slot.
    assert_eq!(out.classes[1].entrants[0].entrant.guid, "10");
}

#[test]
fn earlier_drivers_claim_slots_first() {
    let doc = RosterDocument {
        classes: vec![class(
            &["car_a"],
            vec![slot("s1", entrant("", "", "", "car_a")), slot("s2", entrant("", "", "", "car_a"))],
        )],
    };
    let drivers = vec![driver("First", "car_a", 1, None), driver("Second", "car_a", 2, None)];
    let out = reconcile(&doc, false, &drivers, &vec![]).unwrap();
    assert_eq!(out.classes[0].entrants[0].entrant.name, "First");
    assert_eq!(out.classes[0].entrants[1].entrant.name, "Second");
}

#[test]
fn copies_are_equal_to_the_original() {
    let doc = RosterDocument {
        classes: vec![class(
            &["car_a", "car_b"],
            vec![slot("s1", entrant("P", "T", "7", "car_a"))],
        )],
    };
    let copy = copy_document(&doc);
    assert!(docs_equal(&doc, &copy));
    assert!(class_lists_car(&doc.classes[0], &"car_b".to_string()));
    assert!(!class_lists_car(&doc.classes[0], &"car_z".to_string()));
}

#[test]
fn well_formedness_check_spots_duplicates() {
    let good = one_class_doc();
    assert!(document_well_formed(&good));
    let bad = RosterDocument {
        classes: vec![class(
            &["car_a"],
            vec![
                slot("s1", entrant("A", "", "7", "car_a")),
                slot("s2", entrant("B", "", "7", "car_a")),
            ],
        )],
    };
    assert!(!document_well_formed(&bad));
}

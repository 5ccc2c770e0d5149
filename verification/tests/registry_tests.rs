use hospital_registry::registry::Error;
use hospital_registry::registry::Event;
use hospital_registry::registry::Pallet;

fn bytes(s: &str) -> Vec<u8> {
    s.as_bytes().to_vec()
}

#[test]
fn scenario_from_design() {
    // MaxLen = 10: "Springfield" (11 bytes) is rejected, "Capital" fits,
    // and a second registration for the same identity is a duplicate.
    let alice: u64 = 1;
    let mut registry = Pallet::new(10);

    let r1 = registry.register_hospital(alice, bytes("City Gen"), bytes("Springfield"));
    assert_eq!(r1, Err(Error::TooLong));
    assert!(!registry.contains_hospital(alice));

    let r2 = registry.register_hospital(alice, bytes("City Gen"), bytes("Capital"));
    assert_eq!(r2, Ok(()));
    let info = registry.hospital(alice).expect("record stored");
    assert_eq!(info.name, bytes("City Gen"));
    assert_eq!(info.location, bytes("Capital"));

    let r3 = registry.register_hospital(alice, bytes("Other"), bytes("Elsewhere"));
    assert_eq!(r3, Err(Error::AlreadyRegistered));
}

#[test]
fn second_registration_rejected_record_kept() {
    let mut registry = Pallet::new(16);
    assert_eq!(registry.register_hospital(7, bytes("General"), bytes("North")), Ok(()));
    assert_eq!(
        registry.register_hospital(7, bytes("General"), bytes("North")),
        Err(Error::AlreadyRegistered)
    );
    let info = registry.hospital(7).expect("first record kept");
    assert_eq!(info.name, bytes("General"));
    assert_eq!(info.location, bytes("North"));
    assert_eq!(registry.events().len(), 1);
}

#[test]
fn oversized_name_rejected_no_entry() {
    let mut registry = Pallet::new(4);
    let r = registry.register_hospital(2, bytes("too long"), bytes("ok"));
    assert_eq!(r, Err(Error::TooLong));
    assert!(!registry.contains_hospital(2));
    assert!(registry.hospital(2).is_none());

    // Regardless of the location, even an oversized one.
    let r = registry.register_hospital(2, bytes("too long"), bytes("also too long"));
    assert_eq!(r, Err(Error::TooLong));
    assert!(!registry.contains_hospital(2));
}

#[test]
fn oversized_location_rejected_no_entry() {
    let mut registry = Pallet::new(4);
    let r = registry.register_hospital(3, bytes("ok"), bytes("too long"));
    assert_eq!(r, Err(Error::TooLong));
    assert!(!registry.contains_hospital(3));
    assert!(registry.events().is_empty());
}

#[test]
fn duplicate_wins_over_oversized_field() {
    let mut registry = Pallet::new(8);
    assert_eq!(registry.register_hospital(4, bytes("St Mary"), bytes("West")), Ok(()));
    // The duplicate check comes first, so the oversized name is not the error.
    let r = registry.register_hospital(4, bytes("far too long a name"), bytes("East"));
    assert_eq!(r, Err(Error::AlreadyRegistered));
}

#[test]
fn failed_calls_change_nothing() {
    let mut registry = Pallet::new(5);
    assert_eq!(registry.register_hospital(10, bytes("one"), bytes("two")), Ok(()));

    // TooLong for a fresh identity: no entry, no event.
    assert_eq!(registry.register_hospital(11, bytes("toolong"), bytes("x")), Err(Error::TooLong));
    assert!(!registry.contains_hospital(11));
    assert_eq!(registry.events().len(), 1);

    // AlreadyRegistered: record and events unchanged.
    assert_eq!(
        registry.register_hospital(10, bytes("new"), bytes("new")),
        Err(Error::AlreadyRegistered)
    );
    let info = registry.hospital(10).expect("record kept");
    assert_eq!(info.name, bytes("one"));
    assert_eq!(info.location, bytes("two"));
    assert_eq!(registry.events().len(), 1);
}

#[test]
fn success_stores_record_and_emits_one_event() {
    let mut registry = Pallet::new(32);
    assert!(registry.events().is_empty());
    assert_eq!(registry.register_hospital(42, bytes("Mercy"), bytes("Harbor")), Ok(()));
    assert!(registry.contains_hospital(42));
    let info = registry.hospital(42).expect("record stored");
    assert_eq!(info.name, bytes("Mercy"));
    assert_eq!(info.location, bytes("Harbor"));
    assert_eq!(registry.events().as_slice(), &[Event::HospitalRegistered(42)]);
}

#[test]
fn length_bound_is_inclusive() {
    let mut registry = Pallet::new(4);
    // Exactly at the bound: accepted.
    assert_eq!(registry.register_hospital(1, bytes("abcd"), bytes("wxyz")), Ok(()));
    // One byte over the bound: rejected.
    assert_eq!(registry.register_hospital(2, bytes("abcde"), bytes("ok")), Err(Error::TooLong));
    assert_eq!(registry.register_hospital(3, bytes("ok"), bytes("vwxyz")), Err(Error::TooLong));
}

#[test]
fn empty_fields_are_accepted() {
    let mut registry = Pallet::new(10);
    assert_eq!(registry.register_hospital(5, Vec::new(), Vec::new()), Ok(()));
    let info = registry.hospital(5).expect("record stored");
    assert!(info.name.is_empty());
    assert!(info.location.is_empty());
}

#[test]
fn zero_bound_accepts_only_empty_fields() {
    let mut registry = Pallet::new(0);
    assert_eq!(registry.register_hospital(6, bytes("a"), Vec::new()), Err(Error::TooLong));
    assert_eq!(registry.register_hospital(6, Vec::new(), Vec::new()), Ok(()));
}

#[test]
fn identities_are_independent() {
    let mut registry = Pallet::new(8);
    assert_eq!(registry.register_hospital(1, bytes("one"), bytes("a")), Ok(()));
    assert_eq!(registry.register_hospital(2, bytes("two"), bytes("b")), Ok(()));
    assert_eq!(registry.register_hospital(3, bytes("three"), bytes("c")), Ok(()));
    assert_eq!(registry.hospital(1).expect("kept").name, bytes("one"));
    assert_eq!(registry.hospital(2).expect("kept").name, bytes("two"));
    assert_eq!(registry.hospital(3).expect("kept").name, bytes("three"));
    assert_eq!(
        registry.events().as_slice(),
        &[
            Event::HospitalRegistered(1),
            Event::HospitalRegistered(2),
            Event::HospitalRegistered(3),
        ]
    );
    assert!(!registry.contains_hospital(4));
}

#[test]
fn max_string_len_is_reported() {
    let registry = Pallet::new(123);
    assert_eq!(registry.max_string_len(), 123);
}

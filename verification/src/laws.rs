//! General properties of registration, stated over the registry's model.

use vstd::prelude::*;

use crate::registry::Error;
use crate::registry::Event;
use crate::registry::events_after;
use crate::registry::register_outcome;
use crate::registry::registry_after;

verus! {

/// A registration that succeeded cannot be repeated: a second attempt for
/// the same identity, however valid its fields, is rejected as a duplicate
/// and leaves the first record in place.
pub proof fn lemma_idempotent_rejection(
    m: Map<u64, (Seq<u8>, Seq<u8>)>,
    max: nat,
    who: u64,
    name: Seq<u8>,
    location: Seq<u8>,
    name2: Seq<u8>,
    location2: Seq<u8>,
)
    requires
        !m.contains_key(who),
        name.len() <= max,
        location.len() <= max,
        name2.len() <= max,
        location2.len() <= max,
    ensures
        register_outcome(m, max, who, name, location) == Ok::<(), Error>(()),
        register_outcome(registry_after(m, max, who, name, location), max, who, name2, location2)
            == Err::<(), Error>(Error::AlreadyRegistered),
        registry_after(
            registry_after(m, max, who, name, location),
            max,
            who,
            name2,
            location2,
        ) == registry_after(m, max, who, name, location),
        registry_after(
            registry_after(m, max, who, name, location),
            max,
            who,
            name2,
            location2,
        )[who] == (name, location),
{
}

/// An unregistered identity with an oversized name is rejected as `TooLong`,
/// whatever its location, and no entry is created for it.
pub proof fn lemma_length_enforcement(
    m: Map<u64, (Seq<u8>, Seq<u8>)>,
    max: nat,
    who: u64,
    name: Seq<u8>,
    location: Seq<u8>,
)
    requires
        !m.contains_key(who),
        name.len() > max,
    ensures
        register_outcome(m, max, who, name, location) == Err::<(), Error>(Error::TooLong),
        registry_after(m, max, who, name, location) == m,
        !registry_after(m, max, who, name, location).contains_key(who),
{
}

/// When an identity is already registered, the duplicate rejection takes
/// precedence: even with an oversized field the result is
/// `AlreadyRegistered`, not `TooLong`.
pub proof fn lemma_precedence(
    m: Map<u64, (Seq<u8>, Seq<u8>)>,
    max: nat,
    who: u64,
    name: Seq<u8>,
    location: Seq<u8>,
)
    requires
        m.contains_key(who),
        name.len() > max || location.len() > max,
    ensures
        register_outcome(m, max, who, name, location) == Err::<(), Error>(
            Error::AlreadyRegistered,
        ),
{
}

/// A failing registration, with either error, changes nothing: the store and
/// the event log after the attempt equal the store and the log before it.
pub proof fn lemma_atomicity(
    m: Map<u64, (Seq<u8>, Seq<u8>)>,
    evs: Seq<Event>,
    max: nat,
    who: u64,
    name: Seq<u8>,
    location: Seq<u8>,
)
    requires
        register_outcome(m, max, who, name, location) != Ok::<(), Error>(()),
    ensures
        registry_after(m, max, who, name, location) == m,
        events_after(evs, m, max, who, name, location) == evs,
{
}

/// Registering an unregistered identity with fields within the bound
/// succeeds: the store then binds the identity to exactly the given record,
/// and exactly one new notification, for that identity, is produced.
pub proof fn lemma_success_effect(
    m: Map<u64, (Seq<u8>, Seq<u8>)>,
    evs: Seq<Event>,
    max: nat,
    who: u64,
    name: Seq<u8>,
    location: Seq<u8>,
)
    requires
        !m.contains_key(who),
        name.len() <= max,
        location.len() <= max,
    ensures
        register_outcome(m, max, who, name, location) == Ok::<(), Error>(()),
        registry_after(m, max, who, name, location) == m.insert(who, (name, location)),
        registry_after(m, max, who, name, location).contains_key(who),
        registry_after(m, max, who, name, location)[who] == (name, location),
        events_after(evs, m, max, who, name, location) == evs.push(
            Event::HospitalRegistered(who),
        ),
        events_after(evs, m, max, who, name, location).len() == evs.len() + 1,
        events_after(evs, m, max, who, name, location).last() == Event::HospitalRegistered(who),
{
}

/// The length bound is inclusive: a name of exactly the maximum length is
/// accepted, and one a single byte longer is rejected as `TooLong`.
pub proof fn lemma_boundary(
    m: Map<u64, (Seq<u8>, Seq<u8>)>,
    max: nat,
    who: u64,
    name_at: Seq<u8>,
    name_over: Seq<u8>,
    location: Seq<u8>,
)
    requires
        !m.contains_key(who),
        name_at.len() == max,
        name_over.len() == max + 1,
        location.len() <= max,
    ensures
        register_outcome(m, max, who, name_at, location) == Ok::<(), Error>(()),
        register_outcome(m, max, who, name_over, location) == Err::<(), Error>(Error::TooLong),
{
}

} // verus!

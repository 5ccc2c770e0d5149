//! The registry itself: its record and event types, the mathematical model
//! of its store, and the single registration operation.

use vstd::prelude::*;

verus! {

/// One stored record: a name and a location, each a byte sequence whose
/// length is bounded by the registry's configured maximum.
#[derive(Clone, Debug, PartialEq, Eq)]
pub struct HospitalInfo {
    pub name: Vec<u8>,
    pub location: Vec<u8>,
}

impl View for HospitalInfo {
    type V = (Seq<u8>, Seq<u8>);

    open spec fn view(&self) -> (Seq<u8>, Seq<u8>) {
        (self.name@, self.location@)
    }
}

/// A notification produced by the registry.
#[derive(Clone, Copy, Debug, PartialEq, Eq, Structural)]
pub enum Event {
    /// A new hospital was registered, carrying the identity that registered.
    HospitalRegistered(u64),
}

/// The two ways a registration can fail.
#[derive(Clone, Copy, Debug, PartialEq, Eq, Structural)]
pub enum Error {
    /// The identity already has a record; nothing was changed.
    AlreadyRegistered,
    /// A field exceeds the configured maximum length; nothing was changed.
    TooLong,
}

/// The map a sequence of keyed entries stands for: each entry in turn bound
/// to its key. With unique keys the order of the entries does not matter.
pub open spec fn map_of(entries: Seq<(u64, HospitalInfo)>) -> Map<u64, (Seq<u8>, Seq<u8>)>
    decreases entries.len(),
{
    if entries.len() == 0 {
        Map::empty()
    } else {
        map_of(entries.drop_last()).insert(entries.last().0, entries.last().1@)
    }
}

/// No two entries share a key.
pub open spec fn unique_keys(entries: Seq<(u64, HospitalInfo)>) -> bool {
    forall|i: int, j: int|
        0 <= i < j < entries.len() ==> (#[trigger] entries[i]).0 != (#[trigger] entries[j]).0
}

/// Every record in the map keeps both of its fields within the bound.
pub open spec fn records_bounded(m: Map<u64, (Seq<u8>, Seq<u8>)>, max: nat) -> bool {
    forall|k: u64|
        #[trigger] m.contains_key(k) ==> m[k].0.len() <= max && m[k].1.len() <= max
}

/// The result of a registration attempt against the store `m` under the
/// length bound `max`: a duplicate identity is rejected first, then an
/// oversized field, and only otherwise does the attempt succeed.
pub open spec fn register_outcome(
    m: Map<u64, (Seq<u8>, Seq<u8>)>,
    max: nat,
    who: u64,
    name: Seq<u8>,
    location: Seq<u8>,
) -> Result<(), Error> {
    if m.contains_key(who) {
        Err(Error::AlreadyRegistered)
    } else if name.len() > max || location.len() > max {
        Err(Error::TooLong)
    } else {
        Ok(())
    }
}

/// The store after a registration attempt: extended by the new record on
/// success, untouched on any failure.
pub open spec fn registry_after(
    m: Map<u64, (Seq<u8>, Seq<u8>)>,
    max: nat,
    who: u64,
    name: Seq<u8>,
    location: Seq<u8>,
) -> Map<u64, (Seq<u8>, Seq<u8>)> {
    if register_outcome(m, max, who, name, location) == Ok::<(), Error>(()) {
        m.insert(who, (name, location))
    } else {
        m
    }
}

/// The event log after a registration attempt: one new notification for the
/// registered identity on success, untouched on any failure.
pub open spec fn events_after(
    evs: Seq<Event>,
    m: Map<u64, (Seq<u8>, Seq<u8>)>,
    max: nat,
    who: u64,
    name: Seq<u8>,
    location: Seq<u8>,
) -> Seq<Event> {
    if register_outcome(m, max, who, name, location) == Ok::<(), Error>(()) {
        evs.push(Event::HospitalRegistered(who))
    } else {
        evs
    }
}

proof fn lemma_map_of_contains(entries: Seq<(u64, HospitalInfo)>, who: u64)
    ensures
        map_of(entries).contains_key(who) <==> (exists|i: int|
            0 <= i < entries.len() && (#[trigger] entries[i]).0 == who),
    decreases entries.len(),
{
    if entries.len() > 0 {
        let prefix = entries.drop_last();
        lemma_map_of_contains(prefix, who);
        if entries.last().0 == who {
            assert(entries[entries.len() - 1].0 == who);
        } else {
            if map_of(entries).contains_key(who) {
                let i = choose|i: int| 0 <= i < prefix.len() && (#[trigger] prefix[i]).0 == who;
                assert(entries[i].0 == who);
            }
            if exists|i: int| 0 <= i < entries.len() && (#[trigger] entries[i]).0 == who {
                let i = choose|i: int| 0 <= i < entries.len() && (#[trigger] entries[i]).0 == who;
                assert(i < entries.len() - 1);
                assert(prefix[i].0 == who);
            }
        }
    }
}

proof fn lemma_map_of_get(entries: Seq<(u64, HospitalInfo)>, i: int)
    requires
        unique_keys(entries),
        0 <= i < entries.len(),
    ensures
        map_of(entries).contains_key(entries[i].0),
        map_of(entries)[entries[i].0] == entries[i].1@,
    decreases entries.len(),
{
    let prefix = entries.drop_last();
    if i == entries.len() - 1 {
        assert(entries[i] == entries.last());
    } else {
        assert forall|a: int, b: int|
            0 <= a < b < prefix.len() implies (#[trigger] prefix[a]).0 != (#[trigger] prefix[b]).0
        by {
            assert(entries[a].0 != entries[b].0);
        }
        lemma_map_of_get(prefix, i);
        assert(entries[i].0 != entries.last().0);
        assert(prefix[i] == entries[i]);
    }
}

/// The registry: a store of at most one record per identity, the configured
/// length bound, and the log of notifications produced so far.
pub struct Pallet {
    max_string_len: u32,
    entries: Vec<(u64, HospitalInfo)>,
    events: Vec<Event>,
}

impl Pallet {
    /// The store, as a map from identity to the stored (name, location) pair.
    pub closed spec fn registered(&self) -> Map<u64, (Seq<u8>, Seq<u8>)> {
        map_of(self.entries@)
    }

    /// The configured maximum byte length for a name or a location.
    pub closed spec fn max_len(&self) -> nat {
        self.max_string_len as nat
    }

    /// The notifications produced so far, oldest first.
    pub closed spec fn event_log(&self) -> Seq<Event> {
        self.events@
    }

    /// The registry's invariant: entry keys are unique, and every stored
    /// record keeps both fields within the bound.
    pub closed spec fn inv(&self) -> bool {
        &&& unique_keys(self.entries@)
        &&& records_bounded(map_of(self.entries@), self.max_string_len as nat)
    }

    /// Every record a well-formed registry stores keeps both of its fields
    /// within the configured bound.
    pub proof fn lemma_inv_records_bounded(&self)
        requires
            self.inv(),
        ensures
            records_bounded(self.registered(), self.max_len()),
    {
    }

    /// An empty registry with the given length bound.
    pub fn new(max_string_len: u32) -> (r: Pallet)
        ensures
            r.inv(),
            r.max_len() == max_string_len as nat,
            r.registered() == Map::<u64, (Seq<u8>, Seq<u8>)>::empty(),
            r.event_log() == Seq::<Event>::empty(),
    {
        Pallet { max_string_len, entries: Vec::new(), events: Vec::new() }
    }

    /// Whether the given identity already has a record.
    pub fn contains_hospital(&self, who: u64) -> (r: bool)
        ensures
            r == self.registered().contains_key(who),
    {
        let n = self.entries.len();
        let mut i: usize = 0;
        while i < n
            invariant
                n == self.entries.len(),
                0 <= i <= n,
                forall|j: int| 0 <= j < i ==> (#[trigger] self.entries@[j]).0 != who,
            decreases n - i,
        {
            if self.entries[i].0 == who {
                proof {
                    lemma_map_of_contains(self.entries@, who);
                }
                return true;
            }
            i = i + 1;
        }
        proof {
            lemma_map_of_contains(self.entries@, who);
        }
        false
    }

    /// Register `who` with the given name and location.
    ///
    /// The duplicate check comes first, then the length checks, so an
    /// identity that is already registered is rejected as `AlreadyRegistered`
    /// even when a field is also oversized. A failed attempt leaves the
    /// store and the event log exactly as they were; a successful one adds
    /// exactly the new record and one `HospitalRegistered` notification.
    pub fn register_hospital(&mut self, who: u64, name: Vec<u8>, location: Vec<u8>) -> (r: Result<(), Error>)
        requires
            old(self).inv(),
        ensures
            final(self).inv(),
            final(self).max_len() == old(self).max_len(),
            r == register_outcome(old(self).registered(), old(self).max_len(), who, name@, location@),
            final(self).registered() == registry_after(
                old(self).registered(),
                old(self).max_len(),
                who,
                name@,
                location@,
            ),
            final(self).event_log() == events_after(
                old(self).event_log(),
                old(self).registered(),
                old(self).max_len(),
                who,
                name@,
                location@,
            ),
    {
        if self.contains_hospital(who) {
            return Err(Error::AlreadyRegistered);
        }
        if (name.len() as u64) > (self.max_string_len as u64) {
            return Err(Error::TooLong);
        }
        if (location.len() as u64) > (self.max_string_len as u64) {
            return Err(Error::TooLong);
        }
        let ghost name_view = name@;
        let ghost location_view = location@;
        let pair = (who, HospitalInfo { name, location });
        let ghost gpair = pair;
        self.entries.push(pair);
        self.events.push(Event::HospitalRegistered(who));
        proof {
            let prev = old(self).entries@;
            let cur = self.entries@;
            assert(cur == prev.push(gpair));
            assert(cur.drop_last() =~= prev);
            assert(cur.last() == gpair);
            assert(map_of(cur) == map_of(prev).insert(who, (name_view, location_view)));
            lemma_map_of_contains(prev, who);
            assert forall|a: int, b: int|
                0 <= a < b < cur.len() implies (#[trigger] cur[a]).0 != (#[trigger] cur[b]).0
            by {
                if b == cur.len() - 1 {
                    assert(cur[a] == prev[a]);
                    assert(prev[a].0 != who);
                } else {
                    assert(cur[a] == prev[a]);
                    assert(cur[b] == prev[b]);
                }
            }
            assert(unique_keys(cur));
            let max = old(self).max_string_len as nat;
            assert forall|k: u64| #[trigger] map_of(cur).contains_key(k) implies map_of(cur)[k].0.len()
                <= max && map_of(cur)[k].1.len() <= max by {
                if k != who {
                    assert(map_of(prev).contains_key(k));
                    assert(map_of(cur)[k] == map_of(prev)[k]);
                }
            }
            assert(records_bounded(map_of(cur), max));
        }
        Ok(())
    }

    /// The record stored for `who`, if any.
    pub fn hospital(&self, who: u64) -> (r: Option<&HospitalInfo>)
        requires
            self.inv(),
        ensures
            (match r {
                Some(info) => self.registered().contains_key(who)
                    && info@ == self.registered()[who],
                None => !self.registered().contains_key(who),
            }),
    {
        let n = self.entries.len();
        let mut i: usize = 0;
        while i < n
            invariant
                self.inv(),
                n == self.entries.len(),
                0 <= i <= n,
                forall|j: int| 0 <= j < i ==> (#[trigger] self.entries@[j]).0 != who,
            decreases n - i,
        {
            if self.entries[i].0 == who {
                proof {
                    lemma_map_of_get(self.entries@, i as int);
                }
                return Some(&self.entries[i].1);
            }
            i = i + 1;
        }
        proof {
            lemma_map_of_contains(self.entries@, who);
        }
        None
    }

    /// The notifications produced so far, oldest first.
    pub fn events(&self) -> (r: &Vec<Event>)
        ensures
            r@ == self.event_log(),
    {
        &self.events
    }

    /// The configured maximum byte length for a name or a location.
    pub fn max_string_len(&self) -> (r: u32)
        ensures
            r as nat == self.max_len(),
    {
        self.max_string_len
    }
}

} // verus!

//! The state as it is written down between runs.
//!
//! Times are written as whole seconds since the Unix epoch and nanoseconds of
//! the second, services as a list of entries.

use crate::name_map::{map_of, NameMap};
use crate::state::{upgrade_due, ImageState, RawrrState, ServiceState};
use crate::time::{valid_parts, Timestamp, NANOS_PER_SEC};
use vstd::prelude::*;

verus! {

/// An image as it is written down.
#[derive(Debug)]
pub struct SavedImage {
    pub digest: String,
    pub first_seen: (i64, u32),
    pub last_checked: (i64, u32),
    pub dealt_with: bool,
}

/// A service as it is written down.
#[derive(Debug)]
pub struct SavedService {
    pub name: String,
    pub image: Option<SavedImage>,
}

/// The state as it is written down.
#[derive(Debug)]
pub struct SavedState {
    pub last_poll_time: (i64, u32),
    pub services: Vec<(String, SavedService)>,
}

/// What there is to know of an image: its digest, when it was first seen and
/// last checked, in nanoseconds since the Unix epoch, and whether it was dealt
/// with.
pub struct ImageFacts {
    pub digest: Seq<char>,
    pub first_seen: int,
    pub last_checked: int,
    pub dealt_with: bool,
}

/// What there is to know of a service.
pub struct ServiceFacts {
    pub name: Seq<char>,
    pub image: Option<ImageFacts>,
}

/// The nanoseconds since the Unix epoch that parts of a time stand for.
pub open spec fn nanos_of(parts: (i64, u32)) -> int {
    parts.0 * NANOS_PER_SEC + parts.1
}

impl View for ImageState {
    type V = ImageFacts;

    open spec fn view(&self) -> ImageFacts {
        ImageFacts {
            digest: self.digest@,
            first_seen: self.first_seen@,
            last_checked: self.last_checked@,
            dealt_with: self.dealt_with,
        }
    }
}

impl View for ServiceState {
    type V = ServiceFacts;

    open spec fn view(&self) -> ServiceFacts {
        ServiceFacts {
            name: self.name@,
            image: match self.image {
                Some(image) => Some(image@),
                None => None,
            },
        }
    }
}

impl View for SavedImage {
    type V = ImageFacts;

    open spec fn view(&self) -> ImageFacts {
        ImageFacts {
            digest: self.digest@,
            first_seen: nanos_of(self.first_seen),
            last_checked: nanos_of(self.last_checked),
            dealt_with: self.dealt_with,
        }
    }
}

impl View for SavedService {
    type V = ServiceFacts;

    open spec fn view(&self) -> ServiceFacts {
        ServiceFacts {
            name: self.name@,
            image: match self.image {
                Some(image) => Some(image@),
                None => None,
            },
        }
    }
}

/// What there is to know of each service.
pub open spec fn facts_of(services: Map<Seq<char>, ServiceState>) -> Map<Seq<char>, ServiceFacts> {
    services.map_values(|s: ServiceState| s@)
}

/// What there is to know of each service that is written down.
pub open spec fn saved_facts(services: Map<Seq<char>, SavedService>) -> Map<
    Seq<char>,
    ServiceFacts,
> {
    services.map_values(|s: SavedService| s@)
}

proof fn lemma_insert_facts(
    kept: Map<Seq<char>, ServiceState>,
    saved: Map<Seq<char>, SavedService>,
    name: Seq<char>,
    a: ServiceState,
    b: SavedService,
)
    requires
        facts_of(kept) == saved_facts(saved),
        a@ == b@,
    ensures
        facts_of(kept.insert(name, a)) == saved_facts(saved.insert(name, b)),
{
    let left = facts_of(kept.insert(name, a));
    let right = saved_facts(saved.insert(name, b));
    assert(left =~= facts_of(kept).insert(name, a@));
    assert(right =~= saved_facts(saved).insert(name, b@));
}

impl SavedImage {
    /// The times are ones that a timestamp can denote.
    pub open spec fn times_in_range(&self) -> bool {
        valid_parts(self.first_seen.0, self.first_seen.1) && valid_parts(
            self.last_checked.0,
            self.last_checked.1,
        )
    }
}

impl SavedService {
    /// The times are ones that a timestamp can denote.
    pub open spec fn times_in_range(&self) -> bool {
        match self.image {
            Some(image) => image.times_in_range(),
            None => true,
        }
    }
}

impl SavedState {
    /// The times are ones that a timestamp can denote.
    pub open spec fn times_in_range(&self) -> bool {
        &&& valid_parts(self.last_poll_time.0, self.last_poll_time.1)
        &&& forall|i: int|
            0 <= i < self.services@.len() ==> (#[trigger] self.services@[i]).1.times_in_range()
    }

    /// What there is to know of each service. Of two entries under one name
    /// the later counts.
    pub open spec fn facts(&self) -> Map<Seq<char>, ServiceFacts> {
        saved_facts(map_of(self.services@))
    }
}

fn save_service(service: &ServiceState) -> (saved: SavedService)
    ensures
        saved@ == service@,
        saved.times_in_range(),
{
    let image: Option<SavedImage> = match &service.image {
        Some(image) => Some(
            SavedImage {
                digest: image.digest.clone(),
                first_seen: image.first_seen.parts(),
                last_checked: image.last_checked.parts(),
                dealt_with: image.dealt_with,
            },
        ),
        None => None,
    };
    SavedService { name: service.name.clone(), image }
}

fn restore_service(saved: &SavedService) -> (service: Option<ServiceState>)
    ensures
        match service {
            Some(s) => saved.times_in_range() && s@ == saved@,
            None => !saved.times_in_range(),
        },
{
    let image: Option<ImageState> = match &saved.image {
        Some(image) => {
            match (
                Timestamp::from_parts(image.first_seen.0, image.first_seen.1),
                Timestamp::from_parts(image.last_checked.0, image.last_checked.1),
            ) {
                (Some(first_seen), Some(last_checked)) => Some(
                    ImageState {
                        digest: image.digest.clone(),
                        first_seen,
                        last_checked,
                        dealt_with: image.dealt_with,
                    },
                ),
                _ => {
                    return None;
                },
            }
        },
        None => None,
    };
    Some(ServiceState { name: saved.name.clone(), image })
}

impl RawrrState {
    /// The state as it is to be written down.
    pub fn to_saved(&self) -> (saved: SavedState)
        ensures
            saved.times_in_range(),
            nanos_of(saved.last_poll_time) == self.last_poll_time@,
            saved.facts() == facts_of(self.services@),
    {
        let entries: &Vec<(String, ServiceState)> = self.services.entries();
        let mut services: Vec<(String, SavedService)> = Vec::new();
        let mut i: usize = 0;
        assert(saved_facts(map_of(services@)) =~= facts_of(map_of(entries@.take(0))));
        while i < entries.len()
            invariant
                i <= entries.len(),
                services.len() == i,
                forall|k: int|
                    0 <= k < services@.len() ==> (#[trigger] services@[k]).1.times_in_range(),
                saved_facts(map_of(services@)) == facts_of(map_of(entries@.take(i as int))),
            decreases entries.len() - i,
        {
            let ghost before = services@;
            let saved: SavedService = save_service(&entries[i].1);
            services.push((entries[i].0.clone(), saved));
            proof {
                assert(services@.drop_last() =~= before);
                assert(entries@.take(i + 1).drop_last() =~= entries@.take(i as int));
                lemma_insert_facts(
                    map_of(entries@.take(i as int)),
                    map_of(before),
                    entries@[i as int].0@,
                    entries@[i as int].1,
                    saved,
                );
            }
            i = i + 1;
        }
        assert(entries@.take(i as int) =~= entries@);
        SavedState { last_poll_time: self.last_poll_time.parts(), services }
    }

    /// The state that was written down, if its times can be denoted.
    pub fn from_saved(saved: &SavedState) -> (state: Option<RawrrState>)
        ensures
            match state {
                Some(s) => {
                    &&& saved.times_in_range()
                    &&& s.last_poll_time@ == nanos_of(saved.last_poll_time)
                    &&& facts_of(s.services@) == saved.facts()
                    &&& s.services.well_formed()
                },
                None => !saved.times_in_range(),
            },
    {
        let last_poll_time: Timestamp = match Timestamp::from_parts(
            saved.last_poll_time.0,
            saved.last_poll_time.1,
        ) {
            Some(t) => t,
            None => {
                return None;
            },
        };
        let mut services: NameMap<ServiceState> = NameMap::new();
        let mut i: usize = 0;
        assert(facts_of(services@) =~= saved_facts(map_of(saved.services@.take(0))));
        while i < saved.services.len()
            invariant
                i <= saved.services.len(),
                forall|k: int| 0 <= k < i ==> (#[trigger] saved.services@[k]).1.times_in_range(),
                services.well_formed(),
                facts_of(services@) == saved_facts(map_of(saved.services@.take(i as int))),
            decreases saved.services.len() - i,
        {
            let ghost before = services@;
            match restore_service(&saved.services[i].1) {
                Some(service) => {
                    proof {
                        lemma_insert_facts(
                            before,
                            map_of(saved.services@.take(i as int)),
                            saved.services@[i as int].0@,
                            service,
                            saved.services@[i as int].1,
                        );
                    }
                    services.insert(saved.services[i].0.clone(), service);
                },
                None => {
                    return None;
                },
            }
            proof {
                assert(saved.services@.take(i + 1).drop_last() =~= saved.services@.take(i as int));
            }
            i = i + 1;
        }
        assert(saved.services@.take(i as int) =~= saved.services@);
        Some(RawrrState { last_poll_time, services })
    }

    /// The state to start with: what was written down, or nothing.
    pub fn restore(saved: &Option<SavedState>) -> (state: Option<RawrrState>)
        ensures
            match (saved, state) {
                (None, Some(s)) => {
                    &&& s.last_poll_time@ == 0
                    &&& s.services.well_formed()
                    &&& s.services@ == Map::<Seq<char>, ServiceState>::empty()
                },
                (None, None) => false,
                (Some(saved), Some(s)) => {
                    &&& saved.times_in_range()
                    &&& s.last_poll_time@ == nanos_of(saved.last_poll_time)
                    &&& facts_of(s.services@) == saved.facts()
                    &&& s.services.well_formed()
                },
                (Some(saved), None) => !saved.times_in_range(),
            },
    {
        match saved {
            Some(saved) => RawrrState::from_saved(saved),
            None => Some(RawrrState::new()),
        }
    }
}

/// A state that is written down and read back is the same: what there is to
/// know of each service is kept, and whether an upgrade is due does not change.
pub proof fn law_saved_state_reads_back(
    state: RawrrState,
    saved: SavedState,
    restored: RawrrState,
    name: Seq<char>,
    digest: Seq<char>,
    delay: int,
    now: int,
)
    requires
        nanos_of(saved.last_poll_time) == state.last_poll_time@,
        saved.facts() == facts_of(state.services@),
        restored.last_poll_time@ == nanos_of(saved.last_poll_time),
        facts_of(restored.services@) == saved.facts(),
    ensures
        restored.last_poll_time@ == state.last_poll_time@,
        facts_of(restored.services@) == facts_of(state.services@),
        upgrade_due(restored.image(name), digest, delay, now) == upgrade_due(
            state.image(name),
            digest,
            delay,
            now,
        ),
{
    let a = facts_of(state.services@);
    let b = facts_of(restored.services@);
    assert(a.contains_key(name) == state.services@.contains_key(name));
    assert(b.contains_key(name) == restored.services@.contains_key(name));
    if a.contains_key(name) {
        assert(a[name] == state.services@[name]@);
        assert(b[name] == restored.services@[name]@);
    }
}

/// Each thing that is known of a service is read back as it was.
pub proof fn law_every_fact_reads_back(
    state: RawrrState,
    saved: SavedState,
    restored: RawrrState,
    name: Seq<char>,
)
    requires
        saved.facts() == facts_of(state.services@),
        facts_of(restored.services@) == saved.facts(),
    ensures
        restored.services@.contains_key(name) <==> state.services@.contains_key(name),
        state.services@.contains_key(name) ==> {
            let a = state.services@[name];
            let b = restored.services@[name];
            &&& b.name@ == a.name@
            &&& match (a.image, b.image) {
                (Some(x), Some(y)) => {
                    &&& y.digest@ == x.digest@
                    &&& y.first_seen@ == x.first_seen@
                    &&& y.last_checked@ == x.last_checked@
                    &&& y.dealt_with == x.dealt_with
                },
                (None, None) => true,
                _ => false,
            }
        },
{
    let a = facts_of(state.services@);
    let b = facts_of(restored.services@);
    assert(a.contains_key(name) == state.services@.contains_key(name));
    assert(b.contains_key(name) == restored.services@.contains_key(name));
    if a.contains_key(name) {
        assert(a[name] == state.services@[name]@);
        assert(b[name] == restored.services@[name]@);
    }
}

/// What is written down says of each service what is known of it: the entry
/// under its name holds the same digest and name, and the same times, in
/// seconds and nanoseconds.
pub proof fn law_written_facts(state: RawrrState, saved: SavedState, name: Seq<char>)
    requires
        saved.facts() == facts_of(state.services@),
    ensures
        map_of(saved.services@).contains_key(name) <==> state.services@.contains_key(name),
        state.services@.contains_key(name) ==> {
            let a = state.services@[name];
            let b = map_of(saved.services@)[name];
            &&& b.name@ == a.name@
            &&& match (a.image, b.image) {
                (Some(x), Some(y)) => {
                    &&& y.digest@ == x.digest@
                    &&& y.first_seen.0 * 1_000_000_000 + y.first_seen.1 == x.first_seen@
                    &&& y.last_checked.0 * 1_000_000_000 + y.last_checked.1 == x.last_checked@
                    &&& y.dealt_with == x.dealt_with
                },
                (None, None) => true,
                _ => false,
            }
        },
{
    let a = facts_of(state.services@);
    let b = saved_facts(map_of(saved.services@));
    assert(a.contains_key(name) == state.services@.contains_key(name));
    assert(b.contains_key(name) == map_of(saved.services@).contains_key(name));
    if a.contains_key(name) {
        assert(a[name] == state.services@[name]@);
        assert(b[name] == map_of(saved.services@)[name]@);
    }
}

/// Times can be read back if their seconds are in the range of timestamps and
/// their nanoseconds are less than a second, each of them.
pub proof fn law_times_out_of_range_are_found(saved: SavedState, i: int)
    ensures
        saved.last_poll_time.1 >= 1_000_000_000 ==> !saved.times_in_range(),
        0 <= i < saved.services@.len() && (saved.services@[i].1.image matches Some(image) && (
        image.first_seen.1 >= 1_000_000_000 || image.last_checked.1 >= 1_000_000_000))
            ==> !saved.times_in_range(),
{
    if 0 <= i < saved.services@.len() {
        assert(saved.times_in_range() ==> saved.services@[i].1.times_in_range());
    }
}

} // verus!

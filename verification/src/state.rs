//! What is remembered of the watched services between polls.

use crate::name_map::NameMap;
use crate::text::same_text;
use crate::time::{Duration, Timestamp};
use vstd::prelude::*;

verus! {

/// An image that a service was seen to be offered.
#[derive(Debug, Clone)]
pub struct ImageState {
    /// The digest of the image.
    pub digest: String,
    /// When the image was first seen.
    pub first_seen: Timestamp,
    /// When the registry was last asked.
    pub last_checked: Timestamp,
    /// Whether the upgrade to the image has been dealt with.
    pub dealt_with: bool,
}

/// What is remembered of one service.
#[derive(Debug, Clone)]
pub struct ServiceState {
    /// The name of the container.
    pub name: String,
    /// The image that is tracked.
    pub image: Option<ImageState>,
}

/// What is remembered between polls.
#[derive(Debug, Clone)]
pub struct RawrrState {
    /// When the last full poll happened.
    pub last_poll_time: Timestamp,
    /// The services, by name.
    pub services: NameMap<ServiceState>,
}

/// The image on record for a service.
pub open spec fn image_of(services: Map<Seq<char>, ServiceState>, name: Seq<char>) -> Option<
    ImageState,
> {
    if services.contains_key(name) {
        services[name].image
    } else {
        None
    }
}

/// Since when an image with this digest is known, if `image` is on record and
/// it is offered at the time `now`.
pub open spec fn known_since(image: Option<ImageState>, digest: Seq<char>, now: Timestamp) -> Timestamp {
    match image {
        Some(known) => if known.digest@ == digest {
            known.first_seen
        } else {
            now
        },
        None => now,
    }
}

/// Whether the image with this digest is on record and has been dealt with.
pub open spec fn settled(image: Option<ImageState>, digest: Seq<char>) -> bool {
    match image {
        Some(known) => known.digest@ == digest && known.dealt_with,
        None => false,
    }
}

/// The service after an image with this digest was seen at the time `now`. An
/// image that was already on record keeps the time at which it was first seen,
/// and stays dealt with if it was.
pub open spec fn with_image(service: ServiceState, digest: String, now: Timestamp) -> ServiceState {
    ServiceState {
        image: Some(
            ImageState {
                digest,
                first_seen: known_since(service.image, digest@, now),
                last_checked: now,
                dealt_with: settled(service.image, digest@),
            },
        ),
        ..service
    }
}

/// The service with the image on record dealt with, and its release delay
/// started anew at the time `now`.
pub open spec fn restarted(service: ServiceState, now: Timestamp) -> ServiceState {
    match service.image {
        Some(image) => ServiceState {
            image: Some(ImageState { first_seen: now, dealt_with: true, ..image }),
            ..service
        },
        None => service,
    }
}

/// Whether an upgrade to the image with this digest is due at the time `now`:
/// it is the image on record, it has not been dealt with, and it has been known
/// for at least the delay.
pub open spec fn upgrade_due(
    image: Option<ImageState>,
    digest: Seq<char>,
    delay: int,
    now: int,
) -> bool {
    match image {
        Some(known) => known.digest@ == digest && !known.dealt_with && now - known.first_seen@
            >= delay,
        None => false,
    }
}

/// The services after the image of the named one was dealt with.
pub open spec fn services_restarted(
    services: Map<Seq<char>, ServiceState>,
    name: Seq<char>,
    now: Timestamp,
) -> Map<Seq<char>, ServiceState> {
    if services.contains_key(name) {
        services.insert(name, restarted(services[name], now))
    } else {
        services
    }
}

impl RawrrState {
    /// The entry of a service, or the entry that it gets when it is first
    /// named.
    pub open spec fn service_or_new(&self, name: String) -> ServiceState {
        if self.services@.contains_key(name@) {
            self.services@[name@]
        } else {
            ServiceState { name, image: None }
        }
    }

    /// The image on record for a service.
    pub open spec fn image(&self, name: Seq<char>) -> Option<ImageState> {
        image_of(self.services@, name)
    }

    /// Nothing is remembered.
    pub fn new() -> (state: RawrrState)
        ensures
            state.last_poll_time@ == 0,
            state.services.well_formed(),
            state.services@ == Map::<Seq<char>, ServiceState>::empty(),
    {
        RawrrState { last_poll_time: Timestamp::unix_epoch(), services: NameMap::new() }
    }

    /// The entry of a service, made if there is none.
    pub fn get_or_create_service(&mut self, name: String) -> (service: &mut ServiceState)
        ensures
            *service == old(self).service_or_new(name),
            final(self).services@ == old(self).services@.insert(name@, *final(service)),
            final(self).last_poll_time == old(self).last_poll_time,
            old(self).services.well_formed() ==> final(self).services.well_formed(),
    {
        let entry = ServiceState { name: name.clone(), image: None };
        self.services.get_or_insert(name, entry)
    }

    /// Notes that a service is offered the image with this digest at the time
    /// `now`.
    pub fn update_service_image_at(&mut self, service_name: String, digest: String, now: Timestamp)
        ensures
            final(self).services@ == old(self).services@.insert(
                service_name@,
                with_image(old(self).service_or_new(service_name), digest, now),
            ),
            final(self).last_poll_time == old(self).last_poll_time,
            old(self).services.well_formed() ==> final(self).services.well_formed(),
    {
        let service = self.get_or_create_service(service_name);
        let (first_seen, dealt_with): (Timestamp, bool) = match &service.image {
            Some(image) => if image.digest == digest {
                (image.first_seen, image.dealt_with)
            } else {
                (now, false)
            },
            None => (now, false),
        };
        service.image = Some(ImageState { digest, first_seen, last_checked: now, dealt_with });
    }

    /// Notes that a service is offered the image with this digest now.
    pub fn update_service_image(&mut self, service_name: String, digest: String)
        ensures
            exists|now: Timestamp|
                0 <= now@ && final(self).services@ == old(self).services@.insert(
                    service_name@,
                    #[trigger] with_image(old(self).service_or_new(service_name), digest, now),
                ),
            final(self).last_poll_time == old(self).last_poll_time,
            old(self).services.well_formed() ==> final(self).services.well_formed(),
    {
        let now: Timestamp = Timestamp::now();
        self.update_service_image_at(service_name, digest, now);
    }

    /// Notes that the upgrade of a service to the image on record has been
    /// dealt with, and starts its release delay anew at the time `now`. No
    /// upgrade of the service is due until the next new digest appears. A
    /// service without an image on record is left alone.
    pub fn mark_upgraded_at(&mut self, service_name: &str, now: Timestamp)
        ensures
            final(self).services@ == services_restarted(old(self).services@, service_name@, now),
            final(self).last_poll_time == old(self).last_poll_time,
            old(self).services.well_formed() ==> final(self).services.well_formed(),
    {
        match self.services.get_mut(service_name) {
            Some(service) => {
                match &mut service.image {
                    Some(image) => {
                        image.first_seen = now;
                        image.dealt_with = true;
                    },
                    None => {},
                }
            },
            None => {},
        }
    }

    /// Notes that the upgrade of a service to the image on record has been
    /// dealt with, and starts its release delay anew.
    pub fn mark_upgraded(&mut self, service_name: &str)
        ensures
            exists|now: Timestamp|
                0 <= now@ && final(self).services@ == #[trigger] services_restarted(
                    old(self).services@,
                    service_name@,
                    now,
                ),
            final(self).last_poll_time == old(self).last_poll_time,
            old(self).services.well_formed() ==> final(self).services.well_formed(),
    {
        let now: Timestamp = Timestamp::now();
        self.mark_upgraded_at(service_name, now);
    }

    /// Whether an upgrade of the service to the image with this digest is due
    /// at the time `now`.
    pub fn should_upgrade_at(
        &self,
        service_name: &str,
        current_digest: &str,
        release_delay: Duration,
        now: Timestamp,
    ) -> (due: bool)
        ensures
            due == upgrade_due(
                self.image(service_name@),
                current_digest@,
                release_delay@,
                now@,
            ),
    {
        match self.services.get(service_name) {
            None => false,
            Some(service) => match &service.image {
                None => false,
                Some(image) => {
                    same_text(image.digest.as_str(), current_digest) && !image.dealt_with
                        && now.nanos_since(&image.first_seen) >= release_delay.as_nanos()
                },
            },
        }
    }

    /// Whether an upgrade of the service to the image with this digest is due.
    pub fn should_upgrade(
        &self,
        service_name: &str,
        current_digest: &str,
        release_delay: Duration,
    ) -> (due: bool)
        ensures
            exists|now: Timestamp|
                0 <= now@ && due == #[trigger] upgrade_due(
                    self.image(service_name@),
                    current_digest@,
                    release_delay@,
                    now@,
                ),
    {
        let now: Timestamp = Timestamp::now();
        self.should_upgrade_at(service_name, current_digest, release_delay, now)
    }
}

impl Default for RawrrState {
    fn default() -> (state: RawrrState)
        ensures
            state.last_poll_time@ == 0,
            state.services.well_formed(),
            state.services@ == Map::<Seq<char>, ServiceState>::empty(),
    {
        RawrrState::new()
    }
}

/// An image that is offered again keeps the time at which it was first seen;
/// another image starts at the time of the poll. Either way the time of the
/// poll is noted.
pub proof fn law_same_image_keeps_first_seen(service: ServiceState, digest: String, now: Timestamp)
    ensures
        with_image(service, digest, now).image matches Some(image) && image.digest == digest
            && image.last_checked == now && (match service.image {
            Some(known) => if known.digest@ == digest@ {
                image.first_seen == known.first_seen
            } else {
                image.first_seen == now
            },
            None => image.first_seen == now,
        }),
{
}

/// However often an image is offered again, an upgrade to it becomes due
/// exactly when it has been known for the delay since the first offer.
pub proof fn law_delay_counts_from_first_offer(
    service: ServiceState,
    digest: String,
    offers: Seq<Timestamp>,
    delay: int,
    now: int,
)
    requires
        offers.len() > 0,
        match service.image {
            Some(known) => known.digest@ != digest@,
            None => true,
        },
    ensures
        upgrade_due(after_offers(service, digest, offers).image, digest@, delay, now) <==> now
            - offers[0]@ >= delay,
    decreases offers.len(),
{
    lemma_after_offers(service, digest, offers);
}

/// The service after the same image was offered at each of these times.
pub open spec fn after_offers(
    service: ServiceState,
    digest: String,
    offers: Seq<Timestamp>,
) -> ServiceState
    decreases offers.len(),
{
    if offers.len() == 0 {
        service
    } else {
        with_image(after_offers(service, digest, offers.drop_last()), digest, offers.last())
    }
}

proof fn lemma_after_offers(service: ServiceState, digest: String, offers: Seq<Timestamp>)
    requires
        offers.len() > 0,
        match service.image {
            Some(known) => known.digest@ != digest@,
            None => true,
        },
    ensures
        after_offers(service, digest, offers).image matches Some(image) && image.digest == digest
            && image.first_seen == offers[0] && !image.dealt_with,
    decreases offers.len(),
{
    let r = offers.drop_last();
    if r.len() > 0 {
        lemma_after_offers(service, digest, r);
    } else {
        assert(after_offers(service, digest, r) == service);
    }
}

/// After the upgrade of a service to the image on record was dealt with, no
/// upgrade of it is due until the next new digest appears: not to any digest,
/// with any delay, at any time, however often the same image is offered again.
pub proof fn law_marked_upgrade_is_not_due_again(
    services: Map<Seq<char>, ServiceState>,
    name: Seq<char>,
    marked: Timestamp,
    same_digest: String,
    offers: Seq<Timestamp>,
    digest: Seq<char>,
    delay: int,
    now: int,
)
    requires
        image_of(services, name) matches Some(known) && known.digest@ == same_digest@,
    ensures
        ({
            let service = services_restarted(services, name, marked)[name];
            let later = after_offers(service, same_digest, offers);
            &&& settled(later.image, same_digest@)
            &&& !upgrade_due(later.image, digest, delay, now)
        }),
{
    let service = services_restarted(services, name, marked)[name];
    lemma_offers_keep_settled(service, same_digest, offers);
}

proof fn lemma_offers_keep_settled(
    service: ServiceState,
    digest: String,
    offers: Seq<Timestamp>,
)
    requires
        settled(service.image, digest@),
    ensures
        settled(after_offers(service, digest, offers).image, digest@),
    decreases offers.len(),
{
    if offers.len() > 0 {
        lemma_offers_keep_settled(service, digest, offers.drop_last());
    }
}

/// An image that was dealt with keeps no other image from becoming due: a new
/// digest counts afresh from the time at which it appears.
pub proof fn law_new_digest_counts_afresh(
    service: ServiceState,
    digest: String,
    seen: Timestamp,
    delay: int,
    now: int,
)
    requires
        match service.image {
            Some(known) => known.digest@ != digest@,
            None => true,
        },
    ensures
        upgrade_due(with_image(service, digest, seen).image, digest@, delay, now) <==> now - seen@
            >= delay,
{
}

/// What is done to one service leaves the others as they were.
pub proof fn law_other_services_untouched(
    services: Map<Seq<char>, ServiceState>,
    name: Seq<char>,
    entry: ServiceState,
    now: Timestamp,
    other: Seq<char>,
)
    requires
        other != name,
    ensures
        image_of(services.insert(name, entry), other) == image_of(services, other),
        image_of(services_restarted(services, name, now), other) == image_of(services, other),
{
}

/// Once an upgrade to an image is due it stays due, as long as the image is on
/// record.
pub proof fn law_due_stays_due(
    image: Option<ImageState>,
    digest: Seq<char>,
    delay: int,
    now: int,
    later: int,
)
    requires
        upgrade_due(image, digest, delay, now),
        now <= later,
    ensures
        upgrade_due(image, digest, delay, later),
{
}

/// A service that is named for the first time gets an entry under its name,
/// without an image; one that is known keeps its entry.
pub proof fn law_first_entry_of_a_service(state: RawrrState, name: String)
    ensures
        state.services@.contains_key(name@) ==> state.service_or_new(name)
            == state.services@[name@],
        !state.services@.contains_key(name@) ==> state.service_or_new(name).name == name
            && state.service_or_new(name).image is None,
{
}

/// An offer puts the image on record and leaves the name of the service alone.
/// It is dealt with only if the same image was.
pub proof fn law_offer_is_recorded(service: ServiceState, digest: String, now: Timestamp)
    ensures
        with_image(service, digest, now).name == service.name,
        with_image(service, digest, now).image matches Some(image) && {
            &&& image.digest == digest
            &&& image.last_checked == now
            &&& image.dealt_with <==> (service.image matches Some(known) && known.digest@
                == digest@ && known.dealt_with)
        },
{
}

/// To mark a service starts its delay anew and notes that its image was dealt
/// with; the image itself, and when it was last checked, stay as they were. A
/// service without an image, or that is not known, is left alone.
pub proof fn law_mark_restarts_the_delay(
    services: Map<Seq<char>, ServiceState>,
    name: Seq<char>,
    now: Timestamp,
)
    ensures
        ({
            let after = services_restarted(services, name, now);
            &&& after.dom() == services.dom()
            &&& match image_of(services, name) {
                Some(known) => {
                    &&& image_of(after, name) matches Some(image)
                    &&& image.first_seen == now
                    &&& image.dealt_with
                    &&& image.digest == known.digest
                    &&& image.last_checked == known.last_checked
                },
                None => image_of(after, name) is None,
            }
            &&& services.contains_key(name) ==> after[name].name == services[name].name
        }),
{
    assert(services_restarted(services, name, now).dom() =~= services.dom());
}

/// When an upgrade is due: the digest is that of the image on record, which has
/// not been dealt with and has been known for the delay, to the nanosecond.
pub proof fn law_upgrade_is_due(known: ImageState, digest: Seq<char>, delay: int, now: int)
    ensures
        !upgrade_due(None, digest, delay, now),
        known.digest@ != digest ==> !upgrade_due(Some(known), digest, delay, now),
        known.dealt_with ==> !upgrade_due(Some(known), digest, delay, now),
        known.digest@ == digest && !known.dealt_with ==> {
            &&& upgrade_due(Some(known), digest, delay, known.first_seen@ + delay)
            &&& !upgrade_due(Some(known), digest, delay, known.first_seen@ + delay - 1)
            &&& upgrade_due(Some(known), digest, delay, now) <==> known.first_seen@ + delay <= now
        },
{
}

} // verus!

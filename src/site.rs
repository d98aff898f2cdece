use vstd::prelude::*;

use crate::model::{Event, Instant};
use crate::partition::{build_partitions, partition_of, partition_scopes, Partition};
use crate::ranking::{count_entries, is_ranking, rank_counts, CountEntry};
use crate::source::{joined_sources, merge_sources};
use crate::timeline::{localized_from, prepare_events, stampable, upcoming};

verus! {

/// Everything that one run renders: the partitions, then the index of
/// their ranked sizes.
#[derive(Clone, Debug)]
pub struct Site {
    pub partitions: Vec<Partition>,
    pub ranking: Vec<CountEntry>,
}

/// `s` holds, partition by partition, each label and its number of events.
pub open spec fn tallies(parts: Seq<Partition>, s: Seq<CountEntry>) -> bool {
    &&& s.len() == parts.len()
    &&& forall|i: int|
        0 <= i < s.len() ==> (#[trigger] s[i]).label@ == parts[i].label@ && s[i].count
            == parts[i].events.len()
}

/// `site` is what the events give: every partition in scope order, and the
/// ranking of their sizes.
pub open spec fn site_of(events: Seq<Event>, site: Site) -> bool {
    &&& site.partitions.len() == partition_scopes().len()
    &&& forall|i: int|
        0 <= i < site.partitions.len() ==> partition_of(
            events,
            partition_scopes()[i],
            #[trigger] site.partitions@[i],
        )
    &&& exists|s: Seq<CountEntry>| tallies(site.partitions@, s) && is_ranking(s, site.ranking@)
}

/// Partitions the events and ranks the partitions by size.
pub fn plan_site(events: &Vec<Event>) -> (r: Site)
    ensures
        site_of(events@, r),
{
    let partitions = build_partitions(events);
    let entries = count_entries(&partitions);
    let ghost s = entries@;
    let ranking = rank_counts(entries);
    assert(tallies(partitions@, s));
    Site { partitions, ranking }
}

/// `listed` is the upcoming part of `events`, each event localized, and
/// `site` is planned from it.
pub open spec fn listing(events: Seq<Event>, now: Instant, listed: Seq<Event>, site: Site) -> bool {
    &&& listed.len() == upcoming(events, now).len()
    &&& forall|i: int|
        0 <= i < listed.len() ==> localized_from(#[trigger] upcoming(events, now)[i], listed[i])
    &&& site_of(listed, site)
}

/// The run as a whole: the sources are joined in order, past events are
/// dropped against the single instant `now`, the rest are localized, and
/// the site is planned from them. None when an event cannot be localized.
pub fn publish_plan(sources: &Vec<Vec<Event>>, now: Instant) -> (r: Option<Site>)
    ensures
        r is Some <==> forall|i: int|
            0 <= i < upcoming(joined_sources(sources@), now).len()
                ==> stampable(
                #[trigger] upcoming(joined_sources(sources@), now)[i],
            ),
        r matches Some(site) ==> exists|listed: Seq<Event>| #[trigger] listing(
            joined_sources(sources@),
            now,
            listed,
            site,
        ),
{
    let merged = merge_sources(sources);
    match prepare_events(&merged, now) {
        Some(listed) => {
            let site = plan_site(&listed);
            assert(merged@ == joined_sources(sources@));
            assert(listed@.len() == upcoming(merged@, now).len());
            assert(forall|i: int|
                0 <= i < listed@.len() ==> localized_from(
                    #[trigger] upcoming(joined_sources(sources@), now)[i],
                    listed@[i],
                ));
            assert(site_of(listed@, site));
            let r = Some(site);
            assert(listing(joined_sources(sources@), now, listed@, r->0));
            r
        },
        None => None,
    }
}

} // verus!

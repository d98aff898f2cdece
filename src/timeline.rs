use vstd::prelude::*;

use crate::clock::{stamp_in_zone, zone_stamp, Zone};
use crate::model::{at_or_after, Event, Instant};

verus! {

/// The events that start at `now` or later, in the order they had.
pub open spec fn upcoming(events: Seq<Event>, now: Instant) -> Seq<Event> {
    events.filter(|e: Event| at_or_after(e.start, now))
}

/// Keeps the events that start at `now` or later, in order.
pub fn filter_upcoming(events: &Vec<Event>, now: Instant) -> (r: Vec<Event>)
    ensures
        r@ == upcoming(events@, now),
{
    let mut out: Vec<Event> = Vec::new();
    let mut i: usize = 0;
    while i < events.len()
        invariant
            0 <= i <= events.len(),
            out@ == upcoming(events@.take(i as int), now),
        decreases events.len() - i,
    {
        let ghost pre = events@.take(i + 1);
        assert(pre.drop_last() == events@.take(i as int));
        assert(pre.last() == events@[i as int]);
        reveal(Seq::filter);
        assert(upcoming(pre, now) == if at_or_after(pre.last().start, now) {
            upcoming(pre.drop_last(), now).push(pre.last())
        } else {
            upcoming(pre.drop_last(), now)
        });
        if events[i].start.is_at_or_after(&now) {
            out.push(events[i].duplicate());
        }
        i += 1;
    }
    assert(events@.take(i as int) == events@);
    out
}

/// Every event kept starts at `now` or later, and an event that starts
/// exactly at `now` is kept.
pub proof fn lemma_upcoming_bound(events: Seq<Event>, now: Instant)
    ensures
        forall|i: int|
            0 <= i < upcoming(events, now).len() ==> at_or_after(
                #[trigger] upcoming(events, now)[i].start,
                now,
            ),
        forall|i: int|
            0 <= i < events.len() && (#[trigger] events[i]).start == now ==> upcoming(
                events,
                now,
            ).contains(events[i]),
{
    let keep = |e: Event| at_or_after(e.start, now);
    assert forall|i: int| 0 <= i < upcoming(events, now).len() implies at_or_after(
        #[trigger] upcoming(events, now)[i].start,
        now,
    ) by {
        events.lemma_filter_pred(keep, i);
    }
    assert forall|i: int| 0 <= i < events.len() && (#[trigger] events[i]).start == now implies upcoming(
        events,
        now,
    ).contains(events[i]) by {
        events.lemma_filter_contains(keep, i);
    }
}

/// All four display stamps of the event's start can be computed.
pub open spec fn stampable(e: Event) -> bool {
    &&& zone_stamp(Zone::Utc, e.start.secs, e.start.nanos) is Some
    &&& zone_stamp(Zone::UsEastern, e.start.secs, e.start.nanos) is Some
    &&& zone_stamp(Zone::UsPacific, e.start.secs, e.start.nanos) is Some
    &&& zone_stamp(Zone::Auckland, e.start.secs, e.start.nanos) is Some
}

/// `l` is `e` with its four display stamps filled in for the event's start.
pub open spec fn localized_from(e: Event, l: Event) -> bool {
    &&& l.title == e.title
    &&& l.url == e.url
    &&& l.name == e.name
    &&& l.address == e.address
    &&& l.language == e.language
    &&& l.start == e.start
    &&& l.category == e.category
    &&& zone_stamp(Zone::Utc, e.start.secs, e.start.nanos) == Some(l.utc@)
    &&& zone_stamp(Zone::UsEastern, e.start.secs, e.start.nanos) == Some(l.est@)
    &&& zone_stamp(Zone::UsPacific, e.start.secs, e.start.nanos) == Some(l.pst@)
    &&& zone_stamp(Zone::Auckland, e.start.secs, e.start.nanos) == Some(l.nzl@)
}

/// The event with its start displayed in UTC, US Eastern, US Pacific and
/// Auckland time; none when its start lies outside the calendar.
pub fn localize(e: Event) -> (r: Option<Event>)
    ensures
        r is Some <==> stampable(e),
        r matches Some(l) ==> localized_from(e, l),
{
    let utc = match stamp_in_zone(e.start, Zone::Utc) {
        Some(s) => s,
        None => {
            return None;
        },
    };
    let est = match stamp_in_zone(e.start, Zone::UsEastern) {
        Some(s) => s,
        None => {
            return None;
        },
    };
    let pst = match stamp_in_zone(e.start, Zone::UsPacific) {
        Some(s) => s,
        None => {
            return None;
        },
    };
    let nzl = match stamp_in_zone(e.start, Zone::Auckland) {
        Some(s) => s,
        None => {
            return None;
        },
    };
    Some(Event { utc, est, pst, nzl, ..e })
}

/// The upcoming events, each localized; none when one of them cannot be.
pub fn prepare_events(events: &Vec<Event>, now: Instant) -> (r: Option<Vec<Event>>)
    ensures
        r is Some <==> forall|i: int|
            0 <= i < upcoming(events@, now).len() ==> stampable(
                #[trigger] upcoming(events@, now)[i],
            ),
        r matches Some(v) ==> {
            &&& v.len() == upcoming(events@, now).len()
            &&& forall|i: int|
                0 <= i < v.len() ==> localized_from(#[trigger] upcoming(events@, now)[i], v@[i])
            &&& forall|i: int| 0 <= i < v.len() ==> at_or_after(#[trigger] v@[i].start, now)
        },
{
    let kept = filter_upcoming(events, now);
    proof {
        lemma_upcoming_bound(events@, now);
    }
    let mut out: Vec<Event> = Vec::new();
    let mut i: usize = 0;
    while i < kept.len()
        invariant
            kept@ == upcoming(events@, now),
            0 <= i <= kept.len(),
            out.len() == i,
            forall|j: int| 0 <= j < i ==> stampable(#[trigger] kept@[j]),
            forall|j: int| 0 <= j < i ==> localized_from(#[trigger] kept@[j], out@[j]),
        decreases kept.len() - i,
    {
        match localize(kept[i].duplicate()) {
            Some(l) => {
                out.push(l);
            },
            None => {
                return None;
            },
        }
        i += 1;
    }
    assert forall|j: int| 0 <= j < out.len() implies at_or_after(#[trigger] out@[j].start, now) by {
        assert(localized_from(kept@[j], out@[j]));
        assert(at_or_after(upcoming(events@, now)[j].start, now));
    }
    Some(out)
}

} // verus!

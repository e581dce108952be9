//! Drive events: what changed on a volume.

use vstd::prelude::*;
use vstd::string::StringExecFns;

use crate::dtos::{VolumeEventDto, VolumeEventListResponse};
use crate::error::{invalid, ProtonError};
use crate::ids::{DriveEventId, NodeUid, VolumeId};
use crate::node_build::{optional_uid, optional_uid_in, uid_in};
use crate::text::{owned, push_signed, signed_decimal};

verus! {

/// The scope of an event stream: one volume.
#[derive(Debug, Clone, PartialEq, Eq)]
pub struct DriveEventScopeId {
    pub volume: VolumeId,
}

impl DriveEventScopeId {
    pub fn new(volume_id: VolumeId) -> (r: DriveEventScopeId)
        ensures
            r.volume == volume_id,
    {
        DriveEventScopeId { volume: volume_id }
    }

    pub fn volume_id(&self) -> (r: &VolumeId)
        ensures
            *r == self.volume,
    {
        &self.volume
    }
}

/// One change.
#[derive(Debug, Clone, PartialEq, Eq)]
pub enum DriveEvent {
    /// A node was created or changed.
    NodeUpdated {
        id: DriveEventId,
        node_uid: NodeUid,
        parent_node_uid: Option<NodeUid>,
        is_trashed: bool,
        is_shared: bool,
    },
    /// A node was deleted for good.
    NodeDeleted { id: DriveEventId, node_uid: NodeUid, parent_node_uid: Option<NodeUid> },
    /// Nothing changed, but the stream has moved on.
    CursorAdvanced { id: DriveEventId },
    /// The stream cannot tell what changed since the cursor.
    ContinuityLost { id: DriveEventId },
    /// The scope can no longer be read.
    ScopeAccessLost { id: DriveEventId },
    /// What others share with us changed.
    SharedWithMeUpdated { id: DriveEventId },
}

impl DriveEvent {
    /// The position of the event in its stream.
    pub open spec fn position(self) -> DriveEventId {
        match self {
            DriveEvent::NodeUpdated { id, .. } => id,
            DriveEvent::NodeDeleted { id, .. } => id,
            DriveEvent::CursorAdvanced { id } => id,
            DriveEvent::ContinuityLost { id } => id,
            DriveEvent::ScopeAccessLost { id } => id,
            DriveEvent::SharedWithMeUpdated { id } => id,
        }
    }

    pub fn id(&self) -> (r: &DriveEventId)
        ensures
            *r == self.position(),
            match *self {
                DriveEvent::NodeUpdated { id, .. } => *r == id,
                DriveEvent::NodeDeleted { id, .. } => *r == id,
                DriveEvent::CursorAdvanced { id } => *r == id,
                DriveEvent::ContinuityLost { id } => *r == id,
                DriveEvent::ScopeAccessLost { id } => *r == id,
                DriveEvent::SharedWithMeUpdated { id } => *r == id,
            },
    {
        match self {
            DriveEvent::NodeUpdated { id, .. } => id,
            DriveEvent::NodeDeleted { id, .. } => id,
            DriveEvent::CursorAdvanced { id } => id,
            DriveEvent::ContinuityLost { id } => id,
            DriveEvent::ScopeAccessLost { id } => id,
            DriveEvent::SharedWithMeUpdated { id } => id,
        }
    }
}

/// The event that a volume reports: a deletion, or else a creation or an update.
pub open spec fn event_of(volume_id: VolumeId, event: VolumeEventDto) -> DriveEvent {
    let node_uid = NodeUid { volume_id, link_id: event.link.id };
    let parent_node_uid = optional_uid(volume_id, event.link.parent_id);
    if event.event_type == 0 {
        DriveEvent::NodeDeleted { id: event.id, node_uid, parent_node_uid }
    } else {
        DriveEvent::NodeUpdated {
            id: event.id,
            node_uid,
            parent_node_uid,
            is_trashed: event.link.is_trashed,
            is_shared: event.link.is_shared,
        }
    }
}

/// Whether the kind of an event is known.
pub open spec fn is_known_event(event: VolumeEventDto) -> bool {
    0 <= event.event_type <= 3
}

/// What is said of an event whose kind is not known.
pub open spec fn unknown_event(event: VolumeEventDto) -> Seq<char> {
    "unknown volume event type "@ + signed_decimal(event.event_type as int)
}

/// The event that a volume reports. One of a kind that is not known is refused.
pub fn to_drive_event(volume_id: &VolumeId, event: &VolumeEventDto) -> (r: Result<
    DriveEvent,
    ProtonError,
>)
    ensures
        match r {
            Ok(e) => is_known_event(*event) && e == event_of(*volume_id, *event),
            Err(e) => !is_known_event(*event) && invalid(e, unknown_event(*event)),
        },
        r is Ok <==> 0 <= event.event_type <= 3,
        event.event_type == 0 ==> (r matches Ok(DriveEvent::NodeDeleted {
            id,
            node_uid,
            parent_node_uid,
        }) && id == event.id && node_uid.volume_id == *volume_id && node_uid.link_id == event.link.id
            && (parent_node_uid is Some <==> event.link.parent_id is Some) && (parent_node_uid is Some
            ==> parent_node_uid->0.volume_id == *volume_id && parent_node_uid->0.link_id
            == event.link.parent_id->0)),
        1 <= event.event_type <= 3 ==> (r matches Ok(DriveEvent::NodeUpdated {
            id,
            node_uid,
            parent_node_uid,
            is_trashed,
            is_shared,
        }) && id == event.id && node_uid.volume_id == *volume_id && node_uid.link_id == event.link.id
            && (parent_node_uid is Some <==> event.link.parent_id is Some) && (parent_node_uid is Some
            ==> parent_node_uid->0.volume_id == *volume_id && parent_node_uid->0.link_id
            == event.link.parent_id->0) && is_trashed == event.link.is_trashed && is_shared
            == event.link.is_shared),
        r is Err ==> invalid(
            r->Err_0,
            "unknown volume event type "@ + signed_decimal(event.event_type as int),
        ),
{
    let node_uid: NodeUid = uid_in(volume_id, &event.link.id);
    let parent_node_uid: Option<NodeUid> = optional_uid_in(volume_id, &event.link.parent_id);
    if 1 <= event.event_type && event.event_type <= 3 {
        Ok(
            DriveEvent::NodeUpdated {
                id: event.id.clone(),
                node_uid,
                parent_node_uid,
                is_trashed: event.link.is_trashed,
                is_shared: event.link.is_shared,
            },
        )
    } else if event.event_type == 0 {
        Ok(DriveEvent::NodeDeleted { id: event.id.clone(), node_uid, parent_node_uid })
    } else {
        let mut message: String = owned("unknown volume event type ");
        push_signed(&mut message, event.event_type as i64);
        Err(ProtonError::invalid_operation(message.as_str()))
    }
}

/// An event says of a node what its link says: which node it is and under which parent,
/// on the volume that reports it, and whether it is in the trash or shared. Only a
/// deletion has nothing to say of the last two.
pub proof fn law_events_say_what_the_link_says(volume_id: VolumeId, event: VolumeEventDto)
    requires
        is_known_event(event),
    ensures
        0 <= event.event_type <= 3,
        event_of(volume_id, event).position() == event.id,
        event_of(volume_id, event) is NodeDeleted <==> event.event_type == 0,
        match event_of(volume_id, event) {
            DriveEvent::NodeUpdated { id, node_uid, parent_node_uid, is_trashed, is_shared } => {
                &&& id == event.id
                &&& node_uid.volume_id == volume_id
                &&& node_uid.link_id == event.link.id
                &&& match parent_node_uid {
                    Some(parent) => parent.volume_id == volume_id && event.link.parent_id == Some(
                        parent.link_id,
                    ),
                    None => event.link.parent_id is None,
                }
                &&& is_trashed == event.link.is_trashed
                &&& is_shared == event.link.is_shared
            },
            DriveEvent::NodeDeleted { id, node_uid, parent_node_uid } => {
                &&& id == event.id
                &&& node_uid.volume_id == volume_id
                &&& node_uid.link_id == event.link.id
                &&& match parent_node_uid {
                    Some(parent) => parent.volume_id == volume_id && event.link.parent_id == Some(
                        parent.link_id,
                    ),
                    None => event.link.parent_id is None,
                }
            },
            _ => false,
        },
{
}

// ---------------------------------------------------------------------------
// Draining a stream
// ---------------------------------------------------------------------------

/// The route of the latest position of a volume's stream.
pub fn latest_event_path(volume_id: &VolumeId) -> (path: String)
    ensures
        path@ == "volumes/"@ + volume_id@ + "/events/latest"@,
{
    let mut path: String = owned("volumes/");
    path.append(volume_id.as_str());
    path.append("/events/latest");
    path
}

/// The events from a cursor on, drained page by page.
#[derive(Debug, PartialEq, Eq)]
pub struct EventDrain {
    pub volume_id: VolumeId,
    pub cursor: DriveEventId,
    pub events: Vec<DriveEvent>,
    pub done: bool,
}

/// The events of a page.
pub open spec fn page_events(volume_id: VolumeId, events: Seq<VolumeEventDto>) -> Seq<DriveEvent> {
    Seq::new(events.len(), |i: int| event_of(volume_id, events[i]))
}

/// Whether the stream goes on behind a page.
pub open spec fn stream_goes_on(page: VolumeEventListResponse) -> bool {
    !page.refresh_required && page.more_entries_exist
}

/// What is reported of a page that was read at a cursor: the loss of continuity where
/// it calls for a refresh, its events, or else the new position where there is one.
pub open spec fn reported_of(
    volume_id: VolumeId,
    cursor: DriveEventId,
    page: VolumeEventListResponse,
) -> Seq<DriveEvent> {
    if page.refresh_required {
        seq![(DriveEvent::ContinuityLost { id: page.last_event_id })]
    } else if page.events@.len() > 0 {
        page_events(volume_id, page.events@)
    } else if page.last_event_id@ != cursor@ {
        seq![(DriveEvent::CursorAdvanced { id: page.last_event_id })]
    } else {
        Seq::empty()
    }
}

/// The cursor at which page `i` of a stream is read: the position behind the page
/// before it.
pub open spec fn cursor_of_page(
    start: DriveEventId,
    pages: Seq<VolumeEventListResponse>,
    i: int,
) -> DriveEventId {
    if i == 0 {
        start
    } else {
        pages[i - 1].last_event_id
    }
}

/// What is reported of each page of a stream that is read from a cursor on.
pub open spec fn reports_of(
    volume_id: VolumeId,
    start: DriveEventId,
    pages: Seq<VolumeEventListResponse>,
) -> Seq<Seq<DriveEvent>> {
    Seq::new(
        pages.len(),
        |i: int| reported_of(volume_id, cursor_of_page(start, pages, i), pages[i]),
    )
}

/// What is reported when a stream is joined for the first time: only the position
/// to go on from.
pub fn seed_events(latest: DriveEventId) -> (events: Vec<DriveEvent>)
    ensures
        events@ == seq![(DriveEvent::CursorAdvanced { id: latest })],
{
    let mut events: Vec<DriveEvent> = Vec::new();
    events.push(DriveEvent::CursorAdvanced { id: latest });
    assert(events@ =~= seq![(DriveEvent::CursorAdvanced { id: latest })]);
    events
}

impl EventDrain {
    /// What the drain has taken in since `start`, page by page: it reports what each
    /// page says, in order, and is done with the first page behind which the stream
    /// does not go on.
    pub open spec fn has_taken(
        self,
        start: DriveEventId,
        pages: Seq<VolumeEventListResponse>,
    ) -> bool {
        &&& self.events@ == reports_of(self.volume_id, start, pages).flatten()
        &&& forall|i: int| 0 <= i < pages.len() - 1 ==> stream_goes_on(#[trigger] pages[i])
        &&& self.done == (pages.len() > 0 && !stream_goes_on(pages.last()))
        &&& !self.done ==> self.cursor == cursor_of_page(start, pages, pages.len() as int)
    }

    pub fn start(volume_id: &VolumeId, cursor: &DriveEventId) -> (drain: EventDrain)
        ensures
            drain.volume_id == *volume_id,
            drain.cursor == *cursor,
            drain.events@.len() == 0,
            !drain.done,
            drain.has_taken(*cursor, Seq::empty()),
    {
        let drain = EventDrain {
            volume_id: volume_id.clone(),
            cursor: cursor.clone(),
            events: Vec::new(),
            done: false,
        };
        assert(drain.events@ =~= reports_of(*volume_id, *cursor, Seq::empty()).flatten());
        drain
    }

    /// The route of the next page.
    pub fn path(&self) -> (path: String)
        ensures
            path@ == "v2/volumes/"@ + self.volume_id@ + "/events/"@ + self.cursor@,
    {
        let mut path: String = owned("v2/volumes/");
        path.append(self.volume_id.as_str());
        path.append("/events/");
        path.append(self.cursor.as_str());
        path
    }

    /// Takes in the next page. A page that calls for a refresh ends the stream with
    /// the loss of continuity. Any other page leads on if there is more: it adds its
    /// events, or, where it has none, the new position if there is one. An event of
    /// a kind that is not known is an error.
    pub fn absorb(&mut self, page: VolumeEventListResponse) -> (r: Result<(), ProtonError>)
        ensures
            final(self).volume_id == old(self).volume_id,
            if page.refresh_required {
                &&& r is Ok
                &&& final(self).done
                &&& final(self).cursor == old(self).cursor
                &&& final(self).events@ == old(self).events@.push(
                    DriveEvent::ContinuityLost { id: page.last_event_id },
                )
            } else if page.events@.len() == 0 {
                &&& r is Ok
                &&& final(self).done == !page.more_entries_exist
                &&& final(self).cursor == (if page.more_entries_exist {
                    page.last_event_id
                } else {
                    old(self).cursor
                })
                &&& final(self).events@ == (if page.last_event_id@ != old(self).cursor@ {
                    old(self).events@.push(DriveEvent::CursorAdvanced { id: page.last_event_id })
                } else {
                    old(self).events@
                })
            } else {
                match r {
                    Ok(()) => {
                        &&& forall|i: int|
                            0 <= i < page.events@.len() ==> is_known_event(#[trigger] page.events@[i])
                        &&& final(self).events@ == old(self).events@ + page_events(
                            old(self).volume_id,
                            page.events@,
                        )
                        &&& final(self).done == !page.more_entries_exist
                        &&& final(self).cursor == (if page.more_entries_exist {
                            page.last_event_id
                        } else {
                            old(self).cursor
                        })
                    },
                    Err(e) => exists|i: int|
                        #![trigger page.events@[i]]
                        0 <= i < page.events@.len() && !is_known_event(page.events@[i]) && invalid(
                            e,
                            unknown_event(page.events@[i]),
                        ) && forall|j: int|
                            0 <= j < i ==> is_known_event(#[trigger] page.events@[j]),
                }
            },
            forall|start: DriveEventId, pages: Seq<VolumeEventListResponse>|
                #![trigger old(self).has_taken(start, pages)]
                old(self).has_taken(start, pages) && !old(self).done && r is Ok
                    ==> final(self).has_taken(start, pages.push(page)),
            !page.refresh_required && r is Ok ==> forall|i: int|
                0 <= i < page.events@.len() ==> 0 <= (#[trigger] page.events@[i]).event_type <= 3,
            !page.refresh_required && page.events@.len() > 0 && r is Ok ==> {
                &&& final(self).events@.len() == old(self).events@.len() + page.events@.len()
                &&& forall|i: int|
                    0 <= i < old(self).events@.len() ==> #[trigger] final(self).events@[i] == old(
                        self,
                    ).events@[i]
                &&& forall|i: int|
                    0 <= i < page.events@.len() ==> (#[trigger] final(self).events@[old(self).events@.len()
                        + i]).position() == page.events@[i].id
            },
    {
        let ghost before = *self;
        let ghost whole = page;
        if page.refresh_required {
            self.events.push(DriveEvent::ContinuityLost { id: page.last_event_id });
            self.done = true;
            proof {
                assert(self.events@ =~= before.events@ + reported_of(
                    before.volume_id,
                    before.cursor,
                    whole,
                ));
                lemma_page_taken(before, *self, whole);
            }
            return Ok(());
        }
        if page.events.is_empty() {
            if !page.last_event_id.same_as(&self.cursor) {
                self.events.push(DriveEvent::CursorAdvanced { id: page.last_event_id.clone() });
            }
            if page.more_entries_exist {
                self.done = false;
                self.cursor = page.last_event_id;
            } else {
                self.done = true;
            }
            proof {
                assert(self.events@ =~= before.events@ + reported_of(
                    before.volume_id,
                    before.cursor,
                    whole,
                ));
                lemma_page_taken(before, *self, whole);
            }
            return Ok(());
        }
        let ghost start = self.events@;
        let mut i: usize = 0;
        assert(self.events@ =~= start + page_events(self.volume_id, page.events@).take(0));
        while i < page.events.len()
            invariant
                i <= page.events@.len(),
                self.volume_id == old(self).volume_id,
                self.cursor == old(self).cursor,
                !page.refresh_required,
                page.events@.len() > 0,
                self.events@ == start + page_events(self.volume_id, page.events@).take(i as int),
                forall|j: int| 0 <= j < i ==> is_known_event(#[trigger] page.events@[j]),
            decreases page.events@.len() - i,
        {
            match to_drive_event(&self.volume_id, &page.events[i]) {
                Ok(event) => self.events.push(event),
                Err(e) => {
                    assert(!is_known_event(page.events@[i as int]) && invalid(
                        e,
                        unknown_event(page.events@[i as int]),
                    ));
                    return Err(e);
                },
            }
            i += 1;
            assert(self.events@ =~= start + page_events(self.volume_id, page.events@).take(
                i as int,
            ));
        }
        assert(page_events(self.volume_id, page.events@).take(i as int) =~= page_events(
            self.volume_id,
            page.events@,
        ));
        if page.more_entries_exist {
            self.done = false;
            self.cursor = page.last_event_id;
        } else {
            self.done = true;
        }
        proof {
            lemma_page_taken(before, *self, whole);
        }
        Ok(())
    }
}

proof fn lemma_page_taken(before: EventDrain, after: EventDrain, page: VolumeEventListResponse)
    requires
        after.volume_id == before.volume_id,
        after.events@ == before.events@ + reported_of(before.volume_id, before.cursor, page),
        after.done == !stream_goes_on(page),
        !after.done ==> after.cursor == page.last_event_id,
    ensures
        forall|start: DriveEventId, pages: Seq<VolumeEventListResponse>|
            #![trigger before.has_taken(start, pages)]
            before.has_taken(start, pages) && !before.done ==> after.has_taken(
                start,
                pages.push(page),
            ),
{
    assert forall|start: DriveEventId, pages: Seq<VolumeEventListResponse>|
        #![trigger before.has_taken(start, pages)]
        before.has_taken(start, pages) && !before.done implies after.has_taken(
        start,
        pages.push(page),
    ) by {
        let more = pages.push(page);
        let reports = reports_of(before.volume_id, start, pages);
        let report = reported_of(before.volume_id, before.cursor, page);
        assert(reports_of(before.volume_id, start, more) =~= reports.push(report));
        reports.lemma_flatten_push(report);
        assert forall|i: int| 0 <= i < more.len() - 1 implies stream_goes_on(
            #[trigger] more[i],
        ) by {
            assert(more[i] == pages[i]);
            assert(i < pages.len() - 1 || pages[i] == pages.last());
        }
        assert(more.last() == page);
    }
}

proof fn lemma_part_of_flat<T>(parts: Seq<Seq<T>>, k: int, i: int)
    requires
        0 <= k < parts.len(),
        0 <= i < parts[k].len(),
    ensures
        parts.flatten().contains(parts[k][i]),
    decreases parts.len(),
{
    let rest = parts.drop_first();
    let flat = parts.flatten();
    if k == 0 {
        assert(flat[i] == parts[0][i]);
    } else {
        lemma_part_of_flat(rest, k - 1, i);
        let j = rest.flatten().index_of(parts[k][i]);
        assert(flat[parts[0].len() + j] == parts[k][i]);
    }
}

/// A stream is drained to its end: each event on each of its pages is reported, also
/// behind a page without events.
pub proof fn law_every_event_is_reported(
    drain: EventDrain,
    start: DriveEventId,
    pages: Seq<VolumeEventListResponse>,
    k: int,
    i: int,
)
    requires
        drain.has_taken(start, pages),
        0 <= k < pages.len(),
        !pages[k].refresh_required,
        0 <= i < pages[k].events@.len(),
    ensures
        drain.events@.contains(event_of(drain.volume_id, pages[k].events@[i])),
        exists|j: int|
            0 <= j < drain.events@.len() && (#[trigger] drain.events@[j]).position()
                == pages[k].events@[i].id,
{
    let reports = reports_of(drain.volume_id, start, pages);
    assert(reports[k] == page_events(drain.volume_id, pages[k].events@));
    lemma_part_of_flat(reports, k, i);
    let j = drain.events@.index_of(event_of(drain.volume_id, pages[k].events@[i]));
    assert(drain.events@[j].position() == pages[k].events@[i].id);
}

/// A loss of continuity is reported once at most, and then as the last event: when,
/// and only when, the last page that was read calls for a refresh.
pub proof fn law_continuity_is_lost_last(
    drain: EventDrain,
    start: DriveEventId,
    pages: Seq<VolumeEventListResponse>,
    i: int,
)
    requires
        drain.has_taken(start, pages),
        0 <= i < drain.events@.len(),
    ensures
        drain.events@[i] is ContinuityLost <==> i == drain.events@.len() - 1
            && pages.last().refresh_required,
{
    let reports = reports_of(drain.volume_id, start, pages);
    let n = pages.len() as int;
    if n == 0 {
        assert(reports.flatten().len() == 0);
    } else {
        let before = reports.drop_last();
        let last = reports.last();
        assert(before.push(last) =~= reports);
        before.lemma_flatten_push(last);
        assert(last == reported_of(
            drain.volume_id,
            cursor_of_page(start, pages, n - 1),
            pages.last(),
        ));
        if i < before.flatten().len() {
            assert forall|k: int, j: int|
                0 <= k < before.len() && 0 <= j < before[k].len() implies !(
            #[trigger] before[k][j] is ContinuityLost) by {
                assert(before[k] == reports[k]);
                assert(stream_goes_on(pages[k]));
            }
            lemma_flat_elements(before, i);
            assert(drain.events@[i] == before.flatten()[i]);
        } else {
            assert(drain.events@[i] == last[i - before.flatten().len()]);
        }
    }
}

proof fn lemma_flat_elements<T>(parts: Seq<Seq<T>>, i: int)
    requires
        0 <= i < parts.flatten().len(),
    ensures
        exists|k: int, j: int|
            0 <= k < parts.len() && 0 <= j < parts[k].len() && parts.flatten()[i]
                == #[trigger] parts[k][j],
    decreases parts.len(),
{
    let rest = parts.drop_first();
    if i < parts[0].len() {
        assert(parts.flatten()[i] == parts[0][i]);
    } else {
        let at = i - parts[0].len();
        lemma_flat_elements(rest, at);
        let (k, j) = choose|k: int, j: int|
            0 <= k < rest.len() && 0 <= j < rest[k].len() && rest.flatten()[at]
                == #[trigger] rest[k][j];
        assert(rest[k] == parts[k + 1]);
        assert(parts.flatten()[i] == parts[k + 1][j]);
    }
}

} // verus!

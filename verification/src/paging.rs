//! Listings that come in pages.

use vstd::prelude::*;
use vstd::string::StringExecFns;

use crate::dtos::{
    AlbumItemListResponse, AlbumListResponse, FolderChildrenResponse, InvitationsListResponse,
    SharedAlbumsResponse,
    SharedByMeResponse, SharedWithMeLinkDto, SharedWithMeResponse, ShareTargetType,
    TimelinePhotoListResponse, VolumeTrashResponse, is_drive_target, is_photos_target,
};
use crate::ids::{LinkId, NodeUid, VolumeId};
use crate::node_build::{uid_in, uids_in, uids_of};
use crate::photos::{AlbumItem, PhotosTimelineItem};
use crate::sharing::SharedWithMeItem;
use crate::text::{decimal, owned, push_decimal};

verus! {

/// Links in one page of the trash.
pub const TRASH_PAGE_SIZE: usize = 500;

/// Photos in one page of the timeline.
pub const TIMELINE_PAGE_SIZE: usize = 500;

// ---------------------------------------------------------------------------
// Pages behind an anchor
// ---------------------------------------------------------------------------

/// One page: its items, the anchor of the next page, and whether there is more.
pub struct Page<T> {
    pub items: Seq<T>,
    pub anchor: Option<Seq<char>>,
    pub more: bool,
}

/// Whether a page leads to another one: there is more, and it gives an anchor that
/// is not empty.
pub open spec fn leads_on<T>(page: Page<T>) -> bool {
    page.more && page.anchor is Some && page.anchor->0.len() > 0
}

/// The items of pages, up to and with the first page that does not lead on.
pub open spec fn listed<T>(pages: Seq<Page<T>>) -> Seq<T>
    decreases pages.len(),
{
    if pages.len() == 0 {
        Seq::empty()
    } else if leads_on(pages[0]) {
        pages[0].items + listed(pages.drop_first())
    } else {
        pages[0].items
    }
}

/// The text of an optional string.
pub open spec fn optional_text(s: Option<String>) -> Option<Seq<char>> {
    match s {
        Some(s) => Some(s@),
        None => None,
    }
}

/// A listing under way: the items so far, the anchor of the next page, and whether
/// all pages are there.
#[derive(Debug, PartialEq, Eq)]
pub struct AnchoredListing<T> {
    pub items: Vec<T>,
    pub anchor: Option<String>,
    pub done: bool,
}

/// The route of the next page: the base, and the anchor behind `mark` where there
/// is one.
pub open spec fn anchored_route(
    base: Seq<char>,
    mark: Seq<char>,
    anchor: Option<Seq<char>>,
) -> Seq<char> {
    match anchor {
        Some(anchor) => base + mark + anchor,
        None => base,
    }
}

/// The route of the next page.
pub fn anchored_path(base: &str, mark: &str, anchor: &Option<String>) -> (path: String)
    ensures
        path@ == anchored_route(base@, mark@, optional_text(*anchor)),
        anchor is None ==> path@ == base@,
        anchor is Some ==> path@ == base@ + mark@ + anchor->0@,
{
    let mut path: String = owned(base);
    match anchor {
        Some(anchor) => {
            path.append(mark);
            path.append(anchor.as_str());
        },
        None => {},
    }
    path
}

impl<T> AnchoredListing<T> {
    /// What the listing has taken in, page by page.
    pub open spec fn has_taken(self, pages: Seq<Page<T>>) -> bool {
        &&& self.items@ == listed(pages)
        &&& self.done == exists|i: int| 0 <= i < pages.len() && !leads_on(#[trigger] pages[i])
    }

    pub fn new() -> (listing: AnchoredListing<T>)
        ensures
            listing.items@.len() == 0,
            listing.anchor is None,
            !listing.done,
            listing.has_taken(Seq::empty()),
    {
        let listing = AnchoredListing { items: Vec::new(), anchor: None, done: false };
        assert(listing.items@ =~= listed(Seq::<Page<T>>::empty()));
        listing
    }

    /// Takes in the next page. An empty anchor counts as none.
    pub fn absorb(&mut self, page_items: Vec<T>, anchor: Option<String>, more: bool)
        requires
            !old(self).done,
        ensures
            final(self).items@ == old(self).items@ + page_items@,
            final(self).done == !(more && anchor is Some && anchor->0@.len() > 0),
            final(self).anchor == (if anchor is Some && anchor->0@.len() > 0 {
                anchor
            } else {
                None
            }),
            forall|pages: Seq<Page<T>>| #[trigger]
                old(self).has_taken(pages) ==> final(self).has_taken(
                    pages.push(
                        Page { items: page_items@, anchor: optional_text(anchor), more },
                    ),
                ),
    {
        let ghost before = *self;
        let ghost page = Page { items: page_items@, anchor: optional_text(anchor), more };
        let mut page_items = page_items;
        self.items.append(&mut page_items);
        let anchor: Option<String> = match anchor {
            Some(anchor) => if anchor.as_str().is_empty() {
                None
            } else {
                Some(anchor)
            },
            None => None,
        };
        self.done = !more || anchor.is_none();
        self.anchor = anchor;
        proof {
            assert forall|pages: Seq<Page<T>>| #[trigger] before.has_taken(
                pages,
            ) implies self.has_taken(pages.push(page)) by {
                lemma_listed_push(pages, page);
                let more_pages = pages.push(page);
                assert forall|i: int| 0 <= i < pages.len() implies leads_on(
                    #[trigger] more_pages[i],
                ) by {
                    assert(more_pages[i] == pages[i]);
                }
                assert(more_pages[pages.len() as int] == page);
            }
        }
    }
}

proof fn lemma_listed_push<T>(pages: Seq<Page<T>>, page: Page<T>)
    requires
        forall|i: int| 0 <= i < pages.len() ==> leads_on(#[trigger] pages[i]),
    ensures
        listed(pages.push(page)) == listed(pages) + page.items,
    decreases pages.len(),
{
    let more = pages.push(page);
    if pages.len() == 0 {
        assert(more.drop_first() =~= Seq::<Page<T>>::empty());
        assert(listed(more.drop_first()) =~= Seq::<T>::empty());
        assert(listed(more) =~= listed(pages) + page.items);
    } else {
        let rest = pages.drop_first();
        assert(more[0] == pages[0]);
        assert(more.drop_first() =~= rest.push(page));
        assert forall|i: int| 0 <= i < rest.len() implies leads_on(#[trigger] rest[i]) by {
            assert(rest[i] == pages[i + 1]);
        }
        lemma_listed_push(rest, page);
        assert(listed(more) =~= listed(pages) + page.items);
    }
}

// ---------------------------------------------------------------------------
// The children of a folder
// ---------------------------------------------------------------------------

/// The listing of the children of a folder under way.
#[derive(Debug, PartialEq, Eq)]
pub struct ChildrenListing {
    pub folder: NodeUid,
    pub uids: Vec<NodeUid>,
    pub anchor: Option<LinkId>,
    pub done: bool,
}

/// The route of a page of the children of a folder.
pub open spec fn children_route(
    folder: (Seq<char>, Seq<char>),
    anchor: Option<Seq<char>>,
) -> Seq<char> {
    anchored_route(
        "v2/volumes/"@ + folder.0 + "/folders/"@ + folder.1 + "/children"@,
        "?AnchorID="@,
        anchor,
    )
}

/// Whether a page of children leads to another one: it is not empty, there is
/// more, and it gives an anchor.
pub open spec fn children_lead_on(page: FolderChildrenResponse) -> bool {
    page.link_ids@.len() > 0 && page.more_results_exist && page.anchor_id is Some
}

/// The children on pages, up to and with the first page that does not lead on.
pub open spec fn children_on(folder: NodeUid, pages: Seq<FolderChildrenResponse>) -> Seq<NodeUid>
    decreases pages.len(),
{
    if pages.len() == 0 {
        Seq::empty()
    } else if children_lead_on(pages[0]) {
        uids_of(folder.volume_id, pages[0].link_ids@) + children_on(folder, pages.drop_first())
    } else {
        uids_of(folder.volume_id, pages[0].link_ids@)
    }
}

impl ChildrenListing {
    /// What the listing has taken in, page by page.
    pub open spec fn has_taken(self, pages: Seq<FolderChildrenResponse>) -> bool {
        &&& self.uids@ == children_on(self.folder, pages)
        &&& self.done == exists|i: int|
            0 <= i < pages.len() && !children_lead_on(#[trigger] pages[i])
    }

    pub fn new(folder: &NodeUid) -> (listing: ChildrenListing)
        ensures
            listing.folder == *folder,
            listing.anchor is None,
            !listing.done,
            listing.has_taken(Seq::empty()),
    {
        let listing = ChildrenListing {
            folder: folder.clone(),
            uids: Vec::new(),
            anchor: None,
            done: false,
        };
        assert(listing.uids@ =~= children_on(*folder, Seq::empty()));
        listing
    }

    /// The route of the next page.
    pub fn path(&self) -> (path: String)
        ensures
            path@ == children_route(
                self.folder@,
                match self.anchor {
                    Some(anchor) => Some(anchor@),
                    None => None,
                },
            ),
            self.anchor is None ==> path@ == "v2/volumes/"@ + self.folder.volume_id@ + "/folders/"@
                + self.folder.link_id@ + "/children"@,
            self.anchor is Some ==> path@ == "v2/volumes/"@ + self.folder.volume_id@ + "/folders/"@
                + self.folder.link_id@ + "/children"@ + "?AnchorID="@ + self.anchor->0@,
    {
        let mut path: String = owned("v2/volumes/");
        path.append(self.folder.volume_id.as_str());
        path.append("/folders/");
        path.append(self.folder.link_id.as_str());
        path.append("/children");
        match &self.anchor {
            Some(anchor) => {
                path.append("?AnchorID=");
                path.append(anchor.as_str());
            },
            None => {},
        }
        path
    }

    /// Takes in the next page.
    pub fn absorb(&mut self, page: FolderChildrenResponse)
        requires
            !old(self).done,
        ensures
            final(self).folder == old(self).folder,
            final(self).uids@ == old(self).uids@ + uids_of(
                old(self).folder.volume_id,
                page.link_ids@,
            ),
            final(self).done == !children_lead_on(page),
            !final(self).done ==> final(self).anchor == page.anchor_id,
            forall|pages: Seq<FolderChildrenResponse>| #[trigger]
                old(self).has_taken(pages) ==> final(self).has_taken(pages.push(page)),
            final(self).done <==> page.link_ids@.len() == 0 || !page.more_results_exist
                || page.anchor_id is None,
            final(self).uids@.len() == old(self).uids@.len() + page.link_ids@.len(),
            forall|i: int|
                0 <= i < page.link_ids@.len() ==> (#[trigger] final(self).uids@[old(self).uids@.len()
                    + i]).volume_id == old(self).folder.volume_id && final(self).uids@[old(
                    self,
                ).uids@.len() + i].link_id == page.link_ids@[i],
    {
        let ghost before = *self;
        let mut more: Vec<NodeUid> = uids_in(&self.folder.volume_id, &page.link_ids);
        if page.link_ids.is_empty() || !page.more_results_exist {
            self.done = true;
        } else {
            match &page.anchor_id {
                Some(anchor) => {
                    self.anchor = Some(anchor.clone());
                },
                None => {
                    self.anchor = None;
                    self.done = true;
                },
            }
        }
        self.uids.append(&mut more);
        proof {
            assert forall|pages: Seq<FolderChildrenResponse>| #[trigger] before.has_taken(
                pages,
            ) implies self.has_taken(pages.push(page)) by {
                let more_pages = pages.push(page);
                lemma_children_push(self.folder, pages, page);
                assert forall|i: int| 0 <= i < pages.len() implies children_lead_on(
                    #[trigger] more_pages[i],
                ) by {
                    assert(more_pages[i] == pages[i]);
                }
                assert(more_pages[pages.len() as int] == page);
            }
        }
    }
}

proof fn lemma_children_push(
    folder: NodeUid,
    pages: Seq<FolderChildrenResponse>,
    page: FolderChildrenResponse,
)
    requires
        forall|i: int| 0 <= i < pages.len() ==> children_lead_on(#[trigger] pages[i]),
    ensures
        children_on(folder, pages.push(page)) == children_on(folder, pages) + uids_of(
            folder.volume_id,
            page.link_ids@,
        ),
    decreases pages.len(),
{
    let more = pages.push(page);
    let added = uids_of(folder.volume_id, page.link_ids@);
    if pages.len() == 0 {
        assert(more.drop_first() =~= Seq::<FolderChildrenResponse>::empty());
        assert(children_on(folder, more.drop_first()) =~= Seq::<NodeUid>::empty());
        assert(children_on(folder, more) =~= children_on(folder, pages) + added);
    } else {
        let rest = pages.drop_first();
        assert(more[0] == pages[0]);
        assert(more.drop_first() =~= rest.push(page));
        assert forall|i: int| 0 <= i < rest.len() implies children_lead_on(#[trigger] rest[i]) by {
            assert(rest[i] == pages[i + 1]);
        }
        lemma_children_push(folder, rest, page);
        assert(children_on(folder, more) =~= children_on(folder, pages) + added);
    }
}

// ---------------------------------------------------------------------------
// The trash
// ---------------------------------------------------------------------------

/// The links on a page of the trash, share by share.
pub open spec fn trash_links(page: VolumeTrashResponse, n: int) -> Seq<LinkId>
    decreases n,
{
    if n <= 0 {
        Seq::empty()
    } else {
        trash_links(page, n - 1) + page.trash_by_share@[n - 1].link_ids@
    }
}

/// The nodes on a page of the trash of a volume.
pub open spec fn trash_uids(volume_id: VolumeId, page: VolumeTrashResponse) -> Seq<NodeUid> {
    uids_of(volume_id, trash_links(page, page.trash_by_share@.len() as int))
}

/// Whether a page of the trash leads to another one: it is full.
pub open spec fn trash_leads_on(page: VolumeTrashResponse) -> bool {
    trash_links(page, page.trash_by_share@.len() as int).len() >= TRASH_PAGE_SIZE
}

/// The nodes on each page of the trash of a volume.
pub open spec fn trash_on(volume_id: VolumeId, pages: Seq<VolumeTrashResponse>) -> Seq<
    Seq<NodeUid>,
> {
    Seq::new(pages.len(), |i: int| trash_uids(volume_id, pages[i]))
}

/// The listing of the trash of a volume under way. A page that is not full is the
/// last one.
#[derive(Debug, PartialEq, Eq)]
pub struct TrashListing {
    pub volume_id: VolumeId,
    pub uids: Vec<NodeUid>,
    pub page: u64,
    pub done: bool,
}

/// The route of a page of the trash.
pub open spec fn trash_route(volume: Seq<char>, page: nat) -> Seq<char> {
    "volumes/"@ + volume + "/trash?pageSize=500&page="@ + decimal(page)
}

impl TrashListing {
    /// What the listing has taken in, page by page: the nodes of all pages in order,
    /// up to and with the first page that does not lead on.
    pub open spec fn has_taken(self, pages: Seq<VolumeTrashResponse>) -> bool {
        &&& self.uids@ == trash_on(self.volume_id, pages).flatten()
        &&& forall|i: int| 0 <= i < pages.len() - 1 ==> trash_leads_on(#[trigger] pages[i])
        &&& self.done == (pages.len() > 0 && !trash_leads_on(pages.last()))
        &&& !self.done ==> self.page == pages.len()
    }

    pub fn new(volume_id: &VolumeId) -> (listing: TrashListing)
        ensures
            listing.volume_id == *volume_id,
            listing.uids@.len() == 0,
            listing.page == 0,
            !listing.done,
            listing.has_taken(Seq::empty()),
    {
        let listing = TrashListing {
            volume_id: volume_id.clone(),
            uids: Vec::new(),
            page: 0,
            done: false,
        };
        assert(listing.uids@ =~= trash_on(*volume_id, Seq::empty()).flatten());
        listing
    }

    /// The route of the next page.
    pub fn path(&self) -> (path: String)
        ensures
            path@ == trash_route(self.volume_id@, self.page as nat),
            path@ == "volumes/"@ + self.volume_id@ + "/trash?pageSize=500&page="@ + decimal(
                self.page as nat,
            ),
    {
        let mut path: String = owned("volumes/");
        path.append(self.volume_id.as_str());
        path.append("/trash?pageSize=500&page=");
        push_decimal(&mut path, self.page);
        path
    }

    /// Takes in the next page.
    pub fn absorb(&mut self, page: VolumeTrashResponse)
        requires
            old(self).page < u64::MAX,
        ensures
            ({
                let links = trash_links(page, page.trash_by_share@.len() as int);
                &&& final(self).volume_id == old(self).volume_id
                &&& final(self).uids@ == old(self).uids@ + uids_of(old(self).volume_id, links)
                &&& final(self).done == (links.len() < TRASH_PAGE_SIZE)
                &&& final(self).page == (if links.len() < TRASH_PAGE_SIZE {
                    old(self).page as int
                } else {
                    old(self).page + 1
                })
            }),
            forall|pages: Seq<VolumeTrashResponse>|
                #![trigger old(self).has_taken(pages)]
                old(self).has_taken(pages) && !old(self).done ==> final(self).has_taken(
                    pages.push(page),
                ),
    {
        let ghost before = *self;
        let mut found: Vec<NodeUid> = Vec::new();
        let mut g: usize = 0;
        assert(found@ =~= uids_of(self.volume_id, trash_links(page, 0)));
        while g < page.trash_by_share.len()
            invariant
                g <= page.trash_by_share@.len(),
                found@ == uids_of(self.volume_id, trash_links(page, g as int)),
            decreases page.trash_by_share@.len() - g,
        {
            let mut more: Vec<NodeUid> = uids_in(
                &self.volume_id,
                &page.trash_by_share[g].link_ids,
            );
            found.append(&mut more);
            g += 1;
            assert(found@ =~= uids_of(self.volume_id, trash_links(page, g as int)));
        }
        let count: usize = found.len();
        self.uids.append(&mut found);
        if count < TRASH_PAGE_SIZE {
            self.done = true;
        } else {
            self.done = false;
            self.page = self.page + 1;
        }
        proof {
            assert forall|pages: Seq<VolumeTrashResponse>|
                #![trigger before.has_taken(pages)]
                before.has_taken(pages) && !before.done implies self.has_taken(
                pages.push(page),
            ) by {
                let more_pages = pages.push(page);
                let found_before = trash_on(self.volume_id, pages);
                let added = trash_uids(self.volume_id, page);
                assert(trash_on(self.volume_id, more_pages) =~= found_before.push(added));
                found_before.lemma_flatten_push(added);
                assert forall|i: int| 0 <= i < more_pages.len() - 1 implies trash_leads_on(
                    #[trigger] more_pages[i],
                ) by {
                    assert(more_pages[i] == pages[i]);
                    assert(i < pages.len() - 1 || pages[i] == pages.last());
                }
                assert(more_pages.last() == page);
            }
        }
    }
}

// ---------------------------------------------------------------------------
// The photos timeline
// ---------------------------------------------------------------------------

/// The photos of a timeline page.
pub open spec fn timeline_items(
    volume_id: VolumeId,
    page: TimelinePhotoListResponse,
) -> Seq<PhotosTimelineItem> {
    Seq::new(
        page.photos@.len(),
        |i: int|
            PhotosTimelineItem {
                uid: NodeUid { volume_id, link_id: page.photos@[i].id },
                capture_time: page.photos@[i].capture_time,
            },
    )
}

/// Whether a page of the timeline leads to another one: it is full.
pub open spec fn timeline_leads_on(page: TimelinePhotoListResponse) -> bool {
    page.photos@.len() == TIMELINE_PAGE_SIZE
}

/// The photos on each page of the timeline.
pub open spec fn timeline_on(volume_id: VolumeId, pages: Seq<TimelinePhotoListResponse>) -> Seq<
    Seq<PhotosTimelineItem>,
> {
    Seq::new(pages.len(), |i: int| timeline_items(volume_id, pages[i]))
}

/// The listing of the timeline under way. A full page leads on behind its last
/// photo.
#[derive(Debug, PartialEq, Eq)]
pub struct TimelineListing {
    pub volume_id: VolumeId,
    pub items: Vec<PhotosTimelineItem>,
    pub anchor: Option<LinkId>,
    pub done: bool,
}

impl TimelineListing {
    /// What the listing has taken in, page by page: the photos of all pages in order,
    /// up to and with the first page that does not lead on. The next page is asked
    /// for behind the last photo.
    pub open spec fn has_taken(self, pages: Seq<TimelinePhotoListResponse>) -> bool {
        &&& self.items@ == timeline_on(self.volume_id, pages).flatten()
        &&& forall|i: int| 0 <= i < pages.len() - 1 ==> timeline_leads_on(#[trigger] pages[i])
        &&& self.done == (pages.len() > 0 && !timeline_leads_on(pages.last()))
        &&& !self.done ==> self.anchor == (if pages.len() == 0 {
            None
        } else {
            Some(pages.last().photos@.last().id)
        })
    }

    pub fn new(volume_id: &VolumeId) -> (listing: TimelineListing)
        ensures
            listing.volume_id == *volume_id,
            listing.items@.len() == 0,
            listing.anchor is None,
            !listing.done,
            listing.has_taken(Seq::empty()),
    {
        let listing = TimelineListing {
            volume_id: volume_id.clone(),
            items: Vec::new(),
            anchor: None,
            done: false,
        };
        assert(listing.items@ =~= timeline_on(*volume_id, Seq::empty()).flatten());
        listing
    }

    /// The route of the next page.
    pub fn path(&self) -> (path: String)
        ensures
            path@ == anchored_route(
                "volumes/"@ + self.volume_id@ + "/photos"@,
                "?PreviousPageLastLinkID="@,
                match self.anchor {
                    Some(anchor) => Some(anchor@),
                    None => None,
                },
            ),
            self.anchor is None ==> path@ == "volumes/"@ + self.volume_id@ + "/photos"@,
            self.anchor is Some ==> path@ == "volumes/"@ + self.volume_id@ + "/photos"@
                + "?PreviousPageLastLinkID="@ + self.anchor->0@,
    {
        let mut path: String = owned("volumes/");
        path.append(self.volume_id.as_str());
        path.append("/photos");
        match &self.anchor {
            Some(anchor) => {
                path.append("?PreviousPageLastLinkID=");
                path.append(anchor.as_str());
            },
            None => {},
        }
        path
    }

    /// Takes in the next page.
    pub fn absorb(&mut self, page: TimelinePhotoListResponse)
        ensures
            final(self).volume_id == old(self).volume_id,
            final(self).items@ == old(self).items@ + timeline_items(old(self).volume_id, page),
            final(self).done == (page.photos@.len() != TIMELINE_PAGE_SIZE),
            final(self).anchor == (if page.photos@.len() == TIMELINE_PAGE_SIZE {
                Some(page.photos@.last().id)
            } else {
                old(self).anchor
            }),
            forall|pages: Seq<TimelinePhotoListResponse>|
                #![trigger old(self).has_taken(pages)]
                old(self).has_taken(pages) && !old(self).done ==> final(self).has_taken(
                    pages.push(page),
                ),
            final(self).items@.len() == old(self).items@.len() + page.photos@.len(),
            forall|i: int|
                0 <= i < page.photos@.len() ==> {
                    let item = #[trigger] final(self).items@[old(self).items@.len() + i];
                    &&& item.uid.volume_id == old(self).volume_id
                    &&& item.uid.link_id == page.photos@[i].id
                    &&& item.capture_time == page.photos@[i].capture_time
                },
            final(self).done <==> page.photos@.len() != 500,
    {
        let ghost before = *self;
        let ghost start = self.items@;
        let mut i: usize = 0;
        assert(self.items@ =~= start + timeline_items(self.volume_id, page).take(0));
        while i < page.photos.len()
            invariant
                i <= page.photos@.len(),
                self.volume_id == old(self).volume_id,
                self.anchor == old(self).anchor,
                self.items@ == start + timeline_items(self.volume_id, page).take(i as int),
            decreases page.photos@.len() - i,
        {
            self.items.push(
                PhotosTimelineItem {
                    uid: uid_in(&self.volume_id, &page.photos[i].id),
                    capture_time: page.photos[i].capture_time,
                },
            );
            i += 1;
            assert(self.items@ =~= start + timeline_items(self.volume_id, page).take(i as int));
        }
        assert(timeline_items(self.volume_id, page).take(i as int) =~= timeline_items(
            self.volume_id,
            page,
        ));
        if page.photos.len() == TIMELINE_PAGE_SIZE {
            self.done = false;
            self.anchor = Some(page.photos[page.photos.len() - 1].id.clone());
        } else {
            self.done = true;
        }
        proof {
            assert forall|pages: Seq<TimelinePhotoListResponse>|
                #![trigger before.has_taken(pages)]
                before.has_taken(pages) && !before.done implies self.has_taken(
                pages.push(page),
            ) by {
                let more_pages = pages.push(page);
                let found_before = timeline_on(self.volume_id, pages);
                let added = timeline_items(self.volume_id, page);
                assert(timeline_on(self.volume_id, more_pages) =~= found_before.push(added));
                found_before.lemma_flatten_push(added);
                assert forall|i: int| 0 <= i < more_pages.len() - 1 implies timeline_leads_on(
                    #[trigger] more_pages[i],
                ) by {
                    assert(more_pages[i] == pages[i]);
                    assert(i < pages.len() - 1 || pages[i] == pages.last());
                }
                assert(more_pages.last() == page);
            }
        }
    }
}

// ---------------------------------------------------------------------------
// What is shared
// ---------------------------------------------------------------------------

/// The items of a page that belong to Drive, in order.
pub open spec fn drive_items_of(links: Seq<SharedWithMeLinkDto>) -> Seq<SharedWithMeItem>
    decreases links.len(),
{
    if links.len() == 0 {
        Seq::empty()
    } else {
        let before = drive_items_of(links.drop_last());
        let link = links.last();
        if is_drive_target(link.share_target_type as int) {
            before.push(
                SharedWithMeItem {
                    uid: NodeUid { volume_id: link.volume_id, link_id: link.link_id },
                    share_id: link.share_id,
                },
            )
        } else {
            before
        }
    }
}

/// The items shared with us that belong to Drive, in the order of the page: albums,
/// photos, roots and kinds that are not known are left out.
pub fn drive_items(page: &SharedWithMeResponse) -> (r: Vec<SharedWithMeItem>)
    ensures
        r@ == drive_items_of(page.links@),
{
    let mut out: Vec<SharedWithMeItem> = Vec::new();
    let mut i: usize = 0;
    assert(page.links@.take(0) =~= Seq::<SharedWithMeLinkDto>::empty());
    while i < page.links.len()
        invariant
            i <= page.links@.len(),
            out@ == drive_items_of(page.links@.take(i as int)),
        decreases page.links@.len() - i,
    {
        let link: &SharedWithMeLinkDto = &page.links[i];
        proof {
            assert(page.links@.take(i + 1).drop_last() =~= page.links@.take(i as int));
        }
        let keep: bool = match ShareTargetType::from_raw(link.share_target_type) {
            Some(kind) => kind.is_drive_item(),
            None => false,
        };
        if keep {
            out.push(
                SharedWithMeItem {
                    uid: uid_in(&link.volume_id, &link.link_id),
                    share_id: link.share_id.clone(),
                },
            );
        }
        i += 1;
    }
    assert(page.links@.take(i as int) =~= page.links@);
    out
}

/// The nodes of a page that belong to Photos, in order.
pub open spec fn photos_items_of(links: Seq<SharedWithMeLinkDto>) -> Seq<NodeUid>
    decreases links.len(),
{
    if links.len() == 0 {
        Seq::empty()
    } else {
        let before = photos_items_of(links.drop_last());
        let link = links.last();
        if is_photos_target(link.share_target_type as int) {
            before.push(NodeUid { volume_id: link.volume_id, link_id: link.link_id })
        } else {
            before
        }
    }
}

/// The photos and albums shared with us, in the order of the page.
pub fn photos_items(page: &SharedWithMeResponse) -> (r: Vec<NodeUid>)
    ensures
        r@ == photos_items_of(page.links@),
{
    let mut out: Vec<NodeUid> = Vec::new();
    let mut i: usize = 0;
    assert(page.links@.take(0) =~= Seq::<SharedWithMeLinkDto>::empty());
    while i < page.links.len()
        invariant
            i <= page.links@.len(),
            out@ == photos_items_of(page.links@.take(i as int)),
        decreases page.links@.len() - i,
    {
        let link: &SharedWithMeLinkDto = &page.links[i];
        proof {
            assert(page.links@.take(i + 1).drop_last() =~= page.links@.take(i as int));
        }
        let keep: bool = match ShareTargetType::from_raw(link.share_target_type) {
            Some(kind) => kind.is_photos_item(),
            None => false,
        };
        if keep {
            out.push(uid_in(&link.volume_id, &link.link_id));
        }
        i += 1;
    }
    assert(page.links@.take(i as int) =~= page.links@);
    out
}

/// The nodes of a page of what we share.
pub fn shared_by_me_uids(volume_id: &VolumeId, page: &SharedByMeResponse) -> (r: Vec<NodeUid>)
    ensures
        r@ == Seq::new(
            page.links@.len(),
            |i: int| NodeUid { volume_id: *volume_id, link_id: page.links@[i].link_id },
        ),
{
    let mut out: Vec<NodeUid> = Vec::new();
    let mut i: usize = 0;
    while i < page.links.len()
        invariant
            i <= page.links@.len(),
            out@.len() == i,
            forall|j: int|
                0 <= j < i ==> #[trigger] out@[j] == (NodeUid {
                    volume_id: *volume_id,
                    link_id: page.links@[j].link_id,
                }),
        decreases page.links@.len() - i,
    {
        out.push(uid_in(volume_id, &page.links[i].link_id));
        i += 1;
    }
    out
}

/// The albums of a page.
pub fn album_uids(volume_id: &VolumeId, page: &AlbumListResponse) -> (r: Vec<NodeUid>)
    ensures
        r@ == Seq::new(
            page.albums@.len(),
            |i: int| NodeUid { volume_id: *volume_id, link_id: page.albums@[i].id },
        ),
{
    let mut out: Vec<NodeUid> = Vec::new();
    let mut i: usize = 0;
    while i < page.albums.len()
        invariant
            i <= page.albums@.len(),
            out@.len() == i,
            forall|j: int|
                0 <= j < i ==> #[trigger] out@[j] == (NodeUid {
                    volume_id: *volume_id,
                    link_id: page.albums@[j].id,
                }),
        decreases page.albums@.len() - i,
    {
        out.push(uid_in(volume_id, &page.albums[i].id));
        i += 1;
    }
    out
}

/// The photos of a page of an album, which are on the volume of the album.
pub fn album_items(album: &NodeUid, page: &AlbumItemListResponse) -> (r: Vec<AlbumItem>)
    ensures
        r@ == Seq::new(
            page.photos@.len(),
            |i: int|
                AlbumItem {
                    uid: NodeUid { volume_id: album.volume_id, link_id: page.photos@[i].id },
                    capture_time: page.photos@[i].capture_time,
                },
        ),
{
    let mut out: Vec<AlbumItem> = Vec::new();
    let mut i: usize = 0;
    while i < page.photos.len()
        invariant
            i <= page.photos@.len(),
            out@.len() == i,
            forall|j: int|
                0 <= j < i ==> #[trigger] out@[j] == (AlbumItem {
                    uid: NodeUid { volume_id: album.volume_id, link_id: page.photos@[j].id },
                    capture_time: page.photos@[j].capture_time,
                }),
        decreases page.photos@.len() - i,
    {
        out.push(
            AlbumItem {
                uid: uid_in(&album.volume_id, &page.photos[i].id),
                capture_time: page.photos[i].capture_time,
            },
        );
        i += 1;
    }
    out
}

/// The albums of a page that others share with us, each on its own volume.
pub fn shared_album_uids(page: &SharedAlbumsResponse) -> (r: Vec<NodeUid>)
    ensures
        r@ == Seq::new(
            page.albums@.len(),
            |i: int|
                NodeUid {
                    volume_id: page.albums@[i].volume_id,
                    link_id: page.albums@[i].link_id,
                },
        ),
{
    let mut out: Vec<NodeUid> = Vec::new();
    let mut i: usize = 0;
    while i < page.albums.len()
        invariant
            i <= page.albums@.len(),
            out@.len() == i,
            forall|j: int|
                0 <= j < i ==> #[trigger] out@[j] == (NodeUid {
                    volume_id: page.albums@[j].volume_id,
                    link_id: page.albums@[j].link_id,
                }),
        decreases page.albums@.len() - i,
    {
        out.push(uid_in(&page.albums[i].volume_id, &page.albums[i].link_id));
        i += 1;
    }
    out
}

/// The route of what others share with us.
pub fn shared_with_me_path(anchor: &Option<String>) -> (path: String)
    ensures
        path@ == anchored_route("v2/sharedwithme"@, "?AnchorID="@, optional_text(*anchor)),
        anchor is None ==> path@ == "v2/sharedwithme"@,
        anchor is Some ==> path@ == "v2/sharedwithme"@ + "?AnchorID="@
            + anchor->0@,
{
    anchored_path("v2/sharedwithme", "?AnchorID=", anchor)
}

/// The route of what we share on a volume.
pub fn shared_by_me_path(volume_id: &VolumeId, anchor: &Option<String>) -> (path: String)
    ensures
        path@ == anchored_route(
            "v2/volumes/"@ + volume_id@ + "/shares"@,
            "?AnchorID="@,
            optional_text(*anchor),
        ),
        anchor is None ==> path@ == "v2/volumes/"@ + volume_id@ + "/shares"@,
        anchor is Some ==> path@ == "v2/volumes/"@ + volume_id@ + "/shares"@ + "?AnchorID="@
            + anchor->0@,
{
    let mut base: String = owned("v2/volumes/");
    base.append(volume_id.as_str());
    base.append("/shares");
    anchored_path(base.as_str(), "?AnchorID=", anchor)
}

/// The route of the albums on a volume.
pub fn albums_path(volume_id: &VolumeId, anchor: &Option<String>) -> (path: String)
    ensures
        path@ == anchored_route(
            "photos/volumes/"@ + volume_id@ + "/albums"@,
            "?AnchorID="@,
            optional_text(*anchor),
        ),
        anchor is None ==> path@ == "photos/volumes/"@ + volume_id@ + "/albums"@,
        anchor is Some ==> path@ == "photos/volumes/"@ + volume_id@ + "/albums"@ + "?AnchorID="@
            + anchor->0@,
{
    let mut base: String = owned("photos/volumes/");
    base.append(volume_id.as_str());
    base.append("/albums");
    anchored_path(base.as_str(), "?AnchorID=", anchor)
}

/// The route of the photos of an album, the latest first.
pub fn album_children_path(album: &NodeUid, anchor: &Option<String>) -> (path: String)
    ensures
        path@ == anchored_route(
            "photos/volumes/"@ + album@.0 + "/albums/"@ + album@.1
                + "/children?Sort=Captured&Desc=1"@,
            "&AnchorID="@,
            optional_text(*anchor),
        ),
        anchor is None ==> path@ == "photos/volumes/"@ + album.volume_id@ + "/albums/"@ + album.link_id@
            + "/children?Sort=Captured&Desc=1"@,
        anchor is Some ==> path@ == "photos/volumes/"@ + album.volume_id@ + "/albums/"@ + album.link_id@
            + "/children?Sort=Captured&Desc=1"@ + "&AnchorID="@
            + anchor->0@,
{
    let mut base: String = owned("photos/volumes/");
    base.append(album.volume_id.as_str());
    base.append("/albums/");
    base.append(album.link_id.as_str());
    base.append("/children?Sort=Captured&Desc=1");
    anchored_path(base.as_str(), "&AnchorID=", anchor)
}

/// The route of the albums that others share with us.
pub fn shared_albums_path(anchor: &Option<String>) -> (path: String)
    ensures
        path@ == anchored_route(
            "photos/albums/shared-with-me"@,
            "?AnchorID="@,
            optional_text(*anchor),
        ),
        anchor is None ==> path@ == "photos/albums/shared-with-me"@,
        anchor is Some ==> path@ == "photos/albums/shared-with-me"@ + "?AnchorID="@
            + anchor->0@,
{
    anchored_path("photos/albums/shared-with-me", "?AnchorID=", anchor)
}

/// The ids of the invitations on a page.
pub fn invitation_ids(page: &InvitationsListResponse) -> (r: Vec<String>)
    ensures
        r@ == Seq::new(page.invitations@.len(), |i: int| page.invitations@[i].invitation_id),
{
    let mut out: Vec<String> = Vec::new();
    let mut i: usize = 0;
    while i < page.invitations.len()
        invariant
            i <= page.invitations@.len(),
            out@.len() == i,
            forall|j: int|
                0 <= j < i ==> #[trigger] out@[j] == page.invitations@[j].invitation_id,
        decreases page.invitations@.len() - i,
    {
        out.push(page.invitations[i].invitation_id.clone());
        i += 1;
    }
    out
}

/// The route of the invitations that we got.
pub fn invitations_path(anchor: &Option<String>) -> (path: String)
    ensures
        path@ == anchored_route("v2/shares/invitations"@, "?AnchorID="@, optional_text(*anchor)),
        anchor is None ==> path@ == "v2/shares/invitations"@,
        anchor is Some ==> path@ == "v2/shares/invitations"@ + "?AnchorID="@
            + anchor->0@,
{
    anchored_path("v2/shares/invitations", "?AnchorID=", anchor)
}

/// The route that empties the trash of a volume.
pub fn trash_path(volume_id: &VolumeId) -> (path: String)
    ensures
        path@ == "volumes/"@ + volume_id@ + "/trash"@,
{
    let mut path: String = owned("volumes/");
    path.append(volume_id.as_str());
    path.append("/trash");
    path
}

/// A listing has the items of all its pages, in order, as long as each page but the last
/// leads on: says that there is more, and names where.
pub proof fn law_a_listing_joins_its_pages<T>(pages: Seq<Page<T>>)
    requires
        forall|i: int|
            0 <= i < pages.len() - 1 ==> (#[trigger] pages[i]).more && pages[i].anchor is Some
                && pages[i].anchor->0.len() > 0,
    ensures
        listed(pages) == Seq::new(pages.len(), |i: int| pages[i].items).flatten(),
    decreases pages.len(),
{
    let parts = Seq::new(pages.len(), |i: int| pages[i].items);
    if pages.len() > 0 {
        let rest = pages.drop_first();
        assert forall|i: int| 0 <= i < rest.len() - 1 implies (#[trigger] rest[i]).more
            && rest[i].anchor is Some && rest[i].anchor->0.len() > 0 by {
            assert(rest[i] == pages[i + 1]);
        }
        law_a_listing_joins_its_pages(rest);
        assert(parts.drop_first() =~= Seq::new(rest.len(), |i: int| rest[i].items));
        if pages.len() > 1 {
            assert(pages[0].more);
        } else {
            assert(rest =~= Seq::<Page<T>>::empty());
            assert(parts.flatten() =~= pages[0].items);
            assert(listed(pages) =~= pages[0].items);
        }
    }
}

/// A page leads on just when it says that there is more and names where: by an anchor
/// that is not empty, or for children, by any anchor of a page that is not empty.
pub proof fn law_when_a_page_leads_on<T>(
    page: Page<T>,
    children: FolderChildrenResponse,
    trash: VolumeTrashResponse,
    timeline: TimelinePhotoListResponse,
)
    ensures
        leads_on(page) <==> page.more && page.anchor is Some && page.anchor->0.len() > 0,
        children_lead_on(children) <==> children.link_ids@.len() > 0
            && children.more_results_exist && children.anchor_id is Some,
        timeline_leads_on(timeline) <==> timeline.photos@.len() == 500,
        trash_leads_on(trash) <==> trash_links(trash, trash.trash_by_share@.len() as int).len()
            >= 500,
{
}

/// The children of a folder are those on all its pages, in order, each on the volume of
/// the folder.
pub proof fn law_children_are_those_on_the_pages(
    folder: NodeUid,
    pages: Seq<FolderChildrenResponse>,
)
    requires
        forall|i: int|
            0 <= i < pages.len() - 1 ==> (#[trigger] pages[i]).link_ids@.len() > 0
                && pages[i].more_results_exist && pages[i].anchor_id is Some,
    ensures
        children_on(folder, pages) == Seq::new(
            pages.len(),
            |i: int|
                pages[i].link_ids@.map_values(
                    |link_id: LinkId| NodeUid { volume_id: folder.volume_id, link_id },
                ),
        ).flatten(),
    decreases pages.len(),
{
    let parts = Seq::new(
        pages.len(),
        |i: int|
            pages[i].link_ids@.map_values(
                |link_id: LinkId| NodeUid { volume_id: folder.volume_id, link_id },
            ),
    );
    if pages.len() > 0 {
        let rest = pages.drop_first();
        assert forall|i: int| 0 <= i < rest.len() - 1 implies (#[trigger] rest[i]).link_ids@.len()
            > 0 && rest[i].more_results_exist && rest[i].anchor_id is Some by {
            assert(rest[i] == pages[i + 1]);
        }
        law_children_are_those_on_the_pages(folder, rest);
        let tail = Seq::new(
            rest.len(),
            |i: int|
                rest[i].link_ids@.map_values(
                    |link_id: LinkId| NodeUid { volume_id: folder.volume_id, link_id },
                ),
        );
        assert(parts.drop_first() =~= tail);
        assert(uids_of(folder.volume_id, pages[0].link_ids@) =~= parts[0]);
        if pages.len() > 1 {
            assert(pages[0].more_results_exist);
        } else {
            assert(rest =~= Seq::<FolderChildrenResponse>::empty());
            assert(parts.flatten() =~= parts[0]);
            assert(children_on(folder, pages) =~= parts[0]);
        }
    } else {
        assert(children_on(folder, pages) =~= parts.flatten());
    }
}

/// The links on a page of the trash are those of all its shares, in order.
pub proof fn law_trash_is_that_of_every_share(page: VolumeTrashResponse, n: nat)
    requires
        n <= page.trash_by_share@.len(),
    ensures
        trash_links(page, n as int) == Seq::new(
            n,
            |i: int| page.trash_by_share@[i].link_ids@,
        ).flatten(),
    decreases n,
{
    let parts = Seq::new(n, |i: int| page.trash_by_share@[i].link_ids@);
    if n > 0 {
        let p = (n - 1) as nat;
        law_trash_is_that_of_every_share(page, p);
        let fewer = Seq::new(p, |i: int| page.trash_by_share@[i].link_ids@);
        assert(parts =~= fewer.push(page.trash_by_share@[n - 1].link_ids@));
        fewer.lemma_flatten_push(page.trash_by_share@[n - 1].link_ids@);
    } else {
        assert(trash_links(page, 0) =~= parts.flatten());
    }
}

/// The photos of a timeline page, and the nodes of trashed links, are on the volume that
/// is listed.
pub proof fn law_items_are_on_the_listed_volume(
    volume_id: VolumeId,
    timeline: TimelinePhotoListResponse,
    links: Seq<LinkId>,
    i: int,
)
    ensures
        timeline_items(volume_id, timeline).len() == timeline.photos@.len(),
        0 <= i < timeline.photos@.len() ==> {
            let item = timeline_items(volume_id, timeline)[i];
            &&& item.uid.volume_id == volume_id
            &&& item.uid.link_id == timeline.photos@[i].id
            &&& item.capture_time == timeline.photos@[i].capture_time
        },
        uids_of(volume_id, links).len() == links.len(),
        0 <= i < links.len() ==> uids_of(volume_id, links)[i].volume_id == volume_id && uids_of(
            volume_id,
            links,
        )[i].link_id == links[i],
{
}

/// Of what is shared with us, folders, files and vendor items belong to Drive, and photos
/// and albums to Photos: each in the order of the page, and nothing else.
pub proof fn law_shared_items_go_to_their_owner(links: Seq<SharedWithMeLinkDto>)
    ensures
        drive_items_of(links) == links.filter(
            |link: SharedWithMeLinkDto|
                link.share_target_type == 1 || link.share_target_type == 2
                    || link.share_target_type == 5,
        ).map_values(
            |link: SharedWithMeLinkDto|
                SharedWithMeItem {
                    uid: NodeUid { volume_id: link.volume_id, link_id: link.link_id },
                    share_id: link.share_id,
                },
        ),
        photos_items_of(links) == links.filter(
            |link: SharedWithMeLinkDto|
                link.share_target_type == 3 || link.share_target_type == 4,
        ).map_values(
            |link: SharedWithMeLinkDto|
                NodeUid { volume_id: link.volume_id, link_id: link.link_id },
        ),
    decreases links.len(),
{
    reveal(Seq::filter);
    let drive = |link: SharedWithMeLinkDto|
        link.share_target_type == 1 || link.share_target_type == 2 || link.share_target_type == 5;
    let photos = |link: SharedWithMeLinkDto|
        link.share_target_type == 3 || link.share_target_type == 4;
    let item = |link: SharedWithMeLinkDto|
        SharedWithMeItem {
            uid: NodeUid { volume_id: link.volume_id, link_id: link.link_id },
            share_id: link.share_id,
        };
    let node = |link: SharedWithMeLinkDto|
        NodeUid { volume_id: link.volume_id, link_id: link.link_id };
    if links.len() > 0 {
        let fewer = links.drop_last();
        law_shared_items_go_to_their_owner(fewer);
        assert(links.filter(drive).map_values(item) =~= if drive(links.last()) {
            fewer.filter(drive).map_values(item).push(item(links.last()))
        } else {
            fewer.filter(drive).map_values(item)
        });
        assert(links.filter(photos).map_values(node) =~= if photos(links.last()) {
            fewer.filter(photos).map_values(node).push(node(links.last()))
        } else {
            fewer.filter(photos).map_values(node)
        });
    } else {
        assert(links.filter(drive).map_values(item) =~= Seq::<SharedWithMeItem>::empty());
        assert(links.filter(photos).map_values(node) =~= Seq::<NodeUid>::empty());
    }
}

} // verus!

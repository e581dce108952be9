//! What a client keeps in memory: the shares and roots it has resolved, unlocked
//! folder keys, and through which share a node is reached.

use vstd::prelude::*;
use vstd::string::StringExecFns;

use crate::cache::{has_key, kept_under, touched, with_entry, without, Entry, NodeCache};
use crate::devices::DeviceMetadata;
use crate::dtos::{LinkType, MyFilesShareResponse};
use crate::error::{invalid, is_not_found, ProtonError, ResponseCode};
use crate::events::DriveEvent;
use crate::ids::{LinkId, NodeUid, ShareId, VolumeId};
use crate::sharing::SharedWithMeItem;
use crate::text::owned;

verus! {

/// How many unlocked folder keys are kept.
pub const FOLDER_KEY_CACHE_CAP: usize = 512;

/// For how many nodes it is kept through which share they are reached.
pub const CONTEXT_SHARE_CACHE_CAP: usize = 512;

/// A share, the address that owns it, and its unlocked key.
#[derive(Debug, PartialEq, Eq)]
pub struct ShareKey {
    pub share_id: ShareId,
    pub address_id: String,
    pub key: String,
}

impl Clone for ShareKey {
    fn clone(&self) -> (r: ShareKey)
        ensures
            r == *self,
    {
        ShareKey {
            share_id: self.share_id.clone(),
            address_id: self.address_id.clone(),
            key: self.key.clone(),
        }
    }
}

/// What is to be done to the stored nodes.
#[derive(Debug, PartialEq, Eq)]
pub enum EntityEffect {
    /// Nothing.
    Keep,
    /// Forget one node.
    Remove(NodeUid),
    /// Forget every node.
    Clear,
}

/// What a client keeps in memory.
pub struct DriveCache {
    pub main_volume_id: Option<VolumeId>,
    pub my_files_share: Option<ShareKey>,
    pub my_files_root: Option<NodeUid>,
    pub photos_share: Option<ShareKey>,
    pub photos_root: Option<NodeUid>,
    /// Whether there is a photos volume; `None` until that was asked.
    pub photos_volume_exists: Option<bool>,
    /// The unlocked keys of folders.
    pub folder_keys: NodeCache,
    /// What others share with us; `None` until it was listed.
    pub shared_with_me_shares: Option<Vec<SharedWithMeItem>>,
    /// Through which share a node is reached.
    pub context_share_ids: NodeCache,
}

/// The share of the last item that is the node.
pub open spec fn share_of(items: Seq<SharedWithMeItem>, uid: (Seq<char>, Seq<char>)) -> Option<
    ShareId,
>
    decreases items.len(),
{
    if items.len() == 0 {
        None
    } else if items.last().uid@ == uid {
        Some(items.last().share_id)
    } else {
        share_of(items.drop_last(), uid)
    }
}

/// The share through which a node was shared with us, if it was. Of several, the
/// one listed last.
pub fn shared_through(items: &Vec<SharedWithMeItem>, uid: &NodeUid) -> (r: Option<ShareId>)
    ensures
        r == share_of(items@, uid@),
{
    let mut i: usize = items.len();
    assert(items@.take(i as int) =~= items@);
    while i > 0
        invariant
            i <= items@.len(),
            share_of(items@, uid@) == share_of(items@.take(i as int), uid@),
        decreases i,
    {
        proof {
            assert(items@.take(i as int).drop_last() =~= items@.take(i - 1));
        }
        i -= 1;
        if items[i].uid.same_as(uid) {
            return Some(items[i].share_id.clone());
        }
    }
    None
}

/// A node is reached through the share of the item that lists it. Of several items, the
/// last one counts.
pub proof fn law_shares_are_found_by_their_node(
    items: Seq<SharedWithMeItem>,
    uid: (Seq<char>, Seq<char>),
    i: int,
)
    ensures
        (forall|j: int| 0 <= j < items.len() ==> (#[trigger] items[j]).uid@ != uid) ==> share_of(
            items,
            uid,
        ) is None,
        0 <= i < items.len() && items[i].uid@ == uid && (forall|j: int|
            i < j < items.len() ==> (#[trigger] items[j]).uid@ != uid) ==> share_of(items, uid)
            == Some(items[i].share_id),
    decreases items.len(),
{
    if items.len() > 0 {
        let fewer = items.drop_last();
        law_shares_are_found_by_their_node(fewer, uid, i);
        assert(forall|j: int| 0 <= j < fewer.len() ==> fewer[j] == #[trigger] items[j]);
        assert forall|j: int|
            (forall|k: int| 0 <= k < items.len() ==> (#[trigger] items[k]).uid@ != uid) && 0 <= j
                < fewer.len() implies (#[trigger] fewer[j]).uid@ != uid by {
            assert(fewer[j] == items[j]);
        }
        if 0 <= i < fewer.len() {
            assert(fewer[i] == items[i]);
        }
        assert(items[items.len() - 1] == items.last());
    }
}

impl DriveCache {
    pub open spec fn well_formed(self) -> bool {
        &&& self.folder_keys.well_formed()
        &&& self.context_share_ids.well_formed()
    }

    /// Whether everything but the folder keys and the context shares is the same.
    pub open spec fn same_shares(self, other: DriveCache) -> bool {
        &&& self.main_volume_id == other.main_volume_id
        &&& self.my_files_share == other.my_files_share
        &&& self.my_files_root == other.my_files_root
        &&& self.photos_share == other.photos_share
        &&& self.photos_root == other.photos_root
        &&& self.photos_volume_exists == other.photos_volume_exists
        &&& self.shared_with_me_shares == other.shared_with_me_shares
        &&& self.folder_keys.bound() == other.folder_keys.bound()
        &&& self.context_share_ids.bound() == other.context_share_ids.bound()
    }
}

impl Default for DriveCache {
    fn default() -> (cache: DriveCache)
        ensures
            cache.well_formed(),
            cache.main_volume_id is None,
            cache.my_files_share is None,
            cache.my_files_root is None,
            cache.photos_share is None,
            cache.photos_root is None,
            cache.photos_volume_exists is None,
            cache.shared_with_me_shares is None,
            cache.folder_keys.entries() == Seq::<Entry>::empty(),
            cache.folder_keys.bound() == FOLDER_KEY_CACHE_CAP,
            cache.context_share_ids.entries() == Seq::<Entry>::empty(),
            cache.context_share_ids.bound() == CONTEXT_SHARE_CACHE_CAP,
    {
        DriveCache {
            main_volume_id: None,
            my_files_share: None,
            my_files_root: None,
            photos_share: None,
            photos_root: None,
            photos_volume_exists: None,
            folder_keys: NodeCache::new(FOLDER_KEY_CACHE_CAP),
            shared_with_me_shares: None,
            context_share_ids: NodeCache::new(CONTEXT_SHARE_CACHE_CAP),
        }
    }
}

/// The route that tells through which share a node is reached.
pub fn context_share_path(uid: &NodeUid) -> (path: String)
    ensures
        path@ == "volumes/"@ + uid@.0 + "/links/"@ + uid@.1 + "/context"@,
{
    let mut path: String = owned("volumes/");
    path.append(uid.volume_id.as_str());
    path.append("/links/");
    path.append(uid.link_id.as_str());
    path.append("/context");
    path
}

/// The folder keys that an event leaves.
pub open spec fn keys_after(keys: Seq<Entry>, event: DriveEvent) -> Seq<Entry> {
    match event {
        DriveEvent::NodeUpdated { node_uid, .. } => without(keys, node_uid@),
        DriveEvent::NodeDeleted { node_uid, .. } => without(keys, node_uid@),
        DriveEvent::ContinuityLost { .. } => Seq::empty(),
        DriveEvent::ScopeAccessLost { .. } => Seq::empty(),
        DriveEvent::SharedWithMeUpdated { .. } => keys,
        DriveEvent::CursorAdvanced { .. } => keys,
    }
}

/// The context shares that an event leaves.
pub open spec fn contexts_after(contexts: Seq<Entry>, event: DriveEvent) -> Seq<Entry> {
    if event is CursorAdvanced {
        contexts
    } else {
        Seq::empty()
    }
}

/// What an event does to the stored nodes.
pub open spec fn entity_effect_of(event: DriveEvent) -> EntityEffect {
    match event {
        DriveEvent::NodeUpdated { node_uid, .. } => EntityEffect::Remove(node_uid),
        DriveEvent::NodeDeleted { node_uid, .. } => EntityEffect::Remove(node_uid),
        DriveEvent::ContinuityLost { .. } => EntityEffect::Clear,
        DriveEvent::ScopeAccessLost { .. } => EntityEffect::Clear,
        DriveEvent::SharedWithMeUpdated { .. } => EntityEffect::Keep,
        DriveEvent::CursorAdvanced { .. } => EntityEffect::Keep,
    }
}

impl DriveCache {
    /// Through which share a node is reached, where that is kept. A hit makes the
    /// entry the one used last.
    pub fn context_share(&mut self, uid: &NodeUid) -> (r: Option<ShareId>)
        requires
            old(self).well_formed(),
        ensures
            final(self).well_formed(),
            final(self).same_shares(*old(self)),
            final(self).folder_keys == old(self).folder_keys,
            final(self).context_share_ids.entries() == touched(
                old(self).context_share_ids.entries(),
                uid@,
            ),
            match r {
                Some(share) => kept_under(old(self).context_share_ids.entries(), uid@) == Some(
                    share@,
                ),
                None => !has_key(old(self).context_share_ids.entries(), uid@),
            },
    {
        match self.context_share_ids.get(uid) {
            Some(value) => Some(ShareId { value }),
            None => None,
        }
    }

    /// Keeps through which share a node is reached.
    pub fn learn_context_share(&mut self, uid: &NodeUid, share_id: &ShareId)
        requires
            old(self).well_formed(),
        ensures
            final(self).well_formed(),
            final(self).same_shares(*old(self)),
            final(self).folder_keys == old(self).folder_keys,
            final(self).context_share_ids.entries() == with_entry(
                old(self).context_share_ids.entries(),
                old(self).context_share_ids.bound(),
                uid@,
                share_id@,
            ),
    {
        self.context_share_ids.put(uid, owned(share_id.as_str()));
    }

    /// Forgets through which share any node is reached. Done before and after every
    /// request that may change it, since a request can take effect although it
    /// failed.
    pub fn forget_context_shares(&mut self)
        requires
            old(self).well_formed(),
        ensures
            final(self).well_formed(),
            final(self).same_shares(*old(self)),
            final(self).folder_keys == old(self).folder_keys,
            final(self).context_share_ids.entries() == Seq::<Entry>::empty(),
    {
        self.context_share_ids.clear();
    }

    /// Drops what an event may have made stale, and says what to do to the stored
    /// nodes. A change of one node can change the context of a whole subtree, so
    /// every context share goes; after a gap in the events, so do all keys.
    pub fn invalidate_caches_for_event(&mut self, event: &DriveEvent) -> (effect: EntityEffect)
        requires
            old(self).well_formed(),
        ensures
            final(self).well_formed(),
            final(self).same_shares(*old(self)),
            final(self).folder_keys.entries() == keys_after(old(self).folder_keys.entries(), *event),
            final(self).context_share_ids.entries() == contexts_after(
                old(self).context_share_ids.entries(),
                *event,
            ),
            effect == entity_effect_of(*event),
            event is CursorAdvanced ==> *final(self) == *old(self),
    {
        match event {
            DriveEvent::NodeUpdated { node_uid, .. } => {
                self.folder_keys.pop(node_uid);
                self.context_share_ids.clear();
                EntityEffect::Remove(node_uid.clone())
            },
            DriveEvent::NodeDeleted { node_uid, .. } => {
                self.folder_keys.pop(node_uid);
                self.context_share_ids.clear();
                EntityEffect::Remove(node_uid.clone())
            },
            DriveEvent::ContinuityLost { .. } | DriveEvent::ScopeAccessLost { .. } => {
                self.folder_keys.clear();
                self.context_share_ids.clear();
                EntityEffect::Clear
            },
            DriveEvent::SharedWithMeUpdated { .. } => {
                self.context_share_ids.clear();
                EntityEffect::Keep
            },
            DriveEvent::CursorAdvanced { .. } => EntityEffect::Keep,
        }
    }

    /// Keeps the unlocked key of a link that others are decrypted with: of a folder
    /// or an album.
    pub fn learn_node_key(&mut self, uid: &NodeUid, link_type: LinkType, node_key: &Option<String>)
        requires
            old(self).well_formed(),
        ensures
            final(self).well_formed(),
            final(self).same_shares(*old(self)),
            final(self).context_share_ids == old(self).context_share_ids,
            if (link_type == LinkType::Folder || link_type == LinkType::Album) && node_key is Some {
                final(self).folder_keys.entries() == with_entry(
                    old(self).folder_keys.entries(),
                    old(self).folder_keys.bound(),
                    uid@,
                    node_key->0@,
                )
            } else {
                final(self).folder_keys == old(self).folder_keys
            },
    {
        match link_type {
            LinkType::Folder | LinkType::Album => match node_key {
                Some(key) => self.folder_keys.put(uid, key.clone()),
                None => {},
            },
            LinkType::File | LinkType::Unknown => {},
        }
    }

    /// Keeps what was listed of what others share with us.
    pub fn learn_shared_with_me(&mut self, items: Vec<SharedWithMeItem>)
        requires
            old(self).well_formed(),
        ensures
            final(self).well_formed(),
            final(self).shared_with_me_shares == Some(items),
            final(self).main_volume_id == old(self).main_volume_id,
            final(self).my_files_share == old(self).my_files_share,
            final(self).my_files_root == old(self).my_files_root,
            final(self).photos_share == old(self).photos_share,
            final(self).photos_root == old(self).photos_root,
            final(self).photos_volume_exists == old(self).photos_volume_exists,
            final(self).folder_keys == old(self).folder_keys,
            final(self).context_share_ids == old(self).context_share_ids,
    {
        self.shared_with_me_shares = Some(items);
    }

    /// Keeps My Files: its volume, root and share, and the key of its root.
    pub fn learn_my_files(
        &mut self,
        response: &MyFilesShareResponse,
        share_key: String,
        root_key: String,
    )
        requires
            old(self).well_formed(),
        ensures
            final(self).well_formed(),
            ({
                let root = NodeUid { volume_id: response.volume.id, link_id: response.link.link.id };
                &&& final(self).main_volume_id == Some(response.volume.id)
                &&& final(self).my_files_root == Some(root)
                &&& final(self).my_files_share == Some(
                    ShareKey {
                        share_id: response.share.id,
                        address_id: response.share.address_id,
                        key: share_key,
                    },
                )
                &&& final(self).folder_keys.entries() == with_entry(
                    old(self).folder_keys.entries(),
                    old(self).folder_keys.bound(),
                    root@,
                    root_key@,
                )
                &&& final(self).photos_share == old(self).photos_share
                &&& final(self).photos_root == old(self).photos_root
                &&& final(self).photos_volume_exists == old(self).photos_volume_exists
                &&& final(self).shared_with_me_shares == old(self).shared_with_me_shares
                &&& final(self).context_share_ids == old(self).context_share_ids
            }),
    {
        let root: NodeUid = NodeUid::new(response.volume.id.clone(), response.link.link.id.clone());
        self.main_volume_id = Some(response.volume.id.clone());
        self.folder_keys.put(&root, root_key);
        self.my_files_root = Some(root);
        self.my_files_share = Some(
            ShareKey {
                share_id: response.share.id.clone(),
                address_id: response.share.address_id.clone(),
                key: share_key,
            },
        );
    }

    /// Keeps Photos: its root and share, and the key of its root.
    pub fn learn_photos(
        &mut self,
        response: &MyFilesShareResponse,
        share_key: String,
        root_key: String,
    )
        requires
            old(self).well_formed(),
        ensures
            final(self).well_formed(),
            ({
                let root = NodeUid { volume_id: response.volume.id, link_id: response.link.link.id };
                &&& final(self).photos_volume_exists == Some(true)
                &&& final(self).photos_root == Some(root)
                &&& final(self).photos_share == Some(
                    ShareKey {
                        share_id: response.share.id,
                        address_id: response.share.address_id,
                        key: share_key,
                    },
                )
                &&& final(self).folder_keys.entries() == with_entry(
                    old(self).folder_keys.entries(),
                    old(self).folder_keys.bound(),
                    root@,
                    root_key@,
                )
                &&& final(self).main_volume_id == old(self).main_volume_id
                &&& final(self).my_files_share == old(self).my_files_share
                &&& final(self).my_files_root == old(self).my_files_root
                &&& final(self).shared_with_me_shares == old(self).shared_with_me_shares
                &&& final(self).context_share_ids == old(self).context_share_ids
            }),
    {
        let root: NodeUid = NodeUid::new(response.volume.id.clone(), response.link.link.id.clone());
        self.folder_keys.put(&root, root_key);
        self.photos_root = Some(root);
        self.photos_share = Some(
            ShareKey {
                share_id: response.share.id.clone(),
                address_id: response.share.address_id.clone(),
                key: share_key,
            },
        );
        self.photos_volume_exists = Some(true);
    }

    /// Takes in that Photos could not be had. The answer that there is none is kept;
    /// any other failure is handed back.
    pub fn photos_unavailable(&mut self, error: ProtonError) -> (failure: Option<ProtonError>)
        requires
            old(self).well_formed(),
        ensures
            final(self).well_formed(),
            if error.code() == Some(ResponseCode::DoesNotExist) {
                &&& failure is None
                &&& final(self).photos_volume_exists == Some(false)
                &&& final(self).photos_share == old(self).photos_share
                &&& final(self).photos_root == old(self).photos_root
                &&& final(self).main_volume_id == old(self).main_volume_id
                &&& final(self).my_files_share == old(self).my_files_share
                &&& final(self).my_files_root == old(self).my_files_root
                &&& final(self).shared_with_me_shares == old(self).shared_with_me_shares
                &&& final(self).folder_keys == old(self).folder_keys
                &&& final(self).context_share_ids == old(self).context_share_ids
            } else {
                failure == Some(error) && *final(self) == *old(self)
            },
    {
        let absent: bool = match &error {
            ProtonError::Api(e) => e.code == ResponseCode::DoesNotExist,
            _ => false,
        };
        if absent {
            self.photos_volume_exists = Some(false);
            None
        } else {
            Some(error)
        }
    }

    /// The share to store a node under: that of Photos or that of My Files, where
    /// it has been resolved.
    pub fn membership_share(&self, for_photos: bool) -> (r: Option<ShareId>)
        ensures
            match if for_photos {
                self.photos_share
            } else {
                self.my_files_share
            } {
                Some(share) => r == Some(share.share_id),
                None => r is None,
            },
    {
        let share: &Option<ShareKey> = if for_photos {
            &self.photos_share
        } else {
            &self.my_files_share
        };
        match share {
            Some(share) => Some(share.share_id.clone()),
            None => None,
        }
    }

    /// The unlocked key of the Photos share.
    pub fn photos_share_key(&self) -> (r: Result<String, ProtonError>)
        ensures
            match self.photos_share {
                Some(share) => r == Ok::<String, ProtonError>(share.key),
                None => r is Err && invalid(r->Err_0, "account has no photos volume"@),
            },
    {
        match &self.photos_share {
            Some(share) => Ok(share.key.clone()),
            None => Err(ProtonError::invalid_operation("account has no photos volume")),
        }
    }
}

/// Whether a failed lookup of My Files means that there is no volume yet, so that
/// one is to be made.
pub fn must_create_volume(error: &ProtonError) -> (r: bool)
    ensures
        r == (error.code() == Some(ResponseCode::DoesNotExist) || error.status() == Some(404u16)),
{
    is_not_found(error)
}

/// Which share unlocks a link that has no parent.
#[derive(Debug, PartialEq, Eq)]
pub enum RootShare {
    /// That of My Files.
    MyFiles,
    /// That of a device, or one shared with us.
    Share(ShareId),
}

/// Whether a device has the node as its root folder.
pub open spec fn is_device_root(device: DeviceMetadata, uid: (Seq<char>, Seq<char>)) -> bool {
    device.root_folder_uid@ == uid
}

/// Whether device `i` is the first that has the node as its root folder.
pub open spec fn first_device_root(
    devices: Seq<DeviceMetadata>,
    uid: (Seq<char>, Seq<char>),
    i: int,
) -> bool {
    &&& 0 <= i < devices.len()
    &&& is_device_root(devices[i], uid)
    &&& forall|j: int| 0 <= j < i ==> !is_device_root(#[trigger] devices[j], uid)
}

/// Whether some device has the node as its root folder.
pub open spec fn has_device_root(
    devices: Seq<DeviceMetadata>,
    uid: (Seq<char>, Seq<char>),
) -> bool {
    exists|i: int| 0 <= i < devices.len() && is_device_root(#[trigger] devices[i], uid)
}

/// The share of the device that has a node as its root folder.
pub fn device_root_share(devices: &Vec<DeviceMetadata>, uid: &NodeUid) -> (r: Option<ShareId>)
    ensures
        match r {
            Some(share) => exists|i: int| #[trigger]
                first_device_root(devices@, uid@, i) && share == devices@[i].share_id,
            None => !has_device_root(devices@, uid@),
        },
        r is Some <==> exists|i: int|
            0 <= i < devices@.len() && (#[trigger] devices@[i]).root_folder_uid@ == uid@,
        r is Some ==> exists|i: int|
            #![trigger devices@[i]]
            0 <= i < devices@.len() && devices@[i].root_folder_uid@ == uid@ && r->0
                == devices@[i].share_id && (forall|j: int|
                0 <= j < i ==> (#[trigger] devices@[j]).root_folder_uid@ != uid@),
{
    let mut i: usize = 0;
    while i < devices.len()
        invariant
            i <= devices@.len(),
            forall|j: int| 0 <= j < i ==> !is_device_root(#[trigger] devices@[j], uid@),
        decreases devices@.len() - i,
    {
        if devices[i].root_folder_uid.same_as(uid) {
            assert(first_device_root(devices@, uid@, i as int));
            return Some(devices[i].share_id.clone());
        }
        i += 1;
    }
    None
}

impl DriveCache {
    /// Whether the link is the root of My Files.
    pub open spec fn is_my_files_root(self, root: Seq<char>) -> bool {
        self.my_files_root is Some && self.my_files_root->0.link_id@ == root
    }

    /// Which share unlocks a link that has no parent: that of My Files for its own
    /// root, else that of the device whose root it is, else the one through which
    /// it is shared with us, and otherwise again that of My Files. The devices are
    /// `None` where they could not be listed.
    pub fn root_share(
        &self,
        volume_id: &VolumeId,
        root_id: &LinkId,
        devices: &Option<Vec<DeviceMetadata>>,
        shared: &Option<ShareId>,
    ) -> (r: RootShare)
        ensures
            ({
                let uid = (volume_id@, root_id@);
                if self.is_my_files_root(root_id@) {
                    r == RootShare::MyFiles
                } else if devices is Some && has_device_root(devices->0@, uid) {
                    exists|i: int| #[trigger]
                        first_device_root(devices->0@, uid, i) && r == RootShare::Share(
                            devices->0@[i].share_id,
                        )
                } else {
                    match *shared {
                        Some(share) => r == RootShare::Share(share),
                        None => r == RootShare::MyFiles,
                    }
                }
            }),
            self.my_files_root is Some && self.my_files_root->0.link_id@ == root_id@ ==> r
                == RootShare::MyFiles,
            !(self.my_files_root is Some && self.my_files_root->0.link_id@ == root_id@) ==> {
                let is_root = |device: DeviceMetadata|
                    device.root_folder_uid.volume_id@ == volume_id@ && device.root_folder_uid.link_id@
                        == root_id@;
                &&& devices is Some && (exists|i: int|
                    0 <= i < devices->0@.len() && is_root(#[trigger] devices->0@[i])) ==> exists|i: int|
                    #![trigger devices->0@[i]]
                    0 <= i < devices->0@.len() && is_root(devices->0@[i]) && r == RootShare::Share(
                        devices->0@[i].share_id,
                    )
                &&& (devices is None || forall|i: int|
                    0 <= i < devices->0@.len() ==> !is_root(#[trigger] devices->0@[i])) ==> r == (match *shared {
                    Some(share) => RootShare::Share(share),
                    None => RootShare::MyFiles,
                })
            },
    {
        if let Some(root) = &self.my_files_root {
            if root.link_id.same_as(root_id) {
                return RootShare::MyFiles;
            }
        }
        let uid: NodeUid = NodeUid::new(volume_id.clone(), root_id.clone());
        if let Some(devices) = devices {
            if let Some(share) = device_root_share(devices, &uid) {
                return RootShare::Share(share);
            }
        }
        match shared {
            Some(share) => RootShare::Share(share.clone()),
            None => RootShare::MyFiles,
        }
    }

    /// What is kept about through which share a node is shared with us. The second
    /// part says whether to list again: when the node is not among what was listed
    /// before.
    pub fn shared_share(&self, uid: &NodeUid) -> (r: (Option<ShareId>, bool))
        ensures
            match self.shared_with_me_shares {
                Some(items) => r.0 == share_of(items@, uid@) && r.1 == (r.0 is None),
                None => r.0 is None && r.1,
            },
    {
        match &self.shared_with_me_shares {
            Some(items) => {
                let share: Option<ShareId> = shared_through(items, uid);
                let again: bool = share.is_none();
                (share, again)
            },
            None => (None, true),
        }
    }
}

/// The node that an event is about.
pub open spec fn changed_node(event: DriveEvent) -> Option<(Seq<char>, Seq<char>)> {
    match event {
        DriveEvent::NodeUpdated { node_uid, .. } => Some(node_uid@),
        DriveEvent::NodeDeleted { node_uid, .. } => Some(node_uid@),
        _ => None,
    }
}

/// After an event about a node, nothing that was kept about it is served any more:
/// neither its key, nor the share through which it or anything below it is
/// reached, nor the stored node. The keys of other nodes stay. After a gap in the
/// events nothing at all is served.
pub proof fn law_events_leave_nothing_stale(
    cache: DriveCache,
    event: DriveEvent,
    uid: (Seq<char>, Seq<char>),
)
    requires
        cache.well_formed(),
    ensures
        ({
            let keys = keys_after(cache.folder_keys.entries(), event);
            let contexts = contexts_after(cache.context_share_ids.entries(), event);
            &&& changed_node(event) == Some(uid) ==> kept_under(keys, uid) is None
            &&& changed_node(event) is Some ==> kept_under(contexts, uid) is None
            &&& changed_node(event) is Some ==> entity_effect_of(event) is Remove
                && entity_effect_of(event)->Remove_0@ == changed_node(event)->0
            &&& changed_node(event) is Some && changed_node(event)->0 != uid ==> kept_under(keys, uid)
                == kept_under(cache.folder_keys.entries(), uid)
            &&& event is ContinuityLost || event is ScopeAccessLost ==> kept_under(keys, uid) is None
                && kept_under(contexts, uid) is None && entity_effect_of(event) is Clear
        }),
{
    match changed_node(event) {
        Some(node) => {
            crate::cache::law_forgotten_is_gone(cache.folder_keys, node);
            if node != uid {
                crate::cache::law_forgetting_one_keeps_the_others(cache.folder_keys, node, uid);
            }
        },
        None => {},
    }
}

/// What each event does to what is remembered: a change to a node forgets its key, its
/// entry and every context; lost continuity or access forgets everything; news of what
/// is shared with us forgets the contexts alone; and a moved position nothing.
pub proof fn law_what_each_event_forgets(
    keys: Seq<Entry>,
    contexts: Seq<Entry>,
    event: DriveEvent,
)
    ensures
        event matches DriveEvent::NodeUpdated { node_uid, .. } ==> keys_after(keys, event)
            == without(keys, node_uid@) && contexts_after(contexts, event).len() == 0
            && entity_effect_of(event) == EntityEffect::Remove(node_uid),
        event matches DriveEvent::NodeDeleted { node_uid, .. } ==> keys_after(keys, event)
            == without(keys, node_uid@) && contexts_after(contexts, event).len() == 0
            && entity_effect_of(event) == EntityEffect::Remove(node_uid),
        event is ContinuityLost || event is ScopeAccessLost ==> keys_after(keys, event).len() == 0
            && contexts_after(contexts, event).len() == 0 && entity_effect_of(event)
            == EntityEffect::Clear,
        event is SharedWithMeUpdated ==> keys_after(keys, event) == keys && contexts_after(
            contexts,
            event,
        ).len() == 0 && entity_effect_of(event) == EntityEffect::Keep,
        event is CursorAdvanced ==> keys_after(keys, event) == keys && contexts_after(
            contexts,
            event,
        ) == contexts && entity_effect_of(event) == EntityEffect::Keep,
{
}

/// Caches with the same shares agree on everything but the remembered entries.
pub proof fn law_same_shares_are_the_same(a: DriveCache, b: DriveCache)
    requires
        a.same_shares(b),
    ensures
        a.main_volume_id == b.main_volume_id,
        a.my_files_share == b.my_files_share,
        a.my_files_root == b.my_files_root,
        a.photos_share == b.photos_share,
        a.photos_root == b.photos_root,
        a.photos_volume_exists == b.photos_volume_exists,
        a.shared_with_me_shares == b.shared_with_me_shares,
        a.folder_keys.bound() == b.folder_keys.bound(),
        a.context_share_ids.bound() == b.context_share_ids.bound(),
{
}

/// Whether what is kept about through which share nodes are reached is so.
pub open spec fn contexts_are_true(
    contexts: Seq<Entry>,
    reached: spec_fn((Seq<char>, Seq<char>)) -> Seq<char>,
) -> bool {
    forall|i: int| 0 <= i < contexts.len() ==> (#[trigger] contexts[i]).1 == reached(contexts[i].0)
}

/// A lookup never serves a share through which a node is no longer reached: what it
/// keeps is what the server said, a hit changes nothing, and a request that may
/// change how nodes are reached, to whatever, leaves nothing.
pub proof fn law_remembered_contexts_stay_true(
    cache: DriveCache,
    reached: spec_fn((Seq<char>, Seq<char>)) -> Seq<char>,
    afterwards: spec_fn((Seq<char>, Seq<char>)) -> Seq<char>,
    uid: (Seq<char>, Seq<char>),
)
    requires
        cache.well_formed(),
        contexts_are_true(cache.context_share_ids.entries(), reached),
    ensures
        ({
            let contexts = cache.context_share_ids.entries();
            let bound = cache.context_share_ids.bound();
            &&& has_key(contexts, uid) ==> kept_under(contexts, uid) == Some(reached(uid))
            &&& contexts_are_true(touched(contexts, uid), reached)
            &&& contexts_are_true(with_entry(contexts, bound, uid, reached(uid)), reached)
            &&& contexts_are_true(Seq::empty(), afterwards)
        }),
{
    let contexts = cache.context_share_ids.entries();
    let bound = cache.context_share_ids.bound();
    let rest = without(contexts, uid);
    if has_key(contexts, uid) {
        let k = crate::cache::slot_of(contexts, uid);
        assert(contexts[k].0 == uid);
        assert forall|i: int| 0 <= i < rest.len() implies (#[trigger] rest[i]).1 == reached(
            rest[i].0,
        ) by {
            let from = if i < k {
                i
            } else {
                i + 1
            };
            assert(rest[i] == contexts[from]);
        }
        let hit = touched(contexts, uid);
        assert forall|i: int| 0 <= i < hit.len() implies (#[trigger] hit[i]).1 == reached(
            hit[i].0,
        ) by {
            assert(hit[i] == if i == 0 {
                contexts[k]
            } else {
                rest[i - 1]
            });
        }
    }
    let put = with_entry(contexts, bound, uid, reached(uid));
    assert forall|i: int| 0 <= i < put.len() implies (#[trigger] put[i]).1 == reached(put[i].0) by {
        if i > 0 {
            if has_key(contexts, uid) {
                assert(put[i] == rest[i - 1]);
            } else {
                assert(put[i] == contexts[i - 1]);
            }
        }
    }
}

} // verus!

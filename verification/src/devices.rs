//! Devices: the synced folders that desktop clients register. Each owns a share
//! and a root folder, and is named after that folder.

use vstd::prelude::*;
use vstd::string::{StrSliceExecFns, StringExecFns};

use crate::dtos::{
    DeviceCreationDeviceDto, DeviceCreationLinkDto, DeviceCreationRequest,
    DeviceCreationResultDto, DeviceCreationShareDto, DeviceListItemDto, DeviceListResponse,
    DeviceUpdateRequest, DeviceUpdateShareDto, LinkDetailsDto, RenameLinkRequest,
    VolumeCreationRequest,
};
use crate::error::{invalid, ProtonError};
use crate::ids::{uid_text, NodeUid, ShareId, VolumeId};
use crate::shares::{detail_of, first_detail, no_detail};
use crate::text::{joined, owned, push_signed, same_text, signed_decimal};

verus! {

/// The platform a device runs on.
#[derive(Debug, Clone, Copy, PartialEq, Eq, Structural)]
pub enum DeviceType {
    Windows,
    MacOs,
    Linux,
}

impl DeviceType {
    /// The wire value of the platform.
    pub open spec fn wire(self) -> int {
        match self {
            DeviceType::Windows => 1,
            DeviceType::MacOs => 2,
            DeviceType::Linux => 3,
        }
    }

    pub fn as_i32(self) -> (r: i32)
        ensures
            r == self.wire(),
            self == DeviceType::Windows ==> r == 1,
            self == DeviceType::MacOs ==> r == 2,
            self == DeviceType::Linux ==> r == 3,
    {
        match self {
            DeviceType::Windows => 1,
            DeviceType::MacOs => 2,
            DeviceType::Linux => 3,
        }
    }

    /// The platform with a wire value; an error for a value without one.
    pub fn from_raw(value: i32) -> (r: Result<DeviceType, ProtonError>)
        ensures
            match r {
                Ok(kind) => kind.wire() == value,
                Err(e) => !(1 <= value <= 3) && invalid(
                    e,
                    "unsupported device type "@ + signed_decimal(value as int),
                ),
            },
            r is Ok <==> 1 <= value <= 3,
            value == 1 ==> r->Ok_0 == DeviceType::Windows,
            value == 2 ==> r->Ok_0 == DeviceType::MacOs,
            value == 3 ==> r->Ok_0 == DeviceType::Linux,
            r is Err ==> invalid(r->Err_0, "unsupported device type "@ + signed_decimal(value as int)),
    {
        match value {
            1 => Ok(DeviceType::Windows),
            2 => Ok(DeviceType::MacOs),
            3 => Ok(DeviceType::Linux),
            other => {
                let mut message: String = owned("unsupported device type ");
                push_signed(&mut message, other as i64);
                Err(ProtonError::invalid_operation(message.as_str()))
            },
        }
    }
}

/// A registered device. Its name is decrypted apart from the rest and may fail on
/// its own.
#[derive(Debug, PartialEq, Eq)]
pub struct Device {
    pub uid: String,
    pub device_type: DeviceType,
    pub name: Result<String, ProtonError>,
    pub root_folder_uid: NodeUid,
    pub creation_time: i64,
    pub last_sync_time: Option<i64>,
    pub share_id: ShareId,
}

/// A device without its name.
#[derive(Debug, Clone, PartialEq, Eq)]
pub struct DeviceMetadata {
    pub uid: String,
    pub device_type: DeviceType,
    pub root_folder_uid: NodeUid,
    pub creation_time: i64,
    pub last_sync_time: Option<i64>,
    /// Whether the share still carries the name, as it did on old devices.
    pub has_deprecated_name: bool,
    pub share_id: ShareId,
}

impl DeviceMetadata {
    pub fn into_device(self, name: Result<String, ProtonError>) -> (r: Device)
        ensures
            r == (Device {
                uid: self.uid,
                device_type: self.device_type,
                name,
                root_folder_uid: self.root_folder_uid,
                creation_time: self.creation_time,
                last_sync_time: self.last_sync_time,
                share_id: self.share_id,
            }),
    {
        Device {
            uid: self.uid,
            device_type: self.device_type,
            name,
            root_folder_uid: self.root_folder_uid,
            creation_time: self.creation_time,
            last_sync_time: self.last_sync_time,
            share_id: self.share_id,
        }
    }
}

/// Whether no platform has the wire value.
pub open spec fn unknown_type(raw: int) -> bool {
    !(1 <= raw <= 3)
}

/// What is said of a wire value that no platform has.
pub open spec fn unknown_type_message(raw: int) -> Seq<char> {
    "unsupported device type "@ + signed_decimal(raw)
}

/// A device of a listing, without its name.
pub open spec fn is_metadata_of(metadata: DeviceMetadata, item: DeviceListItemDto) -> bool {
    &&& metadata.uid == item.device.id
    &&& metadata.device_type.wire() == item.device.device_type
    &&& metadata.root_folder_uid == (NodeUid {
        volume_id: item.device.volume_id,
        link_id: item.share.root_link_id,
    })
    &&& metadata.creation_time == item.device.creation_time
    &&& metadata.last_sync_time == item.device.last_sync_time
    &&& metadata.has_deprecated_name == (item.share.name is Some && item.share.name->0@.len() > 0)
    &&& metadata.share_id == item.share.id
}

/// The devices of a listing, in its order. One of a type that is not known makes
/// the listing fail.
pub fn device_metadata(response: DeviceListResponse) -> (r: Result<Vec<DeviceMetadata>, ProtonError>)
    ensures
        match r {
            Ok(devices) => {
                &&& devices@.len() == response.devices@.len()
                &&& forall|i: int|
                    0 <= i < devices@.len() ==> is_metadata_of(
                        #[trigger] devices@[i],
                        response.devices@[i],
                    )
            },
            Err(e) => exists|i: int|
                #![trigger response.devices@[i]]
                {
                    &&& 0 <= i < response.devices@.len()
                    &&& unknown_type(response.devices@[i].device.device_type as int)
                    &&& invalid(
                        e,
                        unknown_type_message(response.devices@[i].device.device_type as int),
                    )
                    &&& forall|j: int|
                        0 <= j < i ==> !unknown_type(
                            (#[trigger] response.devices@[j]).device.device_type as int,
                        )
                },
        },
        r is Ok <==> forall|i: int|
            0 <= i < response.devices@.len() ==> 1 <= (
            #[trigger] response.devices@[i]).device.device_type <= 3,
        r is Ok ==> r->Ok_0@.len() == response.devices@.len() && forall|i: int|
            0 <= i < response.devices@.len() ==> {
                let item = response.devices@[i];
                &&& (#[trigger] r->Ok_0@[i]).uid == item.device.id
                &&& r->Ok_0@[i].device_type == DeviceType::Windows <==> item.device.device_type == 1
                &&& r->Ok_0@[i].device_type == DeviceType::MacOs <==> item.device.device_type == 2
                &&& r->Ok_0@[i].device_type == DeviceType::Linux <==> item.device.device_type == 3
                &&& r->Ok_0@[i].root_folder_uid.volume_id == item.device.volume_id
                &&& r->Ok_0@[i].root_folder_uid.link_id == item.share.root_link_id
                &&& r->Ok_0@[i].creation_time == item.device.creation_time
                &&& r->Ok_0@[i].last_sync_time == item.device.last_sync_time
                &&& r->Ok_0@[i].has_deprecated_name <==> item.share.name is Some
                    && item.share.name->0@.len() > 0
                &&& r->Ok_0@[i].share_id == item.share.id
            },
        r is Err ==> exists|i: int|
            #![trigger response.devices@[i]]
            0 <= i < response.devices@.len() && !(1 <= response.devices@[i].device.device_type <= 3)
                && invalid(
                r->Err_0,
                "unsupported device type "@ + signed_decimal(
                    response.devices@[i].device.device_type as int,
                ),
            ) && (forall|j: int|
                0 <= j < i ==> 1 <= (#[trigger] response.devices@[j]).device.device_type <= 3),
{
    let ghost all = response.devices@;
    let mut rest: Vec<DeviceListItemDto> = response.devices;
    let mut out: Vec<DeviceMetadata> = Vec::new();
    while rest.len() > 0
        invariant
            all == response.devices@,
            out@.len() + rest@.len() == all.len(),
            rest@ == all.skip(out@.len() as int),
            forall|i: int| 0 <= i < out@.len() ==> is_metadata_of(#[trigger] out@[i], all[i]),
            forall|i: int|
                0 <= i < out@.len() ==> !unknown_type(
                    (#[trigger] all[i]).device.device_type as int,
                ),
        decreases rest@.len(),
    {
        let item: DeviceListItemDto = rest.remove(0);
        assert(item == all[out@.len() as int]);
        let device_type: DeviceType = match DeviceType::from_raw(item.device.device_type) {
            Ok(device_type) => device_type,
            Err(e) => {
                assert(unknown_type(response.devices@[out@.len() as int].device.device_type as int));
                return Err(e);
            },
        };
        let has_deprecated_name: bool = match &item.share.name {
            Some(name) => name.as_str().unicode_len() > 0,
            None => false,
        };
        out.push(
            DeviceMetadata {
                uid: item.device.id,
                device_type,
                root_folder_uid: NodeUid::new(item.device.volume_id, item.share.root_link_id),
                creation_time: item.device.creation_time,
                last_sync_time: item.device.last_sync_time,
                has_deprecated_name,
                share_id: item.share.id,
            },
        );
        assert(rest@ =~= all.skip(out@.len() as int));
    }
    Ok(out)
}

/// Whether device `i` is the first one with the id.
pub open spec fn first_device(devices: Seq<DeviceMetadata>, uid: Seq<char>, i: int) -> bool {
    &&& 0 <= i < devices.len()
    &&& devices[i].uid@ == uid
    &&& forall|j: int| 0 <= j < i ==> (#[trigger] devices[j]).uid@ != uid
}

/// The device with the id.
pub fn device_metadata_by_uid(devices: Vec<DeviceMetadata>, uid: &str) -> (r: Result<
    DeviceMetadata,
    ProtonError,
>)
    ensures
        match r {
            Ok(device) => exists|i: int| #[trigger]
                first_device(devices@, uid@, i) && device == devices@[i],
            Err(e) => (forall|i: int| 0 <= i < devices@.len() ==> (#[trigger] devices@[i]).uid@
                != uid@) && invalid(e, "device "@ + uid@ + " not found"@),
        },
        r is Ok <==> exists|i: int| 0 <= i < devices@.len() && (#[trigger] devices@[i]).uid@ == uid@,
        r is Ok ==> r->Ok_0.uid@ == uid@ && devices@.contains(r->Ok_0),
        r is Ok ==> exists|i: int|
            #![trigger devices@[i]]
            0 <= i < devices@.len() && r->Ok_0 == devices@[i] && (forall|j: int|
                0 <= j < i ==> (#[trigger] devices@[j]).uid@ != uid@),
{
    let mut rest: Vec<DeviceMetadata> = devices;
    let mut i: usize = 0;
    while i < rest.len()
        invariant
            i <= rest@.len(),
            rest@ == devices@,
            forall|j: int| 0 <= j < i ==> (#[trigger] devices@[j]).uid@ != uid@,
        decreases rest@.len() - i,
    {
        if same_text(rest[i].uid.as_str(), uid) {
            assert(first_device(devices@, uid@, i as int));
            return Ok(rest.remove(i));
        }
        i += 1;
    }
    let mut message: String = owned("device ");
    message.append(uid);
    message.append(" not found");
    Err(ProtonError::InvalidOperation(message))
}

/// The secrets of a new share and its root folder.
#[derive(Debug, PartialEq, Eq)]
pub struct RootMaterial {
    pub share_key: String,
    pub share_passphrase: String,
    pub share_passphrase_signature: String,
    pub folder_name: String,
    pub folder_key: String,
    pub folder_passphrase: String,
    pub folder_passphrase_signature: String,
    pub folder_hash_key: String,
}

/// The request that registers a device.
pub fn device_creation_request(
    device_type: DeviceType,
    address_id: String,
    address_key_id: String,
    material: RootMaterial,
) -> (r: DeviceCreationRequest)
    ensures
        r.device.device_type == device_type.wire(),
        r.device.sync_state == 0,
        r.share == (DeviceCreationShareDto {
            address_id,
            address_key_id,
            key: material.share_key,
            passphrase: material.share_passphrase,
            passphrase_signature: material.share_passphrase_signature,
        }),
        r.link == (DeviceCreationLinkDto {
            name: material.folder_name,
            key: material.folder_key,
            passphrase: material.folder_passphrase,
            passphrase_signature: material.folder_passphrase_signature,
            node_hash_key: material.folder_hash_key,
        }),
{
    DeviceCreationRequest {
        device: DeviceCreationDeviceDto { device_type: device_type.as_i32(), sync_state: 0 },
        share: DeviceCreationShareDto {
            address_id,
            address_key_id,
            key: material.share_key,
            passphrase: material.share_passphrase,
            passphrase_signature: material.share_passphrase_signature,
        },
        link: DeviceCreationLinkDto {
            name: material.folder_name,
            key: material.folder_key,
            passphrase: material.folder_passphrase,
            passphrase_signature: material.folder_passphrase_signature,
            node_hash_key: material.folder_hash_key,
        },
    }
}

/// The request that creates the account's volume.
pub fn volume_creation_request(
    address_id: String,
    address_key_id: String,
    material: RootMaterial,
) -> (r: VolumeCreationRequest)
    ensures
        r == (VolumeCreationRequest {
            address_id,
            address_key_id,
            share_key: material.share_key,
            share_passphrase: material.share_passphrase,
            share_passphrase_signature: material.share_passphrase_signature,
            folder_name: material.folder_name,
            folder_key: material.folder_key,
            folder_passphrase: material.folder_passphrase,
            folder_passphrase_signature: material.folder_passphrase_signature,
            folder_hash_key: material.folder_hash_key,
        }),
{
    VolumeCreationRequest {
        address_id,
        address_key_id,
        share_key: material.share_key,
        share_passphrase: material.share_passphrase,
        share_passphrase_signature: material.share_passphrase_signature,
        folder_name: material.folder_name,
        folder_key: material.folder_key,
        folder_passphrase: material.folder_passphrase,
        folder_passphrase_signature: material.folder_passphrase_signature,
        folder_hash_key: material.folder_hash_key,
    }
}

/// The device that was registered at `now`.
pub fn created_device(
    created: DeviceCreationResultDto,
    device_type: DeviceType,
    name: &str,
    volume_id: VolumeId,
    now: i64,
) -> (r: Device)
    ensures
        r.uid == created.id,
        r.device_type == device_type,
        r.name is Ok,
        r.name->Ok_0@ == name@,
        r.root_folder_uid == (NodeUid { volume_id, link_id: created.root_link_id }),
        r.creation_time == now,
        r.last_sync_time is None,
        r.share_id == created.share_id,
{
    Device {
        uid: created.id,
        device_type,
        name: Ok(owned(name)),
        root_folder_uid: NodeUid::new(volume_id, created.root_link_id),
        creation_time: now,
        last_sync_time: None,
        share_id: created.share_id,
    }
}

/// The encrypted name of a device's root folder, which a new name has to be
/// encrypted like.
pub fn device_root_name(details: &Vec<LinkDetailsDto>, root: &NodeUid) -> (r: Result<
    String,
    ProtonError,
>)
    ensures
        match r {
            Ok(name) => exists|i: int| #[trigger]
                first_detail(details@, root.link_id@, i) && name == details@[i].link.name,
            Err(e) => no_detail(details@, root.link_id@) && invalid(
                e,
                "device root folder "@ + uid_text(root@) + " not found"@,
            ),
        },
        r is Ok <==> exists|i: int|
            0 <= i < details@.len() && (#[trigger] details@[i]).link.id@ == root.link_id@,
        r is Ok ==> exists|i: int|
            #![trigger details@[i]]
            0 <= i < details@.len() && details@[i].link.id@ == root.link_id@ && r->Ok_0
                == details@[i].link.name,
{
    match detail_of(details, root) {
        Some(detail) => Ok(detail.link.name.clone()),
        None => {
            let mut message: String = owned("device root folder ");
            message.append(root.to_text().as_str());
            message.append(" not found");
            Err(ProtonError::InvalidOperation(message))
        },
    }
}

/// The request that renames a device's root folder. It has no siblings, so that no
/// name hash is sent.
pub fn device_rename_request(encrypted_name: String, email: String) -> (r: RenameLinkRequest)
    ensures
        r.name == encrypted_name,
        r.name_hash@.len() == 0,
        r.name_signature_email == email,
        r.media_type is None,
        r.original_hash@.len() == 0,
{
    RenameLinkRequest {
        name: encrypted_name,
        name_hash: String::new(),
        name_signature_email: email,
        media_type: None,
        original_hash: String::new(),
    }
}

/// The request that clears the name that an old device keeps on its share.
pub fn clear_name_request() -> (r: DeviceUpdateRequest)
    ensures
        r.share.name@.len() == 0,
{
    DeviceUpdateRequest { share: DeviceUpdateShareDto { name: String::new() } }
}

/// The route of a device.
pub fn device_path(uid: &str) -> (path: String)
    ensures
        path@ == "devices/"@ + uid@,
{
    joined("devices/", uid)
}

/// The type of a device survives the wire, and no other value is a type.
pub proof fn law_device_type_survives_the_wire(a: DeviceType, b: DeviceType)
    ensures
        a.wire() == b.wire() ==> a == b,
        !unknown_type(a.wire()),
{
}

/// What is known of a device is what the server lists of it, and each system has its
/// number.
pub proof fn law_devices_are_what_the_server_lists(
    metadata: DeviceMetadata,
    item: DeviceListItemDto,
)
    requires
        is_metadata_of(metadata, item),
    ensures
        metadata.uid == item.device.id,
        metadata.device_type == DeviceType::Windows <==> item.device.device_type == 1,
        metadata.device_type == DeviceType::MacOs <==> item.device.device_type == 2,
        metadata.device_type == DeviceType::Linux <==> item.device.device_type == 3,
        metadata.root_folder_uid.volume_id == item.device.volume_id,
        metadata.root_folder_uid.link_id == item.share.root_link_id,
        metadata.creation_time == item.device.creation_time,
        metadata.last_sync_time == item.device.last_sync_time,
        metadata.has_deprecated_name <==> item.share.name is Some && item.share.name->0@.len() > 0,
        metadata.share_id == item.share.id,
{
}

} // verus!

//! Photos: timeline entries, tags, albums and upload metadata.

use vstd::prelude::*;

use crate::ids::NodeUid;

verus! {

/// A photo on the timeline and when it was taken, in seconds since the epoch.
#[derive(Debug, Clone, PartialEq, Eq)]
pub struct PhotosTimelineItem {
    pub uid: NodeUid,
    pub capture_time: i64,
}

/// What a photo is classified as.
#[derive(Debug, Clone, Copy, PartialEq, Eq, Structural)]
pub enum PhotoTag {
    Favorite,
    Screenshot,
    Video,
    LivePhoto,
    MotionPhoto,
    Selfie,
    Portrait,
    Burst,
    Panorama,
    Raw,
}

impl PhotoTag {
    /// The wire value of the tag.
    pub open spec fn wire(self) -> int {
        match self {
            PhotoTag::Favorite => 0,
            PhotoTag::Screenshot => 1,
            PhotoTag::Video => 2,
            PhotoTag::LivePhoto => 3,
            PhotoTag::MotionPhoto => 4,
            PhotoTag::Selfie => 5,
            PhotoTag::Portrait => 6,
            PhotoTag::Burst => 7,
            PhotoTag::Panorama => 8,
            PhotoTag::Raw => 9,
        }
    }

    /// The tag with wire value `raw`, where there is one.
    pub open spec fn with_wire(raw: int) -> Option<PhotoTag> {
        if raw == 0 {
            Some(PhotoTag::Favorite)
        } else if raw == 1 {
            Some(PhotoTag::Screenshot)
        } else if raw == 2 {
            Some(PhotoTag::Video)
        } else if raw == 3 {
            Some(PhotoTag::LivePhoto)
        } else if raw == 4 {
            Some(PhotoTag::MotionPhoto)
        } else if raw == 5 {
            Some(PhotoTag::Selfie)
        } else if raw == 6 {
            Some(PhotoTag::Portrait)
        } else if raw == 7 {
            Some(PhotoTag::Burst)
        } else if raw == 8 {
            Some(PhotoTag::Panorama)
        } else if raw == 9 {
            Some(PhotoTag::Raw)
        } else {
            None
        }
    }

    pub fn as_i32(self) -> (r: i32)
        ensures
            r == self.wire(),
    {
        match self {
            PhotoTag::Favorite => 0,
            PhotoTag::Screenshot => 1,
            PhotoTag::Video => 2,
            PhotoTag::LivePhoto => 3,
            PhotoTag::MotionPhoto => 4,
            PhotoTag::Selfie => 5,
            PhotoTag::Portrait => 6,
            PhotoTag::Burst => 7,
            PhotoTag::Panorama => 8,
            PhotoTag::Raw => 9,
        }
    }

    /// The tag with a wire value. A value without a tag gives `None`, and is no
    /// error: there may be newer tags.
    pub fn from_raw(value: i32) -> (r: Option<PhotoTag>)
        ensures
            r == PhotoTag::with_wire(value as int),
    {
        match value {
            0 => Some(PhotoTag::Favorite),
            1 => Some(PhotoTag::Screenshot),
            2 => Some(PhotoTag::Video),
            3 => Some(PhotoTag::LivePhoto),
            4 => Some(PhotoTag::MotionPhoto),
            5 => Some(PhotoTag::Selfie),
            6 => Some(PhotoTag::Portrait),
            7 => Some(PhotoTag::Burst),
            8 => Some(PhotoTag::Panorama),
            9 => Some(PhotoTag::Raw),
            _ => None,
        }
    }
}

/// A tag survives the wire.
pub proof fn law_photo_tag_survives_the_wire(tag: PhotoTag, raw: int)
    ensures
        PhotoTag::with_wire(tag.wire()) == Some(tag),
        PhotoTag::with_wire(raw) is Some ==> PhotoTag::with_wire(raw)->0.wire() == raw,
        PhotoTag::with_wire(raw) is Some <==> 0 <= raw <= 9,
{
}

/// Each tag has its number.
pub proof fn law_numbers_of_tags()
    ensures
        PhotoTag::Favorite.wire() == 0,
        PhotoTag::Screenshot.wire() == 1,
        PhotoTag::Video.wire() == 2,
        PhotoTag::LivePhoto.wire() == 3,
        PhotoTag::MotionPhoto.wire() == 4,
        PhotoTag::Selfie.wire() == 5,
        PhotoTag::Portrait.wire() == 6,
        PhotoTag::Burst.wire() == 7,
        PhotoTag::Panorama.wire() == 8,
        PhotoTag::Raw.wire() == 9,
{
}

/// The tags to set on a photo and the tags to take off it.
#[derive(Debug, Clone, PartialEq, Eq)]
pub struct PhotoTagsUpdate {
    pub node_uid: NodeUid,
    pub tags_to_add: Vec<PhotoTag>,
    pub tags_to_remove: Vec<PhotoTag>,
}

/// A photo of an album and when it was taken.
#[derive(Debug, Clone, PartialEq, Eq)]
pub struct AlbumItem {
    pub uid: NodeUid,
    pub capture_time: i64,
}

/// What the caller says about a photo to be uploaded. All of it is optional.
#[derive(Debug, Clone, PartialEq, Eq)]
pub struct PhotoUploadMetadata {
    pub capture_time: Option<i64>,
    pub main_photo_uid: Option<NodeUid>,
    pub tags: Vec<PhotoTag>,
}

impl Default for PhotoUploadMetadata {
    fn default() -> (r: PhotoUploadMetadata)
        ensures
            r.capture_time is None,
            r.main_photo_uid is None,
            r.tags@.len() == 0,
    {
        PhotoUploadMetadata { capture_time: None, main_photo_uid: None, tags: Vec::new() }
    }
}

} // verus!

//! Identifiers. Each is a wrapped string; a node is addressed by its volume and
//! its link within that volume.

use vstd::prelude::*;
use vstd::string::StringExecFns;

use crate::text::{owned, same_text};

verus! {

/// A volume.
#[derive(Debug, PartialEq, Eq, Hash)]
pub struct VolumeId {
    pub value: String,
}

impl View for VolumeId {
    type V = Seq<char>;

    open spec fn view(&self) -> Seq<char> {
        self.value@
    }
}

impl VolumeId {
    /// The identifier written `value`.
    pub fn new(value: &str) -> (id: VolumeId)
        ensures
            id@ == value@,
    {
        VolumeId { value: owned(value) }
    }

    /// The identifier as text.
    pub fn as_str(&self) -> (s: &str)
        ensures
            s@ == self@,
    {
        self.value.as_str()
    }

    /// Whether both name the same thing.
    pub fn same_as(&self, other: &VolumeId) -> (r: bool)
        ensures
            r == (self@ == other@),
    {
        same_text(self.as_str(), other.as_str())
    }
}

impl Clone for VolumeId {
    fn clone(&self) -> (r: VolumeId)
        ensures
            r == *self,
    {
        VolumeId { value: self.value.clone() }
    }
}

/// A link (a file, a folder, a photo or an album) within a volume.
#[derive(Debug, PartialEq, Eq, Hash)]
pub struct LinkId {
    pub value: String,
}

impl View for LinkId {
    type V = Seq<char>;

    open spec fn view(&self) -> Seq<char> {
        self.value@
    }
}

impl LinkId {
    /// The identifier written `value`.
    pub fn new(value: &str) -> (id: LinkId)
        ensures
            id@ == value@,
    {
        LinkId { value: owned(value) }
    }

    /// The identifier as text.
    pub fn as_str(&self) -> (s: &str)
        ensures
            s@ == self@,
    {
        self.value.as_str()
    }

    /// Whether both name the same thing.
    pub fn same_as(&self, other: &LinkId) -> (r: bool)
        ensures
            r == (self@ == other@),
    {
        same_text(self.as_str(), other.as_str())
    }
}

impl Clone for LinkId {
    fn clone(&self) -> (r: LinkId)
        ensures
            r == *self,
    {
        LinkId { value: self.value.clone() }
    }
}

/// A share: the grant through which a subtree is reached.
#[derive(Debug, PartialEq, Eq, Hash)]
pub struct ShareId {
    pub value: String,
}

impl View for ShareId {
    type V = Seq<char>;

    open spec fn view(&self) -> Seq<char> {
        self.value@
    }
}

impl ShareId {
    /// The identifier written `value`.
    pub fn new(value: &str) -> (id: ShareId)
        ensures
            id@ == value@,
    {
        ShareId { value: owned(value) }
    }

    /// The identifier as text.
    pub fn as_str(&self) -> (s: &str)
        ensures
            s@ == self@,
    {
        self.value.as_str()
    }

    /// Whether both name the same thing.
    pub fn same_as(&self, other: &ShareId) -> (r: bool)
        ensures
            r == (self@ == other@),
    {
        same_text(self.as_str(), other.as_str())
    }
}

impl Clone for ShareId {
    fn clone(&self) -> (r: ShareId)
        ensures
            r == *self,
    {
        ShareId { value: self.value.clone() }
    }
}

/// A position in a volume's event stream.
#[derive(Debug, PartialEq, Eq, Hash)]
pub struct DriveEventId {
    pub value: String,
}

impl View for DriveEventId {
    type V = Seq<char>;

    open spec fn view(&self) -> Seq<char> {
        self.value@
    }
}

impl DriveEventId {
    /// The identifier written `value`.
    pub fn new(value: &str) -> (id: DriveEventId)
        ensures
            id@ == value@,
    {
        DriveEventId { value: owned(value) }
    }

    /// The identifier as text.
    pub fn as_str(&self) -> (s: &str)
        ensures
            s@ == self@,
    {
        self.value.as_str()
    }

    /// Whether both name the same thing.
    pub fn same_as(&self, other: &DriveEventId) -> (r: bool)
        ensures
            r == (self@ == other@),
    {
        same_text(self.as_str(), other.as_str())
    }
}

impl Clone for DriveEventId {
    fn clone(&self) -> (r: DriveEventId)
        ensures
            r == *self,
    {
        DriveEventId { value: self.value.clone() }
    }
}

/// A node: a link within a volume.
#[derive(Debug, PartialEq, Eq, Hash)]
pub struct NodeUid {
    pub volume_id: VolumeId,
    pub link_id: LinkId,
}

impl View for NodeUid {
    type V = (Seq<char>, Seq<char>);

    open spec fn view(&self) -> (Seq<char>, Seq<char>) {
        (self.volume_id@, self.link_id@)
    }
}

/// How a node is written in messages: `volume~link`.
pub open spec fn uid_text(uid: (Seq<char>, Seq<char>)) -> Seq<char> {
    uid.0 + seq!['~'] + uid.1
}

impl NodeUid {
    pub fn new(volume_id: VolumeId, link_id: LinkId) -> (uid: NodeUid)
        ensures
            uid.volume_id == volume_id,
            uid.link_id == link_id,
            uid@ == (volume_id@, link_id@),
    {
        NodeUid { volume_id, link_id }
    }

    /// Whether both name the same node.
    pub fn same_as(&self, other: &NodeUid) -> (r: bool)
        ensures
            r == (self@ == other@),
    {
        self.volume_id.same_as(&other.volume_id) && self.link_id.same_as(&other.link_id)
    }

    /// `volume~link`.
    pub fn to_text(&self) -> (s: String)
        ensures
            s@ == uid_text(self@),
    {
        let mut out: String = owned(self.volume_id.as_str());
        out.push('~');
        out.append(self.link_id.as_str());
        assert(out@ =~= uid_text(self@));
        out
    }
}

impl Clone for NodeUid {
    fn clone(&self) -> (r: NodeUid)
        ensures
            r == *self,
    {
        NodeUid { volume_id: self.volume_id.clone(), link_id: self.link_id.clone() }
    }
}

/// A node is written as its volume and its link with a tilde between them.
pub proof fn law_nodes_are_written_with_a_tilde(volume: Seq<char>, link: Seq<char>)
    ensures
        uid_text((volume, link)).len() == volume.len() + 1 + link.len(),
        uid_text((volume, link)).take(volume.len() as int) == volume,
        uid_text((volume, link))[volume.len() as int] == '~',
        uid_text((volume, link)).skip(volume.len() as int + 1) == link,
{
    let text = uid_text((volume, link));
    assert(text.take(volume.len() as int) =~= volume);
    assert(text.skip(volume.len() as int + 1) =~= link);
}

} // verus!

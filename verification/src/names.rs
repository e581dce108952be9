//! Node names: which are allowed, and how a free one is found.

use vstd::prelude::*;
use vstd::string::{StrSliceExecFns, StringExecFns};
use vstd::utf8::encode_utf8;

use crate::digest::{name_hash, name_hash_text};
use crate::dtos::NodeNameAvailabilityRequest;
use crate::error::{invalid, ProtonError};
use crate::ids::NodeUid;
use crate::text::{
    chars_of, decimal, lemma_decimal_injective, owned, position_of, push_chars, push_decimal,
    string_of, texts,
};

verus! {

/// The longest name a node can have, in characters.
pub const MAX_NODE_NAME_LENGTH: usize = 255;

/// How many candidate names are asked about at once.
pub const NAME_AVAILABILITY_BATCH: usize = 10;

/// Refuses a name that is empty or too long. The length is counted in characters.
pub fn validate_node_name(name: &str) -> (r: Result<(), ProtonError>)
    ensures
        match r {
            Ok(()) => 0 < name@.len() <= MAX_NODE_NAME_LENGTH,
            Err(e) => if name@.len() == 0 {
                invalid(e, "Name must not be empty"@)
            } else {
                name@.len() > MAX_NODE_NAME_LENGTH && invalid(
                    e,
                    "Name must be 255 characters long at most"@,
                )
            },
        },
{
    if name.is_empty() {
        return Err(ProtonError::invalid_operation("Name must not be empty"));
    }
    if name.unicode_len() > MAX_NODE_NAME_LENGTH {
        return Err(ProtonError::invalid_operation("Name must be 255 characters long at most"));
    }
    Ok(())
}

// ---------------------------------------------------------------------------
// Alternate names
// ---------------------------------------------------------------------------

/// Where the extension starts: at the last dot, or behind the name when it has
/// none.
pub open spec fn extension_start(name: Seq<char>) -> int
    decreases name.len(),
{
    if name.len() == 0 {
        0
    } else if name.last() == '.' {
        name.len() - 1
    } else if name.drop_last().contains('.') {
        extension_start(name.drop_last())
    } else {
        name.len() as int
    }
}

/// The name with `(i)` before its extension.
pub open spec fn alternate(name: Seq<char>, i: nat) -> Seq<char> {
    let start = extension_start(name);
    name.take(start) + " ("@ + decimal(i) + ")"@ + name.skip(start)
}

/// The name to try in place `k`: the name itself, then its alternates.
pub open spec fn candidate(name: Seq<char>, k: nat) -> Seq<char> {
    if k == 0 {
        name
    } else {
        alternate(name, k)
    }
}

proof fn lemma_extension_start(name: Seq<char>)
    ensures
        0 <= extension_start(name) <= name.len(),
        name.contains('.') ==> extension_start(name) < name.len() && name[extension_start(name)]
            == '.',
        forall|i: int| extension_start(name) < i < name.len() ==> name[i] != '.',
        !name.contains('.') ==> extension_start(name) == name.len(),
    decreases name.len(),
{
    if name.len() > 0 {
        let shorter = name.drop_last();
        lemma_extension_start(shorter);
        if name.last() == '.' {
            assert(name[name.len() - 1] == '.');
        } else {
            if name.contains('.') {
                let i = choose|i: int| 0 <= i < name.len() && name[i] == '.';
                assert(shorter[i] == '.');
                assert(shorter.contains('.'));
            }
            if shorter.contains('.') {
                let i = choose|i: int| 0 <= i < shorter.len() && shorter[i] == '.';
                assert(name[i] == '.');
                assert forall|i: int| extension_start(name) < i < name.len() implies name[i]
                    != '.' by {
                    if i < shorter.len() {
                        assert(shorter[i] == name[i]);
                    }
                }
            }
        }
    }
}

/// Where the extension of a name starts.
fn find_extension(name: &Vec<char>) -> (start: usize)
    ensures
        start == extension_start(name@),
        start <= name@.len(),
{
    proof {
        lemma_extension_start(name@);
    }
    let mut i: usize = name.len();
    while i > 0
        invariant
            i <= name@.len(),
            forall|j: int| i <= j < name@.len() ==> name@[j] != '.',
        decreases i,
    {
        if name[i - 1] == '.' {
            proof {
                lemma_extension_start(name@);
                assert(name@.contains('.'));
            }
            return i - 1;
        }
        i -= 1;
    }
    name.len()
}

/// The name with `(i)` before its extension.
pub fn alternate_name(original: &str, i: u64) -> (r: String)
    ensures
        r@ == alternate(original@, i as nat),
{
    let chars: Vec<char> = chars_of(original);
    let start: usize = find_extension(&chars);
    let mut out: String = string_of(&chars, 0, start);
    out.append(" (");
    push_decimal(&mut out, i);
    out.append(")");
    push_chars(&mut out, &chars, start, chars.len());
    assert(chars@.subrange(0, start as int) =~= original@.take(start as int));
    assert(chars@.subrange(start as int, chars@.len() as int) =~= original@.skip(start as int));
    out
}

/// The first `count` alternates of a name: `name (1).ext`, `name (2).ext` and so
/// on.
pub fn alternate_names(original: &str, count: usize) -> (r: Vec<String>)
    ensures
        r@.len() == count,
        forall|i: int| 0 <= i < count ==> (#[trigger] r@[i])@ == alternate(original@, (i + 1) as nat),
{
    let mut out: Vec<String> = Vec::new();
    let mut i: usize = 0;
    while i < count
        invariant
            i <= count,
            out@.len() == i,
            forall|j: int|
                0 <= j < i ==> (#[trigger] out@[j])@ == alternate(original@, (j + 1) as nat),
        decreases count - i,
    {
        i += 1;
        out.push(alternate_name(original, i as u64));
    }
    out
}

/// No two alternates of a name are equal, and none equals the name itself.
pub proof fn law_candidates_differ(name: Seq<char>, j: nat, k: nat)
    requires
        j != k,
    ensures
        candidate(name, j) != candidate(name, k),
{
    lemma_extension_start(name);
    reveal_strlit(" (");
    reveal_strlit(")");
    let start = extension_start(name);
    if j > 0 && k > 0 && candidate(name, j) == candidate(name, k) {
        let tail = ")"@ + name.skip(start);
        let head = name.take(start) + " ("@;
        let s = alternate(name, j);
        let t = alternate(name, k);
        assert(s =~= head + decimal(j) + tail);
        assert(t =~= head + decimal(k) + tail);
        assert(decimal(j).len() == decimal(k).len());
        assert(decimal(j) =~= s.subrange(head.len() as int, (head.len() + decimal(j).len()) as int));
        assert(decimal(k) =~= t.subrange(head.len() as int, (head.len() + decimal(k).len()) as int));
        lemma_decimal_injective(j, k);
    }
    if j == 0 {
        assert(alternate(name, k).len() > name.len());
    }
    if k == 0 {
        assert(alternate(name, j).len() > name.len());
    }
}

/// An alternate keeps the extension, which is what follows the last dot.
pub proof fn law_alternates_keep_the_extension(name: Seq<char>, i: nat)
    ensures
        name.skip(extension_start(name)).is_suffix_of(alternate(name, i)),
        name.take(extension_start(name)).is_prefix_of(alternate(name, i)),
        name.contains('.') ==> name.skip(extension_start(name))[0] == '.' && !name.skip(
            extension_start(name),
        ).skip(1).contains('.'),
        !name.contains('.') ==> name.skip(extension_start(name)).len() == 0,
{
    lemma_extension_start(name);
    let start = extension_start(name);
    let ext = name.skip(start);
    let whole = alternate(name, i);
    assert(ext =~= whole.subrange(whole.len() - ext.len(), whole.len() as int));
    assert(name.take(start) =~= whole.subrange(0, start));
    if name.contains('.') {
        let rest = ext.skip(1);
        assert forall|k: int| 0 <= k < rest.len() implies rest[k] != '.' by {
            assert(rest[k] == name[start + 1 + k]);
        }
    }
}

/// An alternate name has its number between the stem and the extension: the extension
/// begins at the last dot, and a name without one has none.
pub proof fn law_alternates_are_numbered_before_the_extension(
    stem: Seq<char>,
    extension: Seq<char>,
    i: nat,
)
    requires
        extension.len() > 0 ==> extension[0] == '.' && !extension.skip(1).contains('.'),
        extension.len() == 0 ==> !stem.contains('.'),
    ensures
        alternate(stem + extension, i) == stem + " ("@ + decimal(i) + ")"@ + extension,
        candidate(stem + extension, 0) == stem + extension,
        i > 0 ==> candidate(stem + extension, i) == stem + " ("@ + decimal(i) + ")"@ + extension,
{
    let name = stem + extension;
    law_alternates_keep_the_extension(name, i);
    let start = extension_start(name);
    lemma_extension_start_inside(name);
    if extension.len() > 0 {
        assert(name[stem.len() as int] == '.');
        assert(name.contains('.'));
        let ending = name.skip(start);
        if start < stem.len() {
            assert(ending.skip(1)[stem.len() - start - 1] == name[stem.len() as int]);
        } else if start > stem.len() {
            assert(extension.skip(1)[start - stem.len() - 1] == name[start]);
            assert(ending[0] == name[start]);
        }
    } else {
        assert(name =~= stem);
        assert(start == stem.len());
    }
    assert(name.take(start) =~= stem);
    assert(name.skip(start) =~= extension);
}

proof fn lemma_extension_start_inside(name: Seq<char>)
    ensures
        0 <= extension_start(name) <= name.len(),
        name.contains('.') ==> extension_start(name) < name.len(),
    decreases name.len(),
{
    if name.len() > 0 && name.last() != '.' {
        if name.drop_last().contains('.') {
            lemma_extension_start_inside(name.drop_last());
        } else if name.contains('.') {
            let i = name.index_of('.');
            assert(name.drop_last()[i] == '.');
        }
    }
}

// ---------------------------------------------------------------------------
// Finding a free name
// ---------------------------------------------------------------------------

/// A batch of candidate names with their hashes.
#[derive(Debug, PartialEq, Eq)]
pub struct NameBatch {
    pub names: Vec<String>,
    pub hashes: Vec<String>,
}

/// The search for a free name in a folder: the name itself, then its alternates,
/// [`NAME_AVAILABILITY_BATCH`] at a time.
#[derive(Debug, PartialEq, Eq)]
pub struct NameSearch {
    pub name: String,
    pub tried: u64,
}

impl NameSearch {
    pub fn new(name: &str) -> (search: NameSearch)
        ensures
            search.name@ == name@,
            search.tried == 0,
    {
        NameSearch { name: owned(name), tried: 0 }
    }

    /// The next candidates, each with its hash under the hash key of the folder.
    pub fn next_batch(&mut self, hash_key: &[u8]) -> (batch: NameBatch)
        requires
            old(self).tried + NAME_AVAILABILITY_BATCH <= u64::MAX,
        ensures
            final(self).name == old(self).name,
            final(self).tried == old(self).tried + NAME_AVAILABILITY_BATCH,
            batch.names@.len() == NAME_AVAILABILITY_BATCH,
            batch.hashes@.len() == NAME_AVAILABILITY_BATCH,
            forall|i: int|
                0 <= i < NAME_AVAILABILITY_BATCH ==> (#[trigger] batch.names@[i])@ == candidate(
                    old(self).name@,
                    (old(self).tried + i) as nat,
                ),
            forall|i: int|
                0 <= i < NAME_AVAILABILITY_BATCH ==> (#[trigger] batch.hashes@[i])@
                    == name_hash_text(hash_key@, encode_utf8(batch.names@[i]@)),
    {
        let mut names: Vec<String> = Vec::new();
        let mut hashes: Vec<String> = Vec::new();
        let mut i: usize = 0;
        while i < NAME_AVAILABILITY_BATCH
            invariant
                i <= NAME_AVAILABILITY_BATCH,
                self.tried + NAME_AVAILABILITY_BATCH <= u64::MAX,
                names@.len() == i,
                hashes@.len() == i,
                forall|j: int|
                    0 <= j < i ==> (#[trigger] names@[j])@ == candidate(
                        self.name@,
                        (self.tried + j) as nat,
                    ),
                forall|j: int|
                    0 <= j < i ==> (#[trigger] hashes@[j])@ == name_hash_text(
                        hash_key@,
                        encode_utf8(names@[j]@),
                    ),
            decreases NAME_AVAILABILITY_BATCH - i,
        {
            let k: u64 = self.tried + i as u64;
            let name: String = if k == 0 {
                self.name.clone()
            } else {
                alternate_name(self.name.as_str(), k)
            };
            hashes.push(name_hash(hash_key, name.as_str().as_bytes()));
            names.push(name);
            i += 1;
        }
        self.tried = self.tried + NAME_AVAILABILITY_BATCH as u64;
        NameBatch { names, hashes }
    }
}

/// Whether candidate `i` is the first one whose hash is free.
pub open spec fn first_available(
    hashes: Seq<Seq<char>>,
    available: Seq<Seq<char>>,
    i: int,
) -> bool {
    &&& 0 <= i < hashes.len()
    &&& available.contains(hashes[i])
    &&& forall|j: int| 0 <= j < i ==> !available.contains(#[trigger] hashes[j])
}

impl NameBatch {
    /// The question whether the candidates are free.
    pub fn request(&self, client_uid: &str) -> (r: NodeNameAvailabilityRequest)
        ensures
            texts(r.name_hashes@) == texts(self.hashes@),
            texts(r.client_uid@) == seq![client_uid@],
    {
        let mut name_hashes: Vec<String> = Vec::new();
        let mut i: usize = 0;
        while i < self.hashes.len()
            invariant
                i <= self.hashes@.len(),
                name_hashes@.len() == i,
                forall|j: int| 0 <= j < i ==> (#[trigger] name_hashes@[j])@ == self.hashes@[j]@,
            decreases self.hashes@.len() - i,
        {
            name_hashes.push(self.hashes[i].clone());
            i += 1;
        }
        let mut uids: Vec<String> = Vec::new();
        uids.push(owned(client_uid));
        assert(texts(name_hashes@) =~= texts(self.hashes@));
        assert(texts(uids@) =~= seq![client_uid@]);
        NodeNameAvailabilityRequest { name_hashes, client_uid: uids }
    }

    /// The name to take, given the hashes that the server reports free: the first
    /// candidate whose hash is among them, in whatever order they come. `None` when
    /// the whole batch is taken.
    pub fn first_free(&self, available: &Vec<String>) -> (r: Result<Option<String>, ProtonError>)
        requires
            self.names@.len() == self.hashes@.len(),
        ensures
            match r {
                Ok(None) => available@.len() == 0,
                Ok(Some(name)) => exists|i: int| #[trigger]
                    first_available(texts(self.hashes@), texts(available@), i) && name
                        == self.names@[i],
                Err(e) => available@.len() > 0 && (forall|i: int|
                    0 <= i < self.hashes@.len() ==> !texts(available@).contains(
                        (#[trigger] self.hashes@[i])@,
                    )) && invalid(e, "server returned an unknown name hash digest"@),
            },
    {
        if available.is_empty() {
            return Ok(None);
        }
        let mut i: usize = 0;
        while i < self.hashes.len()
            invariant
                i <= self.hashes@.len(),
                self.names@.len() == self.hashes@.len(),
                forall|j: int|
                    0 <= j < i ==> !texts(available@).contains((#[trigger] self.hashes@[j])@),
            decreases self.hashes@.len() - i,
        {
            match position_of(available, self.hashes[i].as_str()) {
                Some(k) => {
                    proof {
                        let hashes = texts(self.hashes@);
                        assert(texts(available@)[k as int] == hashes[i as int]);
                        assert forall|j: int| 0 <= j < i implies !texts(available@).contains(
                            #[trigger] hashes[j],
                        ) by {
                            assert(hashes[j] == self.hashes@[j]@);
                        }
                        assert(first_available(hashes, texts(available@), i as int));
                    }
                    return Ok(Some(self.names[i].clone()));
                },
                None => {},
            }
            i += 1;
        }
        Err(ProtonError::invalid_operation("server returned an unknown name hash digest"))
    }
}

/// A name that is free is taken unchanged: where the server reports the hash of the
/// first candidate free, no other candidate is the first one that is.
pub proof fn law_a_free_name_is_kept(
    hashes: Seq<Seq<char>>,
    available: Seq<Seq<char>>,
    i: int,
)
    requires
        hashes.len() > 0,
        available.contains(hashes[0]),
    ensures
        first_available(hashes, available, i) <==> i == 0,
{
}

/// The route that tells which name hashes are free in a folder.
pub fn name_availability_path(parent: &NodeUid) -> (path: String)
    ensures
        path@ == "v2/volumes/"@ + parent@.0 + "/links/"@ + parent@.1 + "/checkAvailableHashes"@,
{
    let mut path: String = owned("v2/volumes/");
    path.append(parent.volume_id.as_str());
    path.append("/links/");
    path.append(parent.link_id.as_str());
    path.append("/checkAvailableHashes");
    path
}

} // verus!

//! The addresses of the account: which of them signs, and how an address is looked
//! up by what somebody typed.

use vstd::prelude::*;

use crate::error::{invalid, ProtonError};
use crate::text::{first_text, joined, position_of, same_text, texts};

verus! {

/// An address of the account. Of its keys one is the primary one.
#[derive(Debug, PartialEq, Eq)]
pub struct OwnAddress {
    pub id: String,
    pub email: String,
    pub primary_key_index: usize,
    pub primary_key_id: String,
}

impl Clone for OwnAddress {
    fn clone(&self) -> (r: OwnAddress)
        ensures
            r == *self,
    {
        OwnAddress {
            id: self.id.clone(),
            email: self.email.clone(),
            primary_key_index: self.primary_key_index,
            primary_key_id: self.primary_key_id.clone(),
        }
    }
}

/// A text in lower case.
pub uninterp spec fn lowercase_of(text: Seq<char>) -> Seq<char>;

/// `str::to_lowercase` of the standard library: the text in lower case, by the
/// mapping that Unicode gives.
#[verifier::external_body]
pub(crate) fn lowercase(text: &str) -> (lower: String)
    ensures
        lower@ == lowercase_of(text@),
{
    text.to_lowercase()
}

/// Whether address `i` is the first one with the id.
pub open spec fn first_with_id(addresses: Seq<OwnAddress>, id: Seq<char>, i: int) -> bool {
    &&& 0 <= i < addresses.len()
    &&& addresses[i].id@ == id
    &&& forall|j: int| 0 <= j < i ==> (#[trigger] addresses[j]).id@ != id
}

/// The address with the id.
pub fn membership_address(addresses: &Vec<OwnAddress>, id: &str) -> (r: Result<
    OwnAddress,
    ProtonError,
>)
    ensures
        match r {
            Ok(address) => exists|i: int| #[trigger]
                first_with_id(addresses@, id@, i) && address == addresses@[i],
            Err(e) => (forall|i: int| 0 <= i < addresses@.len() ==> (#[trigger] addresses@[i]).id@
                != id@) && invalid(e, "membership address not found"@),
        },
        r is Ok <==> exists|i: int| 0 <= i < addresses@.len() && (#[trigger] addresses@[i]).id@ == id@,
        r is Ok ==> r->Ok_0.id@ == id@ && addresses@.contains(r->Ok_0),
{
    let mut i: usize = 0;
    while i < addresses.len()
        invariant
            i <= addresses@.len(),
            forall|j: int| 0 <= j < i ==> (#[trigger] addresses@[j]).id@ != id@,
        decreases addresses@.len() - i,
    {
        if same_text(addresses[i].id.as_str(), id) {
            assert(first_with_id(addresses@, id@, i as int));
            return Ok(addresses[i].clone());
        }
        i += 1;
    }
    Err(ProtonError::invalid_operation("membership address not found"))
}

/// The id of the primary key of the address with the id.
pub fn address_primary_key_id(addresses: &Vec<OwnAddress>, id: &str) -> (r: Result<
    String,
    ProtonError,
>)
    ensures
        match r {
            Ok(key_id) => exists|i: int| #[trigger]
                first_with_id(addresses@, id@, i) && key_id == addresses@[i].primary_key_id,
            Err(e) => (forall|i: int| 0 <= i < addresses@.len() ==> (#[trigger] addresses@[i]).id@
                != id@) && invalid(e, "membership address not found"@),
        },
        r is Ok <==> exists|i: int| 0 <= i < addresses@.len() && (#[trigger] addresses@[i]).id@ == id@,
        r is Ok ==> exists|i: int|
            #![trigger addresses@[i]]
            0 <= i < addresses@.len() && addresses@[i].id@ == id@ && r->Ok_0
                == addresses@[i].primary_key_id && (forall|j: int|
                0 <= j < i ==> (#[trigger] addresses@[j]).id@ != id@),
{
    match membership_address(addresses, id) {
        Ok(address) => Ok(address.primary_key_id),
        Err(e) => Err(e),
    }
}

/// The mail addresses in lower case.
pub open spec fn folded_emails(addresses: Seq<OwnAddress>) -> Seq<Seq<char>> {
    Seq::new(addresses.len(), |i: int| lowercase_of(addresses[i].email@))
}

/// The account's address with the mail address, in any case.
pub fn own_address(addresses: &Vec<OwnAddress>, email: &str) -> (r: Result<OwnAddress, ProtonError>)
    ensures
        match r {
            Ok(address) => exists|i: int| #[trigger]
                first_text(folded_emails(addresses@), lowercase_of(email@), i) && address
                    == addresses@[i],
            Err(e) => !folded_emails(addresses@).contains(lowercase_of(email@)) && invalid(
                e,
                "no own address for "@ + email@,
            ),
        },
        r is Ok ==> lowercase_of(r->Ok_0.email@) == lowercase_of(email@) && addresses@.contains(r->Ok_0),
{
    let mut folded: Vec<String> = Vec::new();
    let mut i: usize = 0;
    while i < addresses.len()
        invariant
            i <= addresses@.len(),
            folded@.len() == i,
            forall|j: int|
                0 <= j < i ==> (#[trigger] folded@[j])@ == lowercase_of(addresses@[j].email@),
        decreases addresses@.len() - i,
    {
        folded.push(lowercase(addresses[i].email.as_str()));
        i += 1;
    }
    assert(texts(folded@) =~= folded_emails(addresses@));
    let wanted: String = lowercase(email);
    match position_of(&folded, wanted.as_str()) {
        Some(k) => Ok(addresses[k].clone()),
        None => Err(ProtonError::InvalidOperation(joined("no own address for ", email))),
    }
}

/// An address of ours is found by its mail address in any case, and the first one counts.
pub proof fn law_addresses_are_found_in_any_case(
    addresses: Seq<OwnAddress>,
    email: Seq<char>,
    id: Seq<char>,
    i: int,
)
    ensures
        folded_emails(addresses).contains(lowercase_of(email)) <==> exists|j: int|
            0 <= j < addresses.len() && lowercase_of((#[trigger] addresses[j]).email@)
                == lowercase_of(email),
        first_with_id(addresses, id, i) <==> 0 <= i < addresses.len() && addresses[i].id@ == id && (
        forall|j: int| 0 <= j < i ==> (#[trigger] addresses[j]).id@ != id),
        first_text(folded_emails(addresses), lowercase_of(email), i) ==> 0 <= i < addresses.len()
            && lowercase_of(addresses[i].email@) == lowercase_of(email),
{
    let folded = folded_emails(addresses);
    if folded.contains(lowercase_of(email)) {
        let j = folded.index_of(lowercase_of(email));
        assert(lowercase_of(addresses[j].email@) == lowercase_of(email));
    }
    if exists|j: int|
        0 <= j < addresses.len() && lowercase_of((#[trigger] addresses[j]).email@) == lowercase_of(
            email,
        ) {
        let j = choose|j: int|
            0 <= j < addresses.len() && lowercase_of((#[trigger] addresses[j]).email@)
                == lowercase_of(email);
        assert(folded[j] == lowercase_of(email));
    }
}

/// The address behind a signature. There is none where nobody put a name to it: such
/// a signature was made with the key that is at hand.
pub fn named_author<'a>(email: Option<&'a str>) -> (author: Option<&'a str>)
    ensures
        author == (if email is Some && email->0@.len() > 0 {
            email
        } else {
            None
        }),
{
    match email {
        Some(address) => {
            if address.unicode_len() > 0 {
                email
            } else {
                None
            }
        },
        None => None,
    }
}

/// The primary key of an address, out of its keys. `whose` says which address it
/// is.
pub fn primary_key(address: &OwnAddress, keys: &Vec<String>, whose: &str) -> (r: Result<
    String,
    ProtonError,
>)
    ensures
        match r {
            Ok(key) => address.primary_key_index < keys@.len() && key
                == keys@[address.primary_key_index as int],
            Err(e) => address.primary_key_index >= keys@.len() && invalid(
                e,
                whose@ + " has no primary key"@,
            ),
        },
{
    if address.primary_key_index < keys.len() {
        Ok(keys[address.primary_key_index].clone())
    } else {
        Err(ProtonError::InvalidOperation(joined(whose, " has no primary key")))
    }
}

} // verus!

//! Addresses of public links: `.../urls/{token}#{password}`. The password is made
//! up by the client and never leaves it but in the address.

use vstd::prelude::*;
use vstd::string::{StrSliceExecFns, StringExecFns};

use crate::error::{invalid, ProtonError};
use crate::text::{chars_of, joined, owned, string_of};

verus! {

/// The length of a password that the client makes up.
pub const PUBLIC_LINK_PASSWORD_LEN: usize = 12;

/// The length of a key salt.
pub const KEY_SALT_LEN: usize = 16;

// ---------------------------------------------------------------------------
// Taking an address apart
// ---------------------------------------------------------------------------

/// Whether the first `#` of the address is at `i`.
pub open spec fn first_hash(url: Seq<char>, i: int) -> bool {
    &&& 0 <= i < url.len()
    &&& url[i] == '#'
    &&& forall|j: int| 0 <= j < i ==> #[trigger] url[j] != '#'
}

/// Whether `/urls/` stands at `k`.
pub open spec fn container_at(s: Seq<char>, k: int) -> bool {
    0 <= k && k + 6 <= s.len() && s.subrange(k, k + 6) == "/urls/"@
}

/// Whether the last `/urls/` stands at `k`.
pub open spec fn last_container(s: Seq<char>, k: int) -> bool {
    &&& container_at(s, k)
    &&& forall|j: int| k < j ==> !#[trigger] container_at(s, j)
}

/// A text without the slashes at its end.
pub open spec fn without_end_slashes(s: Seq<char>) -> Seq<char>
    decreases s.len(),
{
    if s.len() > 0 && s.last() == '/' {
        without_end_slashes(s.drop_last())
    } else {
        s
    }
}

/// The token and the password of an address: the segment after the last `/urls/`
/// and what follows the first `#`. An address that lacks either has none.
pub open spec fn link_parts(url: Seq<char>) -> Option<(Seq<char>, Seq<char>)> {
    if !(exists|i: int| first_hash(url, i)) {
        None
    } else {
        let hash = choose|i: int| first_hash(url, i);
        let before = url.take(hash);
        let password = url.skip(hash + 1);
        if !(exists|k: int| last_container(before, k)) {
            None
        } else {
            let at = choose|k: int| last_container(before, k);
            let token = without_end_slashes(before.skip(at + 6));
            if token.len() == 0 || token.contains('/') || password.len() == 0 {
                None
            } else {
                Some((token, password))
            }
        }
    }
}

proof fn lemma_hash_is_one(url: Seq<char>, i: int)
    requires
        first_hash(url, i),
    ensures
        i == (choose|k: int| first_hash(url, k)),
{
    let k = choose|k: int| first_hash(url, k);
    if i < k {
        assert(url[i] != '#');
    } else if k < i {
        assert(url[k] != '#');
    }
}

proof fn lemma_container_is_one(s: Seq<char>, i: int)
    requires
        last_container(s, i),
    ensures
        i == (choose|k: int| last_container(s, k)),
{
    let k = choose|k: int| last_container(s, k);
    if i < k {
        assert(container_at(s, k));
    } else if k < i {
        assert(container_at(s, i));
    }
}

fn is_container(chars: &Vec<char>, k: usize, end: usize) -> (r: bool)
    requires
        end <= chars@.len(),
        k < end,
    ensures
        r == container_at(chars@.take(end as int), k as int),
{
    proof {
        reveal_strlit("/urls/");
    }
    let ghost s = chars@.take(end as int);
    if end - k < 6 {
        return false;
    }
    let r: bool = chars[k] == '/' && chars[k + 1] == 'u' && chars[k + 2] == 'r' && chars[k + 3]
        == 'l' && chars[k + 4] == 's' && chars[k + 5] == '/';
    proof {
        let part = s.subrange(k as int, k + 6);
        assert(part[0] == chars@[k as int] && part[1] == chars@[k + 1] && part[2] == chars@[k + 2]
            && part[3] == chars@[k + 3] && part[4] == chars@[k + 4] && part[5] == chars@[k + 5]);
        if r {
            assert(part =~= "/urls/"@);
        } else {
            assert("/urls/"@[0] == '/' && "/urls/"@[1] == 'u' && "/urls/"@[2] == 'r'
                && "/urls/"@[3] == 'l' && "/urls/"@[4] == 's' && "/urls/"@[5] == '/');
        }
    }
    r
}

/// The token and the password of the address of a public link.
pub fn parse_public_link_url(url: &str) -> (r: Result<(String, String), ProtonError>)
    ensures
        match link_parts(url@) {
            Some((token, password)) => r is Ok && (r->Ok_0).0@ == token && (r->Ok_0).1@ == password,
            None => r is Err && invalid(r->Err_0, "invalid public link url"@),
        },
{
    let chars: Vec<char> = chars_of(url);
    let n: usize = chars.len();
    let mut hash: usize = 0;
    while hash < n && chars[hash] != '#'
        invariant
            hash <= n == chars@.len(),
            forall|j: int| 0 <= j < hash ==> #[trigger] chars@[j] != '#',
        decreases n - hash,
    {
        hash += 1;
    }
    if hash == n {
        assert(forall|i: int| !first_hash(url@, i));
        return Err(ProtonError::invalid_operation("invalid public link url"));
    }
    proof {
        assert(first_hash(url@, hash as int));
        lemma_hash_is_one(url@, hash as int);
    }
    let ghost before = url@.take(hash as int);
    let mut at: usize = hash;
    let mut found: bool = false;
    while at > 0 && !found
        invariant
            at <= hash < chars@.len(),
            before == chars@.take(hash as int),
            found ==> container_at(before, at as int),
            forall|j: int|
                (if found {
                    at + 1
                } else {
                    at as int
                }) <= j ==> !#[trigger] container_at(before, j),
        decreases at,
    {
        at -= 1;
        if is_container(&chars, at, hash) {
            found = true;
        }
    }
    if !found {
        proof {
            assert forall|k: int| !last_container(before, k) by {
                if container_at(before, k) {
                    assert(0 <= k);
                }
            }
        }
        return Err(ProtonError::invalid_operation("invalid public link url"));
    }
    proof {
        assert(last_container(before, at as int));
        lemma_container_is_one(before, at as int);
    }
    let from: usize = at + 6;
    let mut to: usize = hash;
    let ghost rest = before.skip(from as int);
    assert(rest =~= chars@.subrange(from as int, hash as int));
    while to > from && chars[to - 1] == '/'
        invariant
            from <= to <= hash < chars@.len(),
            rest == chars@.subrange(from as int, hash as int),
            without_end_slashes(rest) == without_end_slashes(
                chars@.subrange(from as int, to as int),
            ),
        decreases to,
    {
        assert(chars@.subrange(from as int, to as int).drop_last() =~= chars@.subrange(
            from as int,
            to - 1,
        ));
        to -= 1;
    }
    let token: String = string_of(&chars, from, to);
    assert(token@ == without_end_slashes(rest));
    let mut slash: bool = false;
    let mut k: usize = from;
    while k < to
        invariant
            from <= k <= to <= chars@.len(),
            token@ == chars@.subrange(from as int, to as int),
            slash == exists|j: int| from <= j < k && #[trigger] chars@[j] == '/',
        decreases to - k,
    {
        if chars[k] == '/' {
            slash = true;
        }
        k += 1;
    }
    proof {
        if slash {
            let j = choose|j: int| from <= j < to && #[trigger] chars@[j] == '/';
            assert(token@[j - from] == '/');
        } else if token@.contains('/') {
            let j = choose|j: int| 0 <= j < token@.len() && token@[j] == '/';
            assert(chars@[from + j] == '/');
        }
        assert(url@.skip(hash + 1).len() == n - hash - 1);
    }
    if from == to || slash || hash + 1 == n {
        return Err(ProtonError::invalid_operation("invalid public link url"));
    }
    let password: String = string_of(&chars, hash + 1, n);
    assert(password@ =~= url@.skip(hash + 1));
    Ok((token, password))
}

// ---------------------------------------------------------------------------
// Putting an address together
// ---------------------------------------------------------------------------

/// The address of a public link: where it is, and the password after a `#`.
pub fn public_link_url(public_url: &str, password: &str) -> (url: String)
    ensures
        url@ == public_url@ + "#"@ + password@,
{
    let mut url: String = owned(public_url);
    url.append("#");
    url.append(password);
    url
}

/// The address of a link on the Drive site.
pub fn drive_link_url(token: &str, password: &str) -> (url: String)
    ensures
        url@ == "https://drive.proton.me/urls/"@ + token@ + "#"@ + password@,
{
    let mut url: String = owned("https://drive.proton.me/urls/");
    url.append(token);
    url.append("#");
    url.append(password);
    url
}

/// Taking an address apart gives back the token and the password that it was put
/// together from. A token holds no `/` and no `#`, and neither is empty; what comes
/// before may be anything without a `#`.
pub proof fn law_link_address_is_taken_apart(
    site: Seq<char>,
    token: Seq<char>,
    password: Seq<char>,
)
    requires
        token.len() > 0,
        password.len() > 0,
        !site.contains('#'),
        !token.contains('#'),
        !token.contains('/'),
    ensures
        link_parts(site + "/urls/"@ + token + "#"@ + password) == Some((token, password)),
{
    reveal_strlit("/urls/");
    reveal_strlit("#");
    let path = site + "/urls/"@ + token;
    let url = path + "#"@ + password;
    let hash = path.len() as int;
    let at = site.len() as int;
    assert forall|j: int| 0 <= j < hash implies #[trigger] url[j] != '#' by {
        if j < at {
            assert(url[j] == site[j]);
            assert(site.contains(site[j]));
        } else if j < at + 6 {
            assert(url[j] == "/urls/"@[j - at]);
        } else {
            assert(url[j] == token[j - at - 6]);
            assert(token.contains(token[j - at - 6]));
        }
    }
    assert(url[hash] == "#"@[0]);
    assert(first_hash(url, hash));
    lemma_hash_is_one(url, hash);
    assert(url.take(hash) =~= path);
    assert(url.skip(hash + 1) =~= password);
    assert(path.subrange(at, at + 6) =~= "/urls/"@);
    assert forall|j: int| at < j implies !#[trigger] container_at(path, j) by {
        if container_at(path, j) {
            let part = path.subrange(j, j + 6);
            assert(part[5] == '/' && part[0] == '/');
            assert(part[0] == path[j] && part[5] == path[j + 5]);
            if j + 5 >= at + 6 {
                assert(path[j + 5] == token[j + 5 - at - 6]);
                assert(token.contains(token[j + 5 - at - 6]));
            }
        }
    }
    assert(last_container(path, at));
    lemma_container_is_one(path, at);
    assert(path.skip(at + 6) =~= token);
    assert(token.contains(token.last()));
}

proof fn lemma_end_slashes(s: Seq<char>)
    ensures
        without_end_slashes(s).len() <= s.len(),
        s == without_end_slashes(s) + s.skip(without_end_slashes(s).len() as int),
        forall|i: int| without_end_slashes(s).len() <= i < s.len() ==> #[trigger] s[i] == '/',
        without_end_slashes(s).len() > 0 ==> without_end_slashes(s).last() != '/',
    decreases s.len(),
{
    if s.len() > 0 && s.last() == '/' {
        let shorter = s.drop_last();
        lemma_end_slashes(shorter);
        assert forall|i: int| without_end_slashes(s).len() <= i < s.len() implies #[trigger] s[i]
            == '/' by {
            if i < shorter.len() {
                assert(shorter[i] == '/');
            }
        }
        assert(s =~= without_end_slashes(s) + s.skip(without_end_slashes(s).len() as int)) by {
            assert forall|i: int| 0 <= i < without_end_slashes(s).len() implies #[trigger] s[i]
                == without_end_slashes(s)[i] by {
                assert(shorter[i] == s[i]);
            }
        }
    } else {
        assert(s =~= s + s.skip(s.len() as int));
    }
}

/// What is taken out of an address stands in it: the token behind `/urls/` and before
/// nothing but slashes and the first `#`, the password behind that. Neither is empty, and
/// the token is a single segment.
pub proof fn law_what_an_address_must_hold(url: Seq<char>)
    ensures
        !url.contains('#') ==> link_parts(url) is None,
        url.len() > 0 && url.last() == '#' && !url.drop_last().contains('#') ==> link_parts(url)
            is None,
        link_parts(url) matches Some((token, password)) ==> {
            &&& token.len() > 0
            &&& password.len() > 0
            &&& !token.contains('/')
            &&& !token.contains('#')
            &&& exists|site: Seq<char>, slashes: Seq<char>|
                #![trigger site + "/urls/"@ + token + slashes]
                url == site + "/urls/"@ + token + slashes + "#"@ + password && !site.contains('#')
                    && (forall|i: int| 0 <= i < slashes.len() ==> #[trigger] slashes[i] == '/')
        },
{
    reveal_strlit("#");
    if exists|i: int| first_hash(url, i) {
        let hash = choose|i: int| first_hash(url, i);
        assert(url.contains(url[hash]));
        let before = url.take(hash);
        let password = url.skip(hash + 1);
        if url.last() == '#' && !url.drop_last().contains('#') && hash < url.len() - 1 {
            assert(url.drop_last()[hash] == '#');
        }
        if link_parts(url) is Some {
            let at = choose|k: int| last_container(before, k);
            assert(container_at(before, at));
            let rest = before.skip(at + 6);
            let token = without_end_slashes(rest);
            lemma_end_slashes(rest);
            let slashes = rest.skip(token.len() as int);
            let site = before.take(at);
            assert(before =~= site + before.subrange(at, at + 6) + rest);
            assert(site + "/urls/"@ + token + slashes =~= before);
            assert(url =~= before + "#"@ + password);
            assert forall|i: int| 0 <= i < token.len() implies token[i] != '#' by {
                assert(token[i] == rest[i]);
                assert(rest[i] == url[at + 6 + i]);
            }
            assert forall|i: int| 0 <= i < slashes.len() implies #[trigger] slashes[i] == '/' by {
                assert(slashes[i] == rest[token.len() + i]);
            }
            assert(!site.contains('#'));
        }
    }
}

proof fn lemma_no_later_container(site: Seq<char>, token: Seq<char>, slashes: Seq<char>, j: int)
    requires
        !token.contains('/'),
        token != "urls"@,
        forall|i: int| 0 <= i < slashes.len() ==> #[trigger] slashes[i] == '/',
        site.len() < j,
    ensures
        !container_at(site + "/urls/"@ + token + slashes, j),
{
    reveal_strlit("/urls/");
    reveal_strlit("urls");
    let path = site + "/urls/"@ + token + slashes;
    let at = site.len() as int;
    let end = at + 6 + token.len();
    if container_at(path, j) {
        let part = path.subrange(j, j + 6);
        assert(part[0] == path[j] && part[1] == path[j + 1] && part[5] == path[j + 5]);
        assert(path[j] == '/' && path[j + 1] == 'u' && path[j + 5] == '/');
        if j < at + 6 {
            assert(path[j] == "/urls/"@[j - at]);
            assert(j == at + 5);
            if end > j + 5 {
                assert(path[j + 5] == token[4]);
                assert(token.contains(token[4]));
            } else if end < j + 5 {
                assert(path[end] == slashes[0]);
                assert(part[end - j] == path[end]);
            } else {
                assert(part[1] == token[0] && part[2] == token[1] && part[3] == token[2] && part[4]
                    == token[3]);
                assert(token =~= "urls"@);
            }
        } else if j < end {
            assert(path[j] == token[j - at - 6]);
            assert(token.contains(token[j - at - 6]));
        } else {
            assert(path[j + 1] == slashes[j + 1 - end]);
        }
    }
}

proof fn lemma_slashes_taken_off(token: Seq<char>, slashes: Seq<char>)
    requires
        !token.contains('/'),
        forall|i: int| 0 <= i < slashes.len() ==> #[trigger] slashes[i] == '/',
    ensures
        without_end_slashes(token + slashes) == token,
    decreases slashes.len(),
{
    let rest = token + slashes;
    if slashes.len() > 0 {
        assert(slashes[slashes.len() - 1] == '/');
        assert(rest.drop_last() =~= token + slashes.drop_last());
        lemma_slashes_taken_off(token, slashes.drop_last());
    } else {
        assert(rest =~= token);
        if token.len() > 0 {
            assert(token.contains(token.last()));
        }
    }
}

/// Slashes behind the token count for nothing.
pub proof fn law_slashes_behind_the_token_count_for_nothing(
    site: Seq<char>,
    token: Seq<char>,
    slashes: Seq<char>,
    password: Seq<char>,
)
    requires
        token.len() > 0,
        password.len() > 0,
        !site.contains('#'),
        !token.contains('#'),
        !token.contains('/'),
        token != "urls"@,
        forall|i: int| 0 <= i < slashes.len() ==> #[trigger] slashes[i] == '/',
    ensures
        link_parts(site + "/urls/"@ + token + slashes + "#"@ + password) == Some((token, password)),
{
    reveal_strlit("/urls/");
    reveal_strlit("#");
    let path = site + "/urls/"@ + token + slashes;
    let url = path + "#"@ + password;
    let hash = path.len() as int;
    let at = site.len() as int;
    assert(first_hash(url, hash)) by {
        assert forall|j: int| 0 <= j < hash implies #[trigger] url[j] != '#' by {
            if j < at {
                assert(url[j] == site[j]);
                assert(site.contains(site[j]));
            } else if j < at + 6 {
                assert(url[j] == "/urls/"@[j - at]);
            } else if j < at + 6 + token.len() {
                assert(url[j] == token[j - at - 6]);
                assert(token.contains(token[j - at - 6]));
            } else {
                assert(url[j] == slashes[j - at - 6 - token.len()]);
            }
        }
        assert(url[hash] == "#"@[0]);
    }
    lemma_hash_is_one(url, hash);
    assert(url.take(hash) =~= path);
    assert(url.skip(hash + 1) =~= password);
    assert(last_container(path, at)) by {
        assert(path.subrange(at, at + 6) =~= "/urls/"@);
        assert forall|j: int| at < j implies !#[trigger] container_at(path, j) by {
            lemma_no_later_container(site, token, slashes, j);
        }
    }
    lemma_container_is_one(path, at);
    assert(path.skip(at + 6) =~= token + slashes);
    lemma_slashes_taken_off(token, slashes);
}

// ---------------------------------------------------------------------------
// Passwords
// ---------------------------------------------------------------------------

/// Character `v` of the alphabet of passwords: capitals, small letters, digits.
pub open spec fn password_char(v: int) -> char {
    if v < 26 {
        (('A' as u32) + v) as char
    } else if v < 52 {
        (('a' as u32) + v - 26) as char
    } else {
        (('0' as u32) + v - 52) as char
    }
}

/// The password that random bytes stand for.
pub open spec fn password_of(raw: Seq<u8>) -> Seq<char> {
    Seq::new(raw.len(), |i: int| password_char(raw[i] as int % 62))
}

/// The password that random bytes stand for: one character for each byte.
pub fn password_from_bytes(raw: &Vec<u8>) -> (password: String)
    ensures
        password@ == password_of(raw@),
        password@.len() == raw@.len(),
        forall|i: int|
            0 <= i < raw@.len() ==> {
                let v = raw@[i] as int % 62;
                &&& v < 26 ==> #[trigger] password@[i] as int == 'A' as int + v
                &&& 26 <= v < 52 ==> password@[i] as int == 'a' as int + (v - 26)
                &&& 52 <= v ==> password@[i] as int == '0' as int + (v - 52)
            },
{
    let mut out: String = String::new();
    let mut i: usize = 0;
    assert(out@ =~= password_of(raw@).take(0));
    while i < raw.len()
        invariant
            i <= raw@.len(),
            out@ == password_of(raw@).take(i as int),
        decreases raw@.len() - i,
    {
        let v: u8 = raw[i] % 62;
        let c: char = if v < 26 {
            (65u8 + v) as char
        } else if v < 52 {
            (97u8 + (v - 26)) as char
        } else {
            (48u8 + (v - 52)) as char
        };
        out.push(c);
        i += 1;
        assert(out@ =~= password_of(raw@).take(i as int));
    }
    assert(out@ =~= password_of(raw@));
    out
}

/// Which character a byte stands for: its remainder by sixty-two counts through the
/// capital letters, then the small ones, then the digits.
pub proof fn law_bytes_count_through_the_alphabet(raw: Seq<u8>, i: int)
    requires
        0 <= i < raw.len(),
    ensures
        password_of(raw).len() == raw.len(),
        ({
            let v = raw[i] as int % 62;
            let c = password_of(raw)[i] as int;
            &&& v < 26 ==> c == 'A' as int + v
            &&& 26 <= v < 52 ==> c == 'a' as int + (v - 26)
            &&& 52 <= v ==> c == '0' as int + (v - 52)
        }),
{
}

/// `getrandom::fill` overwrites the buffer with random bytes and tells whether that
/// worked. Nothing is said of the bytes; their number stays the same. An empty buffer
/// is filled without asking the system, and that always works.
#[verifier::external_body]
fn fill_random(buffer: &mut Vec<u8>) -> (filled: bool)
    ensures
        final(buffer)@.len() == old(buffer)@.len(),
        old(buffer)@.len() == 0 ==> filled,
{
    getrandom::fill(buffer).is_ok()
}

/// As many random bytes as asked for, or nothing where the system has none to give.
/// The system is not asked for no bytes at all, so those are always given.
pub fn random_bytes(count: usize) -> (r: Option<Vec<u8>>)
    ensures
        r matches Some(bytes) ==> bytes@.len() == count,
        count == 0 ==> r is Some,
{
    let mut buffer: Vec<u8> = Vec::new();
    let mut i: usize = 0;
    while i < count
        invariant
            i <= count,
            buffer@.len() == i,
        decreases count - i,
    {
        buffer.push(0);
        i += 1;
    }
    if fill_random(&mut buffer) {
        Some(buffer)
    } else {
        None
    }
}

/// A new password for a public link: twelve random letters and digits. There is none
/// where the system has no random bytes to give.
pub fn generate_public_link_password() -> (r: Option<String>)
    ensures
        r matches Some(password) ==> password@.len() == PUBLIC_LINK_PASSWORD_LEN && exists|
            raw: Seq<u8>,
        | password@ == #[trigger] password_of(raw),
        r matches Some(password) ==> password@.len() == 12,
{
    match random_bytes(PUBLIC_LINK_PASSWORD_LEN) {
        Some(raw) => Some(password_from_bytes(&raw)),
        None => None,
    }
}

/// A new key salt. There is none where the system has no random bytes to give.
pub fn generate_key_salt() -> (r: Option<Vec<u8>>)
    ensures
        r matches Some(salt) ==> salt@.len() == KEY_SALT_LEN,
        r matches Some(salt) ==> salt@.len() == 16,
{
    random_bytes(KEY_SALT_LEN)
}

/// Whether a custom password was given.
pub open spec fn is_custom(custom_password: Option<&str>) -> bool {
    custom_password is Some && custom_password->0@.len() > 0
}

/// What protects a link: the password in its address, followed by the custom one
/// that its visitors have to know, if there is one.
pub fn full_password(generated: &str, custom_password: Option<&str>) -> (r: String)
    ensures
        r@ == (if is_custom(custom_password) {
            generated@ + custom_password->0@
        } else {
            generated@
        }),
        custom_password is None ==> r@ == generated@,
        custom_password is Some ==> r@ == generated@ + custom_password->0@,
{
    match custom_password {
        Some(custom) => {
            if custom.unicode_len() > 0 {
                joined(generated, custom)
            } else {
                owned(generated)
            }
        },
        None => owned(generated),
    }
}

/// The part of a link's full password that belongs into its address: the generated
/// part at the start.
pub fn generated_part(full: &str) -> (r: String)
    ensures
        r@ == (if full@.len() < PUBLIC_LINK_PASSWORD_LEN {
            full@
        } else {
            full@.take(PUBLIC_LINK_PASSWORD_LEN as int)
        }),
        full@.len() <= 12 ==> r@ == full@,
        full@.len() > 12 ==> r@ == full@.take(12),
{
    let chars: Vec<char> = chars_of(full);
    let end: usize = if chars.len() < PUBLIC_LINK_PASSWORD_LEN {
        chars.len()
    } else {
        PUBLIC_LINK_PASSWORD_LEN
    };
    let r: String = string_of(&chars, 0, end);
    assert(chars@.subrange(0, chars@.len() as int) =~= full@);
    r
}

/// The password in the address can be told from the full one, whatever custom
/// password follows it.
pub proof fn law_generated_password_is_recovered(generated: Seq<char>, custom: Seq<char>)
    requires
        generated.len() == PUBLIC_LINK_PASSWORD_LEN,
    ensures
        (generated + custom).take(PUBLIC_LINK_PASSWORD_LEN as int) == generated,
{
    assert((generated + custom).take(PUBLIC_LINK_PASSWORD_LEN as int) =~= generated);
}

/// A made-up password holds letters and digits only, so that it never breaks the
/// address that it is put into.
pub proof fn law_passwords_are_letters_and_digits(raw: Seq<u8>, i: int)
    requires
        0 <= i < raw.len(),
    ensures
        ({
            let c = password_of(raw)[i];
            'A' <= c <= 'Z' || 'a' <= c <= 'z' || '0' <= c <= '9'
        }),
        !password_of(raw).contains('#'),
        !password_of(raw).contains('/'),
{
    let text = password_of(raw);
    assert(forall|j: int| 0 <= j < raw.len() ==> 0 <= #[trigger] (raw[j] as int % 62) < 62);
    assert(text[i] == password_char(raw[i] as int % 62));
    assert forall|j: int| 0 <= j < text.len() implies text[j] != '#' && text[j] != '/' by {
        assert(text[j] == password_char(raw[j] as int % 62));
    }
}

/// How the server is told what protects a link: a made-up password (2), or one with
/// a custom password after it (3).
pub fn link_flags(custom_password: Option<&str>) -> (flags: i32)
    ensures
        flags == (if is_custom(custom_password) {
            3int
        } else {
            2
        }),
        custom_password is None ==> flags == 2,
        custom_password is Some && custom_password->0@.len() == 0 ==> flags == 2,
        custom_password is Some && custom_password->0@.len() > 0 ==> flags == 3,
{
    match custom_password {
        Some(custom) => {
            if custom.unicode_len() > 0 {
                3
            } else {
                2
            }
        },
        None => 2,
    }
}

} // verus!

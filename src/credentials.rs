//! Salts, password hashes and API keys.
use vstd::prelude::*;
use vstd::string::*;
use crate::error::Error;
use crate::text::{push_char, owned, push_all, str_ends_with, ends_with};

verus! {

/// The alphabet of generated salts.
pub const CHARACTER_SET: &'static str = "ABCDEFGHIJKLMNOPQRSTUVWXYZabcdefghijklmnopqrstuvwxyz0123456789";

/// The number of characters in a generated salt.
pub const SALT_LEN: usize = 32;

/// The number of bytes in a password hash.
pub const HASH_LEN: usize = 32;

/// Relies on rand's `thread_rng` and `Rng::gen_range`: a value in `[0, high)`; `gen_range` panics
/// on an empty range.
#[verifier::external_body]
fn random_below(high: usize) -> (r: usize)
    requires
        0 < high,
    ensures
        r < high,
{
    rand::Rng::gen_range(&mut rand::thread_rng(), 0, high)
}

/// A string of `length` characters, each drawn at random from the characters of `using`.
pub fn rand(length: usize, using: String) -> (r: String)
    requires
        using@.len() > 0,
    ensures
        r@.len() == length,
        forall|k: int| 0 <= k < length ==> using@.contains(#[trigger] r@[k]),
{
    let n = using.as_str().unicode_len();
    let mut output = String::new();
    let mut i: usize = 0;
    while i < length
        invariant
            n == using@.len(),
            n > 0,
            i <= length,
            output@.len() == i,
            forall|k: int| 0 <= k < i ==> using@.contains(#[trigger] output@[k]),
        decreases length - i,
    {
        let j = random_below(n);
        let c = using.as_str().get_char(j);
        assert(using@[j as int] == c);
        push_char(&mut output, c);
        i = i + 1;
    }
    output
}

/// Whether every character of the salt alphabet is ASCII.
pub proof fn lemma_character_set_ascii()
    ensures
        vstd::utf8::is_ascii_chars(CHARACTER_SET@),
{
    reveal_strlit("ABCDEFGHIJKLMNOPQRSTUVWXYZabcdefghijklmnopqrstuvwxyz0123456789");
}

/// A salt whose characters are all drawn from `CHARACTER_SET`.
pub open spec fn is_salt(s: Seq<char>) -> bool {
    s.len() == SALT_LEN && forall|k: int| 0 <= k < s.len() ==> CHARACTER_SET@.contains(#[trigger] s[k])
}

/// Whether a stored salt is one of the alphabet, as the hash requires.
pub fn salt_ok(s: &str) -> (r: bool)
    ensures
        r == is_salt(s@),
{
    proof {
        reveal_strlit("ABCDEFGHIJKLMNOPQRSTUVWXYZabcdefghijklmnopqrstuvwxyz0123456789");
    }
    let n = s.unicode_len();
    if n != SALT_LEN {
        return false;
    }
    let alphabet = CHARACTER_SET;
    let m = alphabet.unicode_len();
    let mut i: usize = 0;
    while i < n
        invariant
            n == s@.len(),
            m == alphabet@.len(),
            alphabet@ == CHARACTER_SET@,
            i <= n,
            forall|k: int| 0 <= k < i ==> CHARACTER_SET@.contains(#[trigger] s@[k]),
        decreases n - i,
    {
        let c = s.get_char(i);
        let mut j: usize = 0;
        let mut found = false;
        while j < m && !found
            invariant
                m == alphabet@.len(),
                alphabet@ == CHARACTER_SET@,
                j <= m,
                found ==> CHARACTER_SET@.contains(c),
                !found ==> forall|k: int| 0 <= k < j ==> alphabet@[k] != c,
            decreases m - j + (if found { 0int } else { 1int }),
        {
            if alphabet.get_char(j) == c {
                assert(alphabet@[j as int] == c);
                found = true;
            } else {
                j = j + 1;
            }
        }
        if !found {
            assert(!is_salt(s@)) by {
                assert(s@[i as int] == c);
                if CHARACTER_SET@.contains(c) {
                    let k = choose|k: int| 0 <= k < CHARACTER_SET@.len() && CHARACTER_SET@[k] == c;
                    assert(alphabet@[k] == c);
                }
            }
            return false;
        }
        i = i + 1;
    }
    true
}

/// A fresh random salt.
pub fn new_salt() -> (r: String)
    ensures
        is_salt(r@),
{
    proof {
        reveal_strlit("ABCDEFGHIJKLMNOPQRSTUVWXYZabcdefghijklmnopqrstuvwxyz0123456789");
    }
    rand(SALT_LEN, owned(CHARACTER_SET))
}

/// A salt of the alphabet is ASCII, so its UTF-8 encoding has one byte per character.
pub proof fn lemma_salt_bytes(s: &str)
    requires
        is_salt(s@),
    ensures
        s.spec_bytes().len() == SALT_LEN,
{
    lemma_character_set_ascii();
    assert(vstd::utf8::is_ascii_chars(s@)) by {
        assert forall|i: int| 0 <= i < s@.len() implies '\0' <= #[trigger] s@[i] <= '\u{7f}' by {
            assert(CHARACTER_SET@.contains(s@[i]));
            let j = choose|j: int| 0 <= j < CHARACTER_SET@.len() && CHARACTER_SET@[j] == s@[i];
            assert('\0' <= CHARACTER_SET@[j] <= '\u{7f}');
        }
    }
    vstd::utf8::is_ascii_chars_encode_utf8(s@);
}

/// The argon2d hash, with default parameters, of a password under a salt.
pub uninterp spec fn argon2d_of(password: Seq<char>, salt: Seq<char>) -> Seq<u8>;

/// Relies on argon2rs's `argon2d_simple`: the argon2d hash of the password's bytes under the
/// salt's bytes, 32 bytes long; it asserts a salt of at least 8 bytes and inputs under 4 GiB.
#[verifier::external_body]
fn argon2d_hash(password: &str, salt: &str) -> (r: Vec<u8>)
    requires
        8 <= salt.spec_bytes().len() <= u32::MAX,
        password.spec_bytes().len() <= u32::MAX,
    ensures
        r@ == argon2d_of(password@, salt@),
        r@.len() == HASH_LEN,
{
    argon2rs::argon2d_simple(password, salt).to_vec()
}

/// The hash of `password` under a salt of the alphabet.
pub fn hash_password(password: &str, salt: &str) -> (r: Vec<u8>)
    requires
        is_salt(salt@),
        password.spec_bytes().len() <= u32::MAX,
    ensures
        r@ == argon2d_of(password@, salt@),
        r@.len() == HASH_LEN,
{
    proof {
        lemma_salt_bytes(salt);
    }
    argon2d_hash(password, salt)
}

/// Compares two byte strings in time that depends only on their lengths.
pub fn constant_time_eq(a: &[u8], b: &[u8]) -> (r: bool)
    ensures
        r == (a@ == b@),
{
    if a.len() != b.len() {
        return false;
    }
    let mut diff: u8 = 0;
    let mut i: usize = 0;
    while i < a.len()
        invariant
            a@.len() == b@.len(),
            i <= a@.len(),
            (diff == 0) == (forall|k: int| 0 <= k < i ==> a@[k] == b@[k]),
        decreases a@.len() - i,
    {
        let ai = a[i];
        let bi = b[i];
        let x = ai ^ bi;
        assert((x == 0) == (ai == bi)) by (bit_vector)
            requires
                x == ai ^ bi,
        ;
        let d = diff | x;
        assert((d == 0) == (diff == 0 && x == 0)) by (bit_vector)
            requires
                d == diff | x,
        ;
        diff = d;
        i = i + 1;
    }
    assert(a@ =~= b@ <==> diff == 0);
    diff == 0
}

/// Whether an email is acceptable under an optional domain: with a domain, it must end with
/// `@<domain>`.
pub open spec fn email_allowed(email: Seq<char>, domain: Option<Seq<char>>) -> bool {
    match domain {
        None => true,
        Some(d) => ends_with(email, seq!['@'] + d),
    }
}

/// Decides `email_allowed`.
pub fn email_matches_domain(email: &str, domain: Option<&str>) -> (r: bool)
    ensures
        r == email_allowed(email@, match domain {
            None => None,
            Some(d) => Some(d@),
        }),
{
    match domain {
        None => true,
        Some(d) => {
            let mut suffix = String::new();
            push_char(&mut suffix, '@');
            push_all(&mut suffix, d);
            assert(suffix@ =~= seq!['@'] + d@);
            str_ends_with(email, suffix.as_str())
        },
    }
}

/// The version number of a UUID in its 128-bit big-endian form.
pub open spec fn uuid_version(key: u128) -> u128 {
    (key >> 76u128) & 0xfu128
}

/// Relies on uuid's `Uuid::new_v4` and `Uuid::as_u128`: a random UUID whose version field is 4
/// (`Builder::set_version`), as a big-endian integer.
#[verifier::external_body]
fn random_uuid() -> (r: u128)
    ensures
        uuid_version(r) == 4,
{
    uuid::Uuid::new_v4().as_u128()
}

/// A fresh API key: a random version-4 UUID, never the nil UUID.
pub fn new_api_key() -> (r: u128)
    ensures
        uuid_version(r) == 4,
        r != 0,
{
    let r = random_uuid();
    assert(((0u128 >> 76u128) & 0xfu128) == 0u128) by (bit_vector);
    r
}

/// What uuid's parser makes of a string: the UUID as a big-endian integer, or nothing.
pub uninterp spec fn uuid_parsed(s: Seq<char>) -> Option<u128>;

/// Relies on uuid's `Uuid::parse_str` and `Uuid::as_u128`.
#[verifier::external_body]
fn parse_uuid(s: &str) -> (r: Option<u128>)
    ensures
        r == uuid_parsed(s@),
{
    uuid::Uuid::parse_str(s).ok().map(|u| u.as_u128())
}

/// Parses an API key in any textual form that uuid accepts.
pub fn parse_api_key(s: &str) -> (r: Option<u128>)
    ensures
        r == uuid_parsed(s@),
{
    parse_uuid(s)
}

/// The secrets of a new manager: a salt of the alphabet, the password's hash under it, and an
/// API key.
#[derive(Debug)]
pub struct NewCredentials {
    pub salt: String,
    pub hash: Vec<u8>,
    pub api_key: u128,
}

/// The first step of registering a manager, before the store is asked: an email outside the
/// domain is refused; otherwise a fresh salt, the password's argon2d hash under it, and a random
/// version-4 API key.
pub fn prepare_registration(email: &str, password: &str, domain: Option<&str>) -> (r: Result<
    NewCredentials,
    Error,
>)
    requires
        password.spec_bytes().len() <= u32::MAX,
    ensures
        !email_allowed(email@, match domain {
            Some(d) => Some(d@),
            None => None,
        }) ==> (r matches Err(Error::InputValidation(_))),
        email_allowed(email@, match domain {
            Some(d) => Some(d@),
            None => None,
        }) ==> (r matches Ok(c) && is_salt(c.salt@) && c.hash@ == argon2d_of(password@, c.salt@)
            && uuid_version(c.api_key) == 4),
{
    if !email_matches_domain(email, domain) {
        return Err(
            Error::InputValidation(owned("invalid email pattern, must be an address of the configured domain")),
        );
    }
    let salt = new_salt();
    let hash = hash_password(password, salt.as_str());
    let api_key = new_api_key();
    Ok(NewCredentials { salt, hash, api_key })
}

/// Whether a password matches a stored hash: its argon2d hash under the stored salt equals the
/// stored hash, compared in constant time.
pub fn password_matches(password: &str, salt: &str, hash: &[u8]) -> (r: bool)
    requires
        is_salt(salt@),
        password.spec_bytes().len() <= u32::MAX,
    ensures
        r == (argon2d_of(password@, salt@) == hash@),
{
    let h = hash_password(password, salt);
    constant_time_eq(h.as_slice(), hash)
}

} // verus!

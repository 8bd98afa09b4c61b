//! The decisions of the HTTP surface: bearer keys, the steps of dataset registration, and how
//! errors become status codes.
use vstd::prelude::*;
use vstd::string::*;
use crate::credentials::{parse_api_key, uuid_parsed};
use crate::dict::{Manager, RangeParams};
use crate::error::Error;
use crate::text::owned;

verus! {

pub const STATUS_OK: u16 = 200;
pub const STATUS_BAD_REQUEST: u16 = 400;
pub const STATUS_UNAUTHORIZED: u16 = 401;
pub const STATUS_FORBIDDEN: u16 = 403;
pub const STATUS_NOT_FOUND: u16 = 404;
pub const STATUS_CONFLICT: u16 = 409;
pub const STATUS_INTERNAL_SERVER_ERROR: u16 = 500;

/// The prefix that an `Authorization` header puts before its token.
pub const BEARER_PREFIX: &'static str = "Bearer ";

pub open spec fn is_space(c: char) -> bool {
    c == ' ' || c == '\t' || c == '\n' || c == '\r' || c == '\x0B' || c == '\x0C'
}

/// The value starts with `Bearer `.
pub open spec fn has_bearer_prefix(v: Seq<char>) -> bool {
    v.len() >= 7 && v.subrange(0, 7) == BEARER_PREFIX@
}

/// The value without its leading `Bearer `, where it has one.
pub open spec fn after_prefix(v: Seq<char>) -> Seq<char> {
    if has_bearer_prefix(v) {
        v.subrange(7, v.len() as int)
    } else {
        v
    }
}

/// `s[lo..hi]` is `s` without leading and trailing ASCII white space.
pub open spec fn trimmed(s: Seq<char>, lo: int, hi: int) -> bool {
    &&& 0 <= lo <= hi <= s.len()
    &&& forall|k: int| 0 <= k < lo ==> is_space(#[trigger] s[k])
    &&& forall|k: int| hi <= k < s.len() ==> is_space(#[trigger] s[k])
    &&& lo < hi ==> !is_space(s[lo]) && !is_space(s[hi - 1])
}

proof fn lemma_bearer_prefix()
    ensures
        BEARER_PREFIX@ == seq!['B', 'e', 'a', 'r', 'e', 'r', ' '],
{
    reveal_strlit("Bearer ");
}

fn bearer_prefix(s: &str) -> (r: bool)
    ensures
        r == has_bearer_prefix(s@),
{
    proof {
        lemma_bearer_prefix();
    }
    let n = s.unicode_len();
    if n < 7 {
        return false;
    }
    let r = s.get_char(0) == 'B' && s.get_char(1) == 'e' && s.get_char(2) == 'a' && s.get_char(3)
        == 'r' && s.get_char(4) == 'e' && s.get_char(5) == 'r' && s.get_char(6) == ' ';
    proof {
        if r {
            assert(s@.subrange(0, 7) =~= BEARER_PREFIX@);
        } else if s@.subrange(0, 7) == BEARER_PREFIX@ {
            assert(s@.subrange(0, 7)[0] == 'B');
            assert(s@.subrange(0, 7)[1] == 'e');
            assert(s@.subrange(0, 7)[2] == 'a');
            assert(s@.subrange(0, 7)[3] == 'r');
            assert(s@.subrange(0, 7)[4] == 'e');
            assert(s@.subrange(0, 7)[5] == 'r');
            assert(s@.subrange(0, 7)[6] == ' ');
        }
    }
    r
}

fn space(c: char) -> (r: bool)
    ensures
        r == is_space(c),
{
    c == ' ' || c == '\t' || c == '\n' || c == '\r' || c == '\x0B' || c == '\x0C'
}

/// The key in an `Authorization` header value: its leading `Bearer ` removed, where it has one,
/// then surrounding ASCII white space.
pub fn trim_api_key(bearer: &str) -> (r: String)
    ensures
        exists|lo: int, hi: int|
            trimmed(after_prefix(bearer@), lo, hi) && r@ == after_prefix(bearer@).subrange(lo, hi),
{
    let s = if bearer_prefix(bearer) {
        bearer.substring_char(7, bearer.unicode_len())
    } else {
        bearer
    };
    assert(s@ == after_prefix(bearer@));
    let n = s.unicode_len();
    let mut lo: usize = 0;
    while lo < n && space(s.get_char(lo))
        invariant
            n == s@.len(),
            lo <= n,
            forall|k: int| 0 <= k < lo ==> is_space(#[trigger] s@[k]),
        decreases n - lo,
    {
        lo = lo + 1;
    }
    let mut hi: usize = n;
    while hi > lo && space(s.get_char(hi - 1))
        invariant
            n == s@.len(),
            lo <= hi <= n,
            forall|k: int| hi <= k < n ==> is_space(#[trigger] s@[k]),
        decreases hi - lo,
    {
        hi = hi - 1;
    }
    let r = owned(s.substring_char(lo, hi));
    assert(trimmed(s@, lo as int, hi as int));
    r
}

/// The key that an `Authorization` header of the form `Bearer <key>` carries: what follows the
/// prefix, without surrounding white space.
pub open spec fn bearer_key(value: Seq<char>, key: Seq<char>) -> bool {
    has_bearer_prefix(value) && exists|lo: int, hi: int|
        trimmed(after_prefix(value), lo, hi) && key == after_prefix(value).subrange(lo, hi)
}

/// The first steps of dataset registration, before anything is uploaded: a name already in the
/// catalog is a conflict (409), and a header that is missing, lacks the `Bearer ` prefix, or
/// carries no UUID is unauthorised (401).
/// Otherwise the result is the API key, to look the manager up by.
pub fn registration_gate(dataset_exists: bool, authorization: Option<&str>) -> (r: Result<u128, u16>)
    ensures
        dataset_exists ==> r == Err::<u128, u16>(STATUS_CONFLICT),
        !dataset_exists && authorization is None ==> r == Err::<u128, u16>(STATUS_UNAUTHORIZED),
        !dataset_exists && authorization is Some ==> match r {
            Ok(k) => exists|key: Seq<char>| bearer_key(authorization.unwrap()@, key) && uuid_parsed(key) == Some(k),
            Err(s) => s == STATUS_UNAUTHORIZED && forall|key: Seq<char>| bearer_key(authorization.unwrap()@, key) ==> uuid_parsed(key) is None,
        },
{
    if dataset_exists {
        return Err(STATUS_CONFLICT);
    }
    match authorization {
        None => Err(STATUS_UNAUTHORIZED),
        Some(value) => {
            if !bearer_prefix(value) {
                return Err(STATUS_UNAUTHORIZED);
            }
            let key = trim_api_key(value);
            match parse_api_key(key.as_str()) {
                Some(k) => Ok(k),
                None => {
                    proof {
                        assert forall|other: Seq<char>| bearer_key(value@, other) implies uuid_parsed(other) is None by {
                            let (lo, hi) = choose|lo: int, hi: int| trimmed(after_prefix(value@), lo, hi) && key@ == after_prefix(value@).subrange(lo, hi);
                            let (lo2, hi2) = choose|lo2: int, hi2: int| trimmed(after_prefix(value@), lo2, hi2) && other == after_prefix(value@).subrange(lo2, hi2);
                            lemma_trim_unique(after_prefix(value@), lo, hi, lo2, hi2);
                        }
                    }
                    Err(STATUS_UNAUTHORIZED)
                },
            }
        },
    }
}

proof fn lemma_trim_unique(s: Seq<char>, lo: int, hi: int, lo2: int, hi2: int)
    requires
        trimmed(s, lo, hi),
        trimmed(s, lo2, hi2),
    ensures
        s.subrange(lo, hi) == s.subrange(lo2, hi2),
{
    if lo < hi && lo2 < hi2 {
        if lo < lo2 {
            assert(is_space(s[lo]));
        }
        if lo2 < lo {
            assert(is_space(s[lo2]));
        }
        if hi < hi2 {
            assert(is_space(s[hi2 - 1]));
        }
        if hi2 < hi {
            assert(is_space(s[hi - 1]));
        }
    } else if lo < hi {
        // the other trim is empty: all of s is white space
        assert(lo2 == hi2);
        if lo < lo2 {
            assert(is_space(s[lo]));
        } else {
            assert(hi2 <= lo);
            assert(is_space(s[lo]));
        }
    } else if lo2 < hi2 {
        if lo2 < lo {
            assert(is_space(s[lo2]));
        } else {
            assert(is_space(s[lo2]));
        }
    }
    assert(s.subrange(lo, hi) =~= s.subrange(lo2, hi2));
}

/// The status of a lookup that failed: no such record is 404, anything else 500.
pub fn lookup_status(e: &Error) -> (s: u16)
    ensures
        s == if e is Sql { STATUS_NOT_FOUND } else { STATUS_INTERNAL_SERVER_ERROR },
{
    match e {
        Error::Sql(_) => STATUS_NOT_FOUND,
        _ => STATUS_INTERNAL_SERVER_ERROR,
    }
}

/// The status of a failed manager registration: a store failure (such as a used email) is 404,
/// a refused email 400, anything else 500.
pub fn register_manager_status(e: &Error) -> (s: u16)
    ensures
        s == if e is Sql {
            STATUS_NOT_FOUND
        } else if e is InputValidation {
            STATUS_BAD_REQUEST
        } else {
            STATUS_INTERNAL_SERVER_ERROR
        },
{
    match e {
        Error::Sql(_) => STATUS_NOT_FOUND,
        Error::InputValidation(_) => STATUS_BAD_REQUEST,
        _ => STATUS_INTERNAL_SERVER_ERROR,
    }
}

pub open spec fn reason_of(status: u16) -> Seq<char> {
    if status == STATUS_OK {
        "OK"@
    } else if status == STATUS_BAD_REQUEST {
        "Bad Request"@
    } else if status == STATUS_UNAUTHORIZED {
        "Unauthorized"@
    } else if status == STATUS_FORBIDDEN {
        "Forbidden"@
    } else if status == STATUS_NOT_FOUND {
        "Not Found"@
    } else if status == STATUS_CONFLICT {
        "Conflict"@
    } else {
        "Internal Server Error"@
    }
}

/// The reason phrase of the statuses that the surface sends; any other status is reported as
/// an internal error.
pub fn canonical_reason(status: u16) -> (r: &'static str)
    ensures
        r@ == reason_of(status),
{
    if status == STATUS_OK {
        "OK"
    } else if status == STATUS_BAD_REQUEST {
        "Bad Request"
    } else if status == STATUS_UNAUTHORIZED {
        "Unauthorized"
    } else if status == STATUS_FORBIDDEN {
        "Forbidden"
    } else if status == STATUS_NOT_FOUND {
        "Not Found"
    } else if status == STATUS_CONFLICT {
        "Conflict"
    } else {
        "Internal Server Error"
    }
}


/// The body of a manager registration.
#[derive(Debug, Clone)]
pub struct RegisterManager {
    pub email: String,
    pub password: String,
}

/// What a registration returns of the manager: no salt and no hash.
#[derive(Debug, Clone)]
pub struct RestrictedManager {
    pub id: i32,
    pub email: String,
    pub api_key: u128,
}

impl From<Manager> for RestrictedManager {
    fn from(m: Manager) -> (r: RestrictedManager) {
        RestrictedManager { id: m.id, email: m.email, api_key: m.api_key }
    }
}

impl vstd::std_specs::convert::FromSpecImpl<Manager> for RestrictedManager {
    open spec fn obeys_from_spec() -> bool {
        true
    }

    open spec fn from_spec(m: Manager) -> RestrictedManager {
        RestrictedManager { id: m.id, email: m.email, api_key: m.api_key }
    }
}

/// The path of a partition lookup.
#[derive(Debug, Clone)]
pub struct FindPartition {
    pub dataset_name: String,
    pub partition_name: String,
}

/// The path of a latest-partition lookup.
#[derive(Debug, Clone)]
pub struct LatestPartition {
    pub dataset_name: String,
}

/// The path of a dataset lookup.
#[derive(Debug, Clone)]
pub struct FindDataset {
    pub dataset_name: String,
}

/// The query of a dataset listing.
#[derive(Debug, Clone, Copy, PartialEq, Eq, Structural)]
pub struct Pagination {
    pub count: Option<i32>,
    pub offset: Option<i32>,
}

impl From<Pagination> for RangeParams {
    fn from(p: Pagination) -> (r: RangeParams) {
        RangeParams { start: None, end: None, count: p.count, offset: p.offset }
    }
}

impl vstd::std_specs::convert::FromSpecImpl<Pagination> for RangeParams {
    open spec fn obeys_from_spec() -> bool {
        true
    }

    open spec fn from_spec(p: Pagination) -> RangeParams {
        RangeParams { start: None, end: None, count: p.count, offset: p.offset }
    }
}

/// The range of a dataset listing: none where the query gives neither a count nor an offset.
pub fn listing_range(p: Pagination) -> (r: Option<RangeParams>)
    ensures
        p.count is None && p.offset is None ==> r is None,
        p.count is Some || p.offset is Some ==> r == Some(
            RangeParams { start: None, end: None, count: p.count, offset: p.offset },
        ),
{
    if p.count.is_some() || p.offset.is_some() {
        Some(RangeParams::from(p))
    } else {
        None
    }
}

/// The sizes of the catalog's connection pool.
#[derive(Debug, Clone, Copy, PartialEq, Eq, Structural)]
pub struct PoolConfig {
    pub min_idle: u32,
    pub max_size: u32,
}

impl PoolConfig {
    /// The sizes a pool is built with: those given, or one connection of each where none are.
    pub fn effective(cfg: Option<PoolConfig>) -> (r: PoolConfig)
        ensures
            cfg is None ==> r == (PoolConfig { min_idle: 1, max_size: 1 }),
            cfg is Some ==> r == cfg.unwrap(),
    {
        match cfg {
            Some(c) => c,
            None => PoolConfig { min_idle: 1, max_size: 1 },
        }
    }

    /// Whether the sizes are usable: at least one idle connection, and room for them.
    pub fn is_valid(&self) -> (r: bool)
        ensures
            r == (self.min_idle >= 1 && self.max_size >= self.min_idle),
    {
        self.min_idle >= 1 && self.max_size >= self.min_idle
    }
}

} // verus!

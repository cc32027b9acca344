//! Checking the API tokens that clients present: their form, the hex digest
//! under which they are stored, and the short-lived cache of accepted tokens.
use vstd::prelude::*;
use sha2::Digest;
use vstd::string::*;
use vstd::utf8::encode_utf8;
use crate::text::{chars_of, copy_string, has_prefix, push_char, starts_with};

verus! {

/// The lowercase hexadecimal digit for `n` (below 16).
pub open spec fn hex_digit(n: u8) -> char {
    if n < 10 {
        (48 + n) as u8 as char
    } else {
        (87 + n) as u8 as char
    }
}

/// Two lowercase hexadecimal digits per byte, high nibble first.
pub open spec fn hex_text(bytes: Seq<u8>) -> Seq<char>
    decreases bytes.len(),
{
    if bytes.len() == 0 {
        Seq::<char>::empty()
    } else {
        hex_text(bytes.drop_last()) + seq![hex_digit(bytes.last() / 16), hex_digit(bytes.last() % 16)]
    }
}

fn hex_char(n: u8) -> (r: char)
    requires
        n < 16,
    ensures
        r == hex_digit(n),
{
    if n < 10 {
        (48u8 + n) as char
    } else {
        (87u8 + n) as char
    }
}

/// `bytes` written as lowercase hexadecimal (`{:02x}` for each byte).
pub fn hex_encode(bytes: &[u8]) -> (r: String)
    ensures
        r@ == hex_text(bytes@),
{
    let mut s = String::new();
    let mut i: usize = 0;
    assert(bytes@.take(0) =~= Seq::<u8>::empty());
    while i < bytes.len()
        invariant
            0 <= i <= bytes.len(),
            s@ == hex_text(bytes@.take(i as int)),
        decreases bytes.len() - i,
    {
        let b = bytes[i];
        assert(bytes@.take(i + 1).drop_last() =~= bytes@.take(i as int));
        push_char(&mut s, hex_char(b / 16));
        push_char(&mut s, hex_char(b % 16));
        i = i + 1;
    }
    assert(bytes@.take(bytes.len() as int) =~= bytes@);
    s
}

/// How long an accepted token stays cached, in milliseconds (five minutes).
pub const CACHE_TTL_MS: u64 = 300000;

/// What every API token starts with.
pub open spec fn token_prefix() -> Seq<char> {
    "abrasive_"@
}

/// Why a token was not accepted.
#[derive(Debug, Clone, PartialEq, Eq)]
pub enum AuthError {
    NoBearerToken,
    MissingEnv(String),
    InvalidTokenFormat,
    UnknownToken,
    TokenExpired,
    TimestampParse(String),
    SupabaseCall(String),
    SupabaseParseResponse(String),
}

/// What `Sha256::digest` returns for the given bytes.
pub uninterp spec fn sha256(data: Seq<u8>) -> Seq<u8>;

/// `sha2::Sha256::digest`: the 32-byte SHA-256 digest of `data`. Claimed: the
/// result is a function of `data` alone (named `sha256`).
#[verifier::external_body]
fn sha256_digest(data: &[u8]) -> (r: [u8; 32])
    ensures
        r@ == sha256(data@),
{
    sha2::Sha256::digest(data).into()
}

/// One cached token: the digest it is keyed by, the user it belongs to, and
/// when (in milliseconds on the daemon's monotonic clock) the entry expires.
pub struct CachedToken {
    pub key: [u8; 32],
    pub user_id: String,
    pub expires: u64,
}

/// Mathematical view of [`CachedToken`].
pub struct CachedTokenV {
    pub key: Seq<u8>,
    pub user_id: Seq<char>,
    pub expires: nat,
}

/// Recently accepted tokens.
pub struct TokenCache {
    entries: Vec<CachedToken>,
}

impl View for TokenCache {
    type V = Seq<CachedTokenV>;

    closed spec fn view(&self) -> Seq<CachedTokenV> {
        self.entries@.map_values(|e: CachedToken| CachedTokenV { key: e.key@, user_id: e.user_id@, expires: e.expires as nat })
    }
}

/// The latest entry for `key`, if any.
pub open spec fn latest(entries: Seq<CachedTokenV>, key: Seq<u8>) -> Option<CachedTokenV>
    decreases entries.len(),
{
    if entries.len() == 0 {
        None
    } else if entries.last().key == key {
        Some(entries.last())
    } else {
        latest(entries.drop_last(), key)
    }
}

/// The user a cached token belongs to at time `now`: the latest entry for
/// the key, while it has not expired.
pub open spec fn cached_user(entries: Seq<CachedTokenV>, key: Seq<u8>, now: nat) -> Option<Seq<char>> {
    match latest(entries, key) {
        Some(e) => if now < e.expires {
            Some(e.user_id)
        } else {
            None
        },
        None => None,
    }
}

fn same_key(a: &[u8; 32], b: &[u8; 32]) -> (r: bool)
    ensures
        r == (a@ == b@),
{
    let mut j: usize = 0;
    while j < 32
        invariant
            0 <= j <= 32,
            forall|q: int| 0 <= q < j ==> a@[q] == b@[q],
        decreases 32 - j,
    {
        if a[j] != b[j] {
            assert(a@[j as int] != b@[j as int]);
            return false;
        }
        j = j + 1;
    }
    assert(a@ =~= b@);
    true
}

impl TokenCache {
    /// An empty cache.
    pub fn new() -> (r: TokenCache)
        ensures
            r@ == Seq::<CachedTokenV>::empty(),
    {
        let r = TokenCache { entries: Vec::new() };
        assert(r@ =~= Seq::<CachedTokenV>::empty());
        r
    }

    /// The user of a cached, unexpired token at time `now`.
    pub fn lookup_cached(&self, key: &[u8; 32], now: u64) -> (r: Option<String>)
        ensures
            crate::rustc_args::opt_view(r) == cached_user(self@, key@, now as nat),
    {
        let ghost v = self@;
        let mut k: usize = self.entries.len();
        assert(v.take(k as int) =~= v);
        while k > 0
            invariant
                0 <= k <= self.entries@.len(),
                v == self@,
                latest(v, key@) == latest(v.take(k as int), key@),
            decreases k,
        {
            let e = &self.entries[k - 1];
            assert(v.take(k as int).last() == v[k - 1]);
            assert(v.take(k as int).drop_last() =~= v.take(k - 1));
            if same_key(&e.key, key) {
                if now < e.expires {
                    return Some(copy_string(&e.user_id));
                } else {
                    return None;
                }
            }
            k = k - 1;
        }
        None
    }

    /// Cache a token's user from time `now` for [`CACHE_TTL_MS`], in place
    /// of any earlier entry for the token.
    pub fn store_cached(&mut self, key: [u8; 32], user_id: String, now: u64)
        requires
            now + CACHE_TTL_MS <= u64::MAX,
        ensures
            final(self)@ == stored(
                old(self)@,
                CachedTokenV { key: key@, user_id: user_id@, expires: (now + CACHE_TTL_MS) as nat },
            ),
    {
        let ghost before = self@;
        let ghost u = user_id@;
        let mut kept: Vec<CachedToken> = Vec::new();
        let mut old_entries: Vec<CachedToken> = Vec::new();
        std::mem::swap(&mut old_entries, &mut self.entries);
        let ghost ov = old_entries@.map_values(
            |e: CachedToken| CachedTokenV { key: e.key@, user_id: e.user_id@, expires: e.expires as nat },
        );
        assert(ov =~= before);
        let mut i: usize = 0;
        assert(ov.take(0) =~= Seq::<CachedTokenV>::empty());
        assert(kept@.map_values(|e: CachedToken| CachedTokenV { key: e.key@, user_id: e.user_id@, expires: e.expires as nat })
            =~= Seq::<CachedTokenV>::empty());
        while i < old_entries.len()
            invariant
                0 <= i <= old_entries.len(),
                ov == old_entries@.map_values(
                    |e: CachedToken| CachedTokenV { key: e.key@, user_id: e.user_id@, expires: e.expires as nat },
                ),
                kept@.map_values(|e: CachedToken| CachedTokenV { key: e.key@, user_id: e.user_id@, expires: e.expires as nat })
                    == without_key(ov.take(i as int), key@),
            decreases old_entries.len() - i,
        {
            let e = &old_entries[i];
            assert(ov.take(i + 1).drop_last() =~= ov.take(i as int));
            assert(ov.take(i + 1).last() == ov[i as int]);
            if !same_key(&e.key, &key) {
                let ghost prev = kept@.map_values(
                    |e: CachedToken| CachedTokenV { key: e.key@, user_id: e.user_id@, expires: e.expires as nat },
                );
                kept.push(CachedToken { key: e.key, user_id: copy_string(&e.user_id), expires: e.expires });
                assert(kept@.map_values(
                    |e: CachedToken| CachedTokenV { key: e.key@, user_id: e.user_id@, expires: e.expires as nat },
                ) =~= prev.push(ov[i as int]));
            }
            i = i + 1;
        }
        assert(ov.take(old_entries.len() as int) =~= ov);
        let ghost kv = kept@.map_values(
            |e: CachedToken| CachedTokenV { key: e.key@, user_id: e.user_id@, expires: e.expires as nat },
        );
        kept.push(CachedToken { key, user_id, expires: now + CACHE_TTL_MS });
        self.entries = kept;
        assert(self@ =~= kv.push(CachedTokenV { key: key@, user_id: u, expires: (now + CACHE_TTL_MS) as nat }));
    }
}

/// The entries without those for `key`.
pub open spec fn without_key(entries: Seq<CachedTokenV>, key: Seq<u8>) -> Seq<CachedTokenV>
    decreases entries.len(),
{
    if entries.len() == 0 {
        Seq::empty()
    } else {
        let r = without_key(entries.drop_last(), key);
        if entries.last().key == key {
            r
        } else {
            r.push(entries.last())
        }
    }
}

/// The entries after caching `c`: any earlier entry for its token replaced.
pub open spec fn stored(entries: Seq<CachedTokenV>, c: CachedTokenV) -> Seq<CachedTokenV> {
    without_key(entries, c.key).push(c)
}

proof fn lemma_without_key(entries: Seq<CachedTokenV>, key: Seq<u8>, other: Seq<u8>)
    requires
        other != key,
    ensures
        latest(without_key(entries, key), other) == latest(entries, other),
    decreases entries.len(),
{
    if entries.len() > 0 {
        lemma_without_key(entries.drop_last(), key, other);
        let r = without_key(entries.drop_last(), key);
        if entries.last().key != key {
            assert(r.push(entries.last()).drop_last() =~= r);
        }
    }
}

/// A cached token is accepted for exactly the cache lifetime after it was
/// stored, and then no longer (until stored again); caching one token leaves
/// what is cached for the others unchanged.
pub proof fn law_cache_lifetime(entries: Seq<CachedTokenV>, c: CachedTokenV, other: Seq<u8>, now: nat)
    ensures
        cached_user(stored(entries, c), c.key, now) == if now < c.expires {
            Some(c.user_id)
        } else {
            None
        },
        other != c.key ==> cached_user(stored(entries, c), other, now) == cached_user(entries, other, now),
{
    if other != c.key {
        lemma_without_key(entries, c.key, other);
        assert(stored(entries, c).drop_last() =~= without_key(entries, c.key));
    }
}

/// The first step of checking a token.
#[derive(Debug)]
pub enum Validation {
    /// The token is refused without a lookup.
    Rejected(AuthError),
    /// The token was accepted recently, for this user.
    Cached(String),
    /// The token must be looked up by the hex form of its digest; `key` is
    /// the digest to cache the answer under.
    Lookup { key: [u8; 32], hash_hex: String },
}

/// Check a token's form and the cache at time `now`: tokens without the
/// `abrasive_` prefix are refused; a cached token gives its user; any other
/// is to be looked up by its SHA-256 digest.
pub fn begin_validation(token: &str, cache: &TokenCache, now: u64) -> (r: Validation)
    ensures
        !starts_with(token@, token_prefix()) ==> r == Validation::Rejected(AuthError::InvalidTokenFormat),
        starts_with(token@, token_prefix()) ==> {
            let k = sha256(encode_utf8(token@));
            match cached_user(cache@, k, now as nat) {
                Some(u) => r matches Validation::Cached(x) && x@ == u,
                None => r matches Validation::Lookup { key, hash_hex } && key@ == k && hash_hex@ == hex_text(k),
            }
        },
{
    let c = chars_of(token);
    let p = chars_of("abrasive_");
    if !has_prefix(c.as_slice(), p.as_slice()) {
        return Validation::Rejected(AuthError::InvalidTokenFormat);
    }
    let key = sha256_digest(token.as_bytes());
    match cache.lookup_cached(&key, now) {
        Some(u) => Validation::Cached(u),
        None => {
            let hash_hex = hex_encode(&key);
            Validation::Lookup { key, hash_hex }
        },
    }
}

/// What the token table says of a token: its user and when it expires.
#[derive(Debug, Clone, PartialEq, Eq)]
pub struct TokenRow {
    pub user_id: String,
    pub expires_at: Option<String>,
}

/// What `OffsetDateTime::parse(s, &Rfc3339)` gives: the instant in Unix
/// nanoseconds, or the error's text.
pub uninterp spec fn rfc3339_parse(s: Seq<char>) -> Result<int, Seq<char>>;

/// `time::OffsetDateTime::parse` with the RFC 3339 format, taken as Unix
/// nanoseconds (`unix_timestamp_nanos`) or the error's `to_string()`.
/// Claimed: the result is a function of `s` alone (named `rfc3339_parse`).
#[verifier::external_body]
fn parse_rfc3339(s: &str) -> (r: Result<i128, String>)
    ensures
        match r {
            Ok(n) => rfc3339_parse(s@) == Ok::<int, Seq<char>>(n as int),
            Err(m) => rfc3339_parse(s@) == Err::<int, Seq<char>>(m@),
        },
{
    time::OffsetDateTime::parse(s, &time::format_description::well_known::Rfc3339)
        .map(|t| t.unix_timestamp_nanos())
        .map_err(|e| e.to_string())
}

/// Refuse a token whose expiry has passed at `now` (Unix nanoseconds).
pub fn check_not_expired(expires_at: Option<&str>, now: i128) -> (r: Result<(), AuthError>)
    ensures
        match expires_at {
            None => r is Ok,
            Some(s) => match rfc3339_parse(s@) {
                Err(m) => r matches Err(AuthError::TimestampParse(x)) && x@ == m,
                Ok(t) => if t <= now {
                    r == Err::<(), AuthError>(AuthError::TokenExpired)
                } else {
                    r is Ok
                },
            },
        },
{
    match expires_at {
        None => Ok(()),
        Some(s) => match parse_rfc3339(s) {
            Err(m) => Err(AuthError::TimestampParse(m)),
            Ok(t) => if t <= now {
                Err(AuthError::TokenExpired)
            } else {
                Ok(())
            },
        },
    }
}

/// Finish checking a token after its lookup: no row is an unknown token;
/// an expired one is refused; otherwise the user is cached from `now_ms` and
/// returned.
pub fn complete_validation(
    cache: &mut TokenCache,
    key: [u8; 32],
    row: Option<TokenRow>,
    now_utc: i128,
    now_ms: u64,
) -> (r: Result<String, AuthError>)
    requires
        now_ms + CACHE_TTL_MS <= u64::MAX,
    ensures
        match row {
            None => r == Err::<String, AuthError>(AuthError::UnknownToken) && final(cache)@ == old(cache)@,
            Some(row) => {
                let accepted = r matches Ok(u) && u@ == row.user_id@ && final(cache)@ == stored(
                    old(cache)@,
                    CachedTokenV { key: key@, user_id: row.user_id@, expires: (now_ms + CACHE_TTL_MS) as nat },
                );
                match row.expires_at {
                    Some(s) => match rfc3339_parse(s@) {
                        Err(_) => r is Err && final(cache)@ == old(cache)@,
                        Ok(t) => if t <= now_utc {
                            r == Err::<String, AuthError>(AuthError::TokenExpired) && final(cache)@ == old(cache)@
                        } else {
                            accepted
                        },
                    },
                    None => accepted,
                }
            },
        },
{
    let row = match row {
        None => return Err(AuthError::UnknownToken),
        Some(r) => r,
    };
    let ex = match &row.expires_at {
        Some(s) => Some(s.as_str()),
        None => None,
    };
    match check_not_expired(ex, now_utc) {
        Err(e) => return Err(e),
        Ok(()) => {},
    }
    let user = copy_string(&row.user_id);
    cache.store_cached(key, row.user_id, now_ms);
    Ok(user)
}

} // verus!

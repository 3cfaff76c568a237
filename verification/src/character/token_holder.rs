//! The OAuth tokens of a character and when to refresh them.
use vstd::prelude::*;
use crate::json_doc::{JsonDoc, field_of, text_of, u32_of, read_text, read_u32};

verus! {

/// A second in nanoseconds.
pub const NANOS_PER_SECOND: i128 = 1_000_000_000;

/// How long before expiry a token is refreshed, in nanoseconds (20 s).
pub const REFRESH_MARGIN_NANOS: i128 = 20_000_000_000;

/// The earliest Unix time (seconds) of the dates the `time` crate holds
/// (year -100000).
pub const MIN_UNIX_SECONDS: i64 = -3_217_862_419_200;

/// The latest Unix time (seconds) of the dates the `time` crate holds
/// (year 100000).
pub const MAX_UNIX_SECONDS: i64 = 3_093_559_603_199;

/// The access token and the token to renew it with.
pub struct TokenHolder {
    pub access_token: String,
    pub refresh_token: String,
    /// When the access token expires, in Unix seconds.
    pub timestamp: i64,
}

/// Whether a Unix time in seconds is a date the `time` crate holds.
pub open spec fn representable(t: int) -> bool {
    MIN_UNIX_SECONDS <= t <= MAX_UNIX_SECONDS
}

/// A token expiring at `timestamp` (seconds) is due for renewal at
/// `now_nanos` (nanoseconds) when less than 20 seconds of it are left.
pub open spec fn refresh_due(timestamp: int, now_nanos: int) -> bool {
    timestamp * NANOS_PER_SECOND - now_nanos < REFRESH_MARGIN_NANOS
}

/// The expiry, in whole seconds, of a token granted at `now_nanos` for
/// `expires_in` seconds: the second in which the grant instant falls, plus
/// the lifetime.
pub open spec fn expiry_after(now_nanos: int, expires_in: int) -> int {
    now_nanos / NANOS_PER_SECOND as int + expires_in
}

/// Why a token refresh could not be taken in.
#[derive(Clone, Copy, Debug, PartialEq, Eq, Structural)]
pub enum TokenRefreshError {
    /// The login answer did not say how long the token lives.
    MissingExpiry,
    /// The expiry is past the dates the `time` crate holds.
    OutOfRange,
}

/// An instant, in nanoseconds since the Unix epoch, that an
/// `OffsetDateTime` of the `time` crate can hold: from the first nanosecond
/// of year -100000 to the last one of year 100000.
pub open spec fn clock_instant(nanos: int) -> bool {
    MIN_UNIX_SECONDS * NANOS_PER_SECOND <= nanos < (MAX_UNIX_SECONDS + 1) * NANOS_PER_SECOND
}

/// The current time in nanoseconds since the Unix epoch, as the `time`
/// crate reads the system clock (`OffsetDateTime::now_utc`, then
/// `unix_timestamp_nanos`). Which instant comes back is the clock's; the
/// contract claims only that it is one the crate's dates hold, as every
/// `OffsetDateTime` is (its date is checked to lie in years -100000 to
/// 100000, and `now_utc` panics rather than leave that range).
#[verifier::external_body]
fn unix_now_nanos() -> (r: i128)
    ensures
        clock_instant(r as int),
{
    time::OffsetDateTime::now_utc().unix_timestamp_nanos()
}

/// The new expiry (Unix seconds) of a token granted at `now_nanos` for
/// `expires_in` seconds, or why it cannot be taken in.
pub open spec fn refresh_outcome(expires_in: Option<u32>, now_nanos: int) -> Result<int, TokenRefreshError> {
    match expires_in {
        None => Err(TokenRefreshError::MissingExpiry),
        Some(e) => if representable(expiry_after(now_nanos, e as int)) {
            Ok(expiry_after(now_nanos, e as int))
        } else {
            Err(TokenRefreshError::OutOfRange)
        },
    }
}

/// A refresh without a lifetime is refused as such; one with a lifetime
/// gives a representable expiry that lies `expires_in` seconds after the
/// grant, to within the second the grant falls in, or is refused as out of
/// range.
pub proof fn lemma_refresh_outcome(expires_in: Option<u32>, now_nanos: int)
    ensures
        expires_in is None ==> refresh_outcome(expires_in, now_nanos) == Err::<int, TokenRefreshError>(
            TokenRefreshError::MissingExpiry,
        ),
        expires_in matches Some(e) ==> match refresh_outcome(expires_in, now_nanos) {
            Ok(t) => representable(t) && t * 1_000_000_000 <= now_nanos + e * 1_000_000_000 < t * 1_000_000_000
                + 1_000_000_000,
            Err(err) => err == TokenRefreshError::OutOfRange && !representable(
                now_nanos / 1_000_000_000 + e,
            ),
        },
{
    let q = now_nanos / 1_000_000_000;
    assert(q * 1_000_000_000 <= now_nanos < q * 1_000_000_000 + 1_000_000_000);
}

impl TokenHolder {
    /// Whether the access token is due for renewal at `now_nanos`.
    pub fn is_need_to_update_token_at(&self, now_nanos: i128) -> (r: bool)
        requires
            representable(self.timestamp as int),
        ensures
            r == refresh_due(self.timestamp as int, now_nanos as int),
    {
        let expiry: i128 = (self.timestamp as i128) * NANOS_PER_SECOND;
        match expiry.checked_sub(now_nanos) {
            Some(left) => left < REFRESH_MARGIN_NANOS,
            // the difference left the i128 range: far in the past or the future
            None => now_nanos > 0,
        }
    }

    /// Whether the access token is due for renewal now (reads the clock):
    /// the renewal rule applied to the instant the clock gave.
    pub fn is_need_to_update_token(&self) -> (r: bool)
        requires
            representable(self.timestamp as int),
        ensures
            exists|now: int| #[trigger] clock_instant(now) && r == refresh_due(self.timestamp as int, now),
    {
        let now = unix_now_nanos();
        let r = self.is_need_to_update_token_at(now);
        assert(clock_instant(now as int) && r == refresh_due(self.timestamp as int, now as int));
        r
    }

    /// Takes in a new access token granted at `now_nanos` for `expires_in`
    /// seconds. Without a lifetime, or with an expiry past the dates the
    /// `time` crate holds, nothing changes and the error says why.
    pub fn accept_refresh_at(
        &mut self,
        access_token: String,
        expires_in: Option<u32>,
        now_nanos: i128,
    ) -> (r: Result<(), TokenRefreshError>)
        ensures
            final(self).refresh_token == old(self).refresh_token,
            match expires_in {
                None => r == Err::<(), TokenRefreshError>(TokenRefreshError::MissingExpiry),
                Some(e) => if representable(expiry_after(now_nanos as int, e as int)) {
                    &&& r is Ok
                    &&& final(self).access_token == access_token
                    &&& final(self).timestamp == expiry_after(now_nanos as int, e as int)
                } else {
                    r == Err::<(), TokenRefreshError>(TokenRefreshError::OutOfRange)
                },
            },
            r is Err ==> *final(self) == *old(self),
            match refresh_outcome(expires_in, now_nanos as int) {
                Ok(t) => r is Ok && final(self).timestamp == t && final(self).access_token == access_token,
                Err(e) => r == Err::<(), TokenRefreshError>(e),
            },
    {
        let e = match expires_in {
            Some(e) => e,
            None => { return Err(TokenRefreshError::MissingExpiry); },
        };
        let seconds: i128 = match now_nanos.checked_div_euclid(NANOS_PER_SECOND) {
            Some(s) => s,
            None => { return Err(TokenRefreshError::OutOfRange); },
        };
        let expiry: i128 = seconds + (e as i128);
        if expiry < (MIN_UNIX_SECONDS as i128) || expiry > (MAX_UNIX_SECONDS as i128) {
            return Err(TokenRefreshError::OutOfRange);
        }
        self.access_token = access_token;
        self.timestamp = expiry as i64;
        Ok(())
    }

    /// Takes in a new access token granted now (reads the clock) for
    /// `expires_in` seconds: `accept_refresh_at` at the instant the clock
    /// gave.
    pub fn accept_refresh(&mut self, access_token: String, expires_in: Option<u32>) -> (r: Result<(), TokenRefreshError>)
        ensures
            final(self).refresh_token == old(self).refresh_token,
            expires_in is None ==> r == Err::<(), TokenRefreshError>(TokenRefreshError::MissingExpiry),
            expires_in is Some ==> r != Err::<(), TokenRefreshError>(TokenRefreshError::MissingExpiry),
            r is Ok ==> final(self).access_token == access_token && representable(final(self).timestamp as int),
            r is Err ==> *final(self) == *old(self),
            exists|now: int| #[trigger] clock_instant(now) && (expires_in matches Some(e) ==> if representable(
                expiry_after(now, e as int),
            ) {
                &&& r is Ok
                &&& final(self).access_token == access_token
                &&& final(self).timestamp == expiry_after(now, e as int)
            } else {
                r == Err::<(), TokenRefreshError>(TokenRefreshError::OutOfRange)
            }),
    {
        let now = unix_now_nanos();
        let r = self.accept_refresh_at(access_token, expires_in, now);
        assert(clock_instant(now as int));
        r
    }
}

/// What an answer of the login service says: the text of its
/// `access_token` field and the lifetime in its `expires_in` field.
pub struct LoginAnswer {
    pub access_token: String,
    pub expires_in: Option<u32>,
}

/// Reads a login answer: `access_token` as `JsonValue::to_string` writes
/// it, `expires_in` as `JsonValue::as_u32` reads it.
pub fn read_login_answer(answer: &JsonDoc) -> (r: LoginAnswer)
    ensures
        r.access_token@ == text_of(field_of(*answer, "access_token"@)),
        r.expires_in == u32_of(field_of(*answer, "expires_in"@)),
{
    LoginAnswer {
        access_token: read_text(answer.get("access_token")),
        expires_in: read_u32(answer.get("expires_in")),
    }
}

/// A token granted for more than 20 seconds is not due for renewal at the
/// instant it is granted.
pub proof fn lemma_fresh_token_not_due(now_nanos: int, expires_in: int)
    requires
        expires_in > 20,
    ensures
        !refresh_due(expiry_after(now_nanos, expires_in), now_nanos),
{
    let q = now_nanos / 1_000_000_000;
    assert(q * 1_000_000_000 <= now_nanos < q * 1_000_000_000 + 1_000_000_000);
}


/// A token granted at instant `now_nanos` for `expires_in` seconds expires
/// `expires_in` seconds after the start of the second the grant falls in;
/// it is due for renewal exactly when less than 20 seconds of it are left.
pub proof fn lemma_expiry_and_renewal(now_nanos: int, expires_in: int, timestamp: int)
    ensures
        expiry_after(now_nanos, expires_in) * 1_000_000_000 <= now_nanos + expires_in * 1_000_000_000
            < expiry_after(now_nanos, expires_in) * 1_000_000_000 + 1_000_000_000,
        timestamp * 1_000_000_000 >= now_nanos + 20_000_000_000 ==> !refresh_due(timestamp, now_nanos),
        timestamp * 1_000_000_000 < now_nanos + 20_000_000_000 ==> refresh_due(timestamp, now_nanos),
{
    let q = now_nanos / 1_000_000_000;
    assert(q * 1_000_000_000 <= now_nanos < q * 1_000_000_000 + 1_000_000_000);
}

} // verus!

//! The rules of the package store: how the replication checkpoint is kept,
//! when a stored package is refreshed from the registry, and what the health
//! check answers.
use vstd::prelude::*;
use vstd::string::StringExecFns;

use crate::document::{MinimalPackageData, MinimalPackageVersionData};
use crate::error::ServerError;

verus! {

/// A stored package older than this many seconds is refreshed on demand.
pub const REFRESH_AFTER_SECS: u64 = 60;

/// The store key of the replication checkpoint.
pub open spec fn last_seq_key_spec() -> Seq<u8> {
    seq![35u8, 67u8, 68u8, 78u8, 95u8, 76u8, 65u8, 83u8, 84u8, 95u8, 83u8, 89u8, 78u8, 67u8]
}

/// The store key of the replication checkpoint, `#CDN_LAST_SYNC`.
pub fn last_seq_key() -> (r: Vec<u8>)
    ensures
        r@ == last_seq_key_spec(),
{
    let r: Vec<u8> = vec![35u8, 67u8, 68u8, 78u8, 95u8, 76u8, 65u8, 83u8, 84u8, 95u8, 83u8, 89u8, 78u8, 67u8];
    assert(r@ =~= last_seq_key_spec());
    r
}

/// The 64-bit word whose little-endian bytes are `b0` (lowest) to `b7`.
pub open spec fn le_word(b0: u8, b1: u8, b2: u8, b3: u8, b4: u8, b5: u8, b6: u8, b7: u8) -> u64 {
    (b0 as u64) | ((b1 as u64) << 8u64) | ((b2 as u64) << 16u64) | ((b3 as u64) << 24u64) | ((
    b4 as u64) << 32u64) | ((b5 as u64) << 40u64) | ((b6 as u64) << 48u64) | ((b7 as u64)
        << 56u64)
}

/// The checkpoint that eight stored bytes hold: a little-endian
/// two's-complement 64-bit integer.
pub open spec fn last_seq_of(b: Seq<u8>) -> i64 {
    le_word(b[0], b[1], b[2], b[3], b[4], b[5], b[6], b[7]) as i64
}

/// The eight little-endian bytes of the two's-complement form of `seq`.
pub open spec fn last_seq_bytes(seq: i64) -> Seq<u8> {
    let u: u64 = seq as u64;
    seq![
        u as u8,
        (u >> 8u64) as u8,
        (u >> 16u64) as u8,
        (u >> 24u64) as u8,
        (u >> 32u64) as u8,
        (u >> 40u64) as u8,
        (u >> 48u64) as u8,
        (u >> 56u64) as u8,
    ]
}

/// The text of the error for a checkpoint that is not eight bytes long.
pub open spec fn corrupt_last_seq_message() -> Seq<char> {
    "corrupt #CDN_LAST_SYNC value"@
}

/// The checkpoint held by the stored value `stored` (`None` where nothing
/// is stored, which counts as checkpoint 0).
pub fn decode_last_seq(stored: Option<Vec<u8>>) -> (r: Result<i64, ServerError>)
    ensures
        match stored {
            None => r == Ok::<i64, ServerError>(0),
            Some(b) => if b@.len() == 8 {
                r == Ok::<i64, ServerError>(last_seq_of(b@))
            } else {
                r matches Err(ServerError::UnexpectedError { message }) && message@
                    == corrupt_last_seq_message()
            },
        },
{
    match stored {
        None => Ok(0),
        Some(b) => {
            if b.len() != 8 {
                return Err(
                    ServerError::UnexpectedError {
                        message: String::from_str("corrupt #CDN_LAST_SYNC value"),
                    },
                );
            }
            let word: u64 = (b[0] as u64) | ((b[1] as u64) << 8u64) | ((b[2] as u64) << 16u64) | ((
            b[3] as u64) << 24u64) | ((b[4] as u64) << 32u64) | ((b[5] as u64) << 40u64) | ((
            b[6] as u64) << 48u64) | ((b[7] as u64) << 56u64);
            Ok(word as i64)
        },
    }
}

/// The stored form of the checkpoint `seq`.
pub fn encode_last_seq(seq: i64) -> (r: Vec<u8>)
    ensures
        r@ == last_seq_bytes(seq),
{
    let u: u64 = seq as u64;
    let r: Vec<u8> = vec![
        u as u8,
        (u >> 8u64) as u8,
        (u >> 16u64) as u8,
        (u >> 24u64) as u8,
        (u >> 32u64) as u8,
        (u >> 40u64) as u8,
        (u >> 48u64) as u8,
        (u >> 56u64) as u8,
    ];
    assert(r@ =~= last_seq_bytes(seq));
    r
}

/// Reading back a stored checkpoint gives the checkpoint that was stored.
pub proof fn lemma_last_seq_roundtrip(seq: i64)
    ensures
        last_seq_bytes(seq).len() == 8,
        last_seq_of(last_seq_bytes(seq)) == seq,
{
    let u: u64 = seq as u64;
    let b: Seq<u8> = last_seq_bytes(seq);
    let b0: u8 = b[0];
    let b1: u8 = b[1];
    let b2: u8 = b[2];
    let b3: u8 = b[3];
    let b4: u8 = b[4];
    let b5: u8 = b[5];
    let b6: u8 = b[6];
    let b7: u8 = b[7];
    assert(le_word(b0, b1, b2, b3, b4, b5, b6, b7) == u) by (bit_vector)
        requires
            b0 == u as u8,
            b1 == (u >> 8u64) as u8,
            b2 == (u >> 16u64) as u8,
            b3 == (u >> 24u64) as u8,
            b4 == (u >> 32u64) as u8,
            b5 == (u >> 40u64) as u8,
            b6 == (u >> 48u64) as u8,
            b7 == (u >> 56u64) as u8,
    ;
    assert((u as i64) == seq) by (bit_vector)
        requires
            u == seq as u64,
    ;
}

/// A stored package with refresh time `last_updated` is stale at time `now`:
/// it was never stamped, or more than `REFRESH_AFTER_SECS` seconds have
/// passed (a refresh time in the future counts as fresh).
pub open spec fn is_stale(last_updated: Option<u64>, now: u64) -> bool {
    match last_updated {
        None => true,
        Some(t) => now > t && now - t > REFRESH_AFTER_SECS,
    }
}

/// Whether a package must be fetched from the registry, given what the
/// store answered for it (`Ok` with the refresh time of the stored package,
/// or the error of the lookup) and the time `now`: a missing package is
/// fetched, a stale one too; any other lookup error is passed on.
pub fn needs_refresh(lookup: Result<Option<u64>, ServerError>, now: u64) -> (r: Result<
    bool,
    ServerError,
>)
    ensures
        match lookup {
            Ok(last_updated) => r == Ok::<bool, ServerError>(is_stale(last_updated, now)),
            Err(ServerError::PackageNotFound(_)) => r == Ok::<bool, ServerError>(true),
            Err(e) => r == Err::<bool, ServerError>(e),
        },
{
    match lookup {
        Ok(last_updated) => match last_updated {
            None => Ok(true),
            Some(t) => {
                let diff: u64 = now.saturating_sub(t);
                Ok(diff > REFRESH_AFTER_SECS)
            },
        },
        Err(ServerError::PackageNotFound(_)) => Ok(true),
        Err(e) => Err(e),
    }
}

/// A package stamped at `t` is not refreshed again within
/// `REFRESH_AFTER_SECS` seconds, nor at any time that the clock reads as
/// before `t`; after that window it is.
pub proof fn lemma_refresh_window(t: u64, now: u64)
    ensures
        now <= t + REFRESH_AFTER_SECS ==> !is_stale(Some(t), now),
        now > t + REFRESH_AFTER_SECS ==> is_stale(Some(t), now),
        is_stale(None, now),
{
}

/// The answer of the health check, status then body, given the outcome of
/// reading the checkpoint (`None` where the read could not run at all): a
/// store that answers, even with checkpoint 0, is healthy.
pub fn health_reply(check: Option<Result<i64, ServerError>>) -> (r: (u16, String))
    ensures
        (check matches Some(Ok(_))) ==> r.0 == 200 && r.1@ == "ok"@,
        !(check matches Some(Ok(_))) ==> r.0 == 500 && r.1@ == "db unavailable"@,
{
    match check {
        Some(Ok(_)) => (200, String::from_str("ok")),
        _ => (500, String::from_str("db unavailable")),
    }
}

/// How the store records a package that is written to it.
#[derive(Debug, Clone, Copy, PartialEq, Eq)]
pub enum StoreWrite {
    /// The package has no versions: its row is deleted.
    Delete,
    /// The package is stored under its name, and its cached copy forgotten.
    Put,
}

/// How a write of `pkg` is recorded: a package without versions is deleted
/// from the store, any other one is stored.
pub fn write_plan(pkg: &MinimalPackageData) -> (r: StoreWrite)
    ensures
        r == (if pkg.versions@ == Map::<Seq<char>, MinimalPackageVersionData>::empty() {
            StoreWrite::Delete
        } else {
            StoreWrite::Put
        }),
{
    if pkg.versions.is_empty() {
        StoreWrite::Delete
    } else {
        StoreWrite::Put
    }
}

} // verus!

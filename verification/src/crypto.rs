//! SHA-256 and HMAC-SHA256 (through the `sha2` and `hmac` crates), and the
//! wall clock.

use vstd::prelude::*;
use hmac::Mac as _;
use sha2::Digest as _;

verus! {

/// The SHA-256 digest of `data`, as computed by `sha2::Sha256`.
pub uninterp spec fn spec_sha256(data: Seq<u8>) -> Seq<u8>;

/// The HMAC-SHA256 tag of `msg` under `key`, as computed by
/// `hmac::Hmac<sha2::Sha256>`.
pub uninterp spec fn spec_hmac_sha256(key: Seq<u8>, msg: Seq<u8>) -> Seq<u8>;

/// `Sha256::digest`: the named digest of the input, 32 bytes long.
#[verifier::external_body]
pub(crate) fn sha256(data: &[u8]) -> (res: Vec<u8>)
    ensures
        res@ == spec_sha256(data@),
        res@.len() == 32,
{
    sha2::Sha256::digest(data).to_vec()
}

/// HMAC-SHA256 tag of `msg` under `key` (`Hmac::<Sha256>::new_from_slice`,
/// then `chain_update` and `finalize`): the named tag, 32 bytes long.
/// `new_from_slice` accepts keys of every length for HMAC (a long key is
/// hashed first) and always returns `Ok`, so the `expect` never fires.
#[verifier::external_body]
pub(crate) fn hmac_sha256(key: &[u8], msg: &[u8]) -> (res: Vec<u8>)
    ensures
        res@ == spec_hmac_sha256(key@, msg@),
        res@.len() == 32,
{
    hmac::Hmac::<sha2::Sha256>::new_from_slice(key)
        .expect("HMAC accepts any key length")
        .chain_update(msg)
        .finalize()
        .into_bytes()
        .to_vec()
}

/// Tag check (`new_from_slice`, `chain_update`, then `Mac::verify_slice`):
/// true exactly when `tag` equals the HMAC-SHA256 tag of `msg` under `key`,
/// which is 32 bytes long (a tag of another length fails).
#[verifier::external_body]
pub(crate) fn hmac_sha256_verify(key: &[u8], msg: &[u8], tag: &[u8]) -> (res: bool)
    ensures
        res == (tag@ == spec_hmac_sha256(key@, msg@)),
        res ==> tag@.len() == 32,
{
    hmac::Hmac::<sha2::Sha256>::new_from_slice(key)
        .expect("HMAC accepts any key length")
        .chain_update(msg)
        .verify_slice(tag)
        .is_ok()
}

#[verifier::external_type_specification]
#[verifier::external_body]
pub struct ExSystemTime(std::time::SystemTime);

/// `SystemTime::now`: the system clock's current time. Nothing is stated of
/// it: it is the time.
#[verifier::external_body]
fn system_time_now() -> (res: std::time::SystemTime) {
    std::time::SystemTime::now()
}

/// `SystemTime::duration_since(UNIX_EPOCH)`: the time elapsed since the
/// epoch, `None` for a time before it. Nothing is stated of the value.
#[verifier::external_body]
fn since_unix_epoch(t: &std::time::SystemTime) -> (res: Option<core::time::Duration>) {
    t.duration_since(std::time::UNIX_EPOCH).ok()
}

/// `Duration::as_secs`: its whole seconds. Nothing is stated of the value.
#[verifier::external_body]
fn whole_secs(d: &core::time::Duration) -> (res: u64) {
    d.as_secs()
}

/// Seconds since the Unix epoch by the system clock, 0 when the clock is
/// before the epoch.
pub(crate) fn unix_now_secs() -> (res: u64) {
    match since_unix_epoch(&system_time_now()) {
        Some(d) => whole_secs(&d),
        None => 0,
    }
}

} // verus!

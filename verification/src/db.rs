use vstd::prelude::*;
use vstd::string::StringSliceAdditionalSpecFns;

use crate::time::{get_local_date_time_with_t, spec_format_with_t, CwbTime};

verus! {

/// sled's database handle.  Opaque here: what it holds lives on disk
/// and is tracked only through `EqDb`'s ghost model.
#[verifier::external_type_specification]
#[verifier::external_body]
pub struct ExSledDb(sled::Db);

/// sled's error type.  Callers see only `()`: which way the store
/// failed never changes what the service does.
#[verifier::external_type_specification]
#[verifier::external_body]
pub struct ExSledError(sled::Error);

/// Whether the bytes a read handed back are the modeled ones: both
/// absent, or both present and equal.
pub open spec fn bytes_match(stored: Option<Seq<u8>>, got: Option<Vec<u8>>) -> bool {
    match (stored, got) {
        (Option::Some(b), Option::Some(v)) => v@ == b,
        (Option::None, Option::None) => true,
        _ => false,
    }
}

/// The persisted watermark store: one sled tree holding the single
/// `last_time` key, beside a ghost model of that key's bytes.
///
/// The model is honest because this service is the store's only
/// reader and writer: the bytes under the key change only through the
/// trusted wrappers below, whose contracts keep the model in step.
pub struct EqDb {
    db: sled::Db,
    stored: Ghost<Option<Seq<u8>>>,
}

impl EqDb {
    /// The bytes under the watermark key, `None` when absent.  Unknown
    /// right after opening, pinned again by every successful write.
    pub closed spec fn stored_bytes(self) -> Option<Seq<u8>> {
        self.stored@
    }
}

/// Relies on String::from_utf8: `Some` exactly on valid UTF-8, and the
/// returned string's characters encode back to the input bytes.
#[verifier::external_body]
fn bytes_to_string(v: Vec<u8>) -> (r: Option<String>)
    ensures
        r is Some <==> vstd::utf8::valid_utf8(v@),
        r matches Some(s) ==> vstd::utf8::encode_utf8(s@) == v@,
{
    match String::from_utf8(v) {
        Ok(s) => Some(s),
        Err(_) => None,
    }
}

impl EqDb {
    /// Relies on sled::open: opens (creating if absent) the tree at
    /// `path`.  The key then holds whatever the disk held, so the
    /// model of the fresh handle is unconstrained.
    #[verifier::external_body]
    pub fn new(path: &str) -> Result<EqDb, ()> {
        match sled::open(path) {
            Ok(db) => Ok(EqDb { db, stored: Ghost::new(None) }),
            Err(_) => Err(()),
        }
    }

    /// Relies on sled::Tree::get: a successful read returns exactly
    /// the bytes under the key, which the model names.
    #[verifier::external_body]
    fn db_get(&self) -> (r: Result<Option<Vec<u8>>, sled::Error>)
        ensures
            r matches Ok(got) ==> bytes_match(self.stored_bytes(), got),
    {
        match self.db.get("last_time".as_bytes()) {
            Ok(Some(iv)) => Ok(Some(iv.as_ref().to_vec())),
            Ok(None) => Ok(None),
            Err(e) => Err(e),
        }
    }

    /// Relies on sled::Tree::insert: stores the bytes of `val` under
    /// the key, dropping what was there.  The write of one key is
    /// atomic, so even a failed call leaves either the old value or
    /// the new one.
    #[verifier::external_body]
    fn db_insert(&mut self, val: &str) -> (r: Result<(), sled::Error>)
        ensures
            r is Ok ==> final(self).stored_bytes() == Some(val.spec_bytes()),
            final(self).stored_bytes() == Some(val.spec_bytes()) || final(self).stored_bytes() == old(self).stored_bytes(),
    {
        match self.db.insert("last_time", val.as_bytes()) {
            Ok(_) => Ok(()),
            Err(e) => Err(e),
        }
    }

    /// The stored watermark string.  `Ok(s)` only when the key holds
    /// bytes that are text and `s` is their decoding; so with no value
    /// stored, or bytes that are not UTF-8, the result is `Err`, as it
    /// also is when the read itself fails.
    pub fn get_last_time(&self) -> (r: Result<String, ()>)
        ensures
            r matches Ok(s) ==> self.stored_bytes() matches Some(b) && vstd::utf8::valid_utf8(b)
                && vstd::utf8::encode_utf8(s@) == b,
    {
        match self.db_get() {
            Ok(Some(bytes)) => match bytes_to_string(bytes) {
                Some(s) => Ok(s),
                None => Err(()),
            },
            Ok(None) => Err(()),
            Err(_) => Err(()),
        }
    }

    /// Persists a new watermark.  `Ok` means the key now holds exactly
    /// the string's bytes; on a failed write the key holds either the
    /// old value or the new one, and the next poll re-offers the same
    /// events, so the caller may ignore the failure as the service
    /// always has.
    pub fn store_last_time(&mut self, new_last_time: String) -> (r: Result<(), ()>)
        ensures
            r is Ok ==> final(self).stored_bytes() == Some(vstd::utf8::encode_utf8(new_last_time@)),
            final(self).stored_bytes() == Some(vstd::utf8::encode_utf8(new_last_time@)) || final(self).stored_bytes() == old(self).stored_bytes(),
    {
        match self.db_insert(new_last_time.as_str()) {
            Ok(_) => Ok(()),
            Err(_) => Err(()),
        }
    }

    /// Startup step: if no watermark is stored yet, seed one with the
    /// current local time.  `Ok` leaves a value under the key; a value
    /// that was already there is never touched; and a seeded value is
    /// the canonical formatting of a well-formed instant, so the
    /// freshness decision can always read it back.
    pub fn check_last_time_create_if_not_exist(&mut self) -> (r: Result<(), ()>)
        ensures
            r is Ok ==> final(self).stored_bytes() is Some,
            old(self).stored_bytes() matches Some(b) ==> final(self).stored_bytes() == Some(b),
            r is Ok && old(self).stored_bytes() is None ==> exists|t: CwbTime|
                t.wf() && final(self).stored_bytes() == Some(
                    vstd::utf8::encode_utf8(#[trigger] spec_format_with_t(t)),
                ),
    {
        match self.db_get() {
            Ok(Some(_)) => Ok(()),
            Ok(None) => {
                let time_now = get_local_date_time_with_t();
                match self.db_insert(time_now.as_str()) {
                    Ok(_) => {
                        proof {
                            let t = choose|t: CwbTime|
                                t.wf() && time_now@ == spec_format_with_t(t);
                            assert(final(self).stored_bytes() == Some(
                                vstd::utf8::encode_utf8(spec_format_with_t(t)),
                            ));
                        }
                        Ok(())
                    },
                    Err(_) => Err(()),
                }
            },
            Err(_) => Err(()),
        }
    }
}

} // verus!

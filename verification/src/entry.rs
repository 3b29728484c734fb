//! The unit stored in the versioned entry store.
//!
//! An [`Entry`] carries either a caller-serialized payload or a tagged error,
//! plus the insertion timestamp. Two entries count as equal exactly when their
//! `data` fields are equal; the timestamp is ignored. Entries are persisted in
//! a length-prefixed binary encoding defined here, with a proved round trip.

use vstd::prelude::*;
use vstd::string::StrSliceExecFns;
use vstd::string::StringExecFns;
use vstd::utf8::{encode_utf8, decode_utf8, valid_utf8};
use crate::codec::{spec_u64_to_be_bytes, spec_u64_from_be_bytes, u64_to_be_bytes, u64_from_be_bytes, lemma_u64_be_bytes_roundtrip};

verus! {

/// A tagged error stored in place of a payload.
#[derive(Debug)]
pub enum EntryError {
    NotYetResolved(String),
    KeyDoesNotExist(String),
    EntryReserved(String),
    Error(String),
}

/// The mathematical value of an [`EntryError`]: the same tag over the
/// message's character sequence.
pub enum EntryErrorSpec {
    NotYetResolved(Seq<char>),
    KeyDoesNotExist(Seq<char>),
    EntryReserved(Seq<char>),
    Error(Seq<char>),
}

impl View for EntryError {
    type V = EntryErrorSpec;

    open spec fn view(&self) -> EntryErrorSpec {
        match self {
            EntryError::NotYetResolved(s) => EntryErrorSpec::NotYetResolved(s@),
            EntryError::KeyDoesNotExist(s) => EntryErrorSpec::KeyDoesNotExist(s@),
            EntryError::EntryReserved(s) => EntryErrorSpec::EntryReserved(s@),
            EntryError::Error(s) => EntryErrorSpec::Error(s@),
        }
    }
}

impl PartialEq for EntryError {
    fn eq(&self, other: &EntryError) -> (r: bool) {
        match (self, other) {
            (EntryError::NotYetResolved(a), EntryError::NotYetResolved(b)) => *a == *b,
            (EntryError::KeyDoesNotExist(a), EntryError::KeyDoesNotExist(b)) => *a == *b,
            (EntryError::EntryReserved(a), EntryError::EntryReserved(b)) => *a == *b,
            (EntryError::Error(a), EntryError::Error(b)) => *a == *b,
            _ => false,
        }
    }
}

impl vstd::std_specs::cmp::PartialEqSpecImpl for EntryError {
    open spec fn obeys_eq_spec() -> bool {
        true
    }

    open spec fn eq_spec(&self, other: &EntryError) -> bool {
        self@ == other@
    }
}

impl Clone for EntryError {
    fn clone(&self) -> (r: EntryError)
        ensures
            r@ == self@,
    {
        match self {
            EntryError::NotYetResolved(s) => EntryError::NotYetResolved(s.clone()),
            EntryError::KeyDoesNotExist(s) => EntryError::KeyDoesNotExist(s.clone()),
            EntryError::EntryReserved(s) => EntryError::EntryReserved(s.clone()),
            EntryError::Error(s) => EntryError::Error(s.clone()),
        }
    }
}

/// The stored value wrapper: a payload or an error, plus seconds since the
/// Unix epoch at insert time.
#[derive(Debug)]
pub struct Entry {
    pub data: Result<Vec<u8>, EntryError>,
    pub timestamp: i64,
}

/// The mathematical value of an [`Entry`].
pub struct EntrySpec {
    pub data: Result<Seq<u8>, EntryErrorSpec>,
    pub timestamp: i64,
}

impl View for Entry {
    type V = EntrySpec;

    open spec fn view(&self) -> EntrySpec {
        EntrySpec {
            data: match &self.data {
                Ok(payload) => Ok(payload@),
                Err(e) => Err(e@),
            },
            timestamp: self.timestamp,
        }
    }
}

/// Entries compare equal exactly when their `data` fields are equal; the
/// timestamp does not take part.
impl PartialEq for Entry {
    fn eq(&self, other: &Entry) -> (r: bool) {
        data_eq(&self.data, &other.data)
    }
}

impl vstd::std_specs::cmp::PartialEqSpecImpl for Entry {
    open spec fn obeys_eq_spec() -> bool {
        true
    }

    open spec fn eq_spec(&self, other: &Entry) -> bool {
        self@.data == other@.data
    }
}

/// Compares two byte payloads by contents.
fn bytes_eq(a: &Vec<u8>, b: &Vec<u8>) -> (r: bool)
    ensures
        r == (a@ == b@),
{
    if a.len() != b.len() {
        proof {
            assert(a@ != b@);
        }
        return false;
    }
    let mut i: usize = 0;
    while i < a.len()
        invariant
            0 <= i <= a.len(),
            a@.len() == b@.len(),
            forall|j: int| 0 <= j < i ==> a@[j] == b@[j],
        decreases a.len() - i,
    {
        if a[i] != b[i] {
            proof {
                assert(a@ != b@);
            }
            return false;
        }
        i += 1;
    }
    proof {
        assert(a@ =~= b@);
    }
    true
}

/// Compares two entry data fields by value.
pub fn data_eq(a: &Result<Vec<u8>, EntryError>, b: &Result<Vec<u8>, EntryError>) -> (r: bool)
    ensures
        r == (spec_data_view(a) == spec_data_view(b)),
{
    match (a, b) {
        (Ok(x), Ok(y)) => bytes_eq(x, y),
        (Err(x), Err(y)) => x == y,
        _ => false,
    }
}

/// The mathematical value of an entry data field.
pub open spec fn spec_data_view(d: &Result<Vec<u8>, EntryError>) -> Result<Seq<u8>, EntryErrorSpec> {
    match d {
        Ok(payload) => Ok(payload@),
        Err(e) => Err(e@),
    }
}

impl Clone for Entry {
    fn clone(&self) -> (r: Entry)
        ensures
            r@ == self@,
    {
        Entry {
            data: match &self.data {
                Ok(payload) => Ok(payload.clone()),
                Err(e) => Err(e.clone()),
            },
            timestamp: self.timestamp,
        }
    }
}

impl Entry {
    /// Builds an entry around `data`, timestamped with the given clock value.
    pub fn new(data: Result<Vec<u8>, EntryError>, now: i64) -> (r: Entry)
        ensures
            r@.data == spec_data_view(&data),
            r@.timestamp == now,
    {
        Entry { data, timestamp: now }
    }

    /// True exactly when this entry's data equals `data`; timestamps play no
    /// part in the comparison.
    pub fn is_same_data(&self, data: &Result<Vec<u8>, EntryError>) -> (r: bool)
        ensures
            r == (self@.data == spec_data_view(data)),
    {
        data_eq(&self.data, data)
    }
}

/// The message carried by an error value.
pub open spec fn spec_error_message(e: EntryErrorSpec) -> Seq<char> {
    match e {
        EntryErrorSpec::NotYetResolved(s) => s,
        EntryErrorSpec::KeyDoesNotExist(s) => s,
        EntryErrorSpec::EntryReserved(s) => s,
        EntryErrorSpec::Error(s) => s,
    }
}

/// The tag byte under which an entry data field is encoded.
pub open spec fn spec_data_tag(d: Result<Seq<u8>, EntryErrorSpec>) -> u8 {
    match d {
        Ok(_) => 0u8,
        Err(EntryErrorSpec::NotYetResolved(_)) => 1u8,
        Err(EntryErrorSpec::KeyDoesNotExist(_)) => 2u8,
        Err(EntryErrorSpec::EntryReserved(_)) => 3u8,
        Err(EntryErrorSpec::Error(_)) => 4u8,
    }
}

/// The payload bytes under which an entry data field is encoded: the raw
/// payload for a success, the UTF-8 encoding of the message for an error.
pub open spec fn spec_data_payload(d: Result<Seq<u8>, EntryErrorSpec>) -> Seq<u8> {
    match d {
        Ok(payload) => payload,
        Err(e) => encode_utf8(spec_error_message(e)),
    }
}

/// The binary encoding of an entry: one tag byte, the payload length as eight
/// big-endian bytes, the payload, and the timestamp as eight big-endian bytes.
pub open spec fn spec_encode_entry(v: EntrySpec) -> Seq<u8> {
    let payload = spec_data_payload(v.data);
    seq![spec_data_tag(v.data)] + spec_u64_to_be_bytes(payload.len() as u64) + payload
        + spec_u64_to_be_bytes(v.timestamp as u64)
}

/// An encoding is well-sized when its payload length fits the length field.
pub open spec fn spec_entry_wf(v: EntrySpec) -> bool {
    spec_data_payload(v.data).len() <= u64::MAX
}

/// The entry read back from a binary encoding, or `None` where the bytes are
/// not a well-formed encoding.
pub open spec fn spec_decode_entry(b: Seq<u8>) -> Option<EntrySpec> {
    if b.len() < 17 {
        None
    } else {
        let tag = b[0];
        let len = spec_u64_from_be_bytes(b.subrange(1, 9)) as int;
        if b.len() != 17 + len {
            None
        } else {
            let payload = b.subrange(9, 9 + len);
            let ts = spec_u64_from_be_bytes(b.subrange(9 + len, 17 + len)) as i64;
            if tag == 0 {
                Some(EntrySpec { data: Ok(payload), timestamp: ts })
            } else if 1 <= tag <= 4 && valid_utf8(payload) {
                let msg = decode_utf8(payload);
                let e = if tag == 1 {
                    EntryErrorSpec::NotYetResolved(msg)
                } else if tag == 2 {
                    EntryErrorSpec::KeyDoesNotExist(msg)
                } else if tag == 3 {
                    EntryErrorSpec::EntryReserved(msg)
                } else {
                    EntryErrorSpec::Error(msg)
                };
                Some(EntrySpec { data: Err(e), timestamp: ts })
            } else {
                None
            }
        }
    }
}

/// Decoding inverts encoding: any well-sized entry value is read back intact
/// from its own encoding.
pub proof fn lemma_entry_codec_roundtrip(v: EntrySpec)
    requires
        spec_entry_wf(v),
    ensures
        spec_decode_entry(spec_encode_entry(v)) == Some(v),
{
    let payload = spec_data_payload(v.data);
    let b = spec_encode_entry(v);
    lemma_u64_be_bytes_roundtrip(payload.len() as u64);
    lemma_u64_be_bytes_roundtrip(v.timestamp as u64);
    assert(b.subrange(1, 9) =~= spec_u64_to_be_bytes(payload.len() as u64));
    assert(b.len() == 17 + payload.len());
    assert(b.subrange(9, 9 + payload.len() as int) =~= payload);
    assert(b.subrange(9 + payload.len() as int, 17 + payload.len() as int) =~= spec_u64_to_be_bytes(
        v.timestamp as u64,
    ));
    let ts: i64 = v.timestamp;
    assert(((ts as u64) as i64) == ts) by (bit_vector);
    match v.data {
        Ok(_) => {
            assert(spec_decode_entry(b) == Some(v));
        },
        Err(e) => {
            let msg = spec_error_message(e);
            vstd::utf8::encode_utf8_valid_utf8(msg);
            vstd::utf8::encode_utf8_decode_utf8(msg);
            assert(spec_decode_entry(b) == Some(v));
        },
    }
}

/// Relies on `String::from_utf8`: succeeds exactly on valid UTF-8, returning
/// the string those bytes encode.
#[verifier::external_body]
fn string_from_utf8(bytes: Vec<u8>) -> (r: Option<String>)
    ensures
        r matches Some(s) ==> encode_utf8(s@) == bytes@,
        r is None ==> !valid_utf8(bytes@),
{
    String::from_utf8(bytes).ok()
}

impl Entry {
    /// Serializes this entry into its binary encoding.
    pub fn to_bytes(&self) -> (r: Vec<u8>)
        ensures
            r@ == spec_encode_entry(self@),
            spec_entry_wf(self@),
    {
        let tag: u8 = match &self.data {
            Ok(_) => 0,
            Err(EntryError::NotYetResolved(_)) => 1,
            Err(EntryError::KeyDoesNotExist(_)) => 2,
            Err(EntryError::EntryReserved(_)) => 3,
            Err(EntryError::Error(_)) => 4,
        };
        let payload: Vec<u8> = match &self.data {
            Ok(bytes) => bytes.clone(),
            Err(EntryError::NotYetResolved(s)) => s.as_str().as_bytes_vec(),
            Err(EntryError::KeyDoesNotExist(s)) => s.as_str().as_bytes_vec(),
            Err(EntryError::EntryReserved(s)) => s.as_str().as_bytes_vec(),
            Err(EntryError::Error(s)) => s.as_str().as_bytes_vec(),
        };
        let mut r: Vec<u8> = Vec::new();
        r.push(tag);
        let mut len_bytes = u64_to_be_bytes(payload.len() as u64);
        r.append(&mut len_bytes);
        let mut payload_copy = payload;
        r.append(&mut payload_copy);
        let mut ts_bytes = u64_to_be_bytes(self.timestamp as u64);
        r.append(&mut ts_bytes);
        proof {
            assert(r@ =~= spec_encode_entry(self@));
        }
        r
    }

    /// Deserializes an entry from its binary encoding, or returns `None`
    /// where the bytes are not a well-formed encoding.
    pub fn from_bytes(b: &Vec<u8>) -> (r: Option<Entry>)
        ensures
            match r {
                Some(e) => spec_decode_entry(b@) == Some(e@),
                None => spec_decode_entry(b@) is None,
            },
    {
        if b.len() < 17 {
            return None;
        }
        let tag: u8 = b[0];
        let mut len_bytes: Vec<u8> = Vec::new();
        let mut i: usize = 1;
        while i < 9
            invariant
                1 <= i <= 9,
                b@.len() >= 17,
                len_bytes@ =~= b@.subrange(1, i as int),
            decreases 9 - i,
        {
            len_bytes.push(b[i]);
            i += 1;
        }
        proof {
            assert(len_bytes@ =~= b@.subrange(1, 9));
        }
        let len: u64 = u64_from_be_bytes(&len_bytes);
        if len > u64::MAX - 17 || (b.len() as u64) != 17 + len {
            return None;
        }
        let len_us: usize = b.len() - 17;
        proof {
            assert(len_us == len);
        }
        let mut payload: Vec<u8> = Vec::new();
        let mut j: usize = 9;
        while j < 9 + len_us
            invariant
                9 <= j <= 9 + len_us,
                len_us <= usize::MAX - 17,
                b@.len() == 17 + len_us,
                payload@ =~= b@.subrange(9, j as int),
            decreases 9 + len_us - j,
        {
            payload.push(b[j]);
            j += 1;
        }
        proof {
            assert(payload@ =~= b@.subrange(9, 9 + len_us as int));
        }
        let mut ts_bytes: Vec<u8> = Vec::new();
        let mut k: usize = 9 + len_us;
        while k < 17 + len_us
            invariant
                9 + len_us <= k <= 17 + len_us,
                len_us <= usize::MAX - 17,
                b@.len() == 17 + len_us,
                ts_bytes@ =~= b@.subrange(9 + len_us as int, k as int),
            decreases 17 + len_us - k,
        {
            ts_bytes.push(b[k]);
            k += 1;
        }
        proof {
            assert(ts_bytes@ =~= b@.subrange(9 + len_us as int, 17 + len_us as int));
        }
        let ts: i64 = #[verifier::truncate] (u64_from_be_bytes(&ts_bytes) as i64);
        if tag == 0 {
            return Some(Entry { data: Ok(payload), timestamp: ts });
        }
        if tag >= 1 && tag <= 4 {
            match string_from_utf8(payload) {
                Some(msg) => {
                    proof {
                        vstd::utf8::encode_utf8_valid_utf8(msg@);
                        vstd::utf8::encode_utf8_decode_utf8(msg@);
                    }
                    let e = if tag == 1 {
                        EntryError::NotYetResolved(msg)
                    } else if tag == 2 {
                        EntryError::KeyDoesNotExist(msg)
                    } else if tag == 3 {
                        EntryError::EntryReserved(msg)
                    } else {
                        EntryError::Error(msg)
                    };
                    return Some(Entry { data: Err(e), timestamp: ts });
                },
                None => {
                    return None;
                },
            }
        }
        None
    }
}

impl EntryError {
    /// The human-readable message for this error, as the store logs it.
    pub fn to_text(&self) -> (r: String)
        ensures
            r@ == spec_error_text(self@),
    {
        match self {
            EntryError::NotYetResolved(key) => {
                let mut s = "Error: Not yet resolved!: ".to_owned();
                s.append(key.as_str());
                s
            },
            EntryError::KeyDoesNotExist(key) => {
                let mut s = "Error: Key does not exist!: ".to_owned();
                s.append(key.as_str());
                s
            },
            EntryError::EntryReserved(key) => {
                let mut s = "Error: Entry reserved!: ".to_owned();
                s.append(key.as_str());
                s
            },
            EntryError::Error(text) => text.clone(),
        }
    }
}

/// The rendered text of an error value.
pub open spec fn spec_error_text(e: EntryErrorSpec) -> Seq<char> {
    match e {
        EntryErrorSpec::NotYetResolved(key) => "Error: Not yet resolved!: "@ + key,
        EntryErrorSpec::KeyDoesNotExist(key) => "Error: Key does not exist!: "@ + key,
        EntryErrorSpec::EntryReserved(key) => "Error: Entry reserved!: "@ + key,
        EntryErrorSpec::Error(text) => text,
    }
}

/// How the store looks a key up: the entry at the current revision, or the
/// newest entry whose data is a success.
#[derive(Debug, Clone, Copy, PartialEq, Eq, Structural)]
pub enum RetrievalMethod {
    Get,
    GetOk,
}

} // verus!

//! The versioned entry store.
//!
//! For every logical key `K` the store keeps a revision counter under
//! `rev_index_<K>` (8 bytes, big-endian) and one encoded [`Entry`] under
//! `key_<K>_rev_<i>` for each live revision `i`. Inserting advances the
//! counter, writes the new revision, and prunes revisions older than the
//! newest successful one, so that after every insert the live revisions form
//! the contiguous range from the newest success up to the current counter.

use vstd::prelude::*;
use vstd::string::StrSliceExecFns;
use vstd::string::StringExecFns;
use crate::codec::{
    spec_u64_to_be_bytes, spec_u64_from_be_bytes, u64_to_be_bytes, u64_from_be_bytes,
    lemma_u64_be_bytes_roundtrip, spec_dec, spec_dec_val, u64_to_dec,
    lemma_dec_digits, lemma_dec_val_roundtrip, is_dec_digit,
};
use crate::entry::{
    Entry, EntrySpec, EntryError, EntryErrorSpec, RetrievalMethod, spec_decode_entry,
    spec_data_view,
};
use crate::sled_store::{SledStore, StoreError, StoreErrorSpec, lemma_prefix_cancel};

verus! {

/// The cell name holding the revision counter of `k`.
pub open spec fn rev_index_key(k: Seq<char>) -> Seq<char> {
    "rev_index_"@ + k
}

/// The cell name holding revision `i` of `k`.
pub open spec fn rev_key(k: Seq<char>, i: u64) -> Seq<char> {
    "key_"@ + k + "_rev_"@ + spec_dec(i)
}

/// Counter cell names of distinct keys are distinct.
pub proof fn lemma_rev_index_key_injective(k1: Seq<char>, k2: Seq<char>)
    requires
        rev_index_key(k1) == rev_index_key(k2),
    ensures
        k1 == k2,
{
    lemma_prefix_cancel("rev_index_"@, k1, k2);
}

/// A counter cell name is never a revision cell name.
pub proof fn lemma_rev_index_key_ne_rev_key(k1: Seq<char>, k2: Seq<char>, i: u64)
    ensures
        rev_index_key(k1) != rev_key(k2, i),
{
    reveal_strlit("rev_index_");
    reveal_strlit("key_");
    assert(rev_index_key(k1)[0] == 'r');
    assert(rev_key(k2, i)[0] == 'k');
}

/// Revision cell names determine the key and the revision: the decimal tail
/// after the final separator pins both parts down.
pub proof fn lemma_rev_key_injective(k1: Seq<char>, i1: u64, k2: Seq<char>, i2: u64)
    requires
        rev_key(k1, i1) == rev_key(k2, i2),
    ensures
        k1 == k2,
        i1 == i2,
{
    let p = "key_"@;
    let sep = "_rev_"@;
    let d1 = spec_dec(i1);
    let d2 = spec_dec(i2);
    let s1 = k1 + sep + d1;
    let s2 = k2 + sep + d2;
    assert(p + s1 =~= rev_key(k1, i1));
    assert(p + s2 =~= rev_key(k2, i2));
    lemma_prefix_cancel(p, s1, s2);
    let s = s1;
    reveal_strlit("_rev_");
    assert(sep.len() == 5);
    assert(sep[4] == '_');
    lemma_dec_digits(i1);
    lemma_dec_digits(i2);
    // The character at the end of each separator is an underscore, and every
    // later character is a digit; digits are never underscores, so the two
    // separators sit at the same offset.
    assert(s[k1.len() as int + 4] == '_');
    assert(s2[k2.len() as int + 4] == '_');
    assert(forall|c: char| is_dec_digit(c) ==> c != '_');
    assert(forall|j: int|
        k1.len() + 5 <= j < s.len() ==> is_dec_digit(#[trigger] s[j]) && s[j] == d1[j - k1.len()
            - 5]);
    assert(forall|j: int|
        k2.len() + 5 <= j < s.len() ==> is_dec_digit(#[trigger] s2[j]) && s2[j] == d2[j - k2.len()
            - 5]);
    if k1.len() < k2.len() {
        assert(s[k2.len() as int + 4] == '_');
        assert(k1.len() + 5 <= k2.len() + 4 < s.len());
        assert(false);
    }
    if k2.len() < k1.len() {
        assert(s[k1.len() as int + 4] == '_');
        assert(k2.len() + 5 <= k1.len() + 4 < s.len());
        assert(false);
    }
    assert(k1.len() == k2.len());
    assert(k1 =~= k2) by {
        assert(forall|j: int| 0 <= j < k1.len() ==> s[j] == #[trigger] k1[j]);
        assert(forall|j: int| 0 <= j < k2.len() ==> s2[j] == #[trigger] k2[j]);
    }
    assert(d1 =~= d2) by {
        assert(forall|j: int| 0 <= j < d1.len() ==> #[trigger] d1[j] == s[k1.len() + 5 + j]);
        assert(forall|j: int| 0 <= j < d2.len() ==> #[trigger] d2[j] == s2[k2.len() + 5 + j]);
        assert(d1.len() == s.len() - k1.len() - 5);
        assert(d2.len() == s.len() - k2.len() - 5);
    }
    lemma_dec_val_roundtrip(i1);
    lemma_dec_val_roundtrip(i2);
    assert(spec_dec_val(d1) == i1 && spec_dec_val(d2) == i2);
}

/// Whether the counter cell of `k` is present.
pub open spec fn has_index(kv: Map<Seq<char>, Seq<u8>>, k: Seq<char>) -> bool {
    kv.dom().contains(rev_index_key(k))
}

/// The revision counter of `k`, read from its cell.
pub open spec fn spec_index_of(kv: Map<Seq<char>, Seq<u8>>, k: Seq<char>) -> u64 {
    spec_u64_from_be_bytes(kv[rev_index_key(k)])
}

/// The revision the store reads from: the counter when present, zero
/// otherwise.
pub open spec fn spec_current_index(kv: Map<Seq<char>, Seq<u8>>, k: Seq<char>) -> u64 {
    if has_index(kv, k) {
        spec_index_of(kv, k)
    } else {
        0
    }
}

/// Whether revision `i` of `k` is present.
pub open spec fn rev_present(kv: Map<Seq<char>, Seq<u8>>, k: Seq<char>, i: u64) -> bool {
    kv.dom().contains(rev_key(k, i))
}

/// The decoded entry at revision `i` of `k`, where present and well-formed.
pub open spec fn spec_entry_at(kv: Map<Seq<char>, Seq<u8>>, k: Seq<char>, i: u64) -> Option<
    EntrySpec,
> {
    spec_decode_entry(kv[rev_key(k, i)])
}

/// Whether revision `i` of `k` is present and decodes to a successful entry.
pub open spec fn ok_at(kv: Map<Seq<char>, Seq<u8>>, k: Seq<char>, i: u64) -> bool {
    rev_present(kv, k, i) && match spec_entry_at(kv, k, i) {
        Some(e) => e.data is Ok,
        None => false,
    }
}

/// The key's cells form the shape every insert leaves behind: the counter
/// reads `r`, the live revisions are exactly `s..=r`, each decodes, and the
/// oldest one is a success unless it is the only one.
pub open spec fn key_wf_with(
    kv: Map<Seq<char>, Seq<u8>>,
    k: Seq<char>,
    r: u64,
    s: u64,
) -> bool {
    &&& kv.dom().contains(rev_index_key(k))
    &&& kv[rev_index_key(k)] == spec_u64_to_be_bytes(r)
    &&& s <= r
    &&& forall|i: u64| #[trigger] rev_present(kv, k, i) <==> s <= i <= r
    &&& forall|i: u64| s <= i <= r ==> #[trigger] spec_entry_at(kv, k, i) is Some
    &&& (s == r || ok_at(kv, k, s))
}

/// The key has been written at least once and its cells are well-formed.
pub open spec fn key_wf(kv: Map<Seq<char>, Seq<u8>>, k: Seq<char>) -> bool {
    exists|s: u64| key_wf_with(kv, k, spec_index_of(kv, k), s)
}

/// The key has no cells at all.
pub open spec fn key_absent(kv: Map<Seq<char>, Seq<u8>>, k: Seq<char>) -> bool {
    &&& !kv.dom().contains(rev_index_key(k))
    &&& forall|i: u64| !#[trigger] rev_present(kv, k, i)
}

/// The cells of `k` agree between two store states.
pub open spec fn same_key_cells(
    a: Map<Seq<char>, Seq<u8>>,
    b: Map<Seq<char>, Seq<u8>>,
    k: Seq<char>,
) -> bool {
    &&& a.dom().contains(rev_index_key(k)) <==> b.dom().contains(rev_index_key(k))
    &&& a.dom().contains(rev_index_key(k)) ==> a[rev_index_key(k)] == b[rev_index_key(k)]
    &&& forall|i: u64| rev_present(a, k, i) <==> #[trigger] rev_present(b, k, i)
    &&& forall|i: u64| #[trigger] rev_present(a, k, i) ==> a[rev_key(k, i)] == b[rev_key(k, i)]
}

/// The newest successful entry at or below revision `i`, walking downward and
/// stopping at the first gap, as `GetOk` retrieval does.
pub open spec fn spec_latest_ok_from(
    kv: Map<Seq<char>, Seq<u8>>,
    k: Seq<char>,
    i: int,
) -> Option<EntrySpec>
    decreases i + 1,
{
    if i < 0 {
        None
    } else if !rev_present(kv, k, i as u64) {
        None
    } else {
        match spec_entry_at(kv, k, i as u64) {
            Some(e) => if e.data is Ok {
                Some(e)
            } else {
                spec_latest_ok_from(kv, k, i - 1)
            },
            None => None,
        }
    }
}

/// Builds the counter cell name of `key`.
fn make_rev_index_key(key: &str) -> (r: String)
    ensures
        r@ == rev_index_key(key@),
{
    let mut s = "rev_index_".to_owned();
    s.append(key);
    s
}

/// Builds the revision cell name of revision `i` of `key`.
fn make_rev_key(key: &str, i: u64) -> (r: String)
    ensures
        r@ == rev_key(key@, i),
{
    let mut s = "key_".to_owned();
    s.append(key);
    s.append("_rev_");
    let d = u64_to_dec(i);
    s.append(d.as_str());
    proof {
        assert(s@ =~= rev_key(key@, i));
    }
    s
}

/// What `Get` retrieval returns: the entry at the current revision, or an
/// entry tagged "key does not exist" naming the missing cell.
pub open spec fn get_post(kv: Map<Seq<char>, Seq<u8>>, k: Seq<char>, e: EntrySpec) -> bool {
    let idx = spec_current_index(kv, k);
    if rev_present(kv, k, idx) {
        spec_entry_at(kv, k, idx) == Some(e)
    } else {
        e.data == Err::<Seq<u8>, EntryErrorSpec>(EntryErrorSpec::KeyDoesNotExist(rev_key(k, idx)))
    }
}

/// What `GetOk` retrieval returns: the newest successful entry reachable from
/// the current revision without crossing a gap.
pub open spec fn getok_post(kv: Map<Seq<char>, Seq<u8>>, k: Seq<char>, e: EntrySpec) -> bool {
    spec_latest_ok_from(kv, k, spec_current_index(kv, k) as int) == Some(e)
}

/// The versioned entry store over one database adapter.
pub struct FallbackEntryStore {
    store: SledStore,
}

impl View for FallbackEntryStore {
    type V = Map<Seq<char>, Seq<u8>>;

    /// The store's contents: the adapter's logical map of cells.
    closed spec fn view(&self) -> Map<Seq<char>, Seq<u8>> {
        self.store@
    }
}

impl FallbackEntryStore {
    /// The global prefix under which this store keeps all its cells.
    pub closed spec fn spec_prefix(&self) -> Seq<char> {
        self.store.spec_prefix()
    }

    /// Takes ownership of a database handle; every cell the store touches
    /// lives under `global_prefix`.
    pub fn new(sled_db: sled::Db, global_prefix: &str) -> (r: FallbackEntryStore)
        ensures
            r.spec_prefix() == global_prefix@,
    {
        FallbackEntryStore { store: SledStore::new(sled_db, global_prefix) }
    }

    /// Like [`Self::contains_key`], with database failures surfaced instead
    /// of swallowed.
    pub fn contains_key_checked(&self, key: &str) -> (r: Result<bool, StoreError>)
        ensures
            r matches Ok(b) ==> b == has_index(self@, key@),
    {
        let rik = make_rev_index_key(key);
        self.store.contains_key(&rik)
    }

    /// True only when the key's counter cell is present; a key without one,
    /// and a key the database failed to read, both report `false`.
    pub fn contains_key(&self, key: &str) -> (r: bool)
        ensures
            r ==> has_index(self@, key@),
            !has_index(self@, key@) ==> !r,
    {
        match self.contains_key_checked(key) {
            Ok(b) => b,
            Err(_) => false,
        }
    }

    /// Reads the current revision counter: `None` when the key has none,
    /// the counter value otherwise.
    fn read_index(&self, key: &str) -> (r: Result<Option<u64>, StoreError>)
        ensures
            match r {
                Ok(Some(i)) => has_index(self@, key@) && self@[rev_index_key(key@)].len() == 8 && i
                    == spec_index_of(self@, key@),
                Ok(None) => !has_index(self@, key@),
                Err(e) => match e {
                    StoreError::Backend(_) => true,
                    StoreError::CorruptIndex(_) => has_index(self@, key@) && self@[rev_index_key(
                        key@,
                    )].len() != 8,
                    _ => false,
                },
            },
    {
        let rik = make_rev_index_key(key);
        match self.store.get(&rik) {
            Ok(Some(val)) => {
                if val.len() != 8 {
                    Err(StoreError::CorruptIndex(key.to_owned()))
                } else {
                    Ok(Some(u64_from_be_bytes(&val)))
                }
            },
            Ok(None) => Ok(None),
            Err(e) => Err(e),
        }
    }

    /// Retrieves an entry for `key`.
    ///
    /// With `Get`, the entry at the current revision comes back, or an entry
    /// tagged "key does not exist" when the key was never written. With
    /// `GetOk`, revisions are walked downward from the current one and the
    /// first successful entry comes back; when none is reachable the call
    /// fails with [`StoreError::NoOkValueFound`].
    pub fn get(&self, key: &str, retrieval_method: &RetrievalMethod) -> (r: Result<
        Entry,
        StoreError,
    >)
        ensures
            match retrieval_method {
                RetrievalMethod::Get => match r {
                    Ok(e) => get_post(self@, key@, e@),
                    Err(err) => match err {
                        StoreError::Backend(_) => true,
                        StoreError::CorruptIndex(_) => has_index(self@, key@)
                            && self@[rev_index_key(key@)].len() != 8,
                        StoreError::CorruptEntry(_) => exists|i: u64|
                            i <= spec_current_index(self@, key@) && #[trigger] rev_present(
                                self@,
                                key@,
                                i,
                            ) && spec_entry_at(self@, key@, i) is None,
                        StoreError::NoOkValueFound(_) => false,
                    },
                },
                RetrievalMethod::GetOk => match r {
                    Ok(e) => getok_post(self@, key@, e@),
                    Err(err) => match err {
                        StoreError::Backend(_) => true,
                        StoreError::CorruptIndex(_) => has_index(self@, key@)
                            && self@[rev_index_key(key@)].len() != 8,
                        StoreError::CorruptEntry(_) => exists|i: u64|
                            i <= spec_current_index(self@, key@) && #[trigger] rev_present(
                                self@,
                                key@,
                                i,
                            ) && spec_entry_at(self@, key@, i) is None,
                        StoreError::NoOkValueFound(_) => spec_latest_ok_from(
                            self@,
                            key@,
                            spec_current_index(self@, key@) as int,
                        ) is None,
                    },
                },
            },
    {
        let index: u64 = match self.read_index(key) {
            Ok(Some(i)) => i,
            Ok(None) => 0,
            Err(e) => {
                return Err(e);
            },
        };
        proof {
            assert(index == spec_current_index(self@, key@));
        }
        match *retrieval_method {
            RetrievalMethod::Get => {
                let rk = make_rev_key(key, index);
                match self.store.get(&rk) {
                    Ok(Some(bytes)) => match Entry::from_bytes(&bytes) {
                        Some(e) => Ok(e),
                        None => {
                            proof {
                                assert(rev_present(self@, key@, index) && spec_entry_at(
                                    self@,
                                    key@,
                                    index,
                                ) is None);
                            }
                            Err(StoreError::CorruptEntry(rk))
                        },
                    },
                    Ok(None) => Ok(
                        Entry {
                            data: Err(EntryError::KeyDoesNotExist(rk)),
                            timestamp: crate::clock::now_seconds(),
                        },
                    ),
                    Err(e) => Err(e),
                }
            },
            RetrievalMethod::GetOk => {
                let mut i: u64 = index;
                loop
                    invariant
                        retrieval_method matches RetrievalMethod::GetOk,
                        i <= index,
                        index == spec_current_index(self@, key@),
                        spec_latest_ok_from(self@, key@, index as int) == spec_latest_ok_from(
                            self@,
                            key@,
                            i as int,
                        ),
                    decreases i,
                {
                    let rk = make_rev_key(key, i);
                    match self.store.get(&rk) {
                        Ok(Some(bytes)) => match Entry::from_bytes(&bytes) {
                            Some(e) => {
                                if e.data.is_ok() {
                                    proof {
                                        assert(rev_present(self@, key@, i));
                                        assert(spec_entry_at(self@, key@, i) == Some(e@));
                                        assert(spec_latest_ok_from(self@, key@, i as int) == Some(
                                            e@,
                                        ));
                                        assert(getok_post(self@, key@, e@));
                                    }
                                    return Ok(e);
                                }
                                if i == 0 {
                                    proof {
                                        assert(spec_latest_ok_from(self@, key@, 0) is None);
                                    }
                                    return Err(StoreError::NoOkValueFound(key.to_owned()));
                                }
                                proof {
                                    assert(spec_latest_ok_from(self@, key@, i as int)
                                        == spec_latest_ok_from(self@, key@, i as int - 1));
                                }
                                i = i - 1;
                            },
                            None => {
                                proof {
                                    assert(rev_present(self@, key@, i) && spec_entry_at(
                                        self@,
                                        key@,
                                        i,
                                    ) is None);
                                    assert(i <= spec_current_index(self@, key@));
                                }
                                return Err(StoreError::CorruptEntry(rk));
                            },
                        },
                        Ok(None) => {
                            proof {
                                assert(spec_latest_ok_from(self@, key@, i as int) is None);
                            }
                            return Err(StoreError::NoOkValueFound(key.to_owned()));
                        },
                        Err(e) => {
                            return Err(e);
                        },
                    }
                }
            },
        }
    }

    /// The highest revision at or below `index` whose entry is a success,
    /// skipping over gaps; fails when no revision down to zero is one.
    pub fn get_index_of_ok_result(&self, key: &str, index: u64) -> (r: Result<u64, StoreError>)
        ensures
            match r {
                Ok(i) => i <= index && ok_at(self@, key@, i) && forall|j: u64|
                    i < j <= index ==> !#[trigger] ok_at(self@, key@, j),
                Err(err) => match err {
                    StoreError::Backend(_) => true,
                    StoreError::CorruptEntry(_) => exists|i: u64|
                        i <= index && #[trigger] rev_present(self@, key@, i) && spec_entry_at(
                            self@,
                            key@,
                            i,
                        ) is None,
                    StoreError::NoOkValueFound(_) => forall|j: u64|
                        j <= index ==> !#[trigger] ok_at(self@, key@, j),
                    StoreError::CorruptIndex(_) => false,
                },
            },
    {
        let mut i: u64 = index;
        loop
            invariant
                i <= index,
                forall|j: u64| i < j <= index ==> !#[trigger] ok_at(self@, key@, j),
            decreases i,
        {
            let rk = make_rev_key(key, i);
            match self.store.get(&rk) {
                Ok(Some(bytes)) => match Entry::from_bytes(&bytes) {
                    Some(e) => {
                        if e.data.is_ok() {
                            proof {
                                assert(ok_at(self@, key@, i));
                            }
                            return Ok(i);
                        }
                        proof {
                            assert(!ok_at(self@, key@, i));
                        }
                        if i == 0 {
                            return Err(StoreError::NoOkValueFound(key.to_owned()));
                        }
                        i = i - 1;
                    },
                    None => {
                        proof {
                            assert(rev_present(self@, key@, i) && spec_entry_at(
                                self@,
                                key@,
                                i,
                            ) is None);
                        }
                        return Err(StoreError::CorruptEntry(rk));
                    },
                },
                Ok(None) => {
                    proof {
                        assert(!ok_at(self@, key@, i));
                    }
                    if i == 0 {
                        return Err(StoreError::NoOkValueFound(key.to_owned()));
                    }
                    i = i - 1;
                },
                Err(e) => {
                    return Err(e);
                },
            }
        }
    }
}


/// After writing the counter cell of `key`, every other key's cells, and all
/// of `key`'s revision cells, are untouched.
pub proof fn lemma_frame_rik_write(
    a: Map<Seq<char>, Seq<u8>>,
    b: Map<Seq<char>, Seq<u8>>,
    key: Seq<char>,
    v: Seq<u8>,
)
    requires
        b == a.insert(rev_index_key(key), v),
    ensures
        forall|k2: Seq<char>| k2 != key ==> #[trigger] same_key_cells(a, b, k2),
        forall|i: u64| #[trigger] rev_present(b, key, i) <==> rev_present(a, key, i),
        forall|i: u64| #[trigger] rev_present(a, key, i) ==> b[rev_key(key, i)] == a[rev_key(
            key,
            i,
        )],
        has_index(b, key) && b[rev_index_key(key)] == v,
{
    assert forall|i: u64| #[trigger] rev_present(b, key, i) <==> rev_present(a, key, i) by {
        lemma_rev_index_key_ne_rev_key(key, key, i);
    }
    assert forall|i: u64| #[trigger] rev_present(a, key, i) implies b[rev_key(key, i)] == a[rev_key(
        key,
        i,
    )] by {
        lemma_rev_index_key_ne_rev_key(key, key, i);
    }
    assert forall|k2: Seq<char>| k2 != key implies #[trigger] same_key_cells(a, b, k2) by {
        if rev_index_key(k2) == rev_index_key(key) {
            lemma_rev_index_key_injective(k2, key);
        }
        assert forall|i: u64| rev_present(a, k2, i) <==> #[trigger] rev_present(b, k2, i) by {
            lemma_rev_index_key_ne_rev_key(key, k2, i);
        }
        assert forall|i: u64| #[trigger] rev_present(a, k2, i) implies a[rev_key(k2, i)] == b[
            rev_key(k2, i)] by {
            lemma_rev_index_key_ne_rev_key(key, k2, i);
        }
    }
}

/// After writing revision `j` of `key`, every other key's cells, the counter
/// cells, and `key`'s other revision cells are untouched.
pub proof fn lemma_frame_rev_write(
    a: Map<Seq<char>, Seq<u8>>,
    b: Map<Seq<char>, Seq<u8>>,
    key: Seq<char>,
    j: u64,
    v: Seq<u8>,
)
    requires
        b == a.insert(rev_key(key, j), v),
    ensures
        forall|k2: Seq<char>| k2 != key ==> #[trigger] same_key_cells(a, b, k2),
        forall|k2: Seq<char>|
            (#[trigger] has_index(b, k2) <==> has_index(a, k2)) && (has_index(a, k2) ==> b[
                rev_index_key(k2)] == a[rev_index_key(k2)]),
        forall|i: u64|
            i != j ==> ((#[trigger] rev_present(b, key, i) <==> rev_present(a, key, i))
                && (rev_present(a, key, i) ==> b[rev_key(key, i)] == a[rev_key(key, i)])),
        rev_present(b, key, j) && b[rev_key(key, j)] == v,
{
    assert forall|k2: Seq<char>|
        (#[trigger] has_index(b, k2) <==> has_index(a, k2)) && (has_index(a, k2) ==> b[
            rev_index_key(k2)] == a[rev_index_key(k2)]) by {
        lemma_rev_index_key_ne_rev_key(k2, key, j);
    }
    assert forall|i: u64|
        i != j implies ((#[trigger] rev_present(b, key, i) <==> rev_present(a, key, i))
            && (rev_present(a, key, i) ==> b[rev_key(key, i)] == a[rev_key(key, i)])) by {
        if rev_key(key, i) == rev_key(key, j) {
            lemma_rev_key_injective(key, i, key, j);
        }
    }
    assert forall|k2: Seq<char>| k2 != key implies #[trigger] same_key_cells(a, b, k2) by {
        lemma_rev_index_key_ne_rev_key(k2, key, j);
        assert forall|i: u64| rev_present(a, k2, i) <==> #[trigger] rev_present(b, k2, i) by {
            if rev_key(k2, i) == rev_key(key, j) {
                lemma_rev_key_injective(k2, i, key, j);
            }
        }
        assert forall|i: u64| #[trigger] rev_present(a, k2, i) implies a[rev_key(k2, i)] == b[
            rev_key(k2, i)] by {
            if rev_key(k2, i) == rev_key(key, j) {
                lemma_rev_key_injective(k2, i, key, j);
            }
        }
    }
}

/// After deleting revision `j` of `key`, every other key's cells, the counter
/// cells, and `key`'s other revision cells are untouched.
pub proof fn lemma_frame_rev_remove(
    a: Map<Seq<char>, Seq<u8>>,
    b: Map<Seq<char>, Seq<u8>>,
    key: Seq<char>,
    j: u64,
)
    requires
        b == a.remove(rev_key(key, j)),
    ensures
        forall|k2: Seq<char>| k2 != key ==> #[trigger] same_key_cells(a, b, k2),
        forall|k2: Seq<char>|
            (#[trigger] has_index(b, k2) <==> has_index(a, k2)) && (has_index(a, k2) ==> b[
                rev_index_key(k2)] == a[rev_index_key(k2)]),
        forall|i: u64|
            i != j ==> ((#[trigger] rev_present(b, key, i) <==> rev_present(a, key, i))
                && (rev_present(a, key, i) ==> b[rev_key(key, i)] == a[rev_key(key, i)])),
        !rev_present(b, key, j),
{
    assert forall|k2: Seq<char>|
        (#[trigger] has_index(b, k2) <==> has_index(a, k2)) && (has_index(a, k2) ==> b[
            rev_index_key(k2)] == a[rev_index_key(k2)]) by {
        lemma_rev_index_key_ne_rev_key(k2, key, j);
    }
    assert forall|i: u64|
        i != j implies ((#[trigger] rev_present(b, key, i) <==> rev_present(a, key, i))
            && (rev_present(a, key, i) ==> b[rev_key(key, i)] == a[rev_key(key, i)])) by {
        if rev_key(key, i) == rev_key(key, j) {
            lemma_rev_key_injective(key, i, key, j);
        }
    }
    assert forall|k2: Seq<char>| k2 != key implies #[trigger] same_key_cells(a, b, k2) by {
        lemma_rev_index_key_ne_rev_key(k2, key, j);
        assert forall|i: u64| rev_present(a, k2, i) <==> #[trigger] rev_present(b, k2, i) by {
            if rev_key(k2, i) == rev_key(key, j) {
                lemma_rev_key_injective(k2, i, key, j);
            }
        }
        assert forall|i: u64| #[trigger] rev_present(a, k2, i) implies a[rev_key(k2, i)] == b[
            rev_key(k2, i)] by {
            if rev_key(k2, i) == rev_key(key, j) {
                lemma_rev_key_injective(k2, i, key, j);
            }
        }
    }
}

/// Unchanged cells keep a key's well-formedness and its counter.
pub proof fn lemma_same_cells_preserve_wf(
    a: Map<Seq<char>, Seq<u8>>,
    b: Map<Seq<char>, Seq<u8>>,
    k: Seq<char>,
)
    requires
        same_key_cells(a, b, k),
    ensures
        key_wf(a, k) ==> key_wf(b, k),
        key_absent(a, k) ==> key_absent(b, k),
        has_index(a, k) == has_index(b, k),
        has_index(a, k) ==> spec_index_of(a, k) == spec_index_of(b, k),
{
    if key_wf(a, k) {
        let s = choose|s: u64| key_wf_with(a, k, spec_index_of(a, k), s);
        let r = spec_index_of(a, k);
        assert forall|i: u64| s <= i <= r implies #[trigger] spec_entry_at(b, k, i) is Some by {
            assert(rev_present(a, k, i));
            assert(spec_entry_at(a, k, i) is Some);
        }
        if s < r {
            assert(rev_present(a, k, s));
        }
        assert(key_wf_with(b, k, spec_index_of(b, k), s));
    }
}

/// `same_key_cells` chains across intermediate states.
pub proof fn lemma_same_cells_trans(
    a: Map<Seq<char>, Seq<u8>>,
    b: Map<Seq<char>, Seq<u8>>,
    c: Map<Seq<char>, Seq<u8>>,
    k: Seq<char>,
)
    requires
        same_key_cells(a, b, k),
        same_key_cells(b, c, k),
    ensures
        same_key_cells(a, c, k),
{
    assert forall|i: u64| rev_present(a, k, i) <==> #[trigger] rev_present(c, k, i) by {
        assert(rev_present(a, k, i) <==> rev_present(b, k, i));
    }
    assert forall|i: u64| #[trigger] rev_present(a, k, i) implies a[rev_key(k, i)] == c[rev_key(
        k,
        i,
    )] by {
        assert(rev_present(b, k, i));
    }
}


/// Every counter cell reads the same in both states.
pub open spec fn index_cells_unchanged(
    kv0: Map<Seq<char>, Seq<u8>>,
    kv1: Map<Seq<char>, Seq<u8>>,
) -> bool {
    forall|k2: Seq<char>|
        (#[trigger] has_index(kv1, k2) <==> has_index(kv0, k2)) && (has_index(kv0, k2) ==> kv1[
            rev_index_key(k2)] == kv0[rev_index_key(k2)])
}

/// What must hold before pruning history up to `max_index`: the live
/// revisions are a contiguous block ending at `max_index` and each decodes.
pub open spec fn cleanup_pre_with(
    kv: Map<Seq<char>, Seq<u8>>,
    k: Seq<char>,
    t: u64,
    max_index: u64,
) -> bool {
    &&& t <= max_index
    &&& (forall|i: u64| #[trigger] rev_present(kv, k, i) <==> t <= i <= max_index)
    &&& (forall|i: u64| t <= i <= max_index ==> #[trigger] spec_entry_at(kv, k, i) is Some)
}

pub open spec fn cleanup_pre(kv: Map<Seq<char>, Seq<u8>>, k: Seq<char>, max_index: u64) -> bool {
    exists|t: u64| #[trigger] cleanup_pre_with(kv, k, t, max_index)
}

/// What pruning leaves behind: the revisions from the newest success up to
/// `max_index`, untouched; everything older is gone. When no success was
/// found only `max_index` itself remains.
pub open spec fn cleanup_post_with(
    kv0: Map<Seq<char>, Seq<u8>>,
    kv1: Map<Seq<char>, Seq<u8>>,
    k: Seq<char>,
    max_index: u64,
    s: u64,
) -> bool {
    &&& s <= max_index
    &&& (forall|i: u64| #[trigger] rev_present(kv1, k, i) <==> s <= i <= max_index)
    &&& (forall|i: u64| s <= i <= max_index ==> kv1[#[trigger] rev_key(k, i)] == kv0[rev_key(k, i)])
    &&& ((ok_at(kv0, k, s) && (forall|j: u64| s < j <= max_index ==> !#[trigger] ok_at(kv0, k, j)))
        || s == max_index)
}

pub open spec fn cleanup_post(
    kv0: Map<Seq<char>, Seq<u8>>,
    kv1: Map<Seq<char>, Seq<u8>>,
    k: Seq<char>,
    max_index: u64,
) -> bool {
    exists|s: u64| #[trigger] cleanup_post_with(kv0, kv1, k, max_index, s)
}

impl FallbackEntryStore {
    /// Prunes the revision history of `key`: finds the newest revision at or
    /// below `max_index` holding a success (falling back to `max_index`
    /// itself) and removes every revision older than it.
    #[verifier::rlimit(60)]
    pub fn cleanup_revision_history(&mut self, key: &str, max_index: u64) -> (r: Result<
        (),
        StoreError,
    >)
        ensures
            final(self).spec_prefix() == old(self).spec_prefix(),
            forall|k2: Seq<char>|
                k2 != key@ ==> #[trigger] same_key_cells(old(self)@, final(self)@, k2),
            index_cells_unchanged(old(self)@, final(self)@),
            forall|i: u64|
                #[trigger] rev_present(final(self)@, key@, i) ==> rev_present(old(self)@, key@, i)
                    && final(self)@[rev_key(key@, i)] == old(self)@[rev_key(key@, i)],
            r matches Ok(_) && cleanup_pre(old(self)@, key@, max_index) ==> cleanup_post(
                old(self)@,
                final(self)@,
                key@,
                max_index,
            ),
    {
        let smallest: u64 = match self.get_index_of_ok_result(key, max_index) {
            Ok(i) => i,
            Err(_) => max_index,
        };
        if smallest == 0 {
            proof {
                if cleanup_pre(old(self)@, key@, max_index) {
                    lemma_cleanup_done(old(self)@, self@, key@, max_index, 0, 0);
                }
            }
            return Ok(());
        }
        let ghost kv0 = old(self)@;
        let mut i: u64 = smallest - 1;
        loop
            invariant
                i < smallest <= max_index,
                self.spec_prefix() == old(self).spec_prefix(),
                smallest == max_index || (ok_at(kv0, key@, smallest) && forall|j: u64|
                    smallest < j <= max_index ==> !#[trigger] ok_at(kv0, key@, j)),
                kv0 == old(self)@,
                forall|k2: Seq<char>| k2 != key@ ==> #[trigger] same_key_cells(kv0, self@, k2),
                index_cells_unchanged(kv0, self@),
                forall|j: u64| i < j < smallest ==> !#[trigger] rev_present(self@, key@, j),
                forall|j: u64|
                    j <= i || j >= smallest ==> ((#[trigger] rev_present(self@, key@, j)
                        <==> rev_present(kv0, key@, j)) && (rev_present(kv0, key@, j) ==> self@[
                        rev_key(key@, j)] == kv0[rev_key(key@, j)])),
            decreases i,
        {
            let rk = make_rev_key(key, i);
            let ghost pre = self@;
            match self.store.remove(&rk) {
                Ok(removed) => {
                    proof {
                        lemma_frame_rev_remove(pre, self@, key@, i);
                        assert forall|k2: Seq<char>| k2 != key@ implies #[trigger] same_key_cells(
                            kv0,
                            self@,
                            k2,
                        ) by {
                            lemma_same_cells_trans(kv0, pre, self@, k2);
                        }
                        assert forall|k2: Seq<char>|
                            (#[trigger] has_index(self@, k2) <==> has_index(kv0, k2)) && (
                            has_index(kv0, k2) ==> self@[rev_index_key(k2)] == kv0[rev_index_key(
                                k2,
                            )]) by {
                            assert(has_index(pre, k2) <==> has_index(kv0, k2));
                        }
                        assert(index_cells_unchanged(kv0, self@));
                    }
                    match removed {
                        Some(_) => {
                            if i == 0 {
                                proof {
                                    if cleanup_pre(kv0, key@, max_index) {
                                        lemma_cleanup_done(
                                            kv0,
                                            self@,
                                            key@,
                                            max_index,
                                            smallest,
                                            0,
                                        );
                                    }
                                }
                                return Ok(());
                            }
                            i = i - 1;
                        },
                        None => {
                            proof {
                                assert(!rev_present(pre, key@, i));
                                assert(!rev_present(kv0, key@, i));
                                assert forall|j: u64|
                                    j < i + 1 || j >= smallest implies ((#[trigger] rev_present(
                                    self@,
                                    key@,
                                    j,
                                ) <==> rev_present(kv0, key@, j)) && (rev_present(kv0, key@, j)
                                    ==> self@[rev_key(key@, j)] == kv0[rev_key(key@, j)])) by {
                                    if j != i {
                                        assert(rev_present(pre, key@, j) <==> rev_present(
                                            kv0,
                                            key@,
                                            j,
                                        ));
                                    }
                                }
                                if cleanup_pre(kv0, key@, max_index) {
                                    lemma_cleanup_done(
                                        kv0,
                                        self@,
                                        key@,
                                        max_index,
                                        smallest,
                                        (i + 1) as u64,
                                    );
                                }
                            }
                            return Ok(());
                        },
                    }
                },
                Err(e) => {
                    proof {
                        if self@ != pre {
                            lemma_frame_rev_remove(pre, self@, key@, i);
                            assert forall|k2: Seq<char>| k2 != key@ implies
                                #[trigger] same_key_cells(kv0, self@, k2) by {
                                lemma_same_cells_trans(kv0, pre, self@, k2);
                            }
                            assert forall|k2: Seq<char>|
                                (#[trigger] has_index(self@, k2) <==> has_index(kv0, k2)) && (
                                has_index(kv0, k2) ==> self@[rev_index_key(k2)] == kv0[
                                    rev_index_key(k2)]) by {
                                assert(has_index(pre, k2) <==> has_index(kv0, k2));
                            }
                            assert(index_cells_unchanged(kv0, self@));
                        }
                    }
                    return Err(e);
                },
            }
        }
    }
}

/// Concludes [`cleanup_post`] from the removal loop's final state.
pub proof fn lemma_cleanup_done(
    kv0: Map<Seq<char>, Seq<u8>>,
    kv1: Map<Seq<char>, Seq<u8>>,
    k: Seq<char>,
    max_index: u64,
    smallest: u64,
    stop: u64,
)
    requires
        cleanup_pre(kv0, k, max_index),
        stop <= smallest <= max_index,
        smallest == max_index || (ok_at(kv0, k, smallest) && forall|j: u64|
            smallest < j <= max_index ==> !#[trigger] ok_at(kv0, k, j)),
        forall|j: u64| stop <= j < smallest ==> !#[trigger] rev_present(kv1, k, j),
        forall|j: u64|
            j < stop || j >= smallest ==> ((#[trigger] rev_present(kv1, k, j) <==> rev_present(
                kv0,
                k,
                j,
            )) && (rev_present(kv0, k, j) ==> kv1[rev_key(k, j)] == kv0[rev_key(k, j)])),
        stop == 0 || !rev_present(kv0, k, (stop - 1) as u64),
    ensures
        cleanup_post(kv0, kv1, k, max_index),
{
    let t = choose|t: u64| #[trigger] cleanup_pre_with(kv0, k, t, max_index);
    let s = smallest;
    if smallest < max_index || ok_at(kv0, k, smallest) {
        assert(rev_present(kv0, k, smallest));
        assert(t <= smallest);
    }
    assert forall|i: u64| #[trigger] rev_present(kv1, k, i) <==> s <= i <= max_index by {
        if i < stop {
            if rev_present(kv1, k, i) {
                assert(rev_present(kv0, k, i));
                assert(t <= i <= max_index);
                assert(stop >= 1);
                assert(!rev_present(kv0, k, (stop - 1) as u64));
                assert(!(t <= stop - 1 <= max_index));
                assert(t >= stop);
                assert(false);
            }
        } else if i >= smallest {
            if s <= i <= max_index {
                assert(t <= smallest <= i || t <= i);
                assert(rev_present(kv0, k, i));
            }
            if rev_present(kv1, k, i) {
                assert(rev_present(kv0, k, i));
            }
        }
    }
    assert forall|i: u64| s <= i <= max_index implies kv1[#[trigger] rev_key(k, i)] == kv0[rev_key(
        k,
        i,
    )] by {
        assert(rev_present(kv1, k, i));
        assert(rev_present(kv0, k, i));
    }
    assert(cleanup_post_with(kv0, kv1, k, max_index, s));
}


/// The revision the next insert writes to: zero for a fresh key, the counter
/// plus one otherwise, restarting at zero when the counter would overflow.
pub open spec fn spec_next_index(kv: Map<Seq<char>, Seq<u8>>, k: Seq<char>) -> u64 {
    if !has_index(kv, k) {
        0
    } else if spec_index_of(kv, k) == u64::MAX {
        0
    } else {
        (spec_index_of(kv, k) + 1) as u64
    }
}

/// Before the new revision is written: the live revisions are exactly
/// `t..next`, each decodable.
pub open spec fn pre_write_shape(
    kv: Map<Seq<char>, Seq<u8>>,
    k: Seq<char>,
    next: u64,
    t: u64,
) -> bool {
    &&& t <= next
    &&& (forall|j: u64|
        #[trigger] rev_present(kv, k, j) <==> (t <= j && (j as int) < (next as int)))
    &&& (forall|j: u64|
        t <= j && (j as int) < (next as int) ==> #[trigger] spec_entry_at(kv, k, j) is Some)
}

/// What an insert leaves behind, for one pruning start `s`: the key is
/// well-formed at the next revision, no revision newer than `s` holds a
/// success except possibly `s` itself, and the new top revision carries the
/// inserted data.
pub open spec fn insert_post_with(
    kv0: Map<Seq<char>, Seq<u8>>,
    kv1: Map<Seq<char>, Seq<u8>>,
    k: Seq<char>,
    d: Result<Seq<u8>, EntryErrorSpec>,
    s: u64,
) -> bool {
    let next = spec_next_index(kv0, k);
    &&& key_wf_with(kv1, k, next, s)
    &&& (forall|j: u64| s < j <= next ==> !#[trigger] ok_at(kv1, k, j))
    &&& match spec_entry_at(kv1, k, next) {
        Some(e) => e.data == d,
        None => false,
    }
}

/// What an insert leaves behind.
pub open spec fn insert_post(
    kv0: Map<Seq<char>, Seq<u8>>,
    kv1: Map<Seq<char>, Seq<u8>>,
    k: Seq<char>,
    d: Result<Seq<u8>, EntryErrorSpec>,
) -> bool {
    exists|s: u64| #[trigger] insert_post_with(kv0, kv1, k, d, s)
}

impl FallbackEntryStore {
    /// Advances the revision counter of `key` and stores `data` under the new
    /// revision, then prunes revisions older than the newest success. On
    /// counter overflow the whole history is wiped first and the counter
    /// restarts at zero.
    #[verifier::rlimit(100)]
    pub fn insert(&mut self, key: &str, data: Result<Vec<u8>, EntryError>) -> (r: Result<
        (),
        StoreError,
    >)
        ensures
            final(self).spec_prefix() == old(self).spec_prefix(),
            forall|k2: Seq<char>|
                k2 != key@ ==> #[trigger] same_key_cells(old(self)@, final(self)@, k2),
            (r matches Ok(_) && (key_wf(old(self)@, key@) || key_absent(old(self)@, key@)))
                ==> insert_post(old(self)@, final(self)@, key@, spec_data_view(&data)),
    {
        let ghost kv0 = old(self)@;
        let ghost d = spec_data_view(&data);
        let idx_opt: Option<u64> = match self.read_index(key) {
            Ok(o) => o,
            Err(e) => {
                return Err(e);
            },
        };
        let ghost gnext = spec_next_index(kv0, key@);
        let next: u64 = match idx_opt {
            Some(r) => {
                if r == u64::MAX {
                    let mut i: u64 = u64::MAX;
                    loop
                        invariant_except_break
                            forall|j: u64|
                                j <= i ==> (#[trigger] rev_present(self@, key@, j) <==> rev_present(
                                    kv0,
                                    key@,
                                    j,
                                )),
                        invariant
                            kv0 == old(self)@,
                            self.spec_prefix() == old(self).spec_prefix(),
                            forall|k2: Seq<char>|
                                k2 != key@ ==> #[trigger] same_key_cells(kv0, self@, k2),
                            index_cells_unchanged(kv0, self@),
                            forall|j: u64|
                                #[trigger] rev_present(self@, key@, j) ==> rev_present(
                                    kv0,
                                    key@,
                                    j,
                                ) && self@[rev_key(key@, j)] == kv0[rev_key(key@, j)],
                            forall|j: u64| j > i ==> !#[trigger] rev_present(self@, key@, j),
                            has_index(kv0, key@) && spec_index_of(kv0, key@) == u64::MAX,
                        ensures
                            kv0 == old(self)@,
                            self.spec_prefix() == old(self).spec_prefix(),
                            forall|k2: Seq<char>|
                                k2 != key@ ==> #[trigger] same_key_cells(kv0, self@, k2),
                            index_cells_unchanged(kv0, self@),
                            key_wf(kv0, key@) || key_absent(kv0, key@) ==> forall|j: u64|
                                !#[trigger] rev_present(self@, key@, j),
                        decreases i,
                    {
                        let rk = make_rev_key(key, i);
                        let ghost pre = self@;
                        match self.store.remove(&rk) {
                            Ok(removed) => {
                                proof {
                                    lemma_frame_rev_remove(pre, self@, key@, i);
                                    assert forall|k2: Seq<char>| k2 != key@ implies
                                        #[trigger] same_key_cells(kv0, self@, k2) by {
                                        lemma_same_cells_trans(kv0, pre, self@, k2);
                                    }
                                    assert(index_cells_unchanged(kv0, self@));
                                }
                                match removed {
                                    Some(_) => {
                                        if i == 0 {
                                            proof {
                                                assert(forall|j: u64|
                                                    !#[trigger] rev_present(self@, key@, j));
                                            }
                                            break;
                                        }
                                        i = i - 1;
                                    },
                                    None => {
                                        proof {
                                            assert(!rev_present(pre, key@, i));
                                            assert(!rev_present(kv0, key@, i));
                                            if key_wf(kv0, key@) {
                                                let s0 = choose|s0: u64|
                                                    key_wf_with(
                                                        kv0,
                                                        key@,
                                                        spec_index_of(kv0, key@),
                                                        s0,
                                                    );
                                                assert(i < s0);
                                                assert forall|j: u64|
                                                    !#[trigger] rev_present(self@, key@, j) by {
                                                    if j < i {
                                                        assert(!rev_present(kv0, key@, j));
                                                    }
                                                }
                                            }
                                            if key_absent(kv0, key@) {
                                                assert(forall|j: u64|
                                                    !#[trigger] rev_present(self@, key@, j));
                                            }
                                        }
                                        break;
                                    },
                                }
                            },
                            Err(e) => {
                                proof {
                                    if self@ != pre {
                                        lemma_frame_rev_remove(pre, self@, key@, i);
                                        assert forall|k2: Seq<char>| k2 != key@ implies
                                            #[trigger] same_key_cells(kv0, self@, k2) by {
                                            lemma_same_cells_trans(kv0, pre, self@, k2);
                                        }
                                    }
                                }
                                return Err(e);
                            },
                        }
                    }
                    proof {
                        if key_wf(kv0, key@) || key_absent(kv0, key@) {
                            assert(pre_write_shape(self@, key@, 0, 0));
                        }
                    }
                    0
                } else {
                    proof {
                        if key_wf(kv0, key@) {
                            let s0 = choose|s0: u64|
                                key_wf_with(kv0, key@, spec_index_of(kv0, key@), s0);
                            assert(pre_write_shape(self@, key@, (r + 1) as u64, s0));
                        }
                    }
                    r + 1
                }
            },
            None => {
                proof {
                    if key_absent(kv0, key@) {
                        assert(pre_write_shape(self@, key@, 0, 0));
                    }
                }
                0
            },
        };
        proof {
            assert(next == gnext);
            if key_wf(kv0, key@) || key_absent(kv0, key@) {
                assert(exists|t: u64| #[trigger] pre_write_shape(self@, key@, next, t));
            }
        }
        let ghost kv_a = self@;
        let entry = Entry::new(data, crate::clock::now_seconds());
        let bytes = entry.to_bytes();
        let ghost gbytes = bytes@;
        let rk = make_rev_key(key, next);
        match self.store.insert(&rk, bytes) {
            Ok(_) => {
                proof {
                    lemma_frame_rev_write(kv_a, self@, key@, next, gbytes);
                    assert forall|k2: Seq<char>| k2 != key@ implies #[trigger] same_key_cells(
                        kv0,
                        self@,
                        k2,
                    ) by {
                        lemma_same_cells_trans(kv0, kv_a, self@, k2);
                    }
                }
            },
            Err(e) => {
                proof {
                    if self@ != kv_a {
                        lemma_frame_rev_write(kv_a, self@, key@, next, gbytes);
                        assert forall|k2: Seq<char>| k2 != key@ implies #[trigger] same_key_cells(
                            kv0,
                            self@,
                            k2,
                        ) by {
                            lemma_same_cells_trans(kv0, kv_a, self@, k2);
                        }
                    }
                }
                return Err(e);
            },
        }
        let ghost kv_b = self@;
        let rik = make_rev_index_key(key);
        let next_bytes = u64_to_be_bytes(next);
        let ghost gnb = next_bytes@;
        match self.store.insert(&rik, next_bytes) {
            Ok(_) => {
                proof {
                    lemma_frame_rik_write(kv_b, self@, key@, gnb);
                    assert forall|k2: Seq<char>| k2 != key@ implies #[trigger] same_key_cells(
                        kv0,
                        self@,
                        k2,
                    ) by {
                        lemma_same_cells_trans(kv0, kv_b, self@, k2);
                    }
                }
            },
            Err(e) => {
                proof {
                    if self@ != kv_b {
                        lemma_frame_rik_write(kv_b, self@, key@, gnb);
                        assert forall|k2: Seq<char>| k2 != key@ implies #[trigger] same_key_cells(
                            kv0,
                            self@,
                            k2,
                        ) by {
                            lemma_same_cells_trans(kv0, kv_b, self@, k2);
                        }
                    }
                }
                return Err(e);
            },
        }
        let ghost kv_c = self@;
        proof {
            if key_wf(kv0, key@) || key_absent(kv0, key@) {
                let t = choose|t: u64| #[trigger] pre_write_shape(kv_a, key@, next, t);
                assert forall|j: u64| #[trigger] rev_present(kv_c, key@, j) <==> (t <= j && j
                    <= next) by {
                    if j != next {
                        assert(rev_present(kv_c, key@, j) <==> rev_present(kv_b, key@, j));
                        assert(rev_present(kv_b, key@, j) <==> rev_present(kv_a, key@, j));
                    } else {
                        assert(rev_present(kv_b, key@, next));
                        assert(rev_present(kv_c, key@, next));
                    }
                }
                assert forall|j: u64| t <= j && j <= next implies #[trigger] spec_entry_at(
                    kv_c,
                    key@,
                    j,
                ) is Some by {
                    if j != next {
                        assert(rev_present(kv_a, key@, j));
                        assert(rev_present(kv_b, key@, j));
                        assert(kv_b[rev_key(key@, j)] == kv_a[rev_key(key@, j)]);
                        assert(kv_c[rev_key(key@, j)] == kv_b[rev_key(key@, j)]);
                        assert(spec_entry_at(kv_a, key@, j) is Some);
                    } else {
                        assert(kv_b[rev_key(key@, next)] == gbytes);
                        assert(kv_c[rev_key(key@, next)] == gbytes);
                        crate::entry::lemma_entry_codec_roundtrip(entry@);
                    }
                }
                assert(cleanup_pre_with(kv_c, key@, t, next));
            }
        }
        match self.cleanup_revision_history(key, next) {
            Ok(_) => {
                proof {
                    assert forall|k2: Seq<char>| k2 != key@ implies #[trigger] same_key_cells(
                        kv0,
                        self@,
                        k2,
                    ) by {
                        lemma_same_cells_trans(kv0, kv_c, self@, k2);
                    }
                    if key_wf(kv0, key@) || key_absent(kv0, key@) {
                        crate::entry::lemma_entry_codec_roundtrip(entry@);
                        lemma_insert_assemble(kv0, kv_a, kv_b, kv_c, self@, key@, d, next, entry@, gbytes);
                    }
                }
                Ok(())
            },
            Err(e) => {
                proof {
                    assert forall|k2: Seq<char>| k2 != key@ implies #[trigger] same_key_cells(
                        kv0,
                        self@,
                        k2,
                    ) by {
                        lemma_same_cells_trans(kv0, kv_c, self@, k2);
                    }
                }
                Err(e)
            },
        }
    }
}

/// Assembles [`insert_post`] from the facts the four insert steps leave
/// behind.
pub proof fn lemma_insert_assemble(
    kv0: Map<Seq<char>, Seq<u8>>,
    kv_a: Map<Seq<char>, Seq<u8>>,
    kv_b: Map<Seq<char>, Seq<u8>>,
    kv_c: Map<Seq<char>, Seq<u8>>,
    kv_d: Map<Seq<char>, Seq<u8>>,
    k: Seq<char>,
    d: Result<Seq<u8>, EntryErrorSpec>,
    next: u64,
    e: EntrySpec,
    bytes: Seq<u8>,
)
    requires
        next == spec_next_index(kv0, k),
        cleanup_pre(kv_c, k, next),
        cleanup_post(kv_c, kv_d, k, next),
        index_cells_unchanged(kv_c, kv_d),
        has_index(kv_c, k),
        kv_c[rev_index_key(k)] == spec_u64_to_be_bytes(next),
        rev_present(kv_c, k, next),
        kv_c[rev_key(k, next)] == bytes,
        spec_decode_entry(bytes) == Some(e),
        e.data == d,
        forall|i: u64|
            i <= next ==> (#[trigger] spec_entry_at(kv_c, k, i) is Some || !rev_present(
                kv_c,
                k,
                i,
            )),
        forall|i: u64|
            #[trigger] rev_present(kv_d, k, i) ==> rev_present(kv_c, k, i) && kv_d[rev_key(k, i)]
                == kv_c[rev_key(k, i)],
    ensures
        insert_post(kv0, kv_d, k, d),
{
    let s = choose|s: u64| #[trigger] cleanup_post_with(kv_c, kv_d, k, next, s);
    assert(has_index(kv_d, k));
    assert(kv_d[rev_index_key(k)] == spec_u64_to_be_bytes(next));
    lemma_u64_be_bytes_roundtrip(next);
    assert(spec_index_of(kv_d, k) == next);
    assert forall|i: u64| s <= i <= next implies #[trigger] spec_entry_at(kv_d, k, i) is Some by {
        assert(rev_present(kv_d, k, i));
        assert(rev_present(kv_c, k, i));
        assert(kv_d[rev_key(k, i)] == kv_c[rev_key(k, i)]);
        assert(spec_entry_at(kv_c, k, i) is Some);
    }
    assert(rev_present(kv_d, k, next));
    assert(kv_d[rev_key(k, next)] == bytes);
    assert(spec_entry_at(kv_d, k, next) == Some(e));
    if s != next {
        assert(ok_at(kv_c, k, s));
        assert(kv_d[rev_key(k, s)] == kv_c[rev_key(k, s)]);
        assert(ok_at(kv_d, k, s));
    }
    assert(key_wf_with(kv_d, k, next, s));
    assert forall|j: u64| s < j <= next implies !#[trigger] ok_at(kv_d, k, j) by {
        assert(!ok_at(kv_c, k, j));
        assert(kv_d[rev_key(k, j)] == kv_c[rev_key(k, j)]);
    }
    assert(insert_post_with(kv0, kv_d, k, d, s));
}


impl FallbackEntryStore {
    /// Removes every revision of `key` and its counter cell, returning how
    /// many revisions the counter accounted for; a key without a counter
    /// reports zero and nothing changes.
    pub fn remove_all(&mut self, key: &str) -> (r: Result<u64, StoreError>)
        requires
            has_index(old(self)@, key@) ==> spec_index_of(old(self)@, key@) < u64::MAX,
        ensures
            final(self).spec_prefix() == old(self).spec_prefix(),
            forall|k2: Seq<char>|
                k2 != key@ ==> #[trigger] same_key_cells(old(self)@, final(self)@, k2),
            match r {
                Ok(n) => if !has_index(old(self)@, key@) {
                    n == 0 && final(self)@ == old(self)@
                } else {
                    &&& n == spec_index_of(old(self)@, key@) + 1
                    &&& !has_index(final(self)@, key@)
                    &&& forall|i: u64|
                        i <= spec_index_of(old(self)@, key@) ==> !#[trigger] rev_present(
                            final(self)@,
                            key@,
                            i,
                        )
                    &&& forall|i: u64|
                        i > spec_index_of(old(self)@, key@) ==> ((#[trigger] rev_present(
                            final(self)@,
                            key@,
                            i,
                        ) <==> rev_present(old(self)@, key@, i)) && (rev_present(
                            old(self)@,
                            key@,
                            i,
                        ) ==> final(self)@[rev_key(key@, i)] == old(self)@[rev_key(key@, i)]))
                },
                Err(_) => true,
            },
    {
        let ghost kv0 = old(self)@;
        let max_index: u64 = match self.read_index(key) {
            Ok(Some(r)) => r,
            Ok(None) => {
                return Ok(0);
            },
            Err(e) => {
                return Err(e);
            },
        };
        let mut i: u64 = 0;
        while i <= max_index
            invariant
                kv0 == old(self)@,
                i <= max_index + 1,
                max_index < u64::MAX,
                self.spec_prefix() == old(self).spec_prefix(),
                forall|k2: Seq<char>| k2 != key@ ==> #[trigger] same_key_cells(kv0, self@, k2),
                index_cells_unchanged(kv0, self@),
                forall|j: u64| j < i ==> !#[trigger] rev_present(self@, key@, j),
                forall|j: u64|
                    j >= i ==> ((#[trigger] rev_present(self@, key@, j) <==> rev_present(
                        kv0,
                        key@,
                        j,
                    )) && (rev_present(kv0, key@, j) ==> self@[rev_key(key@, j)] == kv0[rev_key(
                        key@,
                        j,
                    )])),
            decreases max_index + 1 - i,
        {
            let rk = make_rev_key(key, i);
            let ghost pre = self@;
            match self.store.remove(&rk) {
                Ok(_) => {
                    proof {
                        lemma_frame_rev_remove(pre, self@, key@, i);
                        assert forall|k2: Seq<char>| k2 != key@ implies #[trigger] same_key_cells(
                            kv0,
                            self@,
                            k2,
                        ) by {
                            lemma_same_cells_trans(kv0, pre, self@, k2);
                        }
                        assert(index_cells_unchanged(kv0, self@));
                    }
                    i = i + 1;
                },
                Err(e) => {
                    proof {
                        if self@ != pre {
                            lemma_frame_rev_remove(pre, self@, key@, i);
                            assert forall|k2: Seq<char>| k2 != key@ implies
                                #[trigger] same_key_cells(kv0, self@, k2) by {
                                lemma_same_cells_trans(kv0, pre, self@, k2);
                            }
                        }
                    }
                    return Err(e);
                },
            }
        }
        let rik = make_rev_index_key(key);
        let ghost pre = self@;
        match self.store.remove(&rik) {
            Ok(_) => {
                proof {
                    lemma_frame_rik_remove(pre, self@, key@);
                    assert forall|k2: Seq<char>| k2 != key@ implies #[trigger] same_key_cells(
                        kv0,
                        self@,
                        k2,
                    ) by {
                        lemma_same_cells_trans(kv0, pre, self@, k2);
                    }
                }
                Ok(max_index + 1)
            },
            Err(e) => {
                proof {
                    if self@ != pre {
                        lemma_frame_rik_remove(pre, self@, key@);
                        assert forall|k2: Seq<char>| k2 != key@ implies #[trigger] same_key_cells(
                            kv0,
                            self@,
                            k2,
                        ) by {
                            lemma_same_cells_trans(kv0, pre, self@, k2);
                        }
                    }
                }
                Err(e)
            },
        }
    }

    /// Reads the newest successful entry of `key` and inserts `data` only
    /// when none is reachable or its data differs; returns whether the
    /// insertion happened.
    pub fn insert_if_not_exists(&mut self, key: &str, data: Result<Vec<u8>, EntryError>) -> (r:
        Result<bool, StoreError>)
        ensures
            final(self).spec_prefix() == old(self).spec_prefix(),
            forall|k2: Seq<char>|
                k2 != key@ ==> #[trigger] same_key_cells(old(self)@, final(self)@, k2),
            match r {
                Ok(b) => {
                    &&& b == (match spec_latest_ok_from(
                        old(self)@,
                        key@,
                        spec_current_index(old(self)@, key@) as int,
                    ) {
                        Some(e) => e.data != spec_data_view(&data),
                        None => true,
                    })
                    &&& !b ==> final(self)@ == old(self)@
                    &&& (b && (key_wf(old(self)@, key@) || key_absent(old(self)@, key@)))
                        ==> insert_post(old(self)@, final(self)@, key@, spec_data_view(&data))
                },
                Err(_) => true,
            },
    {
        let insert_needed: bool = match self.get(key, &RetrievalMethod::GetOk) {
            Ok(existing) => !existing.is_same_data(&data),
            Err(StoreError::NoOkValueFound(_)) => true,
            Err(e) => {
                return Err(e);
            },
        };
        if insert_needed {
            match self.insert(key, data) {
                Ok(_) => {},
                Err(e) => {
                    return Err(e);
                },
            }
        }
        Ok(insert_needed)
    }
}

/// After deleting the counter cell of `key`, every other key's cells and all
/// of `key`'s revision cells are untouched.
pub proof fn lemma_frame_rik_remove(
    a: Map<Seq<char>, Seq<u8>>,
    b: Map<Seq<char>, Seq<u8>>,
    key: Seq<char>,
)
    requires
        b == a.remove(rev_index_key(key)),
    ensures
        forall|k2: Seq<char>| k2 != key ==> #[trigger] same_key_cells(a, b, k2),
        forall|i: u64| #[trigger] rev_present(b, key, i) <==> rev_present(a, key, i),
        forall|i: u64| #[trigger] rev_present(a, key, i) ==> b[rev_key(key, i)] == a[rev_key(
            key,
            i,
        )],
        !has_index(b, key),
{
    assert forall|i: u64| #[trigger] rev_present(b, key, i) <==> rev_present(a, key, i) by {
        lemma_rev_index_key_ne_rev_key(key, key, i);
    }
    assert forall|i: u64| #[trigger] rev_present(a, key, i) implies b[rev_key(key, i)] == a[rev_key(
        key,
        i,
    )] by {
        lemma_rev_index_key_ne_rev_key(key, key, i);
    }
    assert forall|k2: Seq<char>| k2 != key implies #[trigger] same_key_cells(a, b, k2) by {
        if rev_index_key(k2) == rev_index_key(key) {
            lemma_rev_index_key_injective(k2, key);
        }
        assert forall|i: u64| rev_present(a, k2, i) <==> #[trigger] rev_present(b, k2, i) by {
            lemma_rev_index_key_ne_rev_key(key, k2, i);
        }
        assert forall|i: u64| #[trigger] rev_present(a, k2, i) implies a[rev_key(k2, i)] == b[
            rev_key(k2, i)] by {
            lemma_rev_index_key_ne_rev_key(key, k2, i);
        }
    }
}


/// What a key listing returns: exactly the logical keys whose counter cell is
/// present and whose name starts with `p`, each once.
pub open spec fn key_iter_post(
    keys: Seq<String>,
    kv: Map<Seq<char>, Seq<u8>>,
    p: Seq<char>,
) -> bool {
    &&& forall|i: int|
        0 <= i < keys.len() ==> {
            &&& (#[trigger] keys[i]@).len() >= p.len()
            &&& keys[i]@.subrange(0, p.len() as int) == p
            &&& has_index(kv, keys[i]@)
        }
    &&& forall|k: Seq<char>|
        #[trigger] has_index(kv, k) && k.len() >= p.len() && k.subrange(0, p.len() as int) == p
            ==> exists|i: int| 0 <= i < keys.len() && keys[i]@ == k
    &&& forall|i: int, j: int|
        0 <= i < keys.len() && 0 <= j < keys.len() && i != j ==> (#[trigger] keys[i]@) != (
        #[trigger] keys[j]@)
}

impl FallbackEntryStore {
    /// Registers a change subscriber for every revision cell whose logical
    /// key starts with `prefix`, rewriting `prefix` to the full database form
    /// it subscribed under.
    pub fn watch_prefix(&self, prefix: &mut String) -> (r: sled::Subscriber)
        ensures
            final(prefix)@ == self.spec_prefix() + "key_"@ + old(prefix)@,
    {
        let mut full = "key_".to_owned();
        full.append(prefix.as_str());
        let r = self.store.watch_prefix(&mut full);
        *prefix = full;
        r
    }

    /// Lists the logical keys whose counter cell is present, restricted to
    /// those starting with `key_prefix` when one is given.
    pub fn key_iter(&self, key_prefix: Option<&str>) -> (r: Result<Vec<String>, StoreError>)
        ensures
            r matches Ok(keys) ==> key_iter_post(
                keys@,
                self@,
                match key_prefix {
                    Some(p) => p@,
                    None => Seq::<char>::empty(),
                },
            ),
    {
        let ghost p: Seq<char> = match key_prefix {
            Some(p) => p@,
            None => Seq::<char>::empty(),
        };
        let mut cell_prefix = "rev_index_".to_owned();
        match key_prefix {
            Some(kp) => cell_prefix.append(kp),
            None => (),
        }
        proof {
            assert(cell_prefix@ == "rev_index_"@ + p);
        }
        let pairs = match self.store.scan_prefix(&cell_prefix) {
            Ok(pairs) => pairs,
            Err(e) => {
                return Err(e);
            },
        };
        let base = "rev_index_";
        let base_len = base.unicode_len();
        let mut keys: Vec<String> = Vec::new();
        let mut i: usize = 0;
        while i < pairs.len()
            invariant
                0 <= i <= pairs@.len(),
                base_len == "rev_index_"@.len(),
                cell_prefix@ == "rev_index_"@ + p,
                crate::sled_store::scan_result_matches(pairs@, self@, cell_prefix@),
                keys@.len() == i,
                forall|j: int|
                    0 <= j < i ==> (#[trigger] keys@[j]@) == pairs@[j].0@.skip(
                        "rev_index_"@.len() as int,
                    ),
            decreases pairs@.len() - i,
        {
            let (cell, _) = &pairs[i];
            let cell_len = cell.as_str().unicode_len();
            proof {
                assert(cell@.len() >= cell_prefix@.len());
                assert(cell_prefix@.len() >= "rev_index_"@.len());
            }
            let stripped = cell.as_str().substring_char(base_len, cell_len).to_owned();
            proof {
                assert(stripped@ =~= cell@.skip("rev_index_"@.len() as int));
            }
            keys.push(stripped);
            i += 1;
        }
        proof {
            let b = "rev_index_"@;
            assert forall|j: int| 0 <= j < keys@.len() implies {
                &&& (#[trigger] keys@[j]@).len() >= p.len()
                &&& keys@[j]@.subrange(0, p.len() as int) == p
                &&& has_index(self@, keys@[j]@)
            } by {
                let cell = pairs@[j].0@;
                let k = keys@[j]@;
                assert(k == cell.skip(b.len() as int));
                assert(cell.subrange(0, cell_prefix@.len() as int) == cell_prefix@);
                assert(cell.subrange(0, b.len() as int) =~= cell.subrange(
                    0,
                    cell_prefix@.len() as int,
                ).subrange(0, b.len() as int));
                assert(cell_prefix@.subrange(0, b.len() as int) =~= b);
                crate::sled_store::lemma_prefix_split(cell, b);
                assert(rev_index_key(k) == cell);
                assert(k.subrange(0, p.len() as int) =~= cell.subrange(
                    b.len() as int,
                    cell_prefix@.len() as int,
                ));
                assert(cell.subrange(b.len() as int, cell_prefix@.len() as int) =~= cell.subrange(
                    0,
                    cell_prefix@.len() as int,
                ).skip(b.len() as int));
                assert(cell_prefix@.skip(b.len() as int) =~= p);
            }
            assert forall|k: Seq<char>|
                #[trigger] has_index(self@, k) && k.len() >= p.len() && k.subrange(
                    0,
                    p.len() as int,
                ) == p implies exists|i2: int| 0 <= i2 < keys@.len() && keys@[i2]@ == k by {
                let cell = rev_index_key(k);
                assert(self@.dom().contains(cell));
                assert(cell.subrange(0, cell_prefix@.len() as int) =~= b + k.subrange(
                    0,
                    p.len() as int,
                ));
                assert(cell.subrange(0, cell_prefix@.len() as int) == cell_prefix@);
                assert(cell.len() >= cell_prefix@.len());
                let i2 = choose|i2: int|
                    0 <= i2 < pairs@.len() && #[trigger] pairs@[i2].0@ == cell;
                assert(keys@[i2]@ == cell.skip(b.len() as int));
                assert(cell.skip(b.len() as int) =~= k);
            }
            assert forall|i2: int, j2: int|
                0 <= i2 < keys@.len() && 0 <= j2 < keys@.len() && i2 != j2 implies (
            #[trigger] keys@[i2]@) != (#[trigger] keys@[j2]@) by {
                let c1 = pairs@[i2].0@;
                let c2 = pairs@[j2].0@;
                assert(c1.subrange(0, b.len() as int) =~= c1.subrange(
                    0,
                    cell_prefix@.len() as int,
                ).subrange(0, b.len() as int));
                assert(c2.subrange(0, b.len() as int) =~= c2.subrange(
                    0,
                    cell_prefix@.len() as int,
                ).subrange(0, b.len() as int));
                assert(cell_prefix@.subrange(0, b.len() as int) =~= b);
                crate::sled_store::lemma_prefix_split(c1, b);
                crate::sled_store::lemma_prefix_split(c2, b);
                if keys@[i2]@ == keys@[j2]@ {
                    assert(c1 == c2);
                }
            }
            assert(key_iter_post(keys@, self@, p));
        }
        Ok(keys)
    }

    /// Lists `(key, entry)` for every listed key, with retrieval failures
    /// surfaced in-band as entries carrying an error.
    pub fn value_iter(&self, key_prefix: Option<&str>, retrieval_method: &RetrievalMethod) -> (r:
        Result<Vec<(String, Entry)>, StoreError>)
        ensures
            r matches Ok(pairs) ==> {
                &&& key_iter_post(
                    pairs@.map_values(|pr: (String, Entry)| pr.0),
                    self@,
                    match key_prefix {
                        Some(p) => p@,
                        None => Seq::<char>::empty(),
                    },
                )
                &&& forall|i: int|
                    0 <= i < pairs@.len() ==> {
                        ||| match retrieval_method {
                            RetrievalMethod::Get => get_post(
                                self@,
                                (#[trigger] pairs@[i]).0@,
                                pairs@[i].1@,
                            ),
                            RetrievalMethod::GetOk => getok_post(self@, pairs@[i].0@, pairs@[i].1@),
                        }
                        ||| pairs@[i].1@.data matches Err(EntryErrorSpec::Error(_))
                    }
            },
    {
        let keys = match self.key_iter(key_prefix) {
            Ok(keys) => keys,
            Err(e) => {
                return Err(e);
            },
        };
        let mut out: Vec<(String, Entry)> = Vec::new();
        let mut i: usize = 0;
        while i < keys.len()
            invariant
                0 <= i <= keys@.len(),
                key_iter_post(
                    keys@,
                    self@,
                    match key_prefix {
                        Some(p) => p@,
                        None => Seq::<char>::empty(),
                    },
                ),
                out@.len() == i,
                forall|j: int| 0 <= j < i ==> (#[trigger] out@[j]).0 == keys@[j],
                forall|j: int|
                    0 <= j < i ==> {
                        ||| match retrieval_method {
                            RetrievalMethod::Get => get_post(
                                self@,
                                (#[trigger] out@[j]).0@,
                                out@[j].1@,
                            ),
                            RetrievalMethod::GetOk => getok_post(self@, out@[j].0@, out@[j].1@),
                        }
                        ||| out@[j].1@.data matches Err(EntryErrorSpec::Error(_))
                    },
            decreases keys@.len() - i,
        {
            let key = keys[i].clone();
            let entry = match self.get(key.as_str(), retrieval_method) {
                Ok(entry) => entry,
                Err(err) => {
                    let mut msg = "Error: Key: ".to_owned();
                    msg.append(key.as_str());
                    msg.append(", Err: ");
                    msg.append(err.to_text().as_str());
                    Entry { data: Err(EntryError::Error(msg)), timestamp: crate::clock::now_seconds() }
                },
            };
            out.push((key, entry));
            i += 1;
        }
        proof {
            assert(out@.map_values(|pr: (String, Entry)| pr.0) =~= keys@);
        }
        Ok(out)
    }

    /// Lists `(key, error)` for every listed key whose current entry carries
    /// an error; keys whose current entry is a success are left out, and
    /// retrieval failures surface as a generic error value.
    #[verifier::rlimit(30)]
    pub fn error_iter(&self, key_prefix: Option<&str>) -> (r: Result<
        Vec<(String, EntryError)>,
        StoreError,
    >)
        ensures
            r matches Ok(pairs) ==> forall|i: int|
                0 <= i < pairs@.len() ==> current_entry_errors(
                    self@,
                    (#[trigger] pairs@[i]).0@,
                    pairs@[i].1@,
                ) || pairs@[i].1@ matches EntryErrorSpec::Error(_),
    {
        let keys = match self.key_iter(key_prefix) {
            Ok(keys) => keys,
            Err(e) => {
                return Err(e);
            },
        };
        let mut out: Vec<(String, EntryError)> = Vec::new();
        let mut i: usize = 0;
        while i < keys.len()
            invariant
                0 <= i <= keys@.len(),
                forall|j: int|
                    0 <= j < out@.len() ==> current_entry_errors(
                        self@,
                        (#[trigger] out@[j]).0@,
                        out@[j].1@,
                    ) || out@[j].1@ matches EntryErrorSpec::Error(_),
            decreases keys@.len() - i,
        {
            let key = keys[i].clone();
            match self.get(key.as_str(), &RetrievalMethod::Get) {
                Ok(entry) => {
                    let ghost ge = entry@;
                    proof {
                        assert(get_post(self@, key@, ge));
                    }
                    match entry.data {
                        Err(error) => {
                            proof {
                                assert(ge.data == Err::<Seq<u8>, EntryErrorSpec>(error@));
                                assert(current_entry_errors(self@, key@, error@));
                            }
                            out.push((key, error));
                        },
                        Ok(_) => {},
                    }
                },
                Err(err) => {
                    out.push((key, EntryError::Error(err.to_text())));
                },
            }
            i += 1;
        }
        Ok(out)
    }
}

/// The current entry of `k` carries exactly the error `err`.
pub open spec fn current_entry_errors(
    kv: Map<Seq<char>, Seq<u8>>,
    k: Seq<char>,
    err: EntryErrorSpec,
) -> bool {
    exists|e: EntrySpec|
        #[trigger] get_post(kv, k, e) && e.data == Err::<Seq<u8>, EntryErrorSpec>(err)
}

impl StoreError {
    /// A short description of the failure, naming the key where one is
    /// involved.
    pub fn to_text(&self) -> (r: String)
        ensures
            r@ == spec_store_error_text(self@),
    {
        match self {
            StoreError::Backend(msg) => {
                let mut s = "Error: store backend: ".to_owned();
                s.append(msg.as_str());
                s
            },
            StoreError::CorruptIndex(key) => {
                let mut s = "Error: corrupt revision index for key ".to_owned();
                s.append(key.as_str());
                s
            },
            StoreError::CorruptEntry(key) => {
                let mut s = "Error: corrupt entry at ".to_owned();
                s.append(key.as_str());
                s
            },
            StoreError::NoOkValueFound(key) => {
                let mut s = "Error: no ok value found for key ".to_owned();
                s.append(key.as_str());
                s
            },
        }
    }
}

/// The rendered text of a store failure.
pub open spec fn spec_store_error_text(e: <StoreError as View>::V) -> Seq<char> {
    match e {
        StoreErrorSpec::Backend(msg) => "Error: store backend: "@ + msg,
        StoreErrorSpec::CorruptIndex(key) => "Error: corrupt revision index for key "@ + key,
        StoreErrorSpec::CorruptEntry(key) => "Error: corrupt entry at "@ + key,
        StoreErrorSpec::NoOkValueFound(key) => "Error: no ok value found for key "@ + key,
    }
}


/// Witnesses that revision `m` is what a downward walk from `i` answers: a
/// success, with only reachable non-successes above it.
pub open spec fn walk_witness(
    kv: Map<Seq<char>, Seq<u8>>,
    k: Seq<char>,
    i: int,
    e: EntrySpec,
    m: u64,
) -> bool {
    &&& m as int <= i
    &&& ok_at(kv, k, m)
    &&& spec_entry_at(kv, k, m) == Some(e)
    &&& forall|j: u64|
        m < j && j as int <= i ==> #[trigger] rev_present(kv, k, j) && !ok_at(kv, k, j)
}

/// Revision `j` sees an unbroken, decodable run up to `i`: a downward walk
/// from `i` reaches it.
pub open spec fn walk_reaches(kv: Map<Seq<char>, Seq<u8>>, k: Seq<char>, i: int, j: u64) -> bool {
    forall|l: u64|
        j <= l && l as int <= i ==> #[trigger] rev_present(kv, k, l) && spec_entry_at(
            kv,
            k,
            l,
        ) is Some
}

/// What the downward walk proves about its answer: a success is the newest
/// reachable one, and a failed walk rules out every revision it could reach.
pub proof fn lemma_latest_ok_walk(kv: Map<Seq<char>, Seq<u8>>, k: Seq<char>, i: int)
    requires
        i <= u64::MAX,
    ensures
        spec_latest_ok_from(kv, k, i) matches Some(e) ==> exists|m: u64|
            #[trigger] walk_witness(kv, k, i, e, m),
        spec_latest_ok_from(kv, k, i) is None ==> forall|j: u64|
            j as int <= i && #[trigger] walk_reaches(kv, k, i, j) ==> !ok_at(kv, k, j),
    decreases i + 1,
{
    if i < 0 {
    } else if !rev_present(kv, k, i as u64) {
        assert forall|j: u64| j as int <= i && #[trigger] walk_reaches(kv, k, i, j) implies !ok_at(
            kv,
            k,
            j,
        ) by {
            assert(rev_present(kv, k, i as u64));
        }
    } else {
        match spec_entry_at(kv, k, i as u64) {
            Some(e0) => {
                if e0.data is Ok {
                    assert(spec_latest_ok_from(kv, k, i) == Some(e0));
                    assert(walk_witness(kv, k, i, e0, i as u64));
                } else {
                    lemma_latest_ok_walk(kv, k, i - 1);
                    assert(spec_latest_ok_from(kv, k, i) == spec_latest_ok_from(kv, k, i - 1));
                    match spec_latest_ok_from(kv, k, i - 1) {
                        Some(e) => {
                            assert(spec_latest_ok_from(kv, k, i - 1) matches Some(e2) && e2 == e);
                            assert(exists|m: u64| #[trigger] walk_witness(kv, k, i - 1, e, m));
                            let m0 = choose|m: u64| #[trigger] walk_witness(kv, k, i - 1, e, m);
                            assert(walk_witness(kv, k, i - 1, e, m0));
                            assert(forall|j: u64|
                                m0 < j && j as int <= i - 1 ==> rev_present(kv, k, j)
                                    && !#[trigger] ok_at(kv, k, j));
                            assert(!ok_at(kv, k, i as u64));
                            assert forall|j: u64|
                                m0 < j && j as int <= i implies rev_present(kv, k, j)
                                    && !#[trigger] ok_at(kv, k, j) by {
                                if j as int == i {
                                    assert(rev_present(kv, k, j));
                                    assert(!ok_at(kv, k, j));
                                } else {
                                    assert(m0 < j && j as int <= i - 1);
                                    assert(rev_present(kv, k, j) && !ok_at(kv, k, j));
                                }
                            }
                            assert(walk_witness(kv, k, i, e, m0));
                        },
                        None => {
                            assert forall|j: u64|
                                j as int <= i && #[trigger] walk_reaches(kv, k, i, j) implies !ok_at(
                                kv,
                                k,
                                j,
                            ) by {
                                if j as int == i {
                                    assert(!ok_at(kv, k, j));
                                } else {
                                    assert forall|l: u64|
                                        j <= l && l as int <= i - 1 implies #[trigger] rev_present(
                                        kv,
                                        k,
                                        l,
                                    ) && spec_entry_at(kv, k, l) is Some by {
                                        assert(rev_present(kv, k, l) && spec_entry_at(
                                            kv,
                                            k,
                                            l,
                                        ) is Some);
                                    }
                                    assert(walk_reaches(kv, k, i - 1, j));
                                }
                            }
                        },
                    }
                }
            },
            None => {
                assert forall|j: u64|
                    j as int <= i && #[trigger] walk_reaches(kv, k, i, j) implies !ok_at(
                    kv,
                    k,
                    j,
                ) by {
                    assert(rev_present(kv, k, i as u64) && spec_entry_at(kv, k, i as u64) is Some);
                }
            },
        }
    }
}

/// Reading with `Get` after an insert returns exactly the entry the insert
/// wrote: the store's current revision always holds the last-written data.
pub proof fn lemma_get_after_insert(
    kv0: Map<Seq<char>, Seq<u8>>,
    kv1: Map<Seq<char>, Seq<u8>>,
    k: Seq<char>,
    d: Result<Seq<u8>, EntryErrorSpec>,
    e: EntrySpec,
)
    requires
        key_wf(kv0, k) || key_absent(kv0, k),
        insert_post(kv0, kv1, k, d),
        get_post(kv1, k, e),
    ensures
        e.data == d,
{
    let s = choose|s: u64| #[trigger] insert_post_with(kv0, kv1, k, d, s);
    let next = spec_next_index(kv0, k);
    lemma_u64_be_bytes_roundtrip(next);
    assert(spec_current_index(kv1, k) == next);
    assert(rev_present(kv1, k, next));
}

/// After an insert the key is well-formed again: inserts preserve the store
/// invariant.
pub proof fn lemma_insert_preserves_wf(
    kv0: Map<Seq<char>, Seq<u8>>,
    kv1: Map<Seq<char>, Seq<u8>>,
    k: Seq<char>,
    d: Result<Seq<u8>, EntryErrorSpec>,
)
    requires
        key_wf(kv0, k) || key_absent(kv0, k),
        insert_post(kv0, kv1, k, d),
    ensures
        key_wf(kv1, k),
{
    let s = choose|s: u64| #[trigger] insert_post_with(kv0, kv1, k, d, s);
    let next = spec_next_index(kv0, k);
    lemma_u64_be_bytes_roundtrip(next);
    assert(spec_index_of(kv1, k) == next);
    assert(key_wf_with(kv1, k, spec_index_of(kv1, k), s));
}

/// Reading with `GetOk` on a well-formed key returns the success with the
/// highest revision, over all revisions, not merely the reachable ones.
pub proof fn lemma_getok_newest_success(kv: Map<Seq<char>, Seq<u8>>, k: Seq<char>, e: EntrySpec)
    requires
        key_wf(kv, k),
        getok_post(kv, k, e),
    ensures
        exists|m: u64|
            {
                &&& #[trigger] ok_at(kv, k, m)
                &&& spec_entry_at(kv, k, m) == Some(e)
                &&& forall|j: u64| j > m ==> !#[trigger] ok_at(kv, k, j)
            },
{
    let s = choose|s: u64| key_wf_with(kv, k, spec_index_of(kv, k), s);
    let r = spec_index_of(kv, k);
    assert(spec_current_index(kv, k) == r);
    lemma_latest_ok_walk(kv, k, r as int);
    let m0 = choose|m: u64| #[trigger] walk_witness(kv, k, r as int, e, m);
    assert forall|j: u64| j > m0 implies !#[trigger] ok_at(kv, k, j) by {
        if j > r {
            assert(!rev_present(kv, k, j));
        } else {
            assert(rev_present(kv, k, j) && !ok_at(kv, k, j));
        }
    }
    assert(ok_at(kv, k, m0) && spec_entry_at(kv, k, m0) == Some(e));
}

/// A failed `GetOk` on a well-formed key means no revision at all holds a
/// success.
pub proof fn lemma_getok_failure_no_success(kv: Map<Seq<char>, Seq<u8>>, k: Seq<char>)
    requires
        key_wf(kv, k),
        spec_latest_ok_from(kv, k, spec_current_index(kv, k) as int) is None,
    ensures
        forall|j: u64| !#[trigger] ok_at(kv, k, j),
{
    let s = choose|s: u64| key_wf_with(kv, k, spec_index_of(kv, k), s);
    let r = spec_index_of(kv, k);
    assert(spec_current_index(kv, k) == r);
    lemma_latest_ok_walk(kv, k, r as int);
    assert forall|j: u64| !#[trigger] ok_at(kv, k, j) by {
        if ok_at(kv, k, j) {
            assert(rev_present(kv, k, j));
            assert(s <= j <= r);
            assert forall|l: u64|
                j <= l && l as int <= r as int implies #[trigger] rev_present(kv, k, l)
                    && spec_entry_at(kv, k, l) is Some by {
                assert(s <= l <= r);
            }
            assert(walk_reaches(kv, k, r as int, j));
        }
    }
}

/// After `remove_all` on a well-formed key the key has no cells left, `Get`
/// reports it as never written, and `GetOk` finds nothing.
pub proof fn lemma_remove_all_forgets(
    kv0: Map<Seq<char>, Seq<u8>>,
    kv1: Map<Seq<char>, Seq<u8>>,
    k: Seq<char>,
)
    requires
        key_wf(kv0, k),
        !has_index(kv1, k),
        forall|i: u64| i <= spec_index_of(kv0, k) ==> !#[trigger] rev_present(kv1, k, i),
        forall|i: u64|
            i > spec_index_of(kv0, k) ==> (#[trigger] rev_present(kv1, k, i) <==> rev_present(
                kv0,
                k,
                i,
            )),
    ensures
        key_absent(kv1, k),
        forall|e: EntrySpec|
            #[trigger] get_post(kv1, k, e) ==> e.data == Err::<Seq<u8>, EntryErrorSpec>(
                EntryErrorSpec::KeyDoesNotExist(rev_key(k, 0)),
            ),
        spec_latest_ok_from(kv1, k, spec_current_index(kv1, k) as int) is None,
{
    let s = choose|s: u64| key_wf_with(kv0, k, spec_index_of(kv0, k), s);
    assert forall|i: u64| !#[trigger] rev_present(kv1, k, i) by {
        if i > spec_index_of(kv0, k) {
            assert(!rev_present(kv0, k, i));
        }
    }
    assert(spec_current_index(kv1, k) == 0);
    assert(!rev_present(kv1, k, 0));
}

/// The live revisions after an insert are exactly the contiguous block from
/// the newest success (or the new revision itself when none is a success) up
/// to the new revision.
pub proof fn lemma_insert_live_revisions(
    kv0: Map<Seq<char>, Seq<u8>>,
    kv1: Map<Seq<char>, Seq<u8>>,
    k: Seq<char>,
    d: Result<Seq<u8>, EntryErrorSpec>,
)
    requires
        key_wf(kv0, k) || key_absent(kv0, k),
        insert_post(kv0, kv1, k, d),
    ensures
        exists|s: u64| #[trigger] live_revisions_shape(kv1, k, spec_next_index(kv0, k), s),
{
    let s = choose|s: u64| #[trigger] insert_post_with(kv0, kv1, k, d, s);
    let next = spec_next_index(kv0, k);
    assert forall|j: u64| j > s implies !#[trigger] ok_at(kv1, k, j) by {
        if j > next {
            assert(!rev_present(kv1, k, j));
        }
    }
    assert(live_revisions_shape(kv1, k, next, s));
}

/// The live revisions run from the newest success `s` (or the top revision
/// itself) up to the top revision `next`, and no newer revision than `s`
/// holds a success.
pub open spec fn live_revisions_shape(
    kv: Map<Seq<char>, Seq<u8>>,
    k: Seq<char>,
    next: u64,
    s: u64,
) -> bool {
    &&& s <= next
    &&& (forall|i: u64| #[trigger] rev_present(kv, k, i) <==> s <= i <= next)
    &&& (ok_at(kv, k, s) || s == next)
    &&& (forall|j: u64| j > s ==> !#[trigger] ok_at(kv, k, j))
}

/// Inserting over a counter that stands at its maximum wipes the history:
/// the new entry lands at revision zero and is the only live one.
pub proof fn lemma_insert_overflow_wipes(
    kv0: Map<Seq<char>, Seq<u8>>,
    kv1: Map<Seq<char>, Seq<u8>>,
    k: Seq<char>,
    d: Result<Seq<u8>, EntryErrorSpec>,
)
    requires
        key_wf(kv0, k),
        spec_index_of(kv0, k) == u64::MAX,
        insert_post(kv0, kv1, k, d),
    ensures
        spec_next_index(kv0, k) == 0,
        forall|i: u64| #[trigger] rev_present(kv1, k, i) <==> i == 0,
        match spec_entry_at(kv1, k, 0) {
            Some(e) => e.data == d,
            None => false,
        },
{
    let s = choose|s: u64| #[trigger] insert_post_with(kv0, kv1, k, d, s);
    assert(s == 0);
}

/// Two inserts of the same successful data in a row advance the revision at
/// most once: after the first call the newest success already carries `d`,
/// so the second call reports that nothing was inserted and changes nothing.
pub proof fn lemma_insert_if_not_exists_idempotent(
    kv0: Map<Seq<char>, Seq<u8>>,
    kv1: Map<Seq<char>, Seq<u8>>,
    k: Seq<char>,
    d: Result<Seq<u8>, EntryErrorSpec>,
)
    requires
        key_wf(kv0, k) || key_absent(kv0, k),
        d is Ok,
        insert_post(kv0, kv1, k, d) || (kv1 == kv0 && match spec_latest_ok_from(
            kv0,
            k,
            spec_current_index(kv0, k) as int,
        ) {
            Some(e) => e.data == d,
            None => false,
        }),
    ensures
        match spec_latest_ok_from(kv1, k, spec_current_index(kv1, k) as int) {
            Some(e) => e.data == d,
            None => false,
        },
{
    if insert_post(kv0, kv1, k, d) {
        let s = choose|s: u64| #[trigger] insert_post_with(kv0, kv1, k, d, s);
        let next = spec_next_index(kv0, k);
        lemma_u64_be_bytes_roundtrip(next);
        assert(spec_current_index(kv1, k) == next);
        assert(rev_present(kv1, k, next));
        assert(spec_latest_ok_from(kv1, k, next as int) == spec_entry_at(kv1, k, next));
    }
}

} // verus!

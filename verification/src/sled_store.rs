//! Thin adapter over an embedded ordered key-value database.
//!
//! Every key handed to the adapter is rewritten to `global_prefix ++ key`
//! before it reaches the database, and keys coming back from scans have the
//! prefix stripped again. The database itself is reached only through the
//! trusted wrappers at the bottom of this file; everything above them is
//! verified against the map model [`db_view`].
//!
//! The model treats the handle as the sole owner of the database's text-keyed
//! contents: the adapter never clones its handle, and a caller who opens the
//! same database twice is outside the model.

use vstd::prelude::*;
use vstd::string::StrSliceExecFns;
use vstd::string::StringExecFns;

verus! {

/// The adapter's single failure kind: the backing database reported an error.
#[derive(Debug)]
pub enum StoreError {
    /// An error propagated from the backing database, as text.
    Backend(String),
    /// A stored revision index cell did not hold an 8-byte value.
    CorruptIndex(String),
    /// A stored entry cell did not hold a well-formed entry encoding.
    CorruptEntry(String),
    /// No revision of the key holds a successful value.
    NoOkValueFound(String),
}

/// The mathematical value of a [`StoreError`]: the same tag over the
/// message's character sequence.
pub enum StoreErrorSpec {
    Backend(Seq<char>),
    CorruptIndex(Seq<char>),
    CorruptEntry(Seq<char>),
    NoOkValueFound(Seq<char>),
}

impl View for StoreError {
    type V = StoreErrorSpec;

    open spec fn view(&self) -> StoreErrorSpec {
        match self {
            StoreError::Backend(m) => StoreErrorSpec::Backend(m@),
            StoreError::CorruptIndex(m) => StoreErrorSpec::CorruptIndex(m@),
            StoreError::CorruptEntry(m) => StoreErrorSpec::CorruptEntry(m@),
            StoreError::NoOkValueFound(m) => StoreErrorSpec::NoOkValueFound(m@),
        }
    }
}

#[verifier::external_type_specification]
#[verifier::external_body]
pub struct ExSledDb(sled::Db);

#[verifier::external_type_specification]
#[verifier::external_body]
pub struct ExSledError(sled::Error);

#[verifier::external_type_specification]
#[verifier::external_body]
pub struct ExSledSubscriber(sled::Subscriber);

#[verifier::external_type_specification]
#[verifier::external_body]
pub struct ExSledEvent(sled::Event);

/// The text-keyed contents of the database behind a handle: the map from each
/// UTF-8 key to its value bytes.
pub uninterp spec fn db_view(db: sled::Db) -> Map<Seq<char>, Seq<u8>>;

/// Relies on `sled::Tree::get`: returns the value stored under the key, or
/// `None` when the key is absent.
#[verifier::external_body]
fn db_get(db: &sled::Db, key: &String) -> (r: Result<Option<Vec<u8>>, sled::Error>)
    ensures
        match r {
            Ok(Some(v)) => db_view(*db).dom().contains(key@) && db_view(*db)[key@] == v@,
            Ok(None) => !db_view(*db).dom().contains(key@),
            Err(_) => true,
        },
{
    match db.get(key.as_bytes()) {
        Ok(Some(v)) => Ok(Some(v.to_vec())),
        Ok(None) => Ok(None),
        Err(e) => Err(e),
    }
}

/// Relies on `sled::Tree::contains_key`: true exactly when the key is present.
#[verifier::external_body]
fn db_contains_key(db: &sled::Db, key: &String) -> (r: Result<bool, sled::Error>)
    ensures
        r matches Ok(b) ==> b == db_view(*db).dom().contains(key@),
{
    db.contains_key(key.as_bytes())
}

/// Relies on `sled::Tree::insert`: stores the value under the key and returns
/// the previous value, if any.
#[verifier::external_body]
fn db_insert(db: &mut sled::Db, key: &String, value: Vec<u8>) -> (r: Result<
    Option<Vec<u8>>,
    sled::Error,
>)
    ensures
        match r {
            Ok(prev) => {
                &&& db_view(*final(db)) == db_view(*old(db)).insert(key@, value@)
                &&& match prev {
                    Some(p) => db_view(*old(db)).dom().contains(key@) && db_view(*old(db))[key@]
                        == p@,
                    None => !db_view(*old(db)).dom().contains(key@),
                }
            },
            Err(_) => db_view(*final(db)) == db_view(*old(db)) || db_view(*final(db)) == db_view(
                *old(db),
            ).insert(key@, value@),
        },
{
    match db.insert(key.as_bytes(), value) {
        Ok(Some(v)) => Ok(Some(v.to_vec())),
        Ok(None) => Ok(None),
        Err(e) => Err(e),
    }
}

/// Relies on `sled::Tree::remove`: deletes the key and returns the previous
/// value, if any.
#[verifier::external_body]
fn db_remove(db: &mut sled::Db, key: &String) -> (r: Result<Option<Vec<u8>>, sled::Error>)
    ensures
        match r {
            Ok(prev) => {
                &&& db_view(*final(db)) == db_view(*old(db)).remove(key@)
                &&& match prev {
                    Some(p) => db_view(*old(db)).dom().contains(key@) && db_view(*old(db))[key@]
                        == p@,
                    None => !db_view(*old(db)).dom().contains(key@),
                }
            },
            Err(_) => db_view(*final(db)) == db_view(*old(db)) || db_view(*final(db)) == db_view(
                *old(db),
            ).remove(key@),
        },
{
    match db.remove(key.as_bytes()) {
        Ok(Some(v)) => Ok(Some(v.to_vec())),
        Ok(None) => Ok(None),
        Err(e) => Err(e),
    }
}

/// What a prefix scan returns over contents `m`: exactly the pairs of `m`
/// whose key starts with `prefix`, each key once.
pub open spec fn scan_result_matches(
    pairs: Seq<(String, Vec<u8>)>,
    m: Map<Seq<char>, Seq<u8>>,
    prefix: Seq<char>,
) -> bool {
    &&& forall|i: int|
        0 <= i < pairs.len() ==> {
            &&& (#[trigger] pairs[i].0@).len() >= prefix.len()
            &&& pairs[i].0@.subrange(0, prefix.len() as int) == prefix
            &&& m.dom().contains(pairs[i].0@)
            &&& m[pairs[i].0@] == pairs[i].1@
        }
    &&& forall|k: Seq<char>|
        #[trigger] m.dom().contains(k) && k.len() >= prefix.len() && k.subrange(
            0,
            prefix.len() as int,
        ) == prefix ==> exists|i: int| 0 <= i < pairs.len() && pairs[i].0@ == k
    &&& forall|i: int, j: int|
        0 <= i < pairs.len() && 0 <= j < pairs.len() && i != j ==> (#[trigger] pairs[i].0@) != (
        #[trigger] pairs[j].0@)
}

/// Relies on `sled::Tree::scan_prefix`: yields exactly the stored pairs whose
/// key starts with the prefix, each key once.
#[verifier::external_body]
fn db_scan_prefix(db: &sled::Db, prefix: &String) -> (r: Result<
    Vec<(String, Vec<u8>)>,
    sled::Error,
>)
    ensures
        r matches Ok(pairs) ==> scan_result_matches(pairs@, db_view(*db), prefix@),
{
    let mut out: Vec<(String, Vec<u8>)> = Vec::new();
    for item in db.scan_prefix(prefix.as_bytes()) {
        let (k, v) = item?;
        if let Ok(ks) = std::str::from_utf8(&k) {
            out.push((ks.to_owned(), v.to_vec()));
        }
    }
    Ok(out)
}

/// Relies on `sled::Tree::watch_prefix`: registers a subscriber for changes to
/// keys starting with the prefix.
#[verifier::external_body]
fn db_watch_prefix(db: &sled::Db, prefix: &String) -> sled::Subscriber {
    db.watch_prefix(prefix.as_bytes())
}

/// Relies on `sled::Error`'s display impl: renders the error as text.
#[verifier::external_body]
fn sled_error_text(e: &sled::Error) -> String {
    e.to_string()
}

/// Wraps a database error as the adapter's failure value.
fn backend_error(e: sled::Error) -> (r: StoreError)
    ensures
        r is Backend,
{
    StoreError::Backend(sled_error_text(&e))
}

/// The map left over after restricting `m` to keys starting with `p` and
/// cutting `p` off each.
pub open spec fn strip_prefix_view(m: Map<Seq<char>, Seq<u8>>, p: Seq<char>) -> Map<
    Seq<char>,
    Seq<u8>,
> {
    Map::new(|k: Seq<char>| m.dom().contains(p + k), |k: Seq<char>| m[p + k])
}

/// Appending to a common prefix is injective.
pub proof fn lemma_prefix_cancel(p: Seq<char>, a: Seq<char>, b: Seq<char>)
    requires
        p + a == p + b,
    ensures
        a == b,
{
    assert(a =~= (p + a).skip(p.len() as int));
    assert(b =~= (p + b).skip(p.len() as int));
}

/// A sequence that starts with `p` is `p` followed by its own tail.
pub proof fn lemma_prefix_split(s: Seq<char>, p: Seq<char>)
    requires
        s.len() >= p.len(),
        s.subrange(0, p.len() as int) == p,
    ensures
        s == p + s.skip(p.len() as int),
{
    assert forall|i: int| 0 <= i < p.len() implies s[i] == p[i] by {
        assert(s.subrange(0, p.len() as int)[i] == s[i]);
    }
    assert(s =~= p + s.skip(p.len() as int));
}

/// Writing under a prefixed key shows up in the stripped view as a plain
/// insert.
pub proof fn lemma_strip_insert(
    m: Map<Seq<char>, Seq<u8>>,
    p: Seq<char>,
    k: Seq<char>,
    v: Seq<u8>,
)
    ensures
        strip_prefix_view(m.insert(p + k, v), p) == strip_prefix_view(m, p).insert(k, v),
{
    let lhs = strip_prefix_view(m.insert(p + k, v), p);
    let rhs = strip_prefix_view(m, p).insert(k, v);
    assert forall|q: Seq<char>| lhs.dom().contains(q) <==> rhs.dom().contains(q) by {
        if p + q == p + k {
            lemma_prefix_cancel(p, q, k);
        }
    }
    assert forall|q: Seq<char>| rhs.dom().contains(q) implies lhs[q] == rhs[q] by {
        if p + q == p + k {
            lemma_prefix_cancel(p, q, k);
        }
        if q == k {
            assert(p + q == p + k);
        }
    }
    assert(lhs =~= rhs);
}

/// Deleting a prefixed key shows up in the stripped view as a plain removal.
pub proof fn lemma_strip_remove(m: Map<Seq<char>, Seq<u8>>, p: Seq<char>, k: Seq<char>)
    ensures
        strip_prefix_view(m.remove(p + k), p) == strip_prefix_view(m, p).remove(k),
{
    let lhs = strip_prefix_view(m.remove(p + k), p);
    let rhs = strip_prefix_view(m, p).remove(k);
    assert forall|q: Seq<char>| lhs.dom().contains(q) <==> rhs.dom().contains(q) by {
        if p + q == p + k {
            lemma_prefix_cancel(p, q, k);
        }
        if q == k {
            assert(p + q == p + k);
        }
    }
    assert forall|q: Seq<char>| rhs.dom().contains(q) implies lhs[q] == rhs[q] by {}
    assert(lhs =~= rhs);
}

/// The adapter: a database handle plus the global prefix it owns.
pub struct SledStore {
    db: sled::Db,
    global_prefix: String,
}

impl View for SledStore {
    type V = Map<Seq<char>, Seq<u8>>;

    /// The logical contents: stored pairs under this adapter's prefix, with
    /// the prefix stripped.
    closed spec fn view(&self) -> Map<Seq<char>, Seq<u8>> {
        strip_prefix_view(db_view(self.db), self.global_prefix@)
    }
}

impl SledStore {
    /// The global prefix this adapter prepends to every key.
    pub closed spec fn spec_prefix(&self) -> Seq<char> {
        self.global_prefix@
    }

    /// Takes ownership of a database handle and owns all keys under
    /// `global_prefix` from now on.
    pub fn new(sled_db: sled::Db, global_prefix: &str) -> (r: SledStore)
        ensures
            r.spec_prefix() == global_prefix@,
            r@ == strip_prefix_view(db_view(sled_db), global_prefix@),
    {
        SledStore { db: sled_db, global_prefix: global_prefix.to_owned() }
    }

    /// The full database key for a caller key.
    fn add_global_prefix(&self, key: &String) -> (r: String)
        ensures
            r@ == self.spec_prefix() + key@,
    {
        let mut r = self.global_prefix.clone();
        r.append(key.as_str());
        r
    }

    /// True exactly when the key is present under this adapter's prefix.
    pub fn contains_key(&self, key: &String) -> (r: Result<bool, StoreError>)
        ensures
            r matches Ok(b) ==> b == self@.dom().contains(key@),
            r matches Err(e) ==> e is Backend,
    {
        let global_key = self.add_global_prefix(key);
        match db_contains_key(&self.db, &global_key) {
            Ok(b) => Ok(b),
            Err(e) => Err(backend_error(e)),
        }
    }

    /// The value stored under the key, or `None` when absent.
    pub fn get(&self, key: &String) -> (r: Result<Option<Vec<u8>>, StoreError>)
        ensures
            match r {
                Ok(Some(v)) => self@.dom().contains(key@) && self@[key@] == v@,
                Ok(None) => !self@.dom().contains(key@),
                Err(e) => e is Backend,
            },
    {
        let global_key = self.add_global_prefix(key);
        match db_get(&self.db, &global_key) {
            Ok(v) => Ok(v),
            Err(e) => Err(backend_error(e)),
        }
    }

    /// Stores `value` under the key.
    pub fn insert(&mut self, key: &String, value: Vec<u8>) -> (r: Result<(), StoreError>)
        ensures
            final(self).spec_prefix() == old(self).spec_prefix(),
            r matches Ok(_) ==> final(self)@ == old(self)@.insert(key@, value@),
            r matches Err(e) ==> e is Backend && (final(self)@ == old(self)@ || final(self)@
                == old(self)@.insert(key@, value@)),
    {
        let global_key = self.add_global_prefix(key);
        let ghost gv = value@;
        match db_insert(&mut self.db, &global_key, value) {
            Ok(_) => {
                proof {
                    lemma_strip_insert(db_view(old(self).db), old(self).global_prefix@, key@, gv);
                }
                Ok(())
            },
            Err(e) => {
                proof {
                    lemma_strip_insert(db_view(old(self).db), old(self).global_prefix@, key@, gv);
                }
                Err(backend_error(e))
            },
        }
    }

    /// Deletes the key, returning the previous value if one was stored.
    pub fn remove(&mut self, key: &String) -> (r: Result<Option<Vec<u8>>, StoreError>)
        ensures
            final(self).spec_prefix() == old(self).spec_prefix(),
            match r {
                Ok(prev) => {
                    &&& final(self)@ == old(self)@.remove(key@)
                    &&& match prev {
                        Some(p) => old(self)@.dom().contains(key@) && old(self)@[key@] == p@,
                        None => !old(self)@.dom().contains(key@),
                    }
                },
                Err(e) => e is Backend && (final(self)@ == old(self)@ || final(self)@ == old(
                    self,
                )@.remove(key@)),
            },
    {
        let global_key = self.add_global_prefix(key);
        match db_remove(&mut self.db, &global_key) {
            Ok(prev) => {
                proof {
                    lemma_strip_remove(db_view(old(self).db), old(self).global_prefix@, key@);
                }
                Ok(prev)
            },
            Err(e) => {
                proof {
                    lemma_strip_remove(db_view(old(self).db), old(self).global_prefix@, key@);
                }
                Err(backend_error(e))
            },
        }
    }

    /// Registers a change subscriber for keys starting with the prefix, and
    /// rewrites the prefix to the full database form it subscribed under.
    pub fn watch_prefix(&self, prefix: &mut String) -> (r: sled::Subscriber)
        ensures
            final(prefix)@ == self.spec_prefix() + old(prefix)@,
    {
        let full = self.add_global_prefix(prefix);
        let r = db_watch_prefix(&self.db, &full);
        *prefix = full;
        r
    }

    /// All stored pairs whose caller key starts with `prefix`, each key once,
    /// with the global prefix already stripped.
    #[verifier::rlimit(60)]
    #[verifier::spinoff_prover]
    pub fn scan_prefix(&self, prefix: &String) -> (r: Result<Vec<(String, Vec<u8>)>, StoreError>)
        ensures
            r matches Ok(pairs) ==> scan_result_matches(pairs@, self@, prefix@),
            r matches Err(e) ==> e is Backend,
    {
        let full = self.add_global_prefix(prefix);
        let raw = match db_scan_prefix(&self.db, &full) {
            Ok(raw) => raw,
            Err(e) => {
                return Err(backend_error(e));
            },
        };
        let plen = self.global_prefix.as_str().unicode_len();
        let mut out: Vec<(String, Vec<u8>)> = Vec::new();
        let mut i: usize = 0;
        while i < raw.len()
            invariant
                0 <= i <= raw@.len(),
                plen == self.spec_prefix().len(),
                forall|j: int|
                    0 <= j < raw@.len() ==> {
                        &&& (#[trigger] raw@[j].0@).len() >= full@.len()
                        &&& raw@[j].0@.subrange(0, full@.len() as int) == full@
                        &&& db_view(self.db).dom().contains(raw@[j].0@)
                        &&& db_view(self.db)[raw@[j].0@] == raw@[j].1@
                    },
                full@ == self.spec_prefix() + prefix@,
                out@.len() == i,
                forall|j: int|
                    0 <= j < i ==> (#[trigger] out@[j].0@) == raw@[j].0@.skip(
                        self.spec_prefix().len() as int,
                    ) && out@[j].1@ == raw@[j].1@,
            decreases raw@.len() - i,
        {
            let (k, v) = &raw[i];
            let key_len = k.as_str().unicode_len();
            proof {
                assert(full@.len() >= self.spec_prefix().len());
                assert(k@.len() >= full@.len());
            }
            let stripped = k.as_str().substring_char(plen, key_len).to_owned();
            let copied = clone_bytes(v);
            proof {
                assert(stripped@ =~= k@.skip(self.spec_prefix().len() as int));
            }
            out.push((stripped, copied));
            i += 1;
        }
        proof {
            let p = self.spec_prefix();
            let m = db_view(self.db);
            assert forall|j: int| 0 <= j < out@.len() implies {
                &&& (#[trigger] out@[j].0@).len() >= prefix@.len()
                &&& out@[j].0@.subrange(0, prefix@.len() as int) == prefix@
                &&& self@.dom().contains(out@[j].0@)
                &&& self@[out@[j].0@] == out@[j].1@
            } by {
                let rk = raw@[j].0@;
                let sk = out@[j].0@;
                assert(sk == rk.skip(p.len() as int));
                assert(rk.subrange(0, p.len() as int) =~= rk.subrange(0, full@.len() as int)
                    .subrange(0, p.len() as int));
                assert(full@.subrange(0, p.len() as int) =~= p);
                lemma_prefix_split(rk, p);
                assert(p + sk == rk);
                assert(sk.subrange(0, prefix@.len() as int) =~= rk.subrange(
                    p.len() as int,
                    full@.len() as int,
                ));
                assert(rk.subrange(p.len() as int, full@.len() as int) =~= rk.subrange(
                    0,
                    full@.len() as int,
                ).skip(p.len() as int));
                assert(full@.skip(p.len() as int) =~= prefix@);
            }
            assert forall|k: Seq<char>|
                #[trigger] self@.dom().contains(k) && k.len() >= prefix@.len() && k.subrange(
                    0,
                    prefix@.len() as int,
                ) == prefix@ implies exists|i2: int| 0 <= i2 < out@.len() && out@[i2].0@ == k by {
                assert(m.dom().contains(p + k));
                assert((p + k).len() >= full@.len());
                assert((p + k).subrange(0, full@.len() as int) =~= p + k.subrange(
                    0,
                    prefix@.len() as int,
                ));
                assert((p + k).subrange(0, full@.len() as int) == full@);
                let i2 = choose|i2: int| 0 <= i2 < raw@.len() && raw@[i2].0@ == p + k;
                assert(out@[i2].0@ == (p + k).skip(p.len() as int));
                assert((p + k).skip(p.len() as int) =~= k);
            }
            assert forall|i2: int, j2: int|
                0 <= i2 < out@.len() && 0 <= j2 < out@.len() && i2 != j2 implies (
            #[trigger] out@[i2].0@) != (#[trigger] out@[j2].0@) by {
                let rk1 = raw@[i2].0@;
                let rk2 = raw@[j2].0@;
                assert(rk1.subrange(0, p.len() as int) =~= rk1.subrange(0, full@.len() as int)
                    .subrange(0, p.len() as int));
                assert(rk2.subrange(0, p.len() as int) =~= rk2.subrange(0, full@.len() as int)
                    .subrange(0, p.len() as int));
                assert(full@.subrange(0, p.len() as int) =~= p);
                lemma_prefix_split(rk1, p);
                lemma_prefix_split(rk2, p);
                if out@[i2].0@ == out@[j2].0@ {
                    assert(rk1 == rk2);
                }
            }
            assert(scan_result_matches(out@, self@, prefix@));
        }
        Ok(out)
    }
}

/// Copies a byte vector.
fn clone_bytes(v: &Vec<u8>) -> (r: Vec<u8>)
    ensures
        r@ == v@,
{
    let mut r: Vec<u8> = Vec::new();
    let mut i: usize = 0;
    while i < v.len()
        invariant
            0 <= i <= v@.len(),
            r@ =~= v@.subrange(0, i as int),
        decreases v@.len() - i,
    {
        r.push(v[i]);
        i += 1;
    }
    proof {
        assert(r@ =~= v@);
    }
    r
}

} // verus!

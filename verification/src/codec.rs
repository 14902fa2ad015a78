//! The canonical byte form of a credentials database, and the envelope
//! over it.
//!
//! A database serializes as its owner string, an entry count, and the
//! entries in order; each string is its UTF-8 bytes prefixed by their
//! count as eight little-endian bytes. Decoding is the exact inverse and
//! rejects trailing bytes, bad UTF-8, and duplicate entry names, so a
//! decoded database is always well-formed.

use vstd::prelude::*;
use vstd::bytes::{
    lemma_auto_spec_u64_to_from_le_bytes, spec_u64_from_le_bytes, spec_u64_to_le_bytes,
    u64_from_le_bytes, u64_to_le_bytes,
};
use vstd::utf8::{
    decode_utf8, encode_utf8, encode_utf8_decode_utf8, encode_utf8_valid_utf8, valid_utf8,
};
use crate::cryptography::{
    decrypt, encrypt, gcm_open_spec, is_encryption_of, BlobView, EncryptedBlob,
};
use crate::database::{unique_names, CredentialView, CredentialsDatabase, DbView};
use crate::error::Error;
use crate::text::{bytes_to_string, push_bytes};

verus! {

/// A string's UTF-8 form is short enough for an 8-byte length prefix.
pub open spec fn str_fits(s: Seq<char>) -> bool {
    encode_utf8(s).len() <= u64::MAX
}

/// Every string of the database fits its length prefix, and the entry
/// count fits too. True of every database an executable built.
pub open spec fn db_fits(v: DbView) -> bool {
    &&& str_fits(v.owner)
    &&& v.entries.len() <= u64::MAX
    &&& forall|i: int|
        0 <= i < v.entries.len() ==> {
            &&& str_fits((#[trigger] v.entries[i]).0)
            &&& str_fits(v.entries[i].1.username)
            &&& str_fits(v.entries[i].1.password)
        }
}

/// The encoding of one string: UTF-8 byte count, then the UTF-8 bytes.
pub open spec fn spec_encode_str(s: Seq<char>) -> Seq<u8> {
    spec_u64_to_le_bytes(encode_utf8(s).len() as u64) + encode_utf8(s)
}

/// The encoding of one credential: username, then password.
pub open spec fn spec_encode_credential(c: CredentialView) -> Seq<u8> {
    spec_encode_str(c.username) + spec_encode_str(c.password)
}

/// The encoding of one entry: its name, then its credential.
pub open spec fn spec_encode_entry(e: (Seq<char>, CredentialView)) -> Seq<u8> {
    spec_encode_str(e.0) + spec_encode_credential(e.1)
}

/// The encodings of the entries, in order.
pub open spec fn spec_encode_entries(es: Seq<(Seq<char>, CredentialView)>) -> Seq<u8>
    decreases es.len(),
{
    if es.len() == 0 {
        Seq::empty()
    } else {
        spec_encode_entries(es.drop_last()) + spec_encode_entry(es.last())
    }
}

/// The canonical encoding of a database: owner, entry count, entries.
pub open spec fn spec_encode_db(v: DbView) -> Seq<u8> {
    spec_encode_str(v.owner) + spec_u64_to_le_bytes(v.entries.len() as u64) + spec_encode_entries(
        v.entries,
    )
}

/// Reads eight little-endian bytes at `i`.
pub open spec fn dec_u64(b: Seq<u8>, i: int) -> Option<(u64, int)> {
    if 0 <= i && i + 8 <= b.len() {
        Some((spec_u64_from_le_bytes(b.subrange(i, i + 8)), i + 8))
    } else {
        None
    }
}

/// Reads a length-prefixed UTF-8 string at `i`.
pub open spec fn dec_str(b: Seq<u8>, i: int) -> Option<(Seq<char>, int)> {
    match dec_u64(b, i) {
        Some((n, j)) => {
            if j + n <= b.len() && valid_utf8(b.subrange(j, j + n)) {
                Some((decode_utf8(b.subrange(j, j + n)), j + n))
            } else {
                None
            }
        },
        None => None,
    }
}

/// Reads a credential at `i`: username, then password.
pub open spec fn dec_credential(b: Seq<u8>, i: int) -> Option<(CredentialView, int)> {
    match dec_str(b, i) {
        Some((u, j)) => match dec_str(b, j) {
            Some((p, k)) => Some((CredentialView { username: u, password: p }, k)),
            None => None,
        },
        None => None,
    }
}

/// Reads an entry at `i`: its name, then its credential.
pub open spec fn dec_entry(b: Seq<u8>, i: int) -> Option<((Seq<char>, CredentialView), int)> {
    match dec_str(b, i) {
        Some((name, j)) => match dec_credential(b, j) {
            Some((c, k)) => Some(((name, c), k)),
            None => None,
        },
        None => None,
    }
}

/// Reads `count` entries starting at `i`.
pub open spec fn dec_entries(b: Seq<u8>, i: int, count: nat) -> Option<
    (Seq<(Seq<char>, CredentialView)>, int),
>
    decreases count,
{
    if count == 0 {
        Some((Seq::empty(), i))
    } else {
        match dec_entry(b, i) {
            Some((e, j)) => match dec_entries(b, j, (count - 1) as nat) {
                Some((es, k)) => Some((seq![e] + es, k)),
                None => None,
            },
            None => None,
        }
    }
}

/// The database a byte string decodes into, if it is exactly one
/// well-formed encoding: owner, count, that many entries, nothing after,
/// and no duplicate entry names.
pub open spec fn spec_decode_db(b: Seq<u8>) -> Option<DbView> {
    match dec_str(b, 0) {
        Some((owner, i)) => match dec_u64(b, i) {
            Some((count, j)) => match dec_entries(b, j, count as nat) {
                Some((es, k)) => {
                    if k == b.len() && unique_names(es) {
                        Some(DbView { owner, entries: es })
                    } else {
                        None
                    }
                },
                None => None,
            },
            None => None,
        },
        None => None,
    }
}

/// Decoding an encoded u64 embedded at `i` returns it.
proof fn lemma_dec_u64(b: Seq<u8>, i: int, x: u64)
    requires
        0 <= i,
        i + 8 <= b.len(),
        b.subrange(i, i + 8) == spec_u64_to_le_bytes(x),
    ensures
        dec_u64(b, i) == Some((x, i + 8)),
{
    lemma_auto_spec_u64_to_from_le_bytes();
}

/// Decoding an encoded string embedded at `i` returns it.
proof fn lemma_dec_str(b: Seq<u8>, i: int, s: Seq<char>)
    requires
        str_fits(s),
        0 <= i,
        i + spec_encode_str(s).len() <= b.len(),
        b.subrange(i, i + spec_encode_str(s).len()) == spec_encode_str(s),
    ensures
        dec_str(b, i) == Some((s, i + spec_encode_str(s).len())),
{
    lemma_auto_spec_u64_to_from_le_bytes();
    broadcast use encode_utf8_valid_utf8;

    let u = encode_utf8(s);
    let n = u.len() as u64;
    let enc = spec_encode_str(s);
    assert(enc.len() == 8 + u.len());
    assert(b.subrange(i, i + 8) =~= enc.subrange(0, 8));
    assert(enc.subrange(0, 8) =~= spec_u64_to_le_bytes(n));
    assert(dec_u64(b, i) == Some((n, i + 8)));
    assert(b.subrange(i + 8, i + 8 + n) =~= enc.subrange(8, enc.len() as int));
    assert(enc.subrange(8, enc.len() as int) =~= u);
    encode_utf8_decode_utf8(s);
}

/// Decoding an encoded credential embedded at `i` returns it.
proof fn lemma_dec_credential(b: Seq<u8>, i: int, c: CredentialView)
    requires
        str_fits(c.username),
        str_fits(c.password),
        0 <= i,
        i + spec_encode_credential(c).len() <= b.len(),
        b.subrange(i, i + spec_encode_credential(c).len()) == spec_encode_credential(c),
    ensures
        dec_credential(b, i) == Some((c, i + spec_encode_credential(c).len())),
{
    let eu = spec_encode_str(c.username);
    let ep = spec_encode_str(c.password);
    let enc = spec_encode_credential(c);
    assert(b.subrange(i, i + eu.len()) =~= enc.subrange(0, eu.len() as int));
    assert(enc.subrange(0, eu.len() as int) =~= eu);
    lemma_dec_str(b, i, c.username);
    assert(b.subrange(i + eu.len(), i + eu.len() + ep.len()) =~= enc.subrange(
        eu.len() as int,
        enc.len() as int,
    ));
    assert(enc.subrange(eu.len() as int, enc.len() as int) =~= ep);
    lemma_dec_str(b, i + eu.len(), c.password);
}

/// Decoding an encoded entry embedded at `i` returns it.
proof fn lemma_dec_entry(b: Seq<u8>, i: int, e: (Seq<char>, CredentialView))
    requires
        str_fits(e.0),
        str_fits(e.1.username),
        str_fits(e.1.password),
        0 <= i,
        i + spec_encode_entry(e).len() <= b.len(),
        b.subrange(i, i + spec_encode_entry(e).len()) == spec_encode_entry(e),
    ensures
        dec_entry(b, i) == Some((e, i + spec_encode_entry(e).len())),
{
    let en = spec_encode_str(e.0);
    let ec = spec_encode_credential(e.1);
    let enc = spec_encode_entry(e);
    assert(b.subrange(i, i + en.len()) =~= enc.subrange(0, en.len() as int));
    assert(enc.subrange(0, en.len() as int) =~= en);
    lemma_dec_str(b, i, e.0);
    assert(b.subrange(i + en.len(), i + en.len() + ec.len()) =~= enc.subrange(
        en.len() as int,
        enc.len() as int,
    ));
    assert(enc.subrange(en.len() as int, enc.len() as int) =~= ec);
    lemma_dec_credential(b, i + en.len(), e.1);
}

/// The entry encoding also unfolds at the front.
proof fn lemma_encode_entries_first(es: Seq<(Seq<char>, CredentialView)>)
    requires
        es.len() > 0,
    ensures
        spec_encode_entries(es) == spec_encode_entry(es[0]) + spec_encode_entries(es.drop_first()),
    decreases es.len(),
{
    if es.len() == 1 {
        assert(es.drop_last() =~= Seq::<(Seq<char>, CredentialView)>::empty());
        assert(es.drop_first() =~= Seq::<(Seq<char>, CredentialView)>::empty());
        assert(spec_encode_entries(es) =~= spec_encode_entry(es[0]) + spec_encode_entries(
            es.drop_first(),
        ));
    } else {
        lemma_encode_entries_first(es.drop_last());
        assert(es.drop_last()[0] == es[0]);
        assert(es.drop_first().drop_last() =~= es.drop_last().drop_first());
        assert(es.drop_first().last() == es.last());
        assert(spec_encode_entries(es.drop_first()) == spec_encode_entries(
            es.drop_first().drop_last(),
        ) + spec_encode_entry(es.drop_first().last()));
        assert(spec_encode_entries(es) =~= spec_encode_entry(es[0]) + spec_encode_entries(
            es.drop_first(),
        ));
    }
}

/// Decoding the encoding of `count` entries embedded at `i` returns them.
proof fn lemma_dec_entries(b: Seq<u8>, i: int, es: Seq<(Seq<char>, CredentialView)>)
    requires
        forall|ix: int|
            0 <= ix < es.len() ==> {
                &&& str_fits((#[trigger] es[ix]).0)
                &&& str_fits(es[ix].1.username)
                &&& str_fits(es[ix].1.password)
            },
        0 <= i,
        i + spec_encode_entries(es).len() <= b.len(),
        b.subrange(i, i + spec_encode_entries(es).len()) == spec_encode_entries(es),
    ensures
        dec_entries(b, i, es.len()) == Some((es, i + spec_encode_entries(es).len())),
    decreases es.len(),
{
    if es.len() == 0 {
        assert(dec_entries(b, i, 0) == Some((Seq::<(Seq<char>, CredentialView)>::empty(), i)));
        assert(es =~= Seq::<(Seq<char>, CredentialView)>::empty());
    } else {
        lemma_encode_entries_first(es);
        let e0 = spec_encode_entry(es[0]);
        let rest = es.drop_first();
        let enc = spec_encode_entries(es);
        assert(enc.len() == e0.len() + spec_encode_entries(rest).len());
        assert(b.subrange(i, i + e0.len()) =~= enc.subrange(0, e0.len() as int));
        assert(enc.subrange(0, e0.len() as int) =~= e0);
        lemma_dec_entry(b, i, es[0]);
        assert(b.subrange(i + e0.len(), i + enc.len()) =~= enc.subrange(
            e0.len() as int,
            enc.len() as int,
        ));
        assert(enc.subrange(e0.len() as int, enc.len() as int) =~= spec_encode_entries(rest));
        assert(forall|ix: int|
            0 <= ix < rest.len() ==> {
                &&& str_fits((#[trigger] rest[ix]).0)
                &&& str_fits(rest[ix].1.username)
                &&& str_fits(rest[ix].1.password)
            });
        lemma_dec_entries(b, i + e0.len(), rest);
        assert(es =~= seq![es[0]] + rest);
    }
}

/// Decoding the canonical encoding of a well-formed database returns
/// exactly that database.
pub proof fn lemma_codec_round_trip(v: DbView)
    requires
        v.wf(),
        db_fits(v),
    ensures
        spec_decode_db(spec_encode_db(v)) == Some(v),
{
    lemma_auto_spec_u64_to_from_le_bytes();
    let b = spec_encode_db(v);
    let eo = spec_encode_str(v.owner);
    let cnt = spec_u64_to_le_bytes(v.entries.len() as u64);
    let ee = spec_encode_entries(v.entries);
    assert(b.len() == eo.len() + 8 + ee.len());
    assert(b.subrange(0, eo.len() as int) =~= eo);
    lemma_dec_str(b, 0, v.owner);
    assert(b.subrange(eo.len() as int, eo.len() as int + 8) =~= cnt);
    lemma_dec_u64(b, eo.len() as int, v.entries.len() as u64);
    assert(b.subrange(eo.len() as int + 8, b.len() as int) =~= ee);
    lemma_dec_entries(b, eo.len() as int + 8, v.entries);
}


/// A database's canonical encoding is never shorter than its two fixed
/// length prefixes.
pub proof fn lemma_encode_db_min_len(v: DbView)
    ensures
        spec_encode_db(v).len() >= 16,
{
    lemma_auto_spec_u64_to_from_le_bytes();
}

/// Appends the canonical encoding of one string.
fn encode_str_into(out: &mut Vec<u8>, s: &str)
    ensures
        final(out)@ == old(out)@ + spec_encode_str(s@),
        str_fits(s@),
{
    let bs = s.as_bytes();
    let len_bytes = u64_to_le_bytes(bs.len() as u64);
    push_bytes(out, len_bytes.as_slice());
    push_bytes(out, bs);
    proof {
        assert(out@ =~= old(out)@ + spec_encode_str(s@));
    }
}

/// Serializes a database to its canonical byte form.
pub fn encode_db(db: &CredentialsDatabase) -> (r: Vec<u8>)
    ensures
        r@ == spec_encode_db(db@),
        db_fits(db@),
{
    let ghost es = db@.entries;
    let mut out: Vec<u8> = Vec::new();
    encode_str_into(&mut out, db.username());
    let entries = db.entries();
    let n = entries.len();
    let cnt = u64_to_le_bytes(n as u64);
    push_bytes(&mut out, cnt.as_slice());
    let ghost head = spec_encode_str(db@.owner) + spec_u64_to_le_bytes(es.len() as u64);
    proof {
        assert(es.take(0) =~= Seq::<(Seq<char>, CredentialView)>::empty());
        assert(out@ =~= head + spec_encode_entries(es.take(0)));
    }
    let mut j: usize = 0;
    while j < n
        invariant
            n == entries@.len(),
            n == es.len(),
            es == db@.entries,
            forall|i: int|
                0 <= i < n ==> ((#[trigger] entries@[i]).0@, entries@[i].1@) == es[i],
            0 <= j <= n,
            out@ == head + spec_encode_entries(es.take(j as int)),
            forall|i: int|
                0 <= i < j ==> {
                    &&& str_fits((#[trigger] es[i]).0)
                    &&& str_fits(es[i].1.username)
                    &&& str_fits(es[i].1.password)
                },
        decreases n - j,
    {
        let pair = &entries[j];
        encode_str_into(&mut out, pair.0.as_str());
        encode_str_into(&mut out, pair.1.username.as_str());
        encode_str_into(&mut out, pair.1.password.as_str());
        proof {
            assert(es.take(j + 1).drop_last() =~= es.take(j as int));
            assert(es.take(j + 1).last() == es[j as int]);
            assert(out@ =~= head + spec_encode_entries(es.take(j + 1)));
        }
        j = j + 1;
    }
    proof {
        assert(es.take(n as int) =~= es);
        assert(out@ =~= spec_encode_db(db@));
    }
    out
}

/// Reads eight little-endian bytes at `pos`.
fn dec_u64_exec(b: &[u8], pos: usize) -> (r: Option<(u64, usize)>)
    ensures
        match r {
            Some(p) => dec_u64(b@, pos as int) == Some((p.0, p.1 as int)) && p.1 <= b@.len(),
            None => dec_u64(b@, pos as int) is None,
        },
{
    if b.len() >= 8 && pos <= b.len() - 8 {
        let x = u64_from_le_bytes(vstd::slice::slice_subrange(b, pos, pos + 8));
        Some((x, pos + 8))
    } else {
        None
    }
}

/// Reads a length-prefixed UTF-8 string at `pos`.
fn dec_str_exec(b: &[u8], pos: usize) -> (r: Option<(String, usize)>)
    ensures
        match r {
            Some(p) => dec_str(b@, pos as int) == Some((p.0@, p.1 as int)) && p.1 <= b@.len(),
            None => dec_str(b@, pos as int) is None,
        },
{
    match dec_u64_exec(b, pos) {
        Some((n, j)) => {
            if n <= (b.len() - j) as u64 {
                let end = j + (n as usize);
                match bytes_to_string(
                    vstd::slice::slice_to_vec(vstd::slice::slice_subrange(b, j, end)),
                ) {
                    Some(s) => Some((s, end)),
                    None => None,
                }
            } else {
                None
            }
        },
        None => None,
    }
}

/// Parses a canonical byte form back into a database. Rejects trailing
/// bytes, bad framing or UTF-8, and duplicate entry names, so the result
/// is always well-formed.
pub fn decode_db(bytes: &[u8]) -> (r: Option<CredentialsDatabase>)
    ensures
        match r {
            Some(db) => spec_decode_db(bytes@) == Some(db@) && db.wf(),
            None => spec_decode_db(bytes@) is None,
        },
{
    let (owner, pos1) = match dec_str_exec(bytes, 0) {
        Some(p) => p,
        None => {
            return None;
        },
    };
    let (count, pos2) = match dec_u64_exec(bytes, pos1) {
        Some(p) => p,
        None => {
            return None;
        },
    };
    let ghost gowner = owner@;
    let mut db = CredentialsDatabase::new(owner);
    let mut pos: usize = pos2;
    let mut j: u64 = 0;
    while j < count
        invariant
            0 <= j <= count,
            pos <= bytes@.len(),
            db.wf(),
            db@.owner == gowner,
            dec_str(bytes@, 0) == Some((gowner, pos1 as int)),
            dec_u64(bytes@, pos1 as int) == Some((count, pos2 as int)),
            match dec_entries(bytes@, pos as int, (count - j) as nat) {
                Some(p) => dec_entries(bytes@, pos2 as int, count as nat) == Some(
                    (db@.entries + p.0, p.1),
                ),
                None => dec_entries(bytes@, pos2 as int, count as nat) is None,
            },
        decreases count - j,
    {
        let ghost pre_entries = db@.entries;
        let ghost rem = (count - j) as nat;
        let (name, p1) = match dec_str_exec(bytes, pos) {
            Some(p) => p,
            None => {
                return None;
            },
        };
        let (cu, p2) = match dec_str_exec(bytes, p1) {
            Some(p) => p,
            None => {
                return None;
            },
        };
        let (cp, p3) = match dec_str_exec(bytes, p2) {
            Some(p) => p,
            None => {
                return None;
            },
        };
        let ghost e = ((name@, CredentialView { username: cu@, password: cp@ }), p3 as int);
        proof {
            assert(dec_entry(bytes@, pos as int) == Some(e));
        }
        if db.entry(name.as_str()).is_some() {
            // a duplicate name: whatever follows, the whole input is rejected
            proof {
                crate::database::lemma_entries_map_domain(pre_entries);
                let i = choose|i: int|
                    0 <= i < pre_entries.len() && (#[trigger] pre_entries[i]).0 == name@;
                match dec_entries(bytes@, pos as int, rem) {
                    Some(p) => {
                        let full = pre_entries + p.0;
                        assert(p.0[0] == e.0);
                        assert(full[i].0 == name@);
                        assert(full[pre_entries.len() as int].0 == name@);
                        assert(!unique_names(full));
                    },
                    None => {},
                }
            }
            return None;
        }
        proof {
            crate::database::lemma_entries_map_domain(pre_entries);
            assert forall|i: int| 0 <= i < pre_entries.len() implies (#[trigger] pre_entries[i]).0
                != name@ by {
                crate::database::lemma_entries_map_value(pre_entries, i);
            }
        }
        db.add(name, cu, cp);
        proof {
            assert(db@.entries =~= pre_entries.push(e.0));
            match dec_entries(bytes@, p3 as int, (rem - 1) as nat) {
                Some(p) => {
                    assert(dec_entries(bytes@, pos as int, rem) == Some((seq![e.0] + p.0, p.1)));
                    assert(pre_entries + (seq![e.0] + p.0) =~= db@.entries + p.0);
                },
                None => {
                    assert(dec_entries(bytes@, pos as int, rem) is None);
                },
            }
        }
        pos = p3;
        j = j + 1;
    }
    proof {
        assert(dec_entries(bytes@, pos as int, 0) == Some(
            (Seq::<(Seq<char>, CredentialView)>::empty(), pos as int),
        ));
        assert(db@.entries + Seq::<(Seq<char>, CredentialView)>::empty() =~= db@.entries);
    }
    if pos != bytes.len() {
        return None;
    }
    proof {
        assert(spec_decode_db(bytes@) == Some(db@));
    }
    Some(db)
}

/// What decrypting a blob into a database yields when the cipher engine
/// behaves: the decoded database when the tag authenticates the
/// ciphertext and the plaintext is exactly one well-formed encoding,
/// nothing otherwise.
pub open spec fn db_open_spec(v: BlobView, key: Seq<u8>) -> Option<DbView> {
    match gcm_open_spec(v, key) {
        Some(p) => spec_decode_db(p),
        None => None,
    }
}

impl EncryptedBlob {
    /// Serializes a database to its canonical byte form and seals it.
    pub fn encrypt(db: &CredentialsDatabase, key: &[u8]) -> (r: Result<EncryptedBlob, Error>)
        requires
            key@.len() == 32,
        ensures
            r matches Ok(b) ==> is_encryption_of(b@, key@, spec_encode_db(db@)) && db_fits(db@)
                && b@.data.len() == spec_encode_db(db@).len() && b@.data.len() >= 16,
            r matches Err(e) ==> e == Error::Unexpected,
    {
        proof {
            lemma_encode_db_min_len(db@);
        }
        let plain = encode_db(db);
        encrypt(key, plain.as_slice())
    }

    /// Opens a blob and parses the plaintext back into a database. Fails
    /// with an authentication error when the tag does not match or the
    /// plaintext does not parse; no partial result is ever returned.
    pub fn decrypt(&self, key: &[u8]) -> (r: Result<CredentialsDatabase, Error>)
        requires
            key@.len() == 32,
            self.wf(),
        ensures
            r matches Ok(db) ==> db_open_spec(self@, key@) == Some(db@) && db.wf(),
            db_open_spec(self@, key@) is None ==> r is Err,
            r matches Err(e) ==> e == Error::InvalidCredentials,
    {
        let plain = match decrypt(key, self) {
            Ok(p) => p,
            Err(e) => {
                return Err(e);
            },
        };
        match decode_db(plain.as_slice()) {
            Some(db) => Ok(db),
            None => Err(Error::InvalidCredentials),
        }
    }
}

/// Round trip: a database sealed under a key opens back to exactly that
/// database under the same key, for every well-formed database.
pub proof fn lemma_envelope_round_trip(v: BlobView, key: Seq<u8>, dbv: DbView)
    requires
        dbv.wf(),
        db_fits(dbv),
        is_encryption_of(v, key, spec_encode_db(dbv)),
    ensures
        db_open_spec(v, key) == Some(dbv),
{
    crate::cryptography::lemma_open_seal_round_trip(v, key, spec_encode_db(dbv));
    lemma_codec_round_trip(dbv);
}

} // verus!

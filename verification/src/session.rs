//! The session lifecycle: account creation, login, logout, and the
//! operations of an unlocked vault.
//!
//! A [`Vault`] holds at most one active session, the sole owner of the
//! unwrapped data key and the decrypted database. Every mutation
//! re-encrypts the whole database into a fresh account-file image, which
//! the caller persists; reading and writing the file itself is the
//! caller's job, so each operation that touches the file takes or
//! returns its bytes.

use vstd::prelude::*;
use vstd::string::StringExecFns;
use vstd::utf8::encode_utf8;
use crate::codec::{db_open_spec, spec_encode_db};
use crate::cryptography::{
    decrypt_key, encrypt_key, is_encryption_of, parse_blob, pbkdf2_hmac, pbkdf2_sha256_of,
    random_bytes, unwrap_of, wraps, BlobView, EncryptedBlob,
};
use crate::database::{Credential, CredentialView, CredentialsDatabase, DbView};
use crate::error::Error;
use crate::text::{push_bytes, str_eq};

verus! {

/// An active session: the owner's username, the key-wrap nonce and
/// wrapped data key as persisted, the unwrapped 32-byte data key, and
/// the live database. The unwrapped key exists only here, in memory.
pub struct UserSession {
    username: String,
    nonce: Vec<u8>,
    encrypted_key: Vec<u8>,
    key: Vec<u8>,
    db: CredentialsDatabase,
}

/// The mathematical value of a [`UserSession`].
pub struct SessionView {
    pub username: Seq<char>,
    pub nonce: Seq<u8>,
    pub encrypted_key: Seq<u8>,
    pub key: Seq<u8>,
    pub db: DbView,
}

impl SessionView {
    /// Well-formed: the fixed widths hold, the database is well-formed,
    /// and the session's owner is the database's owner.
    pub open spec fn wf(self) -> bool {
        &&& self.nonce.len() == 16
        &&& self.encrypted_key.len() == 32
        &&& self.key.len() == 32
        &&& self.db.wf()
        &&& self.db.owner == self.username
    }
}

impl View for UserSession {
    type V = SessionView;

    closed spec fn view(&self) -> SessionView {
        SessionView {
            username: self.username@,
            nonce: self.nonce@,
            encrypted_key: self.encrypted_key@,
            key: self.key@,
            db: self.db@,
        }
    }
}

/// The session slot: at most one session exists at a time, and every
/// operation goes through it.
pub struct Vault {
    session: Option<UserSession>,
}

impl View for Vault {
    type V = Option<SessionView>;

    closed spec fn view(&self) -> Option<SessionView> {
        if self.session is Some {
            Some(self.session->0@)
        } else {
            None
        }
    }
}

/// The master key an account derives from its credentials: PBKDF2 over
/// the password's UTF-8 bytes, salted with the username's UTF-8 bytes,
/// so that login can re-derive the key chosen at account creation.
pub open spec fn master_key_of(username: Seq<char>, password: Seq<char>) -> Seq<u8> {
    pbkdf2_sha256_of(encode_utf8(password), encode_utf8(username))
}

/// The key-wrap nonce of an account file: its first 16 bytes.
pub open spec fn file_nonce(f: Seq<u8>) -> Seq<u8> {
    f.subrange(0, 16)
}

/// The wrapped data key of an account file: its next 32 bytes.
pub open spec fn file_wrapped_key(f: Seq<u8>) -> Seq<u8> {
    f.subrange(16, 48)
}

/// The envelope of an account file: everything after the first 48 bytes.
pub open spec fn file_envelope(f: Seq<u8>) -> Seq<u8> {
    f.subrange(48, f.len() as int)
}

/// The data key that logging in with these credentials recovers from an
/// account file.
pub open spec fn login_key(username: Seq<char>, password: Seq<char>, f: Seq<u8>) -> Seq<u8> {
    unwrap_of(master_key_of(username, password), file_wrapped_key(f), file_nonce(f))
}

/// The database that logging in with these credentials recovers from an
/// account file, when its envelope authenticates and parses under the
/// recovered key.
pub open spec fn login_db(username: Seq<char>, password: Seq<char>, f: Seq<u8>) -> Option<DbView> {
    match parse_blob(file_envelope(f)) {
        Some(b) => db_open_spec(b, login_key(username, password, f)),
        None => None,
    }
}

/// True when a session-starting operation may proceed: both credentials
/// are non-empty and no session is active.
pub open spec fn can_start(pre: Option<SessionView>, username: Seq<char>, password: Seq<char>) -> bool {
    username.len() > 0 && password.len() > 0 && pre is None
}

/// True when `bytes` is a well-formed account-file image for this
/// session: the nonce and wrapped key verbatim, then an envelope under
/// the session's data key that opens back to exactly the session's
/// database.
pub open spec fn saved_file_ok(s: SessionView, bytes: Seq<u8>) -> bool {
    exists|b: BlobView|
        {
            &&& bytes == s.nonce + s.encrypted_key + b.to_bytes()
            &&& #[trigger] is_encryption_of(b, s.key, spec_encode_db(s.db))
            &&& db_open_spec(b, s.key) == Some(s.db)
            &&& b.data.len() >= 16
        }
}

/// The characters of one selectable character class; empty for an
/// unknown class name.
pub open spec fn class_chars(name: Seq<char>) -> Seq<char> {
    if name == "lowercase"@ {
        "abcdefghijklmnopqrstuvwxyz"@
    } else if name == "uppercase"@ {
        "ABCDEFGHIJKLMNOPQRSTUVWXYZ"@
    } else if name == "digits"@ {
        "0123456789"@
    } else if name == "special"@ {
        "!@#$%^&*"@
    } else {
        Seq::empty()
    }
}

/// True when the name selects one of the four character classes.
pub open spec fn valid_class(name: Seq<char>) -> bool {
    ||| name == "lowercase"@
    ||| name == "uppercase"@
    ||| name == "digits"@
    ||| name == "special"@
}

/// True when `b` is a byte of the combined alphabet the selected
/// classes offer.
pub open spec fn in_alphabet(ts: Seq<String>, b: u8) -> bool {
    exists|t: int|
        0 <= t < ts.len() && encode_utf8(class_chars((#[trigger] ts[t])@)).contains(b)
}

/// True when a password character comes from some selected class.
pub open spec fn password_char_ok(ts: Seq<String>, c: char) -> bool {
    exists|b: u8| #[trigger] in_alphabet(ts, b) && c == b as char
}

/// Appends one class's bytes to the alphabet being built, keeping every
/// byte attributable to a selected class.
fn push_class(alphabet: &mut Vec<u8>, class: &str, Ghost(ts): Ghost<Seq<String>>, Ghost(t): Ghost<
    int,
>)
    requires
        0 <= t < ts.len(),
        class@ == class_chars(ts[t]@),
        vstd::utf8::is_ascii_chars(class@),
        forall|j: int|
            0 <= j < old(alphabet)@.len() ==> in_alphabet(ts, #[trigger] old(alphabet)@[j]),
    ensures
        final(alphabet)@.len() == old(alphabet)@.len() + class@.len(),
        forall|j: int|
            0 <= j < final(alphabet)@.len() ==> in_alphabet(ts, #[trigger] final(alphabet)@[j]),
{
    let ghost prev = alphabet@;
    push_bytes(alphabet, class.as_bytes());
    proof {
        vstd::utf8::is_ascii_chars_encode_utf8(class@);
        let cc = encode_utf8(class_chars(ts[t]@));
        assert forall|j: int| 0 <= j < alphabet@.len() implies in_alphabet(
            ts,
            #[trigger] alphabet@[j],
        ) by {
            if j >= prev.len() {
                assert(alphabet@[j] == cc[j - prev.len()]);
                assert(cc.contains(alphabet@[j]));
            } else {
                assert(alphabet@[j] == prev[j]);
            }
        }
    }
}

/// Builds the alphabet the selected character classes offer and draws a
/// password of the requested length from it. The length must lie in 10
/// to 128, at least one class must be selected, and every class name
/// must be known; each class contributes its characters once, however
/// often it is named.
pub fn generate_password(length: usize, types: &Vec<String>) -> (r: Result<String, Error>)
    ensures
        types@.len() == 0 ==> r is Err && r->Err_0 == Error::InvalidParameter,
        types@.len() > 0 && !(10 <= length && length <= 128) ==> r is Err && r->Err_0
            == Error::InvalidParameter,
        types@.len() > 0 && 10 <= length <= 128 ==> {
            if (forall|i: int| 0 <= i < types@.len() ==> valid_class((#[trigger] types@[i])@)) {
                r is Ok
            } else {
                r is Err && r->Err_0 == Error::InvalidParameter
            }
        },
        r is Ok ==> r->Ok_0@.len() == length && (forall|i: int|
            0 <= i < r->Ok_0@.len() ==> password_char_ok(types@, #[trigger] r->Ok_0@[i])),
{
    if types.len() == 0 {
        return Err(Error::InvalidParameter);
    }
    if length < 10 || 128 < length {
        return Err(Error::InvalidParameter);
    }
    let mut alphabet: Vec<u8> = Vec::new();
    let mut have_lower = false;
    let mut have_upper = false;
    let mut have_digits = false;
    let mut have_special = false;
    let n = types.len();
    let mut i: usize = 0;
    while i < n
        invariant
            n == types@.len(),
            0 <= i <= n,
            forall|k: int| 0 <= k < i ==> valid_class((#[trigger] types@[k])@),
            forall|j: int|
                0 <= j < alphabet@.len() ==> in_alphabet(types@, #[trigger] alphabet@[j]),
            alphabet@.len() == (if have_lower { 26int } else { 0int }) + (if have_upper {
                26int
            } else {
                0int
            }) + (if have_digits { 10int } else { 0int }) + (if have_special {
                8int
            } else {
                0int
            }),
            i > 0 ==> have_lower || have_upper || have_digits || have_special,
        decreases n - i,
    {
        let t = &types[i];
        if str_eq(t.as_str(), "lowercase") {
            if !have_lower {
                proof {
                    reveal_strlit("abcdefghijklmnopqrstuvwxyz");
                    assert("abcdefghijklmnopqrstuvwxyz"@.len() == 26);
                    assert(vstd::utf8::is_ascii_chars("abcdefghijklmnopqrstuvwxyz"@));
                }
                push_class(
                    &mut alphabet,
                    "abcdefghijklmnopqrstuvwxyz",
                    Ghost(types@),
                    Ghost(i as int),
                );
                have_lower = true;
            }
        } else if str_eq(t.as_str(), "uppercase") {
            if !have_upper {
                proof {
                    reveal_strlit("ABCDEFGHIJKLMNOPQRSTUVWXYZ");
                    assert("ABCDEFGHIJKLMNOPQRSTUVWXYZ"@.len() == 26);
                    assert(vstd::utf8::is_ascii_chars("ABCDEFGHIJKLMNOPQRSTUVWXYZ"@));
                }
                push_class(
                    &mut alphabet,
                    "ABCDEFGHIJKLMNOPQRSTUVWXYZ",
                    Ghost(types@),
                    Ghost(i as int),
                );
                have_upper = true;
            }
        } else if str_eq(t.as_str(), "digits") {
            if !have_digits {
                proof {
                    reveal_strlit("0123456789");
                    assert("0123456789"@.len() == 10);
                    assert(vstd::utf8::is_ascii_chars("0123456789"@));
                }
                push_class(&mut alphabet, "0123456789", Ghost(types@), Ghost(i as int));
                have_digits = true;
            }
        } else if str_eq(t.as_str(), "special") {
            if !have_special {
                proof {
                    reveal_strlit("!@#$%^&*");
                    assert("!@#$%^&*"@.len() == 8);
                    assert(vstd::utf8::is_ascii_chars("!@#$%^&*"@));
                }
                push_class(&mut alphabet, "!@#$%^&*", Ghost(types@), Ghost(i as int));
                have_special = true;
            }
        } else {
            return Err(Error::InvalidParameter);
        }
        i = i + 1;
    }
    // the four classes together hold at most 70 bytes, well below the
    // sampler's bound of 256
    let pw = crate::cryptography::generate_password(alphabet.as_slice(), length);
    proof {
        assert forall|ix: int| 0 <= ix < pw@.len() implies password_char_ok(
            types@,
            #[trigger] pw@[ix],
        ) by {
            let j = choose|j: int|
                0 <= j < alphabet@.len() && pw@[ix] == (#[trigger] alphabet@[j]) as char;
            assert(in_alphabet(types@, alphabet@[j]));
        }
    }
    Ok(pw)
}

/// The account file name for a username.
pub fn user_db_file(username: &str) -> (r: String)
    ensures
        r@ == username@ + ".pwdb"@,
{
    let mut f = username.to_owned();
    f.append(".pwdb");
    f
}

/// A saved account file logs back in: the file image a session saves
/// opens, under the credentials whose master key wraps its data key, to
/// exactly that session's database.
pub proof fn lemma_saved_file_logs_in(
    s: SessionView,
    username: Seq<char>,
    password: Seq<char>,
    bytes: Seq<u8>,
)
    requires
        s.wf(),
        s.username == username,
        saved_file_ok(s, bytes),
        unwrap_of(master_key_of(username, password), s.encrypted_key, s.nonce) == s.key,
    ensures
        bytes.len() >= 77,
        login_db(username, password, bytes) == Some(s.db),
        login_db(username, password, bytes)->0.owner == username,
        login_key(username, password, bytes) == s.key,
{
    let b = choose|b: BlobView|
        {
            &&& bytes == s.nonce + s.encrypted_key + b.to_bytes()
            &&& #[trigger] is_encryption_of(b, s.key, spec_encode_db(s.db))
            &&& db_open_spec(b, s.key) == Some(s.db)
            &&& b.data.len() >= 16
        };
    assert(file_nonce(bytes) =~= s.nonce);
    assert(file_wrapped_key(bytes) =~= s.encrypted_key);
    assert(file_envelope(bytes) =~= b.to_bytes());
    crate::cryptography::lemma_blob_round_trip(b);
}

/// Re-encrypts the session's database into a full account-file image:
/// the nonce, the wrapped key, and a fresh envelope under the data key.
fn save_database(session: &UserSession) -> (r: Result<Vec<u8>, Error>)
    requires
        session@.wf(),
    ensures
        r matches Ok(bytes) ==> saved_file_ok(session@, bytes@),
        r matches Err(e) ==> e == Error::Unexpected,
{
    let blob = match EncryptedBlob::encrypt(&session.db, session.key.as_slice()) {
        Ok(b) => b,
        Err(e) => {
            return Err(e);
        },
    };
    let mut out: Vec<u8> = Vec::new();
    push_bytes(&mut out, session.nonce.as_slice());
    push_bytes(&mut out, session.encrypted_key.as_slice());
    let blob_bytes = blob.bytes();
    push_bytes(&mut out, blob_bytes.as_slice());
    proof {
        crate::codec::lemma_envelope_round_trip(blob@, session@.key, session@.db);
        assert(out@ =~= session@.nonce + session@.encrypted_key + blob@.to_bytes());
    }
    Ok(out)
}

impl Vault {
    /// Well-formed: the active session, if any, is well-formed.
    pub open spec fn wf(&self) -> bool {
        match self@ {
            Some(s) => s.wf(),
            None => true,
        }
    }

    /// A vault with no active session.
    pub fn new() -> (r: Self)
        ensures
            r@ is None,
            r.wf(),
    {
        Vault { session: None }
    }

    /// Creates a new account: derives the master key from the password,
    /// draws a random data key, wraps it, builds an empty database, and
    /// activates the session. Returns the account-file image to persist;
    /// this is the only path that produces a brand-new one. The caller
    /// reports in `account_exists` whether an account file for this
    /// username already exists.
    pub fn create_account(
        &mut self,
        username: String,
        password: String,
        account_exists: bool,
    ) -> (r: Result<Vec<u8>, Error>)
        requires
            old(self).wf(),
        ensures
            final(self).wf(),
            r is Err ==> final(self)@ == old(self)@,
            username@.len() == 0 || password@.len() == 0 ==> r is Err && r->Err_0
                == Error::InvalidCredentials,
            username@.len() > 0 && password@.len() > 0 && old(self)@ is Some ==> r is Err
                && r->Err_0 == Error::Unexpected,
            can_start(old(self)@, username@, password@) && account_exists ==> r is Err && r->Err_0
                == Error::UsernameTaken,
            can_start(old(self)@, username@, password@) && !account_exists ==> (r is Ok || r->Err_0
                == Error::Unexpected),
            r is Ok ==> {
                &&& can_start(old(self)@, username@, password@)
                &&& !account_exists
                &&& final(self)@ matches Some(s)
                &&& s.wf()
                &&& s.username == username@
                &&& s.db.owner == username@
                &&& s.db.entries.len() == 0
                &&& wraps(master_key_of(username@, password@), s.key, s.encrypted_key, s.nonce)
                &&& saved_file_ok(s, r->Ok_0@)
            },
    {
        if username.as_str().is_empty() || password.as_str().is_empty() {
            return Err(Error::InvalidCredentials);
        }
        if self.session.is_some() {
            return Err(Error::Unexpected);
        }
        if account_exists {
            return Err(Error::UsernameTaken);
        }
        // the cipher provider cannot take inputs past its length bound
        if username.as_str().as_bytes().len() > crate::cryptography::MAX_CIPHER_INPUT_LEN
            || password.as_str().as_bytes().len() > crate::cryptography::MAX_CIPHER_INPUT_LEN {
            return Err(Error::Unexpected);
        }
        let master_key = pbkdf2_hmac(password.as_str().as_bytes(), username.as_str().as_bytes());
        let key = random_bytes(32);
        let (encrypted_key, nonce) = match encrypt_key(master_key.as_slice(), key.as_slice()) {
            Ok(p) => p,
            Err(e) => {
                return Err(e);
            },
        };
        let db = CredentialsDatabase::new(username.clone());
        let session = UserSession { username, nonce, encrypted_key, key, db };
        let bytes = match save_database(&session) {
            Ok(b) => b,
            Err(e) => {
                return Err(e);
            },
        };
        self.session = Some(session);
        Ok(bytes)
    }

    /// Logs into an existing account from the contents of its file, or
    /// `None` when no file exists. Splits the file into nonce, wrapped
    /// key and envelope, derives the master key, unwraps the data key,
    /// decrypts the envelope, and checks that the database's owner is
    /// the username logging in — a file copied under another name must
    /// not unlock. Every cryptographic or parse failure collapses to
    /// `InvalidCredentials`, so a caller cannot tell a wrong password
    /// from a corrupt envelope.
    pub fn login(&mut self, username: String, password: String, file: Option<&Vec<u8>>) -> (r:
        Result<(), Error>)
        requires
            old(self).wf(),
        ensures
            final(self).wf(),
            r is Err ==> final(self)@ == old(self)@,
            username@.len() == 0 || password@.len() == 0 ==> r is Err && r->Err_0
                == Error::InvalidCredentials,
            username@.len() > 0 && password@.len() > 0 && old(self)@ is Some ==> r is Err
                && r->Err_0 == Error::Unexpected,
            can_start(old(self)@, username@, password@) && file is None ==> r is Err && r->Err_0
                == Error::InvalidCredentials,
            can_start(old(self)@, username@, password@) && file is Some && file->0@.len() < 77
                ==> r is Err && r->Err_0 == Error::InvalidDatabase,
            can_start(old(self)@, username@, password@) && file is Some && file->0@.len() >= 77
                && login_db(username@, password@, file->0@) is None ==> r is Err && r->Err_0
                == Error::InvalidCredentials,
            can_start(old(self)@, username@, password@) && file is Some && file->0@.len() >= 77
                && login_db(username@, password@, file->0@) is Some && login_db(
                username@,
                password@,
                file->0@,
            )->0.owner != username@ ==> r is Err && (r->Err_0 == Error::InvalidDatabase
                || r->Err_0 == Error::InvalidCredentials),
            can_start(old(self)@, username@, password@) && file is Some && file->0@.len() >= 77
                && login_db(username@, password@, file->0@) is Some && login_db(
                username@,
                password@,
                file->0@,
            )->0.owner == username@ ==> (r is Ok || r->Err_0 == Error::InvalidCredentials),
            r is Ok ==> {
                let f = file->0@;
                let dbv = login_db(username@, password@, f)->0;
                &&& can_start(old(self)@, username@, password@)
                &&& file is Some
                &&& f.len() >= 77
                &&& login_db(username@, password@, f) is Some
                &&& dbv.owner == username@
                &&& final(self)@ == Some(
                    (SessionView {
                        username: username@,
                        nonce: file_nonce(f),
                        encrypted_key: file_wrapped_key(f),
                        key: login_key(username@, password@, f),
                        db: dbv,
                    }),
                )
            },
    {
        if username.as_str().is_empty() || password.as_str().is_empty() {
            return Err(Error::InvalidCredentials);
        }
        if self.session.is_some() {
            return Err(Error::Unexpected);
        }
        let contents = match file {
            Some(c) => c,
            None => {
                return Err(Error::InvalidCredentials);
            },
        };
        if contents.len() < 16 + 32 + 29 {
            return Err(Error::InvalidDatabase);
        }
        let nonce = vstd::slice::slice_to_vec(
            vstd::slice::slice_subrange(contents.as_slice(), 0, 16),
        );
        let encrypted_key = vstd::slice::slice_to_vec(
            vstd::slice::slice_subrange(contents.as_slice(), 16, 48),
        );
        let blob = match EncryptedBlob::from_bytes(
            vstd::slice::slice_subrange(contents.as_slice(), 48, contents.len()),
        ) {
            Ok(b) => b,
            Err(e) => {
                return Err(e);
            },
        };
        // the cipher provider cannot take inputs past its length bound;
        // as everywhere on this path, the failure collapses to one signal
        if username.as_str().as_bytes().len() > crate::cryptography::MAX_CIPHER_INPUT_LEN
            || password.as_str().as_bytes().len() > crate::cryptography::MAX_CIPHER_INPUT_LEN {
            return Err(Error::InvalidCredentials);
        }
        let master_key = pbkdf2_hmac(password.as_str().as_bytes(), username.as_str().as_bytes());
        let key = match decrypt_key(master_key.as_slice(), encrypted_key.as_slice(), nonce.as_slice())
            {
            Ok(k) => k,
            Err(_) => {
                return Err(Error::InvalidCredentials);
            },
        };
        let db = match blob.decrypt(key.as_slice()) {
            Ok(d) => d,
            Err(_) => {
                return Err(Error::InvalidCredentials);
            },
        };
        if !str_eq(db.username(), username.as_str()) {
            return Err(Error::InvalidDatabase);
        }
        let session = UserSession { username, nonce, encrypted_key, key, db };
        self.session = Some(session);
        Ok(())
    }

    /// Discards the active session, data key included. A no-op success
    /// when no session is active.
    pub fn logout(&mut self) -> (r: Result<(), Error>)
        ensures
            final(self).wf(),
            final(self)@ is None,
            r is Ok,
    {
        self.session = None;
        Ok(())
    }

    /// The names of the stored entries, in insertion order.
    pub fn fetch_credentials(&self) -> (r: Result<Vec<String>, Error>)
        requires
            self.wf(),
        ensures
            self@ is None ==> r is Err && r->Err_0 == Error::InvalidCredentials,
            self@ is Some ==> r is Ok && r->Ok_0@.len() == self@->0.db.entries.len() && (forall|
                i: int,
            |
                0 <= i < r->Ok_0@.len() ==> (#[trigger] r->Ok_0@[i])@
                    == self@->0.db.entries[i].0),
    {
        let session = match &self.session {
            Some(s) => s,
            None => {
                return Err(Error::InvalidCredentials);
            },
        };
        let entries = session.db.entries();
        let n = entries.len();
        let mut names: Vec<String> = Vec::new();
        let mut i: usize = 0;
        while i < n
            invariant
                n == entries@.len(),
                n == session.db@.entries.len(),
                forall|k: int|
                    0 <= k < n ==> ((#[trigger] entries@[k]).0@, entries@[k].1@)
                        == session.db@.entries[k],
                0 <= i <= n,
                names@.len() == i,
                forall|k: int|
                    0 <= k < i ==> (#[trigger] names@[k])@ == session.db@.entries[k].0,
            decreases n - i,
        {
            names.push(entries[i].0.clone());
            i = i + 1;
        }
        Ok(names)
    }

    /// The credential stored at `name`; `InvalidParameter` when no entry
    /// carries that name.
    pub fn get_credentials_info(&self, name: &str) -> (r: Result<Credential, Error>)
        requires
            self.wf(),
        ensures
            self@ is None ==> r is Err && r->Err_0 == Error::InvalidCredentials,
            self@ is Some ==> {
                let m = self@->0.db.entry_map();
                match r {
                    Ok(c) => m.contains_key(name@) && c@ == m[name@],
                    Err(e) => !m.contains_key(name@) && e == Error::InvalidParameter,
                }
            },
    {
        let session = match &self.session {
            Some(s) => s,
            None => {
                return Err(Error::InvalidCredentials);
            },
        };
        match session.db.entry(name) {
            Some(c) => Ok(Credential { username: c.username.clone(), password: c.password.clone() }),
            None => Err(Error::InvalidParameter),
        }
    }

    /// The single field of an entry that is to be handed to the
    /// platform clipboard: its username or its password.
    pub fn credential_field(&self, name: &str, thing: &str) -> (r: Result<String, Error>)
        requires
            self.wf(),
        ensures
            self@ is None ==> r is Err && r->Err_0 == Error::InvalidCredentials,
            self@ is Some ==> {
                let m = self@->0.db.entry_map();
                match r {
                    Ok(t) => m.contains_key(name@) && (thing@ == "username"@ || thing@
                        == "password"@) && t@ == (if thing@ == "username"@ {
                        m[name@].username
                    } else {
                        m[name@].password
                    }),
                    Err(e) => e == Error::InvalidParameter && (!m.contains_key(name@) || (thing@
                        != "username"@ && thing@ != "password"@)),
                }
            },
    {
        let session = match &self.session {
            Some(s) => s,
            None => {
                return Err(Error::InvalidCredentials);
            },
        };
        let entry = match session.db.entry(name) {
            Some(c) => c,
            None => {
                return Err(Error::InvalidParameter);
            },
        };
        if str_eq(thing, "username") {
            Ok(entry.username.clone())
        } else if str_eq(thing, "password") {
            Ok(entry.password.clone())
        } else {
            Err(Error::InvalidParameter)
        }
    }

    /// Inserts or overwrites an entry, then re-encrypts the database
    /// into a fresh account-file image for the caller to persist. When
    /// sealing fails the in-memory database still holds the change;
    /// the caller is told by the error that disk and memory now differ.
    pub fn add_credentials(&mut self, name: String, username: String, password: String) -> (r:
        Result<Vec<u8>, Error>)
        requires
            old(self).wf(),
        ensures
            final(self).wf(),
            name@.len() == 0 || username@.len() == 0 || password@.len() == 0 ==> r is Err
                && r->Err_0 == Error::InvalidCredentials && final(self)@ == old(self)@,
            name@.len() > 0 && username@.len() > 0 && password@.len() > 0 && old(self)@ is None
                ==> r is Err && r->Err_0 == Error::InvalidCredentials && final(self)@
                == old(self)@,
            name@.len() > 0 && username@.len() > 0 && password@.len() > 0 && old(self)@ is Some
                ==> {
                let s = old(self)@->0;
                &&& final(self)@ matches Some(s2)
                &&& s2.username == s.username
                &&& s2.nonce == s.nonce
                &&& s2.encrypted_key == s.encrypted_key
                &&& s2.key == s.key
                &&& s2.db.owner == s.db.owner
                &&& s2.db.entry_map() == s.db.entry_map().insert(
                    name@,
                    (CredentialView { username: username@, password: password@ }),
                )
                &&& (r matches Ok(bytes) ==> saved_file_ok(s2, bytes@))
                &&& (r is Err ==> r->Err_0 == Error::Unexpected)
            },
    {
        if name.as_str().is_empty() || username.as_str().is_empty()
            || password.as_str().is_empty() {
            return Err(Error::InvalidCredentials);
        }
        let mut session = match self.session.take() {
            Some(s) => s,
            None => {
                return Err(Error::InvalidCredentials);
            },
        };
        session.db.add(name, username, password);
        let res = save_database(&session);
        self.session = Some(session);
        match res {
            Ok(bytes) => Ok(bytes),
            Err(_) => Err(Error::Unexpected),
        }
    }

    /// Removes an entry, then re-encrypts the database into a fresh
    /// account-file image for the caller to persist. `InvalidParameter`
    /// when no entry carries the name, and nothing changes.
    pub fn remove_credentials(&mut self, name: &str) -> (r: Result<Vec<u8>, Error>)
        requires
            old(self).wf(),
        ensures
            final(self).wf(),
            old(self)@ is None ==> r is Err && r->Err_0 == Error::InvalidCredentials
                && final(self)@ == old(self)@,
            old(self)@ is Some && !old(self)@->0.db.entry_map().contains_key(name@) ==> r is Err
                && r->Err_0 == Error::InvalidParameter && final(self)@ == old(self)@,
            old(self)@ is Some && old(self)@->0.db.entry_map().contains_key(name@) ==> {
                let s = old(self)@->0;
                &&& final(self)@ matches Some(s2)
                &&& s2.username == s.username
                &&& s2.nonce == s.nonce
                &&& s2.encrypted_key == s.encrypted_key
                &&& s2.key == s.key
                &&& s2.db.owner == s.db.owner
                &&& s2.db.entry_map() == s.db.entry_map().remove(name@)
                &&& (r matches Ok(bytes) ==> saved_file_ok(s2, bytes@))
                &&& (r is Err ==> r->Err_0 == Error::Unexpected)
            },
    {
        let mut session = match self.session.take() {
            Some(s) => s,
            None => {
                return Err(Error::InvalidCredentials);
            },
        };
        if !session.db.remove(name) {
            self.session = Some(session);
            return Err(Error::InvalidParameter);
        }
        let res = save_database(&session);
        self.session = Some(session);
        match res {
            Ok(bytes) => Ok(bytes),
            Err(_) => Err(Error::Unexpected),
        }
    }
}

} // verus!

//! Cryptographic primitives and the authenticated-encryption envelope.
//!
//! The envelope seals a byte string under a 32-byte key with AES-256-GCM:
//! a fresh random 12-byte IV, a 16-byte authentication tag computed over
//! the ciphertext and a fixed versioned associated-data string, and the
//! ciphertext itself. Key derivation uses PBKDF2 with HMAC-SHA-256, and
//! key wrapping uses AES-256-CTR. The ciphers themselves come from
//! OpenSSL; their results are named by uninterpreted functions, and
//! everything around the calls is verified against those names.

use vstd::prelude::*;
use crate::error::Error;

verus! {

/// The key derived by PBKDF2 with HMAC-SHA-256 and 100,000 iterations;
/// a function of the password and salt alone.
pub uninterp spec fn pbkdf2_sha256_of(password: Seq<u8>, salt: Seq<u8>) -> Seq<u8>;

/// The AES-256-GCM ciphertext of a plaintext under a key and IV.
pub uninterp spec fn aes_gcm_cipher_of(key: Seq<u8>, iv: Seq<u8>, plain: Seq<u8>) -> Seq<u8>;

/// The AES-256-GCM authentication tag over a ciphertext under a key and IV.
pub uninterp spec fn aes_gcm_tag_of(key: Seq<u8>, iv: Seq<u8>, cipher: Seq<u8>) -> Seq<u8>;

/// The AES-256-GCM decryption of a ciphertext under a key and IV.
pub uninterp spec fn aes_gcm_plain_of(key: Seq<u8>, iv: Seq<u8>, cipher: Seq<u8>) -> Seq<u8>;

/// The AES-256-CTR encryption of a plaintext under a key and nonce.
pub uninterp spec fn aes_ctr_cipher_of(key: Seq<u8>, nonce: Seq<u8>, plain: Seq<u8>) -> Seq<u8>;

/// The AES-256-CTR decryption of a ciphertext under a key and nonce.
pub uninterp spec fn aes_ctr_plain_of(key: Seq<u8>, nonce: Seq<u8>, cipher: Seq<u8>) -> Seq<u8>;

/// The longest buffer the OpenSSL bindings accept: they convert every
/// length to a C `int` and abort on anything larger, so each wrapper
/// requires its inputs to stay within this bound.
pub const MAX_CIPHER_INPUT_LEN: usize = 0x7fff_ffff;

/// Fresh cryptographically secure random bytes.
///
/// Relies on `openssl::rand::rand_bytes`. Nothing is promised of the
/// values, only the length: to the verifier two calls may differ. A
/// failure of the randomness source is fatal to the process; the
/// platform treats it as an unrecoverable fault, not an input-dependent
/// error.
#[verifier::external_body]
pub fn random_bytes(n: usize) -> (r: Vec<u8>)
    requires
        n <= MAX_CIPHER_INPUT_LEN,
    ensures
        r@.len() == n,
{
    let mut bytes = vec![0u8; n];
    openssl::rand::rand_bytes(&mut bytes).expect("failed to generate random bytes");
    bytes
}

/// Derives a 32-byte master key from a password and salt.
///
/// Relies on `openssl::pkcs5::pbkdf2_hmac` with HMAC-SHA-256 and 100,000
/// iterations: the derived key is a function of the password and salt
/// alone, named `pbkdf2_sha256_of`, and is 32 bytes, the requested length.
/// A provider failure is treated as an unrecoverable fault.
#[verifier::external_body]
pub fn pbkdf2_hmac(password: &[u8], salt: &[u8]) -> (r: Vec<u8>)
    requires
        password@.len() <= MAX_CIPHER_INPUT_LEN,
        salt@.len() <= MAX_CIPHER_INPUT_LEN,
    ensures
        r@ == pbkdf2_sha256_of(password@, salt@),
        r@.len() == 32,
{
    let mut key = vec![0u8; 32];
    openssl::pkcs5::pbkdf2_hmac(
        password,
        salt,
        100_000,
        openssl::hash::MessageDigest::sha256(),
        &mut key,
    ).expect("pbkdf2 should not fail");
    key
}

/// Seals a plaintext with AES-256-GCM.
///
/// Relies on `openssl::symm::encrypt_aead` with `Cipher::aes_256_gcm` and
/// this crate's fixed associated-data string: on success the ciphertext
/// and tag are functions of the key, IV and plaintext alone, the
/// ciphertext is as long as the plaintext, the 16-byte tag authenticates
/// the ciphertext, and `decrypt_aead` inverts the encryption.
#[verifier::external_body]
fn aes_gcm_seal(key: &[u8], iv: &[u8], data: &[u8]) -> (r: Option<(Vec<u8>, Vec<u8>)>)
    requires
        key@.len() == 32,
        iv@.len() == 12,
        data@.len() <= MAX_CIPHER_INPUT_LEN,
    ensures
        r matches Some((cipher, tag)) ==> {
            &&& cipher@ == aes_gcm_cipher_of(key@, iv@, data@)
            &&& cipher@.len() == data@.len()
            &&& tag@ == aes_gcm_tag_of(key@, iv@, cipher@)
            &&& tag@.len() == 16
            &&& aes_gcm_plain_of(key@, iv@, cipher@) == data@
        },
{
    let mut tag = vec![0u8; 16];
    match openssl::symm::encrypt_aead(
        openssl::symm::Cipher::aes_256_gcm(),
        key,
        Some(iv),
        b"pw_vault envelope v1",
        data,
        &mut tag,
    ) {
        Ok(cipher) => Some((cipher, tag)),
        Err(_) => None,
    }
}

/// Opens an AES-256-GCM envelope.
///
/// Relies on `openssl::symm::decrypt_aead` with `Cipher::aes_256_gcm` and
/// the same associated-data string as `aes_gcm_seal`: a result is returned
/// only when the tag authenticates the ciphertext, and it is the
/// decryption of the ciphertext, a function of the key, IV and ciphertext
/// alone.
#[verifier::external_body]
fn aes_gcm_open(key: &[u8], iv: &[u8], cipher: &[u8], tag: &[u8]) -> (r: Option<Vec<u8>>)
    requires
        key@.len() == 32,
        iv@.len() == 12,
        tag@.len() == 16,
        cipher@.len() <= MAX_CIPHER_INPUT_LEN,
    ensures
        r matches Some(p) ==> {
            &&& tag@ == aes_gcm_tag_of(key@, iv@, cipher@)
            &&& p@ == aes_gcm_plain_of(key@, iv@, cipher@)
        },
{
    openssl::symm::decrypt_aead(
        openssl::symm::Cipher::aes_256_gcm(),
        key,
        Some(iv),
        b"pw_vault envelope v1",
        cipher,
        tag,
    ).ok()
}

/// Applies AES-256-CTR in the encrypting direction.
///
/// Relies on `openssl::symm::encrypt` with `Cipher::aes_256_ctr`: on
/// success the ciphertext is a function of the key, nonce and plaintext
/// alone, is as long as the plaintext, and `decrypt` inverts it.
#[verifier::external_body]
fn aes_ctr_apply(key: &[u8], nonce: &[u8], data: &[u8]) -> (r: Option<Vec<u8>>)
    requires
        key@.len() == 32,
        nonce@.len() == 16,
        data@.len() <= MAX_CIPHER_INPUT_LEN,
    ensures
        r matches Some(c) ==> {
            &&& c@ == aes_ctr_cipher_of(key@, nonce@, data@)
            &&& c@.len() == data@.len()
            &&& aes_ctr_plain_of(key@, nonce@, c@) == data@
        },
{
    openssl::symm::encrypt(openssl::symm::Cipher::aes_256_ctr(), key, Some(nonce), data).ok()
}

/// Applies AES-256-CTR in the decrypting direction.
///
/// Relies on `openssl::symm::decrypt` with `Cipher::aes_256_ctr`: on
/// success the result is a function of the key, nonce and ciphertext
/// alone, and is as long as the ciphertext.
#[verifier::external_body]
fn aes_ctr_unapply(key: &[u8], nonce: &[u8], cipher: &[u8]) -> (r: Option<Vec<u8>>)
    requires
        key@.len() == 32,
        nonce@.len() == 16,
        cipher@.len() <= MAX_CIPHER_INPUT_LEN,
    ensures
        r matches Some(p) ==> {
            &&& p@ == aes_ctr_plain_of(key@, nonce@, cipher@)
            &&& p@.len() == cipher@.len()
        },
{
    openssl::symm::decrypt(openssl::symm::Cipher::aes_256_ctr(), key, Some(nonce), cipher).ok()
}

/// An opaque authenticated ciphertext: a 12-byte IV, a 16-byte tag, and
/// the variable-length ciphertext, laid out on the wire as
/// `IV || TAG || CIPHERTEXT`.
#[derive(Debug, Clone)]
pub struct EncryptedBlob {
    iv: Vec<u8>,
    tag: Vec<u8>,
    data: Vec<u8>,
}

/// The mathematical value of an [`EncryptedBlob`].
pub struct BlobView {
    pub iv: Seq<u8>,
    pub tag: Seq<u8>,
    pub data: Seq<u8>,
}

impl BlobView {
    /// Well-formed: the IV and tag have their fixed widths.
    pub open spec fn wf(self) -> bool {
        self.iv.len() == 12 && self.tag.len() == 16
    }

    /// The wire form `IV || TAG || CIPHERTEXT`.
    pub open spec fn to_bytes(self) -> Seq<u8> {
        self.iv + self.tag + self.data
    }
}

impl View for EncryptedBlob {
    type V = BlobView;

    closed spec fn view(&self) -> BlobView {
        BlobView { iv: self.iv@, tag: self.tag@, data: self.data@ }
    }
}

/// The blob a byte string parses into: the deterministic split of
/// `IV(12) || TAG(16) || CIPHERTEXT(>= 1)`, or nothing when the input is
/// shorter than 29 bytes.
pub open spec fn parse_blob(bytes: Seq<u8>) -> Option<BlobView> {
    if bytes.len() >= 29 {
        Some(
            BlobView {
                iv: bytes.subrange(0, 12),
                tag: bytes.subrange(12, 28),
                data: bytes.subrange(28, bytes.len() as int),
            },
        )
    } else {
        None
    }
}

/// True when the blob is an AES-256-GCM encryption of `plain` under `key`.
pub open spec fn is_encryption_of(v: BlobView, key: Seq<u8>, plain: Seq<u8>) -> bool {
    &&& v.wf()
    &&& v.data == aes_gcm_cipher_of(key, v.iv, plain)
    &&& v.tag == aes_gcm_tag_of(key, v.iv, v.data)
    &&& aes_gcm_plain_of(key, v.iv, v.data) == plain
}

/// What opening a blob under a key yields when the cipher engine behaves:
/// the decrypted bytes when the tag authenticates the ciphertext, nothing
/// otherwise.
pub open spec fn gcm_open_spec(v: BlobView, key: Seq<u8>) -> Option<Seq<u8>> {
    if v.tag == aes_gcm_tag_of(key, v.iv, v.data) {
        Some(aes_gcm_plain_of(key, v.iv, v.data))
    } else {
        None
    }
}

/// Parsing a blob's wire form returns the blob itself, for every
/// well-formed blob with at least one ciphertext byte.
pub proof fn lemma_blob_round_trip(v: BlobView)
    requires
        v.wf(),
        v.data.len() >= 1,
    ensures
        parse_blob(v.to_bytes()) == Some(v),
{
    let b = v.to_bytes();
    assert(b.subrange(0, 12) =~= v.iv);
    assert(b.subrange(12, 28) =~= v.tag);
    assert(b.subrange(28, b.len() as int) =~= v.data);
}

/// Opening an encryption of `plain` under the same key yields `plain`.
pub proof fn lemma_open_seal_round_trip(v: BlobView, key: Seq<u8>, plain: Seq<u8>)
    requires
        is_encryption_of(v, key, plain),
    ensures
        gcm_open_spec(v, key) == Some(plain),
{
}

/// A blob whose tag was tampered with, however slightly, never opens.
pub proof fn lemma_tag_tamper_detected(v: BlobView, t: BlobView, key: Seq<u8>, plain: Seq<u8>)
    requires
        is_encryption_of(v, key, plain),
        t.iv == v.iv,
        t.data == v.data,
        t.tag != v.tag,
    ensures
        gcm_open_spec(t, key) is None,
{
}

impl EncryptedBlob {
    /// Well-formed: the IV and tag have their fixed widths.
    pub open spec fn wf(&self) -> bool {
        self@.wf()
    }

    /// The 12-byte initialization vector.
    pub fn iv(&self) -> (r: &Vec<u8>)
        ensures
            r@ == self@.iv,
    {
        &self.iv
    }

    /// The 16-byte authentication tag.
    pub fn tag(&self) -> (r: &Vec<u8>)
        ensures
            r@ == self@.tag,
    {
        &self.tag
    }

    /// The ciphertext.
    pub fn data(&self) -> (r: &Vec<u8>)
        ensures
            r@ == self@.data,
    {
        &self.data
    }

    /// Splits raw bytes into `IV(12) || TAG(16) || CIPHERTEXT`; fails on
    /// inputs shorter than 29 bytes.
    pub fn from_bytes(bytes: &[u8]) -> (r: Result<Self, Error>)
        ensures
            r is Ok <==> bytes@.len() >= 29,
            r matches Ok(b) ==> parse_blob(bytes@) == Some(b@) && b.wf() && b@.data.len() >= 1
                && b@.to_bytes() == bytes@,
            r matches Err(e) ==> e == Error::InvalidDatabase,
    {
        if bytes.len() < 12 + 16 + 1 {
            return Err(Error::InvalidDatabase);
        }
        let iv = vstd::slice::slice_to_vec(vstd::slice::slice_subrange(bytes, 0, 12));
        let tag = vstd::slice::slice_to_vec(vstd::slice::slice_subrange(bytes, 12, 28));
        let data = vstd::slice::slice_to_vec(vstd::slice::slice_subrange(bytes, 28, bytes.len()));
        let b = EncryptedBlob { iv, tag, data };
        proof {
            assert(b@.to_bytes() =~= bytes@);
        }
        Ok(b)
    }

    /// The wire form `IV || TAG || CIPHERTEXT`, the exact inverse of
    /// [`EncryptedBlob::from_bytes`].
    pub fn bytes(&self) -> (r: Vec<u8>)
        ensures
            r@ == self@.to_bytes(),
    {
        let mut out: Vec<u8> = Vec::new();
        crate::text::push_bytes(&mut out, self.iv.as_slice());
        crate::text::push_bytes(&mut out, self.tag.as_slice());
        crate::text::push_bytes(&mut out, self.data.as_slice());
        out
    }
}

/// Seals a byte string under a key: a fresh random IV, then AES-256-GCM.
/// Two calls with the same arguments draw different IVs and so never
/// produce identical blobs, though nothing so probabilistic is promised
/// here.
pub fn encrypt(key: &[u8], data: &[u8]) -> (r: Result<EncryptedBlob, Error>)
    requires
        key@.len() == 32,
    ensures
        r matches Ok(b) ==> is_encryption_of(b@, key@, data@) && b@.data.len() == data@.len(),
        r matches Err(e) ==> e == Error::Unexpected,
{
    if data.len() > MAX_CIPHER_INPUT_LEN {
        return Err(Error::Unexpected);
    }
    let iv = random_bytes(12);
    match aes_gcm_seal(key, iv.as_slice(), data) {
        Some((cipher, tag)) => Ok(EncryptedBlob { iv, tag, data: cipher }),
        None => Err(Error::Unexpected),
    }
}

/// Opens a blob under a key: fails whenever the tag does not authenticate
/// the ciphertext, and never returns partially decrypted data.
pub fn decrypt(key: &[u8], blob: &EncryptedBlob) -> (r: Result<Vec<u8>, Error>)
    requires
        key@.len() == 32,
        blob.wf(),
    ensures
        r matches Ok(p) ==> gcm_open_spec(blob@, key@) == Some(p@),
        gcm_open_spec(blob@, key@) is None ==> r is Err,
        r matches Err(e) ==> e == Error::InvalidCredentials,
{
    if blob.data.len() > MAX_CIPHER_INPUT_LEN {
        return Err(Error::InvalidCredentials);
    }
    match aes_gcm_open(key, blob.iv.as_slice(), blob.data.as_slice(), blob.tag.as_slice()) {
        Some(p) => Ok(p),
        None => Err(Error::InvalidCredentials),
    }
}

/// True when `wrapped` is the AES-256-CTR wrapping of the 32-byte data
/// key `key` under `master_key` and `nonce`, and unwrapping inverts it.
pub open spec fn wraps(master_key: Seq<u8>, key: Seq<u8>, wrapped: Seq<u8>, nonce: Seq<u8>) -> bool {
    &&& wrapped.len() == 32
    &&& nonce.len() == 16
    &&& wrapped == aes_ctr_cipher_of(master_key, nonce, key)
    &&& aes_ctr_plain_of(master_key, nonce, wrapped) == key
}

/// What unwrapping yields: the AES-256-CTR decryption of the wrapped key.
pub open spec fn unwrap_of(master_key: Seq<u8>, wrapped: Seq<u8>, nonce: Seq<u8>) -> Seq<u8> {
    aes_ctr_plain_of(master_key, nonce, wrapped)
}

/// Key-wrap round trip: unwrapping a wrapped data key under the same
/// master key and nonce returns the data key.
pub proof fn lemma_key_wrap_round_trip(
    master_key: Seq<u8>,
    key: Seq<u8>,
    wrapped: Seq<u8>,
    nonce: Seq<u8>,
)
    requires
        wraps(master_key, key, wrapped, nonce),
    ensures
        unwrap_of(master_key, wrapped, nonce) == key,
{
}

/// Wraps a 32-byte data key under a master key: AES-256-CTR under a fresh
/// random 16-byte nonce. CTR mode carries no integrity check on purpose:
/// tampering with the wrapped key only makes the later envelope
/// decryption fail, which is already detected.
pub fn encrypt_key(master_key: &[u8], key: &[u8]) -> (r: Result<(Vec<u8>, Vec<u8>), Error>)
    requires
        master_key@.len() == 32,
        key@.len() == 32,
    ensures
        r matches Ok(p) ==> wraps(master_key@, key@, p.0@, p.1@),
        r matches Err(e) ==> e == Error::Unexpected,
{
    let nonce = random_bytes(16);
    match aes_ctr_apply(master_key, nonce.as_slice(), key) {
        Some(wrapped) => Ok((wrapped, nonce)),
        None => Err(Error::Unexpected),
    }
}

/// Unwraps a wrapped data key: the AES-256-CTR inverse. The cipher level
/// always accepts; a wrong master key is only caught later, when the
/// envelope refuses to decrypt.
pub fn decrypt_key(master_key: &[u8], encrypted_key: &[u8], nonce: &[u8]) -> (r: Result<
    Vec<u8>,
    Error,
>)
    requires
        master_key@.len() == 32,
        nonce@.len() == 16,
    ensures
        r matches Ok(p) ==> p@ == unwrap_of(master_key@, encrypted_key@, nonce@) && p@.len()
            == encrypted_key@.len(),
        r matches Err(e) ==> e == Error::Unexpected,
{
    if encrypted_key.len() > MAX_CIPHER_INPUT_LEN {
        return Err(Error::Unexpected);
    }
    match aes_ctr_unapply(master_key, nonce, encrypted_key) {
        Some(p) => Ok(p),
        None => Err(Error::Unexpected),
    }
}

/// True when `c` is some character of `alphabet`, read as a byte.
pub open spec fn char_from(alphabet: Seq<u8>, c: char) -> bool {
    exists|j: int| 0 <= j < alphabet.len() && c == (#[trigger] alphabet[j]) as char
}

/// Draws `len` characters independently from `alphabet`.
///
/// Each character comes from one random byte reduced modulo the next
/// power of two at or above the alphabet size, drawn again while the
/// reduced index falls outside the alphabet; this avoids the modulo bias
/// of reducing straight to the alphabet size. The verifier insists that
/// every loop terminates, so the redraws are bounded, with a final biased
/// reduction as the (astronomically unlikely) fallback.
pub fn generate_password(alphabet: &[u8], len: usize) -> (r: String)
    requires
        0 < alphabet@.len() < 256,
    ensures
        r@.len() == len,
        forall|i: int| 0 <= i < r@.len() ==> char_from(alphabet@, #[trigger] r@[i]),
{
    let n = alphabet.len();
    // the least power of two at or above n
    let mut m: usize = 1;
    while m < n
        invariant
            1 <= m,
            n < 256,
        decreases 2 * n - m,
    {
        m = m * 2;
    }
    let mut out = String::new();
    let mut count: usize = 0;
    while count < len
        invariant
            0 <= count <= len,
            out@.len() == count,
            1 <= m,
            n == alphabet@.len(),
            0 < n < 256,
            forall|i: int| 0 <= i < count ==> char_from(alphabet@, #[trigger] out@[i]),
        decreases len - count,
    {
        let mut idx: usize = {
            let b = random_bytes(1);
            b[0] as usize % m
        };
        let mut tries: usize = 0;
        while idx >= n && tries < 64
            invariant
                n == alphabet@.len(),
                0 < n,
                1 <= m,
            decreases 64 - tries,
        {
            let b = random_bytes(1);
            idx = b[0] as usize % m;
            tries = tries + 1;
        }
        if idx >= n {
            idx = idx % n;
        }
        let c = alphabet[idx];
        crate::text::push_char(&mut out, c as char);
        proof {
            assert(char_from(alphabet@, alphabet@[idx as int] as char));
        }
        count = count + 1;
    }
    out
}

} // verus!

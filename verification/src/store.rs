//! Encrypted string maps: the storage format of project vaults and of the global API keys.
//!
//! A store file is a 12-byte nonce followed by the ChaCha20-Poly1305 encryption,
//! under a 32-byte key, of a JSON object that maps names to values.
use vstd::prelude::*;
use crate::parser::{assoc_insert, assoc_get, keyed, first_with, keys_distinct, lemma_first_with_some, lemma_first_with_none, lemma_first_with_exists};
use crate::text::{append_str, chars_of, decimal, push_decimal, string_of, strs_of};
use std::collections::BTreeMap;
use chacha20poly1305::aead::{Aead, KeyInit};
use rand::RngCore;

verus! {

// ---------------------------------------------------------------------------
// Outside types
// ---------------------------------------------------------------------------

#[verifier::external_type_specification]
#[verifier::external_body]
pub struct ExAeadError(chacha20poly1305::aead::Error);

#[verifier::external_type_specification]
#[verifier::external_body]
pub struct ExJsonError(serde_json::Error);

// ---------------------------------------------------------------------------
// ChaCha20-Poly1305
// ---------------------------------------------------------------------------

/// What ChaCha20-Poly1305 encryption returns for a key, a nonce and a plaintext
/// (ciphertext followed by the 16-byte tag), or `None` when it refuses.
pub uninterp spec fn aead_seal(key: Seq<u8>, nonce: Seq<u8>, plaintext: Seq<u8>) -> Option<Seq<u8>>;

/// What ChaCha20-Poly1305 decryption returns for a key, a nonce and a ciphertext,
/// or `None` when the tag does not authenticate it.
pub uninterp spec fn aead_open(key: Seq<u8>, nonce: Seq<u8>, ciphertext: Seq<u8>) -> Option<Seq<u8>>;

/// `Aead::encrypt` of `ChaCha20Poly1305` without associated data. The result is
/// the named `aead_seal`; it succeeds exactly on plaintexts of fewer than
/// `64 * (2^32 - 1)` bytes (the block counter limit, the one error in the crate's
/// source); what it returns is the ciphertext, as long as the plaintext, followed
/// by the 16-byte tag, and decrypting it under the same key and nonce gives the
/// plaintext back (the crate's documented round trip).
#[verifier::external_body]
fn chacha_encrypt(key: &[u8; 32], nonce: &[u8; 12], plaintext: &[u8]) -> (res: Result<Vec<u8>, chacha20poly1305::aead::Error>)
    ensures
        match res {
            Ok(ct) => aead_seal(key@, nonce@, plaintext@) == Some(ct@) && aead_open(key@, nonce@, ct@) == Some(plaintext@)
                && ct@.len() == plaintext@.len() + 16,
            Err(_) => aead_seal(key@, nonce@, plaintext@) is None,
        },
        (res is Ok) == (plaintext@.len() / 64 < 0xFFFF_FFFF),
{
    let cipher = chacha20poly1305::ChaCha20Poly1305::new(chacha20poly1305::Key::from_slice(key));
    cipher.encrypt(chacha20poly1305::Nonce::from_slice(nonce), plaintext)
}

/// `Aead::decrypt` of `ChaCha20Poly1305` without associated data; the result is the
/// named `aead_open`, and a plaintext comes only from a ciphertext that holds the
/// 16-byte tag after it.
#[verifier::external_body]
fn chacha_decrypt(key: &[u8; 32], nonce: &[u8; 12], ciphertext: &[u8]) -> (res: Result<Vec<u8>, chacha20poly1305::aead::Error>)
    ensures
        match res {
            Ok(pt) => aead_open(key@, nonce@, ciphertext@) == Some(pt@) && ciphertext@.len() >= 16
                && pt@.len() == ciphertext@.len() - 16,
            Err(_) => aead_open(key@, nonce@, ciphertext@) is None,
        },
{
    let cipher = chacha20poly1305::ChaCha20Poly1305::new(chacha20poly1305::Key::from_slice(key));
    cipher.decrypt(chacha20poly1305::Nonce::from_slice(nonce), ciphertext)
}

/// `RngCore::fill_bytes` of `rand::thread_rng()` on 12 bytes: a fresh random nonce.
/// Nothing is stated of the bytes.
#[verifier::external_body]
fn random_nonce() -> (res: [u8; 12]) {
    let mut n = [0u8; 12];
    rand::thread_rng().fill_bytes(&mut n);
    n
}

/// `RngCore::fill_bytes` of `rand::thread_rng()` on 32 bytes: a fresh random key.
/// Nothing is stated of the bytes.
#[verifier::external_body]
fn random_key() -> (res: [u8; 32]) {
    let mut k = [0u8; 32];
    rand::thread_rng().fill_bytes(&mut k);
    k
}


// ---------------------------------------------------------------------------
// JSON
// ---------------------------------------------------------------------------

pub open spec fn pairs_view(v: Seq<(String, String)>) -> Seq<(Seq<char>, Seq<char>)> {
    v.map_values(|e: (String, String)| (e.0@, e.1@))
}

/// Two keyed sequences that map every key to the same value.
pub open spec fn same_entries(a: Seq<(Seq<char>, Seq<char>)>, b: Seq<(Seq<char>, Seq<char>)>) -> bool {
    forall|k: Seq<char>| #[trigger] assoc_get(a, k) == assoc_get(b, k)
}

/// What `serde_json::to_vec` writes for the JSON object with the given entries.
pub uninterp spec fn json_encoded(entries: Seq<(Seq<char>, Seq<char>)>) -> Seq<u8>;

/// The entries of the JSON object of strings that `serde_json::from_slice` reads
/// from the bytes, or `None` when they are not one.
pub uninterp spec fn json_decoded(bytes: Seq<u8>) -> Option<Seq<(Seq<char>, Seq<char>)>>;

/// `serde_json::to_vec` of the entries as a `BTreeMap<String, String>`. The docs
/// say serialization fails only for non-string keys or a failing `Serialize`
/// impl, so it succeeds here; the bytes are the named `json_encoded`, and reading
/// them back as a string map gives the same entries.
#[verifier::external_body]
fn json_encode(entries: &Vec<(String, String)>) -> (res: Result<Vec<u8>, serde_json::Error>)
    requires
        keys_distinct(pairs_view(entries@)),
    ensures
        res is Ok,
        res matches Ok(b) ==> b@ == json_encoded(pairs_view(entries@)),
        res matches Ok(b) ==> (json_decoded(b@) matches Some(d) && keys_distinct(d) && same_entries(
            d,
            pairs_view(entries@),
        )),
{
    let m: BTreeMap<&str, &str> = entries.iter().map(|e| (e.0.as_str(), e.1.as_str())).collect();
    serde_json::to_vec(&m)
}

/// `serde_json::from_slice` into a `BTreeMap<String, String>`, its entries in key
/// order: the named `json_decoded`; a map holds each key once.
#[verifier::external_body]
fn json_decode(bytes: &[u8]) -> (res: Result<Vec<(String, String)>, serde_json::Error>)
    ensures
        match res {
            Ok(v) => json_decoded(bytes@) == Some(pairs_view(v@)) && keys_distinct(pairs_view(v@)),
            Err(_) => json_decoded(bytes@) is None,
        },
{
    match serde_json::from_slice::<BTreeMap<String, String>>(bytes) {
        Ok(m) => Ok(m.into_iter().collect()),
        Err(e) => Err(e),
    }
}

// ---------------------------------------------------------------------------
// String maps
// ---------------------------------------------------------------------------

/// A map from names to values that keeps its entries in insertion order.
pub struct SecretMap {
    entries: Vec<(String, String)>,
}

impl SecretMap {
    /// Each key occurs once.
    #[verifier::type_invariant]
    spec fn distinct_keys(self) -> bool {
        keys_distinct(pairs_view(self.entries@))
    }
}

impl View for SecretMap {
    type V = Seq<(Seq<char>, Seq<char>)>;

    closed spec fn view(&self) -> Seq<(Seq<char>, Seq<char>)> {
        pairs_view(self.entries@)
    }
}

/// The map without the entry of key `k`.
pub open spec fn assoc_remove(m: Seq<(Seq<char>, Seq<char>)>, k: Seq<char>) -> Seq<(Seq<char>, Seq<char>)> {
    match first_with(m, keyed::<Seq<char>>(k)) {
        Some(i) => m.remove(i),
        None => m,
    }
}

pub open spec fn map_keys(m: Seq<(Seq<char>, Seq<char>)>) -> Seq<Seq<char>> {
    m.map_values(|e: (Seq<char>, Seq<char>)| e.0)
}

impl SecretMap {
    pub fn new() -> (m: SecretMap)
        ensures
            m@ == Seq::<(Seq<char>, Seq<char>)>::empty(),
    {
        let m = SecretMap { entries: Vec::new() };
        assert(m@ =~= Seq::<(Seq<char>, Seq<char>)>::empty());
        m
    }

    /// The entries, in order.
    pub fn entries(&self) -> (res: &Vec<(String, String)>)
        ensures
            pairs_view(res@) == self@,
    {
        &self.entries
    }

    pub fn len(&self) -> (res: usize)
        ensures
            res == self@.len(),
    {
        self.entries.len()
    }

    fn find(&self, k: &str) -> (res: Option<usize>)
        ensures
            match res {
                Some(i) => first_with(self@, keyed::<Seq<char>>(k@)) == Some(i as int) && i < self@.len(),
                None => first_with(self@, keyed::<Seq<char>>(k@)) is None,
            },
    {
        let ghost v = self@;
        let kv = string_of(&chars_of(k));
        let mut i: usize = 0;
        while i < self.entries.len()
            invariant
                i <= self.entries.len(),
                v == self@,
                v == pairs_view(self.entries@),
                kv@ == k@,
                forall|j: int| 0 <= j < i ==> !keyed::<Seq<char>>(k@)(#[trigger] v[j]),
            decreases self.entries.len() - i,
        {
            if self.entries[i].0 == kv {
                proof {
                    lemma_first_with_some(v, keyed::<Seq<char>>(k@), i as int);
                }
                return Some(i);
            }
            i += 1;
        }
        proof {
            lemma_first_with_none(v, keyed::<Seq<char>>(k@));
        }
        None
    }

    /// The value of key `k`.
    pub fn get(&self, k: &str) -> (res: Option<String>)
        ensures
            match res {
                Some(v) => assoc_get(self@, k@) == Some(v@),
                None => assoc_get(self@, k@) is None,
            },
    {
        match self.find(k) {
            Some(i) => Some(self.entries[i].1.clone()),
            None => None,
        }
    }

    pub fn contains_key(&self, k: &str) -> (res: bool)
        ensures
            res == (assoc_get(self@, k@) is Some),
    {
        self.find(k).is_some()
    }

    /// Sets key `k` to `v`, in place when the key is present, else at the end.
    pub fn insert(&mut self, k: &str, v: &str)
        ensures
            final(self)@ == assoc_insert(old(self)@, k@, v@),
    {
        proof {
            use_type_invariant(&*self);
        }
        let ks = string_of(&chars_of(k));
        let vs = string_of(&chars_of(v));
        let found = self.find(k);
        let mut e: Vec<(String, String)> = Vec::new();
        std::mem::swap(&mut e, &mut self.entries);
        let ghost old_v = pairs_view(e@);
        assert(old_v == old(self)@);
        match found {
            Some(i) => {
                e.set(i, (ks, vs));
                assert(pairs_view(e@) =~= old_v.update(i as int, (k@, v@)));
            },
            None => {
                e.push((ks, vs));
                assert(pairs_view(e@) =~= old_v.push((k@, v@)));
                proof {
                    assert forall|a: int, b: int| 0 <= a < b < pairs_view(e@).len() implies pairs_view(
                        e@,
                    )[a].0 != pairs_view(e@)[b].0 by {
                        if b == old_v.len() && old_v[a].0 == k@ {
                            lemma_first_with_exists(old_v, keyed::<Seq<char>>(k@), a);
                        }
                    }
                }
            },
        }
        self.entries = e;
    }

    /// Removes key `k`; tells whether it was present.
    pub fn remove(&mut self, k: &str) -> (res: bool)
        ensures
            res == (assoc_get(old(self)@, k@) is Some),
            final(self)@ == assoc_remove(old(self)@, k@),
    {
        proof {
            use_type_invariant(&*self);
        }
        match self.find(k) {
            Some(i) => {
                let mut e: Vec<(String, String)> = Vec::new();
                std::mem::swap(&mut e, &mut self.entries);
                let ghost old_v = pairs_view(e@);
                e.remove(i);
                assert(pairs_view(e@) =~= old_v.remove(i as int));
                proof {
                    assert forall|a: int, b: int| 0 <= a < b < pairs_view(e@).len() implies pairs_view(
                        e@,
                    )[a].0 != pairs_view(e@)[b].0 by {
                        let a2 = if a < i { a } else { a + 1 };
                        let b2 = if b < i { b } else { b + 1 };
                        assert(pairs_view(e@)[a] == old_v[a2]);
                        assert(pairs_view(e@)[b] == old_v[b2]);
                    }
                }
                self.entries = e;
                true
            },
            None => false,
        }
    }

    /// A map holds each key once.
    pub fn keys_are_distinct(&self)
        ensures
            keys_distinct(self@),
    {
        proof {
            use_type_invariant(self);
        }
    }

    /// The keys, in order.
    pub fn keys(&self) -> (res: Vec<String>)
        ensures
            strs_of(res@) == map_keys(self@),
    {
        let mut res: Vec<String> = Vec::new();
        let mut i: usize = 0;
        while i < self.entries.len()
            invariant
                i <= self.entries.len(),
                strs_of(res@) == map_keys(self@).take(i as int),
            decreases self.entries.len() - i,
        {
            let ghost before = res@;
            res.push(self.entries[i].0.clone());
            assert(strs_of(res@) =~= strs_of(before).push(self@[i as int].0));
            assert(map_keys(self@).take(i + 1) =~= map_keys(self@).take(i as int).push(self@[i as int].0));
            i += 1;
        }
        assert(map_keys(self@).take(self@.len() as int) =~= map_keys(self@));
        res
    }
}

// ---------------------------------------------------------------------------
// Sealing and opening
// ---------------------------------------------------------------------------

/// Why a store could not be opened or sealed, or a key file not read.
#[derive(Debug)]
pub enum StoreError {
    /// The data is shorter than a nonce.
    CiphertextTooShort,
    /// The tag does not authenticate the data under the key.
    DecryptionFailed(chacha20poly1305::aead::Error),
    /// The cipher refused the plaintext.
    EncryptionFailed(chacha20poly1305::aead::Error),
    /// The plaintext is not a JSON object of strings.
    Json(serde_json::Error),
    /// A key file does not hold 32 bytes; the number it holds.
    KeyFileCorrupted(usize),
}

/// `Display` of `aead::Error` (through `ToString`): the crate writes the fixed
/// text `aead::Error`.
#[verifier::external_body]
fn aead_error_text(e: &chacha20poly1305::aead::Error) -> (res: String)
    ensures
        res@ == "aead::Error"@,
{
    e.to_string()
}

/// `Display` of `serde_json::Error` (through `ToString`). The error is opaque, so
/// nothing is stated of the text, which describes the syntax or type error and
/// where it occurred.
#[verifier::external_body]
fn json_error_text(e: &serde_json::Error) -> (res: String) {
    e.to_string()
}

impl StoreError {
    /// The text that reports the error; a JSON error reports serde_json's own text.
    pub fn message(&self) -> (res: String)
        ensures
            match self {
                StoreError::CiphertextTooShort => res@ == "Ciphertext too short"@,
                StoreError::DecryptionFailed(_) => res@ == "Decryption failed: "@ + "aead::Error"@,
                StoreError::EncryptionFailed(_) => res@ == "Encryption failed: "@ + "aead::Error"@,
                StoreError::Json(_) => true,
                StoreError::KeyFileCorrupted(n) => res@ == "Key file corrupted: expected 32 bytes, got "@
                    + decimal(*n as nat),
            },
    {
        match self {
            StoreError::CiphertextTooShort => string_of(&chars_of("Ciphertext too short")),
            StoreError::DecryptionFailed(e) => {
                let mut out = chars_of("Decryption failed: ");
                append_str(&mut out, aead_error_text(e).as_str());
                string_of(&out)
            },
            StoreError::EncryptionFailed(e) => {
                let mut out = chars_of("Encryption failed: ");
                append_str(&mut out, aead_error_text(e).as_str());
                string_of(&out)
            },
            StoreError::Json(e) => json_error_text(e),
            StoreError::KeyFileCorrupted(n) => {
                let mut out = chars_of("Key file corrupted: expected 32 bytes, got ");
                push_decimal(&mut out, *n);
                string_of(&out)
            },
        }
    }
}

/// The plaintext of `data`: a nonce, then the ciphertext.
pub open spec fn decrypted(key: Seq<u8>, data: Seq<u8>) -> Option<Seq<u8>> {
    if data.len() < 12 {
        None
    } else {
        aead_open(key, data.take(12), data.skip(12))
    }
}

/// `nonce` followed by the encryption of `plaintext`.
pub open spec fn encrypted(key: Seq<u8>, nonce: Seq<u8>, plaintext: Seq<u8>) -> Option<Seq<u8>> {
    match aead_seal(key, nonce, plaintext) {
        Some(ct) => Some(nonce + ct),
        None => None,
    }
}

fn nonce_of(data: &[u8]) -> (res: [u8; 12])
    requires
        data@.len() >= 12,
    ensures
        res@ == data@.take(12),
{
    let mut n = [0u8; 12];
    let mut i: usize = 0;
    while i < 12
        invariant
            i <= 12,
            data@.len() >= 12,
            n@.len() == 12,
            forall|j: int| 0 <= j < i ==> n@[j] == data@[j],
        decreases 12 - i,
    {
        n.set(i, data[i]);
        i += 1;
    }
    assert(n@ =~= data@.take(12));
    n
}

fn bytes_from(data: &[u8], lo: usize) -> (res: Vec<u8>)
    requires
        lo <= data@.len(),
    ensures
        res@ == data@.skip(lo as int),
{
    let mut v: Vec<u8> = Vec::new();
    let mut i = lo;
    while i < data.len()
        invariant
            lo <= i <= data@.len(),
            v@ == data@.subrange(lo as int, i as int),
        decreases data@.len() - i,
    {
        v.push(data[i]);
        i += 1;
        assert(v@ =~= data@.subrange(lo as int, i as int));
    }
    assert(v@ =~= data@.skip(lo as int));
    v
}

/// Splits off the nonce and decrypts the rest.
pub fn decrypt_data(key: &[u8; 32], data: &[u8]) -> (res: Result<Vec<u8>, StoreError>)
    ensures
        match res {
            Ok(pt) => decrypted(key@, data@) == Some(pt@) && data@.len() >= 28 && pt@.len() == data@.len()
                - 28,
            Err(StoreError::CiphertextTooShort) => data@.len() < 12,
            Err(StoreError::DecryptionFailed(_)) => data@.len() >= 12 && decrypted(key@, data@) is None,
            Err(_) => false,
        },
{
    if data.len() < 12 {
        return Err(StoreError::CiphertextTooShort);
    }
    let nonce = nonce_of(data);
    let ct = bytes_from(data, 12);
    match chacha_decrypt(key, &nonce, ct.as_slice()) {
        Ok(pt) => Ok(pt),
        Err(e) => Err(StoreError::DecryptionFailed(e)),
    }
}

/// The nonce followed by the encryption of `data`.
pub fn encrypt_data_with_nonce(key: &[u8; 32], nonce: &[u8; 12], data: &[u8]) -> (res: Result<Vec<u8>, StoreError>)
    ensures
        match res {
            Ok(b) => encrypted(key@, nonce@, data@) == Some(b@) && decrypted(key@, b@) == Some(data@)
                && b@.len() == 12 + data@.len() + 16,
            Err(StoreError::EncryptionFailed(_)) => encrypted(key@, nonce@, data@) is None,
            Err(_) => false,
        },
        (res is Ok) == (data@.len() / 64 < 0xFFFF_FFFF),
{
    match chacha_encrypt(key, nonce, data) {
        Ok(ct) => {
            let mut out: Vec<u8> = Vec::new();
            let mut i: usize = 0;
            while i < 12
                invariant
                    i <= 12,
                    nonce@.len() == 12,
                    out@ == nonce@.take(i as int),
                decreases 12 - i,
            {
                out.push(nonce[i]);
                i += 1;
                assert(out@ =~= nonce@.take(i as int));
            }
            let mut j: usize = 0;
            while j < ct.len()
                invariant
                    j <= ct.len(),
                    nonce@.len() == 12,
                    out@ == nonce@ + ct@.take(j as int),
                decreases ct.len() - j,
            {
                out.push(ct[j]);
                j += 1;
                assert(out@ =~= nonce@ + ct@.take(j as int));
            }
            proof {
                assert(ct@.take(ct@.len() as int) =~= ct@);
                assert(out@.take(12) =~= nonce@);
                assert(out@.skip(12) =~= ct@);
            }
            Ok(out)
        },
        Err(e) => Err(StoreError::EncryptionFailed(e)),
    }
}

/// Encrypts `data` under a fresh random nonce, which leads the result.
pub fn encrypt_data(key: &[u8; 32], data: &[u8]) -> (res: Result<Vec<u8>, StoreError>)
    ensures
        match res {
            Ok(b) => b@.len() == 12 + data@.len() + 16 && encrypted(key@, b@.take(12), data@) == Some(b@)
                && decrypted(key@, b@) == Some(data@),
            Err(StoreError::EncryptionFailed(_)) => true,
            Err(_) => false,
        },
        (res is Ok) == (data@.len() / 64 < 0xFFFF_FFFF),
{
    let nonce = random_nonce();
    let r = encrypt_data_with_nonce(key, &nonce, data);
    proof {
        if r is Ok {
            let b = r->Ok_0;
            let ct = aead_seal(key@, nonce@, data@).unwrap();
            assert(b@ == nonce@ + ct);
            assert(b@.take(12) =~= nonce@);
        }
    }
    r
}

/// The entries stored in `data`, when it decrypts to a JSON object of strings.
pub open spec fn opened(key: Seq<u8>, data: Seq<u8>) -> Option<Seq<(Seq<char>, Seq<char>)>> {
    match decrypted(key, data) {
        Some(pt) => json_decoded(pt),
        None => None,
    }
}

/// Decrypts a store and reads its map.
pub fn open_secrets(key: &[u8; 32], data: &[u8]) -> (res: Result<SecretMap, StoreError>)
    ensures
        match res {
            Ok(m) => opened(key@, data@) == Some(m@) && keys_distinct(m@),
            Err(StoreError::CiphertextTooShort) => data@.len() < 12,
            Err(StoreError::DecryptionFailed(_)) => data@.len() >= 12 && decrypted(key@, data@) is None,
            Err(StoreError::Json(_)) => decrypted(key@, data@) is Some && opened(key@, data@) is None,
            Err(_) => false,
        },
{
    let pt = decrypt_data(key, data)?;
    match json_decode(pt.as_slice()) {
        Ok(entries) => Ok(SecretMap { entries }),
        Err(e) => Err(StoreError::Json(e)),
    }
}

/// Writes the map as JSON and encrypts it under `nonce`.
pub fn seal_secrets_with_nonce(key: &[u8; 32], nonce: &[u8; 12], m: &SecretMap) -> (res: Result<Vec<u8>, StoreError>)
    ensures
        match res {
            Ok(b) => encrypted(key@, nonce@, json_encoded(m@)) == Some(b@) && b@.len() == 12
                + json_encoded(m@).len() + 16,
            Err(StoreError::EncryptionFailed(_)) => encrypted(key@, nonce@, json_encoded(m@)) is None,
            Err(_) => false,
        },
        res matches Ok(b) ==> opened(key@, b@) matches Some(d) && keys_distinct(d) && same_entries(d, m@),
        (res is Ok) == (json_encoded(m@).len() / 64 < 0xFFFF_FFFF),
{
    proof {
        use_type_invariant(m);
    }
    let json = match json_encode(&m.entries) {
        Ok(b) => b,
        Err(e) => {
            return Err(StoreError::Json(e));
        },
    };
    encrypt_data_with_nonce(key, nonce, json.as_slice())
}

/// Writes the map as JSON and encrypts it under a fresh random nonce; opening the
/// result with the same key gives back the same entries.
pub fn seal_secrets(key: &[u8; 32], m: &SecretMap) -> (res: Result<Vec<u8>, StoreError>)
    ensures
        match res {
            Ok(b) => b@.len() == 12 + json_encoded(m@).len() + 16 && encrypted(
                key@,
                b@.take(12),
                json_encoded(m@),
            ) == Some(b@),
            Err(StoreError::EncryptionFailed(_)) => true,
            Err(_) => false,
        },
        res matches Ok(b) ==> opened(key@, b@) matches Some(d) && keys_distinct(d) && same_entries(d, m@),
        (res is Ok) == (json_encoded(m@).len() / 64 < 0xFFFF_FFFF),
{
    proof {
        use_type_invariant(m);
    }
    let nonce = random_nonce();
    let r = seal_secrets_with_nonce(key, &nonce, m);
    proof {
        if r is Ok {
            let b = r->Ok_0;
            let ct = aead_seal(key@, nonce@, json_encoded(m@)).unwrap();
            assert(b@ == nonce@ + ct);
            assert(b@.take(12) =~= nonce@);
        }
    }
    r
}

/// The 32-byte key that a key file holds.
pub fn key_from_bytes(bytes: &[u8]) -> (res: Result<[u8; 32], StoreError>)
    ensures
        match res {
            Ok(k) => bytes@.len() == 32 && k@ == bytes@,
            Err(StoreError::KeyFileCorrupted(n)) => bytes@.len() != 32 && n == bytes@.len(),
            Err(_) => false,
        },
{
    if bytes.len() != 32 {
        return Err(StoreError::KeyFileCorrupted(bytes.len()));
    }
    let mut k = [0u8; 32];
    let mut i: usize = 0;
    while i < 32
        invariant
            i <= 32,
            bytes@.len() == 32,
            k@.len() == 32,
            forall|j: int| 0 <= j < i ==> k@[j] == bytes@[j],
        decreases 32 - i,
    {
        k.set(i, bytes[i]);
        i += 1;
    }
    assert(k@ =~= bytes@);
    Ok(k)
}

/// The key of a key file: the 32 bytes that the file holds, or, when there is
/// no file yet (`None`), a fresh random key for the caller to store.
pub fn load_or_create_key(file: Option<&[u8]>) -> (res: Result<[u8; 32], StoreError>)
    ensures
        match file {
            Some(bytes) => match res {
                Ok(k) => bytes@.len() == 32 && k@ == bytes@,
                Err(StoreError::KeyFileCorrupted(n)) => bytes@.len() != 32 && n == bytes@.len(),
                Err(_) => false,
            },
            None => res is Ok,
        },
{
    match file {
        Some(bytes) => key_from_bytes(bytes),
        None => Ok(random_key()),
    }
}

} // verus!

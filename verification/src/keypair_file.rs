//! Keypair files: the stored form of a keypair, its password-based
//! encryption (Argon2id key, AES-256-GCM), the checks made when one is
//! loaded, and the policy for plaintext files.
use vstd::prelude::*;
use aes_gcm::aead::{Aead, KeyInit};
use crate::account::{Keypair, Pubkey};
use crate::bytes::{append_bytes, bytes_eq, copy_bytes};
use crate::crypto::{bs58_encode_spec, ed25519_public_key_spec};
use crate::text::{decimal, u64_to_decimal};

verus! {

/// Environment variable holding the keypair password.
pub const KEYPAIR_PASSWORD_ENV: &'static str = "LICHEN_KEYPAIR_PASSWORD";
/// Environment variable that allows plaintext keypair files.
pub const ALLOW_PLAINTEXT_KEYPAIR_ENV: &'static str = "LICHEN_ALLOW_PLAINTEXT_KEYPAIRS";
/// Environment variable that marks local development (plaintext allowed).
pub const LOCAL_DEV_ENV: &'static str = "LICHEN_LOCAL_DEV";
/// Version tag of AES-256-GCM encrypted keypair files.
pub const KEYPAIR_ENCRYPTION_VERSION_AES_GCM: u8 = 2;

/// A keypair as stored: the private key (the 32-byte seed, or its
/// ciphertext when encrypted), the public key and its base58 text, and the
/// encryption fields.
#[derive(Debug, Clone)]
pub struct KeypairFile {
    pub private_key: Vec<u8>,
    pub public_key: Vec<u8>,
    pub public_key_base58: String,
    pub encrypted: Option<bool>,
    pub salt: Option<Vec<u8>>,
    pub encryption_version: Option<u8>,
}

// ----- Outside computations -----

/// A character with the Unicode White_Space property, the white space of
/// `str::trim`.
pub open spec fn white_space(c: char) -> bool {
    ('\u{9}' <= c <= '\u{d}') || c == ' ' || c == '\u{85}' || c == '\u{a0}' || c == '\u{1680}'
        || ('\u{2000}' <= c <= '\u{200a}') || c == '\u{2028}' || c == '\u{2029}' || c == '\u{202f}'
        || c == '\u{205f}' || c == '\u{3000}'
}

/// `s` without its leading white space.
pub open spec fn trim_start_spec(s: Seq<char>) -> Seq<char>
    decreases s.len(),
{
    if s.len() > 0 && white_space(s[0]) { trim_start_spec(s.drop_first()) } else { s }
}

/// `s` without its trailing white space.
pub open spec fn trim_end_spec(s: Seq<char>) -> Seq<char>
    decreases s.len(),
{
    if s.len() > 0 && white_space(s.last()) { trim_end_spec(s.drop_last()) } else { s }
}

/// What `str::trim` gives: the text without leading and trailing white space.
pub open spec fn trim_spec(s: Seq<char>) -> Seq<char> {
    trim_end_spec(trim_start_spec(s))
}

/// `str::trim`: `s` without leading and trailing white space.
#[verifier::external_body]
fn trim_text(s: &str) -> (r: String)
    ensures
        r@ == trim_spec(s@),
{
    s.trim().to_string()
}

/// Names the Argon2id key (19456 KiB, 2 passes, 1 lane, version 0x13,
/// 32-byte output) of a password and salt.
pub uninterp spec fn argon2id_key_spec(password: Seq<char>, salt: Seq<u8>) -> Seq<u8>;

/// `argon2::Argon2::hash_password_into` with Argon2id, version 0x13 and
/// parameters (19456, 2, 1, 32): the 32-byte key of `password` and `salt`.
/// The salt must be 16 bytes or more, as the key file code demands.
#[verifier::external_body]
fn derive_encryption_key(password: &str, salt: &[u8]) -> (r: [u8; 32])
    requires
        salt@.len() >= 16,
        salt@.len() <= 0xffff_ffff,
        password@.len() < 0x4000_0000,
    ensures
        r@ == argon2id_key_spec(password@, salt@),
{
    let params = argon2::Params::new(19_456, 2, 1, Some(32)).expect("valid Argon2 params");
    let argon2 = argon2::Argon2::new(argon2::Algorithm::Argon2id, argon2::Version::V0x13, params);
    let mut output = [0u8; 32];
    argon2.hash_password_into(password.as_bytes(), salt, &mut output).expect("Argon2id key derivation failed");
    output
}

/// Names AES-256-GCM encryption: ciphertext followed by the 16-byte tag,
/// or None when the cipher refuses the input.
pub uninterp spec fn aes_gcm_encrypt_spec(key: Seq<u8>, nonce: Seq<u8>, data: Seq<u8>) -> Option<Seq<u8>>;

/// Names AES-256-GCM decryption: the plaintext, or None when the tag does not verify.
pub uninterp spec fn aes_gcm_decrypt_spec(key: Seq<u8>, nonce: Seq<u8>, sealed: Seq<u8>) -> Option<Seq<u8>>;

/// `Aes256Gcm::encrypt` under `key` and `nonce`: the ciphertext with its
/// tag, 16 bytes longer than `data`; decrypting it with the same key and
/// nonce gives `data` back.
#[verifier::external_body]
fn aes_gcm_seal(key: &[u8; 32], nonce: &[u8; 12], data: &[u8]) -> (r: Option<Vec<u8>>)
    ensures
        r is Some <==> aes_gcm_encrypt_spec(key@, nonce@, data@) is Some,
        r matches Some(c) ==> Some(c@) == aes_gcm_encrypt_spec(key@, nonce@, data@)
            && c@.len() == data@.len() + 16
            && aes_gcm_decrypt_spec(key@, nonce@, c@) == Some(data@),
{
    let cipher = aes_gcm::Aes256Gcm::new_from_slice(key).ok()?;
    cipher.encrypt(aes_gcm::Nonce::from_slice(nonce), data).ok()
}

/// `Aes256Gcm::decrypt` under `key` and `nonce`: the plaintext when the tag verifies.
#[verifier::external_body]
fn aes_gcm_open(key: &[u8; 32], nonce: &[u8; 12], sealed: &[u8]) -> (r: Option<Vec<u8>>)
    ensures
        r is Some <==> aes_gcm_decrypt_spec(key@, nonce@, sealed@) is Some,
        r matches Some(p) ==> Some(p@) == aes_gcm_decrypt_spec(key@, nonce@, sealed@),
{
    let cipher = aes_gcm::Aes256Gcm::new_from_slice(key).ok()?;
    cipher.decrypt(aes_gcm::Nonce::from_slice(nonce), sealed).ok()
}

/// `getrandom::fill` of 16 bytes; what comes out is random.
#[verifier::external_body]
fn random_16() -> (r: Result<[u8; 16], String>) {
    let mut b = [0u8; 16];
    getrandom::fill(&mut b).map_err(|err| format!("{}", err))?;
    Ok(b)
}

/// `getrandom::fill` of 12 bytes; what comes out is random.
#[verifier::external_body]
fn random_12() -> (r: Result<[u8; 12], String>) {
    let mut b = [0u8; 12];
    getrandom::fill(&mut b).map_err(|err| format!("{}", err))?;
    Ok(b)
}

// ----- Password policy -----

/// Words that switch a flag on.
pub open spec fn truthy_word(s: Seq<char>) -> bool {
    s == "1"@ || s == "true"@ || s == "TRUE"@ || s == "yes"@ || s == "YES"@ || s == "on"@ || s == "ON"@
}

/// True when `value`, trimmed, is one of 1, true, TRUE, yes, YES, on, ON.
pub fn is_truthy(value: &str) -> (r: bool)
    ensures
        r == truthy_word(trim_spec(value@)),
{
    let t = trim_text(value);
    t == String::from_str("1") || t == String::from_str("true") || t == String::from_str("TRUE")
        || t == String::from_str("yes") || t == String::from_str("YES") || t == String::from_str("on")
        || t == String::from_str("ON")
}

/// The password an environment value gives: none when unset or empty.
pub fn keypair_password_from(value: Option<String>) -> (r: Option<String>)
    ensures
        r == (match value {
            Some(p) => if p@.len() > 0 { Some(p) } else { None },
            None => None,
        }),
{
    match value {
        Some(p) => if p.as_str().unicode_len() > 0 { Some(p) } else { None },
        None => None,
    }
}

/// Plaintext keypair files are allowed when either the allow variable or
/// the local-development variable is truthy.
pub fn plaintext_compat_allowed_from(allow_value: Option<&str>, local_dev_value: Option<&str>) -> (r: bool)
    ensures
        r == ((allow_value matches Some(a) && truthy_word(trim_spec(a@)))
            || (local_dev_value matches Some(l) && truthy_word(trim_spec(l@)))),
{
    let a = match allow_value {
        Some(v) => is_truthy(v),
        None => false,
    };
    a || match local_dev_value {
        Some(v) => is_truthy(v),
        None => false,
    }
}

/// Message refusing a keypair without a password in `context`.
pub open spec fn password_required_message(context: Seq<char>) -> Seq<char> {
    context + " requires "@ + KEYPAIR_PASSWORD_ENV@ + " to be set. Plaintext keypairs are only allowed with "@
        + ALLOW_PLAINTEXT_KEYPAIR_ENV@ + "=1 or "@ + LOCAL_DEV_ENV@ + "=1."@
}

/// The password a runtime keypair is opened with: the configured password,
/// or none where plaintext files are allowed; otherwise an error.
pub fn require_runtime_keypair_password(context: &str, password: Option<String>, compat_allowed: bool)
    -> (r: Result<Option<String>, String>)
    ensures
        password is Some || compat_allowed ==> r == Ok::<Option<String>, String>(password),
        password is None && !compat_allowed ==> (r matches Err(m) && m@ == password_required_message(context@)),
{
    if password.is_some() || compat_allowed {
        return Ok(password);
    }
    let mut m = String::from_str(context);
    m.append(" requires ");
    m.append(KEYPAIR_PASSWORD_ENV);
    m.append(" to be set. Plaintext keypairs are only allowed with ");
    m.append(ALLOW_PLAINTEXT_KEYPAIR_ENV);
    m.append("=1 or ");
    m.append(LOCAL_DEV_ENV);
    m.append("=1.");
    Err(m)
}

// ----- Encryption of the private key -----

/// What decrypting a stored payload gives: None when it is shorter than a
/// nonce and a tag, else the decryption of the rest under the first 12 bytes.
pub open spec fn spec_decrypt_payload(encrypted: Seq<u8>, key: Seq<u8>) -> Option<Seq<u8>> {
    if encrypted.len() < 28 {
        None
    } else {
        aes_gcm_decrypt_spec(key, encrypted.subrange(0, 12), encrypted.subrange(12, encrypted.len() as int))
    }
}

fn nonce_of(encrypted: &[u8]) -> (r: [u8; 12])
    requires
        encrypted@.len() >= 12,
    ensures
        r@ == encrypted@.subrange(0, 12),
{
    let mut n = [0u8; 12];
    let mut i: usize = 0;
    while i < 12
        invariant
            i <= 12,
            encrypted@.len() >= 12,
            forall|j: int| 0 <= j < i ==> n@[j] == encrypted@[j],
        decreases 12 - i,
    {
        n[i] = encrypted[i];
        i += 1;
    }
    assert(n@ =~= encrypted@.subrange(0, 12));
    n
}

/// The stored payload of `data` sealed under `key` with `nonce`: the nonce,
/// then the ciphertext and tag; None when the cipher refuses the input.
pub open spec fn sealed_payload(key: Seq<u8>, nonce: Seq<u8>, data: Seq<u8>) -> Option<Seq<u8>> {
    match aes_gcm_encrypt_spec(key, nonce, data) {
        Some(c) => Some(nonce + c),
        None => None,
    }
}

/// Seals `data` under `key` with the given nonce: the nonce, then the
/// ciphertext and tag. The payload decrypts to `data` under `key`.
pub fn seal_with_nonce(data: &[u8], key: &[u8; 32], nonce: [u8; 12]) -> (r: Result<Vec<u8>, String>)
    ensures
        r is Ok <==> aes_gcm_encrypt_spec(key@, nonce@, data@) is Some,
        r matches Ok(v) ==> Some(v@) == sealed_payload(key@, nonce@, data@),
        r matches Ok(v) ==> v@.len() == 12 + data@.len() + 16 && spec_decrypt_payload(v@, key@) == Some(data@),
        r matches Err(m) ==> m@ == "AES-GCM keypair encryption failed"@,
{
    let sealed = match aes_gcm_seal(key, &nonce, data) {
        Some(c) => c,
        None => return Err(String::from_str("AES-GCM keypair encryption failed")),
    };
    let mut result: Vec<u8> = Vec::new();
    append_bytes(&mut result, &nonce);
    append_bytes(&mut result, sealed.as_slice());
    assert(result@.subrange(0, 12) =~= nonce@);
    assert(result@.subrange(12, result@.len() as int) =~= sealed@);
    assert(result@ =~= nonce@ + sealed@);
    Ok(result)
}

/// Encrypts `data` under `key` with a fresh random nonce (see
/// `seal_with_nonce`): whatever nonce was drawn, the payload is that nonce
/// followed by the sealing of `data` under it, and decrypts to `data`.
pub fn encrypt_aes_gcm(data: &[u8], key: &[u8; 32]) -> (r: Result<Vec<u8>, String>)
    ensures
        r matches Ok(v) ==> v@.len() == 12 + data@.len() + 16 && spec_decrypt_payload(v@, key@) == Some(data@),
        r matches Ok(v) ==> Some(v@) == sealed_payload(key@, v@.subrange(0, 12), data@),
        r matches Err(m) ==> m@ == "AES-GCM keypair encryption failed"@
            || (m@.len() >= 45 && m@.subrange(0, 45) == "Failed to generate keypair encryption nonce: "@),
{
    let nonce = match random_12() {
        Ok(n) => n,
        Err(e) => {
            let mut m = String::from_str("Failed to generate keypair encryption nonce: ");
            m.append(e.as_str());
            proof {
                reveal_strlit("Failed to generate keypair encryption nonce: ");
            }
            assert(m@.subrange(0, 45) =~= "Failed to generate keypair encryption nonce: "@);
            return Err(m);
        },
    };
    let r = seal_with_nonce(data, key, nonce);
    proof {
        if r is Ok {
            assert(r->Ok_0@.subrange(0, 12) =~= nonce@);
        }
    }
    r
}

/// Decrypts a stored payload (see `spec_decrypt_payload`).
pub fn decrypt_aes_gcm(encrypted: &[u8], key: &[u8; 32]) -> (r: Result<Vec<u8>, String>)
    ensures
        r is Ok <==> spec_decrypt_payload(encrypted@, key@) is Some,
        r matches Ok(p) ==> Some(p@) == spec_decrypt_payload(encrypted@, key@),
        encrypted@.len() < 28 ==> (r matches Err(m) && m@ == "Encrypted keypair payload is too short for AES-GCM"@),
        encrypted@.len() >= 28 && r is Err ==> (r matches Err(m)
            && m@ == "AES-GCM keypair decryption failed - wrong password or corrupted data"@),
{
    if encrypted.len() < 28 {
        return Err(String::from_str("Encrypted keypair payload is too short for AES-GCM"));
    }
    let nonce = nonce_of(encrypted);
    let sealed = vstd::slice::slice_subrange(encrypted, 12, encrypted.len());
    match aes_gcm_open(key, &nonce, sealed) {
        Some(p) => Ok(p),
        None => Err(String::from_str("AES-GCM keypair decryption failed - wrong password or corrupted data")),
    }
}

// ----- Keypair files -----

/// The file written for a keypair: its seed, public key and base58 text.
pub open spec fn file_of_keypair(f: KeypairFile, k: Keypair) -> bool {
    &&& f.private_key@ == k.seed_view()
    &&& f.public_key@ == ed25519_public_key_spec(k.seed_view())
    &&& f.public_key_base58@ == bs58_encode_spec(ed25519_public_key_spec(k.seed_view()))
    &&& f.encrypted is None
    &&& f.salt is None
    &&& f.encryption_version is None
}

/// Why a seed with the given stored public key and base58 text does not
/// open: its length, or a public key or text (where present) that is not
/// the seed's; None when it opens.
pub open spec fn seed_problem(seed: Seq<u8>, public_key: Seq<u8>, public_key_base58: Seq<char>) -> Option<Seq<char>> {
    if seed.len() != 32 {
        Some("Invalid privateKey length: expected 32 bytes, got "@ + decimal(seed.len()))
    } else if public_key.len() != 0 && public_key != ed25519_public_key_spec(seed) {
        Some("Keypair file publicKey does not match the derived PQ verifying key"@)
    } else if public_key_base58.len() != 0 && public_key_base58 != bs58_encode_spec(ed25519_public_key_spec(seed)) {
        Some("Keypair file publicKeyBase58 does not match derived PQ address"@)
    } else {
        None
    }
}

/// Why a stored keypair does not open (see `seed_problem`).
pub open spec fn keypair_file_problem(f: KeypairFile) -> Option<Seq<char>> {
    seed_problem(f.private_key@, f.public_key@, f.public_key_base58@)
}

/// The seed an encrypted file holds under `password`: decrypted under the
/// Argon2id key of the password and the file's salt, for the known version.
pub open spec fn encrypted_seed(f: KeypairFile, password: Seq<char>) -> Option<Seq<u8>> {
    if f.encryption_version == Some(KEYPAIR_ENCRYPTION_VERSION_AES_GCM) && f.salt is Some {
        spec_decrypt_payload(f.private_key@, argon2id_key_spec(password, f.salt.unwrap()@))
    } else {
        None
    }
}

/// The text of `p`, if any.
pub open spec fn option_view(p: Option<&str>) -> Option<Seq<char>> {
    match p {
        Some(s) => Some(s@),
        None => None,
    }
}

/// Why a file read from `path` does not open with `password`, in the order
/// the checks are made; None when it opens.
pub open spec fn open_problem(f: KeypairFile, path: Seq<char>, password: Option<Seq<char>>, allow_plaintext: bool) -> Option<Seq<char>> {
    let prefix = "Encrypted keypair file "@ + path;
    if f.encrypted == Some(true) {
        if f.salt is None {
            Some(prefix + " is missing the salt field"@)
        } else if password is None {
            Some(prefix + " requires "@ + KEYPAIR_PASSWORD_ENV@ + " to be set"@)
        } else if password.unwrap().len() == 0 {
            Some(prefix + " requires a non-empty "@ + KEYPAIR_PASSWORD_ENV@)
        } else if f.encryption_version is None {
            Some(prefix + " is missing encryption_version"@)
        } else if f.encryption_version != Some(KEYPAIR_ENCRYPTION_VERSION_AES_GCM) {
            Some("Unsupported keypair encryption version "@ + decimal(f.encryption_version.unwrap() as nat) + " in "@ + path)
        } else if f.private_key@.len() < 28 {
            Some("Encrypted keypair payload is too short for AES-GCM"@)
        } else {
            match encrypted_seed(f, password.unwrap()) {
                None => Some("AES-GCM keypair decryption failed - wrong password or corrupted data"@),
                Some(seed) => seed_problem(seed, f.public_key@, f.public_key_base58@),
            }
        }
    } else if !allow_plaintext {
        Some("Plaintext keypair file "@ + path + " is not allowed outside explicit local development. Set "@
            + KEYPAIR_PASSWORD_ENV@ + " or use "@ + ALLOW_PLAINTEXT_KEYPAIR_ENV@ + "=1 / "@ + LOCAL_DEV_ENV@
            + "=1 for compatibility."@)
    } else {
        keypair_file_problem(f)
    }
}

impl KeypairFile {
    /// The stored form of `keypair`, unencrypted.
    pub fn from_keypair(keypair: &Keypair) -> (r: KeypairFile)
        ensures
            file_of_keypair(r, *keypair),
    {
        let pubkey = keypair.pubkey();
        let seed = keypair.to_seed();
        KeypairFile {
            private_key: copy_bytes(&seed),
            public_key: copy_bytes(&pubkey.0),
            public_key_base58: pubkey.to_base58(),
            encrypted: None,
            salt: None,
            encryption_version: None,
        }
    }

    /// The keypair of the stored seed, after checking the seed's length and
    /// that the stored public key and its text (where present) are the seed's.
    pub fn to_keypair(&self) -> (r: Result<Keypair, String>)
        ensures
            r is Ok <==> keypair_file_problem(*self) is None,
            r matches Ok(k) ==> k.seed_view() == self.private_key@,
            r matches Err(m) ==> Some(m@) == keypair_file_problem(*self),
    {
        if self.private_key.len() != 32 {
            let mut m = String::from_str("Invalid privateKey length: expected 32 bytes, got ");
            m.append(u64_to_decimal(self.private_key.len() as u64).as_str());
            return Err(m);
        }
        let mut seed = [0u8; 32];
        let mut i: usize = 0;
        while i < 32
            invariant
                i <= 32,
                self.private_key@.len() == 32,
                forall|j: int| 0 <= j < i ==> seed@[j] == self.private_key@[j],
            decreases 32 - i,
        {
            seed[i] = self.private_key[i];
            i += 1;
        }
        assert(seed@ =~= self.private_key@);
        let keypair = Keypair::from_seed(&seed);
        let pk = keypair.pubkey();
        if self.public_key.len() != 0 && !bytes_eq(pk.0.as_slice(), self.public_key.as_slice()) {
            return Err(String::from_str("Keypair file publicKey does not match the derived PQ verifying key"));
        }
        if self.public_key_base58.as_str().unicode_len() != 0 && !(pk.to_base58() == self.public_key_base58) {
            return Err(String::from_str("Keypair file publicKeyBase58 does not match derived PQ address"));
        }
        Ok(keypair)
    }

    /// The encrypted form of the file under `password`, with the given salt
    /// and nonce: the seed sealed under the Argon2id key of the password and
    /// the salt (nonce first), the salt and the encryption version recorded,
    /// the public key and its text kept.
    pub fn encrypted_form(&self, password: &str, salt: [u8; 16], nonce: [u8; 12]) -> (r: Result<KeypairFile, String>)
        requires
            password@.len() < 0x4000_0000,
        ensures
            r is Ok <==> aes_gcm_encrypt_spec(argon2id_key_spec(password@, salt@), nonce@, self.private_key@) is Some,
            r matches Err(m) ==> m@ == "AES-GCM keypair encryption failed"@,
            r matches Ok(f) ==> {
                &&& Some(f.private_key@) == sealed_payload(argon2id_key_spec(password@, salt@), nonce@, self.private_key@)
                &&& spec_decrypt_payload(f.private_key@, argon2id_key_spec(password@, salt@)) == Some(self.private_key@)
                &&& f.public_key@ == self.public_key@
                &&& f.public_key_base58@ == self.public_key_base58@
                &&& f.encrypted == Some(true)
                &&& f.salt matches Some(s) && s@ == salt@
                &&& f.encryption_version == Some(KEYPAIR_ENCRYPTION_VERSION_AES_GCM)
            },
    {
        let key = derive_encryption_key(password, &salt);
        let encrypted_pk = match seal_with_nonce(self.private_key.as_slice(), &key, nonce) {
            Ok(c) => c,
            Err(e) => return Err(e),
        };
        Ok(KeypairFile {
            private_key: encrypted_pk,
            public_key: copy_bytes(self.public_key.as_slice()),
            public_key_base58: self.public_key_base58.clone(),
            encrypted: Some(true),
            salt: Some(copy_bytes(&salt)),
            encryption_version: Some(KEYPAIR_ENCRYPTION_VERSION_AES_GCM),
        })
    }

    /// The form in which the file is written. With a non-empty password the
    /// seed is encrypted under the Argon2id key of the password and a fresh
    /// random salt; an empty password is refused; without a password the
    /// file is written as it is, unless encryption is required.
    pub fn storage_form(&self, password: Option<&str>, require_encryption: bool) -> (r: Result<KeypairFile, String>)
        requires
            password matches Some(p) ==> p@.len() < 0x4000_0000,
        ensures
            password matches Some(p) && p@.len() == 0 ==> (r matches Err(m)
                && m@ == KEYPAIR_PASSWORD_ENV@ + " is set but empty - cannot encrypt keypair file"@),
            password is None && require_encryption ==> (r matches Err(m)
                && m@ == "Keypair storage requires "@ + KEYPAIR_PASSWORD_ENV@ + " to be set"@),
            password is None && !require_encryption ==> (r matches Ok(f) && f.private_key@ == self.private_key@
                && f.public_key@ == self.public_key@ && f.public_key_base58@ == self.public_key_base58@
                && f.encrypted == self.encrypted && f.encryption_version == self.encryption_version
                && (f.salt matches Some(s) ==> self.salt matches Some(t) && s@ == t@)
                && (f.salt is None ==> self.salt is None)),
            password matches Some(p) && p@.len() > 0 ==> (r matches Err(m) ==> m@ == "AES-GCM keypair encryption failed"@
                || (m@.len() >= 45 && m@.subrange(0, 45) == "Failed to generate keypair encryption nonce: "@)
                || (m@.len() >= 44 && m@.subrange(0, 44) == "Failed to generate keypair encryption salt: "@)),
            password matches Some(p) && p@.len() > 0 ==> (r matches Ok(f) ==> {
                &&& f.encrypted == Some(true)
                &&& f.encryption_version == Some(KEYPAIR_ENCRYPTION_VERSION_AES_GCM)
                &&& f.public_key@ == self.public_key@
                &&& f.public_key_base58@ == self.public_key_base58@
                &&& f.salt matches Some(s) && s@.len() == 16
                    && spec_decrypt_payload(f.private_key@, argon2id_key_spec(password.unwrap()@, s@)) == Some(self.private_key@)
                    && Some(f.private_key@) == sealed_payload(argon2id_key_spec(password.unwrap()@, s@),
                        f.private_key@.subrange(0, 12), self.private_key@)
            }),
    {
        match password {
            Some(p) => {
                if p.unicode_len() == 0 {
                    let mut m = String::from_str(KEYPAIR_PASSWORD_ENV);
                    m.append(" is set but empty - cannot encrypt keypair file");
                    return Err(m);
                }
                let salt = match random_16() {
                    Ok(s) => s,
                    Err(e) => {
                        let mut m = String::from_str("Failed to generate keypair encryption salt: ");
                        m.append(e.as_str());
                        proof {
                            reveal_strlit("Failed to generate keypair encryption salt: ");
                        }
                        assert(m@.subrange(0, 44) =~= "Failed to generate keypair encryption salt: "@);
                        return Err(m);
                    },
                };
                let nonce = match random_12() {
                    Ok(n) => n,
                    Err(e) => {
                        let mut m = String::from_str("Failed to generate keypair encryption nonce: ");
                        m.append(e.as_str());
                        proof {
                            reveal_strlit("Failed to generate keypair encryption nonce: ");
                        }
                        assert(m@.subrange(0, 45) =~= "Failed to generate keypair encryption nonce: "@);
                        return Err(m);
                    },
                };
                let r = self.encrypted_form(p, salt, nonce);
                proof {
                    if r is Ok {
                        assert(r->Ok_0.private_key@.subrange(0, 12) =~= nonce@);
                    }
                }
                r
            },
            None => {
                if require_encryption {
                    let mut m = String::from_str("Keypair storage requires ");
                    m.append(KEYPAIR_PASSWORD_ENV);
                    m.append(" to be set");
                    return Err(m);
                }
                let salt = match &self.salt {
                    Some(s) => Some(copy_bytes(s.as_slice())),
                    None => None,
                };
                Ok(KeypairFile {
                    private_key: copy_bytes(self.private_key.as_slice()),
                    public_key: copy_bytes(self.public_key.as_slice()),
                    public_key_base58: self.public_key_base58.clone(),
                    encrypted: self.encrypted,
                    salt,
                    encryption_version: self.encryption_version,
                })
            },
        }
    }

    /// Opens a file read from `path`: an encrypted file needs its salt, a
    /// non-empty password and a known encryption version, and is decrypted;
    /// a plaintext file needs `allow_plaintext`. Either way the keypair must
    /// open (see `to_keypair`). The result is the plaintext form.
    pub fn open_loaded(self, path: &str, password: Option<&str>, allow_plaintext: bool) -> (r: Result<KeypairFile, String>)
        requires
            password matches Some(p) ==> p@.len() < 0x4000_0000,
            self.salt matches Some(s) ==> s@.len() <= 0xffff_ffff,
            self.encrypted == Some(true) && self.salt is Some && (password matches Some(p) && p@.len() > 0)
                ==> self.salt.unwrap()@.len() >= 16,
        ensures
            self.encrypted == Some(true) && (self.salt is None || password is None
                || (password matches Some(p) && p@.len() == 0)) ==> r is Err,
            self.encrypted == Some(true) && self.salt is Some && (password matches Some(p) && p@.len() > 0) ==> {
                let plain = encrypted_seed(self, password.unwrap()@);
                &&& r is Ok <==> (plain is Some && seed_problem(plain.unwrap(), self.public_key@, self.public_key_base58@) is None)
                &&& r matches Ok(f) ==> f.private_key@ == plain.unwrap() && f.encrypted is None && f.salt is None
                    && f.encryption_version is None && f.public_key@ == self.public_key@
                    && f.public_key_base58@ == self.public_key_base58@
            },
            self.encrypted != Some(true) && !allow_plaintext ==> r is Err,
            self.encrypted != Some(true) && allow_plaintext ==> {
                &&& r is Ok <==> keypair_file_problem(self) is None
                &&& r matches Ok(f) ==> f == self
            },
            r is Ok <==> open_problem(self, path@, option_view(password), allow_plaintext) is None,
            r matches Err(m) ==> Some(m@) == open_problem(self, path@, option_view(password), allow_plaintext),
    {
        let mut file = self;
        let is_encrypted = match file.encrypted {
            Some(e) => e,
            None => false,
        };
        if is_encrypted {
            let salt = match &file.salt {
                Some(s) => copy_bytes(s.as_slice()),
                None => {
                    let mut m = String::from_str("Encrypted keypair file ");
                    m.append(path);
                    m.append(" is missing the salt field");
                    return Err(m);
                },
            };
            let pw = match password {
                Some(p) => {
                    if p.unicode_len() == 0 {
                        let mut m = String::from_str("Encrypted keypair file ");
                        m.append(path);
                        m.append(" requires a non-empty ");
                        m.append(KEYPAIR_PASSWORD_ENV);
                        return Err(m);
                    }
                    p
                },
                None => {
                    let mut m = String::from_str("Encrypted keypair file ");
                    m.append(path);
                    m.append(" requires ");
                    m.append(KEYPAIR_PASSWORD_ENV);
                    m.append(" to be set");
                    return Err(m);
                },
            };
            let key = derive_encryption_key(pw, salt.as_slice());
            let version = match file.encryption_version {
                Some(v) => v,
                None => {
                    let mut m = String::from_str("Encrypted keypair file ");
                    m.append(path);
                    m.append(" is missing encryption_version");
                    return Err(m);
                },
            };
            if version != KEYPAIR_ENCRYPTION_VERSION_AES_GCM {
                let mut m = String::from_str("Unsupported keypair encryption version ");
                m.append(u64_to_decimal(version as u64).as_str());
                m.append(" in ");
                m.append(path);
                return Err(m);
            }
            let decrypted = match decrypt_aes_gcm(file.private_key.as_slice(), &key) {
                Ok(d) => d,
                Err(e) => return Err(e),
            };
            file.private_key = decrypted;
            file.encrypted = None;
            file.salt = None;
            file.encryption_version = None;
            match file.to_keypair() {
                Ok(_) => {},
                Err(e) => return Err(e),
            }
            return Ok(file);
        }
        if !allow_plaintext {
            let mut m = String::from_str("Plaintext keypair file ");
            m.append(path);
            m.append(" is not allowed outside explicit local development. Set ");
            m.append(KEYPAIR_PASSWORD_ENV);
            m.append(" or use ");
            m.append(ALLOW_PLAINTEXT_KEYPAIR_ENV);
            m.append("=1 / ");
            m.append(LOCAL_DEV_ENV);
            m.append("=1 for compatibility.");
            return Err(m);
        }
        match file.to_keypair() {
            Ok(_) => {},
            Err(e) => return Err(e),
        }
        Ok(file)
    }
}

/// A keypair file saved with a password opens again with that password to
/// what was saved: the stored seed decrypts to the original seed, and the
/// checks on opening are those of the original file.
pub proof fn lemma_save_then_open(original: KeypairFile, stored: KeypairFile, password: Seq<char>)
    requires
        stored.encrypted == Some(true),
        stored.encryption_version == Some(KEYPAIR_ENCRYPTION_VERSION_AES_GCM),
        stored.public_key@ == original.public_key@,
        stored.public_key_base58@ == original.public_key_base58@,
        stored.salt matches Some(s) && s@.len() == 16
            && spec_decrypt_payload(stored.private_key@, argon2id_key_spec(password, s@)) == Some(original.private_key@),
    ensures
        encrypted_seed(stored, password) == Some(original.private_key@),
        seed_problem(encrypted_seed(stored, password).unwrap(), stored.public_key@, stored.public_key_base58@)
            == keypair_file_problem(original),
{
}

} // verus!

//! The Chrome engine's logic: the versioned key derivation, decrypting and
//! encrypting stored passwords, and choosing the rows to update.
use vstd::prelude::*;
use vstd::utf8::*;
use vstd::string::StrSliceExecFns;
use crate::config::ProfileTypes;
use crate::model::{DBEntry, EntryView, IdentityView, ThreadResult, Uuid, entries_view, settled};
use crate::text::{contains_str, contains_text};

verus! {

/// Why a Chrome store could not be read or written.
#[derive(Debug, Clone, PartialEq, Eq)]
pub enum Error {
    /// A stored password is shorter than its version tag.
    BlobTooShort,
    /// The keyring holds no passphrase for the browser.
    CredentialError,
    /// The key could not be derived.
    Pbkdf2Error,
    /// A decrypted password is not UTF-8 text: the key is wrong.
    StringConversionError,
    /// An entry to write back carries no version tag of this store.
    WrongUuidType,
}

/// The salt of the key derivation.
pub const SALT: [u8; 9] = [115, 97, 108, 116, 121, 115, 97, 108, 116];

/// The passphrase of stores whose passwords carry the version tag `v10`.
pub const PEANUTS: [u8; 7] = [112, 101, 97, 110, 117, 116, 115];

/// The version tag `v10`.
pub const V10: [u8; 3] = [118, 49, 48];

/// The initialisation vector: sixteen spaces.
pub const IV: [u8; 16] = [32, 32, 32, 32, 32, 32, 32, 32, 32, 32, 32, 32, 32, 32, 32, 32];

/// The number of rounds of the key derivation.
pub const ITERATIONS: usize = 1;

/// The sixteen-byte key that PBKDF2 with HMAC-SHA1 derives.
pub uninterp spec fn pbkdf2_sha1_key(pass: Seq<u8>, salt: Seq<u8>, iterations: nat) -> Seq<u8>;

/// Relies on openssl's `pkcs5::pbkdf2_hmac` with `MessageDigest::sha1`,
/// which fills the key buffer with the PBKDF2-HMAC-SHA1 key of the
/// passphrase and salt, or reports a failure of the C library; it panics on
/// a length beyond `i32`.
#[verifier::external_body]
fn pbkdf2_sha1_16(pass: &[u8], salt: &[u8], iterations: usize) -> (r: Option<[u8; 16]>)
    requires
        pass@.len() <= i32::MAX,
        salt@.len() <= i32::MAX,
        iterations <= i32::MAX,
    ensures
        r matches Some(k) ==> k@ == pbkdf2_sha1_key(pass@, salt@, iterations as nat),
{
    let mut key = [0u8; 16];
    let digest = openssl::hash::MessageDigest::sha1();
    match openssl::pkcs5::pbkdf2_hmac(pass, salt, iterations, digest, &mut key) {
        Ok(()) => Some(key),
        Err(_) => None,
    }
}

/// AES-128 in CBC mode with padding, decrypting.
pub uninterp spec fn aes128_cbc_decrypt(key: Seq<u8>, iv: Seq<u8>, data: Seq<u8>) -> Seq<u8>;

/// AES-128 in CBC mode with padding, encrypting.
pub uninterp spec fn aes128_cbc_encrypt(key: Seq<u8>, iv: Seq<u8>, data: Seq<u8>) -> Seq<u8>;

/// Relies on libaes's `Cipher::new_128` and `Cipher::cbc_decrypt`, which
/// decrypts in CBC mode and strips the padding; data whose length is no
/// multiple of 16 gives an empty result.
#[verifier::external_body]
fn cbc_decrypt(key: &[u8; 16], iv: &[u8; 16], data: &[u8]) -> (r: Vec<u8>)
    ensures
        r@ == aes128_cbc_decrypt(key@, iv@, data@),
{
    libaes::Cipher::new_128(key).cbc_decrypt(iv, data)
}

/// Relies on libaes's `Cipher::new_128` and `Cipher::cbc_encrypt`, which
/// pads the data with one to sixteen bytes and encrypts it in CBC mode.
#[verifier::external_body]
fn cbc_encrypt(key: &[u8; 16], iv: &[u8; 16], data: &[u8]) -> (r: Vec<u8>)
    ensures
        r@ == aes128_cbc_encrypt(key@, iv@, data@),
        r@.len() == (data@.len() / 16 + 1) * 16,
{
    libaes::Cipher::new_128(key).cbc_encrypt(iv, data)
}

/// Relies on `std::str::from_utf8`, which accepts exactly the byte strings
/// that are valid UTF-8.
#[verifier::external_body]
fn utf8_text(b: &[u8]) -> (r: Option<String>)
    ensures
        r is Some <==> valid_utf8(b@),
        r matches Some(s) ==> s@ == decode_utf8(b@),
{
    match std::str::from_utf8(b) {
        Ok(s) => Some(s.to_owned()),
        Err(_) => None,
    }
}

/// The lower-case form of an ASCII byte.
pub open spec fn lower_byte(b: u8) -> u8 {
    if 65 <= b <= 90 {
        (b + 32) as u8
    } else {
        b
    }
}

/// The version tag of a stored password, in lower case, and the ciphertext
/// after it.
pub open spec fn split_blob(blob: Seq<u8>) -> Option<(Seq<u8>, Seq<u8>)> {
    if blob.len() < 3 {
        None
    } else {
        Some((blob.take(3).map_values(|b: u8| lower_byte(b)), blob.skip(3)))
    }
}

/// The passphrase the key is derived from: `peanuts` for the tag `v10`,
/// else the keyring's secret for a keyring-backed profile, else nothing.
pub open spec fn passphrase(version: Seq<u8>, ptype: ProfileTypes, keyring: Option<Seq<char>>) -> Option<Seq<u8>> {
    if version == V10@ {
        Some(PEANUTS@)
    } else if ptype == ProfileTypes::ChromeG {
        match keyring {
            Some(k) => Some(encode_utf8(k)),
            None => None,
        }
    } else {
        Some(Seq::empty())
    }
}

pub open spec fn opt_view(s: Option<String>) -> Option<Seq<char>> {
    match s {
        Some(t) => Some(t@),
        None => None,
    }
}

/// Splits a stored password into its version tag, lower-cased, and the
/// ciphertext.
pub fn split_blob_exec(blob: &[u8]) -> (r: Option<(Vec<u8>, Vec<u8>)>)
    ensures
        match r {
            Some((v, c)) => split_blob(blob@) == Some((v@, c@)),
            None => split_blob(blob@) is None,
        },
{
    if blob.len() < 3 {
        return None;
    }
    let mut v: Vec<u8> = Vec::new();
    for i in 0..3
        invariant
            blob@.len() >= 3,
            v@ == blob@.take(i as int).map_values(|b: u8| lower_byte(b)),
    {
        let b = blob[i];
        let l = if 65 <= b && b <= 90 {
            b + 32
        } else {
            b
        };
        v.push(l);
        assert(blob@.take(i + 1).map_values(|b: u8| lower_byte(b)) =~= blob@.take(i as int).map_values(
            |b: u8| lower_byte(b),
        ).push(lower_byte(b)));
    }
    let c = vstd::slice::slice_to_vec(vstd::slice::slice_subrange(blob, 3, blob.len()));
    assert(c@ =~= blob@.skip(3));
    Some((v, c))
}

/// The passphrase for a version tag and profile.
pub fn passphrase_exec(version: &[u8], ptype: ProfileTypes, keyring: &Option<String>) -> (r: Option<Vec<u8>>)
    ensures
        match r {
            Some(p) => passphrase(version@, ptype, opt_view(*keyring)) == Some(p@),
            None => passphrase(version@, ptype, opt_view(*keyring)) is None,
        },
{
    let is_v10 = version.len() == 3 && version[0] == V10[0] && version[1] == V10[1] && version[2]
        == V10[2];
    assert(is_v10 == (version@ == V10@)) by {
        if version@.len() == 3 && version@ == V10@ {
            assert(version@[0] == V10@[0] && version@[1] == V10@[1] && version@[2] == V10@[2]);
        }
        if is_v10 {
            assert(version@ =~= V10@);
        }
    }
    if is_v10 {
        Some(vstd::slice::slice_to_vec(PEANUTS.as_slice()))
    } else if matches!(ptype, ProfileTypes::ChromeG) {
        match keyring {
            Some(k) => Some(vstd::slice::slice_to_vec(k.as_str().as_bytes())),
            None => None,
        }
    } else {
        Some(Vec::new())
    }
}

/// The key of a store whose passwords carry the version tag `version`;
/// `None` where there is no passphrase for it.
pub open spec fn chrome_key(version: Seq<u8>, ptype: ProfileTypes, keyring: Option<Seq<char>>) -> Option<Seq<u8>> {
    match passphrase(version, ptype, keyring) {
        Some(p) => Some(pbkdf2_sha1_key(p, SALT@, ITERATIONS as nat)),
        None => None,
    }
}

/// Whether there is a passphrase for the tag that the key derivation takes.
pub open spec fn has_passphrase(version: Seq<u8>, ptype: ProfileTypes, keyring: Option<Seq<char>>) -> bool {
    passphrase(version, ptype, keyring) matches Some(p) && p.len() <= i32::MAX
}

/// Derives the key for a version tag and profile. Without a passphrase it
/// is a credential error; the derivation itself may fail in the C library.
pub fn derive_key(version: &[u8], ptype: ProfileTypes, keyring: &Option<String>) -> (r: Result<[u8; 16], Error>)
    ensures
        match r {
            Ok(k) => has_passphrase(version@, ptype, opt_view(*keyring)) && chrome_key(
                version@,
                ptype,
                opt_view(*keyring),
            ) == Some(k@),
            Err(Error::CredentialError) => !has_passphrase(version@, ptype, opt_view(*keyring)),
            Err(Error::Pbkdf2Error) => has_passphrase(version@, ptype, opt_view(*keyring)),
            Err(_) => false,
        },
{
    let pass = match passphrase_exec(version, ptype, keyring) {
        Some(p) => p,
        None => {
            return Err(Error::CredentialError);
        },
    };
    if pass.len() > i32::MAX as usize {
        return Err(Error::CredentialError);
    }
    match pbkdf2_sha1_16(pass.as_slice(), SALT.as_slice(), ITERATIONS) {
        Some(k) => Ok(k),
        None => Err(Error::Pbkdf2Error),
    }
}

/// The password a stored blob holds, decrypted with the key `key`.
pub open spec fn decrypted_text(key: Seq<u8>, ciphertext: Seq<u8>) -> Option<Seq<char>> {
    let plain = aes128_cbc_decrypt(key, IV@, ciphertext);
    if valid_utf8(plain) {
        Some(decode_utf8(plain))
    } else {
        None
    }
}

/// Decrypts a ciphertext with a derived key; the result must be UTF-8 text.
pub fn decrypt_with_key(key: &[u8; 16], ciphertext: &[u8]) -> (r: Result<String, Error>)
    ensures
        match r {
            Ok(s) => decrypted_text(key@, ciphertext@) == Some(s@),
            Err(e) => e == Error::StringConversionError && decrypted_text(key@, ciphertext@) is None,
        },
{
    let plain = cbc_decrypt(key, &IV, ciphertext);
    match utf8_text(plain.as_slice()) {
        Some(s) => Ok(s),
        None => Err(Error::StringConversionError),
    }
}

/// Encrypts a secret for writing back: the version tag, then the AES-CBC
/// ciphertext of the secret's UTF-8 bytes under the derived key.
pub open spec fn encrypted_blob(key: Seq<u8>, version: Seq<u8>, secret: Seq<char>) -> Seq<u8> {
    version + aes128_cbc_encrypt(key, IV@, encode_utf8(secret))
}

/// Encrypts a secret with a derived key, behind the version tag.
pub fn encrypt_with_key(key: &[u8; 16], version: &[u8], secret: &str) -> (r: Vec<u8>)
    ensures
        r@ == encrypted_blob(key@, version@, secret@),
{
    let mut out = vstd::slice::slice_to_vec(version);
    let mut c = cbc_encrypt(key, &IV, secret.as_bytes());
    out.append(&mut c);
    out
}

/// A row of the store's login table.
#[derive(Debug, Clone)]
pub struct Login {
    pub origin_url: String,
    pub username: String,
    pub password: Vec<u8>,
}

/// What one row gives: nothing for an empty stored password, or for a row
/// without a site or a username (such a row is dropped); else the entry
/// with the decrypted password, which remembers its version tag, or the
/// error that makes the whole store unreadable.
pub open spec fn login_entry(l: Login, ptype: ProfileTypes, keyring: Option<Seq<char>>) -> Option<Result<EntryView, Error>> {
    if l.password@.len() == 0 || l.origin_url@.len() == 0 || l.username@.len() == 0 {
        None
    } else {
        match split_blob(l.password@) {
            None => Some(Err(Error::BlobTooShort)),
            Some((v, c)) => if !has_passphrase(v, ptype, keyring) {
                Some(Err(Error::CredentialError))
            } else {
                match decrypted_text(chrome_key(v, ptype, keyring).unwrap(), c) {
                    None => Some(Err(Error::StringConversionError)),
                    Some(p) => Some(
                        Ok(
                            EntryView {
                                url: l.origin_url@,
                                username: l.username@,
                                old_password: p,
                                new_password: Seq::empty(),
                                uuid: IdentityView::Chrome(v),
                            },
                        ),
                    ),
                }
            },
        }
    }
}

/// The entries of the rows, in order, or the first error.
pub open spec fn parse_logins_spec(rows: Seq<Login>, ptype: ProfileTypes, keyring: Option<Seq<char>>) -> Result<Seq<EntryView>, Error>
    decreases rows.len(),
{
    if rows.len() == 0 {
        Ok(Seq::empty())
    } else {
        match parse_logins_spec(rows.drop_last(), ptype, keyring) {
            Err(e) => Err(e),
            Ok(es) => match login_entry(rows.last(), ptype, keyring) {
                None => Ok(es),
                Some(Err(e)) => Err(e),
                Some(Ok(e)) => Ok(es.push(e)),
            },
        }
    }
}

/// Reads one login row: nothing for an empty stored password or a row
/// without site or username, else its entry, or the error.
fn read_login(row: &Login, ptype: ProfileTypes, keyring: &Option<String>) -> (r: Option<Result<DBEntry, Error>>)
    ensures
        match r {
            None => login_entry(*row, ptype, opt_view(*keyring)) is None,
            Some(Err(e)) => e == Error::Pbkdf2Error || login_entry(*row, ptype, opt_view(*keyring)) == Some(
                Err::<EntryView, Error>(e),
            ),
            Some(Ok(e)) => login_entry(*row, ptype, opt_view(*keyring)) == Some(Ok::<EntryView, Error>(e@)),
        },
{
    if row.password.len() == 0 || row.origin_url.as_str().unicode_len() == 0
        || row.username.as_str().unicode_len() == 0 {
        return None;
    }
    let (v, c) = match split_blob_exec(row.password.as_slice()) {
        Some(p) => p,
        None => {
            return Some(Err(Error::BlobTooShort));
        },
    };
    let key = match derive_key(v.as_slice(), ptype, keyring) {
        Ok(k) => k,
        Err(e) => {
            return Some(Err(e));
        },
    };
    match decrypt_with_key(&key, c.as_slice()) {
        Ok(t) => {
            let mut e = DBEntry::new(row.origin_url.clone(), row.username.clone(), t, String::new());
            e.uuid = Uuid::Chrome([v[0], v[1], v[2]]);
            assert(e@.uuid == IdentityView::Chrome(v@)) by {
                assert(seq![v@[0], v@[1], v@[2]] =~= v@);
            }
            Some(Ok(e))
        },
        Err(e) => Some(Err(e)),
    }
}

/// Reads the login rows. A row with an empty stored password is passed
/// over, as is one without a site or a username. Each other row is split
/// into its version tag and ciphertext and decrypted with the key for that
/// tag; the entry remembers its tag. Any failure fails the whole store,
/// since the key material would be wrong for all of it; besides the errors
/// the rows give, the key derivation may fail in the C library. Returns the
/// entries, with no new secrets yet.
pub fn decrypt_and_parse_db(rows: &Vec<Login>, ptype: ProfileTypes, keyring: &Option<String>) -> (r: Result<Vec<DBEntry>, Error>)
    ensures
        match r {
            Ok(es) => parse_logins_spec(rows@, ptype, opt_view(*keyring)) == Ok::<Seq<EntryView>, Error>(entries_view(es@)),
            Err(e) => e == Error::Pbkdf2Error || parse_logins_spec(rows@, ptype, opt_view(*keyring)) == Err::<Seq<EntryView>, Error>(e),
        },
{
    let ghost kr = opt_view(*keyring);
    let mut entries: Vec<DBEntry> = Vec::new();
    assert(rows@.take(0) =~= Seq::<Login>::empty());
    assert(entries_view(entries@) =~= Seq::<EntryView>::empty());
    for i in 0..rows.len()
        invariant
            kr == opt_view(*keyring),
            parse_logins_spec(rows@.take(i as int), ptype, kr) == Ok::<Seq<EntryView>, Error>(entries_view(entries@)),
    {
        assert(rows@.take(i + 1).drop_last() =~= rows@.take(i as int));
        match read_login(&rows[i], ptype, keyring) {
            None => {},
            Some(Err(e)) => {
                if !matches!(e, Error::Pbkdf2Error) {
                    proof {
                        lemma_prefix_error(rows@, ptype, kr, i as int + 1, e);
                    }
                }
                return Err(e);
            },
            Some(Ok(e)) => {
                entries.push(e);
                assert(entries_view(entries@) =~= parse_logins_spec(rows@.take(i + 1), ptype, kr)->Ok_0);
            },
        }
    }
    assert(rows@.take(rows@.len() as int) =~= rows@);
    Ok(entries)
}

/// An error in a prefix of the rows is the error of all of them.
proof fn lemma_prefix_error(rows: Seq<Login>, ptype: ProfileTypes, keyring: Option<Seq<char>>, n: int, e: Error)
    requires
        0 <= n <= rows.len(),
        parse_logins_spec(rows.take(n), ptype, keyring) == Err::<Seq<EntryView>, Error>(e),
    ensures
        parse_logins_spec(rows, ptype, keyring) == Err::<Seq<EntryView>, Error>(e),
    decreases rows.len() - n,
{
    if n < rows.len() {
        assert(rows.take(n + 1).drop_last() =~= rows.take(n));
        lemma_prefix_error(rows, ptype, keyring, n + 1, e);
    } else {
        assert(rows.take(n) =~= rows);
    }
}

/// One parameterized update of the login table: the row of this site and
/// username gets this stored password.
#[derive(Debug, Clone)]
pub struct LoginUpdate {
    pub password: Vec<u8>,
    pub origin_url: String,
    pub username: String,
}

/// Whether an entry holds a new secret to write: not empty, and not its old
/// one.
pub open spec fn is_rotated(e: EntryView) -> bool {
    e.new_password.len() > 0 && e.new_password != e.old_password
}

/// What write-back does for one entry: nothing unless it was rotated; else
/// the update with the new secret encrypted behind the entry's own version
/// tag under that tag's key, or the error where the entry has no tag or the
/// tag no passphrase.
pub open spec fn entry_update(e: EntryView, ptype: ProfileTypes, keyring: Option<Seq<char>>) -> Option<Result<(Seq<u8>, Seq<char>, Seq<char>), Error>> {
    if !is_rotated(e) {
        None
    } else {
        match e.uuid {
            IdentityView::Chrome(v) => if !has_passphrase(v, ptype, keyring) {
                Some(Err(Error::CredentialError))
            } else {
                Some(Ok((encrypted_blob(chrome_key(v, ptype, keyring).unwrap(), v, e.new_password), e.url, e.username)))
            },
            _ => Some(Err(Error::WrongUuidType)),
        }
    }
}

/// The updates for the entries, in order, or the first error.
pub open spec fn chrome_updates(entries: Seq<EntryView>, ptype: ProfileTypes, keyring: Option<Seq<char>>) -> Result<Seq<(Seq<u8>, Seq<char>, Seq<char>)>, Error>
    decreases entries.len(),
{
    if entries.len() == 0 {
        Ok(Seq::empty())
    } else {
        match chrome_updates(entries.drop_last(), ptype, keyring) {
            Err(e) => Err(e),
            Ok(prev) => match entry_update(entries.last(), ptype, keyring) {
                None => Ok(prev),
                Some(Err(e)) => Err(e),
                Some(Ok(u)) => Ok(prev.push(u)),
            },
        }
    }
}

pub open spec fn updates_view(u: Seq<LoginUpdate>) -> Seq<(Seq<u8>, Seq<char>, Seq<char>)> {
    u.map_values(|x: LoginUpdate| (x.password@, x.origin_url@, x.username@))
}

proof fn lemma_updates_prefix_error(entries: Seq<EntryView>, ptype: ProfileTypes, keyring: Option<Seq<char>>, n: int, e: Error)
    requires
        0 <= n <= entries.len(),
        chrome_updates(entries.take(n), ptype, keyring) == Err::<Seq<(Seq<u8>, Seq<char>, Seq<char>)>, Error>(e),
    ensures
        chrome_updates(entries, ptype, keyring) == Err::<Seq<(Seq<u8>, Seq<char>, Seq<char>)>, Error>(e),
    decreases entries.len() - n,
{
    if n < entries.len() {
        assert(entries.take(n + 1).drop_last() =~= entries.take(n));
        lemma_updates_prefix_error(entries, ptype, keyring, n + 1, e);
    } else {
        assert(entries.take(n) =~= entries);
    }
}

/// The update that writes one entry back, if it was rotated.
fn update_for(e: &DBEntry, ptype: ProfileTypes, keyring: &Option<String>) -> (r: Option<Result<LoginUpdate, Error>>)
    ensures
        match r {
            None => entry_update(e@, ptype, opt_view(*keyring)) is None,
            Some(Err(x)) => x == Error::Pbkdf2Error || entry_update(e@, ptype, opt_view(*keyring)) == Some(
                Err::<(Seq<u8>, Seq<char>, Seq<char>), Error>(x),
            ),
            Some(Ok(u)) => entry_update(e@, ptype, opt_view(*keyring)) == Some(
                Ok::<(Seq<u8>, Seq<char>, Seq<char>), Error>((u.password@, u.origin_url@, u.username@)),
            ),
        },
{
    if e.new_password.as_str().unicode_len() == 0 || e.new_password == e.old_password {
        return None;
    }
    let v = match e.uuid {
        Uuid::Chrome(v) => v,
        _ => {
            return Some(Err(Error::WrongUuidType));
        },
    };
    let key = match derive_key(v.as_slice(), ptype, keyring) {
        Ok(k) => k,
        Err(x) => {
            return Some(Err(x));
        },
    };
    let blob = encrypt_with_key(&key, v.as_slice(), e.new_password.as_str());
    Some(Ok(LoginUpdate { password: blob, origin_url: e.url.clone(), username: e.username.clone() }))
}

/// The updates that write the rotated secrets back, each re-encrypted
/// behind its entry's own version tag with the key for that tag. Entries
/// that were not rotated leave their rows alone. Besides the errors the
/// entries give, the key derivation may fail in the C library.
pub fn update_db(entries: &Vec<DBEntry>, ptype: ProfileTypes, keyring: &Option<String>) -> (r: Result<Vec<LoginUpdate>, Error>)
    ensures
        match r {
            Ok(u) => chrome_updates(entries_view(entries@), ptype, opt_view(*keyring)) == Ok::<Seq<(Seq<u8>, Seq<char>, Seq<char>)>, Error>(updates_view(u@)),
            Err(e) => e == Error::Pbkdf2Error || chrome_updates(entries_view(entries@), ptype, opt_view(*keyring)) == Err::<Seq<(Seq<u8>, Seq<char>, Seq<char>)>, Error>(e),
        },
{
    let ghost kr = opt_view(*keyring);
    let ghost all = entries_view(entries@);
    let mut out: Vec<LoginUpdate> = Vec::new();
    assert(all.take(0) =~= Seq::<EntryView>::empty());
    assert(updates_view(out@) =~= Seq::empty());
    for i in 0..entries.len()
        invariant
            kr == opt_view(*keyring),
            all == entries_view(entries@),
            chrome_updates(all.take(i as int), ptype, kr) == Ok::<Seq<(Seq<u8>, Seq<char>, Seq<char>)>, Error>(updates_view(out@)),
    {
        assert(all.take(i + 1).drop_last() =~= all.take(i as int));
        assert(all.take(i + 1).last() == entries@[i as int]@);
        match update_for(&entries[i], ptype, keyring) {
            None => {},
            Some(Err(x)) => {
                if !matches!(x, Error::Pbkdf2Error) {
                    proof {
                        lemma_updates_prefix_error(all, ptype, kr, i as int + 1, x);
                    }
                }
                return Err(x);
            },
            Some(Ok(u)) => {
                out.push(u);
                assert(updates_view(out@) =~= chrome_updates(all.take(i + 1), ptype, kr)->Ok_0);
            },
        }
    }
    assert(all.take(entries@.len() as int) =~= all);
    Ok(out)
}

/// A run in which no job succeeded writes nothing back: the store settled
/// from failed jobs holds no new secret, so no row is updated.
pub proof fn lemma_failed_run_writes_nothing(results: Seq<ThreadResult>, db: Seq<DBEntry>, ptype: ProfileTypes, keyring: Option<Seq<char>>)
    requires
        db.len() == results.len(),
        forall|i: int| 0 <= i < results.len() ==> #[trigger] db[i]@ == settled(results[i]),
        forall|i: int| 0 <= i < results.len() ==> !(#[trigger] results[i].result.spec_succeeded()),
    ensures
        chrome_updates(entries_view(db), ptype, keyring) == Ok::<Seq<(Seq<u8>, Seq<char>, Seq<char>)>, Error>(Seq::empty()),
{
    let dbv = entries_view(db);
    assert forall|i: int| 0 <= i < dbv.len() implies !is_rotated(#[trigger] dbv[i]) by {
        assert(db[i]@ == settled(results[i]));
        assert(!results[i].result.spec_succeeded());
    }
    lemma_unrotated_no_updates(dbv, ptype, keyring);
}

proof fn lemma_unrotated_no_updates(entries: Seq<EntryView>, ptype: ProfileTypes, keyring: Option<Seq<char>>)
    requires
        forall|i: int| 0 <= i < entries.len() ==> !is_rotated(#[trigger] entries[i]),
    ensures
        chrome_updates(entries, ptype, keyring) == Ok::<Seq<(Seq<u8>, Seq<char>, Seq<char>)>, Error>(Seq::empty()),
    decreases entries.len(),
{
    if entries.len() > 0 {
        let prev = entries.drop_last();
        assert forall|i: int| 0 <= i < prev.len() implies !is_rotated(#[trigger] prev[i]) by {
            assert(prev[i] == entries[i]);
        }
        lemma_unrotated_no_updates(prev, ptype, keyring);
        assert(entries[entries.len() - 1] == entries.last());
    }
}

/// Why the keyring gave no passphrase for the browser.
#[derive(Debug, Clone, PartialEq, Eq)]
pub enum KeyringError {
    /// No secret of the keyring belongs to the browser, or it is empty.
    PasswordNotPresent,
    /// The browser's secret is not UTF-8 text.
    StringConversionError,
}

/// The attribute text that marks a keyring secret as Chrome's.
pub const CHROME_MARK: &'static str = "application\": \"chrome";

/// The attribute text that marks a keyring secret as Chromium's.
pub const CHROMIUM_MARK: &'static str = "application\": \"chromium";

/// Whether a keyring secret's attributes mark it as the browser's.
pub open spec fn is_browser_secret(label: Seq<char>) -> bool {
    contains_text(label, CHROME_MARK@) || contains_text(label, CHROMIUM_MARK@)
}

/// The browser's passphrase among the keyring's secrets, each given as its
/// attribute text and its bytes: the first secret marked as the browser's,
/// which must be non-empty UTF-8 text.
pub open spec fn chrome_password_of(secrets: Seq<(String, Vec<u8>)>) -> Result<Seq<char>, KeyringError> {
    if exists|i: int| 0 <= i < secrets.len() && is_browser_secret(#[trigger] secrets[i].0@) {
        let i = choose|i: int|
            0 <= i < secrets.len() && is_browser_secret(secrets[i].0@) && forall|k: int|
                0 <= k < i ==> !is_browser_secret(#[trigger] secrets[k].0@);
        let b = secrets[i].1@;
        if !valid_utf8(b) {
            Err(KeyringError::StringConversionError)
        } else if decode_utf8(b).len() == 0 {
            Err(KeyringError::PasswordNotPresent)
        } else {
            Ok(decode_utf8(b))
        }
    } else {
        Err(KeyringError::PasswordNotPresent)
    }
}

/// Picks the browser's passphrase out of the keyring's secrets.
pub fn select_chrome_password(secrets: &Vec<(String, Vec<u8>)>) -> (r: Result<String, KeyringError>)
    ensures
        match r {
            Ok(s) => chrome_password_of(secrets@) == Ok::<Seq<char>, KeyringError>(s@),
            Err(e) => chrome_password_of(secrets@) == Err::<Seq<char>, KeyringError>(e),
        },
{
    for i in 0..secrets.len()
        invariant
            forall|k: int| 0 <= k < i ==> !is_browser_secret(#[trigger] secrets@[k].0@),
    {
        let label = secrets[i].0.as_str();
        if contains_str(label, CHROME_MARK) || contains_str(label, CHROMIUM_MARK) {
            assert(is_browser_secret(secrets@[i as int].0@));
            let ghost j = choose|j: int|
                0 <= j < secrets@.len() && is_browser_secret(secrets@[j].0@) && forall|k: int|
                    0 <= k < j ==> !is_browser_secret(#[trigger] secrets@[k].0@);
            assert(j == i) by {
                if j < i {
                } else if j > i {
                    assert(!is_browser_secret(secrets@[i as int].0@));
                }
            }
            return match utf8_text(secrets[i].1.as_slice()) {
                None => Err(KeyringError::StringConversionError),
                Some(s) => {
                    if s.as_str().unicode_len() == 0 {
                        Err(KeyringError::PasswordNotPresent)
                    } else {
                        Ok(s)
                    }
                },
            };
        }
    }
    Err(KeyringError::PasswordNotPresent)
}

} // verus!

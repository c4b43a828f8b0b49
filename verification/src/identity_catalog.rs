//! Public TZAP identity catalog and purpose-specific secret-store seams.
//!
//! The catalog holds public metadata and opaque references only; private
//! key bytes live in a secret store, addressed by purpose and reference.
use crate::text::{chars_of, concat_chars, str_eq, string_from_chars, starts_with, slice_chars, contains_char, chars_contain, contains_seq};
use base64::Engine;
use rand::Rng;
use vstd::prelude::*;

verus! {

pub const PUBLIC_CATALOG_SCHEMA_VERSION: u64 = 1;

pub const PUBLIC_CATALOG_FILE_SUFFIX: &'static str = ".identity-catalog.json";

/// The prefix of every secret reference.
pub const SECRET_REFERENCE_PREFIX: &'static str = "secret_";

/// Fills `count` bytes from `rand::rng()`, the thread-local generator seeded
/// by the operating system. The bytes are random: the contract states only
/// how many there are.
#[verifier::external_body]
fn random_bytes(count: usize) -> (r: Vec<u8>)
    ensures
        r@.len() == count,
{
    let mut bytes = vec![0u8; count];
    rand::rng().fill_bytes(&mut bytes);
    bytes
}

/// The URL-safe base64 digit of the six-bit value `v`: `A`-`Z`, `a`-`z`,
/// `0`-`9`, `-`, `_`.
pub open spec fn base64_url_digit(v: int) -> char {
    if v < 26 {
        (65 + v) as char
    } else if v < 52 {
        (97 + v - 26) as char
    } else if v < 62 {
        (48 + v - 52) as char
    } else if v == 62 {
        '-'
    } else {
        '_'
    }
}

/// The unpadded URL-safe base64 text of `bytes`: each group of three bytes
/// gives four digits of six bits each, most significant first; a final
/// group of two bytes gives three digits and one byte gives two, the
/// unused low bits zero.
pub open spec fn base64_url_no_pad_of(bytes: Seq<u8>) -> Seq<char>
    decreases bytes.len(),
{
    if bytes.len() == 0 {
        Seq::empty()
    } else if bytes.len() == 1 {
        seq![base64_url_digit((bytes[0] as int) / 4), base64_url_digit(((bytes[0] as int) % 4) * 16)]
    } else if bytes.len() == 2 {
        seq![
            base64_url_digit((bytes[0] as int) / 4),
            base64_url_digit(((bytes[0] as int) % 4) * 16 + (bytes[1] as int) / 16),
            base64_url_digit(((bytes[1] as int) % 16) * 4),
        ]
    } else {
        seq![
            base64_url_digit((bytes[0] as int) / 4),
            base64_url_digit(((bytes[0] as int) % 4) * 16 + (bytes[1] as int) / 16),
            base64_url_digit(((bytes[1] as int) % 16) * 4 + (bytes[2] as int) / 64),
            base64_url_digit((bytes[2] as int) % 64),
        ] + base64_url_no_pad_of(bytes.subrange(3, bytes.len() as int))
    }
}

/// Calls `URL_SAFE_NO_PAD.encode`. The contract says that the text is the
/// encoding defined above, and that the same engine's decoding of it gives
/// `bytes` back.
#[verifier::external_body]
pub(crate) fn base64_url_no_pad(bytes: &[u8]) -> (r: String)
    ensures
        r@ == base64_url_no_pad_of(bytes@),
        crate::identity_legacy::base64_url_no_pad_decode_of(r@) == Some(bytes@),
{
    base64::engine::general_purpose::URL_SAFE_NO_PAD.encode(bytes)
}

/// A random identifier: 16 random bytes in unpadded URL-safe base64.
fn random_identifier() -> (r: String)
    ensures
        r@.len() > 0,
{
    let bytes = random_bytes(16);
    base64_url_no_pad(&bytes)
}

/// Whether `value` is a well-formed secret reference: `secret_` and at least
/// one more character.
pub open spec fn valid_secret_reference(value: Seq<char>) -> bool {
    starts_with(value, SECRET_REFERENCE_PREFIX@) && value.len() > SECRET_REFERENCE_PREFIX@.len()
}

proof fn lemma_prefix_literal()
    ensures
        SECRET_REFERENCE_PREFIX@ == seq!['s', 'e', 'c', 'r', 'e', 't', '_'],
        SECRET_REFERENCE_PREFIX@.len() == 7,
{
    reveal_strlit("secret_");
}

/// An opaque reference to material in a secret store.
#[derive(Debug, Clone)]
pub struct TzapSecretRef(String);

impl View for TzapSecretRef {
    type V = Seq<char>;

    closed spec fn view(&self) -> Seq<char> {
        self.0@
    }
}

impl TzapSecretRef {
    /// Creates a new non-discoverable reference: `secret_` and 24 random
    /// bytes in unpadded URL-safe base64.
    pub fn generate() -> (r: Self)
        ensures
            valid_secret_reference(r@),
    {
        let bytes = random_bytes(24);
        let encoded = base64_url_no_pad(&bytes);
        let prefix = chars_of(SECRET_REFERENCE_PREFIX);
        let body = chars_of(encoded.as_str());
        let all = concat_chars(&prefix, &body);
        proof {
            lemma_prefix_literal();
            assert(all@.subrange(0, 7) =~= SECRET_REFERENCE_PREFIX@);
        }
        TzapSecretRef(string_from_chars(&all))
    }

    /// Another reference with the same text.
    pub fn duplicate(&self) -> (r: Self)
        ensures
            r@ == self@,
    {
        TzapSecretRef(self.0.clone())
    }

    /// The reference's text.
    pub fn as_str(&self) -> (r: &str)
        ensures
            r@ == self@,
    {
        self.0.as_str()
    }

    /// Accepts `value` as a reference when it is well formed.
    pub fn parse(value: String) -> (r: Result<Self, TzapSecretStoreError>)
        ensures
            valid_secret_reference(value@) ==> (r matches Ok(s) && s@ == value@),
            !valid_secret_reference(value@) ==> (r matches Err(TzapSecretStoreError::InvalidReference)),
    {
        let chars = chars_of(value.as_str());
        let prefix = chars_of(SECRET_REFERENCE_PREFIX);
        proof {
            lemma_prefix_literal();
        }
        if crate::text::chars_start_with(&chars, &prefix) && chars.len() > prefix.len() {
            Ok(TzapSecretRef(value))
        } else {
            Err(TzapSecretStoreError::InvalidReference)
        }
    }
}

/// What a secret serves for.
#[derive(Debug, Clone, Copy, PartialEq, Eq, Hash, Structural)]
pub enum TzapSecretPurpose {
    SigningKey,
    RecipientKey,
    Session,
}

/// The wire name of a purpose.
pub open spec fn purpose_name(p: TzapSecretPurpose) -> Seq<char> {
    match p {
        TzapSecretPurpose::SigningKey => "signing_key"@,
        TzapSecretPurpose::RecipientKey => "recipient_key"@,
        TzapSecretPurpose::Session => "session"@,
    }
}

impl TzapSecretPurpose {
    /// The purpose's wire name.
    pub fn as_str(self) -> (r: &'static str)
        ensures
            r@ == purpose_name(self),
    {
        match self {
            TzapSecretPurpose::SigningKey => "signing_key",
            TzapSecretPurpose::RecipientKey => "recipient_key",
            TzapSecretPurpose::Session => "session",
        }
    }
}

/// Secret store errors.
#[derive(Debug, Clone)]
pub enum TzapSecretStoreError {
    Unavailable,
    Locked,
    Denied,
    Corrupt,
    Missing { reference: TzapSecretRef },
    InvalidReference,
}

/// The message of a secret store error.
pub open spec fn secret_error_text(e: TzapSecretStoreError) -> Seq<char> {
    match e {
        TzapSecretStoreError::Unavailable => "secure secret store is unavailable"@,
        TzapSecretStoreError::Locked => "secure secret store is locked"@,
        TzapSecretStoreError::Denied => "secure secret store access was denied"@,
        TzapSecretStoreError::Corrupt => "secure secret store data is corrupt"@,
        TzapSecretStoreError::Missing { reference } => "secure secret is missing: "@ + reference@,
        TzapSecretStoreError::InvalidReference => "secure secret reference is invalid"@,
    }
}

impl TzapSecretStoreError {
    /// The error's message.
    pub fn to_text(&self) -> (r: String)
        ensures
            r@ == secret_error_text(*self),
    {
        match self {
            TzapSecretStoreError::Unavailable => "secure secret store is unavailable".to_string(),
            TzapSecretStoreError::Locked => "secure secret store is locked".to_string(),
            TzapSecretStoreError::Denied => "secure secret store access was denied".to_string(),
            TzapSecretStoreError::Corrupt => "secure secret store data is corrupt".to_string(),
            TzapSecretStoreError::Missing { reference } => {
                let a = chars_of("secure secret is missing: ");
                let b = chars_of(reference.as_str());
                string_from_chars(&concat_chars(&a, &b))
            },
            TzapSecretStoreError::InvalidReference => "secure secret reference is invalid".to_string(),
        }
    }
}

/// Purpose-specific secure material interface. Implementations must not fall
/// back to a plaintext file when the native store is unavailable or locked.
pub trait TzapSecretMaterialStore {
    /// Whether the store's value holds its material, so that `secrets`
    /// describes it. A store over outside storage, such as a platform
    /// keychain, does not: what it holds is not part of its value, and the
    /// contracts below then state nothing of it.
    open spec fn keeps_secrets(&self) -> bool {
        false
    }

    /// The material the store holds, by purpose and reference, where it
    /// keeps it.
    open spec fn secrets(&self) -> Map<(TzapSecretPurpose, Seq<char>), Seq<u8>> {
        Map::empty()
    }

    /// Stores material under a new reference.
    fn put(&mut self, purpose: TzapSecretPurpose, material: Vec<u8>) -> (r: Result<TzapSecretRef, TzapSecretStoreError>)
        ensures
            final(self).keeps_secrets() == old(self).keeps_secrets(),
            old(self).keeps_secrets() ==> (r matches Ok(reference) ==> final(self).secrets() == old(self).secrets().insert(
                (purpose, reference@),
                material@,
            )),
    ;

    /// Stores material under a caller-generated reference, so that a
    /// crash-recoverable catalog transaction can record the reference before
    /// the secret is written and retry the same write later.
    fn put_at(&mut self, purpose: TzapSecretPurpose, reference: &TzapSecretRef, material: Vec<u8>) -> (r: Result<
        (),
        TzapSecretStoreError,
    >)
        ensures
            final(self).keeps_secrets() == old(self).keeps_secrets(),
            old(self).keeps_secrets() ==> (r is Ok ==> final(self).secrets() == old(self).secrets().insert((purpose, reference@), material@)),
    ;

    /// The material stored under the reference; `Missing` exactly when there
    /// is none.
    fn resolve(&self, purpose: TzapSecretPurpose, reference: &TzapSecretRef) -> (r: Result<Vec<u8>, TzapSecretStoreError>)
        ensures
            self.keeps_secrets() ==> (r matches Ok(m) ==> self.secrets().dom().contains((purpose, reference@)) && m@ == self.secrets()[(
                purpose,
                reference@,
            )]),
            self.keeps_secrets() && !self.secrets().dom().contains((purpose, reference@)) ==> (r matches Err(
                TzapSecretStoreError::Missing { reference: missing },
            ) && missing@ == reference@),
            self.keeps_secrets() ==> (r matches Err(TzapSecretStoreError::Missing { .. }) ==> !self.secrets().dom().contains(
                (purpose, reference@),
            )),
    ;

    /// Removes the material stored under the reference; a failed delete
    /// leaves the store as it was.
    fn delete(&mut self, purpose: TzapSecretPurpose, reference: &TzapSecretRef) -> (r: Result<(), TzapSecretStoreError>)
        ensures
            final(self).keeps_secrets() == old(self).keeps_secrets(),
            old(self).keeps_secrets() ==> (r is Ok ==> final(self).secrets() == old(self).secrets().remove((purpose, reference@))),
            old(self).keeps_secrets() ==> (r is Err ==> final(self).secrets() == old(self).secrets()),
    ;
}

/// One stored secret.
#[derive(Debug, Clone)]
pub struct SecretEntry {
    pub purpose: TzapSecretPurpose,
    pub reference: TzapSecretRef,
    pub material: Vec<u8>,
}

/// The key a stored secret is found by.
pub open spec fn secret_key(e: SecretEntry) -> (TzapSecretPurpose, Seq<char>) {
    (e.purpose, e.reference@)
}

/// Whether some entry has the key.
pub open spec fn has_key(s: Seq<SecretEntry>, k: (TzapSecretPurpose, Seq<char>)) -> bool {
    exists|i: int| 0 <= i < s.len() && secret_key(#[trigger] s[i]) == k
}

/// The secrets the entries hold, by key.
pub open spec fn secrets_map(s: Seq<SecretEntry>) -> Map<(TzapSecretPurpose, Seq<char>), Seq<u8>> {
    Map::new(
        |k: (TzapSecretPurpose, Seq<char>)| has_key(s, k),
        |k: (TzapSecretPurpose, Seq<char>)| s[choose|i: int| 0 <= i < s.len() && secret_key(#[trigger] s[i]) == k].material@,
    )
}

/// No two entries share a key.
pub open spec fn keys_distinct(s: Seq<SecretEntry>) -> bool {
    forall|i: int, j: int| 0 <= i < j < s.len() ==> secret_key(#[trigger] s[i]) != secret_key(#[trigger] s[j])
}

proof fn lemma_secret_lookup(s: Seq<SecretEntry>, i: int)
    requires
        keys_distinct(s),
        0 <= i < s.len(),
    ensures
        secrets_map(s).dom().contains(secret_key(s[i])),
        secrets_map(s)[secret_key(s[i])] == s[i].material@,
{
    let k = secret_key(s[i]);
    assert(has_key(s, k));
    let j = choose|j: int| 0 <= j < s.len() && secret_key(#[trigger] s[j]) == k;
    if j != i {
        if j < i {
            assert(secret_key(s[j]) != secret_key(s[i]));
        } else {
            assert(secret_key(s[i]) != secret_key(s[j]));
        }
    }
}

/// An in-memory secret store.
#[derive(Debug)]
pub struct InMemoryTzapSecretMaterialStore {
    entries: Vec<SecretEntry>,
}

impl View for InMemoryTzapSecretMaterialStore {
    type V = Map<(TzapSecretPurpose, Seq<char>), Seq<u8>>;

    closed spec fn view(&self) -> Map<(TzapSecretPurpose, Seq<char>), Seq<u8>> {
        secrets_map(self.entries@)
    }
}

impl InMemoryTzapSecretMaterialStore {
    /// The store's invariant: no two entries share a key.
    #[verifier::type_invariant]
    spec fn wf(&self) -> bool {
        keys_distinct(self.entries@)
    }

    /// An empty store.
    pub fn new() -> (r: Self)
        ensures
            r@ == Map::<(TzapSecretPurpose, Seq<char>), Seq<u8>>::empty(),
            r.keeps_secrets(),
    {
        let entries: Vec<SecretEntry> = Vec::new();
        assert(keys_distinct(entries@));
        let r = InMemoryTzapSecretMaterialStore { entries };
        assert(r@ =~= Map::<(TzapSecretPurpose, Seq<char>), Seq<u8>>::empty());
        r
    }


}

fn secret_position(entries: &Vec<SecretEntry>, purpose: TzapSecretPurpose, reference: &TzapSecretRef) -> (r: Option<usize>)
    ensures
        match r {
            Some(i) => i < entries@.len() && secret_key(entries@[i as int]) == (purpose, reference@),
            None => !has_key(entries@, (purpose, reference@)),
        },
{
    let mut i: usize = 0;
    while i < entries.len()
        invariant
            i <= entries@.len(),
            forall|j: int| 0 <= j < i ==> secret_key(#[trigger] entries@[j]) != (purpose, reference@),
        decreases entries@.len() - i,
    {
        let e = &entries[i];
        if e.purpose == purpose && str_eq(e.reference.as_str(), reference.as_str()) {
            return Some(i);
        }
        i += 1;
    }
    None
}

fn store_secret(entries: &mut Vec<SecretEntry>, purpose: TzapSecretPurpose, reference: &TzapSecretRef, material: Vec<u8>)
    requires
        keys_distinct(old(entries)@),
    ensures
        keys_distinct(final(entries)@),
        secrets_map(final(entries)@) == secrets_map(old(entries)@).insert((purpose, reference@), material@),
{
    let ghost before = entries@;
    let entry = SecretEntry { purpose, reference: TzapSecretRef(reference.as_str().to_string()), material };
    assert(secret_key(entry) == (purpose, reference@));
    match secret_position(entries, purpose, reference) {
        Some(i) => {
            entries.set(i, entry);
            let ghost after = entries@;
            assert(after == before.update(i as int, entry));
            assert(keys_distinct(after)) by {
                assert forall|a: int, b: int| 0 <= a < b < after.len() implies secret_key(#[trigger] after[a])
                    != secret_key(#[trigger] after[b]) by {
                    if a != i && b != i {
                        assert(after[a] == before[a] && after[b] == before[b]);
                    } else if a == i {
                        assert(after[b] == before[b]);
                    } else {
                        assert(after[a] == before[a]);
                    }
                }
            }
            assert(secrets_map(after) =~= secrets_map(before).insert((purpose, reference@), material@)) by {
                assert forall|k: (TzapSecretPurpose, Seq<char>)| #[trigger] has_key(after, k) == (has_key(before, k) || k == (
                    purpose,
                    reference@,
                )) by {
                    if has_key(before, k) {
                        let j = choose|j: int| 0 <= j < before.len() && secret_key(#[trigger] before[j]) == k;
                        if j == i {
                            assert(secret_key(after[i as int]) == k);
                        } else {
                            assert(after[j] == before[j]);
                        }
                    }
                    if has_key(after, k) {
                        let j = choose|j: int| 0 <= j < after.len() && secret_key(#[trigger] after[j]) == k;
                        if j != i {
                            assert(after[j] == before[j]);
                        }
                    }
                    if k == (purpose, reference@) {
                        assert(secret_key(after[i as int]) == k);
                    }
                }
                assert forall|k: (TzapSecretPurpose, Seq<char>)| #[trigger] secrets_map(after).dom().contains(k) implies secrets_map(
                    after,
                )[k] == secrets_map(before).insert((purpose, reference@), material@)[k] by {
                    let j = choose|j: int| 0 <= j < after.len() && secret_key(#[trigger] after[j]) == k;
                    lemma_secret_lookup(after, j);
                    if j != i {
                        assert(after[j] == before[j]);
                        lemma_secret_lookup(before, j);
                    }
                }
            }
        },
        None => {
            entries.push(entry);
            let ghost after = entries@;
            assert(after == before.push(entry));
            assert(keys_distinct(after)) by {
                assert forall|a: int, b: int| 0 <= a < b < after.len() implies secret_key(#[trigger] after[a])
                    != secret_key(#[trigger] after[b]) by {
                    assert(after[a] == before[a]);
                    if b < before.len() {
                        assert(after[b] == before[b]);
                    } else {
                        assert(secret_key(before[a]) != (purpose, reference@));
                    }
                }
            }
            assert(secrets_map(after) =~= secrets_map(before).insert((purpose, reference@), material@)) by {
                assert forall|k: (TzapSecretPurpose, Seq<char>)| #[trigger] has_key(after, k) == (has_key(before, k) || k == (
                    purpose,
                    reference@,
                )) by {
                    if has_key(before, k) {
                        let j = choose|j: int| 0 <= j < before.len() && secret_key(#[trigger] before[j]) == k;
                        assert(after[j] == before[j]);
                    }
                    if has_key(after, k) {
                        let j = choose|j: int| 0 <= j < after.len() && secret_key(#[trigger] after[j]) == k;
                        if j < before.len() {
                            assert(after[j] == before[j]);
                        }
                    }
                    if k == (purpose, reference@) {
                        assert(secret_key(after[before.len() as int]) == k);
                    }
                }
                assert forall|k: (TzapSecretPurpose, Seq<char>)| #[trigger] secrets_map(after).dom().contains(k) implies secrets_map(
                    after,
                )[k] == secrets_map(before).insert((purpose, reference@), material@)[k] by {
                    let j = choose|j: int| 0 <= j < after.len() && secret_key(#[trigger] after[j]) == k;
                    lemma_secret_lookup(after, j);
                    if j < before.len() {
                        assert(after[j] == before[j]);
                        lemma_secret_lookup(before, j);
                    }
                }
            }
        },
    }
}

proof fn lemma_remove_secret(before: Seq<SecretEntry>, i: int)
    requires
        keys_distinct(before),
        0 <= i < before.len(),
    ensures
        keys_distinct(before.remove(i)),
        secrets_map(before.remove(i)) == secrets_map(before).remove(secret_key(before[i])),
{
    let after = before.remove(i);
    let key = secret_key(before[i]);
    assert forall|j: int| 0 <= j < after.len() implies #[trigger] after[j] == (if j < i {
        before[j]
    } else {
        before[j + 1]
    }) by {}
    assert forall|a: int, b: int| 0 <= a < b < after.len() implies secret_key(#[trigger] after[a]) != secret_key(
        #[trigger] after[b],
    ) by {
        let a2 = if a < i { a } else { a + 1 };
        let b2 = if b < i { b } else { b + 1 };
        assert(after[a] == before[a2] && after[b] == before[b2]);
    }
    assert forall|k: (TzapSecretPurpose, Seq<char>)| #[trigger] has_key(after, k) == (has_key(before, k) && k != key) by {
        if has_key(after, k) {
            let j = choose|j: int| 0 <= j < after.len() && secret_key(#[trigger] after[j]) == k;
            let j2 = if j < i { j } else { j + 1 };
            assert(after[j] == before[j2]);
            if k == key {
                if j2 < i {
                    assert(secret_key(before[j2]) != secret_key(before[i]));
                } else {
                    assert(secret_key(before[i]) != secret_key(before[j2]));
                }
            }
        }
        if has_key(before, k) && k != key {
            let j = choose|j: int| 0 <= j < before.len() && secret_key(#[trigger] before[j]) == k;
            assert(j != i);
            let j2 = if j < i { j } else { j - 1 };
            assert(after[j2] == before[j]);
        }
    }
    assert(secrets_map(after) =~= secrets_map(before).remove(key)) by {
        assert forall|k: (TzapSecretPurpose, Seq<char>)| #[trigger] secrets_map(after).dom().contains(k) implies secrets_map(
            after,
        )[k] == secrets_map(before)[k] by {
            let j = choose|j: int| 0 <= j < after.len() && secret_key(#[trigger] after[j]) == k;
            let j2 = if j < i { j } else { j + 1 };
            assert(after[j] == before[j2]);
            lemma_secret_lookup(after, j);
            lemma_secret_lookup(before, j2);
        }
    }
}

impl TzapSecretMaterialStore for InMemoryTzapSecretMaterialStore {
    /// The store holds its material.
    open spec fn keeps_secrets(&self) -> bool {
        true
    }

    /// The store's contents.
    open spec fn secrets(&self) -> Map<(TzapSecretPurpose, Seq<char>), Seq<u8>> {
        self@
    }

    /// Refuses empty material; otherwise stores it under a fresh reference.
    fn put(&mut self, purpose: TzapSecretPurpose, material: Vec<u8>) -> (r: Result<TzapSecretRef, TzapSecretStoreError>)
        ensures
            material@.len() == 0 ==> (r matches Err(TzapSecretStoreError::Corrupt) && final(self)@ == old(self)@),
            material@.len() > 0 ==> (r matches Ok(reference) && valid_secret_reference(reference@) && final(self)@
                == old(self)@.insert((purpose, reference@), material@)),
    {
        proof {
            use_type_invariant(&*self);
        }
        if material.len() == 0 {
            return Err(TzapSecretStoreError::Corrupt);
        }
        let reference = TzapSecretRef::generate();
        let mut entries: Vec<SecretEntry> = Vec::new();
        std::mem::swap(&mut entries, &mut self.entries);
        store_secret(&mut entries, purpose, &reference, material);
        self.entries = entries;
        Ok(reference)
    }

    /// Refuses empty material; otherwise stores it under `reference`,
    /// replacing what was there.
    fn put_at(&mut self, purpose: TzapSecretPurpose, reference: &TzapSecretRef, material: Vec<u8>) -> (r: Result<
        (),
        TzapSecretStoreError,
    >)
        ensures
            material@.len() == 0 ==> (r matches Err(TzapSecretStoreError::Corrupt) && final(self)@ == old(self)@),
            material@.len() > 0 ==> (r is Ok && final(self)@ == old(self)@.insert((purpose, reference@), material@)),
    {
        proof {
            use_type_invariant(&*self);
        }
        if material.len() == 0 {
            return Err(TzapSecretStoreError::Corrupt);
        }
        let mut entries: Vec<SecretEntry> = Vec::new();
        std::mem::swap(&mut entries, &mut self.entries);
        store_secret(&mut entries, purpose, reference, material);
        self.entries = entries;
        Ok(())
    }

    /// The material stored under the reference, or `Missing`.
    fn resolve(&self, purpose: TzapSecretPurpose, reference: &TzapSecretRef) -> (r: Result<Vec<u8>, TzapSecretStoreError>)
        ensures
            self@.dom().contains((purpose, reference@)) ==> (r matches Ok(m) && m@ == self@[(purpose, reference@)]),
            !self@.dom().contains((purpose, reference@)) ==> (r matches Err(TzapSecretStoreError::Missing { reference: missing })
                && missing@ == reference@),
    {
        proof {
            use_type_invariant(self);
        }
        match secret_position(&self.entries, purpose, reference) {
            Some(i) => {
                proof {
                    lemma_secret_lookup(self.entries@, i as int);
                }
                Ok(self.entries[i].material.clone())
            },
            None => Err(TzapSecretStoreError::Missing { reference: TzapSecretRef(reference.as_str().to_string()) }),
        }
    }

    /// Removes the material stored under the reference, or reports it
    /// `Missing`.
    fn delete(&mut self, purpose: TzapSecretPurpose, reference: &TzapSecretRef) -> (r: Result<(), TzapSecretStoreError>)
        ensures
            old(self)@.dom().contains((purpose, reference@)) ==> (r is Ok && final(self)@ == old(self)@.remove(
                (purpose, reference@),
            )),
            !old(self)@.dom().contains((purpose, reference@)) ==> (r matches Err(
                TzapSecretStoreError::Missing { reference: missing },
            ) && missing@ == reference@ && final(self)@ == old(self)@),
    {
        proof {
            use_type_invariant(&*self);
        }
        match secret_position(&self.entries, purpose, reference) {
            Some(i) => {
                let mut entries: Vec<SecretEntry> = Vec::new();
                std::mem::swap(&mut entries, &mut self.entries);
                let ghost before = entries@;
                proof {
                    lemma_remove_secret(before, i as int);
                }
                entries.remove(i);
                self.entries = entries;
                Ok(())
            },
            None => Err(TzapSecretStoreError::Missing { reference: TzapSecretRef(reference.as_str().to_string()) }),
        }
    }
}

/// What a later resolve gives back of a write: material stored under a
/// reference is what resolving that reference returns.
pub proof fn lemma_resolve_returns_what_put_at_stored(
    store: Map<(TzapSecretPurpose, Seq<char>), Seq<u8>>,
    purpose: TzapSecretPurpose,
    reference: Seq<char>,
    material: Seq<u8>,
)
    ensures
        store.insert((purpose, reference), material).dom().contains((purpose, reference)),
        store.insert((purpose, reference), material)[(purpose, reference)] == material,
{
}

/// A signing identity's public record.
#[derive(Debug, Clone)]
pub struct TzapPublicSigningIdentityRecord {
    pub id: String,
    pub local_alias: Option<String>,
    pub certificate_id: Option<String>,
    pub certificate_sha256: Option<String>,
    pub issuer_certificate_sha256: Option<String>,
    pub issuer_key_identifier: Option<String>,
    pub serial_number: Option<String>,
    pub certificate_chain_der: Vec<Vec<u8>>,
    pub not_before_unix_seconds: Option<u64>,
    pub not_after_unix_seconds: Option<u64>,
    pub public_signer_id: Option<String>,
    pub public_org_id: Option<String>,
    pub public_device_id: Option<String>,
    pub assurance_level: Option<String>,
    pub sign_device_id: Option<String>,
    /// Creation time of the underlying signing key.
    pub signing_key_created_at_unix_seconds: Option<u64>,
    /// Key id of the record this identity was migrated from.
    pub legacy_key_id: Option<String>,
    pub metadata_version: Option<u64>,
    pub policy_oid: Option<String>,
    pub signing_key_ref: TzapSecretRef,
    pub lifecycle: String,
}

/// A recipient key's public record.
#[derive(Debug, Clone)]
pub struct TzapPublicRecipientKeyRecord {
    pub id: String,
    pub local_label: Option<String>,
    pub algorithm: String,
    pub public_key_der: Vec<u8>,
    pub fingerprint: String,
    pub private_key_ref: TzapSecretRef,
    pub lifecycle: String,
    pub created_at_unix_seconds: u64,
    pub retired_at_unix_seconds: Option<u64>,
}

/// A contact's public record.
#[derive(Debug, Clone)]
pub struct TzapPublicContactRecord {
    pub contact_id: String,
    pub display_name: String,
    pub signing_certificate_sha256: String,
    pub recipient_public_key_fingerprint: String,
    pub recipient_public_key_der: Vec<u8>,
    pub trust_source: String,
    pub verification_state: String,
    pub missing_status_caveat: bool,
    /// The contact card payload, as JSON text.
    pub contact_card_payload: String,
    pub accepted_at_unix_seconds: u64,
}

/// A cached certificate status.
#[derive(Debug, Clone)]
pub struct TzapPublicStatusCacheRecord {
    pub lookup_id: String,
    pub status: String,
    pub this_update: String,
    pub next_update: String,
}

/// Roots and issuers blocked in an emergency.
#[derive(Debug, Clone)]
pub struct TzapPublicEmergencyBlocklist {
    pub blocked_root_sha256: Vec<String>,
    pub blocked_issuer_sha256: Vec<String>,
    pub updated_at_unix_seconds: Option<u64>,
}

impl Default for TzapPublicEmergencyBlocklist {
    fn default() -> (r: Self)
        ensures
            r.blocked_root_sha256@.len() == 0,
            r.blocked_issuer_sha256@.len() == 0,
            r.updated_at_unix_seconds is None,
    {
        TzapPublicEmergencyBlocklist { blocked_root_sha256: Vec::new(), blocked_issuer_sha256: Vec::new(), updated_at_unix_seconds: None }
    }
}

/// One crash-recoverable catalog transaction that was recorded before its
/// side effects completed.
#[derive(Debug, Clone, Copy, PartialEq, Eq, Structural)]
pub enum PendingMutation {
    /// A legacy inventory migration wrote its public catalog first and is
    /// expected to finish copying secret material into the secure store.
    LegacyMigration { started_at_unix_seconds: u64 },
}

/// The wire marker of a pending mutation: `legacy-migration-<seconds>`.
pub open spec fn pending_wire(m: PendingMutation) -> Seq<char> {
    match m {
        PendingMutation::LegacyMigration { started_at_unix_seconds } => "legacy-migration-"@
            + crate::text::decimal_string(started_at_unix_seconds as nat),
    }
}

/// The pending mutation a wire marker stands for: `legacy-migration-` and a
/// `u64` as `str::parse` reads it.
pub open spec fn pending_from_wire(value: Seq<char>) -> Option<PendingMutation> {
    let prefix = "legacy-migration-"@;
    if starts_with(value, prefix) {
        match crate::text::parse_u64_spec(value.subrange(prefix.len() as int, value.len() as int)) {
            Some(n) => Some(PendingMutation::LegacyMigration { started_at_unix_seconds: n }),
            None => None,
        }
    } else {
        None
    }
}

impl PendingMutation {
    /// The mutation's wire marker.
    pub fn wire_value(&self) -> (r: String)
        ensures
            r@ == pending_wire(*self),
    {
        match self {
            PendingMutation::LegacyMigration { started_at_unix_seconds } => {
                let a = chars_of("legacy-migration-");
                let b = crate::text::decimal_chars(*started_at_unix_seconds);
                string_from_chars(&concat_chars(&a, &b))
            },
        }
    }

    /// Reads a wire marker back (`None` for an unknown or malformed one).
    pub fn from_wire(value: &str) -> (r: Option<PendingMutation>)
        ensures
            r == pending_from_wire(value@),
    {
        let chars = chars_of(value);
        let prefix = chars_of("legacy-migration-");
        if !crate::text::chars_start_with(&chars, &prefix) {
            return None;
        }
        let rest = slice_chars(&chars, prefix.len(), chars.len());
        match crate::text::parse_u64_chars(&rest) {
            Some(n) => Some(PendingMutation::LegacyMigration { started_at_unix_seconds: n }),
            None => None,
        }
    }
}

/// Reading back a pending mutation's wire marker gives the mutation, so
/// catalogs written with the marker keep loading.
pub proof fn lemma_pending_wire_round_trip(m: PendingMutation)
    ensures
        pending_from_wire(pending_wire(m)) == Some(m),
{
    match m {
        PendingMutation::LegacyMigration { started_at_unix_seconds } => {
            let prefix = "legacy-migration-"@;
            let digits = crate::text::decimal_string(started_at_unix_seconds as nat);
            crate::text::lemma_decimal_string_digits(started_at_unix_seconds as nat);
            let wire = prefix + digits;
            assert(wire.subrange(0, prefix.len() as int) =~= prefix);
            assert(wire.subrange(prefix.len() as int, wire.len() as int) =~= digits);
            assert(digits[0] != '+') by {
                assert(crate::text::is_ascii_digit(digits[0]));
            }
            assert(crate::text::all_ascii_digits(digits));
        },
    }
}

/// The public identity catalog: metadata and secret references only.
#[derive(Debug, Clone)]
pub struct TzapIdentityCatalog {
    pub schema_version: u64,
    pub catalog_id: String,
    pub revision: u64,
    pub default_signing_identity_id: Option<String>,
    pub signing_identities: Vec<TzapPublicSigningIdentityRecord>,
    pub recipient_keys: Vec<TzapPublicRecipientKeyRecord>,
    pub contacts: Vec<TzapPublicContactRecord>,
    pub status_cache: Vec<TzapPublicStatusCacheRecord>,
    pub emergency_blocklist: TzapPublicEmergencyBlocklist,
    pub pending_mutations: Vec<PendingMutation>,
}

/// Whether two positions of `ids` hold the same text.
pub open spec fn has_duplicate(ids: Seq<Seq<char>>) -> bool {
    exists|i: int, j: int| 0 <= i < j < ids.len() && #[trigger] ids[i] == #[trigger] ids[j]
}

pub open spec fn signing_ids(c: TzapIdentityCatalog) -> Seq<Seq<char>> {
    Seq::new(c.signing_identities@.len(), |i: int| c.signing_identities@[i].id@)
}

pub open spec fn recipient_ids(c: TzapIdentityCatalog) -> Seq<Seq<char>> {
    Seq::new(c.recipient_keys@.len(), |i: int| c.recipient_keys@[i].id@)
}

pub open spec fn contact_ids(c: TzapIdentityCatalog) -> Seq<Seq<char>> {
    Seq::new(c.contacts@.len(), |i: int| c.contacts@[i].contact_id@)
}

/// The first empty required field of a signing identity record.
pub open spec fn signing_record_gap(r: TzapPublicSigningIdentityRecord) -> Option<Seq<char>> {
    if r.id@.len() == 0 {
        Some("signing_identities.id"@)
    } else if r.signing_key_ref@.len() == 0 {
        Some("signing_identities.signing_key_ref"@)
    } else if r.lifecycle@.len() == 0 {
        Some("signing_identities.lifecycle"@)
    } else {
        None
    }
}

/// The first empty required field of a recipient key record.
pub open spec fn recipient_record_gap(r: TzapPublicRecipientKeyRecord) -> Option<Seq<char>> {
    if r.id@.len() == 0 {
        Some("recipient_keys.id"@)
    } else if r.algorithm@.len() == 0 {
        Some("recipient_keys.algorithm"@)
    } else if r.fingerprint@.len() == 0 {
        Some("recipient_keys.fingerprint"@)
    } else if r.private_key_ref@.len() == 0 {
        Some("recipient_keys.private_key_ref"@)
    } else if r.public_key_der@.len() == 0 {
        Some("recipient_keys.public_key_der"@)
    } else {
        None
    }
}

/// The first gap among records, in order.
pub open spec fn first_signing_gap(rs: Seq<TzapPublicSigningIdentityRecord>) -> Option<Seq<char>>
    decreases rs.len(),
{
    if rs.len() == 0 {
        None
    } else if signing_record_gap(rs[0]) is Some {
        signing_record_gap(rs[0])
    } else {
        first_signing_gap(rs.drop_first())
    }
}

/// The first gap among records, in order.
pub open spec fn first_recipient_gap(rs: Seq<TzapPublicRecipientKeyRecord>) -> Option<Seq<char>>
    decreases rs.len(),
{
    if rs.len() == 0 {
        None
    } else if recipient_record_gap(rs[0]) is Some {
        recipient_record_gap(rs[0])
    } else {
        first_recipient_gap(rs.drop_first())
    }
}

/// The field that makes a catalog invalid, checked in this order: the
/// schema version, the catalog id, duplicate ids, the default identity, then
/// each record's required fields; `None` for a valid catalog.
pub open spec fn catalog_defect(c: TzapIdentityCatalog) -> Option<Seq<char>> {
    if c.schema_version != PUBLIC_CATALOG_SCHEMA_VERSION {
        Some("schema_version"@)
    } else if c.catalog_id@.len() == 0 {
        Some("catalog_id"@)
    } else if has_duplicate(signing_ids(c)) {
        Some("signing_identities.id"@)
    } else if has_duplicate(recipient_ids(c)) {
        Some("recipient_keys.id"@)
    } else if has_duplicate(contact_ids(c)) {
        Some("contacts.contact_id"@)
    } else if c.default_signing_identity_id matches Some(d) && !signing_ids(c).contains(d@) {
        Some("default_signing_identity_id"@)
    } else if first_signing_gap(c.signing_identities@) is Some {
        first_signing_gap(c.signing_identities@)
    } else {
        first_recipient_gap(c.recipient_keys@)
    }
}

/// Identity catalog errors.
#[derive(Debug, Clone)]
pub enum TzapIdentityCatalogError {
    InvalidAccountKey,
    InvalidCatalog { field: &'static str },
    RevisionConflict { expected: Option<u64>, actual: Option<u64> },
    ConcurrentWrite,
    /// An I/O failure, by the name of its kind.
    Io(String),
    Json(String),
    Legacy(String),
    Secret(TzapSecretStoreError),
}

pub(crate) fn invalid(field: &'static str) -> (r: TzapIdentityCatalogError)
    ensures
        r matches TzapIdentityCatalogError::InvalidCatalog { field: f } && f@ == field@,
{
    TzapIdentityCatalogError::InvalidCatalog { field }
}

fn first_duplicate(ids: &Vec<&str>) -> (r: bool)
    ensures
        r == has_duplicate(Seq::new(ids@.len(), |i: int| ids@[i]@)),
{
    let ghost view = Seq::new(ids@.len(), |i: int| ids@[i]@);
    let mut j: usize = 0;
    while j < ids.len()
        invariant
            j <= ids@.len(),
            view == Seq::new(ids@.len(), |i: int| ids@[i]@),
            forall|a: int, b: int| 0 <= a < b < j ==> #[trigger] view[a] != #[trigger] view[b],
        decreases ids@.len() - j,
    {
        let mut i: usize = 0;
        while i < j
            invariant
                i <= j,
                j < ids@.len(),
                view == Seq::new(ids@.len(), |k: int| ids@[k]@),
                forall|a: int| 0 <= a < i ==> #[trigger] view[a] != view[j as int],
            decreases j - i,
        {
            if str_eq(ids[i], ids[j]) {
                assert(view[i as int] == view[j as int]);
                return true;
            }
            i += 1;
        }
        j += 1;
    }
    false
}

fn signing_gap(r: &TzapPublicSigningIdentityRecord) -> (g: Option<&'static str>)
    ensures
        match signing_record_gap(*r) {
            Some(f) => g matches Some(x) && x@ == f,
            None => g is None,
        },
{
    if r.id.as_str().is_empty() {
        Some("signing_identities.id")
    } else if r.signing_key_ref.as_str().is_empty() {
        Some("signing_identities.signing_key_ref")
    } else if r.lifecycle.as_str().is_empty() {
        Some("signing_identities.lifecycle")
    } else {
        None
    }
}

fn recipient_gap(r: &TzapPublicRecipientKeyRecord) -> (g: Option<&'static str>)
    ensures
        match recipient_record_gap(*r) {
            Some(f) => g matches Some(x) && x@ == f,
            None => g is None,
        },
{
    if r.id.as_str().is_empty() {
        Some("recipient_keys.id")
    } else if r.algorithm.as_str().is_empty() {
        Some("recipient_keys.algorithm")
    } else if r.fingerprint.as_str().is_empty() {
        Some("recipient_keys.fingerprint")
    } else if r.private_key_ref.as_str().is_empty() {
        Some("recipient_keys.private_key_ref")
    } else if r.public_key_der.len() == 0 {
        Some("recipient_keys.public_key_der")
    } else {
        None
    }
}

impl TzapIdentityCatalog {
    /// An empty catalog with a fresh random id.
    pub fn empty() -> (r: Self)
        ensures
            r.schema_version == PUBLIC_CATALOG_SCHEMA_VERSION,
            r.catalog_id@.len() > 0,
            r.revision == 0,
            r.default_signing_identity_id is None,
            r.signing_identities@.len() == 0,
            r.recipient_keys@.len() == 0,
            r.contacts@.len() == 0,
            r.status_cache@.len() == 0,
            r.emergency_blocklist.blocked_root_sha256@.len() == 0,
            r.emergency_blocklist.blocked_issuer_sha256@.len() == 0,
            r.emergency_blocklist.updated_at_unix_seconds is None,
            r.pending_mutations@.len() == 0,
            catalog_defect(r) is None,
    {
        let id = random_identifier();
        let a = chars_of("catalog_");
        let b = chars_of(id.as_str());
        let catalog_id = string_from_chars(&concat_chars(&a, &b));
        let r = TzapIdentityCatalog {
            schema_version: PUBLIC_CATALOG_SCHEMA_VERSION,
            catalog_id,
            revision: 0,
            default_signing_identity_id: None,
            signing_identities: Vec::new(),
            recipient_keys: Vec::new(),
            contacts: Vec::new(),
            status_cache: Vec::new(),
            emergency_blocklist: TzapPublicEmergencyBlocklist::default(),
            pending_mutations: Vec::new(),
        };
        assert(signing_ids(r) =~= Seq::<Seq<char>>::empty());
        assert(recipient_ids(r) =~= Seq::<Seq<char>>::empty());
        assert(contact_ids(r) =~= Seq::<Seq<char>>::empty());
        r
    }

    /// Checks the catalog; the error names the first invalid field, in the
    /// order of [`catalog_defect`].
    pub fn validate(&self) -> (r: Result<(), TzapIdentityCatalogError>)
        ensures
            match catalog_defect(*self) {
                None => r is Ok,
                Some(f) => r matches Err(TzapIdentityCatalogError::InvalidCatalog { field }) && field@ == f,
            },
    {
        if self.schema_version != PUBLIC_CATALOG_SCHEMA_VERSION {
            return Err(invalid("schema_version"));
        }
        if self.catalog_id.as_str().is_empty() {
            return Err(invalid("catalog_id"));
        }
        let mut ids: Vec<&str> = Vec::new();
        let mut i: usize = 0;
        while i < self.signing_identities.len()
            invariant
                i <= self.signing_identities@.len(),
                ids@.len() == i,
                forall|k: int| 0 <= k < i ==> (#[trigger] ids@[k])@ == self.signing_identities@[k].id@,
            decreases self.signing_identities@.len() - i,
        {
            ids.push(self.signing_identities[i].id.as_str());
            i += 1;
        }
        assert(Seq::new(ids@.len(), |k: int| ids@[k]@) =~= signing_ids(*self));
        if first_duplicate(&ids) {
            return Err(invalid("signing_identities.id"));
        }
        let mut ids: Vec<&str> = Vec::new();
        let mut i: usize = 0;
        while i < self.recipient_keys.len()
            invariant
                i <= self.recipient_keys@.len(),
                ids@.len() == i,
                forall|k: int| 0 <= k < i ==> (#[trigger] ids@[k])@ == self.recipient_keys@[k].id@,
            decreases self.recipient_keys@.len() - i,
        {
            ids.push(self.recipient_keys[i].id.as_str());
            i += 1;
        }
        assert(Seq::new(ids@.len(), |k: int| ids@[k]@) =~= recipient_ids(*self));
        if first_duplicate(&ids) {
            return Err(invalid("recipient_keys.id"));
        }
        let mut ids: Vec<&str> = Vec::new();
        let mut i: usize = 0;
        while i < self.contacts.len()
            invariant
                i <= self.contacts@.len(),
                ids@.len() == i,
                forall|k: int| 0 <= k < i ==> (#[trigger] ids@[k])@ == self.contacts@[k].contact_id@,
            decreases self.contacts@.len() - i,
        {
            ids.push(self.contacts[i].contact_id.as_str());
            i += 1;
        }
        assert(Seq::new(ids@.len(), |k: int| ids@[k]@) =~= contact_ids(*self));
        if first_duplicate(&ids) {
            return Err(invalid("contacts.contact_id"));
        }
        if let Some(default_id) = &self.default_signing_identity_id {
            let mut found = false;
            let mut i: usize = 0;
            while i < self.signing_identities.len()
                invariant
                    i <= self.signing_identities@.len(),
                    found == (exists|k: int| 0 <= k < i && #[trigger] signing_ids(*self)[k] == default_id@),
                decreases self.signing_identities@.len() - i,
            {
                if str_eq(self.signing_identities[i].id.as_str(), default_id.as_str()) {
                    assert(signing_ids(*self)[i as int] == default_id@);
                    found = true;
                }
                i += 1;
            }
            if !found {
                return Err(invalid("default_signing_identity_id"));
            }
        }
        let ghost rs = self.signing_identities@;
        let ghost ks = self.recipient_keys@;
        assert(catalog_defect(*self) == if first_signing_gap(rs) is Some {
            first_signing_gap(rs)
        } else {
            first_recipient_gap(ks)
        });
        let mut i: usize = 0;
        assert(rs.subrange(0, rs.len() as int) =~= rs);
        while i < self.signing_identities.len()
            invariant
                rs == self.signing_identities@,
                ks == self.recipient_keys@,
                catalog_defect(*self) == if first_signing_gap(rs) is Some {
                    first_signing_gap(rs)
                } else {
                    first_recipient_gap(ks)
                },
                i <= rs.len(),
                first_signing_gap(rs.subrange(i as int, rs.len() as int)) == first_signing_gap(rs),
            decreases rs.len() - i,
        {
            let ghost tail = rs.subrange(i as int, rs.len() as int);
            assert(tail[0] == rs[i as int]);
            assert(tail.drop_first() =~= rs.subrange(i + 1, rs.len() as int));
            if let Some(field) = signing_gap(&self.signing_identities[i]) {
                assert(first_signing_gap(tail) == signing_record_gap(rs[i as int]));
                return Err(invalid(field));
            }
            i += 1;
        }
        assert(rs.subrange(i as int, rs.len() as int) =~= Seq::<TzapPublicSigningIdentityRecord>::empty());
        let mut i: usize = 0;
        assert(ks.subrange(0, ks.len() as int) =~= ks);
        while i < self.recipient_keys.len()
            invariant
                ks == self.recipient_keys@,
                catalog_defect(*self) == first_recipient_gap(ks),
                i <= ks.len(),
                first_recipient_gap(ks.subrange(i as int, ks.len() as int)) == first_recipient_gap(ks),
            decreases ks.len() - i,
        {
            let ghost tail = ks.subrange(i as int, ks.len() as int);
            assert(tail[0] == ks[i as int]);
            assert(tail.drop_first() =~= ks.subrange(i + 1, ks.len() as int));
            if let Some(field) = recipient_gap(&self.recipient_keys[i]) {
                assert(first_recipient_gap(tail) == recipient_record_gap(ks[i as int]));
                return Err(invalid(field));
            }
            i += 1;
        }
        assert(ks.subrange(i as int, ks.len() as int) =~= Seq::<TzapPublicRecipientKeyRecord>::empty());
        Ok(())
    }
}

/// `format!("{:?}", value)` of an optional count.
pub open spec fn debug_option_u64(value: Option<u64>) -> Seq<char> {
    match value {
        Some(n) => "Some("@ + crate::text::decimal_string(n as nat) + ")"@,
        None => "None"@,
    }
}

fn debug_option_u64_text(value: Option<u64>) -> (r: Vec<char>)
    ensures
        r@ == debug_option_u64(value),
{
    match value {
        Some(n) => {
            let a = chars_of("Some(");
            let b = crate::text::decimal_chars(n);
            let c = chars_of(")");
            concat_chars(&concat_chars(&a, &b), &c)
        },
        None => chars_of("None"),
    }
}

/// The message of an identity catalog error.
pub open spec fn catalog_error_text(e: TzapIdentityCatalogError) -> Seq<char> {
    match e {
        TzapIdentityCatalogError::InvalidAccountKey => "identity catalog account key is invalid"@,
        TzapIdentityCatalogError::InvalidCatalog { field } => "identity catalog field is invalid: "@ + field@,
        TzapIdentityCatalogError::RevisionConflict { expected, actual } => "identity catalog revision conflict (expected "@
            + debug_option_u64(expected) + ", actual "@ + debug_option_u64(actual) + ")"@,
        TzapIdentityCatalogError::ConcurrentWrite => "identity catalog is already being updated"@,
        TzapIdentityCatalogError::Io(kind) => "identity catalog I/O failed: "@ + kind@,
        TzapIdentityCatalogError::Json(m) => "identity catalog JSON is invalid: "@ + m@,
        TzapIdentityCatalogError::Legacy(m) => "legacy identity migration failed: "@ + m@,
        TzapIdentityCatalogError::Secret(e) => "secure secret migration failed: "@ + secret_error_text(e),
    }
}

fn join2(a: &str, b: &str) -> (r: String)
    ensures
        r@ == a@ + b@,
{
    string_from_chars(&concat_chars(&chars_of(a), &chars_of(b)))
}

impl TzapIdentityCatalogError {
    /// The error's message.
    pub fn to_text(&self) -> (r: String)
        ensures
            r@ == catalog_error_text(*self),
    {
        match self {
            TzapIdentityCatalogError::InvalidAccountKey => "identity catalog account key is invalid".to_string(),
            TzapIdentityCatalogError::InvalidCatalog { field } => join2("identity catalog field is invalid: ", field),
            TzapIdentityCatalogError::RevisionConflict { expected, actual } => {
                let a = chars_of("identity catalog revision conflict (expected ");
                let b = debug_option_u64_text(*expected);
                let c = chars_of(", actual ");
                let d = debug_option_u64_text(*actual);
                let e = chars_of(")");
                let all = concat_chars(&concat_chars(&concat_chars(&concat_chars(&a, &b), &c), &d), &e);
                string_from_chars(&all)
            },
            TzapIdentityCatalogError::ConcurrentWrite => "identity catalog is already being updated".to_string(),
            TzapIdentityCatalogError::Io(kind) => join2("identity catalog I/O failed: ", kind.as_str()),
            TzapIdentityCatalogError::Json(m) => join2("identity catalog JSON is invalid: ", m.as_str()),
            TzapIdentityCatalogError::Legacy(m) => join2("legacy identity migration failed: ", m.as_str()),
            TzapIdentityCatalogError::Secret(e) => {
                let text = e.to_text();
                join2("secure secret migration failed: ", text.as_str())
            },
        }
    }
}

/// What a legacy migration did.
#[derive(Debug, Clone, Copy, PartialEq, Eq, Structural)]
pub struct TzapLegacyMigrationReport {
    pub migrated: bool,
    pub signing_identity_count: usize,
    pub recipient_key_count: usize,
}

/// Whether an account key is usable as a file name: not empty, without path
/// separators and without `..`.
pub open spec fn valid_account_key(value: Seq<char>) -> bool {
    &&& value.len() > 0
    &&& !value.contains('/')
    &&& !value.contains('\\')
    &&& !contains_seq(value, seq!['.', '.'])
}

/// Validates an identity account key: account keys are used as file names,
/// so path separators and parent traversal markers are rejected.
pub fn validate_account_key(value: &str) -> (r: bool)
    ensures
        r == valid_account_key(value@),
{
    let chars = chars_of(value);
    let dots: Vec<char> = vec!['.', '.'];
    chars.len() > 0 && !contains_char(&chars, '/') && !contains_char(&chars, '\\') && !chars_contain(&chars, &dots)
}

/// Whether a catalog records a legacy migration still to finish.
pub open spec fn pending_legacy_migration(c: TzapIdentityCatalog) -> bool {
    exists|i: int| 0 <= i < c.pending_mutations@.len() && #[trigger] c.pending_mutations@[i] is LegacyMigration
}

/// The legacy migration is the only pending mutation there is: a catalog
/// records one exactly when it records any.
pub proof fn lemma_pending_iff_any(c: TzapIdentityCatalog)
    ensures
        pending_legacy_migration(c) <==> c.pending_mutations@.len() > 0,
{
    if c.pending_mutations@.len() > 0 {
        let m = c.pending_mutations@[0];
        match m {
            PendingMutation::LegacyMigration { .. } => {
                assert(c.pending_mutations@[0] is LegacyMigration);
            },
        }
    }
}

/// Whether a catalog records a legacy migration still to finish.
pub fn has_pending_legacy_migration(catalog: &TzapIdentityCatalog) -> (r: bool)
    ensures
        r == pending_legacy_migration(*catalog),
{
    let mut i: usize = 0;
    while i < catalog.pending_mutations.len()
        invariant
            i <= catalog.pending_mutations@.len(),
            forall|k: int| 0 <= k < i ==> !(#[trigger] catalog.pending_mutations@[k] is LegacyMigration),
        decreases catalog.pending_mutations@.len() - i,
    {
        match catalog.pending_mutations[i] {
            PendingMutation::LegacyMigration { .. } => {
                return true;
            },
        }
    }
    false
}

/// The revision check of a catalog save: the save goes ahead only when the
/// caller's expected revision is the stored catalog's (both absent for a
/// first save).
pub fn check_revision(expected: Option<u64>, actual: Option<u64>) -> (r: Result<(), TzapIdentityCatalogError>)
    ensures
        expected == actual ==> r is Ok,
        expected != actual ==> (r matches Err(TzapIdentityCatalogError::RevisionConflict { expected: e, actual: a })
            && e == expected && a == actual),
{
    let same = match (expected, actual) {
        (Some(x), Some(y)) => x == y,
        (None, None) => true,
        _ => false,
    };
    if same {
        Ok(())
    } else {
        Err(TzapIdentityCatalogError::RevisionConflict { expected, actual })
    }
}

/// The secret references of a catalog's signing identities, in order.
pub open spec fn signing_refs_of(c: TzapIdentityCatalog) -> Seq<Seq<char>> {
    Seq::new(c.signing_identities@.len(), |i: int| c.signing_identities@[i].signing_key_ref@)
}

/// The secret references of a catalog's recipient keys, in order.
pub open spec fn recipient_refs_of(c: TzapIdentityCatalog) -> Seq<Seq<char>> {
    Seq::new(c.recipient_keys@.len(), |i: int| c.recipient_keys@[i].private_key_ref@)
}

/// Two catalogs agree on what the stores and migrations read of them: the
/// revision, the pending mutations, and the secret references of the
/// signing identities and recipient keys, in order.
pub open spec fn same_summary(a: TzapIdentityCatalog, b: TzapIdentityCatalog) -> bool {
    &&& a.revision == b.revision
    &&& a.pending_mutations@ == b.pending_mutations@
    &&& signing_refs_of(a) == signing_refs_of(b)
    &&& recipient_refs_of(a) == recipient_refs_of(b)
}

/// Persistence of the public catalog, one per account key.
pub trait TzapIdentityCatalogStore {
    /// Whether the store's value holds its catalogs, so that `catalogs`
    /// describes them. A store over outside storage, such as a directory on
    /// disk, does not: what it holds is not part of its value, and the
    /// contracts below then state nothing of it.
    open spec fn keeps_catalogs(&self) -> bool {
        false
    }

    /// The catalogs the store holds, by account key, where it keeps them.
    open spec fn catalogs(&self) -> Map<Seq<char>, TzapIdentityCatalog> {
        Map::empty()
    }

    /// The catalog saved under the account key, if any: a copy that keeps
    /// the saved catalog's revision, pending mutations and references.
    fn load_catalog(&self, account_key: &str) -> (r: Result<Option<TzapIdentityCatalog>, TzapIdentityCatalogError>)
        ensures
            self.keeps_catalogs() ==> (r matches Ok(Some(c)) ==> self.catalogs().dom().contains(account_key@) && same_summary(
                c,
                self.catalogs()[account_key@],
            )),
            self.keeps_catalogs() ==> (r matches Ok(None) ==> !self.catalogs().dom().contains(account_key@)),
    ;

    /// Saves a valid catalog when `expected_revision` is the revision of the
    /// catalog saved under the key (`None` when there is none).
    fn save_catalog(&mut self, account_key: &str, expected_revision: Option<u64>, catalog: TzapIdentityCatalog) -> (r: Result<
        (),
        TzapIdentityCatalogError,
    >)
        ensures
            final(self).keeps_catalogs() == old(self).keeps_catalogs(),
            old(self).keeps_catalogs() ==> (r is Ok ==> final(self).catalogs() == old(self).catalogs().insert(account_key@, catalog)),
    ;

    /// Forgets the catalog saved under the account key.
    fn clear_catalog(&mut self, account_key: &str) -> (r: Result<(), TzapIdentityCatalogError>)
        ensures
            final(self).keeps_catalogs() == old(self).keeps_catalogs(),
    ;
}

/// A copy of a catalog: the scalar fields and the id are kept exactly, and
/// so are the pending mutations and the secret references.
fn copy_catalog(c: &TzapIdentityCatalog) -> (r: TzapIdentityCatalog)
    ensures
        r.schema_version == c.schema_version,
        r.catalog_id@ == c.catalog_id@,
        same_summary(r, *c),
{
    let mut pending: Vec<PendingMutation> = Vec::new();
    let mut i: usize = 0;
    while i < c.pending_mutations.len()
        invariant
            i <= c.pending_mutations@.len(),
            pending@ == c.pending_mutations@.take(i as int),
        decreases c.pending_mutations@.len() - i,
    {
        pending.push(c.pending_mutations[i]);
        assert(c.pending_mutations@.take(i as int + 1) =~= c.pending_mutations@.take(i as int).push(c.pending_mutations@[i as int]));
        i += 1;
    }
    assert(c.pending_mutations@.take(i as int) =~= c.pending_mutations@);
    let mut identities: Vec<TzapPublicSigningIdentityRecord> = Vec::new();
    let mut i: usize = 0;
    while i < c.signing_identities.len()
        invariant
            i <= c.signing_identities@.len(),
            identities@.len() == i,
            forall|k: int| 0 <= k < i ==> (#[trigger] identities@[k]).signing_key_ref@ == c.signing_identities@[k].signing_key_ref@,
        decreases c.signing_identities@.len() - i,
    {
        let mut record = c.signing_identities[i].clone();
        record.signing_key_ref = c.signing_identities[i].signing_key_ref.duplicate();
        identities.push(record);
        i += 1;
    }
    let mut keys: Vec<TzapPublicRecipientKeyRecord> = Vec::new();
    let mut i: usize = 0;
    while i < c.recipient_keys.len()
        invariant
            i <= c.recipient_keys@.len(),
            keys@.len() == i,
            forall|k: int| 0 <= k < i ==> (#[trigger] keys@[k]).private_key_ref@ == c.recipient_keys@[k].private_key_ref@,
        decreases c.recipient_keys@.len() - i,
    {
        let mut record = c.recipient_keys[i].clone();
        record.private_key_ref = c.recipient_keys[i].private_key_ref.duplicate();
        keys.push(record);
        i += 1;
    }
    let r = TzapIdentityCatalog {
        schema_version: c.schema_version,
        catalog_id: c.catalog_id.clone(),
        revision: c.revision,
        default_signing_identity_id: c.default_signing_identity_id.clone(),
        signing_identities: identities,
        recipient_keys: keys,
        contacts: c.contacts.clone(),
        status_cache: c.status_cache.clone(),
        emergency_blocklist: c.emergency_blocklist.clone(),
        pending_mutations: pending,
    };
    assert(signing_refs_of(r) =~= signing_refs_of(*c));
    assert(recipient_refs_of(r) =~= recipient_refs_of(*c));
    r
}

/// The revision stored under `key`, if a catalog is stored there.
pub open spec fn stored_revision(m: Map<Seq<char>, u64>, key: Seq<char>) -> Option<u64> {
    if m.dom().contains(key) {
        Some(m[key])
    } else {
        None
    }
}

pub open spec fn catalog_keys_distinct(s: Seq<(String, TzapIdentityCatalog)>) -> bool {
    forall|i: int, j: int| 0 <= i < j < s.len() ==> (#[trigger] s[i]).0@ != (#[trigger] s[j]).0@
}

pub open spec fn has_account(s: Seq<(String, TzapIdentityCatalog)>, k: Seq<char>) -> bool {
    exists|i: int| 0 <= i < s.len() && (#[trigger] s[i]).0@ == k
}

/// The revision of each stored catalog, by account key.
pub open spec fn revisions_map(s: Seq<(String, TzapIdentityCatalog)>) -> Map<Seq<char>, u64> {
    Map::new(
        |k: Seq<char>| has_account(s, k),
        |k: Seq<char>| s[choose|i: int| 0 <= i < s.len() && (#[trigger] s[i]).0@ == k].1.revision,
    )
}

proof fn lemma_account_lookup(s: Seq<(String, TzapIdentityCatalog)>, i: int)
    requires
        catalog_keys_distinct(s),
        0 <= i < s.len(),
    ensures
        revisions_map(s).dom().contains(s[i].0@),
        revisions_map(s)[s[i].0@] == s[i].1.revision,
{
    let k = s[i].0@;
    assert(has_account(s, k));
    let j = choose|j: int| 0 <= j < s.len() && (#[trigger] s[j]).0@ == k;
    if j != i {
        if j < i {
            assert(s[j].0@ != s[i].0@);
        } else {
            assert(s[i].0@ != s[j].0@);
        }
    }
}

/// The stored catalogs, by account key.
pub open spec fn catalogs_map(s: Seq<(String, TzapIdentityCatalog)>) -> Map<Seq<char>, TzapIdentityCatalog> {
    Map::new(
        |k: Seq<char>| has_account(s, k),
        |k: Seq<char>| s[choose|i: int| 0 <= i < s.len() && (#[trigger] s[i]).0@ == k].1,
    )
}

proof fn lemma_catalog_lookup(s: Seq<(String, TzapIdentityCatalog)>, i: int)
    requires
        catalog_keys_distinct(s),
        0 <= i < s.len(),
    ensures
        catalogs_map(s).dom().contains(s[i].0@),
        catalogs_map(s)[s[i].0@] == s[i].1,
{
    let k = s[i].0@;
    assert(has_account(s, k));
    let j = choose|j: int| 0 <= j < s.len() && (#[trigger] s[j]).0@ == k;
    if j != i {
        if j < i {
            assert(s[j].0@ != s[i].0@);
        } else {
            assert(s[i].0@ != s[j].0@);
        }
    }
}

/// Storing an entry, in place of the one with its key or after the others
/// when there is none, inserts it into the map of stored catalogs.
proof fn lemma_catalogs_store(before: Seq<(String, TzapIdentityCatalog)>, after: Seq<(String, TzapIdentityCatalog)>, entry: (String, TzapIdentityCatalog))
    requires
        catalog_keys_distinct(before),
        catalog_keys_distinct(after),
        after.len() >= before.len(),
        exists|i: int| 0 <= i < after.len() && after[i] == entry,
        forall|k: Seq<char>| #[trigger] has_account(after, k) == (has_account(before, k) || k == entry.0@),
        forall|i: int| 0 <= i < before.len() && before[i].0@ != entry.0@ ==> after[i] == before[i],
    ensures
        catalogs_map(after) == catalogs_map(before).insert(entry.0@, entry.1),
{
    assert forall|k: Seq<char>| #[trigger] catalogs_map(after).dom().contains(k) implies catalogs_map(after)[k]
        == catalogs_map(before).insert(entry.0@, entry.1)[k] by {
        let j = choose|j: int| 0 <= j < after.len() && (#[trigger] after[j]).0@ == k;
        lemma_catalog_lookup(after, j);
        if k == entry.0@ {
            let e = choose|i: int| 0 <= i < after.len() && after[i] == entry;
            lemma_catalog_lookup(after, e);
        } else {
            let b = choose|b: int| 0 <= b < before.len() && (#[trigger] before[b]).0@ == k;
            lemma_catalog_lookup(before, b);
            assert(after[b] == before[b]);
            lemma_catalog_lookup(after, b);
        }
    }
    assert(catalogs_map(after) =~= catalogs_map(before).insert(entry.0@, entry.1));
}

/// An in-memory catalog store.
#[derive(Debug)]
pub struct InMemoryTzapIdentityCatalogStore {
    catalogs: Vec<(String, TzapIdentityCatalog)>,
}

impl View for InMemoryTzapIdentityCatalogStore {
    type V = Map<Seq<char>, u64>;

    closed spec fn view(&self) -> Map<Seq<char>, u64> {
        revisions_map(self.catalogs@)
    }
}

fn account_position(catalogs: &Vec<(String, TzapIdentityCatalog)>, key: &str) -> (r: Option<usize>)
    ensures
        match r {
            Some(i) => i < catalogs@.len() && catalogs@[i as int].0@ == key@,
            None => !has_account(catalogs@, key@),
        },
{
    let mut i: usize = 0;
    while i < catalogs.len()
        invariant
            i <= catalogs@.len(),
            forall|j: int| 0 <= j < i ==> (#[trigger] catalogs@[j]).0@ != key@,
        decreases catalogs@.len() - i,
    {
        if str_eq(catalogs[i].0.as_str(), key) {
            return Some(i);
        }
        i += 1;
    }
    None
}

impl InMemoryTzapIdentityCatalogStore {
    #[verifier::type_invariant]
    spec fn wf(&self) -> bool {
        catalog_keys_distinct(self.catalogs@)
    }

    /// An empty store.
    pub fn new() -> (r: Self)
        ensures
            r@ == Map::<Seq<char>, u64>::empty(),
            r.keeps_catalogs(),
            r.catalogs() == Map::<Seq<char>, TzapIdentityCatalog>::empty(),
    {
        let catalogs: Vec<(String, TzapIdentityCatalog)> = Vec::new();
        assert(catalog_keys_distinct(catalogs@));
        let r = InMemoryTzapIdentityCatalogStore { catalogs };
        assert(r@ =~= Map::<Seq<char>, u64>::empty());
        assert(r.catalogs() =~= Map::<Seq<char>, TzapIdentityCatalog>::empty());
        r
    }
}

impl TzapIdentityCatalogStore for InMemoryTzapIdentityCatalogStore {
    /// The store holds its catalogs.
    open spec fn keeps_catalogs(&self) -> bool {
        true
    }

    /// The stored catalogs.
    closed spec fn catalogs(&self) -> Map<Seq<char>, TzapIdentityCatalog> {
        catalogs_map(self.catalogs@)
    }

    /// A copy of the stored catalog, which keeps its revision.
    fn load_catalog(&self, account_key: &str) -> (r: Result<Option<TzapIdentityCatalog>, TzapIdentityCatalogError>)
        ensures
            r matches Ok(found) && match stored_revision(self@, account_key@) {
                Some(rev) => found matches Some(c) && c.revision == rev,
                None => found is None,
            },
    {
        proof {
            use_type_invariant(self);
        }
        match account_position(&self.catalogs, account_key) {
            Some(i) => {
                proof {
                    lemma_account_lookup(self.catalogs@, i as int);
                    lemma_catalog_lookup(self.catalogs@, i as int);
                }
                Ok(Some(copy_catalog(&self.catalogs[i].1)))
            },
            None => Ok(None),
        }
    }

    /// Refuses an invalid catalog, then a stale expected revision; otherwise
    /// stores the catalog.
    fn save_catalog(&mut self, account_key: &str, expected_revision: Option<u64>, catalog: TzapIdentityCatalog) -> (r: Result<
        (),
        TzapIdentityCatalogError,
    >)
        ensures
            match catalog_defect(catalog) {
                Some(f) => r matches Err(TzapIdentityCatalogError::InvalidCatalog { field }) && field@ == f && final(self)@
                    == old(self)@,
                None => if expected_revision == stored_revision(old(self)@, account_key@) {
                    r is Ok && final(self)@ == old(self)@.insert(account_key@, catalog.revision)
                } else {
                    r matches Err(TzapIdentityCatalogError::RevisionConflict { expected, actual }) && expected
                        == expected_revision && actual == stored_revision(old(self)@, account_key@) && final(self)@
                        == old(self)@
                },
            },
    {
        proof {
            use_type_invariant(&*self);
        }
        catalog.validate()?;
        let position = account_position(&self.catalogs, account_key);
        let actual = match position {
            Some(i) => {
                proof {
                    lemma_account_lookup(self.catalogs@, i as int);
                }
                Some(self.catalogs[i].1.revision)
            },
            None => None,
        };
        check_revision(expected_revision, actual)?;
        let revision = catalog.revision;
        let mut catalogs: Vec<(String, TzapIdentityCatalog)> = Vec::new();
        std::mem::swap(&mut catalogs, &mut self.catalogs);
        let ghost before = catalogs@;
        let entry = (account_key.to_string(), catalog);
        let ghost e = entry;
        match position {
            Some(i) => {
                catalogs.set(i, entry);
                let ghost after = catalogs@;
                assert(after[i as int] == e);
                assert(catalog_keys_distinct(after)) by {
                    assert forall|a: int, b: int| 0 <= a < b < after.len() implies (#[trigger] after[a]).0@ != (
                    #[trigger] after[b]).0@ by {
                        if a != i {
                            assert(after[a] == before[a]);
                        }
                        if b != i {
                            assert(after[b] == before[b]);
                        }
                    }
                }
                assert forall|k: Seq<char>| #[trigger] has_account(after, k) == (has_account(before, k) || k == account_key@) by {
                    if has_account(before, k) {
                        let j = choose|j: int| 0 <= j < before.len() && (#[trigger] before[j]).0@ == k;
                        if j != i {
                            assert(after[j] == before[j]);
                        } else {
                            assert(after[j].0@ == k);
                        }
                    }
                    if has_account(after, k) {
                        let j = choose|j: int| 0 <= j < after.len() && (#[trigger] after[j]).0@ == k;
                        if j != i {
                            assert(after[j] == before[j]);
                        }
                    }
                    if k == account_key@ {
                        assert(after[i as int].0@ == k);
                    }
                }
                assert(revisions_map(after) =~= revisions_map(before).insert(account_key@, revision)) by {
                    assert forall|k: Seq<char>| #[trigger] has_account(after, k) == (has_account(before, k) || k == account_key@) by {
                        if has_account(before, k) {
                            let j = choose|j: int| 0 <= j < before.len() && (#[trigger] before[j]).0@ == k;
                            if j != i {
                                assert(after[j] == before[j]);
                            } else {
                                assert(after[j].0@ == k);
                            }
                        }
                        if has_account(after, k) {
                            let j = choose|j: int| 0 <= j < after.len() && (#[trigger] after[j]).0@ == k;
                            if j != i {
                                assert(after[j] == before[j]);
                            }
                        }
                        if k == account_key@ {
                            assert(after[i as int].0@ == k);
                        }
                    }
                    assert forall|k: Seq<char>| #[trigger] revisions_map(after).dom().contains(k) implies revisions_map(after)[k]
                        == revisions_map(before).insert(account_key@, revision)[k] by {
                        let j = choose|j: int| 0 <= j < after.len() && (#[trigger] after[j]).0@ == k;
                        lemma_account_lookup(after, j);
                        if j != i {
                            assert(after[j] == before[j]);
                            lemma_account_lookup(before, j);
                        }
                    }
                }
                proof {
                    lemma_catalogs_store(before, after, e);
                }
            },
            None => {
                catalogs.push(entry);
                let ghost after = catalogs@;
                assert(after[before.len() as int] == e);
                assert(catalog_keys_distinct(after)) by {
                    assert forall|a: int, b: int| 0 <= a < b < after.len() implies (#[trigger] after[a]).0@ != (
                    #[trigger] after[b]).0@ by {
                        assert(after[a] == before[a]);
                        if b < before.len() {
                            assert(after[b] == before[b]);
                        }
                    }
                }
                assert forall|k: Seq<char>| #[trigger] has_account(after, k) == (has_account(before, k) || k == account_key@) by {
                    if has_account(before, k) {
                        let j = choose|j: int| 0 <= j < before.len() && (#[trigger] before[j]).0@ == k;
                        assert(after[j] == before[j]);
                    }
                    if has_account(after, k) {
                        let j = choose|j: int| 0 <= j < after.len() && (#[trigger] after[j]).0@ == k;
                        if j < before.len() {
                            assert(after[j] == before[j]);
                        }
                    }
                    if k == account_key@ {
                        assert(after[before.len() as int].0@ == k);
                    }
                }
                assert(revisions_map(after) =~= revisions_map(before).insert(account_key@, revision)) by {
                    assert forall|k: Seq<char>| #[trigger] has_account(after, k) == (has_account(before, k) || k == account_key@) by {
                        if has_account(before, k) {
                            let j = choose|j: int| 0 <= j < before.len() && (#[trigger] before[j]).0@ == k;
                            assert(after[j] == before[j]);
                        }
                        if has_account(after, k) {
                            let j = choose|j: int| 0 <= j < after.len() && (#[trigger] after[j]).0@ == k;
                            if j < before.len() {
                                assert(after[j] == before[j]);
                            }
                        }
                        if k == account_key@ {
                            assert(after[before.len() as int].0@ == k);
                        }
                    }
                    assert forall|k: Seq<char>| #[trigger] revisions_map(after).dom().contains(k) implies revisions_map(after)[k]
                        == revisions_map(before).insert(account_key@, revision)[k] by {
                        let j = choose|j: int| 0 <= j < after.len() && (#[trigger] after[j]).0@ == k;
                        lemma_account_lookup(after, j);
                        if j < before.len() {
                            assert(after[j] == before[j]);
                            lemma_account_lookup(before, j);
                        }
                    }
                }
                proof {
                    lemma_catalogs_store(before, after, e);
                }
            },
        }
        self.catalogs = catalogs;
        Ok(())
    }

    /// Forgets the catalog stored under the key.
    fn clear_catalog(&mut self, account_key: &str) -> (r: Result<(), TzapIdentityCatalogError>)
        ensures
            r is Ok,
            final(self)@ == old(self)@.remove(account_key@),
    {
        proof {
            use_type_invariant(&*self);
        }
        match account_position(&self.catalogs, account_key) {
            Some(i) => {
                let mut catalogs: Vec<(String, TzapIdentityCatalog)> = Vec::new();
                std::mem::swap(&mut catalogs, &mut self.catalogs);
                let ghost before = catalogs@;
                catalogs.remove(i);
                let ghost after = catalogs@;
                assert forall|j: int| 0 <= j < after.len() implies #[trigger] after[j] == (if j < i {
                    before[j]
                } else {
                    before[j + 1]
                }) by {}
                assert(catalog_keys_distinct(after)) by {
                    assert forall|a: int, b: int| 0 <= a < b < after.len() implies (#[trigger] after[a]).0@ != (
                    #[trigger] after[b]).0@ by {
                        let a2 = if a < i { a } else { a + 1 };
                        let b2 = if b < i { b } else { b + 1 };
                        assert(after[a] == before[a2] && after[b] == before[b2]);
                    }
                }
                assert(revisions_map(after) =~= revisions_map(before).remove(account_key@)) by {
                    assert forall|k: Seq<char>| #[trigger] has_account(after, k) == (has_account(before, k) && k != account_key@) by {
                        if has_account(after, k) {
                            let j = choose|j: int| 0 <= j < after.len() && (#[trigger] after[j]).0@ == k;
                            let j2 = if j < i { j } else { j + 1 };
                            assert(after[j] == before[j2]);
                            if k == account_key@ {
                                if j2 < i {
                                    assert(before[j2].0@ != before[i as int].0@);
                                } else {
                                    assert(before[i as int].0@ != before[j2].0@);
                                }
                            }
                        }
                        if has_account(before, k) && k != account_key@ {
                            let j = choose|j: int| 0 <= j < before.len() && (#[trigger] before[j]).0@ == k;
                            let j2 = if j < i { j } else { j - 1 };
                            assert(after[j2] == before[j]);
                        }
                    }
                    assert forall|k: Seq<char>| #[trigger] revisions_map(after).dom().contains(k) implies revisions_map(after)[k]
                        == revisions_map(before)[k] by {
                        let j = choose|j: int| 0 <= j < after.len() && (#[trigger] after[j]).0@ == k;
                        let j2 = if j < i { j } else { j + 1 };
                        assert(after[j] == before[j2]);
                        lemma_account_lookup(after, j);
                        lemma_account_lookup(before, j2);
                    }
                }
                self.catalogs = catalogs;
            },
            None => {
                assert(self@.remove(account_key@) =~= self@);
            },
        }
        Ok(())
    }
}

/// `Path::join` of a plain relative name onto a directory.
pub open spec fn join_name(root: Seq<char>, name: Seq<char>) -> Seq<char> {
    if root.len() == 0 {
        name
    } else if root.last() == '/' {
        root + name
    } else {
        root + seq!['/'] + name
    }
}

/// A catalog store that keeps one JSON file per account under a directory.
#[derive(Debug, Clone)]
pub struct FileTzapIdentityCatalogStore {
    root: String,
}

impl View for FileTzapIdentityCatalogStore {
    type V = Seq<char>;

    /// The store's directory.
    closed spec fn view(&self) -> Seq<char> {
        self.root@
    }
}

impl FileTzapIdentityCatalogStore {
    /// A store under the directory `root`.
    pub fn new(root: String) -> (r: Self)
        ensures
            r@ == root@,
    {
        FileTzapIdentityCatalogStore { root }
    }

    /// The store's directory.
    pub fn root(&self) -> (r: &str)
        ensures
            r@ == self@,
    {
        self.root.as_str()
    }

    /// The file of an account's catalog: `<account><suffix>` in the store's
    /// directory. A key that could escape the directory is refused.
    pub fn catalog_path(&self, account_key: &str) -> (r: Result<String, TzapIdentityCatalogError>)
        ensures
            valid_account_key(account_key@) ==> (r matches Ok(path) && path@ == join_name(
                self@,
                account_key@ + PUBLIC_CATALOG_FILE_SUFFIX@,
            )),
            !valid_account_key(account_key@) ==> (r matches Err(TzapIdentityCatalogError::InvalidAccountKey)),
    {
        if !validate_account_key(account_key) {
            return Err(TzapIdentityCatalogError::InvalidAccountKey);
        }
        let name = concat_chars(&chars_of(account_key), &chars_of(PUBLIC_CATALOG_FILE_SUFFIX));
        let root = chars_of(self.root.as_str());
        let path = if root.len() == 0 {
            name
        } else if root[root.len() - 1] == '/' {
            concat_chars(&root, &name)
        } else {
            let slash: Vec<char> = vec!['/'];
            let r = concat_chars(&concat_chars(&root, &slash), &name);
            assert(r@ =~= root@ + seq!['/'] + name@);
            r
        };
        Ok(string_from_chars(&path))
    }
}

/// A catalog lock older than this many seconds is taken to be abandoned by
/// a crashed writer and is stolen instead of blocking all future saves.
pub const LOCK_STALE_AFTER_SECONDS: u64 = 30;

/// Maximum stale-lock steal attempts before a concurrent write is reported.
pub const MAX_LOCK_STEAL_ATTEMPTS: u32 = 3;

/// Whether a lock file is stale, given its age in seconds (`None` when its
/// modification time cannot be read or lies in the future).
pub fn lock_is_stale(age_seconds: Option<u64>) -> (r: bool)
    ensures
        r == (age_seconds matches Some(age) && age >= LOCK_STALE_AFTER_SECONDS),
{
    match age_seconds {
        Some(age) => age >= LOCK_STALE_AFTER_SECONDS,
        None => false,
    }
}

/// The decision after the lock file was found to exist already, with
/// `steal_attempts` steals made so far: `Some(n)` removes the stale lock and
/// tries again with `n` steals counted; `None` refuses the save as a
/// concurrent write. A young lock belongs to a live writer; a stale one is
/// stolen at most [`MAX_LOCK_STEAL_ATTEMPTS`] times, so the acquisition
/// always ends.
pub fn next_lock_steal(steal_attempts: u32, stale: bool) -> (r: Option<u32>)
    ensures
        (steal_attempts >= MAX_LOCK_STEAL_ATTEMPTS || !stale) <==> r is None,
        r matches Some(n) ==> n == steal_attempts + 1 && n <= MAX_LOCK_STEAL_ATTEMPTS,
{
    if steal_attempts >= MAX_LOCK_STEAL_ATTEMPTS || !stale {
        None
    } else {
        Some(steal_attempts + 1)
    }
}

} // verus!

//! Basic authentication against bcrypt password hashes, with a cache of the
//! credentials that passed, kept as keyed BLAKE3 digests.
use vstd::prelude::*;
use vstd::utf8::{
    valid_utf8, decode_utf8, encode_utf8, is_char_boundary, encode_utf8_decode_utf8,
    encode_utf8_valid_utf8, decode_utf8_encode_utf8, valid_utf8_split,
};
use base64::Engine;
use crate::string_map::{StringMap, StringSet};
use crate::text::{
    starts_with_text, to_lower_hex, lower_hex, split_once, split_once_spec, lemma_split_once_join,
};

verus! {

#[verifier::external_type_specification]
#[verifier::external_body]
pub struct ExDecodeError(base64::DecodeError);

#[verifier::external_type_specification]
#[verifier::external_body]
pub struct ExBcryptError(bcrypt::BcryptError);

#[verifier::external_type_specification]
#[verifier::external_body]
pub struct ExRandomError(getrandom::Error);

#[verifier::external_type_specification]
#[verifier::external_body]
pub struct ExFromUtf8Error(std::string::FromUtf8Error);

/// What the standard base64 engine (standard alphabet, canonical padding)
/// decodes `input` to, or `None` where it refuses the input.
pub uninterp spec fn base64_standard_decode(input: Seq<u8>) -> Option<Seq<u8>>;

/// Whether bcrypt finds `password` to match the hash `hash`, or `None`
/// where it cannot read the hash.
pub uninterp spec fn bcrypt_verify_outcome(password: Seq<u8>, hash: Seq<char>) -> Option<bool>;

/// The keyed BLAKE3 digest of `input` under `key`.
pub uninterp spec fn blake3_keyed_digest(key: Seq<u8>, input: Seq<u8>) -> Seq<u8>;

/// Decodes `input` with `base64::engine::general_purpose::STANDARD`.
///
/// The contract claims that `Engine::decode` is a function of its input:
/// it gives the bytes that the name states, and fails exactly where the name
/// states no bytes.
#[verifier::external_body]
fn decode_base64(input: &[u8]) -> (r: Result<Vec<u8>, base64::DecodeError>)
    ensures
        match r {
            Ok(bytes) => base64_standard_decode(input@) == Some(bytes@),
            Err(_) => base64_standard_decode(input@) is None,
        },
{
    base64::engine::general_purpose::STANDARD.decode(input)
}

/// Checks `password` against the bcrypt hash `hash` with `bcrypt::verify`.
///
/// The contract claims that the outcome is a function of the password bytes
/// and the hash text: the salt and cost are read from the hash.
#[verifier::external_body]
fn bcrypt_verify(password: &[u8], hash: &str) -> (r: Result<bool, bcrypt::BcryptError>)
    ensures
        match r {
            Ok(b) => bcrypt_verify_outcome(password@, hash@) == Some(b),
            Err(_) => bcrypt_verify_outcome(password@, hash@) is None,
        },
{
    bcrypt::verify(password, hash)
}

/// The bytes of the keyed BLAKE3 hash of `input` under `key`, from
/// `blake3::keyed_hash` and `Hash::as_bytes`.
///
/// The contract claims that the digest is a function of the key and input.
#[verifier::external_body]
fn blake3_keyed_hash(key: &[u8; 32], input: &[u8]) -> (r: [u8; 32])
    ensures
        r@ == blake3_keyed_digest(key@, input@),
{
    *blake3::keyed_hash(key, input).as_bytes()
}

/// A fresh key from the system's random source, through `getrandom::fill`.
///
/// Nothing is claimed of the key or of when the source fails.
#[verifier::external_body]
fn random_key() -> (r: Result<[u8; 32], getrandom::Error>) {
    let mut key = [0u8; 32];
    getrandom::fill(&mut key)?;
    Ok(key)
}

/// The text that `bytes` encode, through `String::from_utf8`, which std
/// documents to fail exactly when the bytes are not valid UTF-8.
#[verifier::external_body]
fn utf8_string(bytes: Vec<u8>) -> (r: Result<String, std::string::FromUtf8Error>)
    ensures
        match r {
            Ok(s) => valid_utf8(bytes@) && s@ == decode_utf8(bytes@),
            Err(_) => !valid_utf8(bytes@),
        },
{
    String::from_utf8(bytes)
}

/// The credential of a basic authorization header: the base64 text after
/// `Basic ` and what it decodes to.
pub struct Credential {
    pub encoded: String,
    pub decoded: String,
}

/// Whether an authorization header starts with `Basic` and is longer than
/// six bytes.
pub open spec fn has_basic_prefix(header: Seq<char>) -> bool {
    &&& 5 <= header.len()
    &&& header.take(5) == "Basic"@
    &&& encode_utf8(header).len() > 6
}

/// The bytes of an authorization header after its sixth byte.
pub open spec fn header_payload(header: Seq<char>) -> Seq<u8> {
    encode_utf8(header).subrange(6, encode_utf8(header).len() as int)
}

/// The credential that an authorization header carries: the text after the
/// sixth byte and the UTF-8 text that it base64-decodes to.
pub open spec fn credential_spec(header: Seq<char>) -> Option<(Seq<char>, Seq<char>)> {
    if !has_basic_prefix(header) {
        None
    } else {
        let payload = header_payload(header);
        match base64_standard_decode(payload) {
            None => None,
            Some(raw) => if valid_utf8(raw) {
                Some((decode_utf8(payload), decode_utf8(raw)))
            } else {
                None
            },
        }
    }
}

/// The credential of a header is the text after its sixth byte, the header
/// starts with `Basic`, and the credential base64-decodes to the UTF-8 bytes
/// of its decoded text.
pub proof fn lemma_credential_shape(header: Seq<char>)
    requires
        has_basic_prefix(header) ==> is_char_boundary(encode_utf8(header), 6),
    ensures
        credential_spec(header) matches Some(c) ==> {
            &&& header.take(5) == "Basic"@
            &&& encode_utf8(c.0) == header_payload(header)
            &&& base64_standard_decode(encode_utf8(c.0)) == Some(encode_utf8(c.1))
        },
{
    if credential_spec(header) is Some {
        let bytes = encode_utf8(header);
        encode_utf8_valid_utf8(header);
        valid_utf8_split(bytes, 6);
        let payload = header_payload(header);
        decode_utf8_encode_utf8(payload);
        let raw = base64_standard_decode(payload)->Some_0;
        decode_utf8_encode_utf8(raw);
    }
}

/// Whether the password of the `user:password` text `decoded` matches the
/// hash that `users` holds for the user.
pub open spec fn password_matches(users: Map<Seq<char>, Seq<char>>, decoded: Seq<char>) -> bool {
    match split_once_spec(decoded, ':') {
        None => false,
        Some(parts) => users.dom().contains(parts.0) && bcrypt_verify_outcome(
            encode_utf8(parts.1),
            users[parts.0],
        ) == Some(true),
    }
}

/// A `user:password` credential whose user name has no colon is checked
/// with the whole text after the first colon as the password, colons in it
/// included, against the hash of that user.
pub proof fn lemma_password_after_first_colon(
    users: Map<Seq<char>, Seq<char>>,
    user: Seq<char>,
    password: Seq<char>,
)
    requires
        !user.contains(':'),
    ensures
        password_matches(users, user + ":"@ + password) == (users.dom().contains(user)
            && bcrypt_verify_outcome(encode_utf8(password), users[user]) == Some(true)),
{
    reveal_strlit(":");
    assert(":"@ =~= seq![':']);
    lemma_split_once_join(user, ':', password);
}

/// The cache entry of a credential: its keyed digest in lower-case hex.
pub open spec fn cache_entry(key: Seq<u8>, encoded: Seq<char>) -> Seq<char> {
    lower_hex(blake3_keyed_digest(key, encode_utf8(encoded)))
}

/// Whether a request with the authorization header `header` is let in by
/// the users `users` and the cache `cache` keyed by `key`: always when there
/// are no users; otherwise when the header carries a basic credential that
/// is cached or whose password matches.
pub open spec fn authorize_spec(
    users: Map<Seq<char>, Seq<char>>,
    cache: Set<Seq<char>>,
    key: Seq<u8>,
    header: Option<Seq<char>>,
) -> bool {
    if users == Map::<Seq<char>, Seq<char>>::empty() {
        true
    } else {
        match header {
            None => false,
            Some(h) => match credential_spec(h) {
                None => false,
                Some(c) => cache.contains(cache_entry(key, c.0)) || password_matches(users, c.1),
            },
        }
    }
}

/// The cache after such a request: the credential's entry is added when its
/// password was checked and matched.
pub open spec fn cache_after(
    users: Map<Seq<char>, Seq<char>>,
    cache: Set<Seq<char>>,
    key: Seq<u8>,
    header: Option<Seq<char>>,
) -> Set<Seq<char>> {
    if users == Map::<Seq<char>, Seq<char>>::empty() {
        cache
    } else {
        match header {
            None => cache,
            Some(h) => match credential_spec(h) {
                None => cache,
                Some(c) => if !cache.contains(cache_entry(key, c.0)) && password_matches(users, c.1) {
                    cache.insert(cache_entry(key, c.0))
                } else {
                    cache
                },
            },
        }
    }
}

/// A request that is let in is let in again when it is repeated, from the
/// cache and without a password check where there are users, and the cache
/// only grows.
pub proof fn lemma_authorized_again(
    users: Map<Seq<char>, Seq<char>>,
    cache: Set<Seq<char>>,
    key: Seq<u8>,
    header: Option<Seq<char>>,
)
    ensures
        cache.subset_of(cache_after(users, cache, key, header)),
        authorize_spec(users, cache, key, header) && users != Map::<Seq<char>, Seq<char>>::empty()
            ==> cache_after(users, cache, key, header).contains(
            cache_entry(key, credential_spec(header->Some_0)->Some_0.0),
        ),
        authorize_spec(users, cache, key, header) ==> authorize_spec(
            users,
            cache_after(users, cache, key, header),
            key,
            header,
        ),
{
}

/// Basic authentication: the users with their bcrypt hashes, and the cache
/// of the credentials that passed.
pub struct BasicAuth {
    pub credentials: StringMap,
    pub hashed_credential_cache: StringSet,
    pub cache_key: [u8; 32],
}

impl BasicAuth {
    /// Every cached entry is the entry of a credential whose password
    /// matched.
    pub open spec fn cache_sound(&self) -> bool {
        forall|h: Seq<char>|
            #[trigger] self.hashed_credential_cache@.contains(h) ==> exists|enc: Seq<char>, dec: Seq<char>|
                h == cache_entry(self.cache_key@, enc) && password_matches(self.credentials@, dec)
    }

    /// Authentication for `credentials` with an empty cache keyed by `key`.
    pub fn with_key(credentials: StringMap, key: [u8; 32]) -> (auth: BasicAuth)
        ensures
            auth.credentials@ == credentials@,
            auth.hashed_credential_cache@ == Set::<Seq<char>>::empty(),
            auth.cache_key@ == key@,
            auth.cache_sound(),
    {
        BasicAuth { credentials, hashed_credential_cache: StringSet::new(), cache_key: key }
    }

    /// Authentication for `credentials` with an empty cache under a fresh
    /// random key; fails where the system's random source does.
    pub fn new(credentials: StringMap) -> (r: Result<BasicAuth, getrandom::Error>)
        ensures
            match r {
                Ok(auth) => auth.credentials@ == credentials@ && auth.hashed_credential_cache@ == Set::<
                    Seq<char>,
                >::empty() && auth.cache_sound(),
                Err(_) => true,
            },
    {
        match random_key() {
            Ok(key) => Ok(Self::with_key(credentials, key)),
            Err(e) => Err(e),
        }
    }

    /// The cache entry of a credential under `key`.
    pub fn hash_credential(key: &[u8; 32], credential: &str) -> (r: String)
        ensures
            r@ == cache_entry(key@, credential@),
    {
        let digest = blake3_keyed_hash(key, credential.as_bytes());
        to_lower_hex(&digest)
    }

    /// The credential of an authorization header, if it is a basic one
    /// whose payload decodes.
    pub fn is_valid_basic_auth_header(auth_header: &str) -> (r: Option<Credential>)
        requires
            has_basic_prefix(auth_header@) ==> is_char_boundary(encode_utf8(auth_header@), 6),
        ensures
            match r {
                Some(c) => credential_spec(auth_header@) == Some((c.encoded@, c.decoded@)),
                None => credential_spec(auth_header@) is None,
            },
    {
        let prefixed = starts_with_text(auth_header, "Basic");
        let byte_len = auth_header.as_bytes().len();
        proof {
            reveal_strlit("Basic");
            assert("Basic"@.len() == 5);
            assert(byte_len == encode_utf8(auth_header@).len());
        }
        if !(prefixed && byte_len > 6) {
            return None;
        }
        let (_, rest) = auth_header.split_at(6);
        let encoded = rest.to_owned();
        proof {
            encode_utf8_decode_utf8(rest@);
        }
        let raw = match decode_base64(encoded.as_str().as_bytes()) {
            Ok(bytes) => bytes,
            Err(_) => {
                return None;
            },
        };
        let decoded = match utf8_string(raw) {
            Ok(s) => s,
            Err(_) => {
                return None;
            },
        };
        Some(Credential { encoded, decoded })
    }

    /// The user name and password of a `user:password` text: the text before
    /// and after its first colon.
    pub fn parse_user_pass(&self, credential: &String) -> (r: Option<(String, String)>)
        ensures
            match r {
                Some(p) => split_once_spec(credential@, ':') == Some((p.0@, p.1@)),
                None => split_once_spec(credential@, ':') is None,
            },
    {
        split_once(credential.as_str(), ':')
    }

    /// Checks the password of a credential; a credential whose password
    /// matches is added to the cache.
    pub fn verify(&mut self, credential: &Credential) -> (r: bool)
        requires
            old(self).cache_sound(),
        ensures
            r == password_matches(old(self).credentials@, credential.decoded@),
            final(self).credentials@ == old(self).credentials@,
            final(self).cache_key@ == old(self).cache_key@,
            final(self).hashed_credential_cache@ == if r {
                old(self).hashed_credential_cache@.insert(cache_entry(old(self).cache_key@, credential.encoded@))
            } else {
                old(self).hashed_credential_cache@
            },
            final(self).cache_sound(),
    {
        let parts = self.parse_user_pass(&credential.decoded);
        match parts {
            None => false,
            Some((username, password)) => {
                let verified = match self.credentials.get(username.as_str()) {
                    None => {
                        return false;
                    },
                    Some(hash) => match bcrypt_verify(password.as_str().as_bytes(), hash.as_str()) {
                        Ok(b) => b,
                        Err(_) => false,
                    },
                };
                if verified {
                    let hashed = Self::hash_credential(&self.cache_key, credential.encoded.as_str());
                    let ghost old_cache = self.hashed_credential_cache@;
                    if !self.hashed_credential_cache.contains(hashed.as_str()) {
                        self.hashed_credential_cache.insert(hashed);
                    } else {
                        assert(old_cache.insert(hashed@) =~= old_cache);
                    }
                    assert forall|h: Seq<char>| #[trigger] self.hashed_credential_cache@.contains(h) implies exists|
                        enc: Seq<char>,
                        dec: Seq<char>,
                    | h == cache_entry(self.cache_key@, enc) && password_matches(self.credentials@, dec) by {
                        if h == hashed@ {
                            assert(h == cache_entry(self.cache_key@, credential.encoded@)
                                && password_matches(self.credentials@, credential.decoded@));
                        } else {
                            assert(old_cache.contains(h));
                        }
                    }
                }
                verified
            },
        }
    }

    /// Whether a request with the authorization header `auth_header` is let
    /// in; a credential whose password is checked and matches is cached.
    pub fn authorize(&mut self, auth_header: Option<&str>) -> (r: bool)
        requires
            old(self).cache_sound(),
            old(self).credentials@ != Map::<Seq<char>, Seq<char>>::empty() ==> match auth_header {
                Some(h) => has_basic_prefix(h@) ==> is_char_boundary(encode_utf8(h@), 6),
                None => true,
            },
        ensures
            r == authorize_spec(
                old(self).credentials@,
                old(self).hashed_credential_cache@,
                old(self).cache_key@,
                match auth_header {
                    Some(h) => Some(h@),
                    None => None,
                },
            ),
            final(self).hashed_credential_cache@ == cache_after(
                old(self).credentials@,
                old(self).hashed_credential_cache@,
                old(self).cache_key@,
                match auth_header {
                    Some(h) => Some(h@),
                    None => None,
                },
            ),
            final(self).credentials@ == old(self).credentials@,
            final(self).cache_key@ == old(self).cache_key@,
            final(self).cache_sound(),
    {
        if self.credentials.is_empty() {
            return true;
        }
        let header = match auth_header {
            None => {
                return false;
            },
            Some(h) => h,
        };
        let credential = match Self::is_valid_basic_auth_header(header) {
            None => {
                return false;
            },
            Some(c) => c,
        };
        let hashed = Self::hash_credential(&self.cache_key, credential.encoded.as_str());
        if self.hashed_credential_cache.contains(hashed.as_str()) {
            return true;
        }
        self.verify(&credential)
    }
}

} // verus!

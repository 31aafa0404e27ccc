//! The `crypto` host module: algorithm names, the streaming hash / HMAC
//! object, constant-time comparison and the random-number helpers.
//!
//! The hash functions themselves are those of the `md-5`, `sha1`, `sha2` and
//! `hmac` crates; randomness comes from the operating system through `rand`
//! and `uuid`.

use vstd::prelude::*;

use digest::Digest;
use hmac::{Hmac, Mac};
use rand::RngCore;

verus! {

/// The methods installed on the `crypto` host object.
#[derive(Clone, Copy, Debug, PartialEq, Eq, Structural)]
pub enum CryptoMethodKind {
    RandomBytes,
    RandomUuid,
    RandomInt,
    CreateHash,
    CreateHmac,
    TimingSafeEqual,
    GetHashes,
}

/// The methods of a hash / HMAC object.
#[derive(Clone, Copy, Debug, PartialEq, Eq, Structural)]
pub enum CryptoDigestKind {
    Update,
    Digest,
}

/// The supported digest algorithms.
#[derive(Clone, Copy, Debug, PartialEq, Eq, Structural)]
pub enum CryptoAlgorithm {
    Md5,
    Sha1,
    Sha256,
    Sha512,
}

/// `c` equals the lowercase ASCII character `t` once ASCII letters are
/// lowered (`t` is expected to be lowercase already).
pub open spec fn char_matches_lower(c: char, t: char) -> bool {
    c == t || ('A' <= c && c <= 'Z' && (c as u32) + 32 == (t as u32))
}

/// `s`, lowered ASCII-wise, is the lowercase text `t`.
pub open spec fn matches_ignoring_ascii_case(s: Seq<char>, t: Seq<char>) -> bool {
    &&& s.len() == t.len()
    &&& forall|i: int| 0 <= i < s.len() ==> char_matches_lower(#[trigger] s[i], t[i])
}

/// The algorithm that a `createHash` / `createHmac` label names.
pub open spec fn spec_parse_algorithm(s: Seq<char>) -> Option<CryptoAlgorithm> {
    if matches_ignoring_ascii_case(s, "md5"@) {
        Some(CryptoAlgorithm::Md5)
    } else if matches_ignoring_ascii_case(s, "sha1"@) || matches_ignoring_ascii_case(s, "sha-1"@) {
        Some(CryptoAlgorithm::Sha1)
    } else if matches_ignoring_ascii_case(s, "sha256"@) || matches_ignoring_ascii_case(
        s,
        "sha-256"@,
    ) {
        Some(CryptoAlgorithm::Sha256)
    } else if matches_ignoring_ascii_case(s, "sha512"@) || matches_ignoring_ascii_case(
        s,
        "sha-512"@,
    ) {
        Some(CryptoAlgorithm::Sha512)
    } else {
        None
    }
}

fn char_eq_lower(c: char, t: char) -> (r: bool)
    ensures
        r == char_matches_lower(c, t),
{
    if c == t {
        true
    } else if 'A' <= c && c <= 'Z' {
        (c as u32) + 32 == (t as u32)
    } else {
        false
    }
}

/// Compares `label` with the lowercase text `target`, ignoring ASCII case.
fn eq_ignore_ascii_case(label: &str, target: &str) -> (r: bool)
    ensures
        r == matches_ignoring_ascii_case(label@, target@),
{
    let n = label.unicode_len();
    if n != target.unicode_len() {
        return false;
    }
    let mut i: usize = 0;
    while i < n
        invariant
            n == label@.len(),
            n == target@.len(),
            i <= n,
            forall|j: int| 0 <= j < i ==> char_matches_lower(#[trigger] label@[j], target@[j]),
        decreases n - i,
    {
        if !char_eq_lower(label.get_char(i), target.get_char(i)) {
            return false;
        }
        i += 1;
    }
    true
}

/// Parses an algorithm label such as `"sha256"` or `"SHA-256"`.
pub fn parse_algorithm(label: &str) -> (r: Option<CryptoAlgorithm>)
    ensures
        r == spec_parse_algorithm(label@),
{
    if eq_ignore_ascii_case(label, "md5") {
        Some(CryptoAlgorithm::Md5)
    } else if eq_ignore_ascii_case(label, "sha1") || eq_ignore_ascii_case(label, "sha-1") {
        Some(CryptoAlgorithm::Sha1)
    } else if eq_ignore_ascii_case(label, "sha256") || eq_ignore_ascii_case(label, "sha-256") {
        Some(CryptoAlgorithm::Sha256)
    } else if eq_ignore_ascii_case(label, "sha512") || eq_ignore_ascii_case(label, "sha-512") {
        Some(CryptoAlgorithm::Sha512)
    } else {
        None
    }
}

/// `s` spells the lowercase label `t` with each of its letters in either
/// case.
pub open spec fn spelled_in_any_case(s: Seq<char>, t: Seq<char>) -> bool {
    &&& s.len() == t.len()
    &&& forall|i: int|
        0 <= i < s.len() ==> (#[trigger] s[i] == t[i] || (0x61 <= (t[i] as u32) <= 0x7a && (s[i] as u32) + 32
            == (t[i] as u32)))
}

proof fn lemma_ascii_upper_range(c: char)
    requires
        0x41 <= (c as u32) <= 0x5a,
    ensures
        'A' <= c && c <= 'Z',
{
}

proof fn lemma_spelled_is_matched(s: Seq<char>, t: Seq<char>)
    ensures
        spelled_in_any_case(s, t) <==> matches_ignoring_ascii_case(s, t),
{
    if spelled_in_any_case(s, t) {
        assert forall|i: int| 0 <= i < s.len() implies char_matches_lower(#[trigger] s[i], t[i]) by {
            let c = s[i];
            assert(c == t[i] || (0x61 <= (t[i] as u32) <= 0x7a && (c as u32) + 32 == (t[i] as u32)));
            if c != t[i] {
                lemma_ascii_upper_range(c);
            }
        }
    }
    if matches_ignoring_ascii_case(s, t) {
        assert forall|i: int| 0 <= i < s.len() implies #[trigger] s[i] == t[i] || (0x61 <= (t[i] as u32) <= 0x7a
            && (s[i] as u32) + 32 == (t[i] as u32)) by {
            let c = s[i];
            assert(char_matches_lower(c, t[i]));
            if c != t[i] {
                assert(0x41 <= (c as u32) <= 0x5a);
            }
        }
    }
}

/// The labels of the hash algorithms, in any ASCII case: `md5` names MD5,
/// `sha1` and `sha-1` SHA-1, `sha256` and `sha-256` SHA-256, `sha512` and
/// `sha-512` SHA-512; no other text names an algorithm.
pub proof fn law_algorithm_labels(s: Seq<char>)
    ensures
        spelled_in_any_case(s, "md5"@) ==> spec_parse_algorithm(s) == Some(CryptoAlgorithm::Md5),
        spelled_in_any_case(s, "sha1"@) || spelled_in_any_case(s, "sha-1"@) ==> spec_parse_algorithm(s) == Some(
            CryptoAlgorithm::Sha1,
        ),
        spelled_in_any_case(s, "sha256"@) || spelled_in_any_case(s, "sha-256"@) ==> spec_parse_algorithm(s) == Some(
            CryptoAlgorithm::Sha256,
        ),
        spelled_in_any_case(s, "sha512"@) || spelled_in_any_case(s, "sha-512"@) ==> spec_parse_algorithm(s) == Some(
            CryptoAlgorithm::Sha512,
        ),
        spec_parse_algorithm(s) is Some ==> spelled_in_any_case(s, "md5"@) || spelled_in_any_case(s, "sha1"@)
            || spelled_in_any_case(s, "sha-1"@) || spelled_in_any_case(s, "sha256"@) || spelled_in_any_case(
            s,
            "sha-256"@,
        ) || spelled_in_any_case(s, "sha512"@) || spelled_in_any_case(s, "sha-512"@),
{
    reveal_strlit("md5");
    reveal_strlit("sha1");
    reveal_strlit("sha-1");
    reveal_strlit("sha256");
    reveal_strlit("sha-256");
    reveal_strlit("sha512");
    reveal_strlit("sha-512");
    lemma_spelled_is_matched(s, "md5"@);
    lemma_spelled_is_matched(s, "sha1"@);
    lemma_spelled_is_matched(s, "sha-1"@);
    lemma_spelled_is_matched(s, "sha256"@);
    lemma_spelled_is_matched(s, "sha-256"@);
    lemma_spelled_is_matched(s, "sha512"@);
    lemma_spelled_is_matched(s, "sha-512"@);
    if matches_ignoring_ascii_case(s, "sha-512"@) || matches_ignoring_ascii_case(s, "sha-256"@) {
        assert(char_matches_lower(s[4], "sha-512"@[4]) || char_matches_lower(s[4], "sha-256"@[4]));
    }
    if matches_ignoring_ascii_case(s, "sha512"@) || matches_ignoring_ascii_case(s, "sha256"@) {
        assert(char_matches_lower(s[3], "sha512"@[3]) || char_matches_lower(s[3], "sha256"@[3]));
    }
}

/// What `md5::Md5::digest` returns for `data`.
pub uninterp spec fn md5_of(data: Seq<u8>) -> Seq<u8>;

/// What `sha1::Sha1::digest` returns for `data`.
pub uninterp spec fn sha1_of(data: Seq<u8>) -> Seq<u8>;

/// What `sha2::Sha256::digest` returns for `data`.
pub uninterp spec fn sha256_of(data: Seq<u8>) -> Seq<u8>;

/// What `sha2::Sha512::digest` returns for `data`.
pub uninterp spec fn sha512_of(data: Seq<u8>) -> Seq<u8>;

/// The tag that `Hmac<md5::Md5>` keyed with `key` computes over `data`.
pub uninterp spec fn hmac_md5_of(key: Seq<u8>, data: Seq<u8>) -> Seq<u8>;

/// The tag that `Hmac<sha1::Sha1>` keyed with `key` computes over `data`.
pub uninterp spec fn hmac_sha1_of(key: Seq<u8>, data: Seq<u8>) -> Seq<u8>;

/// The tag that `Hmac<sha2::Sha256>` keyed with `key` computes over `data`.
pub uninterp spec fn hmac_sha256_of(key: Seq<u8>, data: Seq<u8>) -> Seq<u8>;

/// The tag that `Hmac<sha2::Sha512>` keyed with `key` computes over `data`.
pub uninterp spec fn hmac_sha512_of(key: Seq<u8>, data: Seq<u8>) -> Seq<u8>;

/// Output length in bytes of each algorithm (the `OutputSize` of its core).
pub open spec fn digest_len(algorithm: CryptoAlgorithm) -> nat {
    match algorithm {
        CryptoAlgorithm::Md5 => 16,
        CryptoAlgorithm::Sha1 => 20,
        CryptoAlgorithm::Sha256 => 32,
        CryptoAlgorithm::Sha512 => 64,
    }
}

/// The digest (no key) or HMAC tag (with a key) of `data`.
pub open spec fn spec_digest(algorithm: CryptoAlgorithm, key: Option<Seq<u8>>, data: Seq<u8>) -> Seq<u8> {
    match key {
        Some(k) => match algorithm {
            CryptoAlgorithm::Md5 => hmac_md5_of(k, data),
            CryptoAlgorithm::Sha1 => hmac_sha1_of(k, data),
            CryptoAlgorithm::Sha256 => hmac_sha256_of(k, data),
            CryptoAlgorithm::Sha512 => hmac_sha512_of(k, data),
        },
        None => match algorithm {
            CryptoAlgorithm::Md5 => md5_of(data),
            CryptoAlgorithm::Sha1 => sha1_of(data),
            CryptoAlgorithm::Sha256 => sha256_of(data),
            CryptoAlgorithm::Sha512 => sha512_of(data),
        },
    }
}

/// `md5::Md5::digest`: the 16-byte MD5 digest of `data`.
#[verifier::external_body]
fn md5_digest(data: &[u8]) -> (out: Vec<u8>)
    ensures
        out@ == md5_of(data@),
        out@.len() == 16,
{
    md5::Md5::digest(data).to_vec()
}

/// `sha1::Sha1::digest`: the 20-byte SHA-1 digest of `data`.
#[verifier::external_body]
fn sha1_digest(data: &[u8]) -> (out: Vec<u8>)
    ensures
        out@ == sha1_of(data@),
        out@.len() == 20,
{
    sha1::Sha1::digest(data).to_vec()
}

/// `sha2::Sha256::digest`: the 32-byte SHA-256 digest of `data`.
#[verifier::external_body]
fn sha256_digest(data: &[u8]) -> (out: Vec<u8>)
    ensures
        out@ == sha256_of(data@),
        out@.len() == 32,
{
    sha2::Sha256::digest(data).to_vec()
}

/// `sha2::Sha512::digest`: the 64-byte SHA-512 digest of `data`.
#[verifier::external_body]
fn sha512_digest(data: &[u8]) -> (out: Vec<u8>)
    ensures
        out@ == sha512_of(data@),
        out@.len() == 64,
{
    sha2::Sha512::digest(data).to_vec()
}

/// `Hmac<md5::Md5>`: keys it with `key` (`new_from_slice` accepts keys of
/// any length), feeds `chunks` and returns the 16-byte tag.
#[verifier::external_body]
fn hmac_md5(key: &[u8], chunks: &[u8]) -> (out: Vec<u8>)
    ensures
        out@ == hmac_md5_of(key@, chunks@),
        out@.len() == 16,
{
    let mut mac = Hmac::<md5::Md5>::new_from_slice(key).expect("HMAC accepts any key length");
    Mac::update(&mut mac, chunks);
    mac.finalize().into_bytes().to_vec()
}

/// `Hmac<sha1::Sha1>`: keys it with `key` (any length), feeds `chunks` and
/// returns the 20-byte tag.
#[verifier::external_body]
fn hmac_sha1(key: &[u8], chunks: &[u8]) -> (out: Vec<u8>)
    ensures
        out@ == hmac_sha1_of(key@, chunks@),
        out@.len() == 20,
{
    let mut mac = Hmac::<sha1::Sha1>::new_from_slice(key).expect("HMAC accepts any key length");
    Mac::update(&mut mac, chunks);
    mac.finalize().into_bytes().to_vec()
}

/// `Hmac<sha2::Sha256>`: keys it with `key` (any length), feeds `chunks` and
/// returns the 32-byte tag.
#[verifier::external_body]
fn hmac_sha256(key: &[u8], chunks: &[u8]) -> (out: Vec<u8>)
    ensures
        out@ == hmac_sha256_of(key@, chunks@),
        out@.len() == 32,
{
    let mut mac = Hmac::<sha2::Sha256>::new_from_slice(key).expect("HMAC accepts any key length");
    Mac::update(&mut mac, chunks);
    mac.finalize().into_bytes().to_vec()
}

/// `Hmac<sha2::Sha512>`: keys it with `key` (any length), feeds `chunks` and
/// returns the 64-byte tag.
#[verifier::external_body]
fn hmac_sha512(key: &[u8], chunks: &[u8]) -> (out: Vec<u8>)
    ensures
        out@ == hmac_sha512_of(key@, chunks@),
        out@.len() == 64,
{
    let mut mac = Hmac::<sha2::Sha512>::new_from_slice(key).expect("HMAC accepts any key length");
    Mac::update(&mut mac, chunks);
    mac.finalize().into_bytes().to_vec()
}

pub open spec fn key_view(key: Option<&[u8]>) -> Option<Seq<u8>> {
    match key {
        Some(k) => Some(k@),
        None => None,
    }
}

/// The digest of `chunks` under `algorithm`, keyed (HMAC) when `key` is given.
pub fn compute_digest(algorithm: CryptoAlgorithm, key: Option<&[u8]>, chunks: &[u8]) -> (out: Vec<u8>)
    ensures
        out@ == spec_digest(algorithm, key_view(key), chunks@),
        out@.len() == digest_len(algorithm),
{
    match key {
        Some(key) => match algorithm {
            CryptoAlgorithm::Md5 => hmac_md5(key, chunks),
            CryptoAlgorithm::Sha1 => hmac_sha1(key, chunks),
            CryptoAlgorithm::Sha256 => hmac_sha256(key, chunks),
            CryptoAlgorithm::Sha512 => hmac_sha512(key, chunks),
        },
        None => match algorithm {
            CryptoAlgorithm::Md5 => md5_digest(chunks),
            CryptoAlgorithm::Sha1 => sha1_digest(chunks),
            CryptoAlgorithm::Sha256 => sha256_digest(chunks),
            CryptoAlgorithm::Sha512 => sha512_digest(chunks),
        },
    }
}

/// Why a crypto call was refused.
#[derive(Clone, Copy, Debug, PartialEq, Eq, Structural)]
pub enum CryptoError {
    /// `update` or `digest` after `digest` (an `Error`).
    DigestAlreadyCalled,
    /// `timingSafeEqual` on inputs of different lengths (a `RangeError`).
    LengthMismatch,
    /// `randomInt` with an empty or too large range (a `RangeError`).
    InvalidRandomIntRange,
    /// `randomInt` drew `u64::MAX` candidates in a row and rejected all of
    /// them; for a range of at most 2^48 each draw is rejected with
    /// probability below 2^-16.
    RandomSourceExhausted,
}

/// The message of the exception thrown for each error.
pub open spec fn crypto_error_message(e: CryptoError) -> Seq<char> {
    match e {
        CryptoError::DigestAlreadyCalled => "Digest already called"@,
        CryptoError::LengthMismatch => "Input buffers must have the same byte length"@,
        CryptoError::InvalidRandomIntRange => "Invalid randomInt range"@,
        CryptoError::RandomSourceExhausted => "Random source exhausted"@,
    }
}

/// The message each refusal throws with.
pub proof fn law_error_messages()
    ensures
        crypto_error_message(CryptoError::DigestAlreadyCalled) == "Digest already called"@,
        crypto_error_message(CryptoError::LengthMismatch) == "Input buffers must have the same byte length"@,
        crypto_error_message(CryptoError::InvalidRandomIntRange) == "Invalid randomInt range"@,
        crypto_error_message(CryptoError::RandomSourceExhausted) == "Random source exhausted"@,
{
}

impl CryptoError {
    /// The message of the exception that the host object throws.
    pub fn message(&self) -> (r: &'static str)
        ensures
            r@ == crypto_error_message(*self),
    {
        match self {
            CryptoError::DigestAlreadyCalled => "Digest already called",
            CryptoError::LengthMismatch => "Input buffers must have the same byte length",
            CryptoError::InvalidRandomIntRange => "Invalid randomInt range",
            CryptoError::RandomSourceExhausted => "Random source exhausted",
        }
    }
}

/// The state behind a hash / HMAC object: the bytes fed so far, and whether
/// `digest` has consumed it.
#[derive(Debug)]
pub struct CryptoDigestState {
    algorithm: CryptoAlgorithm,
    key: Option<Vec<u8>>,
    chunks: Vec<u8>,
    digested: bool,
}

pub struct CryptoDigestView {
    pub algorithm: CryptoAlgorithm,
    pub key: Option<Seq<u8>>,
    pub chunks: Seq<u8>,
    pub digested: bool,
}

pub open spec fn opt_bytes_view(key: Option<Vec<u8>>) -> Option<Seq<u8>> {
    match key {
        Some(k) => Some(k@),
        None => None,
    }
}

impl View for CryptoDigestState {
    type V = CryptoDigestView;

    closed spec fn view(&self) -> CryptoDigestView {
        CryptoDigestView {
            algorithm: self.algorithm,
            key: opt_bytes_view(self.key),
            chunks: self.chunks@,
            digested: self.digested,
        }
    }
}

/// The state after `update(bytes)`, or `None` when the update is refused.
pub open spec fn spec_update(s: CryptoDigestView, bytes: Seq<u8>) -> Option<CryptoDigestView> {
    if s.digested {
        None
    } else {
        Some(CryptoDigestView { chunks: s.chunks + bytes, ..s })
    }
}

/// The output and the state after `digest()`, or `None` when refused.
pub open spec fn spec_finish(s: CryptoDigestView) -> Option<(Seq<u8>, CryptoDigestView)> {
    if s.digested {
        None
    } else {
        Some((spec_digest(s.algorithm, s.key, s.chunks), CryptoDigestView { digested: true, ..s }))
    }
}

impl CryptoDigestState {
    /// A fresh hash object (`key` is `None`) or HMAC object.
    pub fn new(algorithm: CryptoAlgorithm, key: Option<Vec<u8>>) -> (r: CryptoDigestState)
        ensures
            r@ == (CryptoDigestView {
                algorithm,
                key: opt_bytes_view(key),
                chunks: Seq::empty(),
                digested: false,
            }),
    {
        CryptoDigestState { algorithm, key, chunks: Vec::new(), digested: false }
    }

    pub fn algorithm(&self) -> (r: CryptoAlgorithm)
        ensures
            r == self@.algorithm,
    {
        self.algorithm
    }

    pub fn is_digested(&self) -> (r: bool)
        ensures
            r == self@.digested,
    {
        self.digested
    }

    /// `hash.update(bytes)`: appends `bytes` to the input, unless the object
    /// was already digested.
    pub fn update(&mut self, bytes: &[u8]) -> (r: Result<(), CryptoError>)
        ensures
            match spec_update(old(self)@, bytes@) {
                Some(next) => r == Ok::<(), CryptoError>(()) && final(self)@ == next,
                None => r == Err::<(), CryptoError>(CryptoError::DigestAlreadyCalled)
                    && final(self)@ == old(self)@,
            },
    {
        if self.digested {
            return Err(CryptoError::DigestAlreadyCalled);
        }
        let mut i: usize = 0;
        while i < bytes.len()
            invariant
                i <= bytes@.len(),
                self.chunks@ == old(self).chunks@ + bytes@.subrange(0, i as int),
                self.algorithm == old(self).algorithm,
                self.key == old(self).key,
                self.digested == old(self).digested,
            decreases bytes@.len() - i,
        {
            self.chunks.push(bytes[i]);
            i += 1;
            assert(bytes@.subrange(0, i as int) =~= bytes@.subrange(0, i - 1) + seq![bytes@[i - 1]]);
        }
        assert(bytes@.subrange(0, bytes@.len() as int) =~= bytes@);
        Ok(())
    }

    /// `hash.digest()`: the digest of everything fed so far; the object is
    /// consumed and refuses any later call.
    pub fn digest(&mut self) -> (r: Result<Vec<u8>, CryptoError>)
        ensures
            match spec_finish(old(self)@) {
                Some((out, next)) => r matches Ok(v) && v@ == out && final(self)@ == next,
                None => r == Err::<Vec<u8>, CryptoError>(CryptoError::DigestAlreadyCalled)
                    && final(self)@ == old(self)@,
            },
    {
        if self.digested {
            return Err(CryptoError::DigestAlreadyCalled);
        }
        self.digested = true;
        let out = match &self.key {
            Some(k) => compute_digest(self.algorithm, Some(k.as_slice()), self.chunks.as_slice()),
            None => compute_digest(self.algorithm, None, self.chunks.as_slice()),
        };
        Ok(out)
    }
}

/// Feeding the input in two updates gives the same digest as feeding the
/// concatenation in one.
pub proof fn law_updates_concatenate(s: CryptoDigestView, a: Seq<u8>, b: Seq<u8>)
    requires
        !s.digested,
    ensures
        spec_update(spec_update(s, a).unwrap(), b) == spec_update(s, a + b),
        spec_finish(spec_update(spec_update(s, a).unwrap(), b).unwrap())
            == spec_finish(spec_update(s, a + b).unwrap()),
{
    assert(s.chunks + a + b =~= s.chunks + (a + b));
}

/// Once digested, the object refuses every further update and digest and
/// stays as it is.
pub proof fn law_digest_is_final(s: CryptoDigestView, bytes: Seq<u8>)
    requires
        !s.digested,
    ensures
        spec_finish(s) is Some,
        spec_update(spec_finish(s).unwrap().1, bytes) is None,
        spec_finish(spec_finish(s).unwrap().1) is None,
{
}

/// Every byte of `left` equals the byte of `right` at the same place.
pub open spec fn bytes_equal(left: Seq<u8>, right: Seq<u8>) -> bool {
    left.len() == right.len() && forall|i: int| 0 <= i < left.len() ==> left[i] == right[i]
}

proof fn lemma_or_xor_zero(acc: u8, a: u8, b: u8)
    ensures
        ((acc | (a ^ b)) == 0) <==> (acc == 0 && a == b),
{
    assert(((acc | (a ^ b)) == 0) <==> (acc == 0 && a == b)) by (bit_vector);
}

/// `crypto.timingSafeEqual(left, right)`: whether the buffers hold the same
/// bytes, reading every byte whatever the answer.
pub fn timing_safe_equal(left: &[u8], right: &[u8]) -> (r: Result<bool, CryptoError>)
    ensures
        left@.len() != right@.len() ==> r == Err::<bool, CryptoError>(CryptoError::LengthMismatch),
        left@.len() == right@.len() ==> r == Ok::<bool, CryptoError>(left@ == right@),
{
    if left.len() != right.len() {
        return Err(CryptoError::LengthMismatch);
    }
    let mut diff: u8 = 0;
    let mut i: usize = 0;
    while i < left.len()
        invariant
            left@.len() == right@.len(),
            i <= left@.len(),
            (diff == 0) <==> (forall|j: int| 0 <= j < i ==> left@[j] == right@[j]),
        decreases left@.len() - i,
    {
        proof {
            lemma_or_xor_zero(diff, left@[i as int], right@[i as int]);
        }
        diff = diff | (left[i] ^ right[i]);
        i += 1;
    }
    proof {
        if diff == 0 {
            assert(left@ =~= right@);
        }
    }
    Ok(diff == 0)
}

/// Largest range that `randomInt` accepts: 2^48.
pub const RANDOM_INT_MAX_RANGE: u64 = 0x1_0000_0000_0000;

/// `randomInt(min, max)` accepts the half-open range `[min, max)` when it is
/// non-empty and spans at most 2^48 integers.
pub open spec fn random_int_range_ok(min: i64, max: i64) -> bool {
    min < max && max - min <= RANDOM_INT_MAX_RANGE
}

/// Candidates below this bound are accepted: the largest multiple of
/// `range` that fits in a `u64`, so that `candidate % range` is uniform.
pub open spec fn acceptance_zone(range: u64) -> int {
    u64::MAX - (u64::MAX % range)
}

/// The sample that a candidate draw gives, or `None` when it is rejected.
pub open spec fn spec_random_int_sample(min: i64, max: i64, candidate: u64) -> Option<i64> {
    let range = (max - min) as u64;
    if candidate < acceptance_zone(range) {
        Some((min + candidate % range) as i64)
    } else {
        None
    }
}

/// One step of `randomInt`'s rejection sampling: maps a uniformly drawn
/// `candidate` into `[min, max)`, or rejects it.
pub fn random_int_sample(min: i64, max: i64, candidate: u64) -> (r: Option<i64>)
    requires
        random_int_range_ok(min, max),
    ensures
        r == spec_random_int_sample(min, max, candidate),
        r matches Some(v) ==> min <= v < max,
{
    let range: u64 = (max as i128 - min as i128) as u64;
    let zone: u64 = u64::MAX - (u64::MAX % range);
    if candidate < zone {
        let offset: u64 = candidate % range;
        Some((min as i128 + offset as i128) as i64)
    } else {
        None
    }
}

/// Each algorithm hashes with its own function, and keyed with its own
/// HMAC; the output lengths are 16, 20, 32 and 64 bytes.
pub proof fn law_algorithms_use_their_functions(key: Seq<u8>, data: Seq<u8>)
    ensures
        spec_digest(CryptoAlgorithm::Md5, None, data) == md5_of(data),
        spec_digest(CryptoAlgorithm::Sha1, None, data) == sha1_of(data),
        spec_digest(CryptoAlgorithm::Sha256, None, data) == sha256_of(data),
        spec_digest(CryptoAlgorithm::Sha512, None, data) == sha512_of(data),
        spec_digest(CryptoAlgorithm::Md5, Some(key), data) == hmac_md5_of(key, data),
        spec_digest(CryptoAlgorithm::Sha1, Some(key), data) == hmac_sha1_of(key, data),
        spec_digest(CryptoAlgorithm::Sha256, Some(key), data) == hmac_sha256_of(key, data),
        spec_digest(CryptoAlgorithm::Sha512, Some(key), data) == hmac_sha512_of(key, data),
        digest_len(CryptoAlgorithm::Md5) == 16,
        digest_len(CryptoAlgorithm::Sha1) == 20,
        digest_len(CryptoAlgorithm::Sha256) == 32,
        digest_len(CryptoAlgorithm::Sha512) == 64,
{
}

/// `randomInt`'s sampling step is uniform: the accepted candidates are a
/// whole number of runs of the range, fewer than one run is cut off at the
/// top, and within a run the `k`-th candidate gives `min + k`.
pub proof fn law_random_int_sampling_is_uniform(min: i64, max: i64, k: u64, runs: u64)
    requires
        random_int_range_ok(min, max),
    ensures
        acceptance_zone((max - min) as u64) % ((max - min) as u64 as int) == 0,
        u64::MAX - acceptance_zone((max - min) as u64) < (max - min),
        k < max - min && runs * (max - min) + k < acceptance_zone((max - min) as u64) ==> spec_random_int_sample(
            min,
            max,
            (runs * (max - min) + k) as u64,
        ) == Some((min + k) as i64),
        k >= acceptance_zone((max - min) as u64) ==> spec_random_int_sample(min, max, k) is None,
{
    let range = (max - min) as u64;
    let m = u64::MAX as int;
    let r = range as int;
    assert(r > 0);
    vstd::arithmetic::div_mod::lemma_fundamental_div_mod(m, r);
    vstd::arithmetic::div_mod::lemma_mod_multiples_basic(m / r, r);
    assert((m - m % r) == (m / r) * r);
    assert(acceptance_zone(range) == (m / r) * r);
    assert(((m / r) * r) % r == 0) by {
        vstd::arithmetic::div_mod::lemma_mod_multiples_basic(m / r, r);
    }
    vstd::arithmetic::div_mod::lemma_mod_bound(m, r);
    if k < r && runs * r + k < acceptance_zone(range) {
        assert(0 <= runs * r) by (nonlinear_arith)
            requires
                runs >= 0,
                r > 0,
        ;
        vstd::arithmetic::div_mod::lemma_mod_multiples_vanish(runs as int, k as int, r);
        vstd::arithmetic::div_mod::lemma_small_mod(k as nat, r as nat);
    }
}

/// `rand::rngs::OsRng.next_u64()`: a random `u64` from the operating system.
/// Nothing is promised of the value; the call panics only when the
/// operating system's random source fails.
#[verifier::external_body]
fn os_random_u64() -> (r: u64) {
    rand::rngs::OsRng.next_u64()
}

/// `rand::rngs::OsRng.fill_bytes(buf)`: overwrites every byte of `buf` with
/// random bytes; the length does not change. It panics only when the
/// operating system's random source fails.
#[verifier::external_body]
fn os_fill_bytes(buf: &mut Vec<u8>)
    ensures
        final(buf)@.len() == old(buf)@.len(),
{
    rand::rngs::OsRng.fill_bytes(buf.as_mut_slice())
}

/// `crypto.randomInt(min, max)`: a uniformly distributed integer in
/// `[min, max)`, drawn by rejection sampling from the operating system's
/// random source.
pub fn random_int(min: i64, max: i64) -> (r: Result<i64, CryptoError>)
    ensures
        !random_int_range_ok(min, max) ==> r == Err::<i64, CryptoError>(
            CryptoError::InvalidRandomIntRange,
        ),
        random_int_range_ok(min, max) ==> (r is Err ==> r == Err::<i64, CryptoError>(
            CryptoError::RandomSourceExhausted,
        )),
        r matches Ok(v) ==> random_int_range_ok(min, max) && min <= v < max && exists|c: u64|
            spec_random_int_sample(min, max, c) == Some(v),
{
    if !(min < max) || (max as i128 - min as i128) > RANDOM_INT_MAX_RANGE as i128 {
        return Err(CryptoError::InvalidRandomIntRange);
    }
    let mut attempts: u64 = 0;
    while attempts < u64::MAX
        invariant
            random_int_range_ok(min, max),
        decreases u64::MAX - attempts,
    {
        let candidate = os_random_u64();
        match random_int_sample(min, max, candidate) {
            Some(v) => {
                return Ok(v);
            },
            None => {},
        }
        attempts += 1;
    }
    Err(CryptoError::RandomSourceExhausted)
}

/// `crypto.randomBytes(size)`: `size` bytes from the operating system's
/// random source.
pub fn random_bytes(size: u32) -> (r: Vec<u8>)
    ensures
        r@.len() == size,
{
    let mut bytes: Vec<u8> = Vec::new();
    let mut i: u32 = 0;
    while i < size
        invariant
            i <= size,
            bytes@.len() == i,
        decreases size - i,
    {
        bytes.push(0u8);
        i += 1;
    }
    os_fill_bytes(&mut bytes);
    bytes
}

/// `c` is a lowercase hexadecimal digit.
pub open spec fn is_lower_hex_digit(c: char) -> bool {
    ('0' <= c && c <= '9') || ('a' <= c && c <= 'f')
}

/// The text form of a version-4 UUID: 36 characters, hyphens at 8, 13, 18
/// and 23, lowercase hex elsewhere, version digit `4` at 14 and an RFC 4122
/// variant digit (`8`, `9`, `a` or `b`) at 19.
pub open spec fn is_uuid_v4_text(s: Seq<char>) -> bool {
    &&& s.len() == 36
    &&& forall|i: int|
        0 <= i < 36 ==> if i == 8 || i == 13 || i == 18 || i == 23 {
            s[i] == '-'
        } else {
            is_lower_hex_digit(#[trigger] s[i])
        }
    &&& s[14] == '4'
    &&& (s[19] == '8' || s[19] == '9' || s[19] == 'a' || s[19] == 'b')
}

/// `uuid::Uuid::new_v4().to_string()`: a random version-4 UUID in its
/// hyphenated lowercase form (`new_v4` sets the version and variant bits;
/// `Display` writes the hyphenated lowercase form). It panics only when the
/// operating system's random source fails.
#[verifier::external_body]
fn new_v4_text() -> (s: String)
    ensures
        is_uuid_v4_text(s@),
{
    uuid::Uuid::new_v4().to_string()
}

/// `crypto.randomUUID()`: a fresh random version-4 UUID in text form.
pub fn random_uuid() -> (s: String)
    ensures
        is_uuid_v4_text(s@),
{
    new_v4_text()
}

/// `crypto.getHashes()`: the algorithm names, one per algorithm.
pub fn hash_names() -> (names: Vec<&'static str>)
    ensures
        names@.len() == 4,
        names@[0]@ == "md5"@,
        names@[1]@ == "sha1"@,
        names@[2]@ == "sha256"@,
        names@[3]@ == "sha512"@,
        spec_parse_algorithm(names@[0]@) == Some(CryptoAlgorithm::Md5),
        spec_parse_algorithm(names@[1]@) == Some(CryptoAlgorithm::Sha1),
        spec_parse_algorithm(names@[2]@) == Some(CryptoAlgorithm::Sha256),
        spec_parse_algorithm(names@[3]@) == Some(CryptoAlgorithm::Sha512),
{
    let names = vec!["md5", "sha1", "sha256", "sha512"];
    proof {
        reveal_strlit("md5");
        reveal_strlit("sha1");
        reveal_strlit("sha-1");
        reveal_strlit("sha256");
        reveal_strlit("sha-256");
        reveal_strlit("sha512");
        reveal_strlit("sha-512");
        assert(!char_matches_lower("sha512"@[3], "sha256"@[3]));
    }
    names
}

} // verus!

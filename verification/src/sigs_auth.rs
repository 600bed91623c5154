//! The proof-of-key-possession header provider: it authenticates every
//! request by signing, with a held private key, the hash of a fixed
//! domain-separation salt, the derived public key, and the current time —
//! fresh on every call, with no cached session state.

use vstd::prelude::*;
use vstd::utf8::encode_utf8;
use vstd::string::{StrSliceExecFns, StringExecFns};
use crate::codec::append_bytes;
use crate::headers::{headers_view, VssHeaderProvider, VssHeaderProviderError};
use crate::util::push_char;

verus! {

/// Whether the outside library accepts these bytes as a secret key: the
/// success condition of `bitcoin::secp256k1::SecretKey::from_slice`.
pub uninterp spec fn secret_key_valid(sk: Seq<u8>) -> bool;

/// The compressed serialized public key that
/// `bitcoin::secp256k1::SecretKey::public_key` derives from a secret key; a
/// function of the key alone.
pub uninterp spec fn pubkey_bytes_of(sk: Seq<u8>) -> Seq<u8>;

/// The digest that `bitcoin::hashes::sha256` computes; a function of the
/// input bytes alone.
pub uninterp spec fn sha256_of(b: Seq<u8>) -> Seq<u8>;

/// The compact serialized signature that
/// `bitcoin::secp256k1::Secp256k1::sign_ecdsa` produces for a digest under a
/// secret key; deterministic, as the library derives its nonce from key and
/// digest alone.
pub uninterp spec fn ecdsa_sig_of(sk: Seq<u8>, digest: Seq<u8>) -> Seq<u8>;

/// Relies on `bitcoin::secp256k1::SecretKey::from_slice`: it accepts
/// exactly the byte strings that form a well-formed secret key.
#[verifier::external_body]
fn check_secret_key(sk: &Vec<u8>) -> (r: bool)
    ensures
        r == secret_key_valid(sk@),
{
    bitcoin::secp256k1::SecretKey::from_slice(sk.as_slice()).is_ok()
}

/// Relies on `bitcoin::secp256k1::SecretKey::public_key` and
/// `PublicKey::serialize`: derivation succeeds exactly on well-formed keys,
/// depends on the key alone, and the compressed serialized form is 33
/// bytes. `SecretKey::from_slice` converts the argument.
#[verifier::external_body]
fn derive_pubkey(sk: &Vec<u8>) -> (r: Option<Vec<u8>>)
    ensures
        r is Some <==> secret_key_valid(sk@),
        r matches Some(pk) ==> pk@ == pubkey_bytes_of(sk@) && pk@.len() == 33,
{
    let secp = bitcoin::secp256k1::Secp256k1::signing_only();
    match bitcoin::secp256k1::SecretKey::from_slice(sk.as_slice()) {
        Ok(key) => Some(key.public_key(&secp).serialize().to_vec()),
        Err(_) => None,
    }
}

/// Relies on `bitcoin::hashes::sha256::Hash::hash`: the digest is a
/// function of the input bytes alone and is 32 bytes long.
#[verifier::external_body]
fn sha256_digest(b: &Vec<u8>) -> (r: Vec<u8>)
    ensures
        r@ == sha256_of(b@),
        r@.len() == 32,
{
    let h = <bitcoin::hashes::sha256::Hash as bitcoin::hashes::Hash>::hash(b.as_slice());
    <bitcoin::hashes::sha256::Hash as bitcoin::hashes::Hash>::to_byte_array(h).to_vec()
}

/// Relies on `bitcoin::secp256k1::Secp256k1::sign_ecdsa`: it signs a
/// 32-byte digest under a well-formed key, deterministically (the nonce is
/// derived from key and digest), and `Signature::serialize_compact` yields
/// 64 bytes. `SecretKey::from_slice` and `Message::from_digest` convert the
/// arguments.
#[verifier::external_body]
fn sign_digest(sk: &Vec<u8>, digest: &Vec<u8>) -> (r: Option<Vec<u8>>)
    requires
        digest@.len() == 32,
    ensures
        r is Some <==> secret_key_valid(sk@),
        r matches Some(sig) ==> sig@ == ecdsa_sig_of(sk@, digest@) && sig@.len() == 64,
{
    let secp = bitcoin::secp256k1::Secp256k1::signing_only();
    let key = match bitcoin::secp256k1::SecretKey::from_slice(sk.as_slice()) {
        Ok(k) => k,
        Err(_) => {
            return None;
        },
    };
    let mut d = [0u8; 32];
    d.copy_from_slice(digest.as_slice());
    let msg = bitcoin::secp256k1::Message::from_digest(d);
    Some(secp.sign_ecdsa(&msg, &key).serialize_compact().to_vec())
}

/// Relies on `std::time::SystemTime::now`: the current wall-clock reading,
/// about which nothing is promised.
#[verifier::external_body]
fn system_time_now() -> std::time::SystemTime {
    std::time::SystemTime::now()
}

/// Relies on `std::time::SystemTime::duration_since`: the whole seconds
/// between the epoch and `t`, or nothing when the clock reads before the
/// epoch. `Duration::as_secs` converts the result.
#[verifier::external_body]
fn secs_since_epoch(t: &std::time::SystemTime) -> Option<u64> {
    match t.duration_since(std::time::SystemTime::UNIX_EPOCH) {
        Ok(d) => Some(d.as_secs()),
        Err(_) => None,
    }
}

#[verifier::external_type_specification]
#[verifier::external_body]
pub struct ExSystemTime(std::time::SystemTime);

/// The fixed 64-byte domain-separation salt that begins every signed
/// message, keeping these signatures from being confused with any other
/// protocol's.
pub open spec fn signing_salt() -> Seq<u8> {
    encode_utf8("VSS Signature Authorizer Signing Salt Constant.................."@)
}

/// The salt as bytes.
pub fn signing_salt_bytes() -> (r: Vec<u8>)
    ensures
        r@ == signing_salt(),
{
    "VSS Signature Authorizer Signing Salt Constant..................".as_bytes_vec()
}

/// The salt is exactly 64 bytes long.
pub proof fn lemma_signing_salt_len()
    ensures
        signing_salt().len() == 64,
{
    let s = "VSS Signature Authorizer Signing Salt Constant.................."@;
    reveal_strlit("VSS Signature Authorizer Signing Salt Constant..................");
    assert(vstd::utf8::is_ascii_chars(s));
    vstd::utf8::is_ascii_chars_encode_utf8(s);
}

/// The ASCII bytes of `n` written in decimal, most significant digit first,
/// no leading zeros.
pub open spec fn ascii_digits(n: nat) -> Seq<u8>
    decreases n,
{
    if n < 10 {
        seq![(48 + n) as u8]
    } else {
        ascii_digits(n / 10) + seq![(48 + n % 10) as u8]
    }
}

/// The decimal digits of `n` as characters.
pub open spec fn decimal_chars(n: nat) -> Seq<char>
    decreases n,
{
    if n < 10 {
        seq![((48 + n) as u8) as char]
    } else {
        decimal_chars(n / 10) + seq![((48 + n % 10) as u8) as char]
    }
}

/// Appends the decimal ASCII bytes of `n`.
pub fn push_decimal_bytes(out: &mut Vec<u8>, n: u64)
    ensures
        final(out)@ == old(out)@ + ascii_digits(n as nat),
    decreases n,
{
    if n < 10 {
        out.push(48 + (n as u8));
        proof {
            assert(out@ =~= old(out)@ + ascii_digits(n as nat));
        }
    } else {
        push_decimal_bytes(out, n / 10);
        out.push(48 + ((n % 10) as u8));
        proof {
            assert(out@ =~= old(out)@ + ascii_digits(n as nat));
        }
    }
}

/// Appends the decimal digits of `n` as characters.
pub fn push_decimal_chars(out: &mut String, n: u64)
    ensures
        final(out)@ == old(out)@ + decimal_chars(n as nat),
    decreases n,
{
    if n < 10 {
        push_char(out, (48 + (n as u8)) as char);
        proof {
            assert(out@ =~= old(out)@ + decimal_chars(n as nat));
        }
    } else {
        push_decimal_chars(out, n / 10);
        push_char(out, (48 + ((n % 10) as u8)) as char);
        proof {
            assert(out@ =~= old(out)@ + decimal_chars(n as nat));
        }
    }
}

/// The character for one hexadecimal digit, lower case.
pub open spec fn hex_digit(d: nat) -> char {
    if d < 10 {
        ((48 + d) as u8) as char
    } else {
        ((87 + d) as u8) as char
    }
}

/// The lower-case hexadecimal form of `b`, two characters per byte.
pub open spec fn hex_chars(b: Seq<u8>) -> Seq<char>
    decreases b.len(),
{
    if b.len() == 0 {
        Seq::empty()
    } else {
        seq![hex_digit((b[0] / 16) as nat), hex_digit((b[0] % 16) as nat)] + hex_chars(
            b.drop_first(),
        )
    }
}

/// The character for one hexadecimal digit, lower case.
fn hex_digit_char(d: u8) -> (c: char)
    requires
        d < 16,
    ensures
        c == hex_digit(d as nat),
{
    if d < 10 {
        (48 + d) as char
    } else {
        (87 + d) as char
    }
}

/// Appends the lower-case hexadecimal form of `b`.
pub fn push_hex_chars(out: &mut String, b: &Vec<u8>)
    ensures
        final(out)@ == old(out)@ + hex_chars(b@),
{
    let mut i: usize = 0;
    proof {
        assert(b@.skip(0) =~= b@);
    }
    while i < b.len()
        invariant
            i <= b.len(),
            out@ + hex_chars(b@.skip(i as int)) == old(out)@ + hex_chars(b@),
        decreases b.len() - i,
    {
        let byte = b[i];
        let ghost rem = b@.skip(i as int);
        proof {
            assert(rem[0] == byte);
            assert(rem.drop_first() =~= b@.skip(i as int + 1));
        }
        push_char(out, hex_digit_char(byte / 16));
        push_char(out, hex_digit_char(byte % 16));
        i = i + 1;
        proof {
            assert(out@ + hex_chars(b@.skip(i as int)) =~= old(out)@ + hex_chars(b@));
        }
    }
    proof {
        assert(b@.skip(b@.len() as int) =~= Seq::<u8>::empty());
        assert(out@ =~= old(out)@ + hex_chars(b@));
    }
}

/// The bytes that get hashed and signed for time `now`: the salt, the
/// compressed public key, the decimal ASCII digits of the timestamp.
pub open spec fn signed_message(sk: Seq<u8>, now: u64) -> Seq<u8> {
    signing_salt() + pubkey_bytes_of(sk) + ascii_digits(now as nat)
}

/// The authentication token for time `now`: the hexadecimal public key,
/// the hexadecimal compact signature over that time's digest, and the
/// decimal timestamp, concatenated with no separators.
pub open spec fn token_of(sk: Seq<u8>, now: u64) -> Seq<char> {
    hex_chars(pubkey_bytes_of(sk)) + hex_chars(
        ecdsa_sig_of(sk, sha256_of(signed_message(sk, now))),
    ) + decimal_chars(now as nat)
}

/// Builds the proof-of-key-possession token for time `now`, or nothing when
/// the key bytes are not a well-formed secret key. The token is 66
/// characters of public-key text, 128 characters of signature text, then
/// the decimal timestamp, with no separators.
pub fn build_token(key: &Vec<u8>, now: u64) -> (r: Option<String>)
    ensures
        r is Some <==> secret_key_valid(key@),
        r matches Some(t) ==> t@ == token_of(key@, now),
        r is Some ==> pubkey_bytes_of(key@).len() == 33 && ecdsa_sig_of(
            key@,
            sha256_of(signed_message(key@, now)),
        ).len() == 64,
        r matches Some(t) ==> t@.len() == 194 + decimal_chars(now as nat).len(),
{
    let pk = match derive_pubkey(key) {
        Some(pk) => pk,
        None => {
            return None;
        },
    };
    let mut msg = signing_salt_bytes();
    append_bytes(&mut msg, &pk);
    push_decimal_bytes(&mut msg, now);
    proof {
        assert(msg@ =~= signed_message(key@, now));
    }
    let digest = sha256_digest(&msg);
    let sig = match sign_digest(key, &digest) {
        Some(s) => s,
        None => {
            proof {
                assert(false);
            }
            return None;
        },
    };
    let mut out = String::new();
    push_hex_chars(&mut out, &pk);
    push_hex_chars(&mut out, &sig);
    push_decimal_chars(&mut out, now);
    proof {
        assert(out@ =~= token_of(key@, now));
        lemma_hex_chars_len(pubkey_bytes_of(key@));
        lemma_hex_chars_len(ecdsa_sig_of(key@, sha256_of(signed_message(key@, now))));
    }
    Some(out)
}

/// Hexadecimal text is two characters per byte.
pub proof fn lemma_hex_chars_len(b: Seq<u8>)
    ensures
        hex_chars(b).len() == 2 * b.len(),
    decreases b.len(),
{
    if b.len() > 0 {
        lemma_hex_chars_len(b.drop_first());
    }
}

/// A decimal digit string is never empty.
pub proof fn lemma_decimal_chars_nonempty(n: nat)
    ensures
        decimal_chars(n).len() >= 1,
    decreases n,
{
    if n >= 10 {
        lemma_decimal_chars_nonempty(n / 10);
    }
}

/// Distinct numbers have distinct decimal digit strings.
pub proof fn lemma_decimal_chars_injective(a: nat, b: nat)
    requires
        a != b,
    ensures
        decimal_chars(a) != decimal_chars(b),
    decreases a + b,
{
    let da = decimal_chars(a);
    let db = decimal_chars(b);
    if a < 10 && b < 10 {
        assert(da[0] != db[0]);
    } else if a < 10 {
        lemma_decimal_chars_nonempty(b / 10);
        assert(db.len() >= 2 && da.len() == 1);
    } else if b < 10 {
        lemma_decimal_chars_nonempty(a / 10);
        assert(da.len() >= 2 && db.len() == 1);
    } else {
        if a % 10 != b % 10 {
            assert(da.last() != db.last());
        } else {
            lemma_decimal_chars_injective(a / 10, b / 10);
            if da == db {
                assert(da.drop_last() =~= decimal_chars(a / 10));
                assert(db.drop_last() =~= decimal_chars(b / 10));
                assert(false);
            }
        }
    }
}

/// Two tokens built for the same key at different times agree on the
/// leading public-key text (both decode to the same public key), each
/// embeds the hexadecimal signature over its own time's digest, and their
/// decimal timestamp suffixes differ.
pub proof fn lemma_tokens_same_key(sk: Seq<u8>, t1: u64, t2: u64)
    requires
        t1 != t2,
    ensures
        ({
            let pk_text = hex_chars(pubkey_bytes_of(sk));
            token_of(sk, t1).take(pk_text.len() as int) == pk_text && token_of(
                sk,
                t2,
            ).take(pk_text.len() as int) == pk_text
        }),
        ({
            let pk_text = hex_chars(pubkey_bytes_of(sk));
            let sig_text = hex_chars(ecdsa_sig_of(sk, sha256_of(signed_message(sk, t1))));
            token_of(sk, t1).subrange(
                pk_text.len() as int,
                pk_text.len() + sig_text.len() as int,
            ) == sig_text && token_of(sk, t1).skip(pk_text.len() + sig_text.len() as int)
                == decimal_chars(t1 as nat)
        }),
        ({
            let pk_text = hex_chars(pubkey_bytes_of(sk));
            let sig_text = hex_chars(ecdsa_sig_of(sk, sha256_of(signed_message(sk, t2))));
            token_of(sk, t2).subrange(
                pk_text.len() as int,
                pk_text.len() + sig_text.len() as int,
            ) == sig_text && token_of(sk, t2).skip(pk_text.len() + sig_text.len() as int)
                == decimal_chars(t2 as nat)
        }),
        decimal_chars(t1 as nat) != decimal_chars(t2 as nat),
{
    let pk_text = hex_chars(pubkey_bytes_of(sk));
    let sig_text1 = hex_chars(ecdsa_sig_of(sk, sha256_of(signed_message(sk, t1))));
    let sig_text2 = hex_chars(ecdsa_sig_of(sk, sha256_of(signed_message(sk, t2))));
    assert(token_of(sk, t1).take(pk_text.len() as int) =~= pk_text);
    assert(token_of(sk, t2).take(pk_text.len() as int) =~= pk_text);
    assert(token_of(sk, t1).subrange(
        pk_text.len() as int,
        pk_text.len() + sig_text1.len() as int,
    ) =~= sig_text1);
    assert(token_of(sk, t1).skip(pk_text.len() + sig_text1.len() as int) =~= decimal_chars(
        t1 as nat,
    ));
    assert(token_of(sk, t2).subrange(
        pk_text.len() as int,
        pk_text.len() + sig_text2.len() as int,
    ) =~= sig_text2);
    assert(token_of(sk, t2).skip(pk_text.len() + sig_text2.len() as int) =~= decimal_chars(
        t2 as nat,
    ));
    lemma_decimal_chars_injective(t1 as nat, t2 as nat);
}

/// The header name the token travels under.
pub open spec fn auth_header_name() -> Seq<char> {
    "Authorization"@
}

/// `h` without any entry named `Authorization`.
pub open spec fn sans_auth(h: Seq<(Seq<char>, Seq<char>)>) -> Seq<(Seq<char>, Seq<char>)> {
    h.filter(|p: (Seq<char>, Seq<char>)| p.0 != "Authorization"@)
}

/// The mapping a signing provider returns: the caller's defaults with any
/// colliding `Authorization` entry dropped, then the computed token, which
/// always wins.
pub open spec fn merged_headers(
    defaults: Seq<(Seq<char>, Seq<char>)>,
    token: Seq<char>,
) -> Seq<(Seq<char>, Seq<char>)> {
    sans_auth(defaults).push(("Authorization"@, token))
}

/// A provider that proves knowledge of a private key: every request gets a
/// fresh `Authorization` token built from a fresh timestamp, with no cached
/// session state.
pub struct SigsAuthProvider {
    key: Vec<u8>,
    default_headers: Vec<(String, String)>,
}

impl SigsAuthProvider {
    /// The secret key bytes this provider signs with.
    pub closed spec fn key_bytes(&self) -> Seq<u8> {
        self.key@
    }

    /// The caller-supplied default headers.
    pub closed spec fn defaults(&self) -> Seq<(Seq<char>, Seq<char>)> {
        headers_view(self.default_headers@)
    }

    #[verifier::type_invariant]
    spec fn key_well_formed(&self) -> bool {
        secret_key_valid(self.key@)
    }

    /// Creates a provider signing with `key`, or nothing when `key` is not
    /// a well-formed secret key. Headers in `default_headers` accompany the
    /// token on every request, except an `Authorization` entry, which the
    /// token replaces.
    pub fn new(key: Vec<u8>, default_headers: Vec<(String, String)>) -> (r: Option<
        SigsAuthProvider,
    >)
        ensures
            r is Some <==> secret_key_valid(key@),
            r matches Some(p) ==> p.key_bytes() == key@ && p.defaults() == headers_view(
                default_headers@,
            ),
    {
        if check_secret_key(&key) {
            Some(SigsAuthProvider { key, default_headers })
        } else {
            None
        }
    }

    /// The headers for one request at time `now`: the defaults without any
    /// caller-supplied `Authorization` entry, then the fresh token.
    pub fn headers_at(&self, now: u64) -> (r: Vec<(String, String)>)
        ensures
            headers_view(r@) == merged_headers(
                self.defaults(),
                token_of(self.key_bytes(), now),
            ),
    {
        proof {
            use_type_invariant(self);
        }
        let token = match build_token(&self.key, now) {
            Some(t) => t,
            None => {
                proof {
                    assert(false);
                }
                String::new()
            },
        };
        let auth = String::from_str("Authorization");
        let ghost defaults = self.defaults();
        let mut out: Vec<(String, String)> = Vec::new();
        let mut i: usize = 0;
        proof {
            reveal(Seq::filter);
            assert(defaults.subrange(0, 0) =~= Seq::<(Seq<char>, Seq<char>)>::empty());
        }
        while i < self.default_headers.len()
            invariant
                i <= self.default_headers.len(),
                defaults == self.defaults(),
                defaults.len() == self.default_headers@.len(),
                auth@ == "Authorization"@,
                headers_view(out@) =~= sans_auth(defaults.subrange(0, i as int)),
            decreases self.default_headers.len() - i,
        {
            let pair: &(String, String) = &self.default_headers[i];
            proof {
                reveal(Seq::filter);
                assert(defaults[i as int] == (pair.0@, pair.1@));
                assert(defaults.subrange(0, i as int + 1).drop_last() =~= defaults.subrange(
                    0,
                    i as int,
                ));
                assert(defaults.subrange(0, i as int + 1).last() == defaults[i as int]);
            }
            let ghost prev = out@;
            if !(pair.0 == auth) {
                let name = pair.0.clone();
                let value = pair.1.clone();
                out.push((name, value));
                proof {
                    assert(headers_view(out@) =~= headers_view(prev).push(
                        (pair.0@, pair.1@),
                    ));
                }
            }
            i = i + 1;
            proof {
                assert(headers_view(out@) =~= sans_auth(defaults.subrange(0, i as int)));
            }
        }
        proof {
            assert(defaults.subrange(0, defaults.len() as int) =~= defaults);
        }
        let ghost before_push = out@;
        out.push((auth, token));
        proof {
            assert(headers_view(out@) =~= headers_view(before_push).push(
                ("Authorization"@, token_of(self.key_bytes(), now)),
            ));
            assert(headers_view(out@) =~= merged_headers(
                self.defaults(),
                token_of(self.key_bytes(), now),
            ));
        }
        out
    }
}

impl VssHeaderProvider for SigsAuthProvider {
    /// Reads the clock and returns the defaults merged with a fresh token
    /// for that time; fails only when the clock reads before the epoch.
    fn get_headers(&self, request: &Vec<u8>) -> (r: Result<
        Vec<(String, String)>,
        VssHeaderProviderError,
    >)
        ensures
            r matches Ok(h) ==> exists|now: u64|
                headers_view(h@) == merged_headers(
                    self.defaults(),
                    token_of(self.key_bytes(), now),
                ),
    {
        let t = system_time_now();
        match secs_since_epoch(&t) {
            Some(now) => {
                let h = self.headers_at(now);
                proof {
                    assert(headers_view(h@) == merged_headers(
                        self.defaults(),
                        token_of(self.key_bytes(), now),
                    ));
                }
                Ok(h)
            },
            None => Err(
                VssHeaderProviderError {
                    message: String::from_str("clock reads before the epoch"),
                },
            ),
        }
    }
}

} // verus!

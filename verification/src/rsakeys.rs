//! The asymmetric key pair wrapper: loads a passphrase-protected private key
//! and a public key from PEM text, and offers encrypt/decrypt with PKCS#1
//! padding and URL-safe base64 framing. The caller reads the PEM files and
//! hands their bytes in.
use vstd::prelude::*;

use crate::error::ErrorReport;
use vstd::utf8::valid_utf8;
use vstd::string::StringSliceAdditionalSpecFns;

verus! {

#[verifier::external_type_specification]
#[verifier::external_body]
#[verifier::reject_recursive_types(T)]
pub struct ExRsa<T>(openssl::rsa::Rsa<T>);

#[verifier::external_type_specification]
#[verifier::external_body]
pub struct ExPrivate(openssl::pkey::Private);

#[verifier::external_type_specification]
#[verifier::external_body]
pub struct ExPublic(openssl::pkey::Public);

/// Relies on openssl's `Clone` for `Rsa<T>`: it hands back a reference to
/// the same underlying key, indistinguishable from the original.
pub assume_specification<T>[ <openssl::rsa::Rsa<T> as core::clone::Clone>::clone ](
    k: &openssl::rsa::Rsa<T>,
) -> (r: openssl::rsa::Rsa<T>)
    ensures
        r == *k,
;

/// Whether these PEM bytes spell an encrypted PKCS#1 private key that this
/// passphrase opens; it depends on the two byte strings alone.
pub uninterp spec fn private_pem_ok(pem: Seq<u8>, passphrase: Seq<u8>) -> bool;

/// Whether these PEM bytes spell a PKCS#1 public key; it depends on the
/// bytes alone.
pub uninterp spec fn public_pem_ok(pem: Seq<u8>) -> bool;

/// The URL-safe, unpadded base64 text of a byte string.
pub uninterp spec fn b64url_of(data: Seq<u8>) -> Seq<char>;

/// The size in bytes of a public key's modulus (openssl's `RSA_size`).
pub uninterp spec fn rsa_pub_size(key: openssl::rsa::Rsa<openssl::pkey::Public>) -> nat;

/// The size in bytes of a private key's modulus (openssl's `RSA_size`).
pub uninterp spec fn rsa_priv_size(key: openssl::rsa::Rsa<openssl::pkey::Private>) -> nat;

/// The PKCS#1 type-1 ciphertext of `data` under a private key (openssl's
/// `RSA_private_encrypt`): its padding is fixed bytes, so the ciphertext is
/// a function of key and data alone.
pub uninterp spec fn priv_ct_of(
    key: openssl::rsa::Rsa<openssl::pkey::Private>,
    data: Seq<u8>,
) -> Seq<u8>;

/// What private-key PKCS#1 decryption (openssl's `RSA_private_decrypt`)
/// recovers from a ciphertext: the plaintext, or nothing where the bytes are
/// no valid ciphertext under the key.
pub uninterp spec fn priv_pt_of(
    key: openssl::rsa::Rsa<openssl::pkey::Private>,
    ct: Seq<u8>,
) -> Option<Seq<u8>>;

/// What public-key PKCS#1 decryption (openssl's `RSA_public_decrypt`)
/// recovers from a ciphertext made with the matching private key.
pub uninterp spec fn pub_pt_of(
    key: openssl::rsa::Rsa<openssl::pkey::Public>,
    ct: Seq<u8>,
) -> Option<Seq<u8>>;

/// Whether a public-key value and a private-key value hold the same RSA key
/// material. The inversion clauses of the encrypt wrappers hold under this
/// pairing; nothing in the library can establish it for two keys loaded
/// from unrelated PEM texts, so what rests on it stays conditional.
pub uninterp spec fn rsa_pair(
    pubk: openssl::rsa::Rsa<openssl::pkey::Public>,
    privk: openssl::rsa::Rsa<openssl::pkey::Private>,
) -> bool;

/// An optional plaintext that is present and spells UTF-8 text.
pub open spec fn utf8_plaintext(pt: Option<Seq<u8>>) -> bool {
    match pt {
        Some(bytes) => valid_utf8(bytes),
        None => false,
    }
}

/// A public-key encryption of `plain`: a ciphertext of the key's size that
/// any matching private key decrypts back to `plain`.
pub open spec fn pub_ciphertext_ok(
    key: openssl::rsa::Rsa<openssl::pkey::Public>,
    plain: Seq<u8>,
    ct: Seq<u8>,
) -> bool {
    &&& ct.len() == rsa_pub_size(key)
    &&& forall|privk: openssl::rsa::Rsa<openssl::pkey::Private>|
        rsa_pair(key, privk) ==> #[trigger] priv_pt_of(privk, ct) == Some(plain)
}

/// Relies on openssl's `Rsa::private_key_from_pem_passphrase`: whether the
/// key loads depends on the PEM bytes and the passphrase alone. The call
/// panics on a passphrase with an interior NUL byte (it goes through
/// `CString::new`) and on a PEM longer than `i32::MAX` bytes, so both are
/// ruled out here.
#[verifier::external_body]
fn rsa_private_from_pem(pem: &Vec<u8>, passphrase: &str) -> (r: Result<
    openssl::rsa::Rsa<openssl::pkey::Private>,
    String,
>)
    requires
        pem@.len() <= 0x7fffffff,
        forall|i: int|
            0 <= i < passphrase.spec_bytes().len() ==> passphrase.spec_bytes()[i] != 0,
    ensures
        r is Ok <==> private_pem_ok(pem@, passphrase.spec_bytes()),
{
    match openssl::rsa::Rsa::private_key_from_pem_passphrase(
        pem.as_slice(),
        passphrase.as_bytes(),
    ) {
        Ok(k) => Ok(k),
        Err(e) => Err(format!("{}", e)),
    }
}

/// Relies on openssl's `Rsa::public_key_from_pem`: whether the key loads
/// depends on the PEM bytes alone. The call panics on a PEM longer than
/// `i32::MAX` bytes, so that is ruled out here.
#[verifier::external_body]
fn rsa_public_from_pem(pem: &Vec<u8>) -> (r: Result<
    openssl::rsa::Rsa<openssl::pkey::Public>,
    String,
>)
    requires
        pem@.len() <= 0x7fffffff,
    ensures
        r is Ok <==> public_pem_ok(pem@),
{
    match openssl::rsa::Rsa::public_key_from_pem(pem.as_slice()) {
        Ok(k) => Ok(k),
        Err(e) => Err(format!("{}", e)),
    }
}

/// Relies on openssl's `Rsa::public_encrypt` with PKCS#1 v1.5 padding: it
/// succeeds exactly when the data fits the key (eleven bytes of padding),
/// writes a ciphertext of exactly the key's size into a caller-supplied
/// buffer of that size (allocated here for that reason), and the matching
/// private key recovers the data from that ciphertext. The input must be
/// shorter than `i32::MAX` or the call would panic.
#[verifier::external_body]
fn rsa_public_encrypt(key: &openssl::rsa::Rsa<openssl::pkey::Public>, data: &[u8]) -> (r: Result<
    (Vec<u8>, usize),
    String,
>)
    requires
        data@.len() <= 0x7fffffff,
    ensures
        r is Ok <==> data@.len() + 11 <= rsa_pub_size(*key),
        r matches Ok(p) ==> {
            &&& p.1 == rsa_pub_size(*key)
            &&& p.1 <= p.0@.len()
            &&& forall|privk: openssl::rsa::Rsa<openssl::pkey::Private>|
                rsa_pair(*key, privk) ==> #[trigger] priv_pt_of(
                    privk,
                    p.0@.subrange(0, p.1 as int),
                ) == Some(data@)
        },
{
    let mut buf = vec![0u8; key.size() as usize];
    match key.public_encrypt(data, &mut buf, openssl::rsa::Padding::PKCS1) {
        Ok(n) => Ok((buf, n)),
        Err(e) => Err(format!("{}", e)),
    }
}

/// Relies on openssl's `Rsa::public_decrypt` with PKCS#1 padding: a
/// deterministic function of key and ciphertext, succeeding exactly on
/// valid ciphertexts and recovering the plaintext. Buffer and length
/// conditions as for encryption.
#[verifier::external_body]
fn rsa_public_decrypt(key: &openssl::rsa::Rsa<openssl::pkey::Public>, data: &[u8]) -> (r: Result<
    (Vec<u8>, usize),
    String,
>)
    requires
        data@.len() <= 0x7fffffff,
    ensures
        r is Ok <==> pub_pt_of(*key, data@) is Some,
        r matches Ok(p) ==> p.1 <= p.0@.len() && pub_pt_of(*key, data@) == Some(
            p.0@.subrange(0, p.1 as int),
        ),
{
    let mut buf = vec![0u8; key.size() as usize];
    match key.public_decrypt(data, &mut buf, openssl::rsa::Padding::PKCS1) {
        Ok(n) => Ok((buf, n)),
        Err(e) => Err(format!("{}", e)),
    }
}

/// Relies on openssl's `Rsa::private_encrypt` with PKCS#1 type-1 padding,
/// whose padding bytes are fixed: the ciphertext is a function of key and
/// data alone, succeeds exactly when the data fits the key, fills exactly
/// the key's size, and the matching public key recovers the data. Buffer
/// and length conditions as for the public-key operations.
#[verifier::external_body]
fn rsa_private_encrypt(key: &openssl::rsa::Rsa<openssl::pkey::Private>, data: &[u8]) -> (r: Result<
    (Vec<u8>, usize),
    String,
>)
    requires
        data@.len() <= 0x7fffffff,
    ensures
        r is Ok <==> data@.len() + 11 <= rsa_priv_size(*key),
        r matches Ok(p) ==> {
            &&& p.1 == rsa_priv_size(*key)
            &&& p.1 <= p.0@.len()
            &&& p.0@.subrange(0, p.1 as int) == priv_ct_of(*key, data@)
            &&& forall|pubk: openssl::rsa::Rsa<openssl::pkey::Public>|
                rsa_pair(pubk, *key) ==> #[trigger] pub_pt_of(pubk, priv_ct_of(*key, data@))
                    == Some(data@)
        },
{
    let mut buf = vec![0u8; key.size() as usize];
    match key.private_encrypt(data, &mut buf, openssl::rsa::Padding::PKCS1) {
        Ok(n) => Ok((buf, n)),
        Err(e) => Err(format!("{}", e)),
    }
}

/// Relies on openssl's `Rsa::private_decrypt` with PKCS#1 padding: a
/// deterministic function of key and ciphertext, succeeding exactly on
/// valid ciphertexts and recovering the plaintext. Buffer and length
/// conditions as for the public-key operations.
#[verifier::external_body]
fn rsa_private_decrypt(key: &openssl::rsa::Rsa<openssl::pkey::Private>, data: &[u8]) -> (r: Result<
    (Vec<u8>, usize),
    String,
>)
    requires
        data@.len() <= 0x7fffffff,
    ensures
        r is Ok <==> priv_pt_of(*key, data@) is Some,
        r matches Ok(p) ==> p.1 <= p.0@.len() && priv_pt_of(*key, data@) == Some(
            p.0@.subrange(0, p.1 as int),
        ),
{
    let mut buf = vec![0u8; key.size() as usize];
    match key.private_decrypt(data, &mut buf, openssl::rsa::Padding::PKCS1) {
        Ok(n) => Ok((buf, n)),
        Err(e) => Err(format!("{}", e)),
    }
}

/// Relies on `BASE64URL_NOPAD.encode` of data-encoding: the text returned
/// depends on the bytes alone, its length is fixed by the input's, and the
/// encoding is canonical, so no other byte string encodes to the same text.
#[verifier::external_body]
fn b64_encode(data: &Vec<u8>) -> (r: String)
    ensures
        r@ == b64url_of(data@),
        r@.len() == (4 * data@.len() + 2) / 3,
        forall|d2: Seq<u8>| #[trigger] b64url_of(d2) == r@ ==> d2 == data@,
{
    data_encoding::BASE64URL_NOPAD.encode(data.as_slice())
}

/// Relies on `BASE64URL_NOPAD.decode` of data-encoding: the encoding is
/// canonical, so decoding succeeds exactly on texts some byte string
/// encodes to, returns that byte string — the only one that encodes to the
/// text — and never returns more bytes than it read characters.
#[verifier::external_body]
fn b64_decode(text: &str) -> (r: Result<Vec<u8>, String>)
    ensures
        r matches Ok(d) ==> b64url_of(d@) == text@ && d@.len() <= text@.len(),
        r matches Ok(d) ==> forall|d2: Seq<u8>| b64url_of(d2) == text@ ==> d2 == d@,
        r is Err ==> forall|d: Seq<u8>| b64url_of(d) != text@,
{
    match data_encoding::BASE64URL_NOPAD.decode(text.as_bytes()) {
        Ok(d) => Ok(d),
        Err(e) => Err(format!("{}", e)),
    }
}

/// Relies on std's `String::from_utf8`: it succeeds exactly on valid UTF-8
/// and returns the string spelled by those bytes.
#[verifier::external_body]
fn string_from_utf8(bytes: Vec<u8>) -> (r: Result<String, String>)
    ensures
        r is Ok <==> valid_utf8(bytes@),
        r matches Ok(s) ==> vstd::utf8::encode_utf8(s@) == bytes@,
{
    match String::from_utf8(bytes) {
        Ok(s) => Ok(s),
        Err(e) => Err(format!("{}", e)),
    }
}

/// A loaded key pair: the passphrase-protected private key and the public
/// key.
#[derive(Debug, Clone)]
pub struct RsaKeys {
    private: openssl::rsa::Rsa<openssl::pkey::Private>,
    public: openssl::rsa::Rsa<openssl::pkey::Public>,
}

impl RsaKeys {
    /// The private key of the pair.
    pub closed spec fn spec_private(&self) -> openssl::rsa::Rsa<openssl::pkey::Private> {
        self.private
    }

    /// The public key of the pair.
    pub closed spec fn spec_public(&self) -> openssl::rsa::Rsa<openssl::pkey::Public> {
        self.public
    }

    /// Loads the pair from the two PEM texts; either key failing to load
    /// fails the whole pair. The passphrase must hold no NUL byte and the
    /// PEM texts must fit in an `i32`, or the underlying calls would panic.
    pub fn init(passphrase: &String, priv_key_pem: &Vec<u8>, pub_key_pem: &Vec<u8>) -> (r: Result<
        RsaKeys,
        ErrorReport,
    >)
        requires
            priv_key_pem@.len() <= 0x7fffffff,
            pub_key_pem@.len() <= 0x7fffffff,
            forall|i: int|
                0 <= i < vstd::utf8::encode_utf8(passphrase@).len()
                    ==> vstd::utf8::encode_utf8(passphrase@)[i] != 0,
        ensures
            r is Ok <==> private_pem_ok(priv_key_pem@, vstd::utf8::encode_utf8(passphrase@))
                && public_pem_ok(pub_key_pem@),
            r matches Err(e) ==> e matches ErrorReport::Crypto { .. },
    {
        let private = match rsa_private_from_pem(priv_key_pem, passphrase.as_str()) {
            Ok(k) => k,
            Err(m) => {
                return Err(ErrorReport::Crypto { msg: m });
            },
        };
        let public = match rsa_public_from_pem(pub_key_pem) {
            Ok(k) => k,
            Err(m) => {
                return Err(ErrorReport::Crypto { msg: m });
            },
        };
        Ok(RsaKeys { private, public })
    }

    pub fn get_private_key(&self) -> (r: &openssl::rsa::Rsa<openssl::pkey::Private>)
        ensures
            *r == self.spec_private(),
    {
        &self.private
    }

    pub fn get_public_key(&self) -> (r: &openssl::rsa::Rsa<openssl::pkey::Public>)
        ensures
            *r == self.spec_public(),
    {
        &self.public
    }

    /// Encrypts with the public key and frames the ciphertext as URL-safe
    /// base64. The padding is randomized, so two calls may frame different
    /// ciphertexts; each is of the key's size and decrypts back to the data
    /// under any matching private key. Succeeds exactly when the data fits
    /// the key.
    pub fn pub_encrypt(&self, data: &String) -> (r: Result<String, ErrorReport>)
        requires
            vstd::utf8::encode_utf8(data@).len() <= 0x7fffffff,
        ensures
            r is Ok <==> vstd::utf8::encode_utf8(data@).len() + 11 <= rsa_pub_size(
                self.spec_public(),
            ),
            r matches Ok(s) ==> exists|ct: Seq<u8>|
                s@ == b64url_of(ct) && (forall|d2: Seq<u8>|
                    #[trigger] b64url_of(d2) == s@ ==> d2 == ct) && #[trigger] pub_ciphertext_ok(
                    self.spec_public(),
                    vstd::utf8::encode_utf8(data@),
                    ct,
                ),
            r matches Err(e) ==> e matches ErrorReport::Crypto { .. },
    {
        match rsa_public_encrypt(&self.public, data.as_str().as_bytes()) {
            Ok((mut buf, n)) => {
                buf.truncate(n);
                let framed = b64_encode(&buf);
                proof {
                    assert(pub_ciphertext_ok(
                        self.spec_public(),
                        vstd::utf8::encode_utf8(data@),
                        buf@,
                    ));
                    assert(exists|ct: Seq<u8>|
                        framed@ == b64url_of(ct) && (forall|d2: Seq<u8>|
                            #[trigger] b64url_of(d2) == framed@ ==> d2 == ct)
                            && #[trigger] pub_ciphertext_ok(
                            self.spec_public(),
                            vstd::utf8::encode_utf8(data@),
                            ct,
                        ));
                }
                Ok(framed)
            },
            Err(m) => Err(ErrorReport::Crypto { msg: m }),
        }
    }

    /// Encrypts with the private key and frames the ciphertext as URL-safe
    /// base64. Type-1 padding is fixed bytes, so the result is a function
    /// of key and data alone; it succeeds exactly when the data fits the
    /// key, and any matching public key recovers the data.
    pub fn priv_encrypt(&self, data: &String) -> (r: Result<String, ErrorReport>)
        requires
            vstd::utf8::encode_utf8(data@).len() <= 0x7fffffff,
        ensures
            r is Ok <==> vstd::utf8::encode_utf8(data@).len() + 11 <= rsa_priv_size(
                self.spec_private(),
            ),
            r matches Ok(s) ==> s@ == b64url_of(
                priv_ct_of(self.spec_private(), vstd::utf8::encode_utf8(data@)),
            ),
            r matches Ok(s) ==> forall|d2: Seq<u8>|
                #[trigger] b64url_of(d2) == s@ ==> d2 == priv_ct_of(
                    self.spec_private(),
                    vstd::utf8::encode_utf8(data@),
                ),
            r matches Ok(s) ==> forall|pubk: openssl::rsa::Rsa<openssl::pkey::Public>|
                rsa_pair(pubk, self.spec_private()) ==> #[trigger] pub_pt_of(
                    pubk,
                    priv_ct_of(self.spec_private(), vstd::utf8::encode_utf8(data@)),
                ) == Some(vstd::utf8::encode_utf8(data@)),
            r matches Err(e) ==> e matches ErrorReport::Crypto { .. },
    {
        match rsa_private_encrypt(&self.private, data.as_str().as_bytes()) {
            Ok((mut buf, n)) => {
                buf.truncate(n);
                Ok(b64_encode(&buf))
            },
            Err(m) => Err(ErrorReport::Crypto { msg: m }),
        }
    }

    /// Unframes the base64 text and decrypts it with the public key. The
    /// outcome is fixed by the text and the key: a decode error exactly on
    /// text no byte string encodes to; past that, a crypto error exactly on
    /// bytes that are no valid ciphertext, a UTF-8 error exactly on a
    /// recovered plaintext that is not UTF-8 text, and otherwise that
    /// plaintext as a string.
    pub fn pub_decrypt(&self, data: &String) -> (r: Result<String, ErrorReport>)
        requires
            data@.len() <= 0x7fffffff,
        ensures
            r is Ok <==> exists|d: Seq<u8>|
                #[trigger] b64url_of(d) == data@ && utf8_plaintext(
                    pub_pt_of(self.spec_public(), d),
                ),
            r matches Ok(s) ==> exists|d: Seq<u8>|
                #[trigger] b64url_of(d) == data@ && pub_pt_of(self.spec_public(), d) == Some(
                    vstd::utf8::encode_utf8(s@),
                ),
            r matches Err(e) ==> {
                ||| e matches ErrorReport::Decode { .. }
                ||| e matches ErrorReport::Crypto { .. }
                ||| e matches ErrorReport::Utf8 { .. }
            },
            (forall|d: Seq<u8>| b64url_of(d) != data@) <==> r matches Err(
                ErrorReport::Decode { .. },
            ),
            r matches Err(ErrorReport::Crypto { .. }) ==> exists|d: Seq<u8>|
                #[trigger] b64url_of(d) == data@ && pub_pt_of(self.spec_public(), d) is None,
            r matches Err(ErrorReport::Utf8 { .. }) ==> exists|d: Seq<u8>|
                #[trigger] b64url_of(d) == data@ && pub_pt_of(self.spec_public(), d) is Some
                    && !utf8_plaintext(pub_pt_of(self.spec_public(), d)),
    {
        let raw = match b64_decode(data.as_str()) {
            Ok(d) => d,
            Err(m) => {
                return Err(ErrorReport::Decode { msg: m });
            },
        };
        let (mut buf, n) = match rsa_public_decrypt(&self.public, raw.as_slice()) {
            Ok(p) => p,
            Err(m) => {
                proof {
                    assert forall|d: Seq<u8>| #[trigger] b64url_of(d) == data@ implies
                        !utf8_plaintext(pub_pt_of(self.spec_public(), d)) by {
                        assert(d == raw@);
                    }
                }
                return Err(ErrorReport::Crypto { msg: m });
            },
        };
        buf.truncate(n);
        match string_from_utf8(buf) {
            Ok(s) => Ok(s),
            Err(m) => {
                proof {
                    assert forall|d: Seq<u8>| #[trigger] b64url_of(d) == data@ implies
                        !utf8_plaintext(pub_pt_of(self.spec_public(), d)) by {
                        assert(d == raw@);
                    }
                }
                Err(ErrorReport::Utf8 { msg: m })
            },
        }
    }

    /// Unframes the base64 text and decrypts it with the private key; the
    /// outcome is classified exactly as for public-key decryption.
    pub fn priv_decrypt(&self, data: &String) -> (r: Result<String, ErrorReport>)
        requires
            data@.len() <= 0x7fffffff,
        ensures
            r is Ok <==> exists|d: Seq<u8>|
                #[trigger] b64url_of(d) == data@ && utf8_plaintext(
                    priv_pt_of(self.spec_private(), d),
                ),
            r matches Ok(s) ==> exists|d: Seq<u8>|
                #[trigger] b64url_of(d) == data@ && priv_pt_of(self.spec_private(), d) == Some(
                    vstd::utf8::encode_utf8(s@),
                ),
            r matches Err(e) ==> {
                ||| e matches ErrorReport::Decode { .. }
                ||| e matches ErrorReport::Crypto { .. }
                ||| e matches ErrorReport::Utf8 { .. }
            },
            (forall|d: Seq<u8>| b64url_of(d) != data@) <==> r matches Err(
                ErrorReport::Decode { .. },
            ),
            r matches Err(ErrorReport::Crypto { .. }) ==> exists|d: Seq<u8>|
                #[trigger] b64url_of(d) == data@ && priv_pt_of(self.spec_private(), d) is None,
            r matches Err(ErrorReport::Utf8 { .. }) ==> exists|d: Seq<u8>|
                #[trigger] b64url_of(d) == data@ && priv_pt_of(self.spec_private(), d) is Some
                    && !utf8_plaintext(priv_pt_of(self.spec_private(), d)),
    {
        let raw = match b64_decode(data.as_str()) {
            Ok(d) => d,
            Err(m) => {
                return Err(ErrorReport::Decode { msg: m });
            },
        };
        let (mut buf, n) = match rsa_private_decrypt(&self.private, raw.as_slice()) {
            Ok(p) => p,
            Err(m) => {
                proof {
                    assert forall|d: Seq<u8>| #[trigger] b64url_of(d) == data@ implies
                        !utf8_plaintext(priv_pt_of(self.spec_private(), d)) by {
                        assert(d == raw@);
                    }
                }
                return Err(ErrorReport::Crypto { msg: m });
            },
        };
        buf.truncate(n);
        match string_from_utf8(buf) {
            Ok(s) => Ok(s),
            Err(m) => {
                proof {
                    assert forall|d: Seq<u8>| #[trigger] b64url_of(d) == data@ implies
                        !utf8_plaintext(priv_pt_of(self.spec_private(), d)) by {
                        assert(d == raw@);
                    }
                }
                Err(ErrorReport::Utf8 { msg: m })
            },
        }
    }
}

/// Law: a framed public-key encryption decrypts back to its plaintext under
/// any matching private key: the framed text has exactly one decoding, that
/// decoding is a valid ciphertext, and it decrypts to the plaintext — the
/// success condition of `priv_decrypt`, with the plaintext pinned. The
/// hypotheses are what `pub_encrypt`'s contract gives for its result.
pub proof fn lemma_pub_encrypt_priv_decrypt_round_trip(
    pubk: openssl::rsa::Rsa<openssl::pkey::Public>,
    privk: openssl::rsa::Rsa<openssl::pkey::Private>,
    plain: Seq<u8>,
    framed: Seq<char>,
    ct: Seq<u8>,
)
    requires
        rsa_pair(pubk, privk),
        framed == b64url_of(ct),
        forall|d2: Seq<u8>| #[trigger] b64url_of(d2) == framed ==> d2 == ct,
        pub_ciphertext_ok(pubk, plain, ct),
        valid_utf8(plain),
    ensures
        exists|d: Seq<u8>|
            #[trigger] b64url_of(d) == framed && utf8_plaintext(priv_pt_of(privk, d)),
        forall|d: Seq<u8>|
            #[trigger] b64url_of(d) == framed ==> priv_pt_of(privk, d) == Some(plain),
{
    assert(priv_pt_of(privk, ct) == Some(plain));
    assert(b64url_of(ct) == framed && utf8_plaintext(priv_pt_of(privk, ct)));
}

/// Law: a framed private-key encryption decrypts back to its plaintext under
/// any matching public key — the success condition of `pub_decrypt`, with
/// the plaintext pinned. The hypotheses are what `priv_encrypt`'s contract
/// gives for its result.
pub proof fn lemma_priv_encrypt_pub_decrypt_round_trip(
    pubk: openssl::rsa::Rsa<openssl::pkey::Public>,
    privk: openssl::rsa::Rsa<openssl::pkey::Private>,
    plain: Seq<u8>,
    framed: Seq<char>,
)
    requires
        rsa_pair(pubk, privk),
        framed == b64url_of(priv_ct_of(privk, plain)),
        forall|d2: Seq<u8>| #[trigger] b64url_of(d2) == framed ==> d2 == priv_ct_of(privk, plain),
        forall|pk: openssl::rsa::Rsa<openssl::pkey::Public>|
            rsa_pair(pk, privk) ==> #[trigger] pub_pt_of(pk, priv_ct_of(privk, plain)) == Some(
                plain,
            ),
        valid_utf8(plain),
    ensures
        exists|d: Seq<u8>|
            #[trigger] b64url_of(d) == framed && utf8_plaintext(pub_pt_of(pubk, d)),
        forall|d: Seq<u8>|
            #[trigger] b64url_of(d) == framed ==> pub_pt_of(pubk, d) == Some(plain),
{
    let ct = priv_ct_of(privk, plain);
    assert(pub_pt_of(pubk, ct) == Some(plain));
    assert(b64url_of(ct) == framed && utf8_plaintext(pub_pt_of(pubk, ct)));
}

} // verus!

//! Key agreement and the cipher of encrypted messages.
//!
//! Both sides raise 22 to a secret power modulo a fixed prime and exchange
//! the results; the shared key is the SHA-256 digest of the big-endian bytes
//! of the number that both can then compute. Messages are encrypted with
//! AES-256 in CBC mode, with an all-zero initialisation vector and PKCS#7
//! padding.
//!
//! Numbers are held as their big-endian bytes. The arithmetic, the digest and
//! the cipher are those of the `num-bigint`, `sha2`, `aes` and `cbc` crates,
//! behind the wrappers of this module.

use aes::cipher::{BlockDecryptMut, BlockEncryptMut, KeyIvInit};
use num_bigint::RandBigInt;
use sha2::Digest;
use vstd::arithmetic::power::pow;
use vstd::arithmetic::power2::pow2;
use vstd::prelude::*;
use vstd::slice::slice_to_vec;

verus! {

/// Length of an AES-256 key.
pub const KEY_LEN: usize = 32;

/// Length of a cipher block, and of the initialisation vector.
pub const BLOCK_LEN: usize = 16;

/// Number of bits of a secret exponent.
pub const SECRET_BITS: u64 = 1280;

/// The number that the bytes `s` spell, the first being the highest.
pub open spec fn be_nat(s: Seq<u8>) -> nat
    decreases s.len(),
{
    if s.len() == 0 {
        0
    } else {
        be_nat(s.drop_last()) * 256 + s.last() as nat
    }
}

/// The shortest bytes that spell `n`, the first being the highest; one zero
/// byte for zero.
pub open spec fn to_be(n: nat) -> Seq<u8>
    decreases n,
{
    if n < 256 {
        seq![n as u8]
    } else {
        to_be(n / 256).push((n % 256) as u8)
    }
}

/// The bytes of the prime of the key agreement.
pub open spec fn dh_prime_bytes() -> Seq<u8> {
    seq![
        255u8, 255, 255, 255, 255, 255, 255, 255, 201, 15, 218, 162, 33, 104, 194, 52, 196, 198,
        98, 139, 128, 220, 28, 209, 41, 2, 78, 8, 138, 103, 204, 116, 2, 11, 190, 166, 59, 19,
        155, 34, 81, 74, 8, 121, 142, 52, 4, 221, 239, 149, 25, 179, 205, 58, 67, 27, 48, 43,
        10, 109, 242, 95, 20, 55, 79, 225, 53, 109, 109, 81, 194, 69, 228, 133, 181, 118, 98,
        94, 126, 198, 244, 76, 66, 233, 166, 58, 54, 32, 255, 255, 255, 255, 255, 255, 255,
        255,
    ]
}

/// The generator of the key agreement.
pub open spec fn dh_generator_bytes() -> Seq<u8> {
    seq![22u8]
}

/// The initialisation vector of the cipher: sixteen zero bytes.
pub open spec fn zero_iv() -> Seq<u8> {
    Seq::new(BLOCK_LEN as nat, |i: int| 0u8)
}

/// The SHA-256 digest of a byte string.
pub uninterp spec fn sha256_digest(data: Seq<u8>) -> Seq<u8>;

/// The AES-256-CBC encryption of a message after PKCS#7 padding.
pub uninterp spec fn aes256_cbc_pkcs7_encrypt(key: Seq<u8>, iv: Seq<u8>, message: Seq<u8>) -> Seq<
    u8,
>;

/// The AES-256-CBC decryption of a ciphertext with its PKCS#7 padding taken
/// off, where the ciphertext is made of whole blocks and ends in such a
/// padding.
pub uninterp spec fn aes256_cbc_pkcs7_decrypt(
    key: Seq<u8>,
    iv: Seq<u8>,
    ciphertext: Seq<u8>,
) -> Option<Seq<u8>>;

/// Length of a message of `n` bytes after PKCS#7 padding: the next multiple
/// of the block length above `n`.
pub open spec fn padded_len(n: nat) -> nat {
    ((n / 16) * 16 + 16) as nat
}

/// Raises `base` to the power `exponent` modulo `modulus`, all three given
/// and the result returned as big-endian bytes.
///
/// Wraps `BigUint::modpow` of `num-bigint`, documented to return
/// `(self ^ exponent) % modulus` and to panic on a zero modulus, between
/// `BigUint::from_bytes_be` and `BigUint::to_bytes_be`, which read and write
/// a number in big-endian byte order, the latter without leading zero bytes
/// and with one zero byte for zero.
#[verifier::external_body]
fn modpow_be(base: &[u8], exponent: &[u8], modulus: &[u8]) -> (r: Vec<u8>)
    requires
        be_nat(modulus@) > 1,
    ensures
        r@ == to_be(
            (pow(be_nat(base@) as int, be_nat(exponent@)) % (be_nat(modulus@) as int)) as nat,
        ),
{
    let base = num_bigint::BigUint::from_bytes_be(base);
    let exponent = num_bigint::BigUint::from_bytes_be(exponent);
    let modulus = num_bigint::BigUint::from_bytes_be(modulus);
    base.modpow(&exponent, &modulus).to_bytes_be()
}

/// A random number of at most `bits` bits, as big-endian bytes.
///
/// Wraps `RandBigInt::gen_biguint` of `num-bigint` on `rand::thread_rng()`,
/// documented to generate a random number of the given bit size. Nothing but
/// the bound and the form of the bytes is known of the result.
#[verifier::external_body]
fn random_be(bits: u64) -> (r: Vec<u8>)
    requires
        bits <= 0x1_0000,
    ensures
        be_nat(r@) < pow2(bits as nat),
        r@ == to_be(be_nat(r@)),
{
    rand::thread_rng().gen_biguint(bits).to_bytes_be()
}

/// The SHA-256 digest of `data`.
///
/// Wraps `Sha256::digest` of `sha2`. The digest is named, not computed, in
/// contracts; it has 32 bytes.
#[verifier::external_body]
fn sha256(data: &[u8]) -> (r: Vec<u8>)
    ensures
        r@ == sha256_digest(data@),
        r@.len() == 32,
{
    sha2::Sha256::digest(data).to_vec()
}

/// Pads the first `message_len` bytes of `buffer` and encrypts them.
///
/// Wraps `cbc::Encryptor::<aes::Aes256>::new_from_slices`, which fails
/// unless the key has 32 bytes and the vector 16, and
/// `encrypt_padded_mut::<Pkcs7>`, which fails unless the buffer holds the
/// message and has room for the padded message, and else returns the
/// ciphertext, as long as the padded message.
#[verifier::external_body]
fn encrypt_padded(
    key: &[u8],
    iv: &[u8],
    buffer: Vec<u8>,
    message_len: usize,
) -> (r: Option<Vec<u8>>)
    ensures
        (r is Some) == (key@.len() == 32 && iv@.len() == 16 && buffer@.len() >= message_len
            && buffer@.len() >= padded_len(message_len as nat)),
        r matches Some(c) ==> c@ == aes256_cbc_pkcs7_encrypt(
            key@,
            iv@,
            buffer@.take(message_len as int),
        ) && c@.len() == padded_len(message_len as nat),
{
    let mut buffer = buffer;
    let cipher = cbc::Encryptor::<aes::Aes256>::new_from_slices(key, iv).ok()?;
    let sealed = cipher.encrypt_padded_mut::<block_padding::Pkcs7>(&mut buffer, message_len);
    Some(sealed.ok()?.to_vec())
}

/// Decrypts `ciphertext` and takes its padding off.
///
/// Wraps `cbc::Decryptor::<aes::Aes256>::new_from_slices`, which fails
/// unless the key has 32 bytes and the vector 16, and
/// `decrypt_padded_mut::<Pkcs7>`, which fails if the ciphertext is not made
/// of whole blocks or does not end in a padding.
#[verifier::external_body]
fn decrypt_padded(key: &[u8], iv: &[u8], ciphertext: Vec<u8>) -> (r: Option<Vec<u8>>)
    ensures
        key@.len() == 32 && iv@.len() == 16 ==> match r {
            Some(m) => aes256_cbc_pkcs7_decrypt(key@, iv@, ciphertext@) == Some(m@),
            None => aes256_cbc_pkcs7_decrypt(key@, iv@, ciphertext@) is None,
        },
        !(key@.len() == 32 && iv@.len() == 16) ==> r is None,
{
    let mut ciphertext = ciphertext;
    let cipher = cbc::Decryptor::<aes::Aes256>::new_from_slices(key, iv).ok()?;
    let opened = cipher.decrypt_padded_mut::<block_padding::Pkcs7>(&mut ciphertext);
    Some(opened.ok()?.to_vec())
}

/// The prime of the key agreement, as big-endian bytes.
pub fn dh_prime() -> (r: Vec<u8>)
    ensures
        r@ == dh_prime_bytes(),
{
    let r: Vec<u8> = vec![
        255u8, 255, 255, 255, 255, 255, 255, 255, 201, 15, 218, 162, 33, 104, 194, 52, 196, 198,
        98, 139, 128, 220, 28, 209, 41, 2, 78, 8, 138, 103, 204, 116, 2, 11, 190, 166, 59, 19,
        155, 34, 81, 74, 8, 121, 142, 52, 4, 221, 239, 149, 25, 179, 205, 58, 67, 27, 48, 43,
        10, 109, 242, 95, 20, 55, 79, 225, 53, 109, 109, 81, 194, 69, 228, 133, 181, 118, 98,
        94, 126, 198, 244, 76, 66, 233, 166, 58, 54, 32, 255, 255, 255, 255, 255, 255, 255,
        255,
    ];
    assert(r@ =~= dh_prime_bytes());
    r
}

/// The prime of the key agreement is above one.
pub proof fn lemma_dh_prime_is_a_modulus()
    ensures
        be_nat(dh_prime_bytes()) > 1,
{
    let p = dh_prime_bytes();
    assert(p.len() == 96);
    assert(p.last() == 255);
}

/// The public number of a secret: 22 to its power, modulo the prime.
pub open spec fn public_of(secret: Seq<u8>) -> Seq<u8> {
    to_be((pow(22, be_nat(secret)) % (be_nat(dh_prime_bytes()) as int)) as nat)
}

/// The number that the holder of `secret` shares with the side whose public
/// number is `other`: `other` to the power of the secret, modulo the prime.
pub open spec fn shared_of(secret: Seq<u8>, other: Seq<u8>) -> Seq<u8> {
    to_be(
        (pow(be_nat(other) as int, be_nat(secret)) % (be_nat(dh_prime_bytes()) as int)) as nat,
    )
}

/// One side of a key agreement, and the cipher key once it is agreed.
#[derive(Debug)]
pub struct Encryption {
    /// The prime, as big-endian bytes.
    pub prime: Vec<u8>,
    /// The secret exponent of this side, as big-endian bytes.
    pub secret: Vec<u8>,
    /// The number that this side sends to the other, as big-endian bytes.
    pub public_key: Vec<u8>,
    /// The key of the cipher, once a shared key was made.
    pub cipher: Option<Vec<u8>>,
}

impl Encryption {
    /// Whether the prime is the one of the key agreement.
    pub open spec fn wf(&self) -> bool {
        self.prime@ == dh_prime_bytes()
    }

    /// A side with a fresh random secret of at most 1280 bits.
    pub fn new() -> (r: Self)
        ensures
            r.wf(),
            be_nat(r.secret@) < pow2(SECRET_BITS as nat),
            r.public_key@ == public_of(r.secret@),
            r.cipher is None,
    {
        Self::with_secret(random_be(SECRET_BITS))
    }

    /// A side with the secret `secret`.
    pub fn with_secret(secret: Vec<u8>) -> (r: Self)
        ensures
            r.wf(),
            r.secret == secret,
            r.public_key@ == public_of(secret@),
            r.cipher is None,
    {
        let prime = dh_prime();
        let generator: Vec<u8> = vec![22u8];
        proof {
            lemma_dh_prime_is_a_modulus();
            assert(generator@ =~= dh_generator_bytes());
            reveal_with_fuel(be_nat, 2);
            assert(be_nat(generator@) == 22);
        }
        let public_key = modpow_be(generator.as_slice(), secret.as_slice(), prime.as_slice());
        Encryption { prime, secret, public_key, cipher: None }
    }

    /// Makes the cipher key from the number that the other side has sent:
    /// the SHA-256 digest of the big-endian bytes of the shared number.
    pub fn make_shared_key(&mut self, other_public_key_buf: &[u8])
        requires
            old(self).wf(),
        ensures
            final(self).prime == old(self).prime,
            final(self).secret == old(self).secret,
            final(self).public_key == old(self).public_key,
            final(self).cipher matches Some(key) && key@ == sha256_digest(
                shared_of(old(self).secret@, other_public_key_buf@),
            ) && key@.len() == KEY_LEN,
    {
        proof {
            lemma_dh_prime_is_a_modulus();
        }
        let shared = modpow_be(other_public_key_buf, self.secret.as_slice(), self.prime.as_slice());
        self.cipher = Some(sha256(shared.as_slice()));
    }

    /// Decrypts `buf` and takes its padding off. `None` before a shared key
    /// was made, with a key that is not one of the cipher, and where `buf`
    /// is not made of whole blocks or does not end in a padding.
    pub fn decrypt(&self, buf: &[u8]) -> (r: Option<Vec<u8>>)
        ensures
            match self.cipher {
                Some(key) if key@.len() == KEY_LEN => match r {
                    Some(m) => aes256_cbc_pkcs7_decrypt(key@, zero_iv(), buf@) == Some(m@),
                    None => aes256_cbc_pkcs7_decrypt(key@, zero_iv(), buf@) is None,
                },
                _ => r is None,
            },
    {
        let key = match &self.cipher {
            Some(key) => key,
            None => {
                return None;
            },
        };
        let iv = zero_block();
        decrypt_padded(key.as_slice(), iv.as_slice(), slice_to_vec(buf))
    }

    /// Pads `buf` and encrypts it. `None` before a shared key was made and
    /// with a key that is not one of the cipher.
    pub fn encrypt(&self, buf: &[u8]) -> (r: Option<Vec<u8>>)
        requires
            buf@.len() + BLOCK_LEN <= usize::MAX,
        ensures
            match self.cipher {
                Some(key) if key@.len() == KEY_LEN => r matches Some(c) && c@
                    == aes256_cbc_pkcs7_encrypt(key@, zero_iv(), buf@) && c@.len() == padded_len(
                    buf@.len(),
                ),
                _ => r is None,
            },
    {
        let key = match &self.cipher {
            Some(key) => key,
            None => {
                return None;
            },
        };
        let iv = zero_block();
        let mut buffer = slice_to_vec(buf);
        let room = zero_block();
        buffer.extend_from_slice(room.as_slice());
        assert(buffer@.take(buf@.len() as int) =~= buf@);
        encrypt_padded(key.as_slice(), iv.as_slice(), buffer, buf.len())
    }
}

/// Sixteen zero bytes.
fn zero_block() -> (r: Vec<u8>)
    ensures
        r@ == zero_iv(),
{
    let r: Vec<u8> = vec![0u8, 0, 0, 0, 0, 0, 0, 0, 0, 0, 0, 0, 0, 0, 0, 0];
    assert(r@ =~= zero_iv());
    r
}

} // verus!

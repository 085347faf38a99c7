use vstd::prelude::*;
use crate::error::Error;
use ring::rand::SecureRandom;
use vstd::string::StringSliceAdditionalSpecFns;

verus! {

/// Big-endian value of a byte string.
pub open spec fn be_value(s: Seq<u8>) -> nat
    decreases s.len(),
{
    if s.len() == 0 {
        0
    } else {
        be_value(s.drop_last()) * 256 + s.last() as nat
    }
}

/// 256 to the power `n`: the number of distinct byte strings of length `n`.
pub open spec fn byte_space(n: nat) -> nat
    decreases n,
{
    if n == 0 {
        1
    } else {
        256 * byte_space((n - 1) as nat)
    }
}

/// The byte string after a big-endian increment by one: the rightmost byte
/// first, carrying to the left, wrapping to all zeroes after all 0xff.
pub open spec fn incremented(s: Seq<u8>) -> Seq<u8>
    decreases s.len(),
{
    if s.len() == 0 {
        s
    } else if s.last() == 255 {
        incremented(s.drop_last()).push(0)
    } else {
        s.drop_last().push((s.last() + 1) as u8)
    }
}

pub proof fn lemma_incremented_len(s: Seq<u8>)
    ensures
        incremented(s).len() == s.len(),
    decreases s.len(),
{
    if s.len() > 0 && s.last() == 255 {
        lemma_incremented_len(s.drop_last());
    }
}

pub proof fn lemma_be_value_bound(s: Seq<u8>)
    ensures
        be_value(s) < byte_space(s.len()),
    decreases s.len(),
{
    if s.len() > 0 {
        lemma_be_value_bound(s.drop_last());
        assert(be_value(s.drop_last()) + 1 <= byte_space((s.len() - 1) as nat));
        assert(be_value(s.drop_last()) * 256 + 256 <= byte_space((s.len() - 1) as nat) * 256)
            by (nonlinear_arith)
            requires
                be_value(s.drop_last()) + 1 <= byte_space((s.len() - 1) as nat),
        ;
    }
}

/// The increment adds one to the big-endian value, modulo the size of the space.
pub proof fn lemma_incremented_value(s: Seq<u8>)
    ensures
        be_value(incremented(s)) == (be_value(s) + 1) % byte_space(s.len()),
    decreases s.len(),
{
    lemma_incremented_len(s);
    if s.len() == 0 {
    } else {
        let p = s.drop_last();
        lemma_be_value_bound(p);
        let m = byte_space(p.len());
        assert(byte_space(s.len()) == 256 * m);
        if s.last() == 255 {
            lemma_incremented_value(p);
            lemma_incremented_len(p);
            let ip = incremented(p);
            assert(incremented(s).drop_last() =~= ip);
            if be_value(p) + 1 == m {
                assert(be_value(ip) == 0) by {
                    vstd::arithmetic::div_mod::lemma_mod_self_0(m as int);
                }
                assert(be_value(s) + 1 == 256 * m) by (nonlinear_arith)
                    requires
                        be_value(s) == be_value(p) * 256 + 255,
                        be_value(p) + 1 == m,
                ;
                vstd::arithmetic::div_mod::lemma_mod_self_0((256 * m) as int);
            } else {
                assert(be_value(ip) == be_value(p) + 1) by {
                    vstd::arithmetic::div_mod::lemma_small_mod((be_value(p) + 1) as nat, m);
                }
                assert(be_value(s) + 1 < 256 * m) by (nonlinear_arith)
                    requires
                        be_value(s) == be_value(p) * 256 + 255,
                        be_value(p) + 1 < m,
                ;
                vstd::arithmetic::div_mod::lemma_small_mod((be_value(s) + 1) as nat, 256 * m);
            }
        } else {
            assert(incremented(s).drop_last() =~= p);
            assert(be_value(s) + 1 < 256 * m) by (nonlinear_arith)
                requires
                    be_value(s) == be_value(p) * 256 + s.last() as nat,
                    s.last() < 255,
                    be_value(p) < m,
            ;
            vstd::arithmetic::div_mod::lemma_small_mod((be_value(s) + 1) as nat, 256 * m);
        }
    }
}

/// Increments `nonce` as one big-endian number, the rightmost byte first and
/// carrying to the left; after all 0xff it wraps to all zeroes.
pub fn inc_nonce(nonce: &mut [u8])
    ensures
        final(nonce)@ == incremented(old(nonce)@),
        be_value(final(nonce)@) == (be_value(old(nonce)@) + 1) % byte_space(old(nonce)@.len()),
{
    proof {
        lemma_incremented_value(old(nonce)@);
    }
    let l = nonce.len();
    let mut i: usize = l;
    proof {
        assert(nonce@.subrange(0, l as int) =~= nonce@);
        assert(nonce@.subrange(l as int, l as int) =~= Seq::<u8>::empty());
        assert(incremented(nonce@) + Seq::<u8>::empty() =~= incremented(nonce@));
    }
    while i > 0
        invariant
            i <= l,
            nonce@.len() == l,
            l == old(nonce)@.len(),
            // the bytes right of `i` have wrapped to zero; the carry goes on into `i - 1`
            incremented(old(nonce)@) == incremented(nonce@.subrange(0, i as int)) + nonce@.subrange(i as int, l as int),
            nonce@.subrange(0, i as int) == old(nonce)@.subrange(0, i as int),
        decreases i,
    {
        let num = nonce[i - 1].wrapping_add(1);
        let ghost before = nonce@;
        nonce[i - 1] = num;
        if num > 0 {
            proof {
                let p = before.subrange(0, i as int);
                assert(p.drop_last() =~= before.subrange(0, i - 1));
                assert(incremented(p) =~= nonce@.subrange(0, i as int));
                assert(nonce@.subrange(i as int, l as int) =~= before.subrange(i as int, l as int));
                assert(nonce@ =~= nonce@.subrange(0, i as int) + nonce@.subrange(i as int, l as int));
                assert(nonce@ =~= incremented(old(nonce)@));
                lemma_incremented_value(old(nonce)@);
            }
            return;
        }
        proof {
            let p = before.subrange(0, i as int);
            assert(p.drop_last() =~= before.subrange(0, i - 1));
            assert(nonce@.subrange(0, i - 1) =~= before.subrange(0, i - 1));
            assert(before.subrange(i - 1, l as int) =~= seq![before[i - 1]] + before.subrange(i as int, l as int));
            assert(nonce@.subrange(i - 1, l as int) =~= seq![0u8] + before.subrange(i as int, l as int));
            assert(incremented(p) + before.subrange(i as int, l as int)
                =~= incremented(nonce@.subrange(0, i - 1)) + nonce@.subrange(i - 1, l as int));
        }
        i = i - 1;
    }
    proof {
        assert(nonce@.subrange(0, 0) =~= Seq::<u8>::empty());
        assert(nonce@.subrange(0, l as int) =~= nonce@);
    }
}

} // verus!

verus! {

/// Length in bytes of a nonce of either algorithm.
pub const NONCE_LEN: usize = 12;

/// Length in bytes of the authentication tag of either algorithm.
pub const TAG_LEN: usize = 16;

/// Length in bytes of the key of either algorithm.
pub const KEY_LEN: usize = 32;

/// Rounds of the password-based key derivation.
pub const PBKDF2_ITERATIONS: u32 = 4096;

/// The fixed salt of the key derivation: the ASCII text `junjunjunjunjunjunjunjunjunjunai`.
pub const SALT: [u8; 32] = [
    0x6a, 0x75, 0x6e, 0x6a, 0x75, 0x6e, 0x6a, 0x75, 0x6e, 0x6a, 0x75, 0x6e, 0x6a, 0x75, 0x6e, 0x6a, 0x75, 0x6e, 0x6a, 0x75, 0x6e, 0x6a, 0x75, 0x6e, 0x6a, 0x75, 0x6e, 0x6a, 0x75, 0x6e, 0x61, 0x69
];

/// Longest input that ring's AES-256-GCM seals under one nonce: 2^32 - 2 blocks of 16 bytes.
pub const MAX_SEAL_LEN_AES256: u64 = 68_719_476_704;

/// Longest input that ring's ChaCha20-Poly1305 seals under one nonce: 2^32 - 1 blocks of 64 bytes.
pub const MAX_SEAL_LEN_CHACHA20: u64 = 274_877_906_880;

/// Longest passphrase that the key derivation takes: SHA-256 counts its input in a 64-bit number of bits.
pub const MAX_SECRET_LEN: u64 = 0x1fff_ffff_ffff_ffff;

/// The AEAD algorithm of a context.
#[derive(Clone, Copy, Debug, PartialEq, Eq, Structural)]
pub enum CryptoMethod {
    ChaCha20,
    AES256,
}

/// Longest input that the algorithm seals under one nonce.
pub open spec fn max_seal_len(method: CryptoMethod) -> nat {
    match method {
        CryptoMethod::ChaCha20 => MAX_SEAL_LEN_CHACHA20 as nat,
        CryptoMethod::AES256 => MAX_SEAL_LEN_AES256 as nat,
    }
}

/// What PBKDF2-HMAC-SHA256 derives from a passphrase, for the given rounds, salt and length.
pub uninterp spec fn pbkdf2_hmac_sha256(iterations: u32, salt: Seq<u8>, secret: Seq<u8>, len: nat) -> Seq<u8>;

/// The ciphertext followed by the tag that the algorithm produces when it seals `plain`
/// under `key`, `nonce` and the associated data `aad`.
pub uninterp spec fn sealed(method: CryptoMethod, key: Seq<u8>, nonce: Seq<u8>, aad: Seq<u8>, plain: Seq<u8>) -> Seq<u8>;

/// Relies on ring's `pbkdf2::derive` with `PBKDF2_HMAC_SHA256`: it fills the output with the
/// derived key, which depends on its arguments alone; it panics only when the HMAC key or the
/// output is too long, which the bounds rule out.
#[verifier::external_body]
fn derive_key(iterations: u32, salt: &[u8], secret: &[u8], len: usize) -> (r: Vec<u8>)
    requires
        0 < iterations,
        len <= KEY_LEN,
        secret@.len() <= MAX_SECRET_LEN,
    ensures
        r@ == pbkdf2_hmac_sha256(iterations, salt@, secret@, len as nat),
        r@.len() == len,
{
    let mut out = vec![0u8; len];
    let rounds = std::num::NonZeroU32::new(iterations).unwrap();
    ring::pbkdf2::derive(ring::pbkdf2::PBKDF2_HMAC_SHA256, rounds, salt, secret, &mut out);
    out
}

/// Relies on ring's `SystemRandom::fill`: on success the buffer holds bytes from the
/// operating system's generator; nothing is known of their values.
#[verifier::external_body]
fn random_bytes(len: usize) -> (r: Option<Vec<u8>>)
    ensures
        r matches Some(v) ==> v@.len() == len,
{
    let mut bytes = vec![0u8; len];
    ring::rand::SystemRandom::new().fill(&mut bytes).ok().map(|_| bytes)
}

/// Relies on ring's `LessSafeKey::seal_in_place_append_tag`: with a key and a nonce of the
/// algorithm's lengths (`UnboundKey::new` fails only on a key of another length), and an input
/// within the algorithm's limit, it succeeds and leaves the ciphertext, as long as the plaintext,
/// followed by the 16-byte tag.
#[verifier::external_body]
fn aead_seal(method: CryptoMethod, key: &[u8], nonce: &[u8], aad: &[u8], plain: &[u8]) -> (r: Option<Vec<u8>>)
    requires
        key@.len() == KEY_LEN,
        nonce@.len() == NONCE_LEN,
        plain@.len() <= max_seal_len(method),
    ensures
        r is Some,
        r matches Some(c) ==> c@ == sealed(method, key@, nonce@, aad@, plain@) && c@.len() == plain@.len() + TAG_LEN,
{
    let algorithm = match method {
        CryptoMethod::ChaCha20 => &ring::aead::CHACHA20_POLY1305,
        CryptoMethod::AES256 => &ring::aead::AES_256_GCM,
    };
    let key = ring::aead::LessSafeKey::new(ring::aead::UnboundKey::new(algorithm, key).ok()?);
    let nonce = ring::aead::Nonce::try_assume_unique_for_key(nonce).ok()?;
    let mut in_out = plain.to_vec();
    key.seal_in_place_append_tag(nonce, ring::aead::Aad::from(aad), &mut in_out).ok()?;
    Some(in_out)
}

/// Relies on ring's `LessSafeKey::open_in_place`: it succeeds exactly when the input is the
/// sealing of some plaintext under the same key, nonce and associated data, and then leaves
/// that plaintext at the front of the buffer and returns it.
#[verifier::external_body]
fn aead_open(method: CryptoMethod, key: &[u8], nonce: &[u8], aad: &[u8], in_out: &mut [u8]) -> (r: Option<usize>)
    requires
        key@.len() == KEY_LEN,
        nonce@.len() == NONCE_LEN,
    ensures
        final(in_out)@.len() == old(in_out)@.len(),
        r matches Some(n) ==> n + TAG_LEN == old(in_out)@.len()
            && sealed(method, key@, nonce@, aad@, final(in_out)@.take(n as int)) == old(in_out)@,
        forall|p: Seq<u8>| #[trigger] sealed(method, key@, nonce@, aad@, p) == old(in_out)@
            ==> p.len() + TAG_LEN == old(in_out)@.len() && r == Some(p.len() as usize)
                && final(in_out)@.take(p.len() as int) == p,
{
    let algorithm = match method {
        CryptoMethod::ChaCha20 => &ring::aead::CHACHA20_POLY1305,
        CryptoMethod::AES256 => &ring::aead::AES_256_GCM,
    };
    let key = ring::aead::LessSafeKey::new(ring::aead::UnboundKey::new(algorithm, key).ok()?);
    let nonce = ring::aead::Nonce::try_assume_unique_for_key(nonce).ok()?;
    key.open_in_place(nonce, ring::aead::Aad::from(aad), in_out).ok().map(|p| p.len())
}

} // verus!

verus! {

/// The key and the running nonce of one keyed context.
pub struct CryptoData {
    nonce: Vec<u8>,
    key: Vec<u8>,
}

/// One direction of authenticated encryption: an algorithm, a key derived from a
/// passphrase, and a nonce that each sealing increments. `Plain` passes data through.
pub enum Crypto {
    Plain,
    ChaCha20Poly1305(CryptoData),
    AES256GCM(CryptoData),
}

impl Crypto {
    /// The algorithm, or `None` for the pass-through context.
    pub closed spec fn kind(&self) -> Option<CryptoMethod> {
        match self {
            Crypto::Plain => None,
            Crypto::ChaCha20Poly1305(_) => Some(CryptoMethod::ChaCha20),
            Crypto::AES256GCM(_) => Some(CryptoMethod::AES256),
        }
    }

    /// The key; empty for the pass-through context.
    pub closed spec fn key_view(&self) -> Seq<u8> {
        match self {
            Crypto::Plain => Seq::empty(),
            Crypto::ChaCha20Poly1305(d) => d.key@,
            Crypto::AES256GCM(d) => d.key@,
        }
    }

    /// The nonce of the last sealing (or the initial one); empty for the pass-through context.
    pub closed spec fn nonce_view(&self) -> Seq<u8> {
        match self {
            Crypto::Plain => Seq::empty(),
            Crypto::ChaCha20Poly1305(d) => d.nonce@,
            Crypto::AES256GCM(d) => d.nonce@,
        }
    }

    /// A keyed context holds a key and a nonce of the algorithm's lengths.
    pub open spec fn wf(&self) -> bool {
        &&& self.kind() is Some ==> self.key_view().len() == KEY_LEN
        &&& self.nonce_view().len() == self.nonce_len()
    }

    pub open spec fn tag_len(&self) -> nat {
        if self.kind() is Some { TAG_LEN as nat } else { 0 }
    }

    pub open spec fn nonce_len(&self) -> nat {
        if self.kind() is Some { NONCE_LEN as nat } else { 0 }
    }

    /// What sealing `plain` under `nonce` and the header `aad` gives in this context.
    pub open spec fn seal_view(&self, nonce: Seq<u8>, aad: Seq<u8>, plain: Seq<u8>) -> Seq<u8> {
        match self.kind() {
            None => plain,
            Some(m) => sealed(m, self.key_view(), nonce, aad, plain),
        }
    }

    /// `frame` is what this context's algorithm and key make of `plain` under `nonce` and `aad`.
    pub open spec fn opens(&self, nonce: Seq<u8>, aad: Seq<u8>, frame: Seq<u8>, plain: Seq<u8>) -> bool {
        self.seal_view(nonce, aad, plain) == frame
    }

    /// 0 for the pass-through context, 1 for ChaCha20-Poly1305, 2 for AES-256-GCM.
    pub fn method(&self) -> (r: u8)
        ensures
            r == match self.kind() {
                None => 0u8,
                Some(CryptoMethod::ChaCha20) => 1u8,
                Some(CryptoMethod::AES256) => 2u8,
            },
    {
        match self {
            Crypto::Plain => 0,
            Crypto::ChaCha20Poly1305(_) => 1,
            Crypto::AES256GCM(_) => 2,
        }
    }

    /// Length of the nonce that travels with each frame.
    pub fn nonce_byte(&self) -> (r: usize)
        ensures
            r == self.nonce_len(),
    {
        match self {
            Crypto::Plain => 0,
            Crypto::ChaCha20Poly1305(_) | Crypto::AES256GCM(_) => NONCE_LEN,
        }
    }

    /// The raw key.
    pub fn get_key(&self) -> (r: &[u8])
        ensures
            r@ == self.key_view(),
    {
        match self {
            Crypto::Plain => &[],
            Crypto::ChaCha20Poly1305(d) => d.key.as_slice(),
            Crypto::AES256GCM(d) => d.key.as_slice(),
        }
    }

    /// Length of the authentication tag that sealing appends.
    pub fn additional_bytes(&self) -> (r: usize)
        ensures
            r == self.tag_len(),
    {
        match self {
            Crypto::Plain => 0,
            Crypto::ChaCha20Poly1305(_) | Crypto::AES256GCM(_) => TAG_LEN,
        }
    }

    /// Derives a context from a passphrase: PBKDF2-HMAC-SHA256 with the fixed salt and
    /// 4096 rounds gives the key; the nonce starts with a zero byte, which puts off its
    /// wrap-around, followed by random bytes (zeroes where the generator fails).
    pub fn from_shared_key(method: CryptoMethod, password: &str) -> (r: Self)
        requires
            password@.len() * 4 <= MAX_SECRET_LEN,
        ensures
            r.wf(),
            r.kind() == Some(method),
            r.key_view() == pbkdf2_hmac_sha256(PBKDF2_ITERATIONS, SALT@, password.spec_bytes(), KEY_LEN as nat),
            r.nonce_view()[0] == 0,
    {
        let secret = password.as_bytes();
        proof {
            lemma_utf8_len_bound(password@);
        }
        let key = derive_key(PBKDF2_ITERATIONS, SALT.as_slice(), secret, KEY_LEN);
        let mut nonce: Vec<u8> = Vec::new();
        nonce.push(0);
        match random_bytes(NONCE_LEN - 1) {
            Some(mut bytes) => {
                nonce.append(&mut bytes);
            },
            None => {
                let mut i: usize = 1;
                while i < NONCE_LEN
                    invariant
                        1 <= i <= NONCE_LEN,
                        nonce@.len() == i,
                        nonce@[0] == 0,
                    decreases NONCE_LEN - i,
                {
                    nonce.push(0);
                    i = i + 1;
                }
            },
        }
        let data = CryptoData { nonce, key };
        match method {
            CryptoMethod::ChaCha20 => Crypto::ChaCha20Poly1305(data),
            CryptoMethod::AES256 => Crypto::AES256GCM(data),
        }
    }
}

impl CryptoData {
    /// Advances the nonce and seals `buf[..mlen]` in place, the tag after it.
    fn seal(&mut self, method: CryptoMethod, buf: &mut [u8], mlen: usize, nonce_bytes: &mut [u8], header: &[u8]) -> (r: usize)
        requires
            old(self).key@.len() == KEY_LEN,
            old(self).nonce@.len() == NONCE_LEN,
            mlen + TAG_LEN <= old(buf)@.len(),
            mlen <= max_seal_len(method),
            old(nonce_bytes)@.len() == NONCE_LEN,
        ensures
            final(self).key@ == old(self).key@,
            final(self).nonce@ == incremented(old(self).nonce@),
            final(self).nonce@.len() == NONCE_LEN,
            final(nonce_bytes)@ == final(self).nonce@,
            r == mlen + TAG_LEN,
            final(buf)@.len() == old(buf)@.len(),
            final(buf)@.take(r as int) == sealed(method, old(self).key@, final(self).nonce@, header@, old(buf)@.take(mlen as int)),
            final(buf)@.skip(r as int) == old(buf)@.skip(r as int),
    {
        inc_nonce(self.nonce.as_mut_slice());
        proof {
            lemma_incremented_len(old(self).nonce@);
        }
        let sealed_bytes = aead_seal(method, self.key.as_slice(), self.nonce.as_slice(), header, &buf[0..mlen]);
        let c = match sealed_bytes {
            Some(c) => c,
            None => {
                return 0;
            },
        };
        let n = c.len();
        let mut i: usize = 0;
        while i < n
            invariant
                n == c@.len(),
                n <= buf@.len(),
                buf@.len() == old(buf)@.len(),
                i <= n,
                forall|j: int| 0 <= j < i ==> buf@[j] == c@[j],
                forall|j: int| n <= j < buf@.len() ==> buf@[j] == old(buf)@[j],
            decreases n - i,
        {
            buf[i] = c[i];
            i = i + 1;
        }
        let mut k: usize = 0;
        while k < NONCE_LEN
            invariant
                nonce_bytes@.len() == NONCE_LEN,
                self.nonce@.len() == NONCE_LEN,
                k <= NONCE_LEN,
                forall|j: int| 0 <= j < k ==> nonce_bytes@[j] == self.nonce@[j],
            decreases NONCE_LEN - k,
        {
            nonce_bytes[k] = self.nonce[k];
            k = k + 1;
        }
        assert(buf@.take(n as int) =~= c@);
        assert(buf@.skip(n as int) =~= old(buf)@.skip(n as int));
        assert(nonce_bytes@ =~= self.nonce@);
        n
    }
}

impl Crypto {
    /// Increments the nonce, seals `buf[..mlen]` in place under it and the header,
    /// appends the tag, copies the nonce used to `nonce_bytes`, and returns the length
    /// of ciphertext and tag. The pass-through context leaves everything as it is and
    /// returns `mlen`.
    pub fn encrypt(&mut self, buf: &mut [u8], mlen: usize, nonce_bytes: &mut [u8], header: &[u8]) -> (r: usize)
        requires
            old(self).wf(),
            mlen + old(self).tag_len() <= old(buf)@.len(),
            old(self).kind() matches Some(m) ==> mlen <= max_seal_len(m),
            old(self).kind() is Some ==> old(nonce_bytes)@.len() == NONCE_LEN,
        ensures
            final(self).wf(),
            final(self).kind() == old(self).kind(),
            final(self).key_view() == old(self).key_view(),
            final(self).nonce_view() == incremented(old(self).nonce_view()),
            old(self).kind() is Some ==> final(nonce_bytes)@ == final(self).nonce_view(),
            old(self).kind() is None ==> final(nonce_bytes)@ == old(nonce_bytes)@,
            r == mlen + old(self).tag_len(),
            final(buf)@.len() == old(buf)@.len(),
            final(buf)@.take(r as int) == final(self).seal_view(final(self).nonce_view(), header@, old(buf)@.take(mlen as int)),
            final(buf)@.skip(r as int) == old(buf)@.skip(r as int),
    {
        match self {
            Crypto::Plain => {
                proof {
                    assert(incremented(Seq::<u8>::empty()) == Seq::<u8>::empty());
                    assert(buf@.take(mlen as int) =~= old(buf)@.take(mlen as int));
                }
                mlen
            },
            Crypto::ChaCha20Poly1305(data) => data.seal(CryptoMethod::ChaCha20, buf, mlen, nonce_bytes, header),
            Crypto::AES256GCM(data) => data.seal(CryptoMethod::AES256, buf, mlen, nonce_bytes, header),
        }
    }

    /// Opens `buf` in place under `nonce` and the header. On success the plaintext stands
    /// at the front of `buf` and its length is returned; a frame that does not authenticate
    /// (tampered, another key, another header or another nonce) is a `Crypto` error.
    /// The pass-through context returns the whole buffer.
    pub fn decrypt(&self, buf: &mut [u8], nonce: &[u8], header: &[u8]) -> (r: Result<usize, Error>)
        requires
            self.wf(),
            self.kind() is Some ==> nonce@.len() == NONCE_LEN,
        ensures
            final(buf)@.len() == old(buf)@.len(),
            r matches Ok(n) ==> n <= old(buf)@.len() && self.opens(nonce@, header@, old(buf)@, final(buf)@.take(n as int)),
            r matches Err(e) ==> e.is_crypto(),
            r is Err <==> forall|p: Seq<u8>| !self.opens(nonce@, header@, old(buf)@, p),
            forall|p: Seq<u8>| self.opens(nonce@, header@, old(buf)@, p)
                ==> p.len() <= old(buf)@.len() && r == Ok::<usize, Error>(p.len() as usize)
                && final(buf)@.take(p.len() as int) == p,
    {
        let opened = match self {
            Crypto::Plain => {
                assert(buf@.take(buf@.len() as int) =~= buf@);
                assert(self.opens(nonce@, header@, old(buf)@, buf@));
                return Ok(buf.len());
            },
            Crypto::ChaCha20Poly1305(d) => aead_open(CryptoMethod::ChaCha20, d.key.as_slice(), nonce, header, buf),
            Crypto::AES256GCM(d) => aead_open(CryptoMethod::AES256, d.key.as_slice(), nonce, header, buf),
        };
        match opened {
            Some(n) => {
                assert(self.opens(nonce@, header@, old(buf)@, buf@.take(n as int)));
                Ok(n)
            },
            None => Err(Error::Crypto("failed to decrypt")),
        }
    }
}

/// Contexts of one algorithm and one key, such as the two that one passphrase derives:
/// what the first seals under a nonce and a header, the second opens under the same
/// nonce and header, and to the same plaintext.
pub proof fn lemma_decrypt_encrypt(sender: Crypto, receiver: Crypto, nonce: Seq<u8>, header: Seq<u8>, plain: Seq<u8>)
    requires
        sender.kind() == receiver.kind(),
        sender.key_view() == receiver.key_view(),
    ensures
        receiver.opens(nonce, header, sender.seal_view(nonce, header, plain), plain),
{
}

/// Each sealing moves to a new nonce: the increment changes every nonce of positive
/// length, keeps its length, and advances its big-endian value by one modulo the space.
pub proof fn lemma_nonce_changes(nonce: Seq<u8>)
    requires
        nonce.len() > 0,
    ensures
        incremented(nonce) != nonce,
        incremented(nonce).len() == nonce.len(),
        be_value(incremented(nonce)) == (be_value(nonce) + 1) % byte_space(nonce.len()),
{
    lemma_incremented_len(nonce);
    lemma_incremented_value(nonce);
    lemma_be_value_bound(nonce);
    let v = be_value(nonce);
    let m = byte_space(nonce.len());
    assert(m == 256 * byte_space((nonce.len() - 1) as nat));
    assert(byte_space((nonce.len() - 1) as nat) >= 1) by {
        lemma_be_value_bound(nonce.drop_last());
    }
    if v + 1 < m {
        vstd::arithmetic::div_mod::lemma_small_mod((v + 1) as nat, m);
    } else {
        vstd::arithmetic::div_mod::lemma_mod_self_0(m as int);
    }
}

/// The nonce after `k` sealings that start from `s`.
pub open spec fn incremented_times(s: Seq<u8>, k: nat) -> Seq<u8>
    decreases k,
{
    if k == 0 {
        s
    } else {
        incremented(incremented_times(s, (k - 1) as nat))
    }
}

proof fn lemma_incremented_times_value(s: Seq<u8>, k: nat)
    requires
        s.len() > 0,
    ensures
        incremented_times(s, k).len() == s.len(),
        be_value(incremented_times(s, k)) == (be_value(s) + k) % byte_space(s.len()),
    decreases k,
{
    let m = byte_space(s.len());
    lemma_be_value_bound(s);
    if k == 0 {
        vstd::arithmetic::div_mod::lemma_small_mod(be_value(s), m);
    } else {
        let prev = incremented_times(s, (k - 1) as nat);
        lemma_incremented_times_value(s, (k - 1) as nat);
        lemma_incremented_len(prev);
        lemma_incremented_value(prev);
        vstd::arithmetic::div_mod::lemma_add_mod_noop((be_value(s) + k - 1) as int, 1, m as int);
        vstd::arithmetic::div_mod::lemma_small_mod(1, m);
        assert(m > 1) by {
            lemma_nonce_changes(s);
        }
    }
}

/// Nonces do not repeat: of the nonces that one context uses in fewer sealings than
/// there are nonces of its length, no two are equal.
pub proof fn lemma_nonces_do_not_repeat(nonce: Seq<u8>, i: nat, j: nat)
    requires
        nonce.len() > 0,
        i < j < byte_space(nonce.len()),
    ensures
        incremented_times(nonce, i) != incremented_times(nonce, j),
{
    let m = byte_space(nonce.len()) as int;
    let v = be_value(nonce) as int;
    lemma_incremented_times_value(nonce, i);
    lemma_incremented_times_value(nonce, j);
    if incremented_times(nonce, i) == incremented_times(nonce, j) {
        vstd::arithmetic::div_mod::lemma_mod_equivalence(v + j, v + i, m);
        vstd::arithmetic::div_mod::lemma_small_mod((j - i) as nat, m as nat);
    }
}

/// A character takes at most four bytes in UTF-8.
proof fn lemma_utf8_len_bound(s: Seq<char>)
    ensures
        vstd::utf8::encode_utf8(s).len() <= 4 * s.len(),
    decreases s.len(),
{
    if s.len() > 0 {
        lemma_utf8_len_bound(s.drop_first());
        assert(vstd::utf8::encode_utf8(s) == vstd::utf8::encode_scalar(s[0] as u32) + vstd::utf8::encode_utf8(s.drop_first()));
    }
}

} // verus!

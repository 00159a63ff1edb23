//! AES-128 in 8-bit cipher feedback mode. One byte goes in, one comes
//! out; the 16-byte shift register always holds the last 16 ciphertext
//! bytes, in both directions, which is what makes the mode
//! self-synchronizing. Key and initialization vector are the same
//! 16-byte shared secret.

use vstd::prelude::*;

use vstd::slice::slice_to_vec;

use aes::cipher::generic_array::GenericArray;
use aes::cipher::{BlockEncrypt, KeyInit};

verus! {

/// The AES-128 block encryption of `block` under `key`: a function of
/// its arguments alone, named here and computed by the `aes` crate.
pub uninterp spec fn aes128_block(key: Seq<u8>, block: Seq<u8>) -> Seq<u8>;

/// Relies on `aes::Aes128::new` and `cipher::BlockEncrypt::encrypt_block`:
/// AES-128 block encryption, deterministic in key and block.
#[verifier::external_body]
fn aes128_encrypt_block(key: &Vec<u8>, block: &Vec<u8>) -> (r: Vec<u8>)
    requires
        key@.len() == 16,
        block@.len() == 16,
    ensures
        r@ == aes128_block(key@, block@),
        r@.len() == 16,
{
    let cipher = aes::Aes128::new(GenericArray::from_slice(key.as_slice()));
    let mut blk = GenericArray::clone_from_slice(block.as_slice());
    cipher.encrypt_block(&mut blk);
    blk.to_vec()
}

/// The keystream byte produced at shift-register state `sr`.
pub open spec fn cfb8_ks(key: Seq<u8>, sr: Seq<u8>) -> u8 {
    aes128_block(key, sr)[0]
}

/// What encrypting plain byte `p` at state `sr` yields.
pub open spec fn cfb8_enc_byte(key: Seq<u8>, sr: Seq<u8>, p: u8) -> u8 {
    p ^ cfb8_ks(key, sr)
}

/// What decrypting cipher byte `c` at state `sr` yields.
pub open spec fn cfb8_dec_byte(key: Seq<u8>, sr: Seq<u8>, c: u8) -> u8 {
    c ^ cfb8_ks(key, sr)
}

/// The shift register after one byte: shift left, append the cipher
/// byte. Both directions feed the ciphertext in.
pub open spec fn cfb8_next_sr(sr: Seq<u8>, c: u8) -> Seq<u8> {
    sr.drop_first().push(c)
}

/// The ciphertext of plaintext `p` starting at state `sr`.
pub open spec fn cfb8_encrypt(key: Seq<u8>, sr: Seq<u8>, p: Seq<u8>) -> Seq<u8>
    decreases p.len(),
{
    if p.len() == 0 {
        Seq::empty()
    } else {
        let c = cfb8_enc_byte(key, sr, p[0]);
        seq![c] + cfb8_encrypt(key, cfb8_next_sr(sr, c), p.drop_first())
    }
}

/// The plaintext of ciphertext `c` starting at state `sr`.
pub open spec fn cfb8_decrypt(key: Seq<u8>, sr: Seq<u8>, c: Seq<u8>) -> Seq<u8>
    decreases c.len(),
{
    if c.len() == 0 {
        Seq::empty()
    } else {
        seq![cfb8_dec_byte(key, sr, c[0])] + cfb8_decrypt(key, cfb8_next_sr(sr, c[0]), c.drop_first())
    }
}

/// The shift register after a run of ciphertext bytes. The register is
/// driven by ciphertext alone, so this one function serves encryption
/// and decryption alike.
pub open spec fn cfb8_sr_after(sr: Seq<u8>, c: Seq<u8>) -> Seq<u8>
    decreases c.len(),
{
    if c.len() == 0 {
        sr
    } else {
        cfb8_sr_after(cfb8_next_sr(sr, c[0]), c.drop_first())
    }
}

/// Encryption neither adds nor drops bytes.
pub proof fn lemma_cfb8_encrypt_len(key: Seq<u8>, sr: Seq<u8>, p: Seq<u8>)
    ensures
        cfb8_encrypt(key, sr, p).len() == p.len(),
    decreases p.len(),
{
    if p.len() > 0 {
        let c = cfb8_enc_byte(key, sr, p[0]);
        lemma_cfb8_encrypt_len(key, cfb8_next_sr(sr, c), p.drop_first());
    }
}

/// Decryption neither adds nor drops bytes.
pub proof fn lemma_cfb8_decrypt_len(key: Seq<u8>, sr: Seq<u8>, c: Seq<u8>)
    ensures
        cfb8_decrypt(key, sr, c).len() == c.len(),
    decreases c.len(),
{
    if c.len() > 0 {
        lemma_cfb8_decrypt_len(key, cfb8_next_sr(sr, c[0]), c.drop_first());
    }
}

/// Encrypting one more byte appends one cipher byte, produced at the
/// register state the earlier ciphertext left behind.
pub proof fn lemma_cfb8_encrypt_snoc(key: Seq<u8>, sr: Seq<u8>, p: Seq<u8>, b: u8)
    ensures
        cfb8_encrypt(key, sr, p.push(b)) == cfb8_encrypt(key, sr, p).push(
            cfb8_enc_byte(key, cfb8_sr_after(sr, cfb8_encrypt(key, sr, p)), b),
        ),
    decreases p.len(),
{
    if p.len() == 0 {
        reveal_with_fuel(cfb8_encrypt, 3);
        assert(p.push(b) =~= seq![b]);
        assert(p =~= Seq::<u8>::empty());
        let c = cfb8_enc_byte(key, sr, b);
        assert(seq![b].drop_first() =~= Seq::<u8>::empty());
        assert(cfb8_encrypt(key, sr, seq![b]) =~= seq![c]);
        assert(cfb8_encrypt(key, sr, p).push(c) =~= seq![c]);
    } else {
        let c0 = cfb8_enc_byte(key, sr, p[0]);
        let sr1 = cfb8_next_sr(sr, c0);
        assert(p.push(b)[0] == p[0]);
        assert(p.push(b).drop_first() =~= p.drop_first().push(b));
        lemma_cfb8_encrypt_snoc(key, sr1, p.drop_first(), b);
        let tail = cfb8_encrypt(key, sr1, p.drop_first());
        assert(cfb8_encrypt(key, sr, p) == seq![c0] + tail);
        assert((seq![c0] + tail)[0] == c0);
        assert((seq![c0] + tail).drop_first() =~= tail);
        assert(cfb8_sr_after(sr, seq![c0] + tail) == cfb8_sr_after(sr1, tail));
        let cb = cfb8_enc_byte(key, cfb8_sr_after(sr1, tail), b);
        assert(cfb8_encrypt(key, sr, p.push(b)) == seq![c0] + tail.push(cb));
        assert(seq![c0] + tail.push(cb) =~= (seq![c0] + tail).push(cb));
    }
}

/// Processing one more cipher byte steps the register once more.
pub proof fn lemma_cfb8_sr_after_snoc(sr: Seq<u8>, c: Seq<u8>, b: u8)
    ensures
        cfb8_sr_after(sr, c.push(b)) == cfb8_next_sr(cfb8_sr_after(sr, c), b),
    decreases c.len(),
{
    if c.len() == 0 {
        reveal_with_fuel(cfb8_sr_after, 3);
        assert(c.push(b) =~= seq![b]);
        assert(seq![b].drop_first() =~= Seq::<u8>::empty());
    } else {
        assert(c.push(b)[0] == c[0]);
        assert(c.push(b).drop_first() =~= c.drop_first().push(b));
        lemma_cfb8_sr_after_snoc(cfb8_next_sr(sr, c[0]), c.drop_first(), b);
    }
}

/// Decrypting one more byte appends one plain byte.
pub proof fn lemma_cfb8_decrypt_snoc(key: Seq<u8>, sr: Seq<u8>, c: Seq<u8>, b: u8)
    ensures
        cfb8_decrypt(key, sr, c.push(b)) == cfb8_decrypt(key, sr, c).push(
            cfb8_dec_byte(key, cfb8_sr_after(sr, c), b),
        ),
    decreases c.len(),
{
    if c.len() == 0 {
        reveal_with_fuel(cfb8_decrypt, 3);
        assert(c.push(b) =~= seq![b]);
        assert(seq![b].drop_first() =~= Seq::<u8>::empty());
        assert(cfb8_decrypt(key, sr, seq![b]) =~= seq![cfb8_dec_byte(key, sr, b)]);
        assert(cfb8_decrypt(key, sr, c).push(cfb8_dec_byte(key, sr, b)) =~= seq![
            cfb8_dec_byte(key, sr, b),
        ]);
    } else {
        assert(c.push(b)[0] == c[0]);
        assert(c.push(b).drop_first() =~= c.drop_first().push(b));
        lemma_cfb8_decrypt_snoc(key, cfb8_next_sr(sr, c[0]), c.drop_first(), b);
        let p0 = cfb8_dec_byte(key, sr, c[0]);
        let tail = cfb8_decrypt(key, cfb8_next_sr(sr, c[0]), c.drop_first());
        let pb = cfb8_dec_byte(key, cfb8_sr_after(sr, c), b);
        assert(cfb8_decrypt(key, sr, c.push(b)) == seq![p0] + tail.push(pb));
        assert(seq![p0] + tail.push(pb) =~= (seq![p0] + tail).push(pb));
    }
}

/// Chunking does not matter to the register: processing a ciphertext
/// run in two pieces lands on the same state.
pub proof fn lemma_cfb8_sr_after_append(sr: Seq<u8>, a: Seq<u8>, b: Seq<u8>)
    ensures
        cfb8_sr_after(sr, a + b) == cfb8_sr_after(cfb8_sr_after(sr, a), b),
    decreases a.len(),
{
    if a.len() == 0 {
        assert(a + b =~= b);
    } else {
        assert((a + b)[0] == a[0]);
        assert((a + b).drop_first() =~= a.drop_first() + b);
        lemma_cfb8_sr_after_append(cfb8_next_sr(sr, a[0]), a.drop_first(), b);
    }
}

/// Chunking does not matter to encryption: encrypting a plaintext in
/// two pieces, the second from the state the first left, concatenates
/// to encrypting it whole. With `lemma_cfb8_sr_after_append`, any
/// sequence of buffer calls on either side yields the same bytes as
/// one call over the whole message.
pub proof fn lemma_cfb8_encrypt_append(key: Seq<u8>, sr: Seq<u8>, a: Seq<u8>, b: Seq<u8>)
    ensures
        cfb8_encrypt(key, sr, a + b) == cfb8_encrypt(key, sr, a) + cfb8_encrypt(
            key,
            cfb8_sr_after(sr, cfb8_encrypt(key, sr, a)),
            b,
        ),
    decreases a.len(),
{
    if a.len() == 0 {
        assert(a + b =~= b);
        assert(cfb8_encrypt(key, sr, a) =~= Seq::<u8>::empty());
        assert(cfb8_sr_after(sr, Seq::<u8>::empty()) == sr);
        assert(Seq::<u8>::empty() + cfb8_encrypt(key, sr, b) =~= cfb8_encrypt(key, sr, b));
    } else {
        let c0 = cfb8_enc_byte(key, sr, a[0]);
        let sr1 = cfb8_next_sr(sr, c0);
        assert((a + b)[0] == a[0]);
        assert((a + b).drop_first() =~= a.drop_first() + b);
        lemma_cfb8_encrypt_append(key, sr1, a.drop_first(), b);
        let ca = cfb8_encrypt(key, sr1, a.drop_first());
        assert(cfb8_encrypt(key, sr, a) == seq![c0] + ca);
        assert((seq![c0] + ca)[0] == c0);
        assert((seq![c0] + ca).drop_first() =~= ca);
        assert(cfb8_sr_after(sr, seq![c0] + ca) == cfb8_sr_after(sr1, ca));
        assert(seq![c0] + (ca + cfb8_encrypt(key, cfb8_sr_after(sr1, ca), b)) =~= (seq![c0] + ca)
            + cfb8_encrypt(key, cfb8_sr_after(sr1, ca), b));
    }
}

/// Chunking does not matter to decryption either: decrypting a
/// ciphertext in two pieces, the second from the state the first left,
/// concatenates to decrypting it whole.
pub proof fn lemma_cfb8_decrypt_append(key: Seq<u8>, sr: Seq<u8>, a: Seq<u8>, b: Seq<u8>)
    ensures
        cfb8_decrypt(key, sr, a + b) == cfb8_decrypt(key, sr, a) + cfb8_decrypt(
            key,
            cfb8_sr_after(sr, a),
            b,
        ),
    decreases a.len(),
{
    if a.len() == 0 {
        assert(a + b =~= b);
        assert(cfb8_decrypt(key, sr, a) =~= Seq::<u8>::empty());
        assert(Seq::<u8>::empty() + cfb8_decrypt(key, sr, b) =~= cfb8_decrypt(key, sr, b));
    } else {
        let p0 = cfb8_dec_byte(key, sr, a[0]);
        let sr1 = cfb8_next_sr(sr, a[0]);
        assert((a + b)[0] == a[0]);
        assert((a + b).drop_first() =~= a.drop_first() + b);
        lemma_cfb8_decrypt_append(key, sr1, a.drop_first(), b);
        assert(seq![p0] + (cfb8_decrypt(key, sr1, a.drop_first()) + cfb8_decrypt(
            key,
            cfb8_sr_after(sr1, a.drop_first()),
            b,
        )) =~= (seq![p0] + cfb8_decrypt(key, sr1, a.drop_first())) + cfb8_decrypt(
            key,
            cfb8_sr_after(sr1, a.drop_first()),
            b,
        ));
    }
}

/// CFB-8 is self-inverse: decrypting what was encrypted from the same
/// key and register state recovers the plaintext exactly.
pub proof fn lemma_cfb8_self_inverse(key: Seq<u8>, sr: Seq<u8>, p: Seq<u8>)
    ensures
        cfb8_decrypt(key, sr, cfb8_encrypt(key, sr, p)) == p,
    decreases p.len(),
{
    if p.len() == 0 {
        assert(cfb8_decrypt(key, sr, cfb8_encrypt(key, sr, p)) =~= p);
    } else {
        let k = cfb8_ks(key, sr);
        let x = p[0];
        assert((x ^ k) ^ k == x) by (bit_vector);
        let c0 = cfb8_enc_byte(key, sr, p[0]);
        let sr1 = cfb8_next_sr(sr, c0);
        let tail = cfb8_encrypt(key, sr1, p.drop_first());
        assert(cfb8_encrypt(key, sr, p) == seq![c0] + tail);
        assert((seq![c0] + tail)[0] == c0);
        assert((seq![c0] + tail).drop_first() =~= tail);
        lemma_cfb8_self_inverse(key, sr1, p.drop_first());
        assert(cfb8_dec_byte(key, sr, c0) == p[0]);
        assert(cfb8_decrypt(key, sr, seq![c0] + tail) == seq![p[0]] + p.drop_first());
        assert(seq![p[0]] + p.drop_first() =~= p);
    }
}

/// One AES-128/CFB-8 stream cipher direction: the key and the 16-byte
/// shift register, which starts out equal to the shared secret.
#[derive(Debug)]
pub struct Cfb8Cipher {
    pub key: Vec<u8>,
    pub sr: Vec<u8>,
}

impl Cfb8Cipher {
    /// Key and register are the right size.
    pub open spec fn wf(&self) -> bool {
        self.key@.len() == 16 && self.sr@.len() == 16
    }

    /// A fresh cipher: key and initialization vector are both the
    /// 16-byte shared secret.
    pub fn new(shared_secret: &[u8]) -> (r: Cfb8Cipher)
        requires
            shared_secret@.len() == 16,
        ensures
            r.wf(),
            r.key@ == shared_secret@,
            r.sr@ == shared_secret@,
    {
        Cfb8Cipher { key: slice_to_vec(shared_secret), sr: slice_to_vec(shared_secret) }
    }

    /// Encrypts one byte and shifts the produced cipher byte into the
    /// register.
    pub fn encrypt_byte(&mut self, byte: u8) -> (c: u8)
        requires
            old(self).wf(),
        ensures
            final(self).wf(),
            final(self).key@ == old(self).key@,
            c == cfb8_enc_byte(old(self).key@, old(self).sr@, byte),
            final(self).sr@ == cfb8_next_sr(old(self).sr@, c),
    {
        let block = aes128_encrypt_block(&self.key, &self.sr);
        let c = byte ^ block[0];
        self.sr.remove(0);
        self.sr.push(c);
        proof {
            assert(self.sr@ =~= cfb8_next_sr(old(self).sr@, c));
        }
        c
    }

    /// Decrypts one byte and shifts the received cipher byte into the
    /// register.
    pub fn decrypt_byte(&mut self, byte: u8) -> (p: u8)
        requires
            old(self).wf(),
        ensures
            final(self).wf(),
            final(self).key@ == old(self).key@,
            p == cfb8_dec_byte(old(self).key@, old(self).sr@, byte),
            final(self).sr@ == cfb8_next_sr(old(self).sr@, byte),
    {
        let block = aes128_encrypt_block(&self.key, &self.sr);
        let p = byte ^ block[0];
        self.sr.remove(0);
        self.sr.push(byte);
        proof {
            assert(self.sr@ =~= cfb8_next_sr(old(self).sr@, byte));
        }
        p
    }

    /// Encrypts a buffer in place, byte by byte in order.
    pub fn encrypt(&mut self, buf: &mut Vec<u8>)
        requires
            old(self).wf(),
        ensures
            final(self).wf(),
            final(self).key@ == old(self).key@,
            final(buf)@ == cfb8_encrypt(old(self).key@, old(self).sr@, old(buf)@),
            final(self).sr@ == cfb8_sr_after(old(self).sr@, final(buf)@),
    {
        let ghost key = self.key@;
        let ghost sr0 = self.sr@;
        let mut i: usize = 0;
        while i < buf.len()
            invariant
                i <= buf@.len(),
                buf@.len() == old(buf)@.len(),
                self.wf(),
                self.key@ == key,
                forall|j: int| i <= j < buf@.len() ==> buf@[j] == old(buf)@[j],
                buf@.take(i as int) == cfb8_encrypt(key, sr0, old(buf)@.take(i as int)),
                self.sr@ == cfb8_sr_after(sr0, buf@.take(i as int)),
            decreases buf@.len() - i,
        {
            let ghost done_p = old(buf)@.take(i as int);
            let ghost done_c = buf@.take(i as int);
            let b = buf[i];
            let c = self.encrypt_byte(b);
            buf[i] = c;
            proof {
                lemma_cfb8_encrypt_snoc(key, sr0, done_p, b);
                lemma_cfb8_sr_after_snoc(sr0, done_c, c);
                assert(old(buf)@.take(i + 1) =~= done_p.push(b));
                assert(buf@.take(i + 1) =~= done_c.push(c));
            }
            i = i + 1;
        }
        proof {
            assert(buf@.take(buf@.len() as int) =~= buf@);
            assert(old(buf)@.take(buf@.len() as int) =~= old(buf)@);
        }
    }

    /// Decrypts a buffer in place, byte by byte in order.
    pub fn decrypt(&mut self, buf: &mut Vec<u8>)
        requires
            old(self).wf(),
        ensures
            final(self).wf(),
            final(self).key@ == old(self).key@,
            final(buf)@ == cfb8_decrypt(old(self).key@, old(self).sr@, old(buf)@),
            final(self).sr@ == cfb8_sr_after(old(self).sr@, old(buf)@),
    {
        let ghost key = self.key@;
        let ghost sr0 = self.sr@;
        let mut i: usize = 0;
        while i < buf.len()
            invariant
                i <= buf@.len(),
                buf@.len() == old(buf)@.len(),
                self.wf(),
                self.key@ == key,
                forall|j: int| i <= j < buf@.len() ==> buf@[j] == old(buf)@[j],
                buf@.take(i as int) == cfb8_decrypt(key, sr0, old(buf)@.take(i as int)),
                self.sr@ == cfb8_sr_after(sr0, old(buf)@.take(i as int)),
            decreases buf@.len() - i,
        {
            let ghost done_c = old(buf)@.take(i as int);
            let ghost done_p = buf@.take(i as int);
            let b = buf[i];
            let p = self.decrypt_byte(b);
            buf[i] = p;
            proof {
                lemma_cfb8_decrypt_snoc(key, sr0, done_c, b);
                lemma_cfb8_sr_after_snoc(sr0, done_c, b);
                assert(old(buf)@.take(i + 1) =~= done_c.push(b));
                assert(buf@.take(i + 1) =~= done_p.push(p));
            }
            i = i + 1;
        }
        proof {
            assert(buf@.take(buf@.len() as int) =~= buf@);
            assert(old(buf)@.take(buf@.len() as int) =~= old(buf)@);
        }
    }
}

} // verus!

//! The WZ XOR key stream: AES-256 in ECB mode applied repeatedly to the IV.
use vstd::prelude::*;
use aes::cipher::{BlockEncrypt, KeyInit};

verus! {

/// IV of BMS / Classic / KMS / TMS / CMS data: the all-zero IV, whose key
/// stream is all zeros.
pub const WZ_BMSCLASSIC_IV: [u8; 4] = [0u8, 0u8, 0u8, 0u8];

/// IV of GMS data.
pub const WZ_GMSIV: [u8; 4] = [0x4Du8, 0x23u8, 0xC7u8, 0x2Bu8];

/// IV of EMS / MSEA data.
pub const WZ_MSEAIV: [u8; 4] = [0xB9u8, 0x7Du8, 0x63u8, 0xE9u8];

/// The AES-256 encryption of one 16-byte block under a 32-byte key.
pub uninterp spec fn aes256_encryption(key: Seq<u8>, block: Seq<u8>) -> Seq<u8>;

/// Encrypts one block with AES-256 (the `aes` crate's `Aes256::encrypt_block`).
/// The contract claims that the output is the AES-256 encryption of `block`
/// under `key` (named [`aes256_encryption`]); AES maps 16 bytes to 16 bytes.
#[verifier::external_body]
fn aes256_encrypt_block(key: &[u8; 32], block: &[u8; 16]) -> (out: [u8; 16])
    ensures
        out@ == aes256_encryption(key@, block@),
{
    let cipher = aes::Aes256::new(aes::cipher::generic_array::GenericArray::from_slice(key));
    let mut b = aes::cipher::generic_array::GenericArray::clone_from_slice(block);
    cipher.encrypt_block(&mut b);
    b.into()
}

/// The 256-bit AES key shared by all WZ versions (every fourth byte of the
/// 128-byte MapleStory user key, placed in every fourth position).
pub open spec fn wz_aes_key() -> Seq<u8> {
    seq![
        0x13u8, 0, 0, 0, 0x08, 0, 0, 0, 0x06, 0, 0, 0, 0xB4, 0, 0, 0,
        0x1B, 0, 0, 0, 0x0F, 0, 0, 0, 0x33, 0, 0, 0, 0x52, 0, 0, 0,
    ]
}

fn wz_aes_key_bytes() -> (k: [u8; 32])
    ensures
        k@ == wz_aes_key(),
{
    let k: [u8; 32] = [
        0x13, 0, 0, 0, 0x08, 0, 0, 0, 0x06, 0, 0, 0, 0xB4, 0, 0, 0,
        0x1B, 0, 0, 0, 0x0F, 0, 0, 0, 0x33, 0, 0, 0, 0x52, 0, 0, 0,
    ];
    assert(k@ =~= wz_aes_key());
    k
}

/// Whether all four IV bytes are zero.
pub open spec fn iv_is_zero(iv: [u8; 4]) -> bool {
    iv[0] == 0 && iv[1] == 0 && iv[2] == 0 && iv[3] == 0
}

/// The IV repeated to one 16-byte block.
pub open spec fn iv_block(iv: [u8; 4]) -> Seq<u8> {
    Seq::new(16, |i: int| iv[i % 4])
}

/// Key stream block `n`: the IV block encrypted `n + 1` times.
pub open spec fn key_block(iv: [u8; 4], n: nat) -> Seq<u8>
    decreases n,
{
    if n == 0 {
        aes256_encryption(wz_aes_key(), iv_block(iv))
    } else {
        aes256_encryption(wz_aes_key(), key_block(iv, (n - 1) as nat))
    }
}

/// Byte `i` of the key stream for `iv` (all zeros for the zero IV).
pub open spec fn key_byte(iv: [u8; 4], i: int) -> u8 {
    if iv_is_zero(iv) {
        0u8
    } else {
        key_block(iv, (i / 16) as nat)[i % 16]
    }
}

/// The first `n` bytes of the key stream.
pub open spec fn key_prefix(iv: [u8; 4], n: nat) -> Seq<u8> {
    Seq::new(n, |i: int| key_byte(iv, i))
}

/// A lazily extended prefix of the XOR key stream generated from a 4-byte IV.
pub struct WzKey {
    iv: [u8; 4],
    keys: Vec<u8>,
}

impl WzKey {
    /// The IV this key stream is generated from.
    pub closed spec fn spec_iv(&self) -> [u8; 4] {
        self.iv
    }

    /// Number of key bytes generated so far.
    pub closed spec fn spec_len(&self) -> nat {
        self.keys@.len()
    }

    /// The generated bytes are the key stream's first bytes (in whole blocks
    /// for a non-zero IV).
    pub closed spec fn wf(&self) -> bool {
        &&& self.keys@ == key_prefix(self.iv, self.keys@.len())
        &&& !iv_is_zero(self.iv) ==> self.keys@.len() % 16 == 0
        &&& !iv_is_zero(self.iv) ==> forall|b: nat| b < self.keys@.len() / 16 ==> (#[trigger] key_block(self.iv, b)).len() == 16
    }

    /// A key stream for `iv` with nothing generated yet.
    pub fn new(iv: [u8; 4]) -> (k: WzKey)
        ensures
            k.wf(),
            k.spec_iv() == iv,
            k.spec_len() == 0,
    {
        let k = WzKey { iv, keys: Vec::new() };
        assert(k.keys@ =~= key_prefix(iv, 0));
        k
    }

    /// The IV of this key stream.
    pub fn iv(&self) -> (iv: [u8; 4])
        ensures
            iv == self.spec_iv(),
    {
        self.iv
    }

    /// Number of key bytes generated so far.
    pub fn len(&self) -> (n: usize)
        ensures
            n == self.spec_len(),
    {
        self.keys.len()
    }

    /// Generates key bytes until at least `size` are available.
    pub fn ensure_size(&mut self, size: usize)
        requires
            old(self).wf(),
            size + 16 <= usize::MAX,
        ensures
            final(self).wf(),
            final(self).spec_iv() == old(self).spec_iv(),
            final(self).spec_len() >= size,
            final(self).spec_len() >= old(self).spec_len(),
    {
        if self.keys.len() >= size {
            return;
        }
        let ghost iv = self.iv;
        if self.iv[0] == 0 && self.iv[1] == 0 && self.iv[2] == 0 && self.iv[3] == 0 {
            while self.keys.len() < size
                invariant
                    self.iv == iv,
                    iv_is_zero(iv),
                    self.keys@ == key_prefix(iv, self.keys@.len()),
                decreases size - self.keys.len(),
            {
                self.keys.push(0u8);
                assert(self.keys@ =~= key_prefix(iv, self.keys@.len()));
            }
            return;
        }
        let aes_key = wz_aes_key_bytes();
        while self.keys.len() < size
            invariant
                self.iv == iv,
                !iv_is_zero(iv),
                aes_key@ == wz_aes_key(),
                self.keys@ == key_prefix(iv, self.keys@.len()),
                self.keys@.len() % 16 == 0,
                size + 16 <= usize::MAX,
                self.keys@.len() <= size + 16,
                forall|b: nat| b < self.keys@.len() / 16 ==> (#[trigger] key_block(iv, b)).len() == 16,
            decreases size + 16 - self.keys.len(),
        {
            let n = self.keys.len();
            let mut input = [0u8; 16];
            if n == 0 {
                let mut i = 0usize;
                while i < 16
                    invariant
                        0 <= i <= 16,
                        self.iv == iv,
                        forall|j: int| 0 <= j < i ==> input@[j] == iv[j % 4],
                    decreases 16 - i,
                {
                    input[i] = self.iv[i % 4];
                    i = i + 1;
                }
                assert(input@ =~= iv_block(iv));
            } else {
                let mut i = 0usize;
                while i < 16
                    invariant
                        0 <= i <= 16,
                        n == self.keys@.len(),
                        n >= 16,
                        forall|j: int| 0 <= j < i ==> input@[j] == self.keys@[n - 16 + j],
                    decreases 16 - i,
                {
                    input[i] = self.keys[n - 16 + i];
                    i = i + 1;
                }
                proof {
                    let b = ((n - 16) / 16) as nat;
                    assert forall|j: int| 0 <= j < 16 implies input@[j] == key_block(iv, b)[j] by {
                        assert(self.keys@[n - 16 + j] == key_byte(iv, n - 16 + j));
                        assert((n - 16 + j) / 16 == b);
                        assert((n - 16 + j) % 16 == j);
                    }
                    assert(input@ =~= key_block(iv, b));
                }
            }
            let block = aes256_encrypt_block(&aes_key, &input);
            let ghost old_keys = self.keys@;
            let mut i = 0usize;
            while i < 16
                invariant
                    0 <= i <= 16,
                    self.iv == iv,
                    self.keys@.len() == n + i,
                    old_keys.len() == n,
                    old_keys == key_prefix(iv, n as nat),
                    forall|j: int| 0 <= j < n ==> self.keys@[j] == old_keys[j],
                    forall|j: int| 0 <= j < i ==> self.keys@[n + j] == block@[j],
                decreases 16 - i,
            {
                self.keys.push(block[i]);
                i = i + 1;
            }
            proof {
                let b = (n / 16) as nat;
                if n == 0 {
                    assert(block@ == key_block(iv, 0));
                } else {
                    assert(block@ == aes256_encryption(wz_aes_key(), key_block(iv, (b - 1) as nat)));
                    assert(block@ == key_block(iv, b));
                }
                assert forall|j: int| 0 <= j < self.keys@.len() implies self.keys@[j] == key_byte(iv, j) by {
                    if j < n {
                        assert(old_keys[j] == key_byte(iv, j));
                    } else {
                        assert(self.keys@[j] == block@[j - n]);
                        assert((j / 16) as nat == b);
                        assert(j % 16 == j - n);
                    }
                }
                assert(self.keys@ =~= key_prefix(iv, self.keys@.len()));
                assert forall|c: nat| c < self.keys@.len() / 16 implies (#[trigger] key_block(iv, c)).len() == 16 by {
                    if c == b {
                    } else {
                        assert(c < n / 16);
                    }
                }
            }
        }
    }

    /// Key byte `i` (which must already be generated).
    pub fn get(&self, i: usize) -> (b: u8)
        requires
            self.wf(),
            i < self.spec_len(),
        ensures
            b == key_byte(self.spec_iv(), i as int),
    {
        self.keys[i]
    }

    /// The first `n` key bytes, generating them as needed.
    pub fn get_slice(&mut self, n: usize) -> (r: Vec<u8>)
        requires
            old(self).wf(),
            n + 16 <= usize::MAX,
        ensures
            final(self).wf(),
            final(self).spec_iv() == old(self).spec_iv(),
            r@ == key_prefix(old(self).spec_iv(), n as nat),
    {
        self.ensure_size(n);
        let mut r: Vec<u8> = Vec::new();
        let mut i = 0usize;
        while i < n
            invariant
                0 <= i <= n,
                self.wf(),
                self.spec_len() >= n,
                r@ == key_prefix(self.spec_iv(), i as nat),
            decreases n - i,
        {
            r.push(self.get(i));
            i = i + 1;
            assert(r@ =~= key_prefix(self.spec_iv(), i as nat));
        }
        r
    }
}

} // verus!

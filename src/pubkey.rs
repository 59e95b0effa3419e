//! 32-byte account addresses.

use vstd::prelude::*;

verus! {

/// Number of bytes in an account address.
pub const PUBKEY_BYTES: usize = 32;

/// A 32-byte account address.
#[derive(Clone, Copy, Debug)]
pub struct Pubkey {
    pub bytes: [u8; 32],
}

impl View for Pubkey {
    type V = Seq<u8>;

    open spec fn view(&self) -> Seq<u8> {
        self.bytes@
    }
}

/// The all-zero address, used as the "absent" sentinel.
pub open spec fn zero_key() -> Seq<u8> {
    Seq::new(32, |i: int| 0u8)
}

impl Pubkey {
    /// Builds an address from its bytes.
    pub fn new_from_array(bytes: [u8; 32]) -> (r: Pubkey)
        ensures
            r@ == bytes@,
    {
        Pubkey { bytes }
    }

    /// The all-zero address.
    pub fn default_key() -> (r: Pubkey)
        ensures
            r@ == zero_key(),
    {
        let r = Pubkey { bytes: [0u8; 32] };
        assert(r@ =~= zero_key());
        r
    }

    /// True when every byte is zero.
    pub fn is_zero(&self) -> (r: bool)
        ensures
            r == (self@ == zero_key()),
    {
        let mut i: usize = 0;
        while i < PUBKEY_BYTES
            invariant
                i <= 32,
                self@.len() == 32,
                forall|k: int| 0 <= k < i ==> self@[k] == 0u8,
            decreases 32 - i,
        {
            if self.bytes[i] != 0 {
                assert(self@[i as int] != zero_key()[i as int]);
                return false;
            }
            i = i + 1;
        }
        assert(self@ =~= zero_key());
        true
    }

    /// The address as a vector of bytes.
    pub fn to_vec(&self) -> (r: Vec<u8>)
        ensures
            r@ == self@,
    {
        let mut r: Vec<u8> = Vec::new();
        let mut i: usize = 0;
        while i < PUBKEY_BYTES
            invariant
                i <= 32,
                self@.len() == 32,
                r@ == self@.subrange(0, i as int),
            decreases 32 - i,
        {
            r.push(self.bytes[i]);
            i = i + 1;
        }
        assert(r@ =~= self@);
        r
    }
}

/// The address of the wrapped native token mint
/// (So11111111111111111111111111111111111111112).
pub open spec fn native_mint_bytes() -> Seq<u8> {
    seq![
        6u8, 155, 136, 87, 254, 171, 129, 132, 251, 104, 127, 99, 70, 24, 192, 53, 218, 196, 57,
        220, 26, 235, 59, 85, 152, 160, 240, 0, 0, 0, 0, 1,
    ]
}

/// Relies on spl_token::native_mint::ID: the address of the wrapped native
/// token mint, which pays in the chain's native currency.
#[verifier::external_body]
fn native_mint_id() -> (r: Pubkey)
    ensures
        r@ == native_mint_bytes(),
{
    Pubkey { bytes: spl_token::native_mint::ID.to_bytes() }
}

/// True when `key` is the native mint, i.e. payment is in the chain's
/// native currency.
pub fn is_native_mint(key: &Pubkey) -> (r: bool)
    ensures
        r == (key@ == native_mint_bytes()),
{
    let native = native_mint_id();
    cmp_pubkeys(key, &native)
}

/// Compares two addresses byte for byte.
pub fn cmp_pubkeys(a: &Pubkey, b: &Pubkey) -> (r: bool)
    ensures
        r == (a@ == b@),
{
    let mut i: usize = 0;
    while i < PUBKEY_BYTES
        invariant
            i <= 32,
            a@.len() == 32,
            b@.len() == 32,
            forall|k: int| 0 <= k < i ==> a@[k] == b@[k],
        decreases 32 - i,
    {
        if a.bytes[i] != b.bytes[i] {
            return false;
        }
        i = i + 1;
    }
    assert(a@ =~= b@);
    true
}

} // verus!

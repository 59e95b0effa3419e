//! Which sellers may deposit: the per-seller cap and the Merkle allow-list.

use vstd::prelude::*;

use crate::error::GumballError;
use crate::pubkey::{cmp_pubkeys, Pubkey};
use crate::settlement::SellerHistory;
use crate::state::GumballMachine;

verus! {

/// The Keccak-256 digest of `data`.
pub uninterp spec fn keccak_of(data: Seq<u8>) -> Seq<u8>;

/// The base58 text of an address, as bytes.
pub uninterp spec fn base58_of(key: Seq<u8>) -> Seq<u8>;

/// Relies on solana_program::keccak::hashv: the Keccak-256 digest of the
/// given bytes; a digest is 32 bytes by its type.
#[verifier::external_body]
fn keccak(data: &Vec<u8>) -> (r: [u8; 32])
    ensures
        r@ == keccak_of(data@),
{
    solana_program::keccak::hashv(&[data.as_slice()]).0
}

/// Relies on solana_program::pubkey::Pubkey's Display: the base58 text of
/// the address.
#[verifier::external_body]
fn base58(key: &Pubkey) -> (r: Vec<u8>)
    ensures
        r@ == base58_of(key@),
{
    solana_program::pubkey::Pubkey::new_from_array(key.bytes).to_string().into_bytes()
}

/// Byte-wise lexicographic order on equal-length byte strings.
pub open spec fn bytes_le(a: Seq<u8>, b: Seq<u8>) -> bool
    decreases a.len(),
{
    if a.len() == 0 || b.len() == 0 {
        true
    } else if a[0] != b[0] {
        a[0] < b[0]
    } else {
        bytes_le(a.drop_first(), b.drop_first())
    }
}

/// One step up a Merkle branch: the pair is hashed in sorted order.
pub open spec fn hash_pair(a: Seq<u8>, b: Seq<u8>) -> Seq<u8> {
    if bytes_le(a, b) {
        keccak_of(a + b)
    } else {
        keccak_of(b + a)
    }
}

/// The root computed from `leaf` and the first `n` sibling hashes.
pub open spec fn merkle_root(leaf: Seq<u8>, proof: Seq<[u8; 32]>, n: int) -> Seq<u8>
    decreases n,
{
    if n <= 0 {
        leaf
    } else {
        hash_pair(merkle_root(leaf, proof, n - 1), proof[n - 1]@)
    }
}

/// Leaf of a seller in the allow-list: the digest of its base58 address.
pub open spec fn seller_leaf(seller: Seq<u8>) -> Seq<u8> {
    keccak_of(base58_of(seller))
}

fn bytes_le_exec(a: &[u8; 32], b: &[u8; 32]) -> (r: bool)
    ensures
        r == bytes_le(a@, b@),
{
    assert(a@.subrange(0, 32) =~= a@);
    assert(b@.subrange(0, 32) =~= b@);
    let mut i: usize = 0;
    while i < 32
        invariant
            i <= 32,
            a@.len() == 32,
            b@.len() == 32,
            forall|k: int| 0 <= k < i ==> a@[k] == b@[k],
            bytes_le(a@, b@) == bytes_le(a@.subrange(i as int, 32), b@.subrange(i as int, 32)),
        decreases 32 - i,
    {
        let ghost sa = a@.subrange(i as int, 32);
        let ghost sb = b@.subrange(i as int, 32);
        if a[i] != b[i] {
            assert(sa[0] == a@[i as int] && sb[0] == b@[i as int]);
            return a[i] < b[i];
        }
        assert(sa.drop_first() =~= a@.subrange(i + 1, 32));
        assert(sb.drop_first() =~= b@.subrange(i + 1, 32));
        i = i + 1;
    }
    true
}

fn concat(a: &[u8; 32], b: &[u8; 32]) -> (r: Vec<u8>)
    ensures
        r@ == a@ + b@,
{
    let mut r: Vec<u8> = Vec::new();
    let mut i: usize = 0;
    while i < 32
        invariant
            i <= 32,
            a@.len() == 32,
            r@ == a@.subrange(0, i as int),
        decreases 32 - i,
    {
        r.push(a[i]);
        i = i + 1;
    }
    let mut i: usize = 0;
    while i < 32
        invariant
            i <= 32,
            a@.len() == 32,
            b@.len() == 32,
            r@ == a@ + b@.subrange(0, i as int),
        decreases 32 - i,
    {
        r.push(b[i]);
        i = i + 1;
    }
    assert(b@.subrange(0, 32) =~= b@);
    r
}

/// Returns true if `leaf` is proved to be part of the Merkle tree with
/// `root` by `proof`, the sibling hashes from the leaf up. Each pair is
/// hashed in sorted order.
pub fn verify_proof(proof: &Vec<[u8; 32]>, root: &[u8; 32], leaf: &[u8; 32]) -> (r: bool)
    ensures
        r == (merkle_root(leaf@, proof@, proof@.len() as int) == root@),
{
    let mut computed_hash: [u8; 32] = *leaf;
    let mut i: usize = 0;
    while i < proof.len()
        invariant
            i <= proof@.len(),
            computed_hash@ == merkle_root(leaf@, proof@, i as int),
        decreases proof@.len() - i,
    {
        let element = proof[i];
        let joined = if bytes_le_exec(&computed_hash, &element) {
            concat(&computed_hash, &element)
        } else {
            concat(&element, &computed_hash)
        };
        computed_hash = keccak(&joined);
        i = i + 1;
    }
    let mut k: usize = 0;
    while k < 32
        invariant
            k <= 32,
            computed_hash@.len() == 32,
            computed_hash@ == merkle_root(leaf@, proof@, proof@.len() as int),
            root@.len() == 32,
            forall|j: int| 0 <= j < k ==> computed_hash@[j] == root@[j],
        decreases 32 - k,
    {
        if computed_hash[k] != root[k] {
            assert(computed_hash@[k as int] != root@[k as int]);
            return false;
        }
        k = k + 1;
    }
    assert(computed_hash@ =~= root@);
    true
}

/// Outcome of `assert_can_add_item`.
pub open spec fn can_add_result(
    m: GumballMachine,
    history: SellerHistory,
    quantity: u16,
    proof: Option<Seq<[u8; 32]>>,
) -> Result<(), GumballError> {
    if history.seller@ == m.authority@ {
        Ok(())
    } else if history.item_count + quantity > m.settings.items_per_seller {
        Err(GumballError::SellerTooManyItems)
    } else {
        match (proof, m.settings.sellers_merkle_root) {
            (Some(p), Some(root)) => if merkle_root(
                seller_leaf(history.seller@),
                p,
                p.len() as int,
            ) == root@ {
                Ok(())
            } else {
                Err(GumballError::InvalidProofPath)
            },
            _ => Err(GumballError::InvalidProofPath),
        }
    }
}

/// Checks that the seller of `seller_history` may deposit `quantity` more
/// items: the machine authority always may; anyone else stays within the
/// per-seller cap and proves membership of the sellers' allow-list.
pub fn assert_can_add_item(
    gumball_machine: &GumballMachine,
    seller_history: &SellerHistory,
    quantity: u16,
    seller_proof_path: Option<Vec<[u8; 32]>>,
) -> (r: Result<(), GumballError>)
    ensures
        r == can_add_result(
            *gumball_machine,
            *seller_history,
            quantity,
            match seller_proof_path {
                Some(p) => Some(p@),
                None => None,
            },
        ),
{
    let seller = seller_history.seller;
    if cmp_pubkeys(&seller, &gumball_machine.authority) {
        return Ok(());
    }
    if seller_history.item_count as u128 + quantity as u128
        > gumball_machine.settings.items_per_seller as u128 {
        return Err(GumballError::SellerTooManyItems);
    }
    match (seller_proof_path, gumball_machine.settings.sellers_merkle_root) {
        (Some(proof), Some(root)) => {
            let text = base58(&seller);
            let leaf = keccak(&text);
            if verify_proof(&proof, &root, &leaf) {
                Ok(())
            } else {
                Err(GumballError::InvalidProofPath)
            }
        },
        _ => Err(GumballError::InvalidProofPath),
    }
}

/// Checks that a third party may ask to add an item: it is not the machine
/// authority and is below the per-seller cap.
pub fn assert_can_request_add_item(
    gumball_machine: &GumballMachine,
    seller_history: &SellerHistory,
) -> (r: Result<(), GumballError>)
    ensures
        seller_history.seller@ == gumball_machine.authority@ ==> r == Err::<(), GumballError>(
            GumballError::SellerCannotBeAuthority,
        ),
        seller_history.seller@ != gumball_machine.authority@ && seller_history.item_count
            >= gumball_machine.settings.items_per_seller ==> r == Err::<(), GumballError>(
            GumballError::SellerTooManyItems,
        ),
        seller_history.seller@ != gumball_machine.authority@ && seller_history.item_count
            < gumball_machine.settings.items_per_seller ==> r is Ok,
{
    if cmp_pubkeys(&seller_history.seller, &gumball_machine.authority) {
        return Err(GumballError::SellerCannotBeAuthority);
    }
    if seller_history.item_count >= gumball_machine.settings.items_per_seller as u64 {
        return Err(GumballError::SellerTooManyItems);
    }
    Ok(())
}

} // verus!

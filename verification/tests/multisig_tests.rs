use mint_client::keys::{Ed25519Public, Ed25519Signature, MintPrivateKey};
use mint_client::multisig::{canonicalize_signatures, MultiSig};
use mint_client::prefix::MintConfigTxPrefixParams;
use mint_client::signer_set::SignerSet;
use mint_client::tx::MintConfigTxParams;

fn sig(fill: u8) -> Ed25519Signature {
    Ed25519Signature::new(vec![fill; 64])
}

fn key(seed: u8) -> MintPrivateKey {
    MintPrivateKey::new(vec![seed; 32])
}

fn public_key(fill: u8) -> Ed25519Public {
    Ed25519Public::new(vec![fill; 32])
}

fn signer_set_of(fills: &[u8], threshold: u32) -> SignerSet {
    let keys: Vec<Ed25519Public> = fills.iter().map(|f| public_key(*f)).collect();
    SignerSet::new(keys, threshold).unwrap()
}

fn config_params(nonce: Option<Vec<u8>>) -> MintConfigTxPrefixParams {
    MintConfigTxPrefixParams {
        token_id: 5,
        tombstone: Some(1000),
        nonce,
        configs: vec![(10_000, signer_set_of(&[1, 2, 3], 2))],
        total_mint_limit: 20_000,
    }
}

#[test]
fn canonicalize_sorts_and_dedups() {
    let input = vec![sig(9), sig(2), sig(9), sig(5), sig(2)];
    let out = canonicalize_signatures(&input);
    assert_eq!(out.len(), 3);
    assert_eq!(out[0].bytes, vec![2u8; 64]);
    assert_eq!(out[1].bytes, vec![5u8; 64]);
    assert_eq!(out[2].bytes, vec![9u8; 64]);
}

#[test]
fn canonicalize_is_order_independent() {
    let a = canonicalize_signatures(&vec![sig(7), sig(1), sig(4)]);
    let b = canonicalize_signatures(&vec![sig(4), sig(7), sig(1), sig(7)]);
    assert_eq!(a.len(), b.len());
    for i in 0..a.len() {
        assert_eq!(a[i].bytes, b[i].bytes);
    }
}

#[test]
fn multisig_new_canonicalizes() {
    let m = MultiSig::new(vec![sig(8), sig(3), sig(8)]);
    assert_eq!(m.signatures.len(), 2);
    assert_eq!(m.signatures[0].bytes, vec![3u8; 64]);
    assert_eq!(m.signatures[1].bytes, vec![8u8; 64]);
}

#[test]
fn merge_takes_the_union() {
    let a = MultiSig::new(vec![sig(1), sig(3)]);
    let b = MultiSig::new(vec![sig(3), sig(2)]);
    let ab = a.merge(&b);
    let ba = b.merge(&a);
    assert_eq!(ab.signatures.len(), 3);
    assert_eq!(ab.signatures[0].bytes, vec![1u8; 64]);
    assert_eq!(ab.signatures[1].bytes, vec![2u8; 64]);
    assert_eq!(ab.signatures[2].bytes, vec![3u8; 64]);
    assert_eq!(ab.signatures.len(), ba.signatures.len());
    for i in 0..ab.signatures.len() {
        assert_eq!(ab.signatures[i].bytes, ba.signatures[i].bytes);
    }
}

#[test]
fn merge_is_associative_on_collections() {
    let a = MultiSig::new(vec![sig(6)]);
    let b = MultiSig::new(vec![sig(2)]);
    let c = MultiSig::new(vec![sig(4), sig(6)]);
    let left = a.merge(&b).merge(&c);
    let right = a.merge(&b.merge(&c));
    assert_eq!(left.signatures.len(), right.signatures.len());
    for i in 0..left.signatures.len() {
        assert_eq!(left.signatures[i].bytes, right.signatures[i].bytes);
    }
}

#[test]
fn three_signers_two_local_one_external() {
    let nonce = vec![7u8; 64];
    // Sign once with the third key alone to obtain its signature.
    let third_only = MintConfigTxParams {
        signing_keys: vec![key(33)],
        signatures: vec![],
        prefix_params: config_params(Some(nonce.clone())),
    }
    .try_into_mint_config_tx(1000)
    .unwrap();
    assert_eq!(third_only.signature.signatures.len(), 1);
    let external = Ed25519Signature::new(third_only.signature.signatures[0].bytes.clone());

    // Sign with all three keys locally.
    let all_local = MintConfigTxParams {
        signing_keys: vec![key(11), key(22), key(33)],
        signatures: vec![],
        prefix_params: config_params(Some(nonce.clone())),
    }
    .try_into_mint_config_tx(1000)
    .unwrap();
    assert_eq!(all_local.signature.signatures.len(), 3);

    // Two local keys plus the third key's signature supplied externally
    // give exactly the same three sorted signatures.
    let mixed = MintConfigTxParams {
        signing_keys: vec![key(22), key(11)],
        signatures: vec![external],
        prefix_params: config_params(Some(nonce.clone())),
    }
    .try_into_mint_config_tx(1000)
    .unwrap();
    assert_eq!(mixed.signature.signatures.len(), 3);
    for i in 0..3 {
        assert_eq!(
            mixed.signature.signatures[i].bytes,
            all_local.signature.signatures[i].bytes
        );
    }
    for i in 0..2 {
        assert!(mixed.signature.signatures[i].bytes < mixed.signature.signatures[i + 1].bytes);
    }

    // An externally supplied duplicate of a local signature is dropped.
    let duplicate = Ed25519Signature::new(all_local.signature.signatures[0].bytes.clone());
    let with_duplicate = MintConfigTxParams {
        signing_keys: vec![key(11), key(22), key(33)],
        signatures: vec![duplicate],
        prefix_params: config_params(Some(nonce)),
    }
    .try_into_mint_config_tx(1000)
    .unwrap();
    assert_eq!(with_duplicate.signature.signatures.len(), 3);
}

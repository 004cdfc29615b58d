use mint_client::address::{DecodedPrintable, PublicAddress, public_address_from_printable};
use mint_client::errors::Error;
use mint_client::keys::{Ed25519Public, MintPrivateKey};
use mint_client::prefix::{
    encode_mint_config_tx_prefix, get_or_generate_nonce, FogResolution, MintConfigTxPrefixParams,
    MintTxPrefixParams, NONCE_LENGTH,
};
use mint_client::signer_set::SignerSet;
use mint_client::tx::MintConfigTxParams;
use ed25519_dalek::Signer;
use sha2::Digest;

fn public_key(fill: u8) -> Ed25519Public {
    Ed25519Public::new(vec![fill; 32])
}

fn address(fog: Option<&str>) -> PublicAddress {
    PublicAddress {
        view_public_key: vec![1; 32],
        spend_public_key: vec![2; 32],
        fog_report_url: fog.map(|s| s.to_string()),
    }
}

fn config_params(nonce: Option<Vec<u8>>) -> MintConfigTxPrefixParams {
    let signer_set = SignerSet::new(vec![public_key(1), public_key(2)], 1).unwrap();
    MintConfigTxPrefixParams {
        token_id: 3,
        tombstone: None,
        nonce,
        configs: vec![(500, signer_set)],
        total_mint_limit: 900,
    }
}

#[test]
fn explicit_nonce_is_used_verbatim() {
    let n = vec![9u8; NONCE_LENGTH];
    assert_eq!(get_or_generate_nonce(Some(n.clone())), n);
}

#[test]
fn generated_nonces_differ_across_runs() {
    let a = get_or_generate_nonce(None);
    let b = get_or_generate_nonce(None);
    assert_eq!(a.len(), NONCE_LENGTH);
    assert_eq!(b.len(), NONCE_LENGTH);
    assert_ne!(a, b);
}

#[test]
fn explicit_nonce_reproduces_identical_prefix_bytes() {
    let n = vec![4u8; NONCE_LENGTH];
    let p1 = config_params(Some(n.clone())).try_into_mint_config_tx_prefix(77).unwrap();
    let p2 = config_params(Some(n)).try_into_mint_config_tx_prefix(77).unwrap();
    assert_eq!(encode_mint_config_tx_prefix(&p1), encode_mint_config_tx_prefix(&p2));
}

#[test]
fn omitted_nonce_gives_distinct_prefixes() {
    let p1 = config_params(None).try_into_mint_config_tx_prefix(77).unwrap();
    let p2 = config_params(None).try_into_mint_config_tx_prefix(77).unwrap();
    assert_ne!(encode_mint_config_tx_prefix(&p1), encode_mint_config_tx_prefix(&p2));
}

#[test]
fn config_prefix_carries_fields_and_shared_token_id() {
    let p = config_params(Some(vec![0; NONCE_LENGTH]))
        .try_into_mint_config_tx_prefix(123)
        .unwrap();
    assert_eq!(p.token_id, 3);
    assert_eq!(p.tombstone_block, 123);
    assert_eq!(p.total_mint_limit, 900);
    assert_eq!(p.configs.len(), 1);
    assert_eq!(p.configs[0].token_id, 3);
    assert_eq!(p.configs[0].mint_limit, 500);
    assert_eq!(p.configs[0].signer_set.threshold, 1);
}

#[test]
fn supplied_tombstone_wins_over_fallback() {
    let mut params = config_params(Some(vec![0; NONCE_LENGTH]));
    params.tombstone = Some(44);
    let p = params.try_into_mint_config_tx_prefix(123).unwrap();
    assert_eq!(p.tombstone_block, 44);
}

#[test]
fn fog_expiry_tightens_the_tombstone() {
    let params = MintTxPrefixParams {
        recipient: address(Some("fog://fog.example.com")),
        token_id: 2,
        amount: 10,
        tombstone: Some(100),
        nonce: Some(vec![1; NONCE_LENGTH]),
    };
    let fog = FogResolution { e_fog_hint: vec![5; 84], pubkey_expiry: 50 };
    let p = params.try_into_mint_tx_prefix(Some(fog), 900).unwrap();
    assert_eq!(p.tombstone_block, 50);
    assert_eq!(p.e_fog_hint, Some(vec![5; 84]));
}

#[test]
fn late_fog_expiry_leaves_the_tombstone() {
    let params = MintTxPrefixParams {
        recipient: address(Some("fog://fog.example.com")),
        token_id: 2,
        amount: 10,
        tombstone: Some(100),
        nonce: Some(vec![1; NONCE_LENGTH]),
    };
    let fog = FogResolution { e_fog_hint: vec![5; 84], pubkey_expiry: 150 };
    let p = params.try_into_mint_tx_prefix(Some(fog), 900).unwrap();
    assert_eq!(p.tombstone_block, 100);
}

#[test]
fn missing_fog_context_names_the_url() {
    let params = MintTxPrefixParams {
        recipient: address(Some("fog://fog.example.com")),
        token_id: 2,
        amount: 10,
        tombstone: None,
        nonce: None,
    };
    let err = params.try_into_mint_tx_prefix(None, 900).unwrap_err();
    assert_eq!(
        err,
        Error::MissingFogContext { fog_report_url: "fog://fog.example.com".to_string() }
    );
}

#[test]
fn no_fog_url_means_no_hint() {
    let params = MintTxPrefixParams {
        recipient: address(None),
        token_id: 2,
        amount: 10,
        tombstone: None,
        nonce: Some(vec![1; NONCE_LENGTH]),
    };
    let p = params.try_into_mint_tx_prefix(None, 900).unwrap();
    assert_eq!(p.tombstone_block, 900);
    assert_eq!(p.e_fog_hint, None);
    assert_eq!(p.view_public_key, vec![1; 32]);
    assert_eq!(p.spend_public_key, vec![2; 32]);
}

#[test]
fn decoded_public_address_is_accepted() {
    let decoded = DecodedPrintable::PublicAddressVariant(address(None));
    assert!(public_address_from_printable(decoded).is_ok());
    let other = DecodedPrintable::OtherVariant;
    assert_eq!(public_address_from_printable(other).unwrap_err(), Error::NotPublicAddress);
}

#[test]
fn local_signature_matches_direct_signing() {
    // The signature the library collects must be the RFC 8032 signature
    // of the SHA-256 digest of the prefix's canonical bytes.
    let nonce = vec![6u8; NONCE_LENGTH];
    let seed = [42u8; 32];
    let tx = MintConfigTxParams {
        signing_keys: vec![MintPrivateKey::new(seed.to_vec())],
        signatures: vec![],
        prefix_params: config_params(Some(nonce.clone())),
    }
    .try_into_mint_config_tx(77)
    .unwrap();
    let prefix = config_params(Some(nonce)).try_into_mint_config_tx_prefix(77).unwrap();
    let message = sha2::Sha256::digest(encode_mint_config_tx_prefix(&prefix));
    let expected = ed25519_dalek::SigningKey::from_bytes(&seed)
        .try_sign(&message)
        .unwrap()
        .to_bytes()
        .to_vec();
    assert_eq!(tx.signature.signatures.len(), 1);
    assert_eq!(tx.signature.signatures[0].bytes, expected);
}

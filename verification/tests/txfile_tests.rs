use mint_client::errors::Error;
use mint_client::keys::{Ed25519Public, MintPrivateKey};
use mint_client::prefix::{FogResolution, MintConfigTxPrefixParams, MintTxPrefixParams, NONCE_LENGTH};
use mint_client::address::PublicAddress;
use mint_client::signer_set::SignerSet;
use mint_client::tx::{MintConfigTxParams, MintTxParams};
use mint_client::txfile::{load_tx_file_from_path, tx_file_to_json, TxFile};

fn config_params(token_id: u64, nonce_fill: u8) -> MintConfigTxPrefixParams {
    let signer_set =
        SignerSet::new(vec![Ed25519Public::new(vec![1; 32]), Ed25519Public::new(vec![2; 32])], 2)
            .unwrap();
    MintConfigTxPrefixParams {
        token_id,
        tombstone: Some(321),
        nonce: Some(vec![nonce_fill; NONCE_LENGTH]),
        configs: vec![(1000, signer_set)],
        total_mint_limit: 5000,
    }
}

fn signed_config_tx(token_id: u64, seed: u8) -> mint_client::tx::MintConfigTx {
    MintConfigTxParams {
        signing_keys: vec![MintPrivateKey::new(vec![seed; 32])],
        signatures: vec![],
        prefix_params: config_params(token_id, 7),
    }
    .try_into_mint_config_tx(999)
    .unwrap()
}

fn signed_mint_tx(with_fog: bool) -> mint_client::tx::MintTx {
    let recipient = PublicAddress {
        view_public_key: vec![4; 32],
        spend_public_key: vec![5; 32],
        fog_report_url: if with_fog { Some("fog://f.example.com".to_string()) } else { None },
    };
    let fog = if with_fog {
        Some(FogResolution { e_fog_hint: vec![6; 84], pubkey_expiry: 40 })
    } else {
        None
    };
    MintTxParams {
        signing_keys: vec![MintPrivateKey::new(vec![9; 32])],
        signatures: vec![],
        prefix_params: MintTxPrefixParams {
            recipient,
            token_id: 8,
            amount: 12345,
            tombstone: Some(100),
            nonce: Some(vec![3; NONCE_LENGTH]),
        },
    }
    .try_into_mint_tx(fog, 999)
    .unwrap()
}

#[test]
fn config_tx_file_round_trips() {
    let tx = signed_config_tx(6, 42);
    let json = tx_file_to_json(&TxFile::MintConfigTx(tx));
    let loaded = load_tx_file_from_path(&json).unwrap();
    let rewritten = tx_file_to_json(&loaded);
    assert_eq!(json, rewritten);
    match loaded {
        TxFile::MintConfigTx(tx2) => {
            assert_eq!(tx2.prefix.token_id, 6);
            assert_eq!(tx2.prefix.tombstone_block, 321);
            assert_eq!(tx2.prefix.total_mint_limit, 5000);
            assert_eq!(tx2.prefix.configs.len(), 1);
            assert_eq!(tx2.prefix.configs[0].signer_set.threshold, 2);
            assert_eq!(tx2.signature.signatures.len(), 1);
        },
        TxFile::MintTx(_) => panic!("wrong variant"),
    }
}

#[test]
fn mint_tx_file_round_trips_with_fog_hint() {
    let tx = signed_mint_tx(true);
    let json = tx_file_to_json(&TxFile::MintTx(tx));
    let loaded = load_tx_file_from_path(&json).unwrap();
    assert_eq!(tx_file_to_json(&loaded), json);
    match loaded {
        TxFile::MintTx(tx2) => {
            assert_eq!(tx2.prefix.amount, 12345);
            assert_eq!(tx2.prefix.tombstone_block, 40);
            assert_eq!(tx2.prefix.e_fog_hint, Some(vec![6; 84]));
        },
        TxFile::MintConfigTx(_) => panic!("wrong variant"),
    }
}

#[test]
fn mint_tx_file_round_trips_without_fog_hint() {
    let tx = signed_mint_tx(false);
    let json = tx_file_to_json(&TxFile::MintTx(tx));
    let text = String::from_utf8(json.clone()).unwrap();
    assert!(text.contains("\"e_fog_hint\":null"));
    let loaded = load_tx_file_from_path(&json).unwrap();
    assert_eq!(tx_file_to_json(&loaded), json);
}

#[test]
fn tx_file_text_is_json_shaped() {
    let tx = signed_config_tx(6, 42);
    let text = String::from_utf8(tx_file_to_json(&TxFile::MintConfigTx(tx))).unwrap();
    assert!(text.starts_with("{\"mint_config_tx\":{\"prefix\":{\"token_id\":6,"));
    assert!(text.ends_with("]}}"));
    assert!(text.contains("\"tombstone_block\":321"));
    assert!(text.contains("\"total_mint_limit\":5000"));
}

#[test]
fn loader_is_strict_about_the_canonical_form() {
    let tx = signed_config_tx(6, 42);
    let json = tx_file_to_json(&TxFile::MintConfigTx(tx));
    // Whitespace breaks the canonical form.
    let mut padded = json.clone();
    padded.insert(1, b' ');
    assert_eq!(load_tx_file_from_path(&padded).unwrap_err(), Error::TxFileFormat);
    // Truncation breaks it.
    let truncated = &json[..json.len() - 1];
    assert_eq!(load_tx_file_from_path(truncated).unwrap_err(), Error::TxFileFormat);
    // Arbitrary text is rejected.
    assert_eq!(load_tx_file_from_path(b"{}").unwrap_err(), Error::TxFileFormat);
}

#[test]
fn merged_records_accumulate_signatures() {
    let tx1 = signed_config_tx(6, 11);
    let tx2 = signed_config_tx(6, 22);
    let first_sig = tx1.signature.signatures[0].bytes.clone();
    let second_sig = tx2.signature.signatures[0].bytes.clone();
    assert_ne!(first_sig, second_sig);
    let merged = tx1.merge(&tx2).unwrap();
    assert_eq!(merged.signature.signatures.len(), 2);
    let tx1_again = signed_config_tx(6, 11);
    let merged_other_way = tx2.merge(&tx1_again).unwrap();
    assert_eq!(
        tx_file_to_json(&TxFile::MintConfigTx(merged)),
        tx_file_to_json(&TxFile::MintConfigTx(merged_other_way))
    );
}

#[test]
fn merging_different_prefixes_is_refused() {
    let tx1 = signed_config_tx(6, 11);
    let tx2 = signed_config_tx(7, 22);
    assert_eq!(tx1.merge(&tx2).unwrap_err(), Error::PrefixMismatch);
}

#[test]
fn mint_tx_records_merge_too() {
    let a = signed_mint_tx(false);
    // A second record with a different signer over the same prefix.
    let b = MintTxParams {
        signing_keys: vec![MintPrivateKey::new(vec![8; 32])],
        signatures: vec![],
        prefix_params: MintTxPrefixParams {
            recipient: PublicAddress {
                view_public_key: vec![4; 32],
                spend_public_key: vec![5; 32],
                fog_report_url: None,
            },
            token_id: 8,
            amount: 12345,
            tombstone: Some(100),
            nonce: Some(vec![3; NONCE_LENGTH]),
        },
    }
    .try_into_mint_tx(None, 999)
    .unwrap();
    let merged = a.merge(&b).unwrap();
    assert_eq!(merged.signature.signatures.len(), 2);
}

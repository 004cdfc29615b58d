use mint_client::config_parse::{
    load_key_from_pem, load_or_parse_ed25519_signature, parse_mint_config_parts, split_on_colon,
};
use mint_client::errors::Error;
use mint_client::hexcode::{hex_decode, hex_encode};
use mint_client::keys::{ed25519_private_from_der, ed25519_public_from_der};
use mint_client::signer_set::SignerSet;
use mint_client::keys::Ed25519Public;

const PRIVATE_DER_HEADER: [u8; 16] = [
    0x30, 0x2e, 0x02, 0x01, 0x00, 0x30, 0x05, 0x06, 0x03, 0x2b, 0x65, 0x70, 0x04, 0x22, 0x04,
    0x20,
];

const PUBLIC_DER_HEADER: [u8; 12] = [
    0x30, 0x2a, 0x30, 0x05, 0x06, 0x03, 0x2b, 0x65, 0x70, 0x03, 0x21, 0x00,
];

fn private_der(seed: &[u8; 32]) -> Vec<u8> {
    let mut der = PRIVATE_DER_HEADER.to_vec();
    der.extend_from_slice(seed);
    der
}

fn pem_wrap(tag: &str, contents: &[u8]) -> Vec<u8> {
    let block = pem::Pem { tag: tag.to_string(), contents: contents.to_vec() };
    pem::encode(&block).into_bytes()
}

#[test]
fn hex_decodes_exact_values() {
    assert_eq!(hex_decode(b"00ff10"), Some(vec![0x00, 0xff, 0x10]));
    assert_eq!(hex_decode(b"DEADbeef"), Some(vec![0xde, 0xad, 0xbe, 0xef]));
    assert_eq!(hex_decode(b"abc"), None);
    assert_eq!(hex_decode(b"zz"), None);
    assert_eq!(hex_encode(&[0xde, 0xad]), b"dead".to_vec());
    assert_eq!(hex_decode(&hex_encode(&[1, 2, 250])), Some(vec![1, 2, 250]));
}

#[test]
fn split_keeps_all_parts() {
    let parts = split_on_colon(b"100:2:a.pem:b.pem");
    let views: Vec<&[u8]> = parts.iter().map(|p| p.as_slice()).collect();
    assert_eq!(views, vec![&b"100"[..], &b"2"[..], &b"a.pem"[..], &b"b.pem"[..]]);
    let empties = split_on_colon(b":x:");
    assert_eq!(empties.len(), 3);
    assert_eq!(empties[0], b"".to_vec());
    assert_eq!(empties[2], b"".to_vec());
}

#[test]
fn mint_config_text_parses() {
    let parts = parse_mint_config_parts(b"10000:2:signer1.pem:signer2.pem:signer3.pem").unwrap();
    assert_eq!(parts.mint_limit, 10000);
    assert_eq!(parts.threshold, 2);
    assert_eq!(
        parts.key_files,
        vec![b"signer1.pem".to_vec(), b"signer2.pem".to_vec(), b"signer3.pem".to_vec()]
    );
}

#[test]
fn mint_config_text_errors_are_classified() {
    assert_eq!(parse_mint_config_parts(b"10000:2").unwrap_err(), Error::MintConfigFormat);
    assert_eq!(parse_mint_config_parts(b"x:2:a.pem").unwrap_err(), Error::BadMintLimit);
    assert_eq!(parse_mint_config_parts(b"1:y:a.pem").unwrap_err(), Error::BadThreshold);
    assert_eq!(parse_mint_config_parts(b"1:5000000000:a.pem").unwrap_err(), Error::BadThreshold);
}

#[test]
fn signer_set_validity_is_exact() {
    let keys = || vec![Ed25519Public::new(vec![1; 32]), Ed25519Public::new(vec![2; 32])];
    assert!(SignerSet::new(keys(), 1).is_ok());
    assert!(SignerSet::new(keys(), 2).is_ok());
    assert_eq!(
        SignerSet::new(keys(), 0).unwrap_err(),
        Error::InvalidThreshold { threshold: 0, num_keys: 2 }
    );
    assert_eq!(
        SignerSet::new(keys(), 3).unwrap_err(),
        Error::InvalidThreshold { threshold: 3, num_keys: 2 }
    );
    assert_eq!(
        SignerSet::new(vec![], 1).unwrap_err(),
        Error::InvalidThreshold { threshold: 1, num_keys: 0 }
    );
}

#[test]
fn private_key_loads_from_pem() {
    let seed = [9u8; 32];
    let pem_bytes = pem_wrap("PRIVATE KEY", &private_der(&seed));
    let key = load_key_from_pem(&pem_bytes).unwrap();
    assert_eq!(key.bytes, seed.to_vec());
}

#[test]
fn pem_and_der_failures_are_distinguished() {
    assert_eq!(load_key_from_pem(&b"not pem at all".to_vec()).unwrap_err(), Error::PemParse);
    let wrong = pem_wrap("PRIVATE KEY", &[0u8; 48]);
    assert_eq!(load_key_from_pem(&wrong).unwrap_err(), Error::DerParse);
}

#[test]
fn der_parsers_check_the_fixed_headers() {
    let seed = [7u8; 32];
    let key = ed25519_private_from_der(&private_der(&seed)).unwrap();
    assert_eq!(key.bytes, seed.to_vec());
    let mut pub_der = PUBLIC_DER_HEADER.to_vec();
    pub_der.extend_from_slice(&[3u8; 32]);
    let public = ed25519_public_from_der(&pub_der).unwrap();
    assert_eq!(public.bytes, vec![3u8; 32]);
    assert_eq!(ed25519_private_from_der(&[0u8; 48]).unwrap_err(), Error::DerParse);
    assert_eq!(ed25519_public_from_der(&[0u8; 10]).unwrap_err(), Error::DerParse);
}

#[test]
fn signature_argument_accepts_hex() {
    let hex: String = "ab".repeat(64);
    let sig = load_or_parse_ed25519_signature(None, hex.as_bytes()).unwrap();
    assert_eq!(sig.bytes, vec![0xab; 64]);
}

#[test]
fn signature_argument_rejects_bad_inputs() {
    let bad_hex = "zz".repeat(64);
    assert_eq!(
        load_or_parse_ed25519_signature(None, bad_hex.as_bytes()).unwrap_err(),
        Error::HexDecode
    );
    assert_eq!(
        load_or_parse_ed25519_signature(None, b"too-short").unwrap_err(),
        Error::SignatureFormat
    );
}

#[test]
fn signature_argument_accepts_a_pem_file() {
    let raw = [0x5au8; 64];
    let pem_bytes = pem_wrap("SIGNATURE", &raw);
    let sig = load_or_parse_ed25519_signature(Some(pem_bytes), b"sig.pem").unwrap();
    assert_eq!(sig.bytes, raw.to_vec());
    let short = pem_wrap("SIGNATURE", &[1u8; 10]);
    assert_eq!(
        load_or_parse_ed25519_signature(Some(short), b"sig.pem").unwrap_err(),
        Error::BadLength
    );
}

use mint_client::address::PublicAddress;
use mint_client::errors::NewMemoError;
use mint_client::memo::{
    encode_defrag_memo, parse_defrag_memo, Amount, DefragmentationMemoBuilder, MemoContext,
    MOB_MINIMUM_FEE, MOB_TOKEN_ID,
};

fn dest() -> PublicAddress {
    PublicAddress {
        view_public_key: vec![1; 32],
        spend_public_key: vec![2; 32],
        fog_report_url: None,
    }
}

fn context() -> MemoContext {
    MemoContext { tx_public_key: vec![3; 32] }
}

fn amount(value: u64, token_id: u64) -> Amount {
    Amount { value, token_id }
}

#[test]
fn default_builder_uses_minimum_fee() {
    let b = DefragmentationMemoBuilder::default();
    assert_eq!(b.fee, amount(MOB_MINIMUM_FEE, MOB_TOKEN_ID));
    assert_eq!(b.total_outlay, MOB_MINIMUM_FEE);
    assert_eq!(b.defrag_id, None);
    assert!(!b.wrote_main_memo);
    assert!(!b.wrote_decoy_memo);
}

#[test]
fn memo_encoding_layout_is_exact() {
    let payload = encode_defrag_memo(1, 2, 3);
    assert_eq!(payload.bytes.len(), 66);
    assert_eq!(payload.bytes[0], 0);
    assert_eq!(payload.bytes[1], 3);
    // Big-endian words: the low byte of each field sits at the end.
    assert_eq!(&payload.bytes[2..10], &[0, 0, 0, 0, 0, 0, 0, 1]);
    assert_eq!(&payload.bytes[10..18], &[0, 0, 0, 0, 0, 0, 0, 2]);
    assert_eq!(&payload.bytes[18..26], &[0, 0, 0, 0, 0, 0, 0, 3]);
    assert!(payload.bytes[26..].iter().all(|b| *b == 0));
    assert_eq!(parse_defrag_memo(&payload), Some((1, 2, 3)));
}

#[test]
fn memo_parse_rejects_a_wrong_tag() {
    let mut payload = encode_defrag_memo(1, 2, 3);
    payload.bytes[1] = 4;
    assert_eq!(parse_defrag_memo(&payload), None);
}

#[test]
fn main_memo_carries_fee_outlay_and_id() {
    let mut b = DefragmentationMemoBuilder::default();
    b.set_fee(amount(700, 0)).unwrap();
    b.set_total_outlay(9000);
    b.set_defrag_id(5);
    let payload = b.make_memo_for_output(amount(8300, 0), &dest(), &context()).unwrap();
    assert_eq!(parse_defrag_memo(&payload), Some((700, 9000, 5)));
    assert!(b.wrote_main_memo);
}

#[test]
fn change_memo_zeroes_fee_and_outlay_but_keeps_id() {
    let mut b = DefragmentationMemoBuilder::default();
    b.set_fee(amount(700, 0)).unwrap();
    b.set_total_outlay(9000);
    b.set_defrag_id(5);
    b.make_memo_for_output(amount(8300, 0), &dest(), &context()).unwrap();
    let change = b.make_memo_for_change_output(amount(0, 1), &dest(), &context()).unwrap();
    assert_eq!(parse_defrag_memo(&change), Some((0, 0, 5)));
    let second = b.make_memo_for_change_output(amount(0, 1), &dest(), &context());
    assert_eq!(second.unwrap_err(), NewMemoError::MultipleChangeOutputs);
}

#[test]
fn unset_defrag_id_defaults_to_zero() {
    let mut b = DefragmentationMemoBuilder::default();
    b.set_defrag_id(9);
    b.clear_defrag_id();
    let payload = b.make_memo_for_output(amount(1, 0), &dest(), &context()).unwrap();
    assert_eq!(parse_defrag_memo(&payload), Some((MOB_MINIMUM_FEE, MOB_MINIMUM_FEE, 0)));
}

#[test]
fn change_before_main_always_fails() {
    let mut b = DefragmentationMemoBuilder::default();
    let r = b.make_memo_for_change_output(amount(0, 1), &dest(), &context());
    assert_eq!(r.unwrap_err(), NewMemoError::ChangeBeforeMainOutput);
    assert!(!b.wrote_decoy_memo);
}

#[test]
fn second_main_memo_always_fails() {
    let mut b = DefragmentationMemoBuilder::default();
    b.make_memo_for_output(amount(1, 0), &dest(), &context()).unwrap();
    let r = b.make_memo_for_output(amount(1, 0), &dest(), &context());
    assert_eq!(r.unwrap_err(), NewMemoError::MultipleDefragOutputs);
}

#[test]
fn set_fee_after_main_memo_always_fails() {
    let mut b = DefragmentationMemoBuilder::default();
    b.make_memo_for_output(amount(1, 0), &dest(), &context()).unwrap();
    let r = b.set_fee(amount(5, 0));
    assert_eq!(r.unwrap_err(), NewMemoError::FeeAfterChange);
}

#[test]
fn main_memo_after_change_memo_fails() {
    // This state is unreachable through the normal call order; build it
    // directly to exercise the guard.
    let mut b = DefragmentationMemoBuilder {
        fee: amount(MOB_MINIMUM_FEE, MOB_TOKEN_ID),
        total_outlay: MOB_MINIMUM_FEE,
        defrag_id: None,
        wrote_main_memo: false,
        wrote_decoy_memo: true,
    };
    let r = b.make_memo_for_output(amount(1, 0), &dest(), &context());
    assert_eq!(r.unwrap_err(), NewMemoError::OutputsAfterChange);
}

#[test]
fn change_with_fee_token_is_rejected() {
    let mut b = DefragmentationMemoBuilder::default();
    b.set_fee(amount(700, 8)).unwrap();
    b.make_memo_for_output(amount(1, 8), &dest(), &context()).unwrap();
    let r = b.make_memo_for_change_output(amount(0, 8), &dest(), &context());
    assert_eq!(r.unwrap_err(), NewMemoError::MixedTokenIds);
    assert!(!b.wrote_decoy_memo);
    let ok = b.make_memo_for_change_output(amount(0, 9), &dest(), &context());
    assert!(ok.is_ok());
}

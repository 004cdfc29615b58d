//! The fixed tokens of the canonical transaction-file JSON form,
//! each as a specification byte string and its runtime value.

use vstd::prelude::*;

verus! {

/// The token `{"mint_config_tx":{"prefix":{"token_id":`.
pub open spec fn lit_config_file_open_spec() -> Seq<u8> {
    seq![123u8, 34u8, 109u8, 105u8, 110u8, 116u8, 95u8, 99u8, 111u8, 110u8, 102u8, 105u8, 103u8, 95u8, 116u8, 120u8, 34u8, 58u8, 123u8, 34u8, 112u8, 114u8, 101u8, 102u8, 105u8, 120u8, 34u8, 58u8, 123u8, 34u8, 116u8, 111u8, 107u8, 101u8, 110u8, 95u8, 105u8, 100u8, 34u8, 58u8]
}

/// Runtime bytes of the same token.
pub fn lit_config_file_open() -> (r: Vec<u8>)
    ensures
        r@ == lit_config_file_open_spec(),
{
    let v: Vec<u8> = vec![123u8, 34u8, 109u8, 105u8, 110u8, 116u8, 95u8, 99u8, 111u8, 110u8, 102u8, 105u8, 103u8, 95u8, 116u8, 120u8, 34u8, 58u8, 123u8, 34u8, 112u8, 114u8, 101u8, 102u8, 105u8, 120u8, 34u8, 58u8, 123u8, 34u8, 116u8, 111u8, 107u8, 101u8, 110u8, 95u8, 105u8, 100u8, 34u8, 58u8];
    proof {
        assert(v@ =~= lit_config_file_open_spec());
    }
    v
}

/// The token `{"mint_tx":{"prefix":{"token_id":`.
pub open spec fn lit_mint_file_open_spec() -> Seq<u8> {
    seq![123u8, 34u8, 109u8, 105u8, 110u8, 116u8, 95u8, 116u8, 120u8, 34u8, 58u8, 123u8, 34u8, 112u8, 114u8, 101u8, 102u8, 105u8, 120u8, 34u8, 58u8, 123u8, 34u8, 116u8, 111u8, 107u8, 101u8, 110u8, 95u8, 105u8, 100u8, 34u8, 58u8]
}

/// Runtime bytes of the same token.
pub fn lit_mint_file_open() -> (r: Vec<u8>)
    ensures
        r@ == lit_mint_file_open_spec(),
{
    let v: Vec<u8> = vec![123u8, 34u8, 109u8, 105u8, 110u8, 116u8, 95u8, 116u8, 120u8, 34u8, 58u8, 123u8, 34u8, 112u8, 114u8, 101u8, 102u8, 105u8, 120u8, 34u8, 58u8, 123u8, 34u8, 116u8, 111u8, 107u8, 101u8, 110u8, 95u8, 105u8, 100u8, 34u8, 58u8];
    proof {
        assert(v@ =~= lit_mint_file_open_spec());
    }
    v
}

/// The token `,"configs":[`.
pub open spec fn lit_configs_spec() -> Seq<u8> {
    seq![44u8, 34u8, 99u8, 111u8, 110u8, 102u8, 105u8, 103u8, 115u8, 34u8, 58u8, 91u8]
}

/// Runtime bytes of the same token.
pub fn lit_configs() -> (r: Vec<u8>)
    ensures
        r@ == lit_configs_spec(),
{
    let v: Vec<u8> = vec![44u8, 34u8, 99u8, 111u8, 110u8, 102u8, 105u8, 103u8, 115u8, 34u8, 58u8, 91u8];
    proof {
        assert(v@ =~= lit_configs_spec());
    }
    v
}

/// The token `{"token_id":`.
pub open spec fn lit_entry_open_spec() -> Seq<u8> {
    seq![123u8, 34u8, 116u8, 111u8, 107u8, 101u8, 110u8, 95u8, 105u8, 100u8, 34u8, 58u8]
}

/// Runtime bytes of the same token.
pub fn lit_entry_open() -> (r: Vec<u8>)
    ensures
        r@ == lit_entry_open_spec(),
{
    let v: Vec<u8> = vec![123u8, 34u8, 116u8, 111u8, 107u8, 101u8, 110u8, 95u8, 105u8, 100u8, 34u8, 58u8];
    proof {
        assert(v@ =~= lit_entry_open_spec());
    }
    v
}

/// The token `,"mint_limit":`.
pub open spec fn lit_mint_limit_spec() -> Seq<u8> {
    seq![44u8, 34u8, 109u8, 105u8, 110u8, 116u8, 95u8, 108u8, 105u8, 109u8, 105u8, 116u8, 34u8, 58u8]
}

/// Runtime bytes of the same token.
pub fn lit_mint_limit() -> (r: Vec<u8>)
    ensures
        r@ == lit_mint_limit_spec(),
{
    let v: Vec<u8> = vec![44u8, 34u8, 109u8, 105u8, 110u8, 116u8, 95u8, 108u8, 105u8, 109u8, 105u8, 116u8, 34u8, 58u8];
    proof {
        assert(v@ =~= lit_mint_limit_spec());
    }
    v
}

/// The token `,"signers":[`.
pub open spec fn lit_signers_spec() -> Seq<u8> {
    seq![44u8, 34u8, 115u8, 105u8, 103u8, 110u8, 101u8, 114u8, 115u8, 34u8, 58u8, 91u8]
}

/// Runtime bytes of the same token.
pub fn lit_signers() -> (r: Vec<u8>)
    ensures
        r@ == lit_signers_spec(),
{
    let v: Vec<u8> = vec![44u8, 34u8, 115u8, 105u8, 103u8, 110u8, 101u8, 114u8, 115u8, 34u8, 58u8, 91u8];
    proof {
        assert(v@ =~= lit_signers_spec());
    }
    v
}

/// The token `,"threshold":`.
pub open spec fn lit_threshold_spec() -> Seq<u8> {
    seq![44u8, 34u8, 116u8, 104u8, 114u8, 101u8, 115u8, 104u8, 111u8, 108u8, 100u8, 34u8, 58u8]
}

/// Runtime bytes of the same token.
pub fn lit_threshold() -> (r: Vec<u8>)
    ensures
        r@ == lit_threshold_spec(),
{
    let v: Vec<u8> = vec![44u8, 34u8, 116u8, 104u8, 114u8, 101u8, 115u8, 104u8, 111u8, 108u8, 100u8, 34u8, 58u8];
    proof {
        assert(v@ =~= lit_threshold_spec());
    }
    v
}

/// The token `],"nonce":"`.
pub open spec fn lit_nonce_after_list_spec() -> Seq<u8> {
    seq![93u8, 44u8, 34u8, 110u8, 111u8, 110u8, 99u8, 101u8, 34u8, 58u8, 34u8]
}

/// Runtime bytes of the same token.
pub fn lit_nonce_after_list() -> (r: Vec<u8>)
    ensures
        r@ == lit_nonce_after_list_spec(),
{
    let v: Vec<u8> = vec![93u8, 44u8, 34u8, 110u8, 111u8, 110u8, 99u8, 101u8, 34u8, 58u8, 34u8];
    proof {
        assert(v@ =~= lit_nonce_after_list_spec());
    }
    v
}

/// The token `","tombstone_block":`.
pub open spec fn lit_tombstone_spec() -> Seq<u8> {
    seq![34u8, 44u8, 34u8, 116u8, 111u8, 109u8, 98u8, 115u8, 116u8, 111u8, 110u8, 101u8, 95u8, 98u8, 108u8, 111u8, 99u8, 107u8, 34u8, 58u8]
}

/// Runtime bytes of the same token.
pub fn lit_tombstone() -> (r: Vec<u8>)
    ensures
        r@ == lit_tombstone_spec(),
{
    let v: Vec<u8> = vec![34u8, 44u8, 34u8, 116u8, 111u8, 109u8, 98u8, 115u8, 116u8, 111u8, 110u8, 101u8, 95u8, 98u8, 108u8, 111u8, 99u8, 107u8, 34u8, 58u8];
    proof {
        assert(v@ =~= lit_tombstone_spec());
    }
    v
}

/// The token `,"total_mint_limit":`.
pub open spec fn lit_total_mint_limit_spec() -> Seq<u8> {
    seq![44u8, 34u8, 116u8, 111u8, 116u8, 97u8, 108u8, 95u8, 109u8, 105u8, 110u8, 116u8, 95u8, 108u8, 105u8, 109u8, 105u8, 116u8, 34u8, 58u8]
}

/// Runtime bytes of the same token.
pub fn lit_total_mint_limit() -> (r: Vec<u8>)
    ensures
        r@ == lit_total_mint_limit_spec(),
{
    let v: Vec<u8> = vec![44u8, 34u8, 116u8, 111u8, 116u8, 97u8, 108u8, 95u8, 109u8, 105u8, 110u8, 116u8, 95u8, 108u8, 105u8, 109u8, 105u8, 116u8, 34u8, 58u8];
    proof {
        assert(v@ =~= lit_total_mint_limit_spec());
    }
    v
}

/// The token `},"signature":[`.
pub open spec fn lit_signature_spec() -> Seq<u8> {
    seq![125u8, 44u8, 34u8, 115u8, 105u8, 103u8, 110u8, 97u8, 116u8, 117u8, 114u8, 101u8, 34u8, 58u8, 91u8]
}

/// Runtime bytes of the same token.
pub fn lit_signature() -> (r: Vec<u8>)
    ensures
        r@ == lit_signature_spec(),
{
    let v: Vec<u8> = vec![125u8, 44u8, 34u8, 115u8, 105u8, 103u8, 110u8, 97u8, 116u8, 117u8, 114u8, 101u8, 34u8, 58u8, 91u8];
    proof {
        assert(v@ =~= lit_signature_spec());
    }
    v
}

/// The token `]}}`.
pub open spec fn lit_file_close_spec() -> Seq<u8> {
    seq![93u8, 125u8, 125u8]
}

/// Runtime bytes of the same token.
pub fn lit_file_close() -> (r: Vec<u8>)
    ensures
        r@ == lit_file_close_spec(),
{
    let v: Vec<u8> = vec![93u8, 125u8, 125u8];
    proof {
        assert(v@ =~= lit_file_close_spec());
    }
    v
}

/// The token `,"amount":`.
pub open spec fn lit_amount_spec() -> Seq<u8> {
    seq![44u8, 34u8, 97u8, 109u8, 111u8, 117u8, 110u8, 116u8, 34u8, 58u8]
}

/// Runtime bytes of the same token.
pub fn lit_amount() -> (r: Vec<u8>)
    ensures
        r@ == lit_amount_spec(),
{
    let v: Vec<u8> = vec![44u8, 34u8, 97u8, 109u8, 111u8, 117u8, 110u8, 116u8, 34u8, 58u8];
    proof {
        assert(v@ =~= lit_amount_spec());
    }
    v
}

/// The token `,"view_public_key":"`.
pub open spec fn lit_view_key_spec() -> Seq<u8> {
    seq![44u8, 34u8, 118u8, 105u8, 101u8, 119u8, 95u8, 112u8, 117u8, 98u8, 108u8, 105u8, 99u8, 95u8, 107u8, 101u8, 121u8, 34u8, 58u8, 34u8]
}

/// Runtime bytes of the same token.
pub fn lit_view_key() -> (r: Vec<u8>)
    ensures
        r@ == lit_view_key_spec(),
{
    let v: Vec<u8> = vec![44u8, 34u8, 118u8, 105u8, 101u8, 119u8, 95u8, 112u8, 117u8, 98u8, 108u8, 105u8, 99u8, 95u8, 107u8, 101u8, 121u8, 34u8, 58u8, 34u8];
    proof {
        assert(v@ =~= lit_view_key_spec());
    }
    v
}

/// The token `","spend_public_key":"`.
pub open spec fn lit_spend_key_spec() -> Seq<u8> {
    seq![34u8, 44u8, 34u8, 115u8, 112u8, 101u8, 110u8, 100u8, 95u8, 112u8, 117u8, 98u8, 108u8, 105u8, 99u8, 95u8, 107u8, 101u8, 121u8, 34u8, 58u8, 34u8]
}

/// Runtime bytes of the same token.
pub fn lit_spend_key() -> (r: Vec<u8>)
    ensures
        r@ == lit_spend_key_spec(),
{
    let v: Vec<u8> = vec![34u8, 44u8, 34u8, 115u8, 112u8, 101u8, 110u8, 100u8, 95u8, 112u8, 117u8, 98u8, 108u8, 105u8, 99u8, 95u8, 107u8, 101u8, 121u8, 34u8, 58u8, 34u8];
    proof {
        assert(v@ =~= lit_spend_key_spec());
    }
    v
}

/// The token `","nonce":"`.
pub open spec fn lit_nonce_after_str_spec() -> Seq<u8> {
    seq![34u8, 44u8, 34u8, 110u8, 111u8, 110u8, 99u8, 101u8, 34u8, 58u8, 34u8]
}

/// Runtime bytes of the same token.
pub fn lit_nonce_after_str() -> (r: Vec<u8>)
    ensures
        r@ == lit_nonce_after_str_spec(),
{
    let v: Vec<u8> = vec![34u8, 44u8, 34u8, 110u8, 111u8, 110u8, 99u8, 101u8, 34u8, 58u8, 34u8];
    proof {
        assert(v@ =~= lit_nonce_after_str_spec());
    }
    v
}

/// The token `,"e_fog_hint":`.
pub open spec fn lit_fog_hint_spec() -> Seq<u8> {
    seq![44u8, 34u8, 101u8, 95u8, 102u8, 111u8, 103u8, 95u8, 104u8, 105u8, 110u8, 116u8, 34u8, 58u8]
}

/// Runtime bytes of the same token.
pub fn lit_fog_hint() -> (r: Vec<u8>)
    ensures
        r@ == lit_fog_hint_spec(),
{
    let v: Vec<u8> = vec![44u8, 34u8, 101u8, 95u8, 102u8, 111u8, 103u8, 95u8, 104u8, 105u8, 110u8, 116u8, 34u8, 58u8];
    proof {
        assert(v@ =~= lit_fog_hint_spec());
    }
    v
}

/// The token `null`.
pub open spec fn lit_null_spec() -> Seq<u8> {
    seq![110u8, 117u8, 108u8, 108u8]
}

/// Runtime bytes of the same token.
pub fn lit_null() -> (r: Vec<u8>)
    ensures
        r@ == lit_null_spec(),
{
    let v: Vec<u8> = vec![110u8, 117u8, 108u8, 108u8];
    proof {
        assert(v@ =~= lit_null_spec());
    }
    v
}

} // verus!

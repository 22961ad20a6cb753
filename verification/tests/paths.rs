use omnipay_core::api::{fill_template_ordered, receipts_query_suffix, ApiHandler};
use omnipay_core::errors::OmniPayError;
use omnipay_core::types::{ChainName, OcPayReceiptStatus, PayHistoryFilterParams};

fn params(values: &[&str]) -> Vec<String> {
    values.iter().map(|v| v.to_string()).collect()
}

#[test]
fn resolves_placeholders_in_order() {
    let r = ApiHandler::GetUserWalletAddress
        .fill_path_ordered(&params(&["abc", "Sepolia"]))
        .unwrap();
    assert_eq!(r, "/wallet/address/abc/Sepolia");
}

#[test]
fn too_few_parameters_is_rejected() {
    let r = ApiHandler::GetUserWalletAddress.fill_path_ordered(&params(&["abc"]));
    assert_eq!(r.unwrap_err(), OmniPayError::TooFewParameters);
}

#[test]
fn too_many_parameters_is_rejected() {
    let r = ApiHandler::GetUserWalletAddress.fill_path_ordered(&params(&["abc", "Sepolia", "x"]));
    assert_eq!(r.unwrap_err(), OmniPayError::TooManyParameters);
}

#[test]
fn templates_without_placeholders_take_no_parameters() {
    assert_eq!(ApiHandler::Healthz.fill_path_ordered(&params(&[])).unwrap(), "/healthz");
    assert_eq!(
        ApiHandler::Healthz.fill_path_ordered(&params(&["x"])).unwrap_err(),
        OmniPayError::TooManyParameters
    );
}

#[test]
fn unclosed_placeholder_is_rejected() {
    let r = fill_template_ordered("/wallet/{user_id/rest", &params(&["abc"]));
    assert_eq!(r.unwrap_err(), OmniPayError::UnclosedPlaceholder);
    // even with no parameters at all, the defect is still structural
    let r2 = fill_template_ordered("/x/{", &params(&[]));
    assert_eq!(r2.unwrap_err(), OmniPayError::UnclosedPlaceholder);
}

#[test]
fn placeholder_names_are_documentation_only() {
    let r = fill_template_ordered("/a/{whatever}/{__}/tail", &params(&["1", "2"])).unwrap();
    assert_eq!(r, "/a/1/2/tail");
    // empty parameter values substitute verbatim
    let r2 = fill_template_ordered("/a/{x}b", &params(&[""])).unwrap();
    assert_eq!(r2, "/a/b");
}

#[test]
fn text_outside_placeholders_is_copied_verbatim() {
    // a stray `}` before the first `{` is ordinary text
    let r = fill_template_ordered("/a}b/{x}", &params(&["1"])).unwrap();
    assert_eq!(r, "/a}b/1");
    // the whole `{...}` span is replaced, an inner `{` included
    let r2 = fill_template_ordered("/{{x}/tail", &params(&["1"])).unwrap();
    assert_eq!(r2, "/1/tail");
}

#[test]
fn resolving_is_idempotent() {
    let ps = params(&["u-1", "Polygon", "USDC"]);
    let first = ApiHandler::GetOcChainCoinBalance.fill_path_ordered(&ps).unwrap();
    let second = ApiHandler::GetOcChainCoinBalance.fill_path_ordered(&ps).unwrap();
    assert_eq!(first, second);
    assert_eq!(first, "/wallet/onchain/balance/u-1/Polygon/USDC");
}

#[test]
fn every_operation_has_its_template() {
    assert_eq!(ApiHandler::HealthCheck.path(), "/health");
    assert_eq!(ApiHandler::SetUserProfile.path(), "/profile/{user_id}");
    assert_eq!(ApiHandler::GetUserProfile.path(), "/profile/{user_id}");
    assert_eq!(
        ApiHandler::FetchPreOcpBalanceAndEstFees.path(),
        "/payment/onchain/balance_est_fees/{user_id}/{chain}/{coin}"
    );
    assert_eq!(ApiHandler::RequestFaucet.path(), "/faucet/{user_id}/{coin}/{chain}");
    assert_eq!(ApiHandler::PayOnchain.path(), "/payment/onchain/{user_id}/{is_fee_incl}");
    assert_eq!(
        ApiHandler::FliqNotifyPayer.path(),
        "/payment/onchain/fliq/notify/payer/{pid}/{chain}/{coin}/{to_address}/{amount}"
    );
    assert_eq!(ApiHandler::GetOcpReceipt.path(), "/payment/onchain/receipt/{receipt_id}");
    assert_eq!(
        ApiHandler::GetOcpReceipts.path(),
        "/payment/onchain/receipts/{user_id}/{sort_by_latest}/{from_start}"
    );
    assert_eq!(
        ApiHandler::GetWalletBalancesByCoin.path(),
        "/wallet/balances/by_coin/{user_id}/{coin}"
    );
}

#[test]
fn receipt_query_is_empty_without_filter() {
    assert_eq!(receipts_query_suffix(&None), "");
}

#[test]
fn receipt_query_renders_set_filters_in_order() {
    let filter = PayHistoryFilterParams {
        chain: Some(ChainName::Sepolia),
        status: Some(OcPayReceiptStatus::Completed),
        limit: Some(25),
        next_or_previous: Some(true),
    };
    assert_eq!(
        receipts_query_suffix(&Some(filter)),
        "?chain=Sepolia&status=Completed&limit=25&next_or_previous=true&"
    );
}

#[test]
fn receipt_query_skips_unset_filters() {
    let filter = PayHistoryFilterParams {
        chain: None,
        status: None,
        limit: Some(-3),
        next_or_previous: Some(false),
    };
    assert_eq!(receipts_query_suffix(&Some(filter)), "?limit=-3&next_or_previous=false&");
    let empty = PayHistoryFilterParams {
        chain: None,
        status: None,
        limit: None,
        next_or_previous: None,
    };
    assert_eq!(receipts_query_suffix(&Some(empty)), "?");
}

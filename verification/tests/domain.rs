use omnipay_core::scaled::{i64_to_string, u64_to_string};
use omnipay_core::types::{
    ApiPlan, ChainName, ChainProtocol, Coin, Currency, Memo, Mode, PaidPlanDuration, StableCoin,
    UserProfile,
};

#[test]
fn coin_precisions() {
    assert_eq!(StableCoin::USDT.decimals(), 6);
    assert_eq!(StableCoin::USDC.decimals(), 6);
    assert_eq!(StableCoin::DAI.decimals(), 18);
}

#[test]
fn enumerations_list_every_member() {
    assert_eq!(StableCoin::all(), vec![StableCoin::USDT, StableCoin::USDC, StableCoin::DAI]);
    assert_eq!(Currency::all(), vec![Currency::USD, Currency::INR, Currency::EUR]);
    assert_eq!(ChainProtocol::all(), vec![ChainProtocol::Evm]);
}

#[test]
fn names_parse_ignoring_case() {
    assert_eq!(StableCoin::from_strr("usdt"), Ok(StableCoin::USDT));
    assert_eq!(StableCoin::from_strr("Usdc"), Ok(StableCoin::USDC));
    assert_eq!(StableCoin::from_strr("DAI"), Ok(StableCoin::DAI));
    assert_eq!(StableCoin::from_strr("doge"), Err("Invalid stablecoin: doge".to_string()));
    assert!(StableCoin::from_strr("").is_err());

    assert_eq!(ChainName::from_strr("sepolia"), Some(ChainName::Sepolia));
    assert_eq!(ChainName::from_strr("ETHEREUM"), Some(ChainName::Ethereum));
    assert_eq!(ChainName::from_strr("polygon"), Some(ChainName::Polygon));
    assert_eq!(ChainName::from_strr("anvil"), Some(ChainName::Anvil));
    assert_eq!(ChainName::from_strr("mainnet"), None);

    assert_eq!(Mode::from_strr("TEST"), Some(Mode::Test));
    assert_eq!(Mode::from_strr("dev"), Some(Mode::Dev));
    assert_eq!(Mode::from_strr("Prod"), Some(Mode::Prod));
    assert_eq!(Mode::from_strr("staging"), None);
}

#[test]
fn display_names_are_fixed() {
    assert_eq!(StableCoin::USDT.as_str(), "USDT");
    assert_eq!(ChainName::Sepolia.as_str(), "Sepolia");
    assert_eq!(ChainProtocol::Evm.as_str(), "Evm");
    assert_eq!(Currency::EUR.as_str(), "EUR");
    assert_eq!(Coin::MATIC.as_str(), "MATIC");
    assert_eq!(ApiPlan::Enterprise.as_str(), "Enterprise");
    assert_eq!(PaidPlanDuration::HalfYear.as_str(), "HalfYear");
}

#[test]
fn mode_test_detection() {
    assert!(Mode::Test.is_test());
    assert!(!Mode::Dev.is_test());
    assert!(!Mode::Prod.is_test());
}

#[test]
fn coins_convert_both_ways() {
    assert_eq!(Coin::from_stable(StableCoin::USDT), Coin::USDT);
    assert_eq!(Coin::from_stable(StableCoin::DAI), Coin::DAI);
    assert_eq!(StableCoin::from_coin(Coin::USDC), Some(StableCoin::USDC));
    assert_eq!(StableCoin::from_coin(Coin::ETH), None);
    assert_eq!(StableCoin::from_coin(Coin::MATIC), None);
}

#[test]
fn fresh_profile_prefers_usd() {
    let p = UserProfile::default();
    assert_eq!(p.name, None);
    assert_eq!(p.nickname, None);
    assert_eq!(p.email, None);
    assert_eq!(p.preferred_fiat_currency, Some(Currency::USD));
}

#[test]
fn memo_renders_its_wire_form() {
    assert_eq!(Memo::General.to_str(), "General");
    assert_eq!(Memo::FliqPay.to_str(), "FliqPay");
    assert_eq!(
        Memo::SubscribeApi(ApiPlan::Growth, PaidPlanDuration::Year).to_str(),
        "SubscribeApi:Growth:Year"
    );
}

#[test]
fn memo_parses_its_wire_form() {
    assert_eq!(Memo::from_strr("General"), Some(Memo::General));
    assert_eq!(Memo::from_strr("FliqPay"), Some(Memo::FliqPay));
    assert_eq!(
        Memo::from_strr("SubscribeApi:Growth:Year"),
        Some(Memo::SubscribeApi(ApiPlan::Growth, PaidPlanDuration::Year))
    );
    assert_eq!(
        Memo::from_strr("SubscribeApi:free:month"),
        Some(Memo::SubscribeApi(ApiPlan::Free, PaidPlanDuration::Month))
    );
    assert_eq!(Memo::from_strr("general"), None);
    assert_eq!(Memo::from_strr("SubscribeApi:Growth"), None);
    assert_eq!(Memo::from_strr("SubscribeApi:Growth:Year:extra"), None);
    assert_eq!(Memo::from_strr("SubscribeApi:Gold:Year"), None);
    assert_eq!(Memo::from_strr(""), None);
}

#[test]
fn memo_round_trips_through_its_wire_form() {
    let memos = vec![
        Memo::General,
        Memo::FliqPay,
        Memo::SubscribeApi(ApiPlan::Scale, PaidPlanDuration::Quarter),
    ];
    for m in memos {
        assert_eq!(Memo::from_strr(&m.to_str()), Some(m));
    }
}

#[test]
fn defaults_of_the_closed_enumerations() {
    assert_eq!(ChainName::default(), ChainName::Ethereum);
    assert_eq!(StableCoin::default(), StableCoin::USDT);
    assert_eq!(Currency::default(), Currency::USD);
    assert_eq!(Memo::default(), Memo::General);
    assert_eq!(ApiPlan::default(), ApiPlan::Free);
    assert_eq!(PaidPlanDuration::default(), PaidPlanDuration::Month);
}

#[test]
fn integers_render_in_decimal() {
    assert_eq!(u64_to_string(0), "0");
    assert_eq!(u64_to_string(7), "7");
    assert_eq!(u64_to_string(1234567890123456789), "1234567890123456789");
    assert_eq!(i64_to_string(-42), "-42");
    assert_eq!(i64_to_string(42), "42");
    assert_eq!(i64_to_string(0), "0");
    assert_eq!(i64_to_string(i64::MIN), "-9223372036854775808");
    assert_eq!(i64_to_string(i64::MAX), "9223372036854775807");
}

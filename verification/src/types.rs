//! Closed enumerations and plain data carried between the caller, the
//! validator and the transport layer: running modes, chain and coin
//! identities, currencies, user profiles, payment payloads and receipts.
use vstd::prelude::*;
use vstd::string::{StrSliceExecFns, StringExecFns};
use crate::find::{eq_ignore_ascii_case, find_char_from, spec_find, str_eq, str_eq_ignore_case};

verus! {

/// Running mode of the surrounding application.
#[derive(Debug, Clone, Copy, PartialEq, Eq, Structural)]
pub enum Mode {
    Test,
    Dev,
    Prod,
}

impl Mode {
    pub open spec fn spec_from_chars(s: Seq<char>) -> Option<Mode> {
        if eq_ignore_ascii_case(s, "test"@) {
            Some(Mode::Test)
        } else if eq_ignore_ascii_case(s, "dev"@) {
            Some(Mode::Dev)
        } else if eq_ignore_ascii_case(s, "prod"@) {
            Some(Mode::Prod)
        } else {
            None
        }
    }

    /// Parse a mode name, ignoring ASCII case.
    pub fn from_strr(s: &str) -> (r: Option<Mode>)
        ensures
            r == Mode::spec_from_chars(s@),
    {
        if str_eq_ignore_case(s, "test") {
            Some(Mode::Test)
        } else if str_eq_ignore_case(s, "dev") {
            Some(Mode::Dev)
        } else if str_eq_ignore_case(s, "prod") {
            Some(Mode::Prod)
        } else {
            None
        }
    }

    pub fn is_test(&self) -> (r: bool)
        ensures
            r == (self is Test),
    {
        *self == Mode::Test
    }
}

/// Families of chains sharing one account model.
#[derive(Debug, Clone, Copy, PartialEq, Eq, Structural, Hash)]
pub enum ChainProtocol {
    Evm,
}

impl ChainProtocol {
    pub fn all() -> (r: Vec<ChainProtocol>)
        ensures
            r@ == seq![ChainProtocol::Evm],
    {
        let mut v: Vec<ChainProtocol> = Vec::new();
        v.push(ChainProtocol::Evm);
        proof {
            assert(v@ =~= seq![ChainProtocol::Evm]);
        }
        v
    }

    pub open spec fn spec_str(self) -> Seq<char> {
        "Evm"@
    }

    pub fn as_str(&self) -> (r: &'static str)
        ensures
            r@ == self.spec_str(),
    {
        "Evm"
    }
}

/// The chains the service settles on.
#[derive(Debug, Clone, Copy, PartialEq, Eq, Structural, Hash)]
pub enum ChainName {
    Ethereum,
    Polygon,
    Sepolia,
    /// For local testing.
    Anvil,
}

impl Default for ChainName {
    fn default() -> (r: Self)
        ensures
            r is Ethereum,
    {
        ChainName::Ethereum
    }
}

impl ChainName {
    pub open spec fn spec_str(self) -> Seq<char> {
        match self {
            ChainName::Ethereum => "Ethereum"@,
            ChainName::Polygon => "Polygon"@,
            ChainName::Sepolia => "Sepolia"@,
            ChainName::Anvil => "Anvil"@,
        }
    }

    pub fn as_str(&self) -> (r: &'static str)
        ensures
            r@ == self.spec_str(),
    {
        match self {
            ChainName::Ethereum => "Ethereum",
            ChainName::Polygon => "Polygon",
            ChainName::Sepolia => "Sepolia",
            ChainName::Anvil => "Anvil",
        }
    }

    pub open spec fn spec_from_chars(s: Seq<char>) -> Option<ChainName> {
        if eq_ignore_ascii_case(s, "ethereum"@) {
            Some(ChainName::Ethereum)
        } else if eq_ignore_ascii_case(s, "polygon"@) {
            Some(ChainName::Polygon)
        } else if eq_ignore_ascii_case(s, "sepolia"@) {
            Some(ChainName::Sepolia)
        } else if eq_ignore_ascii_case(s, "anvil"@) {
            Some(ChainName::Anvil)
        } else {
            None
        }
    }

    /// Parse a chain name, ignoring ASCII case.
    pub fn from_strr(s: &str) -> (r: Option<ChainName>)
        ensures
            r == ChainName::spec_from_chars(s@),
    {
        if str_eq_ignore_case(s, "ethereum") {
            Some(ChainName::Ethereum)
        } else if str_eq_ignore_case(s, "polygon") {
            Some(ChainName::Polygon)
        } else if str_eq_ignore_case(s, "sepolia") {
            Some(ChainName::Sepolia)
        } else if str_eq_ignore_case(s, "anvil") {
            Some(ChainName::Anvil)
        } else {
            None
        }
    }
}

/// The stablecoins the service can pay with.
#[derive(Debug, Clone, Copy, PartialEq, Eq, Structural, Hash)]
pub enum StableCoin {
    USDT,
    USDC,
    DAI,
}

impl Default for StableCoin {
    fn default() -> (r: Self)
        ensures
            r is USDT,
    {
        StableCoin::USDT
    }
}

impl StableCoin {
    pub fn all() -> (r: Vec<StableCoin>)
        ensures
            r@ == seq![StableCoin::USDT, StableCoin::USDC, StableCoin::DAI],
    {
        let mut v: Vec<StableCoin> = Vec::new();
        v.push(StableCoin::USDT);
        v.push(StableCoin::USDC);
        v.push(StableCoin::DAI);
        proof {
            assert(v@ =~= seq![StableCoin::USDT, StableCoin::USDC, StableCoin::DAI]);
        }
        v
    }

    /// Fractional digits of the coin's on-chain integer representation.
    pub open spec fn spec_decimals(self) -> u8 {
        match self {
            StableCoin::USDT => 6,
            StableCoin::USDC => 6,
            StableCoin::DAI => 18,
        }
    }

    pub fn decimals(&self) -> (r: u8)
        ensures
            r == self.spec_decimals(),
    {
        match self {
            StableCoin::USDT => 6,
            StableCoin::USDC => 6,
            StableCoin::DAI => 18,
        }
    }

    pub open spec fn spec_str(self) -> Seq<char> {
        match self {
            StableCoin::USDT => "USDT"@,
            StableCoin::USDC => "USDC"@,
            StableCoin::DAI => "DAI"@,
        }
    }

    pub fn as_str(&self) -> (r: &'static str)
        ensures
            r@ == self.spec_str(),
    {
        match self {
            StableCoin::USDT => "USDT",
            StableCoin::USDC => "USDC",
            StableCoin::DAI => "DAI",
        }
    }

    pub open spec fn spec_from_chars(s: Seq<char>) -> Option<StableCoin> {
        if eq_ignore_ascii_case(s, "USDT"@) {
            Some(StableCoin::USDT)
        } else if eq_ignore_ascii_case(s, "USDC"@) {
            Some(StableCoin::USDC)
        } else if eq_ignore_ascii_case(s, "DAI"@) {
            Some(StableCoin::DAI)
        } else {
            None
        }
    }

    /// Parse a stablecoin name, ignoring ASCII case; an unknown name is
    /// reported back in the error text.
    pub fn from_strr(stablecoin: &str) -> (r: Result<StableCoin, String>)
        ensures
            match r {
                Ok(c) => StableCoin::spec_from_chars(stablecoin@) == Some(c),
                Err(e) => StableCoin::spec_from_chars(stablecoin@) is None && e@
                    == "Invalid stablecoin: "@ + stablecoin@,
            },
    {
        if str_eq_ignore_case(stablecoin, "USDT") {
            Ok(StableCoin::USDT)
        } else if str_eq_ignore_case(stablecoin, "USDC") {
            Ok(StableCoin::USDC)
        } else if str_eq_ignore_case(stablecoin, "DAI") {
            Ok(StableCoin::DAI)
        } else {
            let mut msg = "Invalid stablecoin: ".to_owned();
            msg.append(stablecoin);
            Err(msg)
        }
    }

    /// The stablecoin a general coin stands for, if any.
    pub fn from_coin(c: Coin) -> (r: Option<StableCoin>)
        ensures
            r == match c {
                Coin::USDT => Some(StableCoin::USDT),
                Coin::USDC => Some(StableCoin::USDC),
                Coin::DAI => Some(StableCoin::DAI),
                _ => None::<StableCoin>,
            },
    {
        match c {
            Coin::USDT => Some(StableCoin::USDT),
            Coin::USDC => Some(StableCoin::USDC),
            Coin::DAI => Some(StableCoin::DAI),
            _ => None,
        }
    }
}

/// Every coin the service touches: gas coins and stablecoins.
#[derive(Debug, Clone, Copy, PartialEq, Eq, Structural)]
pub enum Coin {
    ETH,
    MATIC,
    USDT,
    USDC,
    DAI,
}

impl Coin {
    pub fn from_stable(c: StableCoin) -> (r: Coin)
        ensures
            r == match c {
                StableCoin::USDT => Coin::USDT,
                StableCoin::USDC => Coin::USDC,
                StableCoin::DAI => Coin::DAI,
            },
    {
        match c {
            StableCoin::USDT => Coin::USDT,
            StableCoin::USDC => Coin::USDC,
            StableCoin::DAI => Coin::DAI,
        }
    }

    pub open spec fn spec_str(self) -> Seq<char> {
        match self {
            Coin::ETH => "ETH"@,
            Coin::MATIC => "MATIC"@,
            Coin::USDT => "USDT"@,
            Coin::USDC => "USDC"@,
            Coin::DAI => "DAI"@,
        }
    }

    pub fn as_str(&self) -> (r: &'static str)
        ensures
            r@ == self.spec_str(),
    {
        match self {
            Coin::ETH => "ETH",
            Coin::MATIC => "MATIC",
            Coin::USDT => "USDT",
            Coin::USDC => "USDC",
            Coin::DAI => "DAI",
        }
    }
}

/// Fiat currencies a user may prefer for display.
#[derive(Debug, Clone, Copy, PartialEq, Eq, Structural)]
pub enum Currency {
    USD,
    INR,
    EUR,
}

impl Default for Currency {
    fn default() -> (r: Self)
        ensures
            r is USD,
    {
        Currency::USD
    }
}

impl Currency {
    pub fn all() -> (r: Vec<Currency>)
        ensures
            r@ == seq![Currency::USD, Currency::INR, Currency::EUR],
    {
        let mut v: Vec<Currency> = Vec::new();
        v.push(Currency::USD);
        v.push(Currency::INR);
        v.push(Currency::EUR);
        proof {
            assert(v@ =~= seq![Currency::USD, Currency::INR, Currency::EUR]);
        }
        v
    }

    pub open spec fn spec_str(self) -> Seq<char> {
        match self {
            Currency::USD => "USD"@,
            Currency::INR => "INR"@,
            Currency::EUR => "EUR"@,
        }
    }

    pub fn as_str(&self) -> (r: &'static str)
        ensures
            r@ == self.spec_str(),
    {
        match self {
            Currency::USD => "USD",
            Currency::INR => "INR",
            Currency::EUR => "EUR",
        }
    }
}

/// Wallet balances on one chain, one entry per coin.
#[derive(Debug, Clone, PartialEq)]
pub struct WalletBalancesByChain {
    /// Total value in USD.
    pub total_usd: String,
    pub coin_details: Vec<(StableCoin, WalletBalancesByChainCoinDetails)>,
}

#[derive(Debug, Clone, PartialEq)]
pub struct WalletBalancesByChainCoinDetails {
    /// Price in USD.
    pub price_usd: String,
    /// Formatted balance.
    pub balance: String,
    /// Value in USD: price times balance.
    pub value_usd: String,
}

/// Wallet balances for one coin, one entry per chain.
#[derive(Debug, Clone, PartialEq)]
pub struct WalletBalancesByCoin {
    /// Total value in USD.
    pub total_usd: String,
    /// Price in USD.
    pub price_usd: String,
    pub chain_details: Vec<(ChainName, WalletBalancesByCoinChainDetails)>,
}

#[derive(Debug, Clone, PartialEq)]
pub struct WalletBalancesByCoinChainDetails {
    /// Formatted balance.
    pub balance: String,
    /// Value in USD: price times balance.
    pub value_usd: String,
}

/// A user's profile, every field optional.
#[derive(Debug, Clone, PartialEq)]
pub struct UserProfile {
    pub name: Option<String>,
    pub nickname: Option<String>,
    /// A set email means a verified email.
    pub email: Option<String>,
    pub preferred_fiat_currency: Option<Currency>,
}

impl Default for UserProfile {
    /// A fresh profile prefers USD and sets nothing else.
    fn default() -> (r: Self)
        ensures
            r.name is None,
            r.nickname is None,
            r.email is None,
            r.preferred_fiat_currency == Some(Currency::USD),
    {
        UserProfile {
            name: None,
            nickname: None,
            email: None,
            preferred_fiat_currency: Some(Currency::USD),
        }
    }
}

/// Filters a receipt listing may carry.
#[derive(Debug, Clone)]
pub struct PayHistoryFilterParams {
    pub chain: Option<ChainName>,
    pub status: Option<OcPayReceiptStatus>,
    pub limit: Option<i64>,
    pub next_or_previous: Option<bool>,
}

/// One page of on-chain payment receipts.
#[derive(Debug, Clone)]
pub struct OcPayHistory {
    pub has_prev: bool,
    pub receipts: Vec<OcPayReceipt>,
    pub has_next: bool,
}

/// Receipt of one on-chain payment.
#[derive(Debug, Clone, PartialEq)]
pub struct OcPayReceipt {
    pub id: String,
    pub user_id: String,
    pub chain: ChainName,
    pub coins: Vec<StableCoin>,
    pub to_addresses: Vec<String>,
    pub amounts: Vec<String>,
    pub memo: Memo,
    pub tx_hash: String,
    pub tx_hashes: Vec<String>,
    pub status: OcPayReceiptStatus,
    pub start_ts_us: i64,
    pub end_ts_us: i64,
}

/// Settlement state of an on-chain payment.
#[derive(Debug, Clone, Copy, PartialEq, Eq, Structural)]
pub enum OcPayReceiptStatus {
    Failed,
    Processing,
    Completed,
}

impl Default for OcPayReceiptStatus {
    fn default() -> (r: Self)
        ensures
            r is Processing,
    {
        OcPayReceiptStatus::Processing
    }
}

impl OcPayReceiptStatus {
    pub open spec fn spec_str(self) -> Seq<char> {
        match self {
            OcPayReceiptStatus::Failed => "Failed"@,
            OcPayReceiptStatus::Processing => "Processing"@,
            OcPayReceiptStatus::Completed => "Completed"@,
        }
    }

    pub fn as_str(&self) -> (r: &'static str)
        ensures
            r@ == self.spec_str(),
    {
        match self {
            OcPayReceiptStatus::Failed => "Failed",
            OcPayReceiptStatus::Processing => "Processing",
            OcPayReceiptStatus::Completed => "Completed",
        }
    }
}

/// What a payment is for.
#[derive(Debug, Clone, PartialEq, Eq, Structural)]
pub enum Memo {
    General,
    SubscribeApi(ApiPlan, PaidPlanDuration),
    FliqPay,
}

impl Default for Memo {
    fn default() -> (r: Self)
        ensures
            r is General,
    {
        Memo::General
    }
}

impl Memo {
    /// The wire form of a memo: the variant name, a subscription carrying
    /// its plan and duration separated by colons.
    pub open spec fn spec_str(self) -> Seq<char> {
        match self {
            Memo::General => "General"@,
            Memo::SubscribeApi(p, d) => "SubscribeApi:"@ + p.spec_str() + ":"@ + d.spec_str(),
            Memo::FliqPay => "FliqPay"@,
        }
    }

    pub fn to_str(&self) -> (r: String)
        ensures
            r@ == self.spec_str(),
    {
        match self {
            Memo::General => "General".to_owned(),
            Memo::SubscribeApi(p, d) => {
                let mut out = "SubscribeApi:".to_owned();
                out.append(p.as_str());
                out.append(":");
                out.append(d.as_str());
                out
            },
            Memo::FliqPay => "FliqPay".to_owned(),
        }
    }

    /// A memo read back from its wire form: either a plain variant name, or
    /// exactly three colon-separated fields naming a subscription.
    pub open spec fn spec_from_chars(s: Seq<char>) -> Option<Memo> {
        match spec_find(s, ':') {
            None => if s == "General"@ {
                Some(Memo::General)
            } else if s == "FliqPay"@ {
                Some(Memo::FliqPay)
            } else {
                None
            },
            Some(c1) => {
                let rest = s.skip(c1 + 1);
                match spec_find(rest, ':') {
                    None => None,
                    Some(c2) => {
                        let plan = rest.take(c2);
                        let dur = rest.skip(c2 + 1);
                        if spec_find(dur, ':') is Some {
                            None
                        } else if s.take(c1) == "SubscribeApi"@ {
                            match (ApiPlan::spec_from_chars(plan), PaidPlanDuration::spec_from_chars(
                                dur,
                            )) {
                                (Some(p), Some(d)) => Some(Memo::SubscribeApi(p, d)),
                                _ => None,
                            }
                        } else {
                            None
                        }
                    },
                }
            },
        }
    }

    /// Parse the wire form of a memo.
    pub fn from_strr(s: &str) -> (r: Option<Memo>)
        ensures
            r == Memo::spec_from_chars(s@),
    {
        let n = s.unicode_len();
        let c1 = find_char_from(s, ':', 0);
        proof {
            assert(s@.skip(0) =~= s@);
        }
        if c1 == n {
            if str_eq(s, "General") {
                Some(Memo::General)
            } else if str_eq(s, "FliqPay") {
                Some(Memo::FliqPay)
            } else {
                None
            }
        } else {
            let ghost rest = s@.skip(c1 + 1);
            let c2 = find_char_from(s, ':', c1 + 1);
            if c2 == n {
                return None;
            }
            let c3 = find_char_from(s, ':', c2 + 1);
            proof {
                assert(rest.take(c2 - c1 - 1) =~= s@.subrange(c1 as int + 1, c2 as int));
                assert(rest.skip(c2 - c1) =~= s@.skip(c2 as int + 1));
            }
            if c3 < n {
                return None;
            }
            let head = s.substring_char(0, c1);
            proof {
                assert(head@ =~= s@.take(c1 as int));
            }
            if !str_eq(head, "SubscribeApi") {
                return None;
            }
            let plan_s = s.substring_char(c1 + 1, c2);
            let dur_s = s.substring_char(c2 + 1, n);
            match (ApiPlan::from_strr(plan_s), PaidPlanDuration::from_strr(dur_s)) {
                (Some(p), Some(d)) => Some(Memo::SubscribeApi(p, d)),
                _ => None,
            }
        }
    }
}

/// Subscription tiers of the API service.
#[derive(Debug, Clone, Copy, PartialEq, Eq, Structural)]
pub enum ApiPlan {
    Free,
    Starter,
    Growth,
    Scale,
    /// Custom terms.
    Enterprise,
}

impl Default for ApiPlan {
    fn default() -> (r: Self)
        ensures
            r is Free,
    {
        ApiPlan::Free
    }
}

impl ApiPlan {
    pub open spec fn spec_str(self) -> Seq<char> {
        match self {
            ApiPlan::Free => "Free"@,
            ApiPlan::Starter => "Starter"@,
            ApiPlan::Growth => "Growth"@,
            ApiPlan::Scale => "Scale"@,
            ApiPlan::Enterprise => "Enterprise"@,
        }
    }

    pub fn as_str(&self) -> (r: &'static str)
        ensures
            r@ == self.spec_str(),
    {
        match self {
            ApiPlan::Free => "Free",
            ApiPlan::Starter => "Starter",
            ApiPlan::Growth => "Growth",
            ApiPlan::Scale => "Scale",
            ApiPlan::Enterprise => "Enterprise",
        }
    }

    pub open spec fn spec_from_chars(s: Seq<char>) -> Option<ApiPlan> {
        if eq_ignore_ascii_case(s, "free"@) {
            Some(ApiPlan::Free)
        } else if eq_ignore_ascii_case(s, "starter"@) {
            Some(ApiPlan::Starter)
        } else if eq_ignore_ascii_case(s, "growth"@) {
            Some(ApiPlan::Growth)
        } else if eq_ignore_ascii_case(s, "scale"@) {
            Some(ApiPlan::Scale)
        } else if eq_ignore_ascii_case(s, "enterprise"@) {
            Some(ApiPlan::Enterprise)
        } else {
            None
        }
    }

    /// Parse a plan name, ignoring ASCII case.
    pub fn from_strr(s: &str) -> (r: Option<ApiPlan>)
        ensures
            r == ApiPlan::spec_from_chars(s@),
    {
        if str_eq_ignore_case(s, "free") {
            Some(ApiPlan::Free)
        } else if str_eq_ignore_case(s, "starter") {
            Some(ApiPlan::Starter)
        } else if str_eq_ignore_case(s, "growth") {
            Some(ApiPlan::Growth)
        } else if str_eq_ignore_case(s, "scale") {
            Some(ApiPlan::Scale)
        } else if str_eq_ignore_case(s, "enterprise") {
            Some(ApiPlan::Enterprise)
        } else {
            None
        }
    }
}

/// Billing period of a paid plan.
#[derive(Debug, Clone, Copy, PartialEq, Eq, Structural, Hash)]
pub enum PaidPlanDuration {
    Month,
    Quarter,
    HalfYear,
    Year,
}

impl Default for PaidPlanDuration {
    fn default() -> (r: Self)
        ensures
            r is Month,
    {
        PaidPlanDuration::Month
    }
}

impl PaidPlanDuration {
    pub open spec fn spec_str(self) -> Seq<char> {
        match self {
            PaidPlanDuration::Month => "Month"@,
            PaidPlanDuration::Quarter => "Quarter"@,
            PaidPlanDuration::HalfYear => "HalfYear"@,
            PaidPlanDuration::Year => "Year"@,
        }
    }

    pub fn as_str(&self) -> (r: &'static str)
        ensures
            r@ == self.spec_str(),
    {
        match self {
            PaidPlanDuration::Month => "Month",
            PaidPlanDuration::Quarter => "Quarter",
            PaidPlanDuration::HalfYear => "HalfYear",
            PaidPlanDuration::Year => "Year",
        }
    }

    pub open spec fn spec_from_chars(s: Seq<char>) -> Option<PaidPlanDuration> {
        if eq_ignore_ascii_case(s, "month"@) {
            Some(PaidPlanDuration::Month)
        } else if eq_ignore_ascii_case(s, "quarter"@) {
            Some(PaidPlanDuration::Quarter)
        } else if eq_ignore_ascii_case(s, "halfyear"@) {
            Some(PaidPlanDuration::HalfYear)
        } else if eq_ignore_ascii_case(s, "year"@) {
            Some(PaidPlanDuration::Year)
        } else {
            None
        }
    }

    /// Parse a duration name, ignoring ASCII case.
    pub fn from_strr(s: &str) -> (r: Option<PaidPlanDuration>)
        ensures
            r == PaidPlanDuration::spec_from_chars(s@),
    {
        if str_eq_ignore_case(s, "month") {
            Some(PaidPlanDuration::Month)
        } else if str_eq_ignore_case(s, "quarter") {
            Some(PaidPlanDuration::Quarter)
        } else if str_eq_ignore_case(s, "halfyear") {
            Some(PaidPlanDuration::HalfYear)
        } else if str_eq_ignore_case(s, "year") {
            Some(PaidPlanDuration::Year)
        } else {
            None
        }
    }
}

/// What a pre-payment balance and fee fetch is keyed by.
#[derive(Debug, Clone, Copy, PartialEq, Eq, Structural)]
pub struct PreOcpPayload {
    pub coin: StableCoin,
    pub chain: ChainName,
}

/// What a pre-payment balance and fee fetch returns.
#[derive(Debug, Clone, PartialEq)]
pub struct PreOcpValues {
    pub is_coin_allowance_zero: bool,
    pub balance: String,
    pub est_fees: String,
}

/// Body of an on-chain payment request.
#[derive(Debug, Clone, PartialEq)]
pub struct PayOnchainPayload {
    pub chain: ChainName,
    pub coin: StableCoin,
    pub to_address: String,
    pub amount: String,
    pub memo: Memo,
}

} // verus!

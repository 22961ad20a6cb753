//! The closed set of API operations, their path templates, and the
//! position-based template resolver.
//!
//! A template holds `{name}` placeholders; resolution substitutes the
//! caller's parameters strictly in placeholder order — the names are
//! documentation only — and rejects any arity mismatch.
use vstd::prelude::*;
use vstd::string::{StrSliceExecFns, StringExecFns};
use crate::errors::OmniPayError;
use crate::find::{find_char_from, lemma_spec_find, spec_find};
use crate::scaled::{i64_to_string, spec_i64_string};
use crate::types::PayHistoryFilterParams;

verus! {

/// One API operation of the payment service.
#[derive(Debug, Clone, Copy, PartialEq, Eq, Structural)]
pub enum ApiHandler {
    // health
    HealthCheck,
    Healthz,
    // profile
    SetUserProfile,
    GetUserProfile,
    // contacts
    AddUserContacts,
    DelUserContact,
    UpdateUserContact,
    GetUserContacts,
    GetUserContactByUid,
    GetUserContactsByName,
    // payment, on chain
    FetchPreOcpNetOnchainBalance,
    FetchPreOcpTotalEstFees,
    FetchPreOcpBalanceAndEstFees,
    RequestFaucet,
    PayOnchain,
    FliqNotifyPayer,
    GetOcpReceipt,
    GetOcpReceipts,
    // wallet
    GetUserWalletAddress,
    GetUserWalletAddresses,
    GetOcChainCoinBalance,
    GetOcChainAllCoinsBalances,
    GetWalletBalancesByChain,
    GetWalletBalancesByCoin,
}

/// What resolving `t` against the ordered parameters `ps` yields. The
/// template is scanned left to right; at each `{` the text before it is
/// kept, the whole `{...}` span is replaced by the next parameter, and
/// scanning resumes after the matching `}`. A `{` without `}` is a defect
/// of the template; too few or too many parameters are arity defects.
pub open spec fn spec_resolve(t: Seq<char>, ps: Seq<Seq<char>>) -> Result<Seq<char>, OmniPayError>
    decreases t.len(),
    via spec_resolve_decreases
{
    match spec_find(t, '{') {
        None => if ps.len() == 0 {
            Ok(t)
        } else {
            Err(OmniPayError::TooManyParameters)
        },
        Some(o) => match spec_find(t.skip(o), '}') {
            None => Err(OmniPayError::UnclosedPlaceholder),
            Some(c) => if ps.len() == 0 {
                Err(OmniPayError::TooFewParameters)
            } else {
                match spec_resolve(t.skip(o + c + 1), ps.drop_first()) {
                    Ok(rest) => Ok(t.take(o) + ps[0] + rest),
                    Err(e) => Err(e),
                }
            },
        },
    }
}

#[via_fn]
proof fn spec_resolve_decreases(t: Seq<char>, ps: Seq<Seq<char>>) {
    lemma_spec_find(t, '{');
    match spec_find(t, '{') {
        Some(o) => {
            lemma_spec_find(t.skip(o), '}');
        },
        None => {},
    }
}

impl ApiHandler {
    /// The operation's path template.
    pub open spec fn spec_path(self) -> Seq<char> {
        match self {
            ApiHandler::Healthz => "/healthz"@,
            ApiHandler::HealthCheck => "/health"@,
            ApiHandler::SetUserProfile => "/profile/{user_id}"@,
            ApiHandler::GetUserProfile => "/profile/{user_id}"@,
            ApiHandler::GetUserContacts => "/contacts/{user_id}"@,
            ApiHandler::AddUserContacts => "/contacts/{user_id}"@,
            ApiHandler::DelUserContact => "/contacts/{user_id}/{uid}"@,
            ApiHandler::UpdateUserContact => "/contacts/{user_id}/{uid}"@,
            ApiHandler::GetUserContactByUid => "/contacts/{user_id}/{uid}"@,
            ApiHandler::GetUserContactsByName => "/contacts/by_name/{user_id}/{name}"@,
            ApiHandler::GetUserWalletAddress => "/wallet/address/{user_id}/{chain}"@,
            ApiHandler::GetUserWalletAddresses => "/wallet/addresses/{user_id}"@,
            ApiHandler::GetOcChainCoinBalance => "/wallet/onchain/balance/{user_id}/{chain}/{coin}"@,
            ApiHandler::GetOcChainAllCoinsBalances => "/wallet/onchain/balances/{user_id}/{chain}"@,
            ApiHandler::GetWalletBalancesByChain => "/wallet/balances/by_chain/{user_id}/{chain}"@,
            ApiHandler::GetWalletBalancesByCoin => "/wallet/balances/by_coin/{user_id}/{coin}"@,
            ApiHandler::FetchPreOcpNetOnchainBalance => "/payment/onchain/net_balance/{user_id}/{chain}/{coin}"@,
            ApiHandler::FetchPreOcpTotalEstFees => "/payment/onchain/est_fee/{user_id}/{chain}/{coin}"@,
            ApiHandler::FetchPreOcpBalanceAndEstFees => "/payment/onchain/balance_est_fees/{user_id}/{chain}/{coin}"@,
            ApiHandler::RequestFaucet => "/faucet/{user_id}/{coin}/{chain}"@,
            ApiHandler::PayOnchain => "/payment/onchain/{user_id}/{is_fee_incl}"@,
            ApiHandler::FliqNotifyPayer => "/payment/onchain/fliq/notify/payer/{pid}/{chain}/{coin}/{to_address}/{amount}"@,
            ApiHandler::GetOcpReceipt => "/payment/onchain/receipt/{receipt_id}"@,
            ApiHandler::GetOcpReceipts => "/payment/onchain/receipts/{user_id}/{sort_by_latest}/{from_start}"@,
        }
    }

    /// The operation's path template.
    pub fn path(&self) -> (r: &'static str)
        ensures
            r@ == self.spec_path(),
    {
        match self {
            ApiHandler::Healthz => "/healthz",
            ApiHandler::HealthCheck => "/health",
            ApiHandler::SetUserProfile => "/profile/{user_id}",
            ApiHandler::GetUserProfile => "/profile/{user_id}",
            ApiHandler::GetUserContacts => "/contacts/{user_id}",
            ApiHandler::AddUserContacts => "/contacts/{user_id}",
            ApiHandler::DelUserContact => "/contacts/{user_id}/{uid}",
            ApiHandler::UpdateUserContact => "/contacts/{user_id}/{uid}",
            ApiHandler::GetUserContactByUid => "/contacts/{user_id}/{uid}",
            ApiHandler::GetUserContactsByName => "/contacts/by_name/{user_id}/{name}",
            ApiHandler::GetUserWalletAddress => "/wallet/address/{user_id}/{chain}",
            ApiHandler::GetUserWalletAddresses => "/wallet/addresses/{user_id}",
            ApiHandler::GetOcChainCoinBalance => "/wallet/onchain/balance/{user_id}/{chain}/{coin}",
            ApiHandler::GetOcChainAllCoinsBalances => "/wallet/onchain/balances/{user_id}/{chain}",
            ApiHandler::GetWalletBalancesByChain => "/wallet/balances/by_chain/{user_id}/{chain}",
            ApiHandler::GetWalletBalancesByCoin => "/wallet/balances/by_coin/{user_id}/{coin}",
            ApiHandler::FetchPreOcpNetOnchainBalance => "/payment/onchain/net_balance/{user_id}/{chain}/{coin}",
            ApiHandler::FetchPreOcpTotalEstFees => "/payment/onchain/est_fee/{user_id}/{chain}/{coin}",
            ApiHandler::FetchPreOcpBalanceAndEstFees => "/payment/onchain/balance_est_fees/{user_id}/{chain}/{coin}",
            ApiHandler::RequestFaucet => "/faucet/{user_id}/{coin}/{chain}",
            ApiHandler::PayOnchain => "/payment/onchain/{user_id}/{is_fee_incl}",
            ApiHandler::FliqNotifyPayer => "/payment/onchain/fliq/notify/payer/{pid}/{chain}/{coin}/{to_address}/{amount}",
            ApiHandler::GetOcpReceipt => "/payment/onchain/receipt/{receipt_id}",
            ApiHandler::GetOcpReceipts => "/payment/onchain/receipts/{user_id}/{sort_by_latest}/{from_start}",
        }
    }

    /// Resolve this operation's template against `params`, substituting
    /// placeholders strictly in order and rejecting arity mismatches.
    pub fn fill_path_ordered(&self, params: &[String]) -> (r: Result<String, OmniPayError>)
        ensures
            match r {
                Ok(out) => spec_resolve(self.spec_path(), params.deep_view()) == Ok::<
                    Seq<char>,
                    OmniPayError,
                >(out@),
                Err(e) => spec_resolve(self.spec_path(), params.deep_view()) == Err::<
                    Seq<char>,
                    OmniPayError,
                >(e),
            },
    {
        let template = self.path();
        fill_template_ordered(template, params)
    }
}

/// Resolve `template` against `params`: text before each `{` is copied
/// verbatim, each `{...}` span consumes the next parameter in order, and
/// the text after the last placeholder is copied verbatim.
pub fn fill_template_ordered(template: &str, params: &[String]) -> (r: Result<String, OmniPayError>)
    ensures
        match r {
            Ok(out) => spec_resolve(template@, params.deep_view()) == Ok::<Seq<char>, OmniPayError>(
                out@,
            ),
            Err(e) => spec_resolve(template@, params.deep_view()) == Err::<Seq<char>, OmniPayError>(
                e,
            ),
        },
{
    let ghost t = template@;
    let ghost ps = params.deep_view();
    let n = template.unicode_len();
    let mut out = String::new();
    let mut i: usize = 0;
    let mut pi: usize = 0;
    proof {
        assert(t.skip(0) =~= t);
        assert(ps.skip(0) =~= ps);
        match spec_resolve(t.skip(0), ps.skip(0)) {
            Ok(rest) => {
                assert(out@ + rest =~= rest);
            },
            Err(_) => {},
        }
    }
    loop
        invariant
            t == template@,
            ps == params.deep_view(),
            ps.len() == params@.len(),
            n == t.len(),
            i <= n,
            pi <= ps.len(),
            spec_resolve(t, ps) == (match spec_resolve(t.skip(i as int), ps.skip(pi as int)) {
                Ok(rest) => Ok::<Seq<char>, OmniPayError>(out@ + rest),
                Err(e) => Err::<Seq<char>, OmniPayError>(e),
            }),
        decreases n - i,
    {
        let ghost t_i = t.skip(i as int);
        let ghost ps_pi = ps.skip(pi as int);
        let ghost out0 = out@;
        let o = find_char_from(template, '{', i);
        // copy the text before the placeholder, or the tail, verbatim
        let pre = template.substring_char(i, o);
        out.append(pre);
        if o == n {
            // no placeholder remains
            proof {
                assert(spec_find(t_i, '{') is None);
                assert(t_i =~= t.subrange(i as int, n as int));
            }
            if pi != params.len() {
                return Err(OmniPayError::TooManyParameters);
            }
            proof {
                assert(ps_pi.len() == 0);
                assert(out@ =~= out0 + t_i);
            }
            return Ok(out);
        }
        proof {
            assert(spec_find(t_i, '{') == Some(o - i));
            assert(t_i.skip(o - i) =~= t.skip(o as int));
        }
        let c = find_char_from(template, '}', o);
        if c == n {
            proof {
                assert(spec_find(t.skip(o as int), '}') is None);
            }
            return Err(OmniPayError::UnclosedPlaceholder);
        }
        proof {
            assert(spec_find(t.skip(o as int), '}') == Some(c - o));
        }
        if pi == params.len() {
            proof {
                assert(ps_pi.len() == 0);
            }
            return Err(OmniPayError::TooFewParameters);
        }
        let param = &params[pi];
        out.append(param.as_str());
        proof {
            assert(ps_pi.len() > 0);
            assert(ps_pi[0] == ps[pi as int]);
            assert(ps[pi as int] == params@[pi as int]@);
            assert(t_i.take(o - i) =~= t.subrange(i as int, o as int));
            assert(pre@ == t.subrange(i as int, o as int));
            assert(t_i.skip((o - i) + (c - o) + 1) =~= t.skip(c as int + 1));
            assert(ps_pi.drop_first() =~= ps.skip(pi as int + 1));
            match spec_resolve(t.skip(c as int + 1), ps.skip(pi as int + 1)) {
                Ok(r2) => {
                    assert(spec_resolve(t_i, ps_pi) == Ok::<Seq<char>, OmniPayError>(
                        t_i.take(o - i) + ps_pi[0] + r2,
                    ));
                    assert(out0 + (t_i.take(o - i) + ps_pi[0] + r2) =~= out@ + r2);
                },
                Err(_) => {},
            }
        }
        pi = pi + 1;
        i = c + 1;
    }
}

/// Rendering of a boolean in a query string.
pub open spec fn spec_bool_string(b: bool) -> Seq<char> {
    if b {
        "true"@
    } else {
        "false"@
    }
}

/// The query string a receipt listing sends: one `key=value&` pair, in a
/// fixed order, for each filter that is set; empty without a filter.
pub open spec fn spec_receipts_query(filter: Option<PayHistoryFilterParams>) -> Seq<char> {
    match filter {
        None => Seq::empty(),
        Some(f) => "?"@ + (match f.chain {
            Some(c) => "chain="@ + c.spec_str() + "&"@,
            None => Seq::empty(),
        }) + (match f.status {
            Some(st) => "status="@ + st.spec_str() + "&"@,
            None => Seq::empty(),
        }) + (match f.limit {
            Some(l) => "limit="@ + spec_i64_string(l as int) + "&"@,
            None => Seq::empty(),
        }) + (match f.next_or_previous {
            Some(b) => "next_or_previous="@ + spec_bool_string(b) + "&"@,
            None => Seq::empty(),
        }),
    }
}

/// Build the query-string suffix of a receipt listing request.
#[verifier::rlimit(60)]
pub fn receipts_query_suffix(filter: &Option<PayHistoryFilterParams>) -> (r: String)
    ensures
        r@ == spec_receipts_query(*filter),
{
    let mut out = String::new();
    let f = match filter {
        None => {
            proof {
                assert(out@ =~= Seq::<char>::empty());
            }
            return out;
        },
        Some(f) => f,
    };
    let ghost chain_part = match f.chain {
        Some(c) => "chain="@ + c.spec_str() + "&"@,
        None => Seq::<char>::empty(),
    };
    let ghost status_part = match f.status {
        Some(st) => "status="@ + st.spec_str() + "&"@,
        None => Seq::<char>::empty(),
    };
    let ghost limit_part = match f.limit {
        Some(l) => "limit="@ + spec_i64_string(l as int) + "&"@,
        None => Seq::<char>::empty(),
    };
    let ghost nop_part = match f.next_or_previous {
        Some(b) => "next_or_previous="@ + spec_bool_string(b) + "&"@,
        None => Seq::<char>::empty(),
    };
    out.append("?");
    match &f.chain {
        Some(c) => {
            out.append("chain=");
            out.append(c.as_str());
            out.append("&");
        },
        None => {},
    }
    proof {
        assert(out@ =~= "?"@ + chain_part);
    }
    match &f.status {
        Some(st) => {
            out.append("status=");
            out.append(st.as_str());
            out.append("&");
        },
        None => {},
    }
    proof {
        assert(out@ =~= "?"@ + chain_part + status_part);
    }
    match &f.limit {
        Some(l) => {
            out.append("limit=");
            let ls = i64_to_string(*l);
            out.append(ls.as_str());
            out.append("&");
        },
        None => {},
    }
    proof {
        assert(out@ =~= "?"@ + chain_part + status_part + limit_part);
    }
    match &f.next_or_previous {
        Some(b) => {
            out.append("next_or_previous=");
            if *b {
                out.append("true");
            } else {
                out.append("false");
            }
            out.append("&");
        },
        None => {},
    }
    proof {
        assert(out@ =~= "?"@ + chain_part + status_part + limit_part + nop_part);
    }
    out
}

} // verus!

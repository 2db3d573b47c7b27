//! What the brokerage asks for and what it answers.

use vstd::prelude::*;
use vstd::string::*;
use crate::config::StrategyConfig;

verus! {

/// Where and as whom to reach the brokerage.
#[derive(Debug, PartialEq, Eq)]
pub struct ApiConfig {
    pub base_url: String,
    pub api_key: String,
    pub secret_key: String,
    pub paper: bool,
}

/// What an [`ApiConfig`] holds, with its text as sequences of characters.
pub struct ApiConfigView {
    pub base_url: Seq<char>,
    pub api_key: Seq<char>,
    pub secret_key: Seq<char>,
    pub paper: bool,
}

impl View for ApiConfig {
    type V = ApiConfigView;

    open spec fn view(&self) -> ApiConfigView {
        ApiConfigView {
            base_url: self.base_url@,
            api_key: self.api_key@,
            secret_key: self.secret_key@,
            paper: self.paper,
        }
    }
}

impl Clone for ApiConfig {
    fn clone(&self) -> (r: Self)
        ensures
            r == *self,
    {
        ApiConfig {
            base_url: self.base_url.clone(),
            api_key: self.api_key.clone(),
            secret_key: self.secret_key.clone(),
            paper: self.paper,
        }
    }
}

/// The credential that the environment lacks.
#[derive(Clone, Copy, Debug, PartialEq, Eq, Structural)]
pub enum ApiConfigError {
    /// Neither `ALPACA_API_KEY` nor `APCA_API_KEY_ID` is set.
    MissingApiKey,
    /// Neither `ALPACA_SECRET_KEY` nor `APCA_API_SECRET_KEY` is set.
    MissingSecretKey,
}

impl ApiConfigError {
    /// The error in words.
    pub fn message(&self) -> (r: String)
        ensures
            r@ == match *self {
                ApiConfigError::MissingApiKey => "ALPACA_API_KEY or APCA_API_KEY_ID not found in environment"@,
                ApiConfigError::MissingSecretKey => "ALPACA_SECRET_KEY or APCA_API_SECRET_KEY not found in environment"@,
            },
    {
        match self {
            ApiConfigError::MissingApiKey => "ALPACA_API_KEY or APCA_API_KEY_ID not found in environment".to_owned(),
            ApiConfigError::MissingSecretKey => "ALPACA_SECRET_KEY or APCA_API_SECRET_KEY not found in environment".to_owned(),
        }
    }
}

/// The text of an optional string.
pub open spec fn text_of(o: Option<String>) -> Option<Seq<char>> {
    match o {
        Some(s) => Some(s@),
        None => None,
    }
}

/// The first of two optional values that is there.
pub open spec fn first_of(a: Option<Seq<char>>, b: Option<Seq<char>>) -> Option<Seq<char>> {
    if a is Some {
        a
    } else {
        b
    }
}

/// The address of the paper-trading service.
pub open spec fn paper_url() -> Seq<char> {
    "https://paper-api.alpaca.markets"@
}

/// The address of the live service.
pub open spec fn live_url() -> Seq<char> {
    "https://api.alpaca.markets"@
}

/// Whether paper trading is meant by the setting `paper`: always, unless
/// the setting is exactly `false`.
pub open spec fn paper_meant(paper: Option<Seq<char>>) -> bool {
    paper != Some("false"@)
}

/// The configuration that the given settings amount to.
///
/// The key is `key`, or `key_alt` where `key` is not set, and likewise the
/// secret. A missing key is reported before a missing secret.
pub open spec fn api_config_of(
    key: Option<Seq<char>>,
    key_alt: Option<Seq<char>>,
    secret: Option<Seq<char>>,
    secret_alt: Option<Seq<char>>,
    paper: Option<Seq<char>>,
) -> Result<ApiConfigView, ApiConfigError> {
    if first_of(key, key_alt) is None {
        Err(ApiConfigError::MissingApiKey)
    } else if first_of(secret, secret_alt) is None {
        Err(ApiConfigError::MissingSecretKey)
    } else {
        Ok(
            ApiConfigView {
                base_url: if paper_meant(paper) {
                    paper_url()
                } else {
                    live_url()
                },
                api_key: first_of(key, key_alt).unwrap(),
                secret_key: first_of(secret, secret_alt).unwrap(),
                paper: paper_meant(paper),
            },
        )
    }
}

/// Picks the first of two optional strings that is there.
fn pick(a: Option<String>, b: Option<String>) -> (r: Option<String>)
    ensures
        text_of(r) == first_of(text_of(a), text_of(b)),
{
    match a {
        Some(s) => Some(s),
        None => b,
    }
}

impl ApiConfig {
    /// Builds the configuration from what the environment holds: the values
    /// of `ALPACA_API_KEY`, `APCA_API_KEY_ID`, `ALPACA_SECRET_KEY`,
    /// `APCA_API_SECRET_KEY` and `ALPACA_PAPER`, each `None` where the
    /// variable is not set.
    pub fn from_vars(
        key: Option<String>,
        key_alt: Option<String>,
        secret: Option<String>,
        secret_alt: Option<String>,
        paper: Option<String>,
    ) -> (r: Result<ApiConfig, ApiConfigError>)
        ensures
            match r {
                Ok(c) => api_config_of(
                    text_of(key),
                    text_of(key_alt),
                    text_of(secret),
                    text_of(secret_alt),
                    text_of(paper),
                ) == Ok::<ApiConfigView, ApiConfigError>(c@),
                Err(e) => api_config_of(
                    text_of(key),
                    text_of(key_alt),
                    text_of(secret),
                    text_of(secret_alt),
                    text_of(paper),
                ) == Err::<ApiConfigView, ApiConfigError>(e),
            },
    {
        let api_key = match pick(key, key_alt) {
            Some(k) => k,
            None => {
                return Err(ApiConfigError::MissingApiKey);
            },
        };
        let secret_key = match pick(secret, secret_alt) {
            Some(s) => s,
            None => {
                return Err(ApiConfigError::MissingSecretKey);
            },
        };
        let is_paper = match paper {
            Some(p) => {
                let off = "false".to_owned();
                !(p == off)
            },
            None => true,
        };
        let base_url = if is_paper {
            "https://paper-api.alpaca.markets".to_owned()
        } else {
            "https://api.alpaca.markets".to_owned()
        };
        Ok(ApiConfig { base_url, api_key, secret_key, paper: is_paper })
    }
}

/// The credentials of one strategy, for the paper-trading service.
#[derive(Debug, PartialEq, Eq)]
pub struct Credentials {
    pub base_url: String,
    pub key_id: String,
    pub secret_key: String,
}

/// What a [`Credentials`] holds, with its text as sequences of characters.
pub struct CredentialsView {
    pub base_url: Seq<char>,
    pub key_id: Seq<char>,
    pub secret_key: Seq<char>,
}

impl View for Credentials {
    type V = CredentialsView;

    open spec fn view(&self) -> CredentialsView {
        CredentialsView { base_url: self.base_url@, key_id: self.key_id@, secret_key: self.secret_key@ }
    }
}

/// The environment variable that a strategy's credentials need and that is
/// not set.
#[derive(Debug, PartialEq, Eq)]
pub struct MissingCredential {
    pub variable: String,
}

/// The credentials of the strategy `config`, or the variable that is
/// missing: the key's before the secret's.
pub open spec fn credentials_of(
    config: crate::config::StrategyConfigView,
    key_id: Option<Seq<char>>,
    secret: Option<Seq<char>>,
) -> Result<CredentialsView, Seq<char>> {
    if key_id is None {
        Err(config.key_id_var)
    } else if secret is None {
        Err(config.secret_key_var)
    } else {
        Ok(CredentialsView { base_url: paper_url(), key_id: key_id.unwrap(), secret_key: secret.unwrap() })
    }
}

/// Builds the credentials of a strategy from the values of the two
/// variables that its configuration names, each `None` where the variable
/// is not set.
pub fn strategy_credentials(config: &StrategyConfig, key_id: Option<String>, secret: Option<String>) -> (r:
    Result<Credentials, MissingCredential>)
    ensures
        match r {
            Ok(c) => credentials_of(config@, text_of(key_id), text_of(secret)) == Ok::<
                CredentialsView,
                Seq<char>,
            >(c@),
            Err(e) => credentials_of(config@, text_of(key_id), text_of(secret)) == Err::<
                CredentialsView,
                Seq<char>,
            >(e.variable@),
        },
{
    let key_id = match key_id {
        Some(k) => k,
        None => {
            return Err(MissingCredential { variable: config.key_id_var.clone() });
        },
    };
    let secret_key = match secret {
        Some(s) => s,
        None => {
            return Err(MissingCredential { variable: config.secret_key_var.clone() });
        },
    };
    Ok(Credentials { base_url: "https://paper-api.alpaca.markets".to_owned(), key_id, secret_key })
}

/// An account as the brokerage reports it: the amounts are text.
#[derive(Debug, PartialEq, Eq)]
pub struct AccountInfo {
    pub id: String,
    pub account_number: String,
    pub status: String,
    pub currency: String,
    pub buying_power: String,
    pub cash: String,
    pub portfolio_value: String,
    pub equity: String,
    pub last_equity: String,
    pub multiplier: String,
    pub daytrade_count: i32,
}

/// A position as the brokerage reports it: the amounts are text.
#[derive(Debug, PartialEq, Eq)]
pub struct PositionInfo {
    pub symbol: String,
    pub qty: String,
    pub market_value: String,
    pub unrealized_pl: String,
    pub unrealized_plpc: String,
}

} // verus!

//! The settings that the engine is started with.

use vstd::prelude::*;
use vstd::string::*;

verus! {

/// One tracked strategy: its name, the names of the environment variables
/// that hold its credentials, and the pattern of its log files.
#[derive(Debug, PartialEq, Eq)]
pub struct StrategyConfig {
    pub name: String,
    pub key_id_var: String,
    pub secret_key_var: String,
    pub log_glob: String,
}

/// What a [`StrategyConfig`] holds, with its text as sequences of characters.
pub struct StrategyConfigView {
    pub name: Seq<char>,
    pub key_id_var: Seq<char>,
    pub secret_key_var: Seq<char>,
    pub log_glob: Seq<char>,
}

impl View for StrategyConfig {
    type V = StrategyConfigView;

    open spec fn view(&self) -> StrategyConfigView {
        StrategyConfigView {
            name: self.name@,
            key_id_var: self.key_id_var@,
            secret_key_var: self.secret_key_var@,
            log_glob: self.log_glob@,
        }
    }
}

impl Clone for StrategyConfig {
    fn clone(&self) -> (r: Self)
        ensures
            r == *self,
    {
        StrategyConfig {
            name: self.name.clone(),
            key_id_var: self.key_id_var.clone(),
            secret_key_var: self.secret_key_var.clone(),
            log_glob: self.log_glob.clone(),
        }
    }
}

/// How the brokerage is polled.
#[derive(Clone, Copy, Debug, PartialEq, Eq, Structural)]
pub struct ApiSettings {
    pub poll_interval_ms: u64,
    pub timeout_ms: u64,
    /// How often a fetch that failed for a passing cause is tried again.
    pub retry_attempts: u32,
}

/// How the dashboard starts.
#[derive(Debug, PartialEq, Eq)]
pub struct UiSettings {
    pub default_tab: String,
    pub chart_points: usize,
    pub theme: String,
}

/// What a [`UiSettings`] holds, with its text as sequences of characters.
pub struct UiSettingsView {
    pub default_tab: Seq<char>,
    pub chart_points: usize,
    pub theme: Seq<char>,
}

impl View for UiSettings {
    type V = UiSettingsView;

    open spec fn view(&self) -> UiSettingsView {
        UiSettingsView {
            default_tab: self.default_tab@,
            chart_points: self.chart_points,
            theme: self.theme@,
        }
    }
}

impl Clone for UiSettings {
    fn clone(&self) -> (r: Self)
        ensures
            r == *self,
    {
        UiSettings {
            default_tab: self.default_tab.clone(),
            chart_points: self.chart_points,
            theme: self.theme.clone(),
        }
    }
}

/// When alerts are raised.
#[derive(Clone, Copy, Debug, PartialEq, Eq, Structural)]
pub struct AlertSettings {
    /// Warn when this many day trades are used.
    pub pdt_warning_threshold: u32,
    /// Alert when the portfolio is this far below its peak, in millionths
    /// of a percent.
    pub drawdown_alert_percent: i64,
    pub enable_sound: bool,
}

/// How much the engine remembers.
#[derive(Clone, Copy, Debug, PartialEq, Eq, Structural)]
pub struct EngineSettings {
    /// The most trades kept in a strategy's history.
    pub trade_history_cap: usize,
    /// The most alerts kept in the buffer of recent alerts.
    pub alert_buffer_cap: usize,
}

/// All settings.
#[derive(Debug, PartialEq, Eq)]
pub struct AppConfig {
    pub refresh_interval_ms: u64,
    pub strategies: Vec<StrategyConfig>,
    pub api: ApiSettings,
    pub ui: UiSettings,
    pub alerts: AlertSettings,
    pub engine: EngineSettings,
}

/// What an [`AppConfig`] holds, as mathematical values.
pub struct AppConfigView {
    pub refresh_interval_ms: u64,
    pub strategies: Seq<StrategyConfigView>,
    pub api: ApiSettings,
    pub ui: UiSettingsView,
    pub alerts: AlertSettings,
    pub engine: EngineSettings,
}

/// The views of a sequence of strategies.
pub open spec fn strategy_views(s: Seq<StrategyConfig>) -> Seq<StrategyConfigView> {
    s.map_values(|c: StrategyConfig| c@)
}

impl View for AppConfig {
    type V = AppConfigView;

    open spec fn view(&self) -> AppConfigView {
        AppConfigView {
            refresh_interval_ms: self.refresh_interval_ms,
            strategies: strategy_views(self.strategies@),
            api: self.api,
            ui: self.ui@,
            alerts: self.alerts,
            engine: self.engine,
        }
    }
}

/// The settings used where no configuration file is found: three
/// strategies, a refresh every second, a poll every two seconds with a
/// timeout of ten and three retries, a warning at two day trades and an
/// alert at a drawdown of three percent.
pub open spec fn default_config() -> AppConfigView {
    AppConfigView {
        refresh_interval_ms: 1000,
        strategies: seq![
            StrategyConfigView {
                name: "Alpha"@,
                key_id_var: "ALPHA_API_KEY_ID"@,
                secret_key_var: "ALPHA_API_SECRET_KEY"@,
                log_glob: "../pacabot/logs/tournament_alpha_*.log"@,
            },
            StrategyConfigView {
                name: "Beta"@,
                key_id_var: "BETA_API_KEY_ID"@,
                secret_key_var: "BETA_API_SECRET_KEY"@,
                log_glob: "../pacabot/logs/tournament_beta_*.log"@,
            },
            StrategyConfigView {
                name: "PDT-Safe"@,
                key_id_var: "APCA_API_KEY_ID"@,
                secret_key_var: "APCA_API_SECRET_KEY"@,
                log_glob: "../pacabot/logs/pdt_safe_*.log"@,
            },
        ],
        api: ApiSettings { poll_interval_ms: 2000, timeout_ms: 10000, retry_attempts: 3 },
        ui: UiSettingsView { default_tab: "Alpha"@, chart_points: 100, theme: "default"@ },
        alerts: AlertSettings {
            pdt_warning_threshold: 2,
            drawdown_alert_percent: 3_000_000,
            enable_sound: false,
        },
        engine: EngineSettings { trade_history_cap: 100, alert_buffer_cap: 50 },
    }
}

impl Default for AppConfig {
    fn default() -> (r: Self)
        ensures
            r@ == default_config(),
    {
        let mut strategies: Vec<StrategyConfig> = Vec::new();
        strategies.push(
            StrategyConfig {
                name: "Alpha".to_owned(),
                key_id_var: "ALPHA_API_KEY_ID".to_owned(),
                secret_key_var: "ALPHA_API_SECRET_KEY".to_owned(),
                log_glob: "../pacabot/logs/tournament_alpha_*.log".to_owned(),
            },
        );
        strategies.push(
            StrategyConfig {
                name: "Beta".to_owned(),
                key_id_var: "BETA_API_KEY_ID".to_owned(),
                secret_key_var: "BETA_API_SECRET_KEY".to_owned(),
                log_glob: "../pacabot/logs/tournament_beta_*.log".to_owned(),
            },
        );
        strategies.push(
            StrategyConfig {
                name: "PDT-Safe".to_owned(),
                key_id_var: "APCA_API_KEY_ID".to_owned(),
                secret_key_var: "APCA_API_SECRET_KEY".to_owned(),
                log_glob: "../pacabot/logs/pdt_safe_*.log".to_owned(),
            },
        );
        let r = AppConfig {
            refresh_interval_ms: 1000,
            strategies,
            api: ApiSettings { poll_interval_ms: 2000, timeout_ms: 10000, retry_attempts: 3 },
            ui: UiSettings {
                default_tab: "Alpha".to_owned(),
                chart_points: 100,
                theme: "default".to_owned(),
            },
            alerts: AlertSettings {
                pdt_warning_threshold: 2,
                drawdown_alert_percent: 3_000_000,
                enable_sound: false,
            },
            engine: EngineSettings { trade_history_cap: 100, alert_buffer_cap: 50 },
        };
        assert(r@.strategies =~= default_config().strategies);
        r
    }
}

} // verus!

//! The configuration file, and what it makes the server start.

use crate::protocol::fallback::FallbackConfig;
use crate::protocol::http_head;
use crate::protocol::tls::acceptor::TrojanTlsAcceptorConfig;
use crate::protocol::trojan::acceptor::TrojanAcceptorConfig;
use crate::protocol::vless::acceptor::VlessAcceptorConfig;
use crate::protocol::websocket::acceptor::WebSocketAcceptorConfig;
use crate::text::{joined, str_eq};
use vstd::prelude::*;
use vstd::string::*;

verus! {

/// What every configuration file says.
pub struct GlobalConfig {
    pub mode: String,
    pub log_level: Option<String>,
}

/// What the configuration file of a server says. `mux` tells whether there is a `[mux]` table.
pub struct ServerConfig {
    pub trojan: Option<TrojanAcceptorConfig>,
    pub vless: Option<VlessAcceptorConfig>,
    pub tls: TrojanTlsAcceptorConfig,
    pub fallback: Option<FallbackConfig>,
    pub websocket: Option<WebSocketAcceptorConfig>,
    pub mux: bool,
}

/// How much is logged.
#[derive(Clone, Copy, Debug, PartialEq, Eq, Structural)]
pub enum LogLevel {
    Trace,
    Debug,
    Info,
    Warn,
    Error,
}

/// Why a server does not start.
#[derive(Debug)]
pub enum LaunchError {
    InvalidLogLevel,
    InvalidMode(String),
    VlessMux,
    VlessWithoutWebSocket,
    BothProtocols,
    NoProtocol,
}

/// The mathematical content of a `LaunchError`.
pub enum LaunchErrorView {
    InvalidLogLevel,
    InvalidMode(Seq<char>),
    VlessMux,
    VlessWithoutWebSocket,
    BothProtocols,
    NoProtocol,
}

impl View for LaunchError {
    type V = LaunchErrorView;

    open spec fn view(&self) -> LaunchErrorView {
        match *self {
            LaunchError::InvalidLogLevel => LaunchErrorView::InvalidLogLevel,
            LaunchError::InvalidMode(mode) => LaunchErrorView::InvalidMode(mode@),
            LaunchError::VlessMux => LaunchErrorView::VlessMux,
            LaunchError::VlessWithoutWebSocket => LaunchErrorView::VlessWithoutWebSocket,
            LaunchError::BothProtocols => LaunchErrorView::BothProtocols,
            LaunchError::NoProtocol => LaunchErrorView::NoProtocol,
        }
    }
}

impl LaunchErrorView {
    /// The words of the error.
    pub open spec fn text(self) -> Seq<char> {
        match self {
            LaunchErrorView::InvalidLogLevel => "invalid log_level"@,
            LaunchErrorView::InvalidMode(mode) => "invalid mode: "@ + mode,
            LaunchErrorView::VlessMux => "VLESS does not support trojan-go mux"@,
            LaunchErrorView::VlessWithoutWebSocket => "VLESS server requires [websocket]"@,
            LaunchErrorView::BothProtocols => "configure either [trojan] or [vless], not both"@,
            LaunchErrorView::NoProtocol => "server requires [trojan] or [vless]"@,
        }
    }
}

impl LaunchError {
    /// The words of the error.
    pub fn message(&self) -> (r: String)
        ensures
            r@ == self@.text(),
    {
        match self {
            LaunchError::InvalidLogLevel => "invalid log_level".to_string(),
            LaunchError::InvalidMode(mode) => joined("invalid mode: ".to_string(), mode),
            LaunchError::VlessMux => "VLESS does not support trojan-go mux".to_string(),
            LaunchError::VlessWithoutWebSocket => "VLESS server requires [websocket]".to_string(),
            LaunchError::BothProtocols => {
                "configure either [trojan] or [vless], not both".to_string()
            },
            LaunchError::NoProtocol => "server requires [trojan] or [vless]".to_string(),
        }
    }
}

/// The level that a text names; debug where there is none.
pub open spec fn level_of(name: Option<Seq<char>>) -> Option<LogLevel> {
    match name {
        None => Some(LogLevel::Debug),
        Some(n) => if n == "trace"@ {
            Some(LogLevel::Trace)
        } else if n == "debug"@ {
            Some(LogLevel::Debug)
        } else if n == "info"@ {
            Some(LogLevel::Info)
        } else if n == "warn"@ {
            Some(LogLevel::Warn)
        } else if n == "error"@ {
            Some(LogLevel::Error)
        } else {
            None
        },
    }
}

/// Why a mode is refused; the server mode is not.
pub open spec fn mode_error(mode: Seq<char>) -> Option<LaunchErrorView> {
    if mode == "server"@ {
        None
    } else {
        Some(LaunchErrorView::InvalidMode(mode))
    }
}

impl GlobalConfig {
    /// How much is logged.
    pub fn level(&self) -> (r: Result<LogLevel, LaunchError>)
        ensures
            match r {
                Ok(level) => level_of(http_head::text_view(self.log_level)) == Some(level),
                Err(error) => level_of(http_head::text_view(self.log_level)) is None && error@
                    == LaunchErrorView::InvalidLogLevel,
            },
    {
        let name = match &self.log_level {
            Some(name) => name,
            None => return Ok(LogLevel::Debug),
        };
        if str_eq(name, "trace") {
            Ok(LogLevel::Trace)
        } else if str_eq(name, "debug") {
            Ok(LogLevel::Debug)
        } else if str_eq(name, "info") {
            Ok(LogLevel::Info)
        } else if str_eq(name, "warn") {
            Ok(LogLevel::Warn)
        } else if str_eq(name, "error") {
            Ok(LogLevel::Error)
        } else {
            Err(LaunchError::InvalidLogLevel)
        }
    }

    /// Accepts the server mode only.
    pub fn check_mode(&self) -> (r: Result<(), LaunchError>)
        ensures
            match r {
                Ok(()) => mode_error(self.mode@) is None,
                Err(error) => mode_error(self.mode@) == Some(error@),
            },
    {
        if str_eq(&self.mode, "server") {
            Ok(())
        } else {
            Err(LaunchError::InvalidMode(self.mode.clone()))
        }
    }
}

/// The acceptors that a server stacks on top of TLS, from the inside out.
#[derive(Clone, Copy, Debug, PartialEq, Eq, Structural)]
pub enum LaunchPlan {
    /// Trojan, perhaps over WebSocket (which also lets plain Trojan through), perhaps with
    /// trojan-go multiplexing on top.
    Trojan { websocket: bool, mux: bool },
    /// VLESS over WebSocket only, perhaps with sing-box multiplexing on top.
    Vless { sing_box_mux: bool },
}

/// What a configuration makes the server start.
pub open spec fn plan_of(c: ServerConfig) -> Result<LaunchPlan, LaunchErrorView> {
    match (c.trojan, c.vless) {
        (Some(_), None) => Ok(
            LaunchPlan::Trojan { websocket: c.websocket is Some, mux: c.mux },
        ),
        (None, Some(vless)) => if c.mux {
            Err(LaunchErrorView::VlessMux)
        } else if c.websocket is None {
            Err(LaunchErrorView::VlessWithoutWebSocket)
        } else {
            Ok(
                LaunchPlan::Vless {
                    sing_box_mux: match vless.multiplex {
                        Some(multiplex) => multiplex.enabled,
                        None => true,
                    },
                },
            )
        },
        (Some(_), Some(_)) => Err(LaunchErrorView::BothProtocols),
        (None, None) => Err(LaunchErrorView::NoProtocol),
    }
}

impl ServerConfig {
    /// What the configuration makes the server start.
    pub fn plan(&self) -> (r: Result<LaunchPlan, LaunchError>)
        ensures
            match r {
                Ok(plan) => plan_of(*self) == Ok::<_, LaunchErrorView>(plan),
                Err(error) => plan_of(*self) == Err::<LaunchPlan, _>(error@),
            },
    {
        match (&self.trojan, &self.vless) {
            (Some(_), None) => Ok(
                LaunchPlan::Trojan { websocket: self.websocket.is_some(), mux: self.mux },
            ),
            (None, Some(vless)) => {
                if self.mux {
                    return Err(LaunchError::VlessMux);
                }
                if self.websocket.is_none() {
                    return Err(LaunchError::VlessWithoutWebSocket);
                }
                Ok(LaunchPlan::Vless { sing_box_mux: vless.sing_box_mux_enabled() })
            },
            (Some(_), Some(_)) => Err(LaunchError::BothProtocols),
            (None, None) => Err(LaunchError::NoProtocol),
        }
    }
}

/// The levels by their names, in lower case; no other text is a level, and without one it is debug.
pub proof fn lemma_level_names(name: Seq<char>)
    ensures
        level_of(None) == Some(LogLevel::Debug),
        level_of(Some(name)) == Some(LogLevel::Trace) <==> name == "trace"@,
        level_of(Some(name)) == Some(LogLevel::Debug) <==> name == "debug"@,
        level_of(Some(name)) == Some(LogLevel::Info) <==> name == "info"@,
        level_of(Some(name)) == Some(LogLevel::Warn) <==> name == "warn"@,
        level_of(Some(name)) == Some(LogLevel::Error) <==> name == "error"@,
{
    reveal_strlit("trace");
    reveal_strlit("debug");
    reveal_strlit("info");
    reveal_strlit("warn");
    reveal_strlit("error");
    assert("trace"@[0] == 't');
    assert("debug"@[0] == 'd');
    assert("info"@[0] == 'i');
    assert("warn"@[0] == 'w');
    assert("error"@[0] == 'e');
}

/// A server speaks exactly one of the two protocols. Trojan takes WebSocket and multiplexing as they
/// are configured; VLESS needs the one and refuses the other, and serves sing-box multiplexing
/// unless that is switched off.
pub proof fn lemma_one_protocol_is_served(c: ServerConfig)
    ensures
        ({
            let plan = plan_of(c);
            let only_trojan = c.trojan is Some && c.vless is None;
            let only_vless = c.trojan is None && c.vless is Some;
            &&& plan matches Ok(LaunchPlan::Trojan { websocket, mux }) ==> only_trojan && (websocket
                <==> c.websocket is Some) && (mux <==> c.mux)
            &&& only_trojan ==> plan is Ok && plan->Ok_0 is Trojan
            &&& plan matches Ok(LaunchPlan::Vless { sing_box_mux }) ==> only_vless && c.websocket
                is Some && !c.mux && (!sing_box_mux <==> c.vless->0.multiplex is Some
                && !c.vless->0.multiplex->0.enabled)
            &&& only_vless && c.websocket is Some && !c.mux ==> plan is Ok && plan->Ok_0 is Vless
            &&& only_vless && c.mux ==> plan == Err::<LaunchPlan, _>(LaunchErrorView::VlessMux)
            &&& only_vless && !c.mux && c.websocket is None ==> plan == Err::<LaunchPlan, _>(
                LaunchErrorView::VlessWithoutWebSocket,
            )
            &&& c.trojan is Some && c.vless is Some <==> plan == Err::<LaunchPlan, _>(
                LaunchErrorView::BothProtocols,
            )
            &&& c.trojan is None && c.vless is None <==> plan == Err::<LaunchPlan, _>(
                LaunchErrorView::NoProtocol,
            )
        }),
{
}

/// The only mode is `server`, and any other is named in the error.
pub proof fn lemma_only_servers_start(mode: Seq<char>)
    ensures
        mode_error(mode) is None <==> mode == "server"@,
        mode != "server"@ ==> (mode_error(mode) matches Some(LaunchErrorView::InvalidMode(m)) && m
            == mode),
{
}

} // verus!

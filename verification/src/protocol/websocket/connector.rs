//! Outgoing WebSocket connections: their configuration.

use super::{WebSocketError, WebSocketLimits, WebSocketOptions, DEFAULT_HANDSHAKE_TIMEOUT_SECS};
use crate::text::joined;
use http::Uri;
use vstd::prelude::*;
use vstd::string::*;

verus! {

/// The `[websocket]` table of a client.
pub struct WebSocketConnectorConfig {
    pub uri: String,
    pub handshake_timeout_secs: u64,
    pub options: WebSocketOptions,
}

impl WebSocketConnectorConfig {
    /// A configuration with defaults for all but the URI.
    pub fn new(uri: String) -> (r: Self)
        ensures
            r.uri == uri,
            r.handshake_timeout_secs == DEFAULT_HANDSHAKE_TIMEOUT_SECS,
            r.options == (WebSocketOptions {
                read_buffer_size: super::DEFAULT_BUFFER_SIZE,
                write_buffer_size: super::DEFAULT_BUFFER_SIZE,
                max_message_size: super::DEFAULT_MAX_MESSAGE_SIZE,
                max_frame_size: super::DEFAULT_MAX_MESSAGE_SIZE,
                max_write_buffer_size: super::DEFAULT_MAX_WRITE_BUFFER_SIZE,
                max_write_frame_size: 0,
                keepalive_interval_secs: super::DEFAULT_KEEPALIVE_INTERVAL_SECS,
            }),
    {
        WebSocketConnectorConfig {
            uri,
            handshake_timeout_secs: DEFAULT_HANDSHAKE_TIMEOUT_SECS,
            options: WebSocketOptions::default(),
        }
    }

    /// Whether the configuration can be used, and else what is wrong: the timeout first.
    pub fn validate(&self) -> (r: Result<(), WebSocketError>)
        ensures
            match r {
                Ok(()) => self.handshake_timeout_secs != 0 && self.options.valid(),
                Err(error) => if self.handshake_timeout_secs == 0 {
                    error == WebSocketError::HandshakeTimeout
                } else {
                    !self.options.valid() && error == WebSocketError::ResourceLimits
                },
            },
    {
        if self.handshake_timeout_secs == 0 {
            return Err(WebSocketError::HandshakeTimeout);
        }
        self.options.validate()
    }

    /// Whether the configuration can be used, given what is wrong with its URI, if anything is.
    pub fn check(&self, uri_problem: Option<String>) -> (r: Result<(), ConnectorError>)
        ensures
            ({
                let problem = match uri_problem {
                    Some(reason) => Some(reason@),
                    None => None,
                };
                match r {
                    Ok(()) => connector_problem(*self, problem) is None,
                    Err(error) => connector_problem(*self, problem) == Some(error@),
                }
            }),
    {
        match self.validate() {
            Ok(()) => match uri_problem {
                Some(reason) => Err(ConnectorError::Uri(reason)),
                None => Ok(()),
            },
            Err(error) => Err(ConnectorError::Config(error)),
        }
    }
}

/// Why a client configuration is refused.
#[derive(Debug)]
pub enum ConnectorError {
    Config(WebSocketError),
    Uri(String),
}

/// The mathematical content of a `ConnectorError`.
pub enum ConnectorErrorView {
    Config(WebSocketError),
    Uri(Seq<char>),
}

impl View for ConnectorError {
    type V = ConnectorErrorView;

    open spec fn view(&self) -> ConnectorErrorView {
        match *self {
            ConnectorError::Config(error) => ConnectorErrorView::Config(error),
            ConnectorError::Uri(reason) => ConnectorErrorView::Uri(reason@),
        }
    }
}

impl ConnectorErrorView {
    /// The words of the error.
    pub open spec fn text(self) -> Seq<char> {
        match self {
            ConnectorErrorView::Config(error) => error.text(),
            ConnectorErrorView::Uri(reason) => "websocket: "@ + reason,
        }
    }
}

impl ConnectorError {
    /// The words of the error.
    pub fn message(&self) -> (r: String)
        ensures
            r@ == self@.text(),
    {
        match self {
            ConnectorError::Config(error) => error.message(),
            ConnectorError::Uri(reason) => joined("websocket: ".to_string(), reason),
        }
    }
}

/// What is wrong with a configuration whose URI has `uri_problem`: the timeout, then the limits,
/// then the URI.
pub open spec fn connector_problem(
    c: WebSocketConnectorConfig,
    uri_problem: Option<Seq<char>>,
) -> Option<ConnectorErrorView> {
    if c.handshake_timeout_secs == 0 {
        Some(ConnectorErrorView::Config(WebSocketError::HandshakeTimeout))
    } else if !c.options.valid() {
        Some(ConnectorErrorView::Config(WebSocketError::ResourceLimits))
    } else {
        match uri_problem {
            Some(reason) => Some(ConnectorErrorView::Uri(reason)),
            None => None,
        }
    }
}

/// The words of the error with which `http::Uri` refuses a text; none for a text that it accepts.
pub uninterp spec fn uri_error(text: Seq<char>) -> Option<Seq<char>>;

/// `http::Uri::from_str`: whether it accepts a text, and the words of its error, are a function of
/// the text. Which texts it accepts is left unsaid.
#[verifier::external_body]
fn uri_problem(text: &str) -> (r: Option<String>)
    ensures
        match r {
            Some(reason) => uri_error(text@) == Some(reason@),
            None => uri_error(text@) is None,
        },
{
    match text.parse::<Uri>() {
        Ok(_) => None,
        Err(error) => Some(error.to_string()),
    }
}

/// What opens WebSocket connections on top of `inner`.
pub struct WebSocketConnector<T> {
    pub uri: String,
    pub handshake_timeout_secs: u64,
    pub websocket_config: WebSocketLimits,
    pub inner: T,
}

impl<T> WebSocketConnector<T> {
    /// A connector to the URI of a configuration.
    pub fn new(config: &WebSocketConnectorConfig, inner: T) -> (r: Result<Self, ConnectorError>)
        ensures
            match r {
                Ok(connector) => {
                    &&& connector_problem(*config, uri_error(config.uri@)) is None
                    &&& connector.uri == config.uri
                    &&& connector.handshake_timeout_secs == config.handshake_timeout_secs
                    &&& connector.websocket_config == (WebSocketLimits {
                        read_buffer_size: config.options.read_buffer_size,
                        write_buffer_size: config.options.write_buffer_size,
                        max_write_buffer_size: config.options.max_write_buffer_size,
                        max_message_size: Some(config.options.max_message_size),
                        max_frame_size: Some(config.options.max_frame_size),
                    })
                    &&& connector.inner == inner
                },
                Err(error) => connector_problem(*config, uri_error(config.uri@)) == Some(error@),
            },
    {
        match config.check(uri_problem(&config.uri)) {
            Ok(()) => Ok(
                WebSocketConnector {
                    uri: config.uri.clone(),
                    handshake_timeout_secs: config.handshake_timeout_secs,
                    websocket_config: config.options.tungstenite_config(),
                    inner,
                },
            ),
            Err(error) => Err(error),
        }
    }
}

/// A configuration can be used exactly when it has a timeout, its sizes fit together and its URI is
/// one; what is wrong is told in this order.
pub proof fn lemma_usable_connectors(c: WebSocketConnectorConfig, reason: Seq<char>)
    ensures
        connector_problem(c, None) is None <==> c.handshake_timeout_secs >= 1 && c.options.valid(),
        connector_problem(c, Some(reason)) is Some,
        c.handshake_timeout_secs == 0 ==> connector_problem(c, Some(reason)) == Some(
            ConnectorErrorView::Config(WebSocketError::HandshakeTimeout),
        ) && connector_problem(c, None) == connector_problem(c, Some(reason)),
        c.handshake_timeout_secs >= 1 && !c.options.valid() ==> connector_problem(c, Some(reason))
            == Some(ConnectorErrorView::Config(WebSocketError::ResourceLimits))
            && connector_problem(c, None) == connector_problem(c, Some(reason)),
        c.handshake_timeout_secs >= 1 && c.options.valid() ==> connector_problem(c, Some(reason))
            == Some(ConnectorErrorView::Uri(reason)),
{
}

} // verus!

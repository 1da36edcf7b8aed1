//! Errors of the proxy and the answers that they give.
use vstd::prelude::*;
use vstd::string::*;

verus! {

/// What went wrong, with its cause in words.
#[derive(Debug)]
pub enum HttpProxyError {
    Anyhow(String),
    Io(String),
    Protocol(String),
    Config(String),
    Auth(String),
    Dns(String),
    Timeout(String),
    NotFound(String),
    Precondition(String),
    PayloadTooLarge(String),
}

impl HttpProxyError {
    /// The error in words.
    pub open spec fn text(self) -> Seq<char> {
        match self {
            HttpProxyError::Anyhow(e) => e@,
            HttpProxyError::Io(e) => "I/O error: "@ + e@,
            HttpProxyError::Protocol(m) => "protocol error: "@ + m@,
            HttpProxyError::Config(m) => "config error: "@ + m@,
            HttpProxyError::Auth(m) => "auth error: "@ + m@,
            HttpProxyError::Dns(m) => "dns error: "@ + m@,
            HttpProxyError::Timeout(m) => "timeout: "@ + m@,
            HttpProxyError::NotFound(m) => "not found: "@ + m@,
            HttpProxyError::Precondition(m) => "precondition: "@ + m@,
            HttpProxyError::PayloadTooLarge(m) => "payload too large: "@ + m@,
        }
    }

    /// The error in words.
    pub fn message(&self) -> (r: String)
        ensures
            r@ == self.text(),
    {
        let (label, detail): (&str, &String) = match self {
            HttpProxyError::Anyhow(e) => {
                return e.clone();
            },
            HttpProxyError::Io(e) => ("I/O error: ", e),
            HttpProxyError::Protocol(m) => ("protocol error: ", m),
            HttpProxyError::Config(m) => ("config error: ", m),
            HttpProxyError::Auth(m) => ("auth error: ", m),
            HttpProxyError::Dns(m) => ("dns error: ", m),
            HttpProxyError::Timeout(m) => ("timeout: ", m),
            HttpProxyError::NotFound(m) => ("not found: ", m),
            HttpProxyError::Precondition(m) => ("precondition: ", m),
            HttpProxyError::PayloadTooLarge(m) => ("payload too large: ", m),
        };
        let mut out = String::from_str(label);
        out.append(detail.as_str());
        out
    }

    /// The error of another component that caused this one.
    pub fn source(&self) -> (r: Option<&String>)
        ensures
            r == (match *self {
                HttpProxyError::Anyhow(e) => Some(&e),
                HttpProxyError::Io(e) => Some(&e),
                _ => None,
            }),
    {
        match self {
            HttpProxyError::Anyhow(e) => Some(e),
            HttpProxyError::Io(e) => Some(e),
            _ => None,
        }
    }

    /// An error that was answered to a peer is one of the protocol.
    pub fn from_server_error(e: ServerError) -> (r: Self)
        ensures
            r == HttpProxyError::Protocol(e.1),
    {
        HttpProxyError::Protocol(e.1)
    }
}

/// An HTTP status and the reason that goes with it.
#[derive(Debug, Clone)]
pub struct ServerError(pub u16, pub String);

impl ServerError {
    /// Status and reason are these.
    pub open spec fn says(self, status: u16, reason: Seq<char>) -> bool {
        self.0 == status && self.1@ == reason
    }

    /// The request makes no sense.
    pub fn bad_request(msg: &str) -> (r: Self)
        ensures
            r.says(400, msg@),
    {
        ServerError(400, String::from_str(msg))
    }

    /// The target failed.
    pub fn bad_gateway(msg: &str) -> (r: Self)
        ensures
            r.says(502, msg@),
    {
        ServerError(502, String::from_str(msg))
    }

    /// The target took too long.
    pub fn gateway_timeout(msg: &str) -> (r: Self)
        ensures
            r.says(504, msg@),
    {
        ServerError(504, String::from_str(msg))
    }

    /// The client may not do this.
    pub fn unauthorized(msg: &str) -> (r: Self)
        ensures
            r.says(401, msg@),
    {
        ServerError(401, String::from_str(msg))
    }

    /// There is no such thing.
    pub fn not_found(msg: &str) -> (r: Self)
        ensures
            r.says(404, msg@),
    {
        ServerError(404, String::from_str(msg))
    }

    /// The server failed.
    pub fn internal(msg: &str) -> (r: Self)
        ensures
            r.says(500, msg@),
    {
        ServerError(500, String::from_str(msg))
    }

    /// The request is too large.
    pub fn payload_too_large(msg: &str) -> (r: Self)
        ensures
            r.says(413, msg@),
    {
        ServerError(413, String::from_str(msg))
    }

    /// The client must shake hands first.
    pub fn precondition_required(msg: &str) -> (r: Self)
        ensures
            r.says(428, msg@),
    {
        ServerError(428, String::from_str(msg))
    }

    /// The server is too busy.
    pub fn service_unavailable(msg: &str) -> (r: Self)
        ensures
            r.says(503, msg@),
    {
        ServerError(503, String::from_str(msg))
    }
}

} // verus!

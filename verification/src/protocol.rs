//! The messages between the host and a plugin.
use vstd::prelude::*;

use crate::framing::{debug_form, debug_text};
use crate::text::{cat4, cat5, decimal_int, number_int};
use crate::wire::LogParams;

verus! {

/// The version of JSON-RPC that messages name.
pub const JSONRPC_VERSION: &'static str = "2.0";

/// What a code in an error reply means.
#[derive(Debug, Clone, Copy, PartialEq, Eq, Structural)]
pub enum ErrorCode {
    ParseError,
    InvalidRequest,
    MethodNotFound,
    InvalidParams,
    InternalError,
    InstallFailed,
    ToolchainUnparseable,
    PluginIo,
    PluginInternal,
}

impl ErrorCode {
    /// The code.
    pub open spec fn code(self) -> int {
        match self {
            ErrorCode::ParseError => -32700,
            ErrorCode::InvalidRequest => -32600,
            ErrorCode::MethodNotFound => -32601,
            ErrorCode::InvalidParams => -32602,
            ErrorCode::InternalError => -32603,
            ErrorCode::InstallFailed => 2001,
            ErrorCode::ToolchainUnparseable => 2002,
            ErrorCode::PluginIo => 2003,
            ErrorCode::PluginInternal => 2099,
        }
    }

    /// The code.
    pub fn to_i32(self) -> (r: i32)
        ensures
            r == self.code(),
    {
        match self {
            ErrorCode::ParseError => -32700,
            ErrorCode::InvalidRequest => -32600,
            ErrorCode::MethodNotFound => -32601,
            ErrorCode::InvalidParams => -32602,
            ErrorCode::InternalError => -32603,
            ErrorCode::InstallFailed => 2001,
            ErrorCode::ToolchainUnparseable => 2002,
            ErrorCode::PluginIo => 2003,
            ErrorCode::PluginInternal => 2099,
        }
    }

    /// What a code means; nothing where it is none of those above.
    pub fn from_i32(code: i32) -> (r: Option<ErrorCode>)
        ensures
            match r {
                Some(c) => c.code() == code,
                None => forall|c: ErrorCode| #[trigger] c.code() != code,
            },
    {
        if code == -32700 {
            Some(ErrorCode::ParseError)
        } else if code == -32600 {
            Some(ErrorCode::InvalidRequest)
        } else if code == -32601 {
            Some(ErrorCode::MethodNotFound)
        } else if code == -32602 {
            Some(ErrorCode::InvalidParams)
        } else if code == -32603 {
            Some(ErrorCode::InternalError)
        } else if code == 2001 {
            Some(ErrorCode::InstallFailed)
        } else if code == 2002 {
            Some(ErrorCode::ToolchainUnparseable)
        } else if code == 2003 {
            Some(ErrorCode::PluginIo)
        } else if code == 2099 {
            Some(ErrorCode::PluginInternal)
        } else {
            None
        }
    }
}

/// No two meanings share a code, so that a code gives back the meaning that it was made of.
pub proof fn law_codes_distinct(a: ErrorCode, b: ErrorCode)
    ensures
        a.code() == b.code() ==> a == b,
{
}

/// An error reply.
#[derive(Debug)]
pub struct RpcError {
    pub code: i32,
    pub message: String,
}

impl RpcError {
    /// What the error says.
    pub fn text(&self) -> (r: String)
        ensures
            r@ == "rpc error "@ + decimal_int(self.code as int) + ": "@ + self.message@,
    {
        let n = number_int(self.code as i64);
        cat4("rpc error ", n.as_str(), ": ", self.message.as_str())
    }
}

/// The reply to a request. What it holds where it is no error is passed on unread.
#[derive(Debug)]
pub struct Response {
    pub id: u64,
    pub error: Option<RpcError>,
}

/// The payload of a notification.
#[derive(Debug)]
pub enum Payload {
    /// There is none.
    Absent,
    /// It is a log entry.
    Log(LogParams),
    /// It is no log entry; why.
    Other(String),
}

/// A message that asks for no reply.
#[derive(Debug)]
pub struct Notification {
    pub method: String,
    pub payload: Payload,
}

/// A message from a plugin.
#[derive(Debug)]
pub enum Inbound {
    Response(Response),
    Notification(Notification),
}

/// What is said of an error reply.
pub open spec fn plugin_error_text(adapter: Seq<char>, method: Seq<char>, err: RpcError) -> Seq<char> {
    "plugin "@ + adapter + " returned error for "@ + method + ": code="@ + decimal_int(err.code as int)
        + " msg="@ + debug_form(err.message@)
}

/// What is said of an error reply.
pub fn plugin_error(adapter: &str, method: &str, err: &RpcError) -> (r: String)
    ensures
        r@ == plugin_error_text(adapter@, method@, *err),
{
    let code = number_int(err.code as i64);
    let msg = debug_text(err.message.as_str());
    let head = cat5("plugin ", adapter, " returned error for ", method, ": code=");
    cat4(head.as_str(), code.as_str(), " msg=", msg.as_str())
}

} // verus!

//! Responses of the API.

use crate::error::ToolError;
use crate::json::{compact_text, indented_json, indented_text, json_text, parse_value, parsed_json};
use serde_json::Value;
use vstd::prelude::*;

verus! {

/// The status of a response: its code, and the code with its reason as text.
#[derive(Debug)]
pub struct HttpStatus {
    pub code: u16,
    pub text: String,
}

impl HttpStatus {
    /// Whether the status is a success.
    pub open spec fn success(self) -> bool {
        200 <= self.code < 300
    }

    /// Whether the status is a success.
    pub fn is_success(&self) -> (success: bool)
        ensures
            success == self.success(),
            success <==> self.code / 100 == 2,
    {
        200 <= self.code && self.code < 300
    }
}

/// The codes of success are those of the third hundred.
pub proof fn law_success(status: HttpStatus)
    ensures
        status.success() <==> status.code / 100 == 2,
{
}

/// What a response comes to, given its status, its body and the value that the
/// body was parsed to.
pub fn judge_response(
    status: HttpStatus,
    body: String,
    parsed: Result<Value, serde_json::Error>,
) -> (value: Result<Value, ToolError>)
    ensures
        match parsed {
            Err(cause) => value == Err::<Value, ToolError>(ToolError::NotJson { body, cause }),
            Ok(v) => if status.success() {
                value == Ok::<Value, ToolError>(v)
            } else {
                &&& value matches Err(ToolError::RequestFailed { status: s, response })
                &&& s == status.text
                &&& response@ == json_text(v)
            },
        },
{
    match parsed {
        Err(cause) => Err(ToolError::NotJson { body, cause }),
        Ok(v) => {
            if !status.is_success() {
                Err(ToolError::RequestFailed { status: status.text, response: compact_text(&v) })
            } else {
                Ok(v)
            }
        },
    }
}

/// Reads a response: a body that is not JSON is an error whatever the status,
/// and so is a status that is no success.
pub fn read_response(status: HttpStatus, body: String) -> (value: Result<Value, ToolError>)
    ensures
        match parsed_json(body@) {
            Err(cause) => value == Err::<Value, ToolError>(ToolError::NotJson { body, cause }),
            Ok(text) => if status.success() {
                value matches Ok(v) && json_text(v) == text
            } else {
                &&& value matches Err(ToolError::RequestFailed { status: s, response })
                &&& s == status.text
                &&& response@ == text
            },
        },
{
    let parsed = parse_value(body.as_str());
    judge_response(status, body, parsed)
}

/// A JSON value as it is printed.
pub fn pretty_json(value: &Value) -> (text: Result<String, ToolError>)
    ensures
        text matches Ok(t) && t@ == indented_json(json_text(*value)),
{
    match indented_text(value) {
        Ok(text) => Ok(text),
        Err(cause) => Err(ToolError::Unprintable(cause)),
    }
}

} // verus!

//! What an HTTP status of Microsoft Graph means.

use vstd::prelude::*;

verus! {

/// What an HTTP status means.
#[derive(Clone, Copy, PartialEq, Eq, Structural, Debug)]
pub enum HttpClass {
    Success,
    Vanished,
    Auth,
    Retryable,
    Fatal,
}

/// What an HTTP status means.
pub open spec fn class_of(status: u16) -> HttpClass {
    if 200 <= status < 300 {
        HttpClass::Success
    } else if status == 404 || status == 410 {
        HttpClass::Vanished
    } else if status == 401 || status == 403 {
        HttpClass::Auth
    } else if status == 429 || status == 500 || status == 502 || status == 503 || status == 504 {
        HttpClass::Retryable
    } else {
        HttpClass::Fatal
    }
}

/// Reads what an HTTP status means.
pub fn classify_http_status(status: u16) -> (r: HttpClass)
    ensures
        r == class_of(status),
{
    if status >= 200 && status < 300 {
        HttpClass::Success
    } else if status == 404 || status == 410 {
        HttpClass::Vanished
    } else if status == 401 || status == 403 {
        HttpClass::Auth
    } else if status == 429 || status == 500 || status == 502 || status == 503 || status == 504 {
        HttpClass::Retryable
    } else {
        HttpClass::Fatal
    }
}

/// Whether a status asks all requests to slow down.
pub fn is_throttled(status: u16) -> (r: bool)
    ensures
        r == (status == 429 || status == 503),
{
    status == 429 || status == 503
}

} // verus!

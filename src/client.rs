//! The outcome of an executed request, and what can be read from it.

use vstd::prelude::*;
use crate::format::{bytes_text, duration_text, format_bytes, format_millis};
use crate::table::Table;
use crate::text::{contains, contains_exec};

verus! {

/// A received HTTP response.
#[derive(Debug, Clone)]
pub struct Response {
    pub status: u16,
    pub headers: Table<String>,
    pub body: String,
    /// Wall-clock time of the exchange, in whole milliseconds.
    pub duration_ms: u64,
    /// Body length in bytes.
    pub size: usize,
    pub url: String,
    pub method: String,
}

impl Response {
    /// Status 2xx.
    pub fn is_success(&self) -> (r: bool)
        ensures
            r == (200 <= self.status < 300),
    {
        self.status >= 200 && self.status < 300
    }

    /// Status 4xx.
    pub fn is_client_error(&self) -> (r: bool)
        ensures
            r == (400 <= self.status < 500),
    {
        self.status >= 400 && self.status < 500
    }

    /// Status 5xx.
    pub fn is_server_error(&self) -> (r: bool)
        ensures
            r == (500 <= self.status < 600),
    {
        self.status >= 500 && self.status < 600
    }

    /// The `content-type` header, as received.
    pub fn content_type(&self) -> (r: Option<&String>)
        requires
            self.headers.wf(),
        ensures
            r is Some <==> self.headers@.contains_key("content-type"@),
            r is Some ==> r.unwrap()@ == self.headers@["content-type"@],
    {
        self.headers.get("content-type")
    }

    /// The content type mentions `application/json`.
    pub fn is_json(&self) -> (r: bool)
        requires
            self.headers.wf(),
        ensures
            r == (self.headers@.contains_key("content-type"@) && contains(
                self.headers@["content-type"@],
                "application/json"@,
            )),
    {
        match self.content_type() {
            Some(ct) => contains_exec(ct.as_str(), "application/json"),
            None => false,
        }
    }

    /// The content type mentions `application/xml` or `text/xml`.
    pub fn is_xml(&self) -> (r: bool)
        requires
            self.headers.wf(),
        ensures
            r == (self.headers@.contains_key("content-type"@) && (contains(
                self.headers@["content-type"@],
                "application/xml"@,
            ) || contains(self.headers@["content-type"@], "text/xml"@))),
    {
        match self.content_type() {
            Some(ct) => contains_exec(ct.as_str(), "application/xml") || contains_exec(
                ct.as_str(),
                "text/xml",
            ),
            None => false,
        }
    }

    /// The content type mentions `text/html`.
    pub fn is_html(&self) -> (r: bool)
        requires
            self.headers.wf(),
        ensures
            r == (self.headers@.contains_key("content-type"@) && contains(
                self.headers@["content-type"@],
                "text/html"@,
            )),
    {
        match self.content_type() {
            Some(ct) => contains_exec(ct.as_str(), "text/html"),
            None => false,
        }
    }

    /// A marker for the status class.
    pub fn status_emoji(&self) -> (r: &'static str)
        ensures
            r@ == if 200 <= self.status <= 299 {
                "🟢"@
            } else if 300 <= self.status <= 399 {
                "🟡"@
            } else if 400 <= self.status <= 499 {
                "🔴"@
            } else if 500 <= self.status <= 599 {
                "💥"@
            } else {
                "❓"@
            },
    {
        if self.status >= 200 && self.status <= 299 {
            "🟢"
        } else if self.status >= 300 && self.status <= 399 {
            "🟡"
        } else if self.status >= 400 && self.status <= 499 {
            "🔴"
        } else if self.status >= 500 && self.status <= 599 {
            "💥"
        } else {
            "❓"
        }
    }

    /// The body size, human readable.
    pub fn size_human(&self) -> (r: String)
        ensures
            r@ == bytes_text(self.size as nat),
    {
        format_bytes(self.size)
    }

    /// The duration, human readable.
    pub fn duration_human(&self) -> (r: String)
        ensures
            r@ == duration_text(self.duration_ms as nat),
    {
        format_millis(self.duration_ms as u128)
    }
}

/// The timeout in force for a request: its own, else the default.
pub fn effective_timeout(request_timeout: Option<u64>, default_timeout: u64) -> (r: u64)
    ensures
        r == match request_timeout {
            Some(t) => t,
            None => default_timeout,
        },
{
    match request_timeout {
        Some(t) => t,
        None => default_timeout,
    }
}

} // verus!

use vstd::prelude::*;
use vstd::string::StrSliceExecFns;
use vstd::string::StringExecFns;
use crate::config::ConfigResponse;
use crate::json::{JsonVal, spec_render, render_json};
use crate::params::{spec_substitute, substitute};
use crate::strmap::StrMap;
use crate::text::{spec_dec, dec_usize};

verus! {

/// What the Content-Type header announces, inferred from the configured
/// body before substitution: a bare JSON string is served as plain
/// text, any other value as JSON.
#[derive(PartialEq, Eq, Structural, Clone, Copy, Debug)]
pub enum ContentType {
    Json,
    Plain,
}

impl ContentType {
    pub open spec fn spec_of_value(v: JsonVal) -> ContentType {
        if v is Str {
            ContentType::Plain
        } else {
            ContentType::Json
        }
    }

    pub fn from_value(v: &JsonVal) -> (r: ContentType)
        ensures
            r == ContentType::spec_of_value(*v),
    {
        match v {
            JsonVal::Str(_) => ContentType::Plain,
            _ => ContentType::Json,
        }
    }

    /// The media type named in the Content-Type header.
    pub open spec fn spec_str(self) -> Seq<char> {
        match self {
            ContentType::Json => "application/json"@,
            ContentType::Plain => "text/plain"@,
        }
    }

    pub fn as_str(&self) -> (r: &'static str)
        ensures
            r@ == self.spec_str(),
    {
        match self {
            ContentType::Json => "application/json",
            ContentType::Plain => "text/plain",
        }
    }
}

/// The byte length of a text, as the machine reports it.
pub open spec fn spec_byte_len(s: Seq<char>) -> nat {
    (vstd::utf8::encode_utf8(s).len() as usize) as nat
}

/// A mock response ready to be written back: its status, its rendered
/// body, and the content type inferred from the configured body.
#[derive(Debug)]
pub struct Response {
    pub status: usize,
    pub body: String,
    pub content_type: ContentType,
}

impl Response {
    /// Builds the response for a matched rule: the configured body is
    /// serialized to text and the placeholders are substituted from the
    /// extracted path variables, the query parameters, and the request
    /// body, in that order.
    pub fn try_new(
        response: &ConfigResponse,
        variables: &StrMap,
        query: &StrMap,
        request_body: &JsonVal,
    ) -> (r: Response)
        ensures
            r.status == response.status,
            r.body@ == spec_substitute(
                spec_render(response.body),
                variables@,
                query@,
                *request_body,
            ),
            r.content_type == ContentType::spec_of_value(response.body),
    {
        let mut body = render_json(&response.body);
        substitute(&mut body, variables, query, request_body);
        Response {
            status: response.status,
            body,
            content_type: ContentType::from_value(&response.body),
        }
    }

    /// The full response text: status line, content type with charset,
    /// content length in bytes, a blank line, and the body.
    pub open spec fn spec_http(self) -> Seq<char> {
        "HTTP/1.1 "@ + spec_dec(self.status as nat) + "\r\nContent-Type: "@
            + self.content_type.spec_str() + "; charset=utf-8\r\nContent-Length: "@ + spec_dec(
            spec_byte_len(self.body@),
        ) + "\r\n\r\n"@ + self.body@
    }

    /// Serializes the response head and body to one buffer.
    pub fn as_http(&self) -> (r: String)
        ensures
            r@ == self.spec_http(),
    {
        let mut out = String::from_str("HTTP/1.1 ");
        out.append(dec_usize(self.status).as_str());
        out.append("\r\nContent-Type: ");
        out.append(self.content_type.as_str());
        out.append("; charset=utf-8\r\nContent-Length: ");
        let blen = self.body.as_str().len();
        proof {
            assert(blen as nat == spec_byte_len(self.body@));
        }
        out.append(dec_usize(blen).as_str());
        out.append("\r\n\r\n");
        out.append(self.body.as_str());
        proof {
            assert(out@ =~= self.spec_http());
        }
        out
    }
}

} // verus!

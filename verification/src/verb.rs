//! Request methods.

use crate::text::{lowercase_of, same_text, to_lowercase};
use vstd::prelude::*;

verus! {

/// The method of a request. `UNKNOWN` stands for every word that is none of
/// the nine known methods; it is a valid method, not an error.
#[derive(Clone, Copy, Debug, PartialEq, Eq, Structural)]
pub enum HttpVerb {
    GET,
    HEAD,
    POST,
    PUT,
    DELETE,
    CONNECT,
    OPTIONS,
    TRACE,
    PATCH,
    UNKNOWN,
}

/// The method that a word in lowercase names.
pub open spec fn verb_of_folded(folded: Seq<char>) -> HttpVerb {
    if folded == "get"@ {
        HttpVerb::GET
    } else if folded == "head"@ {
        HttpVerb::HEAD
    } else if folded == "post"@ {
        HttpVerb::POST
    } else if folded == "put"@ {
        HttpVerb::PUT
    } else if folded == "delete"@ {
        HttpVerb::DELETE
    } else if folded == "connect"@ {
        HttpVerb::CONNECT
    } else if folded == "options"@ {
        HttpVerb::OPTIONS
    } else if folded == "trace"@ {
        HttpVerb::TRACE
    } else if folded == "patch"@ {
        HttpVerb::PATCH
    } else {
        HttpVerb::UNKNOWN
    }
}

impl HttpVerb {
    /// The method's name in capitals.
    pub open spec fn spec_name(self) -> Seq<char> {
        match self {
            HttpVerb::GET => "GET"@,
            HttpVerb::HEAD => "HEAD"@,
            HttpVerb::POST => "POST"@,
            HttpVerb::PUT => "PUT"@,
            HttpVerb::DELETE => "DELETE"@,
            HttpVerb::CONNECT => "CONNECT"@,
            HttpVerb::OPTIONS => "OPTIONS"@,
            HttpVerb::TRACE => "TRACE"@,
            HttpVerb::PATCH => "PATCH"@,
            HttpVerb::UNKNOWN => "UNKNOWN"@,
        }
    }

    /// The method that `folded`, a word already in lowercase, names.
    pub fn from_folded(folded: &str) -> (v: HttpVerb)
        ensures
            v == verb_of_folded(folded@),
    {
        if same_text(folded, "get") {
            HttpVerb::GET
        } else if same_text(folded, "head") {
            HttpVerb::HEAD
        } else if same_text(folded, "post") {
            HttpVerb::POST
        } else if same_text(folded, "put") {
            HttpVerb::PUT
        } else if same_text(folded, "delete") {
            HttpVerb::DELETE
        } else if same_text(folded, "connect") {
            HttpVerb::CONNECT
        } else if same_text(folded, "options") {
            HttpVerb::OPTIONS
        } else if same_text(folded, "trace") {
            HttpVerb::TRACE
        } else if same_text(folded, "patch") {
            HttpVerb::PATCH
        } else {
            HttpVerb::UNKNOWN
        }
    }

    /// The method that `string` names, whatever its case.
    pub fn from(string: &str) -> (v: HttpVerb)
        ensures
            v == verb_of_folded(lowercase_of(string@)),
    {
        let folded = to_lowercase(string);
        HttpVerb::from_folded(folded.as_str())
    }

    /// The method's name in capitals.
    pub fn name(&self) -> (n: &'static str)
        ensures
            n@ == self.spec_name(),
    {
        match self {
            HttpVerb::GET => "GET",
            HttpVerb::HEAD => "HEAD",
            HttpVerb::POST => "POST",
            HttpVerb::PUT => "PUT",
            HttpVerb::DELETE => "DELETE",
            HttpVerb::CONNECT => "CONNECT",
            HttpVerb::OPTIONS => "OPTIONS",
            HttpVerb::TRACE => "TRACE",
            HttpVerb::PATCH => "PATCH",
            HttpVerb::UNKNOWN => "UNKNOWN",
        }
    }
}

} // verus!

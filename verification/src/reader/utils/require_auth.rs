//! The guard before the reader protocol.

use vstd::prelude::*;
use vstd::string::StringExecFns;

use crate::utils::{contains_text, occurs_in, same_text};

verus! {

/// What the value of the authorization header begins with.
pub const AUTH_SCHEME: &'static str = "GoogleLogin auth=";

/// The content type of a request that wants its refusal as JSON.
pub const JSON_CONTENT_TYPE: &'static str = "application/json";

/// The part of a query that asks for JSON.
pub const JSON_OUTPUT: &'static str = "output=json";

/// The body of a refusal as JSON.
pub const UNAUTHORIZED_JSON: &'static str = "{\"error\":\"Unauthorized\"}";

/// The body of a refusal as plain text.
pub const UNAUTHORIZED_TEXT: &'static str = "Unauthorized";

/// What the guard decides of a request.
#[derive(Debug, Clone, Copy, PartialEq, Eq, Structural)]
pub enum Verdict {
    /// The request is let through.
    Pass,
    /// The request is refused, in JSON.
    RefuseJson,
    /// The request is refused, in plain text.
    RefuseText,
}

/// Tells whether a request with the given authorization header may pass.
pub open spec fn is_authorized(password: Seq<char>, authorization: Option<Seq<char>>) -> bool {
    authorization == Some(AUTH_SCHEME@ + password)
}

/// Tells whether a refusal is to be written as JSON.
pub open spec fn is_json(content_type: Option<Seq<char>>, query: Seq<char>) -> bool {
    content_type == Some(JSON_CONTENT_TYPE@) || occurs_in(query, JSON_OUTPUT@)
}

/// The verdict on a request.
pub open spec fn verdict(
    password: Seq<char>,
    authorization: Option<Seq<char>>,
    content_type: Option<Seq<char>>,
    query: Seq<char>,
) -> Verdict {
    if is_authorized(password, authorization) {
        Verdict::Pass
    } else if is_json(content_type, query) {
        Verdict::RefuseJson
    } else {
        Verdict::RefuseText
    }
}

/// The guard: it lets a request through where its authorization header
/// holds the password.
#[derive(Debug, Clone, Copy)]
pub struct RequireAuth;

impl RequireAuth {
    /// Decides on a request, given the password, the authorization header
    /// and the content type of the request, if it has them, and its query.
    pub fn call(
        password: &str,
        authorization: Option<&str>,
        content_type: Option<&str>,
        query: &str,
    ) -> (v: Verdict)
        ensures
            v == verdict(
                password@,
                match authorization {
                    Some(a) => Some(a@),
                    None => None,
                },
                match content_type {
                    Some(c) => Some(c@),
                    None => None,
                },
                query@,
            ),
    {
        let authorized = match authorization {
            Some(value) => {
                let expected = AUTH_SCHEME.to_owned().concat(password);
                same_text(value, expected.as_str())
            },
            None => false,
        };
        if authorized {
            return Verdict::Pass;
        }
        let json_content_type = match content_type {
            Some(value) => same_text(value, JSON_CONTENT_TYPE),
            None => false,
        };
        if json_content_type || contains_text(query, JSON_OUTPUT) {
            Verdict::RefuseJson
        } else {
            Verdict::RefuseText
        }
    }
}

} // verus!

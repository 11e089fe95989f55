//! Who is asking: the parent identity that an HTTP request carries.

use vstd::prelude::*;

use crate::ids::{parse_uuid, uuid_parsed};

verus! {

/// The `authorization` header as it arrived.
#[derive(Debug, Clone, PartialEq, Eq)]
pub enum AuthHeader {
    /// no such header
    Missing,
    /// the header's bytes are not visible ASCII text
    NotText,
    Text(String),
}

/// Why a request carries no usable parent identity.
#[derive(Debug, Clone, Copy, PartialEq, Eq, Structural)]
pub enum AuthError {
    Missing,
    InvalidHeader,
    InvalidUuid,
}

impl AuthError {
    pub open spec fn text(self) -> Seq<char> {
        match self {
            AuthError::Missing => "Authorization header missing"@,
            AuthError::InvalidHeader => "Invalid authorization header"@,
            AuthError::InvalidUuid => "Invalid UUID in authorization header"@,
        }
    }

    /// The message sent back with the refusal.
    pub fn message(&self) -> (s: &'static str)
        ensures
            s@ == self.text(),
    {
        match self {
            AuthError::Missing => "Authorization header missing",
            AuthError::InvalidHeader => "Invalid authorization header",
            AuthError::InvalidUuid => "Invalid UUID in authorization header",
        }
    }
}

/// The prefix that marks a bearer token.
pub open spec fn bearer_prefix() -> Seq<char> {
    seq!['B', 'e', 'a', 'r', 'e', 'r', ' ']
}

/// The token of the header: what follows `Bearer ` where the header starts so,
/// and the whole header otherwise (the prefix is removed if present).
pub open spec fn bearer_token_of(header: Seq<char>) -> Seq<char> {
    if header.len() >= 7 && header.subrange(0, 7) == bearer_prefix() {
        header.subrange(7, header.len() as int)
    } else {
        header
    }
}

/// The token of an `authorization` header, with a leading `Bearer ` removed.
pub fn bearer_token(header: &str) -> (token: &str)
    ensures
        token@ == bearer_token_of(header@),
{
    let n = header.unicode_len();
    if n < 7 {
        return header;
    }
    let prefix = ['B', 'e', 'a', 'r', 'e', 'r', ' '];
    let mut i: usize = 0;
    while i < 7
        invariant
            n == header@.len(),
            n >= 7,
            i <= 7,
            prefix@ == bearer_prefix(),
            forall|j: int| 0 <= j < i ==> header@[j] == prefix@[j],
        decreases 7 - i,
    {
        if header.get_char(i) != prefix[i] {
            assert(header@.subrange(0, 7)[i as int] != bearer_prefix()[i as int]);
            return header;
        }
        i = i + 1;
    }
    assert(header@.subrange(0, 7) =~= bearer_prefix());
    header.substring_char(7, n)
}

/// A worker identifier written as a UUID, as a request path carries it.
pub fn parse_worker_id(text: &str) -> (res: Option<u128>)
    ensures
        res == uuid_parsed(text@),
{
    parse_uuid(text)
}

/// The parent identity from a parsed bearer token.
pub fn auth_from_parsed(parsed: Option<u128>) -> (res: Result<u128, AuthError>)
    ensures
        res == match parsed {
            Some(id) => Ok::<u128, AuthError>(id),
            None => Err(AuthError::InvalidUuid),
        },
{
    match parsed {
        Some(id) => Ok(id),
        None => Err(AuthError::InvalidUuid),
    }
}

/// The parent identity that the `authorization` header names as a UUID, with or
/// without a leading `Bearer `.
pub fn extract_auth_uuid(header: &AuthHeader) -> (res: Result<u128, AuthError>)
    ensures
        res == match header {
            AuthHeader::Missing => Err(AuthError::Missing),
            AuthHeader::NotText => Err(AuthError::InvalidHeader),
            AuthHeader::Text(text) => match uuid_parsed(bearer_token_of(text@)) {
                Some(id) => Ok::<u128, AuthError>(id),
                None => Err(AuthError::InvalidUuid),
            },
        },
{
    match header {
        AuthHeader::Missing => Err(AuthError::Missing),
        AuthHeader::NotText => Err(AuthError::InvalidHeader),
        AuthHeader::Text(text) => {
            let token = bearer_token(text.as_str());
            auth_from_parsed(parse_uuid(token))
        },
    }
}

} // verus!

//! Failures, and what a failure means for the operation that met it.

use vstd::prelude::*;
use vstd::string::StringExecFns;

use crate::dtos::RevisionConflict;
use crate::ids::{uid_text, NodeUid};
use crate::text::owned;

verus! {

/// What the server said about a request, beside its HTTP status.
#[derive(Debug, Clone, Copy, PartialEq, Eq, Structural)]
pub enum ResponseCode {
    Unknown,
    Success,
    AlreadyExists,
    DoesNotExist,
    Other(i32),
}

/// A refusal by the server.
#[derive(Debug, PartialEq, Eq)]
pub struct ProtonApiError {
    pub code: ResponseCode,
    pub http_status: u16,
    pub message: String,
    pub details: Option<RevisionConflict>,
}

/// Anything that makes an operation fail.
#[derive(Debug, PartialEq, Eq)]
pub enum ProtonError {
    /// The server refused the request.
    Api(ProtonApiError),
    /// The request or its reply was lost on the way.
    Transport { timeout: bool, message: String },
    /// The operation cannot be carried out.
    InvalidOperation(String),
}

impl Clone for RevisionConflict {
    fn clone(&self) -> (r: RevisionConflict)
        ensures
            r == *self,
    {
        RevisionConflict {
            link_id: self.link_id.clone(),
            revision_id: self.revision_id.clone(),
            draft_revision_id: self.draft_revision_id.clone(),
            draft_client_uid: self.draft_client_uid.clone(),
        }
    }
}

impl Clone for ProtonError {
    fn clone(&self) -> (r: ProtonError)
        ensures
            r == *self,
    {
        match self {
            ProtonError::Api(e) => ProtonError::Api(
                ProtonApiError {
                    code: e.code,
                    http_status: e.http_status,
                    message: e.message.clone(),
                    details: e.details.clone(),
                },
            ),
            ProtonError::Transport { timeout, message } => ProtonError::Transport {
                timeout: *timeout,
                message: message.clone(),
            },
            ProtonError::InvalidOperation(message) => ProtonError::InvalidOperation(
                message.clone(),
            ),
        }
    }
}

/// The error of an operation that cannot be carried out.
pub open spec fn invalid(error: ProtonError, message: Seq<char>) -> bool {
    error is InvalidOperation && error->InvalidOperation_0@ == message
}

impl ProtonError {
    pub fn invalid_operation(message: &str) -> (e: ProtonError)
        ensures
            invalid(e, message@),
    {
        ProtonError::InvalidOperation(owned(message))
    }

    /// The HTTP status of a refusal by the server.
    pub open spec fn status(self) -> Option<u16> {
        match self {
            ProtonError::Api(e) => Some(e.http_status),
            _ => None,
        }
    }

    /// The server's code of a refusal.
    pub open spec fn code(self) -> Option<ResponseCode> {
        match self {
            ProtonError::Api(e) => Some(e.code),
            _ => None,
        }
    }
}

/// What is said of a node that is not there.
pub open spec fn missing_node(uid: (Seq<char>, Seq<char>)) -> Seq<char> {
    "node "@ + uid_text(uid) + " not found"@
}

/// The error of an operation on a node that is not there.
pub fn node_not_found(uid: &NodeUid) -> (e: ProtonError)
    ensures
        invalid(e, missing_node(uid@)),
{
    let mut message: String = owned("node ");
    message.append(uid.to_text().as_str());
    message.append(" not found");
    ProtonError::InvalidOperation(message)
}

/// Whether the session that a call was made through is gone: a refusal with
/// status 401 and nothing else.
pub fn is_session_expired(error: &ProtonError) -> (r: bool)
    ensures
        r == (error.status() == Some(401u16)),
{
    match error {
        ProtonError::Api(e) => e.http_status == 401,
        _ => false,
    }
}

/// Whether a block fetch failed as an expired block address does.
pub fn is_expired_block_url(error: &ProtonError) -> (r: bool)
    ensures
        r == (error.status() == Some(401u16) || error.status() == Some(403u16) || error.status()
            == Some(404u16)),
{
    match error {
        ProtonError::Api(e) => e.http_status == 401 || e.http_status == 403 || e.http_status
            == 404,
        _ => false,
    }
}

/// Whether a refusal means that the entity asked for is not there: the server
/// says so in its code, or with a bare 404.
pub fn is_not_found(error: &ProtonError) -> (r: bool)
    ensures
        r == (error.code() == Some(ResponseCode::DoesNotExist) || error.status() == Some(404u16)),
{
    match error {
        ProtonError::Api(e) => e.code == ResponseCode::DoesNotExist || e.http_status == 404,
        _ => false,
    }
}

/// Whether the storage host no longer knows an upload token.
pub fn is_expired_upload_token(error: &ProtonError) -> (r: bool)
    ensures
        r == (error.status() == Some(404u16) || error.code() == Some(ResponseCode::DoesNotExist)),
{
    match error {
        ProtonError::Api(e) => e.http_status == 404 || e.code == ResponseCode::DoesNotExist,
        _ => false,
    }
}

/// Whether an upload ran out of time rather than failing outright.
pub fn is_upload_timeout(error: &ProtonError) -> (r: bool)
    ensures
        r == (error is Transport && error->timeout),
{
    match error {
        ProtonError::Transport { timeout, .. } => *timeout,
        _ => false,
    }
}

/// Only a refusal by the server has a status and a code, and those are its own. An
/// operation that is not valid says why, and nothing else.
pub proof fn law_only_refusals_have_a_code(
    error: ProtonError,
    message: Seq<char>,
    uid: (Seq<char>, Seq<char>),
)
    ensures
        error.status() is Some <==> error is Api,
        error.code() is Some <==> error is Api,
        error is Api ==> error.status() == Some(error->Api_0.http_status) && error.code() == Some(
            error->Api_0.code,
        ),
        invalid(error, message) <==> error is InvalidOperation && error->InvalidOperation_0@
            == message,
        missing_node(uid) == "node "@ + uid.0 + seq!['~'] + uid.1 + " not found"@,
{
    assert(missing_node(uid) =~= "node "@ + uid.0 + seq!['~'] + uid.1 + " not found"@);
}

} // verus!

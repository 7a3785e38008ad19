//! The status registry: the fixed table of status codes and reason phrases
//! that a response can carry.

use vstd::prelude::*;

verus! {

/// A status code with its reason phrase.
#[derive(Debug, Clone, Copy)]
pub struct HttpStatus(pub u32, pub &'static str);

/// What a status is in contracts: its code and the characters of its phrase.
pub struct StatusModel {
    pub code: nat,
    pub reason: Seq<char>,
}

impl View for HttpStatus {
    type V = StatusModel;

    open spec fn view(&self) -> StatusModel {
        StatusModel { code: self.0 as nat, reason: self.1@ }
    }
}

impl StatusModel {
    pub open spec fn ok() -> StatusModel {
        StatusModel { code: 200, reason: "OK"@ }
    }

    pub open spec fn no_content() -> StatusModel {
        StatusModel { code: 203, reason: "No Content"@ }
    }

    pub open spec fn bad_request() -> StatusModel {
        StatusModel { code: 400, reason: "Bad Request"@ }
    }

    pub open spec fn forbidden() -> StatusModel {
        StatusModel { code: 403, reason: "Forbidden"@ }
    }

    pub open spec fn not_found() -> StatusModel {
        StatusModel { code: 404, reason: "Not Found"@ }
    }

    pub open spec fn internal_error() -> StatusModel {
        StatusModel { code: 500, reason: "Internal Server Error"@ }
    }

    pub open spec fn not_implemented() -> StatusModel {
        StatusModel { code: 501, reason: "Not Implemented"@ }
    }

    /// Whether this is one of the statuses of the registry.
    pub open spec fn is_registered(self) -> bool {
        ||| self == Self::ok()
        ||| self == Self::no_content()
        ||| self == Self::bad_request()
        ||| self == Self::forbidden()
        ||| self == Self::not_found()
        ||| self == Self::internal_error()
        ||| self == Self::not_implemented()
    }

    /// Whether this status reports success.
    pub open spec fn is_success(self) -> bool {
        self.code == 200
    }
}

/// The reason phrase of a status of the registry stays on one line.
pub proof fn lemma_registered_reason_on_one_line(status: StatusModel)
    requires
        status.is_registered(),
    ensures
        !status.reason.contains('\n'),
{
    reveal_strlit("OK");
    reveal_strlit("No Content");
    reveal_strlit("Bad Request");
    reveal_strlit("Forbidden");
    reveal_strlit("Not Found");
    reveal_strlit("Internal Server Error");
    reveal_strlit("Not Implemented");
}

/// 200 OK.
pub fn ok() -> (status: HttpStatus)
    ensures
        status@ == StatusModel::ok(),
{
    HttpStatus(200, "OK")
}

/// 203 No Content.
pub fn no_content() -> (status: HttpStatus)
    ensures
        status@ == StatusModel::no_content(),
{
    HttpStatus(203, "No Content")
}

/// 400 Bad Request.
pub fn bad_request() -> (status: HttpStatus)
    ensures
        status@ == StatusModel::bad_request(),
{
    HttpStatus(400, "Bad Request")
}

/// 403 Forbidden.
pub fn forbidden() -> (status: HttpStatus)
    ensures
        status@ == StatusModel::forbidden(),
{
    HttpStatus(403, "Forbidden")
}

/// 404 Not Found.
pub fn not_found() -> (status: HttpStatus)
    ensures
        status@ == StatusModel::not_found(),
{
    HttpStatus(404, "Not Found")
}

/// 500 Internal Server Error.
pub fn internal_error() -> (status: HttpStatus)
    ensures
        status@ == StatusModel::internal_error(),
{
    HttpStatus(500, "Internal Server Error")
}

/// 501 Not Implemented.
pub fn not_implemented() -> (status: HttpStatus)
    ensures
        status@ == StatusModel::not_implemented(),
{
    HttpStatus(501, "Not Implemented")
}

} // verus!

//! The request dispatcher: from the text of a request to its response.
//!
//! A response may depend on what the file system holds, and reading the file
//! system is the caller's part. So a request is processed in two steps.
//! `process_http_request` says what is to be read, if anything; the caller
//! reads it and hands the outcome to `serve_file` or `serve_listing`, which
//! gives the response.

pub use crate::files::{list_files, path_to_relative};
pub use crate::request::HttpRequest;
pub use crate::response::{ContentType, HttpResponse};

use crate::files::{
    entry_models, host_path, listed_names, DirectoryEntry, EntryModel, FileError, LIST_FAILURE,
};
use crate::html::{file_list_to_html, listing_page};
use crate::http_status::{bad_request, internal_error, not_found, not_implemented, StatusModel};
use crate::request::{parse, parse_http_request, Method, ParseError, RequestModel};
use crate::response::{error_response, success_response, ResponseModel, HTML, PLAIN_TEXT};
use crate::text::{ends_with, str_ends_with};
use vstd::prelude::*;
use vstd::utf8::encode_utf8;

verus! {

/// What is answered to a text that is no request.
pub const INVALID_REQUEST: &'static str = "Received invalid request";

/// What is answered to a request with a method that is not served.
pub const UNSUPPORTED_METHOD: &'static str = "Unsupported method...";

/// What is answered where the requested file cannot be opened.
pub const FILE_NOT_FOUND: &'static str = "Could not find file at requested path.";

/// What is answered where reading the requested file fails.
pub const READ_FAILURE: &'static str = "Failed to read file...";

/// What is to be done for a request.
#[derive(Debug)]
pub enum Step {
    /// Nothing is to be read: this is the response.
    Respond(HttpResponse),
    /// The file at the host path `path` is to be read, and the outcome
    /// handed to `serve_file` together with `head`.
    ReadFile { path: String, head: bool },
    /// The directory at the host path `path` is to be read, and its entries
    /// handed to `serve_listing` together with `directory` and `head`.
    ListDirectory { path: String, directory: String, head: bool },
}

/// A step in contracts.
pub enum StepModel {
    Respond(ResponseModel),
    ReadFile { path: Seq<char>, head: bool },
    ListDirectory { path: Seq<char>, directory: Seq<char>, head: bool },
}

impl View for Step {
    type V = StepModel;

    open spec fn view(&self) -> StepModel {
        match *self {
            Step::Respond(response) => StepModel::Respond(response@),
            Step::ReadFile { path, head } => StepModel::ReadFile { path: path@, head },
            Step::ListDirectory { path, directory, head } => StepModel::ListDirectory {
                path: path@,
                directory: directory@,
                head,
            },
        }
    }
}

/// The step for a GET request: a path that ends in `/` asks for the listing
/// of a directory, any other path for a file.
pub open spec fn get_step(request: RequestModel) -> StepModel {
    if ends_with(request.path, '/') {
        StepModel::ListDirectory {
            path: host_path(request.path),
            directory: request.path,
            head: false,
        }
    } else {
        StepModel::ReadFile { path: host_path(request.path), head: false }
    }
}

/// The same step for a HEAD request.
pub open spec fn for_head(step: StepModel) -> StepModel {
    match step {
        StepModel::Respond(response) => StepModel::Respond(head_form(response)),
        StepModel::ReadFile { path, head } => StepModel::ReadFile { path, head: true },
        StepModel::ListDirectory { path, directory, head } => StepModel::ListDirectory {
            path,
            directory,
            head: true,
        },
    }
}

/// The response to a request whose method is not served.
pub open spec fn unsupported() -> ResponseModel {
    error_response(StatusModel::not_implemented(), UNSUPPORTED_METHOD@)
}

/// The step for a parsed request. GET is resolved against the file system,
/// HEAD as GET is, and every other method is answered at once.
pub open spec fn dispatch(request: RequestModel) -> StepModel {
    match request.method {
        Method::Get => get_step(request),
        Method::Head => for_head(get_step(request)),
        _ => StepModel::Respond(unsupported()),
    }
}

/// The step for the text of a request.
pub open spec fn first_step(text: Seq<char>) -> StepModel {
    match parse(text) {
        Ok(request) => dispatch(request),
        Err(ParseError::InvalidRequest) => StepModel::Respond(
            error_response(StatusModel::bad_request(), INVALID_REQUEST@),
        ),
        Err(ParseError::UnsupportedMethod) => StepModel::Respond(unsupported()),
    }
}

/// What a HEAD request gets in place of `response`: a success without its
/// body, anything else as it is.
pub open spec fn head_form(response: ResponseModel) -> ResponseModel {
    if response.status.is_success() {
        ResponseModel { body: Seq::<u8>::empty(), ..response }
    } else {
        response
    }
}

/// `response` as the request's method wants it.
pub open spec fn for_method(response: ResponseModel, head: bool) -> ResponseModel {
    if head {
        head_form(response)
    } else {
        response
    }
}

/// The response to a GET request for a file, given what reading the file
/// gave.
pub open spec fn file_response(outcome: Result<Seq<u8>, FileError>) -> ResponseModel {
    match outcome {
        Ok(contents) => success_response(PLAIN_TEXT@, contents),
        Err(FileError::NotFound) => error_response(StatusModel::not_found(), FILE_NOT_FOUND@),
        Err(FileError::ReadFailed) => error_response(
            StatusModel::internal_error(),
            READ_FAILURE@,
        ),
    }
}

/// The response to a GET request for the listing of `directory`, given the
/// entries that reading the directory gave, or `None` where it failed.
pub open spec fn listing_response(
    directory: Seq<char>,
    entries: Option<Seq<EntryModel>>,
) -> ResponseModel {
    match entries {
        Some(entries) => success_response(
            HTML@,
            encode_utf8(listing_page(listed_names(host_path(directory), entries), directory)),
        ),
        None => error_response(StatusModel::internal_error(), LIST_FAILURE@),
    }
}

/// What the file system of the host holds, as far as a request can tell.
pub struct Disk {
    /// What reading the file at a host path gives.
    pub read: spec_fn(Seq<char>) -> Result<Seq<u8>, FileError>,
    /// The entries that reading the directory at a host path gives, or `None`
    /// where it cannot be read.
    pub list: spec_fn(Seq<char>) -> Option<Seq<EntryModel>>,
}

/// The response that a step ends in, over a given file system.
pub open spec fn completed(step: StepModel, disk: Disk) -> ResponseModel {
    match step {
        StepModel::Respond(response) => response,
        StepModel::ReadFile { path, head } => for_method(file_response((disk.read)(path)), head),
        StepModel::ListDirectory { path, directory, head } => for_method(
            listing_response(directory, (disk.list)(path)),
            head,
        ),
    }
}

/// The response to the text of a request, over a given file system.
pub open spec fn response_to(text: Seq<char>, disk: Disk) -> ResponseModel {
    completed(first_step(text), disk)
}

/// A GET request for a file that is there and can be read is answered with
/// status 200, as plain text, and with the file's contents as they are.
pub proof fn lemma_get_serves_file(text: Seq<char>, disk: Disk, contents: Seq<u8>)
    requires
        parse(text) is Ok,
        parse(text)->Ok_0.method == Method::Get,
        !ends_with(parse(text)->Ok_0.path, '/'),
        (disk.read)(host_path(parse(text)->Ok_0.path)) == Ok::<Seq<u8>, FileError>(contents),
    ensures
        response_to(text, disk) == (ResponseModel {
            status: StatusModel::ok(),
            content_type: PLAIN_TEXT@,
            body: contents,
        }),
        response_to(text, disk).status.code == 200,
{
}

/// A GET request for a path that ends in `/` and names a directory that can
/// be read is answered with status 200, as HTML, and with the listing page
/// of the names of the directory's entries.
pub proof fn lemma_get_lists_directory(text: Seq<char>, disk: Disk, entries: Seq<EntryModel>)
    requires
        parse(text) is Ok,
        parse(text)->Ok_0.method == Method::Get,
        ends_with(parse(text)->Ok_0.path, '/'),
        (disk.list)(host_path(parse(text)->Ok_0.path)) == Some(entries),
    ensures
        response_to(text, disk) == (ResponseModel {
            status: StatusModel::ok(),
            content_type: HTML@,
            body: encode_utf8(
                listing_page(
                    listed_names(host_path(parse(text)->Ok_0.path), entries),
                    parse(text)->Ok_0.path,
                ),
            ),
        }),
        response_to(text, disk).status.code == 200,
{
}

/// A GET request for a file that is not there is answered with status 404.
pub proof fn lemma_get_missing_file(text: Seq<char>, disk: Disk)
    requires
        parse(text) is Ok,
        parse(text)->Ok_0.method == Method::Get,
        !ends_with(parse(text)->Ok_0.path, '/'),
        (disk.read)(host_path(parse(text)->Ok_0.path)) == Err::<Seq<u8>, FileError>(
            FileError::NotFound,
        ),
    ensures
        response_to(text, disk).status == StatusModel::not_found(),
        response_to(text, disk).status.code == 404,
{
}

/// The response to a HEAD request has the status and the content type of
/// the response to the GET request for the same path. Where that is a
/// success, the HEAD response has no body; where it is not, the HEAD
/// response is the GET response, body included.
pub proof fn lemma_head_follows_get(head_text: Seq<char>, get_text: Seq<char>, disk: Disk)
    requires
        parse(head_text) is Ok,
        parse(get_text) is Ok,
        parse(head_text)->Ok_0.method == Method::Head,
        parse(get_text)->Ok_0.method == Method::Get,
        parse(head_text)->Ok_0.path == parse(get_text)->Ok_0.path,
    ensures
        response_to(head_text, disk).status == response_to(get_text, disk).status,
        response_to(head_text, disk).content_type == response_to(get_text, disk).content_type,
        response_to(get_text, disk).status.is_success() ==> response_to(
            head_text,
            disk,
        ).body.len() == 0,
        !response_to(get_text, disk).status.is_success() ==> response_to(head_text, disk)
            == response_to(get_text, disk),
{
}

/// The same request over the same file system gets the same response: any
/// two responses that the request may get have the same body, byte for byte.
pub proof fn lemma_same_request_same_body(
    text: Seq<char>,
    disk: Disk,
    first: ResponseModel,
    second: ResponseModel,
)
    requires
        first == response_to(text, disk),
        second == response_to(text, disk),
    ensures
        first.body == second.body,
        first == second,
{
}

/// The outcome of reading a file in contracts.
pub open spec fn file_outcome(outcome: Result<Vec<u8>, FileError>) -> Result<
    Seq<u8>,
    FileError,
> {
    match outcome {
        Ok(contents) => Ok(contents@),
        Err(error) => Err(error),
    }
}

/// The outcome of reading a directory in contracts.
pub open spec fn listing_outcome(entries: Option<Vec<DirectoryEntry>>) -> Option<
    Seq<EntryModel>,
> {
    match entries {
        Some(entries) => Some(entry_models(entries@)),
        None => None,
    }
}

/// Says what is to be read for a GET request.
pub fn process_get_request(request: HttpRequest) -> (step: Step)
    ensures
        step@ == get_step(request@),
{
    let path = request.path();
    if str_ends_with(path, '/') {
        Step::ListDirectory {
            path: path_to_relative(String::from_str(path)),
            directory: String::from_str(path),
            head: false,
        }
    } else {
        Step::ReadFile { path: path_to_relative(String::from_str(path)), head: false }
    }
}

/// Parses the text of a request and says what is to be done for it: the
/// response itself where it does not depend on the file system, else what is
/// to be read.
pub fn process_http_request(request: &str) -> (step: Step)
    ensures
        step@ == first_step(request@),
{
    let request = match parse_http_request(request) {
        Ok(request) => request,
        Err(ParseError::InvalidRequest) => {
            return Step::Respond(HttpResponse::error(bad_request(), INVALID_REQUEST));
        },
        Err(ParseError::UnsupportedMethod) => {
            return Step::Respond(HttpResponse::error(not_implemented(), UNSUPPORTED_METHOD));
        },
    };
    match request.method() {
        Method::Get => process_get_request(request),
        Method::Head => {
            match process_get_request(request) {
                Step::Respond(response) => Step::Respond(head_response(response)),
                Step::ReadFile { path, head } => Step::ReadFile { path, head: true },
                Step::ListDirectory { path, directory, head } => Step::ListDirectory {
                    path,
                    directory,
                    head: true,
                },
            }
        },
        _ => Step::Respond(HttpResponse::error(not_implemented(), UNSUPPORTED_METHOD)),
    }
}

/// Turns the response to a GET request into the response to the HEAD
/// request for the same path.
pub fn head_response(response: HttpResponse) -> (head: HttpResponse)
    ensures
        head@ == head_form(response@),
{
    if response.status.0 == 200 {
        HttpResponse {
            status: response.status,
            content_type: response.content_type,
            body: Vec::new(),
        }
    } else {
        response
    }
}

/// The response to a request for a file, given what reading the file gave;
/// `head` tells that the request was a HEAD request.
pub fn serve_file(outcome: Result<Vec<u8>, FileError>, head: bool) -> (response: HttpResponse)
    ensures
        response@ == for_method(file_response(file_outcome(outcome)), head),
{
    let response = match outcome {
        Ok(contents) => HttpResponse::success(ContentType::plain_text(), contents),
        Err(FileError::NotFound) => HttpResponse::error(not_found(), FILE_NOT_FOUND),
        Err(FileError::ReadFailed) => HttpResponse::error(internal_error(), READ_FAILURE),
    };
    if head {
        head_response(response)
    } else {
        response
    }
}

/// The response to a request for the listing of `directory`, given the
/// entries that reading the directory gave, or `None` where reading it
/// failed; `head` tells that the request was a HEAD request.
pub fn serve_listing(
    directory: String,
    entries: Option<Vec<DirectoryEntry>>,
    head: bool,
) -> (response: HttpResponse)
    ensures
        response@ == for_method(listing_response(directory@, listing_outcome(entries)), head),
{
    let response = match list_files(directory.clone(), entries) {
        Ok(files) => HttpResponse::success(
            ContentType::html(),
            file_list_to_html(files, directory).as_str().as_bytes_vec(),
        ),
        Err(message) => HttpResponse::error(internal_error(), message),
    };
    if head {
        head_response(response)
    } else {
        response
    }
}

} // verus!

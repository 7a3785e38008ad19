//! The response: its status, content type and body, and the bytes that go
//! on the wire for it.

use crate::http_status::{ok, HttpStatus, StatusModel};
use crate::text::{decimal, decimal_text, ends_with, str_ends_with};
use crate::wire::{body_of, content_length_of, lemma_content_length_is_body_length};
use vstd::prelude::*;
use vstd::utf8::encode_utf8;

verus! {

/// The name that the server gives itself in the `Server` header.
pub const SERVER_NAME: &'static str = "mini_httpd";

/// The version that follows the name in the `Server` header.
pub const SERVER_VERSION: &'static str = "0.1.0";

/// MIME type of bytes of no known kind.
pub const OCTET_STREAM: &'static str = "application/octet-stream";

/// MIME type of a page of markup.
pub const HTML: &'static str = "text/html;charset=utf-8";

/// MIME type of plain text.
pub const PLAIN_TEXT: &'static str = "text/plain";

/// The content type of a response: one of the MIME types that the server
/// knows.
#[derive(Debug, Clone, Copy)]
pub struct ContentType(&'static str);

impl View for ContentType {
    type V = Seq<char>;

    closed spec fn view(&self) -> Seq<char> {
        self.0@
    }
}

impl ContentType {
    /// A content type is never anything but one of the three known types.
    #[verifier::type_invariant]
    spec fn is_known(self) -> bool {
        self.0@ == OCTET_STREAM@ || self.0@ == HTML@ || self.0@ == PLAIN_TEXT@
    }

    /// The type of bytes of no known kind.
    pub fn octet_stream() -> (content_type: ContentType)
        ensures
            content_type@ == OCTET_STREAM@,
    {
        ContentType(OCTET_STREAM)
    }

    /// The type of a page of markup.
    pub fn html() -> (content_type: ContentType)
        ensures
            content_type@ == HTML@,
    {
        ContentType(HTML)
    }

    /// The type of plain text.
    pub fn plain_text() -> (content_type: ContentType)
        ensures
            content_type@ == PLAIN_TEXT@,
    {
        ContentType(PLAIN_TEXT)
    }

    /// The MIME type as text.
    pub fn as_str(&self) -> (mime: &'static str)
        ensures
            mime@ == self@,
            mime@ == OCTET_STREAM@ || mime@ == HTML@ || mime@ == PLAIN_TEXT@,
    {
        proof {
            use_type_invariant(self);
        }
        self.0
    }
}

/// A response to one request.
#[derive(Debug)]
pub struct HttpResponse {
    pub status: HttpStatus,
    pub content_type: ContentType,
    pub body: Vec<u8>,
}

/// A response in contracts.
pub struct ResponseModel {
    pub status: StatusModel,
    pub content_type: Seq<char>,
    pub body: Seq<u8>,
}

impl View for HttpResponse {
    type V = ResponseModel;

    open spec fn view(&self) -> ResponseModel {
        ResponseModel { status: self.status@, content_type: self.content_type@, body: self.body@ }
    }
}

/// `message`, closed by a line feed where it does not end in one already.
pub open spec fn with_line_end(message: Seq<char>) -> Seq<char> {
    if ends_with(message, '\n') {
        message
    } else {
        message.push('\n')
    }
}

/// The response that reports a failure: the status, and the message as
/// plain text.
pub open spec fn error_response(status: StatusModel, message: Seq<char>) -> ResponseModel {
    ResponseModel { status, content_type: PLAIN_TEXT@, body: encode_utf8(with_line_end(message)) }
}

/// The response that carries `body` with status 200.
pub open spec fn success_response(content_type: Seq<char>, body: Seq<u8>) -> ResponseModel {
    ResponseModel { status: StatusModel::ok(), content_type, body }
}

/// The end of a line on the wire.
pub open spec fn line_end() -> Seq<char> {
    "\r\n"@
}

/// The first line of a response: protocol version, status code and reason.
pub open spec fn status_line(status: StatusModel) -> Seq<char> {
    "HTTP/1.0 "@ + decimal(status.code) + " "@ + status.reason
}

/// The header that names the server.
pub open spec fn server_line() -> Seq<char> {
    "Server: "@ + SERVER_NAME@ + "/"@ + SERVER_VERSION@
}

/// The header that carries the time of the response.
pub open spec fn date_line(date: Seq<char>) -> Seq<char> {
    "Date: "@ + date
}

/// The header that carries the MIME type of the body.
pub open spec fn content_type_line(content_type: Seq<char>) -> Seq<char> {
    "Content-Type: "@ + content_type
}

/// The header that carries the number of bytes of the body.
pub open spec fn content_length_line(length: nat) -> Seq<char> {
    "Content-Length: "@ + decimal(length)
}

/// The head of a response as text: the status line and the four headers,
/// each closed by a line end, and the empty line that closes the head.
pub open spec fn header_text(response: ResponseModel, date: Seq<char>) -> Seq<char> {
    status_line(response.status) + line_end() + server_line() + line_end() + date_line(date)
        + line_end() + content_type_line(response.content_type) + line_end()
        + content_length_line(response.body.len()) + line_end() + line_end()
}

/// The bytes of a response on the wire: the head in UTF-8, and the body as
/// it is.
pub open spec fn wire_format(response: ResponseModel, date: Seq<char>) -> Seq<u8> {
    encode_utf8(header_text(response, date)) + response.body
}

/// Whether the `count` characters of `text` from the index `from` on are
/// decimal digits.
pub open spec fn digits_at(text: Seq<char>, from: int, count: int) -> bool {
    forall|i: int| from <= i < from + count ==> '0' <= #[trigger] text[i] <= '9'
}

/// Whether `name` is the short English name of a day of the week.
pub open spec fn is_weekday_name(name: Seq<char>) -> bool {
    ||| name == "Sun"@
    ||| name == "Mon"@
    ||| name == "Tue"@
    ||| name == "Wed"@
    ||| name == "Thu"@
    ||| name == "Fri"@
    ||| name == "Sat"@
}

/// Whether `name` is the short English name of a month.
pub open spec fn is_month_name(name: Seq<char>) -> bool {
    ||| name == "Jan"@
    ||| name == "Feb"@
    ||| name == "Mar"@
    ||| name == "Apr"@
    ||| name == "May"@
    ||| name == "Jun"@
    ||| name == "Jul"@
    ||| name == "Aug"@
    ||| name == "Sep"@
    ||| name == "Oct"@
    ||| name == "Nov"@
    ||| name == "Dec"@
}

/// Whether `text` is a date and time in the form of RFC 1123 with a numeric
/// time zone, as in `Wed, 28 Oct 2026 12:00:00 +0100`: the name of the day,
/// a comma, the day of the month in one or two digits, the name of the
/// month, the year in four digits, the time of day as `hh:mm:ss`, and the
/// offset from UTC as a sign and four digits, with single spaces between
/// them.
pub open spec fn is_date_text(text: Seq<char>) -> bool {
    let day = text.len() - 29;
    &&& 1 <= day <= 2
    &&& is_weekday_name(text.subrange(0, 3))
    &&& text[3] == ','
    &&& text[4] == ' '
    &&& digits_at(text, 5, day)
    &&& text[5 + day] == ' '
    &&& is_month_name(text.subrange(6 + day, 9 + day))
    &&& text[9 + day] == ' '
    &&& digits_at(text, 10 + day, 4)
    &&& text[14 + day] == ' '
    &&& digits_at(text, 15 + day, 2)
    &&& text[17 + day] == ':'
    &&& digits_at(text, 18 + day, 2)
    &&& text[20 + day] == ':'
    &&& digits_at(text, 21 + day, 2)
    &&& text[23 + day] == ' '
    &&& (text[24 + day] == '+' || text[24 + day] == '-')
    &&& digits_at(text, 25 + day, 4)
}

/// A date in that form stays on one line.
pub proof fn lemma_date_text_on_one_line(text: Seq<char>)
    requires
        is_date_text(text),
    ensures
        !text.contains('\n'),
{
    let day = text.len() - 29;
    let weekday = text.subrange(0, 3);
    let month = text.subrange(6 + day, 9 + day);
    reveal_strlit("Sun");
    reveal_strlit("Mon");
    reveal_strlit("Tue");
    reveal_strlit("Wed");
    reveal_strlit("Thu");
    reveal_strlit("Fri");
    reveal_strlit("Sat");
    reveal_strlit("Jan");
    reveal_strlit("Feb");
    reveal_strlit("Mar");
    reveal_strlit("Apr");
    reveal_strlit("May");
    reveal_strlit("Jun");
    reveal_strlit("Jul");
    reveal_strlit("Aug");
    reveal_strlit("Sep");
    reveal_strlit("Oct");
    reveal_strlit("Nov");
    reveal_strlit("Dec");
    assert forall|i: int| 0 <= i < text.len() implies text[i] != '\n' by {
        if i < 3 {
            assert(text[i] == weekday[i]);
        } else if 6 + day <= i < 9 + day {
            assert(text[i] == month[i - 6 - day]);
        }
    }
}

/// Calls `chrono::offset::Local::now` and formats the time it gives with
/// `DateTime::to_rfc2822`, which writes the short English names of the day
/// and the month, the day of the month without leading zero, the year in
/// four digits, the time of day, and the offset from UTC as a sign and four
/// digits. Which time that is depends on the clock, so the form is all that
/// is claimed. In place of giving a text chrono panics where the clock
/// stands before 1970 or beyond the year 9999, or where it finds no local
/// offset for the time.
#[verifier::external_body]
fn local_time_text() -> (text: String)
    ensures
        is_date_text(text@),
{
    chrono::offset::Local::now().to_rfc2822()
}

impl HttpResponse {
    /// A response that reports a failure with `status`; its body is the
    /// message as plain text, closed by a line feed.
    pub fn error(status: HttpStatus, message: &str) -> (response: HttpResponse)
        ensures
            response@ == error_response(status@, message@),
    {
        let mut body = String::from_str(message);
        if !str_ends_with(message, '\n') {
            body.append("\n");
            proof {
                reveal_strlit("\n");
                assert(message@ + "\n"@ =~= message@.push('\n'));
            }
        }
        HttpResponse {
            status,
            body: body.as_str().as_bytes_vec(),
            content_type: ContentType::plain_text(),
        }
    }

    /// A response with status 200 that carries `body`.
    pub fn success(content_type: ContentType, body: Vec<u8>) -> (response: HttpResponse)
        ensures
            response@ == success_response(content_type@, body@),
    {
        HttpResponse { status: ok(), body, content_type }
    }

    /// The bytes to send for this response, with `date` as the time in its
    /// `Date` header.
    pub fn serialize_with_date(&self, date: &str) -> (message: Vec<u8>)
        ensures
            message@ == wire_format(self@, date@),
            !date@.contains('\n') && !self@.status.reason.contains('\n') ==> body_of(message@)
                == Some(self@.body) && content_length_of(message@) == Some(self@.body.len()),
    {
        let mime = self.content_type.as_str();
        let mut head = String::from_str("HTTP/1.0 ");
        head.append(decimal_text(self.status.0 as usize).as_str());
        head.append(" ");
        head.append(self.status.1);
        head.append("\r\n");
        head.append("Server: ");
        head.append(SERVER_NAME);
        head.append("/");
        head.append(SERVER_VERSION);
        head.append("\r\n");
        head.append("Date: ");
        head.append(date);
        head.append("\r\n");
        head.append("Content-Type: ");
        head.append(mime);
        head.append("\r\n");
        head.append("Content-Length: ");
        head.append(decimal_text(self.body.len()).as_str());
        head.append("\r\n");
        head.append("\r\n");
        proof {
            assert(head@ =~= header_text(self@, date@));
        }
        let mut message = head.as_str().as_bytes_vec();
        message.extend_from_slice(self.body.as_slice());
        proof {
            assert(message@ =~= wire_format(self@, date@));
            if !date@.contains('\n') && !self@.status.reason.contains('\n') {
                reveal_strlit("application/octet-stream");
                reveal_strlit("text/html;charset=utf-8");
                reveal_strlit("text/plain");
                assert(!mime@.contains('\n'));
                lemma_content_length_is_body_length(self@, date@);
            }
        }
        message
    }

    /// The bytes to send for this response now: the head with the local
    /// time of the call in its `Date` header, then the body.
    ///
    /// This reads the clock through chrono, which panics on a machine whose
    /// clock stands before 1970 or beyond the year 9999, or for which it
    /// finds no local offset. `serialize_with_date` reads no clock and never
    /// panics: a caller that cannot risk a panic gets the date itself and
    /// hands it over.
    pub fn serialize(&self) -> (message: Vec<u8>)
        ensures
            exists|date: Seq<char>|
                is_date_text(date) && message@ == #[trigger] wire_format(self@, date),
            !self@.status.reason.contains('\n') ==> body_of(message@) == Some(self@.body)
                && content_length_of(message@) == Some(self@.body.len()),
    {
        let date = local_time_text();
        proof {
            lemma_date_text_on_one_line(date@);
        }
        self.serialize_with_date(date.as_str())
    }
}

} // verus!

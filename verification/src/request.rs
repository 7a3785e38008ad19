//! The request parser: from the text of a request to its method, path and
//! headers, or to the reason why it is no request.

use crate::text::{
    lemma_split_concat, lemma_split_join, lemma_split_some, lemma_split_whole, pieces, range_is,
    split, split_ranges, to_chars, trim, trim_range,
};
use vstd::hash_map::StringHashMap;
use vstd::prelude::*;

verus! {

/// The methods that the parser knows by name.
#[derive(Debug, Clone, Copy, PartialEq, Eq, Structural)]
pub enum Method {
    Get,
    Head,
    Put,
    Post,
}

/// Why a text is not a request that can be served.
#[derive(Debug, Clone, Copy, PartialEq, Eq, Structural)]
pub enum ParseError {
    /// The text has fewer than three lines, or its first line has fewer than
    /// three parts.
    InvalidRequest,
    /// The first part of the first line names no method that the parser
    /// knows.
    UnsupportedMethod,
}

/// A parsed request. There is none but what `parse_http_request` gives, so
/// each comes from a text of three lines at least, with three parts at least
/// in the first.
pub struct HttpRequest {
    method: Method,
    path: String,
    headers: StringHashMap<String>,
}

/// A parsed request in contracts.
pub struct RequestModel {
    pub method: Method,
    pub path: Seq<char>,
    pub headers: Map<Seq<char>, Seq<char>>,
}

impl View for HttpRequest {
    type V = RequestModel;

    closed spec fn view(&self) -> RequestModel {
        RequestModel {
            method: self.method,
            path: self.path@,
            headers: self.headers@.map_values(|value: String| value@),
        }
    }
}

/// The method that a token of the request line names, if it names one.
pub open spec fn method_of(token: Seq<char>) -> Option<Method> {
    if token == "GET"@ {
        Some(Method::Get)
    } else if token == "HEAD"@ {
        Some(Method::Head)
    } else if token == "PUT"@ {
        Some(Method::Put)
    } else if token == "POST"@ {
        Some(Method::Post)
    } else {
        None
    }
}

/// The lines that are read as headers: those before the first empty line.
pub open spec fn header_lines(lines: Seq<Seq<char>>) -> Seq<Seq<char>>
    decreases lines.len(),
{
    if lines.len() == 0 || lines[0].len() == 0 {
        Seq::<Seq<char>>::empty()
    } else {
        seq![lines[0]] + header_lines(lines.drop_first())
    }
}

/// The headers that the lines give. A line with exactly one colon puts what
/// follows the colon, trimmed, under what stands before it; a later line
/// replaces an earlier one of the same name. Any other line counts for
/// nothing.
pub open spec fn headers_of(lines: Seq<Seq<char>>) -> Map<Seq<char>, Seq<char>>
    decreases lines.len(),
{
    if lines.len() == 0 {
        Map::<Seq<char>, Seq<char>>::empty()
    } else {
        let before = headers_of(lines.drop_last());
        let parts = split(lines.last(), ':');
        if parts.len() == 2 {
            before.insert(parts[0], trim(parts[1]))
        } else {
            before
        }
    }
}

/// What the text of a request parses to.
///
/// The text is cut into lines at line feeds, and its first line into parts
/// at single spaces. The first part names the method, the second is the path
/// as it stands, and the lines that follow the first give the headers.
pub open spec fn parse(text: Seq<char>) -> Result<RequestModel, ParseError> {
    let lines = split(text, '\n');
    let parts = split(lines[0], ' ');
    if lines.len() < 3 || parts.len() < 3 {
        Err(ParseError::InvalidRequest)
    } else {
        match method_of(parts[0]) {
            Some(method) => Ok(
                RequestModel {
                    method,
                    path: parts[1],
                    headers: headers_of(header_lines(lines.drop_first())),
                },
            ),
            None => Err(ParseError::UnsupportedMethod),
        }
    }
}

/// The text of a request: the request line, made of a method, a path and a
/// version with single spaces between them, a line feed, and what follows.
pub open spec fn request_text(
    method: Seq<char>,
    path: Seq<char>,
    version: Seq<char>,
    rest: Seq<char>,
) -> Seq<char> {
    (method.push(' ') + (path.push(' ') + version)).push('\n') + rest
}

/// A request line with a known method, followed by two more lines at least,
/// parses to that method, to the path as it stands, and to the headers that
/// the following lines give. With an unknown method it is refused as
/// unsupported.
pub proof fn lemma_parse_request_line(
    method: Seq<char>,
    path: Seq<char>,
    version: Seq<char>,
    rest: Seq<char>,
)
    requires
        !method.contains(' '),
        !method.contains('\n'),
        !path.contains(' '),
        !path.contains('\n'),
        !version.contains('\n'),
        rest.contains('\n'),
    ensures
        match method_of(method) {
            Some(known) => parse(request_text(method, path, version, rest)) == Ok::<
                RequestModel,
                ParseError,
            >(
                RequestModel {
                    method: known,
                    path,
                    headers: headers_of(header_lines(split(rest, '\n'))),
                },
            ),
            None => parse(request_text(method, path, version, rest)) == Err::<
                RequestModel,
                ParseError,
            >(ParseError::UnsupportedMethod),
        },
{
    let tail = path.push(' ') + version;
    let line = method.push(' ') + tail;
    let text = request_text(method, path, version, rest);
    assert forall|i: int| 0 <= i < line.len() implies line[i] != '\n' by {
        if i < method.len() {
            assert(method.contains(method[i]));
        } else if i == method.len() {
        } else if i < method.len() + 1 + path.len() {
            assert(path.contains(path[i - method.len() - 1]));
        } else if i == method.len() + 1 + path.len() {
        } else {
            assert(version.contains(version[i - method.len() - 1 - path.len() - 1]));
        }
    }
    lemma_split_whole(line, '\n');
    lemma_split_concat(line, rest, '\n');
    lemma_split_some(rest, '\n');
    let lines = split(text, '\n');
    assert(lines == seq![line] + split(rest, '\n'));
    assert(lines[0] == line);
    assert(lines.drop_first() =~= split(rest, '\n'));
    lemma_split_whole(method, ' ');
    lemma_split_whole(path, ' ');
    lemma_split_concat(method, tail, ' ');
    lemma_split_concat(path, version, ' ');
    lemma_split_join(version, ' ');
    let parts = split(line, ' ');
    assert(parts == seq![method] + (seq![path] + split(version, ' ')));
    assert(parts[0] == method);
    assert(parts[1] == path);
}

/// Where the first `count` lines are not empty and the next one, if there is
/// one, is, they are the header lines.
proof fn lemma_header_lines(lines: Seq<Seq<char>>, count: int)
    requires
        0 <= count <= lines.len(),
        forall|j: int| 0 <= j < count ==> (#[trigger] lines[j]).len() > 0,
        count == lines.len() || lines[count].len() == 0,
    ensures
        header_lines(lines) == lines.take(count),
    decreases count,
{
    if count == 0 {
        assert(lines.take(0) =~= Seq::<Seq<char>>::empty());
    } else {
        let rest = lines.drop_first();
        assert forall|j: int| 0 <= j < count - 1 implies (#[trigger] rest[j]).len() > 0 by {
            assert(rest[j] == lines[j + 1]);
        }
        lemma_header_lines(rest, count - 1);
        assert(lines.take(count) =~= seq![lines[0]] + rest.take(count - 1));
    }
}

/// Parses the text of a request.
pub fn parse_http_request(request: &str) -> (parsed: Result<HttpRequest, ParseError>)
    ensures
        match parse(request@) {
            Ok(model) => parsed is Ok && parsed->Ok_0@ == model,
            Err(error) => parsed is Err && parsed->Err_0 == error,
        },
{
    let chars = to_chars(request);
    let lines = split_ranges(&chars, 0, chars.len(), '\n');
    let ghost all_lines = split(request@, '\n');
    proof {
        assert(chars@.subrange(0, chars.len() as int) =~= request@);
        lemma_split_join(request@, '\n');
        assert(pieces(chars@, lines@).len() == lines.len());
    }
    let first = lines[0];
    let parts = split_ranges(&chars, first.0, first.1, ' ');
    proof {
        assert(pieces(chars@, lines@)[0] == chars@.subrange(first.0 as int, first.1 as int));
        lemma_split_join(all_lines[0], ' ');
        assert(pieces(chars@, parts@).len() == parts.len());
    }
    if lines.len() < 3 || parts.len() < 3 {
        return Err(ParseError::InvalidRequest);
    }
    proof {
        assert(pieces(chars@, parts@)[0] == chars@.subrange(
            parts[0].0 as int,
            parts[0].1 as int,
        ));
        assert(pieces(chars@, parts@)[1] == chars@.subrange(
            parts[1].0 as int,
            parts[1].1 as int,
        ));
    }
    let method = if range_is(&chars, parts[0].0, parts[0].1, "GET") {
        Method::Get
    } else if range_is(&chars, parts[0].0, parts[0].1, "HEAD") {
        Method::Head
    } else if range_is(&chars, parts[0].0, parts[0].1, "PUT") {
        Method::Put
    } else if range_is(&chars, parts[0].0, parts[0].1, "POST") {
        Method::Post
    } else {
        return Err(ParseError::UnsupportedMethod);
    };
    let path = String::from_str(request.substring_char(parts[1].0, parts[1].1));
    let mut headers: StringHashMap<String> = StringHashMap::new();
    let ghost later = all_lines.drop_first();
    let mut k: usize = 1;
    proof {
        assert(later.take(0) =~= Seq::<Seq<char>>::empty());
        assert(headers@.map_values(|value: String| value@) =~= Map::<
            Seq<char>,
            Seq<char>,
        >::empty());
    }
    while k < lines.len() && lines[k].0 != lines[k].1
        invariant
            1 <= k <= lines.len(),
            chars@ == request@,
            all_lines == split(request@, '\n'),
            later == all_lines.drop_first(),
            pieces(chars@, lines@) == all_lines,
            forall|j: int|
                0 <= j < lines.len() ==> 0 <= (#[trigger] lines[j]).0 <= lines[j].1
                    <= chars.len(),
            forall|j: int| 0 <= j < k - 1 ==> (#[trigger] later[j]).len() > 0,
            headers@.map_values(|value: String| value@) == headers_of(later.take(k - 1)),
        decreases lines.len() - k,
    {
        let line = lines[k];
        let ghost known = headers@.map_values(|value: String| value@);
        proof {
            assert(pieces(chars@, lines@)[k as int] == chars@.subrange(
                line.0 as int,
                line.1 as int,
            ));
            assert(later[k - 1] == all_lines[k as int]);
            assert(later.take(k as int).drop_last() =~= later.take(k - 1));
            assert(later.take(k as int).last() == later[k - 1]);
        }
        let fields = split_ranges(&chars, line.0, line.1, ':');
        proof {
            assert(pieces(chars@, fields@).len() == fields.len());
        }
        if fields.len() == 2 {
            proof {
                assert(pieces(chars@, fields@)[0] == chars@.subrange(
                    fields[0].0 as int,
                    fields[0].1 as int,
                ));
                assert(pieces(chars@, fields@)[1] == chars@.subrange(
                    fields[1].0 as int,
                    fields[1].1 as int,
                ));
            }
            let name = String::from_str(request.substring_char(fields[0].0, fields[0].1));
            let trimmed = trim_range(&chars, fields[1].0, fields[1].1);
            let value = String::from_str(request.substring_char(trimmed.0, trimmed.1));
            let ghost name_text = name@;
            let ghost value_text = value@;
            headers.insert(name, value);
            proof {
                assert(headers@.map_values(|value: String| value@) =~= known.insert(
                    name_text,
                    value_text,
                ));
            }
        }
        k += 1;
    }
    proof {
        assert(k < lines.len() ==> pieces(chars@, lines@)[k as int] == chars@.subrange(
            lines[k as int].0 as int,
            lines[k as int].1 as int,
        ));
        assert(k < lines.len() ==> later[k - 1] == all_lines[k as int]);
        lemma_header_lines(later, k - 1);
    }
    Ok(HttpRequest { method, path, headers })
}

impl HttpRequest {
    /// The method of the request.
    pub fn method(&self) -> (method: Method)
        ensures
            method == self@.method,
    {
        self.method
    }

    /// The path of the request, as it stood in the request line.
    pub fn path(&self) -> (path: &str)
        ensures
            path@ == self@.path,
    {
        self.path.as_str()
    }

    /// The value of the header `name`, if the request has that header.
    pub fn header(&self, name: &str) -> (value: Option<&String>)
        ensures
            match value {
                Some(value) => self@.headers.contains_key(name@) && self@.headers[name@]
                    == value@,
                None => !self@.headers.contains_key(name@),
            },
    {
        self.headers.get(name)
    }
}

} // verus!

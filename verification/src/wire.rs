//! Reading a response back from its bytes on the wire: where the body
//! begins, and which length the head declares for it.
//!
//! Nothing here runs. These are the terms in which the serializer's promise
//! is stated: what a reader finds in the bytes is what the response holds.

use crate::response::{
    content_length_line, content_type_line, date_line, line_end, server_line, status_line,
    wire_format, ResponseModel, SERVER_NAME, SERVER_VERSION,
};
use crate::text::{
    ascii, decimal, digit, lemma_encode_utf8_ascii, lemma_encode_utf8_concat,
    lemma_encode_utf8_line_feed,
};
use vstd::prelude::*;
use vstd::utf8::{encode_utf8, is_ascii_chars};

verus! {

/// Whether `needle` stands in `bytes` at the index `at`.
pub open spec fn occurs_at(bytes: Seq<u8>, needle: Seq<u8>, at: int) -> bool {
    0 <= at && at + needle.len() <= bytes.len() && bytes.subrange(at, at + needle.len())
        == needle
}

/// The index of the first place at or after `from` where `needle` stands in
/// `bytes`.
pub open spec fn find(bytes: Seq<u8>, needle: Seq<u8>, from: int) -> Option<int>
    decreases bytes.len() - from + 1,
{
    if from < 0 || from + needle.len() > bytes.len() {
        None
    } else if occurs_at(bytes, needle, from) {
        Some(from)
    } else {
        find(bytes, needle, from + 1)
    }
}

/// The bytes of the end of a line.
pub open spec fn crlf() -> Seq<u8> {
    seq![0x0du8, 0x0au8]
}

/// The bytes that close the head of a message: the end of its last header
/// line and an empty line.
pub open spec fn blank_line() -> Seq<u8> {
    seq![0x0du8, 0x0au8, 0x0du8, 0x0au8]
}

/// The bytes with which the header line that declares the length begins,
/// together with the end of the line before it.
pub open spec fn length_header() -> Seq<u8> {
    ascii("\r\nContent-Length: "@)
}

/// Whether `byte` is a decimal digit.
pub open spec fn is_digit(byte: u8) -> bool {
    0x30 <= byte <= 0x39
}

/// The digits that `bytes` begins with.
pub open spec fn leading_digits(bytes: Seq<u8>) -> Seq<u8>
    decreases bytes.len(),
{
    if bytes.len() > 0 && is_digit(bytes[0]) {
        seq![bytes[0]] + leading_digits(bytes.drop_first())
    } else {
        Seq::<u8>::empty()
    }
}

/// The number that a run of decimal digits stands for.
pub open spec fn number(digits: Seq<u8>) -> nat
    decreases digits.len(),
{
    if digits.len() == 0 {
        0
    } else {
        number(digits.drop_last()) * 10 + (digits.last() - 0x30) as nat
    }
}

/// The body of a message: all that follows its first empty line.
pub open spec fn body_of(message: Seq<u8>) -> Option<Seq<u8>> {
    match find(message, blank_line(), 0) {
        Some(at) => Some(message.skip(at + blank_line().len())),
        None => None,
    }
}

/// The length that a message declares for its body: the number that follows
/// `Content-Length: ` in the first header line of that name.
pub open spec fn content_length_of(message: Seq<u8>) -> Option<nat> {
    match find(message, length_header(), 0) {
        Some(at) => Some(number(leading_digits(message.skip(at + length_header().len())))),
        None => None,
    }
}

/// A line, the end of the line, and what follows.
spec fn framed(line: Seq<u8>, rest: Seq<u8>) -> Seq<u8> {
    line + crlf() + rest
}

/// Whether `needle` begins with the end of a line.
spec fn starts_at_line_end(needle: Seq<u8>) -> bool {
    needle.len() >= 2 && needle[0] == 0x0du8 && needle[1] == 0x0au8
}

proof fn lemma_find_first(bytes: Seq<u8>, needle: Seq<u8>, from: int, at: int)
    requires
        0 <= from <= at,
        occurs_at(bytes, needle, at),
        forall|j: int| from <= j < at ==> !occurs_at(bytes, needle, j),
    ensures
        find(bytes, needle, from) == Some(at),
    decreases at - from,
{
    if from < at {
        lemma_find_first(bytes, needle, from + 1, at);
    }
}

proof fn lemma_find_found(bytes: Seq<u8>, needle: Seq<u8>, from: int)
    requires
        find(bytes, needle, from) is Some,
    ensures
        from <= find(bytes, needle, from)->Some_0,
        occurs_at(bytes, needle, find(bytes, needle, from)->Some_0),
        forall|j: int|
            from <= j < find(bytes, needle, from)->Some_0 ==> !occurs_at(bytes, needle, j),
    decreases bytes.len() - from + 1,
{
    if from < 0 || from + needle.len() > bytes.len() {
    } else if occurs_at(bytes, needle, from) {
    } else {
        lemma_find_found(bytes, needle, from + 1);
    }
}

/// Inside a line without line feed, and at its line feed, nothing begins
/// that starts with the end of a line.
proof fn lemma_none_within_line(line: Seq<u8>, rest: Seq<u8>, needle: Seq<u8>, j: int)
    requires
        !line.contains(0x0au8),
        starts_at_line_end(needle),
        0 <= j < line.len() + 2,
        j != line.len(),
    ensures
        !occurs_at(framed(line, rest), needle, j),
{
    let whole = framed(line, rest);
    if occurs_at(whole, needle, j) {
        let part = whole.subrange(j, j + needle.len());
        assert(part[0] == whole[j]);
        assert(part[1] == whole[j + 1]);
        if j + 1 < line.len() {
            assert(whole[j + 1] == line[j + 1]);
            assert(line.contains(line[j + 1]));
        } else if j + 1 == line.len() {
            assert(whole[j + 1] == crlf()[0]);
        } else {
            assert(whole[j] == crlf()[1]);
        }
    }
}

/// What stands after a line and its end stands in the whole, that much
/// further on.
proof fn lemma_shifted(line: Seq<u8>, rest: Seq<u8>, needle: Seq<u8>, i: int)
    requires
        0 <= i,
    ensures
        occurs_at(framed(line, rest), needle, line.len() + 2 + i) == occurs_at(rest, needle, i),
{
    let whole = framed(line, rest);
    let at = line.len() + 2 + i;
    if i + needle.len() <= rest.len() {
        assert(whole.subrange(at, at + needle.len()) =~= rest.subrange(i, i + needle.len()));
    }
}

/// At the end of a line stands what starts with the end of a line and goes
/// on as the next line does.
proof fn lemma_at_line_end(line: Seq<u8>, rest: Seq<u8>, needle: Seq<u8>)
    requires
        starts_at_line_end(needle),
    ensures
        occurs_at(framed(line, rest), needle, line.len() as int) == needle.skip(2).is_prefix_of(
            rest,
        ),
{
    let whole = framed(line, rest);
    let at = line.len() as int;
    let tail = needle.skip(2);
    if occurs_at(whole, needle, at) {
        let part = whole.subrange(at, at + needle.len());
        assert(tail.len() <= rest.len());
        assert forall|k: int| 0 <= k < tail.len() implies tail[k] == rest.subrange(
            0,
            tail.len() as int,
        )[k] by {
            assert(part[k + 2] == whole[at + k + 2]);
            assert(whole[at + k + 2] == rest[k]);
        }
        assert(tail =~= rest.subrange(0, tail.len() as int));
    }
    if tail.is_prefix_of(rest) {
        let part = whole.subrange(at, at + needle.len());
        assert forall|k: int| 0 <= k < needle.len() implies part[k] == needle[k] by {
            if k < 2 {
                assert(whole[at + k] == crlf()[k]);
            } else {
                assert(whole[at + k] == rest[k - 2]);
                assert(rest.subrange(0, tail.len() as int)[k - 2] == tail[k - 2]);
            }
        }
        assert(part =~= needle);
    }
}

/// The first place of a needle that begins with the end of a line, in a
/// text that begins with a line without line feed: the end of that line,
/// where the needle goes on as the next line does.
proof fn lemma_found_at_line_end(line: Seq<u8>, rest: Seq<u8>, needle: Seq<u8>)
    requires
        !line.contains(0x0au8),
        starts_at_line_end(needle),
        needle.skip(2).is_prefix_of(rest),
    ensures
        find(framed(line, rest), needle, 0) == Some(line.len() as int),
{
    let whole = framed(line, rest);
    lemma_at_line_end(line, rest, needle);
    assert forall|j: int| 0 <= j < line.len() implies !occurs_at(whole, needle, j) by {
        lemma_none_within_line(line, rest, needle, j);
    }
    lemma_find_first(whole, needle, 0, line.len() as int);
}

/// The first place of such a needle where it does not go on as the next
/// line does: its first place in what follows the line, that much further
/// on.
proof fn lemma_found_after_line(line: Seq<u8>, rest: Seq<u8>, needle: Seq<u8>, at: int)
    requires
        !line.contains(0x0au8),
        starts_at_line_end(needle),
        !needle.skip(2).is_prefix_of(rest),
        find(rest, needle, 0) == Some(at),
    ensures
        find(framed(line, rest), needle, 0) == Some(line.len() + 2 + at),
{
    let whole = framed(line, rest);
    lemma_find_found(rest, needle, 0);
    lemma_at_line_end(line, rest, needle);
    lemma_shifted(line, rest, needle, at);
    assert forall|j: int| 0 <= j < line.len() + 2 + at implies !occurs_at(whole, needle, j) by {
        if j < line.len() + 2 {
            if j != line.len() {
                lemma_none_within_line(line, rest, needle, j);
            }
        } else {
            lemma_shifted(line, rest, needle, j - line.len() - 2);
        }
    }
    lemma_find_first(whole, needle, 0, line.len() + 2 + at);
}

/// The decimal numeral of a number is made of digits, one at least, and
/// stands for that number.
pub proof fn lemma_decimal_number(n: nat)
    ensures
        decimal(n).len() >= 1,
        forall|i: int| 0 <= i < decimal(n).len() ==> '0' <= #[trigger] decimal(n)[i] <= '9',
        number(ascii(decimal(n))) == n,
    decreases n,
{
    assert(digit(n % 10) as u8 == 0x30 + n % 10);
    assert('0' <= digit(n % 10) <= '9');
    if n < 10 {
        assert(ascii(decimal(n)).drop_last() =~= Seq::<u8>::empty());
        assert(number(ascii(decimal(n)).drop_last()) == 0);
    } else {
        lemma_decimal_number(n / 10);
        assert(ascii(decimal(n)).drop_last() =~= ascii(decimal(n / 10)));
        assert(ascii(decimal(n)).last() == digit(n % 10) as u8);
    }
}

/// A run of digits that is followed by no further digit is the run of
/// digits that the whole begins with.
proof fn lemma_leading_digits(digits: Seq<u8>, rest: Seq<u8>)
    requires
        forall|i: int| 0 <= i < digits.len() ==> is_digit(#[trigger] digits[i]),
        rest.len() == 0 || !is_digit(rest[0]),
    ensures
        leading_digits(digits + rest) == digits,
    decreases digits.len(),
{
    let whole = digits + rest;
    if digits.len() == 0 {
        assert(whole =~= rest);
    } else {
        assert(whole[0] == digits[0]);
        assert(whole.drop_first() =~= digits.drop_first() + rest);
        assert forall|i: int| 0 <= i < digits.drop_first().len() implies is_digit(
            #[trigger] digits.drop_first()[i],
        ) by {
            assert(digits.drop_first()[i] == digits[i + 1]);
        }
        lemma_leading_digits(digits.drop_first(), rest);
        assert(seq![digits[0]] + digits.drop_first() =~= digits);
    }
}

/// Two texts without line feed have none when put in a row.
proof fn lemma_one_line(a: Seq<char>, b: Seq<char>)
    requires
        !a.contains('\n'),
        !b.contains('\n'),
    ensures
        !(a + b).contains('\n'),
{
    assert forall|i: int| 0 <= i < (a + b).len() implies (a + b)[i] != '\n' by {
        if i < a.len() {
            assert(a.contains(a[i]));
        } else {
            assert(b.contains(b[i - a.len()]));
        }
    }
}

/// The bytes of a line that begins with an ASCII word: the bytes of the
/// word, then those of the rest. They hold no line feed where the word and
/// the rest hold none.
proof fn lemma_worded_line(word: Seq<char>, rest: Seq<char>)
    requires
        is_ascii_chars(word),
        !word.contains('\n'),
        !rest.contains('\n'),
    ensures
        encode_utf8(word + rest) == ascii(word) + encode_utf8(rest),
        !encode_utf8(word + rest).contains(0x0au8),
{
    lemma_encode_utf8_concat(word, rest);
    lemma_encode_utf8_ascii(word);
    lemma_one_line(word, rest);
    lemma_encode_utf8_line_feed(word + rest);
}

/// The bytes of the status line hold no line feed where the reason holds
/// none.
proof fn lemma_status_line(response: ResponseModel)
    requires
        !response.status.reason.contains('\n'),
    ensures
        !encode_utf8(status_line(response.status)).contains(0x0au8),
{
    reveal_strlit("HTTP/1.0 ");
    reveal_strlit(" ");
    lemma_decimal_number(response.status.code);
    let code = decimal(response.status.code);
    assert(!code.contains('\n'));
    assert(!"HTTP/1.0 "@.contains('\n'));
    assert(!" "@.contains('\n'));
    lemma_one_line("HTTP/1.0 "@, code);
    lemma_one_line("HTTP/1.0 "@ + code, " "@);
    lemma_one_line("HTTP/1.0 "@ + code + " "@, response.status.reason);
    lemma_encode_utf8_line_feed(status_line(response.status));
}

/// The bytes of the `Server` header: no line feed, and `S` in front.
proof fn lemma_server_line()
    ensures
        !encode_utf8(server_line()).contains(0x0au8),
        encode_utf8(server_line()).len() > 0,
        encode_utf8(server_line())[0] == 0x53,
{
    reveal_strlit("Server: ");
    reveal_strlit("mini_httpd");
    reveal_strlit("/");
    reveal_strlit("0.1.0");
    assert(!"Server: "@.contains('\n'));
    assert(!SERVER_NAME@.contains('\n'));
    assert(!"/"@.contains('\n'));
    assert(!SERVER_VERSION@.contains('\n'));
    lemma_one_line(SERVER_NAME@, "/"@);
    lemma_one_line(SERVER_NAME@ + "/"@, SERVER_VERSION@);
    assert(server_line() =~= "Server: "@ + (SERVER_NAME@ + "/"@ + SERVER_VERSION@));
    lemma_worded_line("Server: "@, SERVER_NAME@ + "/"@ + SERVER_VERSION@);
}

/// The bytes of the `Date` header: no line feed where the date holds none,
/// and `D` in front.
proof fn lemma_date_line(date: Seq<char>)
    requires
        !date.contains('\n'),
    ensures
        !encode_utf8(date_line(date)).contains(0x0au8),
        encode_utf8(date_line(date)).len() > 0,
        encode_utf8(date_line(date))[0] == 0x44,
{
    reveal_strlit("Date: ");
    assert(!"Date: "@.contains('\n'));
    lemma_worded_line("Date: "@, date);
}

/// The bytes of the `Content-Type` header: no line feed where the type
/// holds none, and the header's name in front.
proof fn lemma_content_type_line(content_type: Seq<char>)
    requires
        !content_type.contains('\n'),
    ensures
        !encode_utf8(content_type_line(content_type)).contains(0x0au8),
        encode_utf8(content_type_line(content_type)).len() >= 14,
        encode_utf8(content_type_line(content_type))[0] == 0x43,
        encode_utf8(content_type_line(content_type))[8] == 0x54,
{
    reveal_strlit("Content-Type: ");
    assert(!"Content-Type: "@.contains('\n'));
    lemma_worded_line("Content-Type: "@, content_type);
}

/// The bytes of the `Content-Length` header: the header's name and the
/// digits of the length, and no line feed.
proof fn lemma_content_length_line(length: nat)
    ensures
        !encode_utf8(content_length_line(length)).contains(0x0au8),
        encode_utf8(content_length_line(length)) == ascii("Content-Length: "@) + ascii(
            decimal(length),
        ),
{
    reveal_strlit("Content-Length: ");
    lemma_decimal_number(length);
    assert(!"Content-Length: "@.contains('\n'));
    assert(!decimal(length).contains('\n'));
    lemma_worded_line("Content-Length: "@, decimal(length));
    lemma_encode_utf8_ascii(decimal(length));
}

/// The bytes of a response are its five header lines, each with its end,
/// the empty line, and the body.
proof fn lemma_wire_lines(response: ResponseModel, date: Seq<char>)
    ensures
        wire_format(response, date) == framed(
            encode_utf8(status_line(response.status)),
            framed(
                encode_utf8(server_line()),
                framed(
                    encode_utf8(date_line(date)),
                    framed(
                        encode_utf8(content_type_line(response.content_type)),
                        framed(
                            encode_utf8(content_length_line(response.body.len())),
                            crlf() + response.body,
                        ),
                    ),
                ),
            ),
        ),
{
    let end = line_end();
    let a = status_line(response.status);
    let b = server_line();
    let c = date_line(date);
    let d = content_type_line(response.content_type);
    let e = content_length_line(response.body.len());
    reveal_strlit("\r\n");
    lemma_encode_utf8_ascii(end);
    assert(encode_utf8(end) =~= crlf());
    lemma_encode_utf8_concat(a, end);
    lemma_encode_utf8_concat(a + end, b);
    lemma_encode_utf8_concat(a + end + b, end);
    lemma_encode_utf8_concat(a + end + b + end, c);
    lemma_encode_utf8_concat(a + end + b + end + c, end);
    lemma_encode_utf8_concat(a + end + b + end + c + end, d);
    lemma_encode_utf8_concat(a + end + b + end + c + end + d, end);
    lemma_encode_utf8_concat(a + end + b + end + c + end + d + end, e);
    lemma_encode_utf8_concat(a + end + b + end + c + end + d + end + e, end);
    lemma_encode_utf8_concat(a + end + b + end + c + end + d + end + e + end, end);
    assert(wire_format(response, date) =~= framed(
        encode_utf8(a),
        framed(
            encode_utf8(b),
            framed(
                encode_utf8(c),
                framed(encode_utf8(d), framed(encode_utf8(e), crlf() + response.body)),
            ),
        ),
    ));
}

/// What a reader finds in the bytes of a response is what the response
/// holds: the body begins after the first empty line, and the number after
/// `Content-Length: ` is the number of its bytes. This holds where the
/// reason phrase, the content type and the date stay on one line each.
pub proof fn lemma_content_length_is_body_length(response: ResponseModel, date: Seq<char>)
    requires
        !response.status.reason.contains('\n'),
        !response.content_type.contains('\n'),
        !date.contains('\n'),
    ensures
        body_of(wire_format(response, date)) == Some(response.body),
        content_length_of(wire_format(response, date)) == Some(response.body.len()),
{
    let body = response.body;
    let l1 = encode_utf8(status_line(response.status));
    let l2 = encode_utf8(server_line());
    let l3 = encode_utf8(date_line(date));
    let l4 = encode_utf8(content_type_line(response.content_type));
    let l5 = encode_utf8(content_length_line(body.len()));
    let w5 = crlf() + body;
    let w4 = framed(l5, w5);
    let w3 = framed(l4, w4);
    let w2 = framed(l3, w3);
    let w1 = framed(l2, w2);
    let w0 = framed(l1, w1);
    let n1 = l1.len() as int;
    let n2 = l2.len() as int;
    let n3 = l3.len() as int;
    let n4 = l4.len() as int;
    let n5 = l5.len() as int;
    lemma_wire_lines(response, date);
    lemma_status_line(response);
    lemma_server_line();
    lemma_date_line(date);
    lemma_content_type_line(response.content_type);
    lemma_content_length_line(body.len());
    reveal_strlit("\r\nContent-Length: ");
    reveal_strlit("Content-Length: ");
    let name = ascii("Content-Length: "@);
    let digits = ascii(decimal(body.len()));
    assert(l5 == name + digits);
    assert(w1[0] == l2[0]);
    assert(w2[0] == l3[0]);
    assert(w3[0] == l4[0]);
    assert(w3[8] == l4[8]);
    assert(w4[0] == l5[0]);
    assert(l5[0] == name[0]);

    // the empty line
    let blank = blank_line();
    assert(blank.skip(2) =~= crlf());
    assert(crlf().is_prefix_of(w5)) by {
        assert(w5.subrange(0, 2) =~= crlf());
    }
    lemma_found_at_line_end(l5, w5, blank);
    assert(!crlf().is_prefix_of(w4)) by {
        assert(w4.subrange(0, 2)[0] == w4[0]);
    }
    lemma_found_after_line(l4, w4, blank, n5);
    assert(!crlf().is_prefix_of(w3)) by {
        assert(w3.subrange(0, 2)[0] == w3[0]);
    }
    lemma_found_after_line(l3, w3, blank, n4 + 2 + n5);
    assert(!crlf().is_prefix_of(w2)) by {
        assert(w2.subrange(0, 2)[0] == w2[0]);
    }
    lemma_found_after_line(l2, w2, blank, n3 + 2 + n4 + 2 + n5);
    assert(!crlf().is_prefix_of(w1)) by {
        assert(w1.subrange(0, 2)[0] == w1[0]);
    }
    lemma_found_after_line(l1, w1, blank, n2 + 2 + n3 + 2 + n4 + 2 + n5);
    let head = n1 + 2 + n2 + 2 + n3 + 2 + n4 + 2 + n5;
    assert(find(w0, blank, 0) == Some(head));
    assert(w0.skip(head + 4) =~= body);

    // the header that declares the length
    let needle = length_header();
    assert(needle.skip(2) =~= name);
    assert(name.is_prefix_of(w4)) by {
        assert(w4.subrange(0, name.len() as int) =~= name);
    }
    lemma_found_at_line_end(l4, w4, needle);
    assert(!name.is_prefix_of(w3)) by {
        assert(w3.subrange(0, name.len() as int)[8] == w3[8]);
        assert(name[8] == 0x4c);
    }
    lemma_found_after_line(l3, w3, needle, n4);
    assert(!name.is_prefix_of(w2)) by {
        assert(w2.subrange(0, name.len() as int)[0] == w2[0]);
        assert(name[0] == 0x43);
    }
    lemma_found_after_line(l2, w2, needle, n3 + 2 + n4);
    assert(!name.is_prefix_of(w1)) by {
        assert(w1.subrange(0, name.len() as int)[0] == w1[0]);
        assert(name[0] == 0x43);
    }
    lemma_found_after_line(l1, w1, needle, n2 + 2 + n3 + 2 + n4);
    let at = n1 + 2 + n2 + 2 + n3 + 2 + n4;
    assert(find(w0, needle, 0) == Some(at));
    assert(needle.len() == 18);
    assert(w0.skip(at + 18) =~= digits + (crlf() + w5));
    lemma_decimal_number(body.len());
    assert forall|i: int| 0 <= i < digits.len() implies is_digit(#[trigger] digits[i]) by {
        assert('0' <= decimal(body.len())[i] <= '9');
    }
    assert((crlf() + w5)[0] == 0x0d);
    lemma_leading_digits(digits, crlf() + w5);
}

} // verus!

//! Text primitives the protocol code is built from: splitting on a separator,
//! trimming white space, decimal numerals and UTF-8 byte forms.
//!
//! Every operation is specified over `Seq<char>`; the executable versions work
//! on a `Vec<char>` copy of the text and describe pieces by index ranges.

use vstd::prelude::*;
use vstd::utf8::*;

verus! {

/// The pieces of `s` that lie between occurrences of `sep`.
///
/// There is always at least one piece; a separator at either end, or two in a
/// row, gives an empty piece.
pub open spec fn split(s: Seq<char>, sep: char) -> Seq<Seq<char>>
    decreases s.len(),
{
    if s.len() == 0 {
        seq![Seq::<char>::empty()]
    } else {
        let before = split(s.drop_last(), sep);
        if s.last() == sep {
            before.push(Seq::<char>::empty())
        } else {
            before.drop_last().push(before.last().push(s.last()))
        }
    }
}

/// The pieces of `s` joined again, with `sep` between neighbours.
pub open spec fn join(pieces: Seq<Seq<char>>, sep: char) -> Seq<char>
    decreases pieces.len(),
{
    if pieces.len() == 0 {
        Seq::<char>::empty()
    } else if pieces.len() == 1 {
        pieces[0]
    } else {
        join(pieces.drop_last(), sep).push(sep) + pieces.last()
    }
}

/// Splitting loses nothing: no piece holds the separator, and joining the
/// pieces with the separator gives the text back.
pub proof fn lemma_split_join(s: Seq<char>, sep: char)
    ensures
        split(s, sep).len() >= 1,
        forall|k: int| 0 <= k < split(s, sep).len() ==> !(#[trigger] split(s, sep)[k]).contains(sep),
        join(split(s, sep), sep) == s,
    decreases s.len(),
{
    if s.len() > 0 {
        let before = split(s.drop_last(), sep);
        lemma_split_join(s.drop_last(), sep);
        if s.last() == sep {
            let all = before.push(Seq::<char>::empty());
            assert(all.drop_last() == before);
            assert(join(all, sep) == join(before, sep).push(sep) + Seq::<char>::empty());
            assert(join(before, sep).push(sep) == s);
        } else {
            let grown = before.last().push(s.last());
            let all = before.drop_last().push(grown);
            assert(all.drop_last() == before.drop_last());
            if before.len() == 1 {
                assert(join(before, sep) == before[0]);
                assert(join(all, sep) == grown);
            } else {
                assert(join(all, sep) == join(before.drop_last(), sep).push(sep) + grown);
                assert(join(before, sep) == join(before.drop_last(), sep).push(sep) + before.last());
                assert(join(before.drop_last(), sep).push(sep) + grown == (join(
                    before.drop_last(),
                    sep,
                ).push(sep) + before.last()).push(s.last()));
            }
            assert(s.drop_last().push(s.last()) == s);
            assert forall|k: int| 0 <= k < all.len() implies !(#[trigger] all[k]).contains(sep) by {
                if k == all.len() - 1 {
                    assert(!before.last().contains(sep));
                    assert forall|j: int| 0 <= j < grown.len() implies grown[j] != sep by {
                        if j < before.last().len() {
                            assert(before.last()[j] == grown[j]);
                            assert(before.last().contains(grown[j]));
                        }
                    }
                } else {
                    assert(all[k] == before[k]);
                }
            }
        }
    } else {
        assert(join(seq![Seq::<char>::empty()], sep) == Seq::<char>::empty());
    }
}

/// A text without the separator is one piece.
pub proof fn lemma_split_whole(s: Seq<char>, sep: char)
    requires
        !s.contains(sep),
    ensures
        split(s, sep) == seq![s],
    decreases s.len(),
{
    if s.len() > 0 {
        let before = s.drop_last();
        assert(s.contains(s.last()));
        assert forall|i: int| 0 <= i < before.len() implies before[i] != sep by {
            assert(s.contains(s[i]));
        }
        lemma_split_whole(before, sep);
        assert(before.push(s.last()) =~= s);
        assert(split(s, sep) =~= seq![s]);
    } else {
        assert(s =~= Seq::<char>::empty());
    }
}

/// A text that holds the separator has two pieces at least.
pub proof fn lemma_split_some(s: Seq<char>, sep: char)
    requires
        s.contains(sep),
    ensures
        split(s, sep).len() >= 2,
    decreases s.len(),
{
    lemma_split_join(s.drop_last(), sep);
    if s.len() > 0 && s.last() != sep {
        let before = s.drop_last();
        let at = choose|i: int| 0 <= i < s.len() && s[i] == sep;
        assert(before[at] == sep);
        lemma_split_some(before, sep);
    }
}

/// The pieces of two texts with a separator between them are the pieces of
/// the first followed by the pieces of the second.
pub proof fn lemma_split_concat(a: Seq<char>, b: Seq<char>, sep: char)
    ensures
        split(a.push(sep) + b, sep) == split(a, sep) + split(b, sep),
    decreases b.len(),
{
    let whole = a.push(sep) + b;
    if b.len() == 0 {
        assert(whole =~= a.push(sep));
        assert(whole.drop_last() =~= a);
        assert(split(whole, sep) =~= split(a, sep) + split(b, sep));
    } else {
        let shorter = b.drop_last();
        lemma_split_concat(a, shorter, sep);
        lemma_split_join(shorter, sep);
        assert(whole.drop_last() =~= a.push(sep) + shorter);
        assert(whole.last() == b.last());
        let before = split(a, sep) + split(shorter, sep);
        assert(before.last() == split(shorter, sep).last());
        assert(before.drop_last() =~= split(a, sep) + split(shorter, sep).drop_last());
        assert(split(whole, sep) =~= split(a, sep) + split(b, sep));
    }
}

/// Whether `c` is white space as Unicode defines it (`White_Space`).
pub open spec fn is_whitespace(c: char) -> bool {
    ||| '\u{9}' <= c <= '\u{d}'
    ||| c == ' '
    ||| c == '\u{85}'
    ||| c == '\u{a0}'
    ||| c == '\u{1680}'
    ||| '\u{2000}' <= c <= '\u{200a}'
    ||| c == '\u{2028}'
    ||| c == '\u{2029}'
    ||| c == '\u{202f}'
    ||| c == '\u{205f}'
    ||| c == '\u{3000}'
}

/// `s` without its leading white space.
pub open spec fn trim_start(s: Seq<char>) -> Seq<char>
    decreases s.len(),
{
    if s.len() > 0 && is_whitespace(s[0]) {
        trim_start(s.drop_first())
    } else {
        s
    }
}

/// `s` without its trailing white space.
pub open spec fn trim_end(s: Seq<char>) -> Seq<char>
    decreases s.len(),
{
    if s.len() > 0 && is_whitespace(s.last()) {
        trim_end(s.drop_last())
    } else {
        s
    }
}

/// `s` without leading and trailing white space.
pub open spec fn trim(s: Seq<char>) -> Seq<char> {
    trim_end(trim_start(s))
}

/// Whether `s` ends with the character `c`.
pub open spec fn ends_with(s: Seq<char>, c: char) -> bool {
    s.len() > 0 && s.last() == c
}

/// The character for the decimal digit `d`.
pub open spec fn digit(d: nat) -> char
    recommends
        d < 10,
{
    ('0' as nat + d) as char
}

/// The decimal numeral of `n`, without sign or leading zeros.
pub open spec fn decimal(n: nat) -> Seq<char>
    decreases n,
{
    if n < 10 {
        seq![digit(n)]
    } else {
        decimal(n / 10).push(digit(n % 10))
    }
}

/// The bytes of a text of ASCII characters: one byte for each character.
pub open spec fn ascii(s: Seq<char>) -> Seq<u8> {
    Seq::new(s.len(), |i: int| s[i] as u8)
}

/// The UTF-8 form of two texts in a row is the UTF-8 form of the first
/// followed by that of the second.
pub proof fn lemma_encode_utf8_concat(a: Seq<char>, b: Seq<char>)
    ensures
        encode_utf8(a + b) == encode_utf8(a) + encode_utf8(b),
    decreases a.len(),
{
    if a.len() == 0 {
        assert(a + b =~= b);
        assert(encode_utf8(a) + encode_utf8(b) =~= encode_utf8(b));
    } else {
        lemma_encode_utf8_concat(a.drop_first(), b);
        assert((a + b).drop_first() =~= a.drop_first() + b);
        assert((a + b)[0] == a[0]);
        assert(encode_utf8(a + b) =~= encode_utf8(a) + encode_utf8(b));
    }
}

/// The UTF-8 form of an ASCII text has one byte for each character.
pub proof fn lemma_encode_utf8_ascii(s: Seq<char>)
    requires
        is_ascii_chars(s),
    ensures
        encode_utf8(s) == ascii(s),
{
    is_ascii_chars_encode_utf8(s);
    assert(encode_utf8(s) =~= ascii(s));
}

/// Every byte of a character that takes more than one byte in UTF-8 has its
/// top bit set, and a character that takes one byte is that byte.
proof fn lemma_scalar_bytes(c: u32)
    by (bit_vector)
    ensures
        has_width_1_encoding(c) ==> leading_byte_width_1(c) == c,
        leading_byte_width_2(c) >= 0x80,
        leading_byte_width_3(c) >= 0x80,
        leading_byte_width_4(c) >= 0x80,
        last_continuation_byte(c) >= 0x80,
        second_last_continuation_byte(c) >= 0x80,
        third_last_continuation_byte(c) >= 0x80,
{
}

/// A text without line feed has no line feed byte in its UTF-8 form.
pub proof fn lemma_encode_utf8_line_feed(s: Seq<char>)
    requires
        !s.contains('\n'),
    ensures
        !encode_utf8(s).contains(0x0au8),
    decreases s.len(),
{
    if s.len() > 0 {
        let rest = s.drop_first();
        assert forall|i: int| 0 <= i < rest.len() implies rest[i] != '\n' by {
            assert(rest[i] == s[i + 1]);
            assert(s.contains(s[i + 1]));
        }
        lemma_encode_utf8_line_feed(rest);
        let c = s[0] as u32;
        let first = encode_scalar(c);
        char_is_scalar(s[0]);
        lemma_scalar_bytes(c);
        assert(s.contains(s[0]));
        assert(s[0] != '\n');
        assert(c != 0x0a) by {
            char_u32_cast(s[0], c);
            assert(0x0au32 as char == '\n');
        }
        assert forall|i: int| 0 <= i < first.len() implies first[i] != 0x0au8 by {
            if has_width_1_encoding(c) {
                assert(first[i] == leading_byte_width_1(c));
            } else if has_width_2_encoding(c) {
                assert(first[i] == leading_byte_width_2(c) || first[i]
                    == last_continuation_byte(c));
            } else if has_width_3_encoding(c) {
                assert(first[i] == leading_byte_width_3(c) || first[i]
                    == second_last_continuation_byte(c) || first[i] == last_continuation_byte(
                    c,
                ));
            } else {
                assert(first[i] == leading_byte_width_4(c) || first[i]
                    == third_last_continuation_byte(c) || first[i]
                    == second_last_continuation_byte(c) || first[i] == last_continuation_byte(
                    c,
                ));
            }
        }
        assert forall|i: int| 0 <= i < encode_utf8(s).len() implies encode_utf8(s)[i]
            != 0x0au8 by {
            if i < first.len() {
                assert(encode_utf8(s)[i] == first[i]);
            } else {
                assert(encode_utf8(s)[i] == encode_utf8(rest)[i - first.len()]);
                assert(encode_utf8(rest).contains(encode_utf8(rest)[i - first.len()]));
            }
        }
    }
}

/// The texts that the index ranges cut out of `chars`, one for each range.
pub open spec fn pieces(chars: Seq<char>, ranges: Seq<(usize, usize)>) -> Seq<Seq<char>> {
    Seq::new(ranges.len(), |k: int| chars.subrange(ranges[k].0 as int, ranges[k].1 as int))
}

/// The characters of `s`, in order.
pub fn to_chars(s: &str) -> (chars: Vec<char>)
    ensures
        chars@ == s@,
{
    let mut chars: Vec<char> = Vec::new();
    for c in it: s.chars()
        invariant
            chars@ == it.seq().take(it.index() as int),
            it.seq() == s@,
    {
        chars.push(c);
    }
    chars
}

/// Tells whether the text ends with `c`.
pub fn str_ends_with(s: &str, c: char) -> (b: bool)
    ensures
        b == ends_with(s@, c),
{
    let mut last: Option<char> = None;
    for x in it: s.chars()
        invariant
            it.seq() == s@,
            last == if it.index() == 0 {
                None::<char>
            } else {
                Some(s@[it.index() - 1])
            },
    {
        last = Some(x);
    }
    match last {
        Some(x) => x == c,
        None => false,
    }
}

/// Splits `chars[lo..hi]` on `sep` and gives the range of each piece.
pub fn split_ranges(chars: &Vec<char>, lo: usize, hi: usize, sep: char) -> (ranges: Vec<
    (usize, usize),
>)
    requires
        lo <= hi <= chars.len(),
    ensures
        pieces(chars@, ranges@) == split(chars@.subrange(lo as int, hi as int), sep),
        forall|k: int|
            0 <= k < ranges.len() ==> lo <= (#[trigger] ranges[k]).0 <= ranges[k].1 <= hi,
        ranges.len() >= 1,
        ranges[0].0 == lo,
        ranges[ranges.len() - 1].1 == hi,
        forall|k: int|
            0 <= k < ranges.len() - 1 ==> (#[trigger] ranges[k]).1 + 1 == ranges[k + 1].0,
{
    let mut ranges: Vec<(usize, usize)> = Vec::new();
    let mut start: usize = lo;
    let mut i: usize = lo;
    proof {
        assert(chars@.subrange(lo as int, lo as int) =~= Seq::<char>::empty());
        assert(pieces(chars@, ranges@).push(Seq::<char>::empty()) =~= seq![Seq::<char>::empty()]);
    }
    while i < hi
        invariant
            lo <= start <= i <= hi <= chars.len(),
            split(chars@.subrange(lo as int, i as int), sep) == pieces(chars@, ranges@).push(
                chars@.subrange(start as int, i as int),
            ),
            forall|k: int|
                0 <= k < ranges.len() ==> lo <= (#[trigger] ranges[k]).0 <= ranges[k].1 <= hi,
            ranges.len() == 0 ==> start == lo,
            ranges.len() > 0 ==> ranges[0].0 == lo && ranges[ranges.len() - 1].1 + 1 == start,
            forall|k: int|
                0 <= k < ranges.len() - 1 ==> (#[trigger] ranges[k]).1 + 1 == ranges[k + 1].0,
        decreases hi - i,
    {
        let ghost done = pieces(chars@, ranges@);
        let ghost seen = chars@.subrange(lo as int, i as int);
        let ghost next = chars@.subrange(lo as int, i + 1);
        proof {
            assert(next.drop_last() == seen);
            assert(next.last() == chars@[i as int]);
            assert(done.push(chars@.subrange(start as int, i as int)).drop_last() == done);
        }
        if chars[i] == sep {
            ranges.push((start, i));
            start = i + 1;
            proof {
                assert(pieces(chars@, ranges@) == done.push(chars@.subrange(ranges[ranges.len() - 1].0 as int, i as int)));
                assert(chars@.subrange(start as int, i + 1) == Seq::<char>::empty());
            }
        } else {
            proof {
                assert(chars@.subrange(start as int, i as int).push(chars@[i as int])
                    == chars@.subrange(start as int, i + 1));
            }
        }
        i += 1;
    }
    let ghost done = pieces(chars@, ranges@);
    ranges.push((start, hi));
    proof {
        assert(pieces(chars@, ranges@) == done.push(chars@.subrange(start as int, hi as int)));
    }
    ranges
}

/// Tells whether `c` is white space.
pub fn is_whitespace_char(c: char) -> (b: bool)
    ensures
        b == is_whitespace(c),
{
    ('\u{9}' <= c && c <= '\u{d}') || c == ' ' || c == '\u{85}' || c == '\u{a0}' || c
        == '\u{1680}' || ('\u{2000}' <= c && c <= '\u{200a}') || c == '\u{2028}' || c
        == '\u{2029}' || c == '\u{202f}' || c == '\u{205f}' || c == '\u{3000}'
}

/// The range inside `chars[lo..hi]` that is left when white space is taken
/// off both ends.
pub fn trim_range(chars: &Vec<char>, lo: usize, hi: usize) -> (range: (usize, usize))
    requires
        lo <= hi <= chars.len(),
    ensures
        lo <= range.0 <= range.1 <= hi,
        chars@.subrange(range.0 as int, range.1 as int) == trim(
            chars@.subrange(lo as int, hi as int),
        ),
        forall|j: int| lo <= j < range.0 ==> is_whitespace(#[trigger] chars@[j]),
        forall|j: int| range.1 <= j < hi ==> is_whitespace(#[trigger] chars@[j]),
        range.0 < hi ==> !is_whitespace(chars@[range.0 as int]),
        range.0 < range.1 ==> !is_whitespace(chars@[range.1 - 1]),
{
    let mut from: usize = lo;
    while from < hi && is_whitespace_char(chars[from])
        invariant
            lo <= from <= hi <= chars.len(),
            trim_start(chars@.subrange(lo as int, hi as int)) == trim_start(
                chars@.subrange(from as int, hi as int),
            ),
            forall|j: int| lo <= j < from ==> is_whitespace(#[trigger] chars@[j]),
        decreases hi - from,
    {
        proof {
            assert(chars@.subrange(from as int, hi as int).drop_first() == chars@.subrange(
                from + 1,
                hi as int,
            ));
        }
        from += 1;
    }
    let mut to: usize = hi;
    while to > from && is_whitespace_char(chars[to - 1])
        invariant
            from <= to <= hi <= chars.len(),
            trim_end(chars@.subrange(from as int, hi as int)) == trim_end(
                chars@.subrange(from as int, to as int),
            ),
            forall|j: int| to <= j < hi ==> is_whitespace(#[trigger] chars@[j]),
        decreases to - from,
    {
        proof {
            assert(chars@.subrange(from as int, to as int).drop_last() == chars@.subrange(
                from as int,
                to - 1,
            ));
        }
        to -= 1;
    }
    (from, to)
}

/// Tells whether `chars[lo..hi]` is the text `word`.
pub fn range_is(chars: &Vec<char>, lo: usize, hi: usize, word: &str) -> (b: bool)
    requires
        lo <= hi <= chars.len(),
    ensures
        b == (chars@.subrange(lo as int, hi as int) == word@),
{
    let letters = to_chars(word);
    if letters.len() != hi - lo {
        return false;
    }
    let mut i: usize = 0;
    while i < letters.len()
        invariant
            lo <= hi <= chars.len(),
            letters.len() == hi - lo,
            i <= letters.len(),
            letters@ == word@,
            forall|j: int| 0 <= j < i ==> chars@[lo + j] == letters@[j],
        decreases letters.len() - i,
    {
        if chars[lo + i] != letters[i] {
            proof {
                assert(chars@.subrange(lo as int, hi as int)[i as int] != word@[i as int]);
            }
            return false;
        }
        i += 1;
    }
    proof {
        assert(chars@.subrange(lo as int, hi as int) =~= word@);
    }
    true
}

/// The one-character text of the decimal digit `d`.
fn digit_str(d: usize) -> (s: &'static str)
    requires
        d < 10,
    ensures
        s@ == seq![digit(d as nat)],
{
    proof {
        reveal_strlit("0");
        reveal_strlit("1");
        reveal_strlit("2");
        reveal_strlit("3");
        reveal_strlit("4");
        reveal_strlit("5");
        reveal_strlit("6");
        reveal_strlit("7");
        reveal_strlit("8");
        reveal_strlit("9");
    }
    let s = if d == 0 {
        "0"
    } else if d == 1 {
        "1"
    } else if d == 2 {
        "2"
    } else if d == 3 {
        "3"
    } else if d == 4 {
        "4"
    } else if d == 5 {
        "5"
    } else if d == 6 {
        "6"
    } else if d == 7 {
        "7"
    } else if d == 8 {
        "8"
    } else {
        "9"
    };
    assert(s@ =~= seq![digit(d as nat)]);
    s
}

/// The decimal numeral of `n`.
pub fn decimal_text(n: usize) -> (text: String)
    ensures
        text@ == decimal(n as nat),
    decreases n,
{
    let mut text = if n >= 10 {
        decimal_text(n / 10)
    } else {
        String::new()
    };
    text.append(digit_str(n % 10));
    proof {
        assert(Seq::<char>::empty() + seq![digit(n as nat)] =~= seq![digit(n as nat)]);
        assert(decimal((n / 10) as nat) + seq![digit((n % 10) as nat)] =~= decimal(
            (n / 10) as nat,
        ).push(digit((n % 10) as nat)));
    }
    text
}

} // verus!

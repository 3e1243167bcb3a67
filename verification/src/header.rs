//! A look at the numbers of a PLY header before the document is parsed.
//!
//! The header grammar reads two kinds of number: the version in a `format`
//! line and the count in an `element` line, each as an unsigned 64-bit
//! integer. A document in which such a number does not fit is not a valid
//! property list; it is told apart here, on the bytes alone.

use vstd::prelude::*;
use vstd::string::is_ascii;
use vstd::string::is_ascii_spec_bytes;

verus! {

/// Line feed, the one byte that ends a line.
pub const LINE_FEED: u8 = 0x0a;

/// Horizontal tab.
pub const TAB: u8 = 0x09;

/// Space.
pub const SPACE: u8 = 0x20;

/// Full stop, which parts the two numbers of a version.
pub const FULL_STOP: u8 = 0x2e;

/// The digit `0`.
pub const DIGIT_ZERO: u8 = 0x30;

/// The digit `9`.
pub const DIGIT_NINE: u8 = 0x39;

/// Whether `b` is an ASCII digit.
pub open spec fn is_digit(b: u8) -> bool {
    DIGIT_ZERO <= b <= DIGIT_NINE
}

/// Whether a number may begin right after `b`: after a space, a tab or the
/// full stop of a version.
pub open spec fn opens_number(b: u8) -> bool {
    b == SPACE || b == TAB || b == FULL_STOP
}

/// The decimal value of the digits `data[from..to]`.
pub open spec fn decimal_value(data: Seq<u8>, from: int, to: int) -> nat
    decreases to - from,
{
    if from >= to {
        0
    } else {
        (10 * decimal_value(data, from, to - 1) + (data[to - 1] - DIGIT_ZERO)) as nat
    }
}

/// Whether a line begins at `at`.
pub open spec fn starts_line(data: Seq<u8>, at: int) -> bool {
    at == 0 || data[at - 1] == LINE_FEED
}

/// Whether the ASCII word `word` stands in `data` at `at`.
pub open spec fn stands_at(data: Seq<u8>, at: int, word: Seq<char>) -> bool {
    &&& at + word.len() <= data.len()
    &&& forall|i: int| 0 <= i < word.len() ==> data[at + i] == word[i] as u8
}

/// Whether the line that begins at `line` belongs to the header: no line up
/// to and including it begins with `end_header`.
pub open spec fn in_header(data: Seq<u8>, line: int) -> bool {
    forall|s: int| 0 <= s <= line && starts_line(data, s) ==> !stands_at(data, s, "end_header"@)
}

/// Whether `data[from..to]` is a number that the header grammar may read: a
/// maximal run of digits that follows a space, a tab or a full stop, in a
/// header line that begins at `line` with `format` or `element`.
pub open spec fn is_header_number(data: Seq<u8>, line: int, from: int, to: int) -> bool {
    &&& 0 <= line < from < to <= data.len()
    &&& starts_line(data, line)
    &&& in_header(data, line)
    &&& (stands_at(data, line, "format"@) || stands_at(data, line, "element"@))
    &&& forall|i: int| line <= i < to ==> data[i] != LINE_FEED
    &&& opens_number(data[from - 1])
    &&& forall|i: int| from <= i < to ==> is_digit(data[i])
    &&& (to == data.len() || !is_digit(data[to]))
}

/// Whether every number that the header grammar may read fits in 64 bits.
pub open spec fn header_numbers_fit(data: Seq<u8>) -> bool {
    forall|line: int, from: int, to: int| #[trigger]
        is_header_number(data, line, from, to) ==> decimal_value(data, from, to) <= u64::MAX
}

/// Whether the ASCII word `word` stands in `data` at `at`.
fn has_word_at(data: &[u8], at: usize, word: &str) -> (r: bool)
    requires
        is_ascii(word),
        at <= data.len(),
    ensures
        r == stands_at(data@, at as int, word@),
{
    let wb = word.as_bytes();
    proof {
        is_ascii_spec_bytes(word);
    }
    if wb.len() > data.len() - at {
        return false;
    }
    let mut i: usize = 0;
    while i < wb.len()
        invariant
            i <= wb.len(),
            wb@.len() == word@.len(),
            at + wb.len() <= data.len(),
            forall|j: int| 0 <= j < wb@.len() ==> wb@[j] == word@[j] as u8,
            forall|j: int| 0 <= j < i ==> data@[at + j] == word@[j] as u8,
        decreases wb.len() - i,
    {
        if data[at + i] != wb[i] {
            return false;
        }
        i += 1;
    }
    true
}

/// Reads the maximal run of digits that begins at `from`: where it ends, and
/// whether its value fits in 64 bits.
fn scan_number(data: &[u8], from: usize) -> (r: (usize, bool))
    requires
        from < data.len(),
        is_digit(data@[from as int]),
    ensures
        from < r.0 <= data.len(),
        forall|i: int| from <= i < r.0 ==> is_digit(data@[i]),
        r.0 == data.len() || !is_digit(data@[r.0 as int]),
        r.1 == (decimal_value(data@, from as int, r.0 as int) <= u64::MAX),
{
    let mut end: usize = from;
    let mut value: u64 = 0;
    let mut fits: bool = true;
    while end < data.len() && DIGIT_ZERO <= data[end] && data[end] <= DIGIT_NINE
        invariant
            from <= end <= data.len(),
            end == from ==> is_digit(data@[from as int]),
            forall|i: int| from <= i < end ==> is_digit(data@[i]),
            fits ==> value == decimal_value(data@, from as int, end as int),
            !fits ==> decimal_value(data@, from as int, end as int) > u64::MAX,
        decreases data.len() - end,
    {
        let digit: u64 = (data[end] - DIGIT_ZERO) as u64;
        if fits {
            if value > (u64::MAX - digit) / 10 {
                fits = false;
            } else {
                value = value * 10 + digit;
            }
        }
        end += 1;
    }
    (end, fits)
}

/// Whether every number that the header grammar may read fits in 64 bits.
///
/// The header is walked line by line up to the line that begins with
/// `end_header`; in the lines that begin with `format` or `element` each run
/// of digits after a space, a tab or a full stop is weighed.
pub fn header_numbers_in_range(data: &[u8]) -> (ok: bool)
    ensures
        ok == header_numbers_fit(data@),
{
    proof {
        reveal_strlit("end_header");
        reveal_strlit("format");
        reveal_strlit("element");
    }
    let n: usize = data.len();
    let mut line: usize = 0;
    while line < n
        invariant
            n == data.len(),
            line <= n,
            line < n ==> starts_line(data@, line as int),
            is_ascii("end_header"),
            is_ascii("format"),
            is_ascii("element"),
            forall|s: int|
                0 <= s < line && starts_line(data@, s) ==> !stands_at(data@, s, "end_header"@),
            forall|l: int, f: int, t: int| #[trigger]
                is_header_number(data@, l, f, t) && l < line ==> decimal_value(data@, f, t)
                    <= u64::MAX,
        decreases n - line,
    {
        if has_word_at(data, line, "end_header") {
            assert forall|l: int, f: int, t: int| #[trigger]
                is_header_number(data@, l, f, t) implies decimal_value(data@, f, t)
                <= u64::MAX by {
                if l >= line {
                    assert(starts_line(data@, line as int));
                    assert(false);
                }
            }
            return true;
        }
        let counted: bool = has_word_at(data, line, "format") || has_word_at(
            data,
            line,
            "element",
        );
        assert(in_header(data@, line as int));
        let mut i: usize = line;
        while i < n && data[i] != LINE_FEED
            invariant
                n == data.len(),
                line <= i <= n,
                line < n,
                starts_line(data@, line as int),
                in_header(data@, line as int),
                counted == (stands_at(data@, line as int, "format"@) || stands_at(
                    data@,
                    line as int,
                    "element"@,
                )),
                forall|k: int| line <= k < i ==> data@[k] != LINE_FEED,
                forall|f: int, t: int| #[trigger]
                    is_header_number(data@, line as int, f, t) && f < i ==> decimal_value(
                        data@,
                        f,
                        t,
                    ) <= u64::MAX,
            decreases n - i,
        {
            if counted && i > line && DIGIT_ZERO <= data[i] && data[i] <= DIGIT_NINE && (data[i
                - 1] == SPACE || data[i - 1] == TAB || data[i - 1] == FULL_STOP) {
                let (end, fits) = scan_number(data, i);
                if !fits {
                    assert(is_header_number(data@, line as int, i as int, end as int));
                    return false;
                }
                assert forall|f: int, t: int| #[trigger]
                    is_header_number(data@, line as int, f, t) && f < end implies decimal_value(
                    data@,
                    f,
                    t,
                ) <= u64::MAX by {
                    if f == i {
                        if t < end {
                            assert(is_digit(data@[t]));
                        }
                        if t > end {
                            assert(is_digit(data@[end as int]));
                        }
                    } else if f > i {
                        assert(is_digit(data@[f - 1]));
                    }
                }
                i = end;
            } else {
                assert forall|f: int, t: int| #[trigger]
                    is_header_number(data@, line as int, f, t) && f < i + 1 implies decimal_value(
                    data@,
                    f,
                    t,
                ) <= u64::MAX by {
                    if f == i {
                        assert(is_digit(data@[f]));
                    }
                }
                i += 1;
            }
        }
        let ghost line_end = i as int;
        let ghost this_line = line as int;
        let next: usize = if i < n {
            i + 1
        } else {
            n
        };
        assert forall|s: int| 0 <= s < next && starts_line(data@, s) implies !stands_at(
            data@,
            s,
            "end_header"@,
        ) by {
            if s > this_line {
                assert(data@[s - 1] != LINE_FEED);
            }
        }
        assert forall|l: int, f: int, t: int| #[trigger]
            is_header_number(data@, l, f, t) && l < next implies decimal_value(data@, f, t)
            <= u64::MAX by {
            if l > this_line {
                assert(data@[l - 1] != LINE_FEED);
            } else if l == this_line {
                if line_end < n && t > line_end {
                    assert(data@[line_end] == LINE_FEED);
                }
                assert(f < line_end);
            }
        }
        line = next;
    }
    assert forall|l: int, f: int, t: int| #[trigger]
        is_header_number(data@, l, f, t) implies decimal_value(data@, f, t) <= u64::MAX by {
        assert(l < line);
    }
    true
}

} // verus!

//! Reading one line of a mapping listing.
//!
//! A line holds whitespace-separated fields:
//!
//! ```text
//! <start>-<end> <flags> <offset> <device> <inode> [<path>]
//! ```
//!
//! The first is the address range: two hexadecimal numbers with one `-`
//! between them. The second holds the four permission flags `rwxp`, each
//! either its letter or any other character.
//! The next three are not looked at, and the sixth, if there is one, names
//! the mapped file.

use vstd::prelude::*;
use vstd::string::StrSliceExecFns;
use crate::region::{MemoryAttributes, MemoryRegion, RegionModel};
use crate::text::{
    chars_of, field_spans, fields, hex_digit, lemma_field_spans, parse_hex, spans_view,
    split_fields, unsigned_hex,
};

verus! {

/// Why a line is not a mapping.
#[derive(Debug, Clone, Copy, PartialEq, Eq, Structural)]
pub enum ParseError {
    /// The line has fewer than two fields.
    InvalidFormat,
    /// The first field is not two hexadecimal numbers joined by `-`.
    InvalidAddress,
    /// The second field does not have exactly four characters.
    InvalidAttributes,
    /// The range is empty or runs backwards.
    InvalidRange,
}

impl ParseError {
    /// The words that describe the error.
    pub open spec fn message_text(self) -> Seq<char> {
        match self {
            ParseError::InvalidFormat => "Invalid input format"@,
            ParseError::InvalidAddress => "Invalid address"@,
            ParseError::InvalidAttributes => "Invalid memory attributes"@,
            ParseError::InvalidRange => "Invalid address range"@,
        }
    }

    /// A description of the error for a reader.
    pub fn message(&self) -> (text: String)
        ensures
            text@ == self.message_text(),
    {
        match self {
            ParseError::InvalidFormat => "Invalid input format".to_owned(),
            ParseError::InvalidAddress => "Invalid address".to_owned(),
            ParseError::InvalidAttributes => "Invalid memory attributes".to_owned(),
            ParseError::InvalidRange => "Invalid address range".to_owned(),
        }
    }
}

/// The first position at or after `from` that holds `c`, or the length of
/// `s` if there is none.
pub open spec fn position_of(s: Seq<char>, c: char, from: int) -> int
    decreases s.len() - from,
{
    if 0 <= from < s.len() && s[from] != c {
        position_of(s, c, from + 1)
    } else {
        from
    }
}

/// `position_of` is the one position at or after `from` that holds the
/// first `c`, or the end.
pub proof fn lemma_position_of(s: Seq<char>, c: char, from: int, at: int)
    requires
        0 <= from <= at <= s.len(),
        forall|j: int| from <= j < at ==> s[j] != c,
        at < s.len() ==> s[at] == c,
    ensures
        position_of(s, c, from) == at,
    decreases at - from,
{
    if from < at {
        lemma_position_of(s, c, from + 1, at);
    }
}

/// `position_of` stays inside `s`, passes over no `c` and stops on one or
/// at the end.
pub proof fn lemma_position_of_found(s: Seq<char>, c: char, from: int)
    requires
        0 <= from <= s.len(),
    ensures
        from <= position_of(s, c, from) <= s.len(),
        forall|j: int| from <= j < position_of(s, c, from) ==> s[j] != c,
        position_of(s, c, from) < s.len() ==> s[position_of(s, c, from)] == c,
    decreases s.len() - from,
{
    if from < s.len() && s[from] != c {
        lemma_position_of_found(s, c, from + 1);
    }
}

/// The two addresses that the field writes: the text before its first `-`
/// and the text after it, each read as an unsigned hexadecimal number.
/// There are none where the field has no `-`, and none where it has a
/// second, which no number holds.
pub open spec fn address_range(field: Seq<char>) -> Option<(u64, u64)> {
    let dash = position_of(field, '-', 0);
    if dash >= field.len() {
        None
    } else {
        match (
            unsigned_hex(field.subrange(0, dash)),
            unsigned_hex(field.subrange(dash + 1, field.len() as int)),
        ) {
            (Some(start), Some(end)) => Some((start, end)),
            _ => None,
        }
    }
}

/// A number in hexadecimal holds no `-`.
pub proof fn lemma_unsigned_hex_has_no_dash(s: Seq<char>, i: int)
    requires
        unsigned_hex(s) is Some,
        0 <= i < s.len(),
    ensures
        s[i] != '-',
{
    if s[0] == '+' {
        let digits = s.drop_first();
        if i > 0 {
            assert(hex_digit(digits[i - 1]) is Some);
        }
    } else {
        assert(hex_digit(s[i]) is Some);
    }
}

/// A field that writes two addresses holds exactly one `-`: the one that
/// stands between them.
pub proof fn lemma_address_range_has_one_dash(field: Seq<char>)
    requires
        address_range(field) is Some,
    ensures
        0 <= position_of(field, '-', 0) < field.len(),
        forall|i: int|
            0 <= i < field.len() ==> (#[trigger] field[i] == '-' <==> i == position_of(
                field,
                '-',
                0,
            )),
{
    let dash = position_of(field, '-', 0);
    lemma_position_of_found(field, '-', 0);
    let head = field.subrange(0, dash);
    let tail = field.subrange(dash + 1, field.len() as int);
    assert forall|i: int| 0 <= i < field.len() implies (#[trigger] field[i] == '-' <==> i
        == dash) by {
        if i < dash {
            lemma_unsigned_hex_has_no_dash(head, i);
            assert(head[i] == field[i]);
        } else if i > dash {
            lemma_unsigned_hex_has_no_dash(tail, i - dash - 1);
            assert(tail[i - dash - 1] == field[i]);
        }
    }
}

/// The permissions that four flag characters grant, by position.
pub open spec fn permissions(flags: Seq<char>) -> MemoryAttributes {
    MemoryAttributes {
        readable: flags[0] == 'r',
        writable: flags[1] == 'w',
        executable: flags[2] == 'x',
        private: flags[3] == 'p',
        allocated: true,
    }
}

/// What a line means: the region it describes, or the first reason, in
/// the order format, address, attributes, range, why it describes none.
pub open spec fn parse_line(line: Seq<char>) -> Result<RegionModel, ParseError> {
    let f = fields(line);
    if f.len() < 2 {
        Err(ParseError::InvalidFormat)
    } else {
        match address_range(f[0]) {
            None => Err(ParseError::InvalidAddress),
            Some((start, end)) => {
                if f[1].len() != 4 {
                    Err(ParseError::InvalidAttributes)
                } else if end <= start {
                    Err(ParseError::InvalidRange)
                } else {
                    Ok(
                        RegionModel {
                            start: start as nat,
                            end: end as nat,
                            size: (end - start) as nat,
                            attributes: permissions(f[1]),
                            file_name: if f.len() > 5 {
                                Some(f[5])
                            } else {
                                None
                            },
                        },
                    )
                }
            },
        }
    }
}

/// The value of a parse result.
pub open spec fn parsed_model(result: Result<MemoryRegion, ParseError>) -> Result<
    RegionModel,
    ParseError,
> {
    match result {
        Ok(region) => Ok(region@),
        Err(e) => Err(e),
    }
}

/// A line that is accepted describes a range that is not empty, with its
/// length as size; it is mapped, and its second field has four characters
/// that give its permissions by position.
pub proof fn lemma_parsed_region(line: Seq<char>)
    ensures
        parse_line(line) matches Ok(region) ==> {
            &&& region.well_formed()
            &&& region.size == region.end - region.start
            &&& region.size > 0
            &&& region.attributes.allocated
            &&& fields(line).len() >= 2
            &&& fields(line)[1].len() == 4
            &&& region.attributes.readable == (fields(line)[1][0] == 'r')
            &&& region.attributes.writable == (fields(line)[1][1] == 'w')
            &&& region.attributes.executable == (fields(line)[1][2] == 'x')
            &&& region.attributes.private == (fields(line)[1][3] == 'p')
        },
{
}

/// The first position from `from` up to `to` that holds `c`, or `to`.
fn find_char(chars: &Vec<char>, c: char, from: usize, to: usize) -> (at: usize)
    requires
        from <= to <= chars.len(),
    ensures
        from <= at <= to,
        forall|j: int| from <= j < at ==> chars@[j] != c,
        at < to ==> chars@[at as int] == c,
{
    let mut at: usize = from;
    while at < to && chars[at] != c
        invariant
            from <= at <= to <= chars.len(),
            forall|j: int| from <= j < at ==> chars@[j] != c,
        decreases to - at,
    {
        at += 1;
    }
    at
}

/// Reads the field of `chars` from `from` up to `to` as an address range.
fn parse_address_range(chars: &Vec<char>, from: usize, to: usize) -> (range: Option<(u64, u64)>)
    requires
        from <= to <= chars.len(),
    ensures
        range == address_range(chars@.subrange(from as int, to as int)),
{
    let ghost field = chars@.subrange(from as int, to as int);
    let dash = find_char(chars, '-', from, to);
    proof {
        lemma_position_of(field, '-', 0, dash - from);
    }
    if dash >= to {
        return None;
    }
    proof {
        assert(field.subrange(0, dash - from) =~= chars@.subrange(from as int, dash as int));
        assert(field.subrange(dash + 1 - from, field.len() as int) =~= chars@.subrange(
            dash + 1,
            to as int,
        ));
    }
    let start = parse_hex(chars, from, dash);
    let end = parse_hex(chars, dash + 1, to);
    match (start, end) {
        (Some(start), Some(end)) => Some((start, end)),
        _ => None,
    }
}

impl MemoryRegion {
    /// Reads one line of a mapping listing.
    ///
    /// Returns the region that the line describes, which is always mapped,
    /// or the reason why the line describes none.
    pub fn from_str(s: &str) -> (result: Result<MemoryRegion, ParseError>)
        ensures
            parsed_model(result) == parse_line(s@),
            result matches Ok(region) ==> region@.well_formed(),
    {
        let chars = chars_of(s);
        let spans = split_fields(&chars);
        let ghost f = fields(s@);
        proof {
            lemma_field_spans(chars@, 0);
            assert(f.len() == spans.len());
            assert forall|k: int| 0 <= k < spans.len() implies #[trigger] f[k] == chars@.subrange(
                spans[k].0 as int,
                spans[k].1 as int,
            ) && spans[k].0 < spans[k].1 <= chars.len() by {
                assert(spans_view(spans@)[k] == field_spans(chars@, 0)[k]);
            }
        }
        if spans.len() < 2 {
            return Err(ParseError::InvalidFormat);
        }
        let range = parse_address_range(&chars, spans[0].0, spans[0].1);
        assert(range == address_range(f[0]));
        let (start, end) = match range {
            Some(range) => range,
            None => {
                return Err(ParseError::InvalidAddress);
            },
        };
        let flags = spans[1].0;
        assert(f[1].len() == spans[1].1 - flags);
        if spans[1].1 - flags != 4 {
            return Err(ParseError::InvalidAttributes);
        }
        if end <= start {
            return Err(ParseError::InvalidRange);
        }
        let attributes = MemoryAttributes {
            readable: chars[flags] == 'r',
            writable: chars[flags + 1] == 'w',
            executable: chars[flags + 2] == 'x',
            private: chars[flags + 3] == 'p',
            allocated: true,
        };
        let file_name = if spans.len() > 5 {
            Some(s.substring_char(spans[5].0, spans[5].1).to_owned())
        } else {
            None
        };
        Ok(MemoryRegion { start, end, size: end - start, attributes, file_name })
    }
}

impl core::str::FromStr for MemoryRegion {
    type Err = ParseError;

    /// As [`MemoryRegion::from_str`], for `str::parse`.
    fn from_str(s: &str) -> (result: Result<MemoryRegion, ParseError>)
        ensures
            parsed_model(result) == parse_line(s@),
            result matches Ok(region) ==> region@.well_formed(),
    {
        MemoryRegion::from_str(s)
    }
}

} // verus!

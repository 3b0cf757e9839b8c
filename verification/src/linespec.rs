//! Line ranges and their textual form.
//!
//! A range is written `N` or `N:M`, with `N` and `M` unsigned decimal numbers
//! of 32 bits. `N` alone stands for `N:N`. Line numbers start at 1, so `N`
//! must be at least 1, and `M` must not be less than `N`. Fragments after a
//! second `:` are not looked at: `1:2:x` is read as `1:2`.

use crate::decimal::{
    all_digits, decimal_value, is_decimal, is_digit, number_of, parse_u32,
};
use crate::fragment::{
    first_fragment, lemma_fragments_of_joined, lemma_fragments_of_plain, no_colon,
    second_fragment, split_at_colon,
};
use vstd::prelude::*;

verus! {

/// Why a text is not a line range.
#[derive(Clone, Copy, Debug, PartialEq, Eq, Structural)]
pub enum ParseError {
    /// A fragment is not an unsigned decimal number of 32 bits: it is empty,
    /// holds a character that is no digit, or its value is too large.
    InvalidSpec,
    /// The first line number is 0.
    InvalidStart,
    /// The last line number is less than the first.
    InvalidRange,
}

impl ParseError {
    /// The error in words.
    pub fn message(&self) -> (text: &'static str)
        ensures
            text@ == match *self {
                ParseError::InvalidSpec => "Invalid line spec"@,
                ParseError::InvalidStart => "Line number must start at 1"@,
                ParseError::InvalidRange => "End line before start line"@,
            },
    {
        match self {
            ParseError::InvalidSpec => "Invalid line spec",
            ParseError::InvalidStart => "Line number must start at 1",
            ParseError::InvalidRange => "End line before start line",
        }
    }
}

/// The mathematical content of a [`LineSpec`]: the line numbers from `start`
/// to `end`, both included.
pub struct LineRange {
    pub start: nat,
    pub end: nat,
}

impl LineRange {
    /// Line numbers start at 1, and the range is not empty.
    pub open spec fn valid(self) -> bool {
        1 <= self.start <= self.end
    }

    /// The line with number `line_number` is in the range.
    pub open spec fn contains(self, line_number: nat) -> bool {
        self.start <= line_number <= self.end
    }

    /// The lines of the text `lines` that are in the range, in their order:
    /// those from line `start` to line `end`, as far as the text has them.
    pub open spec fn select<T>(self, lines: Seq<T>) -> Seq<T>
        recommends
            self.valid(),
    {
        let first = if self.start - 1 < lines.len() {
            self.start - 1
        } else {
            lines.len() as int
        };
        let last = if self.end < lines.len() {
            self.end as int
        } else {
            lines.len() as int
        };
        lines.subrange(first, last)
    }
}

/// The range that the numbers `start` and `end` make, or what is wrong with
/// them. A first line 0 is reported before an end that is less than the
/// start.
pub open spec fn validated(start: nat, end: nat) -> Result<LineRange, ParseError> {
    if start == 0 {
        Err(ParseError::InvalidStart)
    } else if end < start {
        Err(ParseError::InvalidRange)
    } else {
        Ok(LineRange { start, end })
    }
}

/// What the text `s` reads as.
///
/// Both fragments are read as numbers before the numbers are looked at, so a
/// fragment that is no number is reported even where the first number is 0.
pub open spec fn parsed(s: Seq<char>) -> Result<LineRange, ParseError> {
    match number_of(first_fragment(s)) {
        None => Err(ParseError::InvalidSpec),
        Some(start) => match second_fragment(s) {
            None => validated(start as nat, start as nat),
            Some(fragment) => match number_of(fragment) {
                None => Err(ParseError::InvalidSpec),
                Some(end) => validated(start as nat, end as nat),
            },
        },
    }
}

/// A range of line numbers, `start` to `end`, with `1 <= start <= end`.
#[derive(Debug)]
pub struct LineSpec {
    start: u32,
    end: u32,
}

impl View for LineSpec {
    type V = LineRange;

    closed spec fn view(&self) -> LineRange {
        LineRange { start: self.start as nat, end: self.end as nat }
    }
}

impl LineSpec {
    #[verifier::type_invariant]
    spec fn well_formed(self) -> bool {
        1 <= self.start <= self.end
    }

    /// Reads a range from its textual form, `N` or `N:M`.
    pub fn new(spec: &str) -> (r: Result<Self, ParseError>)
        ensures
            match r {
                Ok(line_spec) => parsed(spec@) == Ok::<LineRange, ParseError>(line_spec@),
                Err(e) => parsed(spec@) == Err::<LineRange, ParseError>(e),
            },
    {
        let (first, rest) = split_at_colon(spec);
        let start: u32 = match parse_number(first) {
            Ok(n) => n,
            Err(e) => {
                return Err(e);
            },
        };
        let end: u32 = match rest {
            Some(rest) => {
                let (second, _) = split_at_colon(rest);
                match parse_number(second) {
                    Ok(n) => n,
                    Err(e) => {
                        return Err(e);
                    },
                }
            },
            None => start,
        };
        Self::init(start, end)
    }

    /// Reads a range from its textual form, `N` or `N:M`. The same as
    /// [`LineSpec::new`].
    pub fn from_spec(spec: &str) -> (r: Result<Self, ParseError>)
        ensures
            match r {
                Ok(line_spec) => parsed(spec@) == Ok::<LineRange, ParseError>(line_spec@),
                Err(e) => parsed(spec@) == Err::<LineRange, ParseError>(e),
            },
    {
        Self::new(spec)
    }

    /// Makes the range from `start` to `end` where the two numbers allow it.
    fn init(start: u32, end: u32) -> (r: Result<Self, ParseError>)
        ensures
            match r {
                Ok(line_spec) => validated(start as nat, end as nat) == Ok::<
                    LineRange,
                    ParseError,
                >(line_spec@),
                Err(e) => validated(start as nat, end as nat) == Err::<LineRange, ParseError>(e),
            },
    {
        if start == 0 {
            return Err(ParseError::InvalidStart);
        }
        if end < start {
            return Err(ParseError::InvalidRange);
        }
        Ok(Self { start: start, end: end })
    }

    /// The first line of the range.
    pub fn start(&self) -> (n: u32)
        ensures
            n == self@.start,
            self@.valid(),
    {
        proof {
            use_type_invariant(self);
        }
        self.start
    }

    /// The last line of the range.
    pub fn end(&self) -> (n: u32)
        ensures
            n == self@.end,
            self@.valid(),
    {
        proof {
            use_type_invariant(self);
        }
        self.end
    }

    /// Whether the line with number `line_number` (the first line has number
    /// 1) is in the range.
    pub fn line_in(&self, line_number: u32) -> (r: bool)
        ensures
            r == self@.contains(line_number as nat),
    {
        line_number >= self.start && line_number <= self.end
    }

    /// Whether the line at position `index`, counted from 0, is in the range:
    /// the line with number `index + 1`.
    pub fn selects(&self, index: usize) -> (r: bool)
        ensures
            r == self@.contains(index as nat + 1),
    {
        if index >= self.end as usize {
            false
        } else {
            self.line_in((index + 1) as u32)
        }
    }
}

/// Reads one fragment as a line number.
fn parse_number(number: &str) -> (r: Result<u32, ParseError>)
    ensures
        r == match number_of(number@) {
            Some(n) => Ok::<u32, ParseError>(n),
            None => Err::<u32, ParseError>(ParseError::InvalidSpec),
        },
{
    match parse_u32(number) {
        Some(n) => Ok(n),
        None => Err(ParseError::InvalidSpec),
    }
}

/// A digit is no `:`, so a run of digits is a single fragment.
pub proof fn lemma_digits_have_no_colon(s: Seq<char>)
    requires
        all_digits(s),
    ensures
        no_colon(s),
{
    assert forall|i: int| 0 <= i < s.len() implies #[trigger] s[i] != ':' by {
        assert(is_digit(s[i]));
    }
}

/// A number `N` of at least 1, written alone, is the range of the one line
/// `N`.
pub proof fn lemma_single_number(number: Seq<char>)
    requires
        is_decimal(number),
        1 <= decimal_value(number) <= u32::MAX,
    ensures
        parsed(number) == Ok::<LineRange, ParseError>(
            LineRange { start: decimal_value(number), end: decimal_value(number) },
        ),
{
    lemma_digits_have_no_colon(number);
    lemma_fragments_of_plain(number);
}

/// Two numbers `N` and `M` with `1 <= N <= M`, written `N:M`, are the range
/// from `N` to `M`.
pub proof fn lemma_number_pair(first: Seq<char>, second: Seq<char>)
    requires
        is_decimal(first),
        is_decimal(second),
        1 <= decimal_value(first) <= decimal_value(second) <= u32::MAX,
    ensures
        parsed(first + seq![':'] + second) == Ok::<LineRange, ParseError>(
            LineRange { start: decimal_value(first), end: decimal_value(second) },
        ),
{
    lemma_digits_have_no_colon(first);
    lemma_digits_have_no_colon(second);
    lemma_fragments_of_joined(first, second);
    lemma_fragments_of_plain(second);
}

/// A first line number 0 is refused as `InvalidStart`, written alone or before
/// any number of 32 bits.
pub proof fn lemma_zero_start(first: Seq<char>, second: Seq<char>)
    requires
        is_decimal(first),
        decimal_value(first) == 0,
        is_decimal(second),
        decimal_value(second) <= u32::MAX,
    ensures
        parsed(first) == Err::<LineRange, ParseError>(ParseError::InvalidStart),
        parsed(first + seq![':'] + second) == Err::<LineRange, ParseError>(
            ParseError::InvalidStart,
        ),
{
    lemma_digits_have_no_colon(first);
    lemma_digits_have_no_colon(second);
    lemma_fragments_of_plain(first);
    lemma_fragments_of_joined(first, second);
    lemma_fragments_of_plain(second);
}

/// An end that is less than the start is refused as `InvalidRange`.
pub proof fn lemma_end_before_start(first: Seq<char>, second: Seq<char>)
    requires
        is_decimal(first),
        is_decimal(second),
        decimal_value(second) < decimal_value(first) <= u32::MAX,
    ensures
        parsed(first + seq![':'] + second) == Err::<LineRange, ParseError>(
            ParseError::InvalidRange,
        ),
{
    lemma_digits_have_no_colon(first);
    lemma_digits_have_no_colon(second);
    lemma_fragments_of_joined(first, second);
    lemma_fragments_of_plain(second);
}

/// A first fragment that is no number of 32 bits is refused as `InvalidSpec`,
/// whatever follows it.
pub proof fn lemma_invalid_first_fragment(first: Seq<char>, rest: Seq<char>)
    requires
        no_colon(first),
        number_of(first) is None,
    ensures
        parsed(first) == Err::<LineRange, ParseError>(ParseError::InvalidSpec),
        parsed(first + seq![':'] + rest) == Err::<LineRange, ParseError>(ParseError::InvalidSpec),
{
    lemma_fragments_of_plain(first);
    lemma_fragments_of_joined(first, rest);
}

/// A second fragment that is no number of 32 bits is refused as
/// `InvalidSpec`, whatever the first number is and whatever follows.
pub proof fn lemma_invalid_second_fragment(first: Seq<char>, second: Seq<char>, rest: Seq<char>)
    requires
        number_of(first) is Some,
        no_colon(second),
        number_of(second) is None,
    ensures
        parsed(first + seq![':'] + second) == Err::<LineRange, ParseError>(
            ParseError::InvalidSpec,
        ),
        parsed(first + seq![':'] + (second + seq![':'] + rest)) == Err::<LineRange, ParseError>(
            ParseError::InvalidSpec,
        ),
{
    lemma_digits_have_no_colon(first);
    lemma_fragments_of_joined(first, second);
    lemma_fragments_of_plain(second);
    lemma_fragments_of_joined(first, second + seq![':'] + rest);
    lemma_fragments_of_joined(second, rest);
}

/// A text `a` without `:` reads as the text `a:a` does: as the same range, or
/// with the same error.
pub proof fn lemma_single_same_as_pair(a: Seq<char>)
    requires
        no_colon(a),
    ensures
        parsed(a) == parsed(a + seq![':'] + a),
{
    lemma_fragments_of_plain(a);
    lemma_fragments_of_joined(a, a);
}

/// What follows a second `:` changes nothing.
pub proof fn lemma_later_fragments_ignored(first: Seq<char>, second: Seq<char>, rest: Seq<char>)
    requires
        no_colon(first),
        no_colon(second),
    ensures
        parsed(first + seq![':'] + (second + seq![':'] + rest)) == parsed(
            first + seq![':'] + second,
        ),
{
    lemma_fragments_of_joined(first, second);
    lemma_fragments_of_plain(second);
    lemma_fragments_of_joined(first, second + seq![':'] + rest);
    lemma_fragments_of_joined(second, rest);
}

/// A text reads as a range only where the range is valid: line numbers start
/// at 1, and the end is not before the start.
pub proof fn lemma_parsed_is_valid(s: Seq<char>)
    ensures
        parsed(s) matches Ok(range) ==> range.valid() && range.end <= u32::MAX,
{
}

/// What a valid range selects from a text is the lines whose numbers are in
/// the range, each once and in their order: every line of the selection is a
/// line of the text with a number in the range, the lines of the selection
/// follow each other as in the text, and every line of the text with a number
/// in the range is in the selection.
pub proof fn lemma_select_is_lines_in_range<T>(range: LineRange, lines: Seq<T>)
    requires
        range.valid(),
    ensures
        forall|k: int|
            0 <= k < range.select(lines).len() ==> {
                &&& range.start + k <= lines.len()
                &&& range.contains((range.start + k) as nat)
                &&& #[trigger] range.select(lines)[k] == lines[range.start + k - 1]
            },
        forall|n: nat|
            1 <= n <= lines.len() && #[trigger] range.contains(n) ==> n - range.start
                < range.select(lines).len(),
{
}

/// The lines of a range lie together: a line number between two line numbers
/// of the range is in the range.
pub proof fn lemma_contains_between(range: LineRange, low: nat, mid: nat, high: nat)
    requires
        range.contains(low),
        range.contains(high),
        low <= mid <= high,
    ensures
        range.contains(mid),
{
}

} // verus!

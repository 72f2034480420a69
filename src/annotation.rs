//! Query annotations (TTL, timestamp, timeout) that hold either a literal or
//! the `?` placeholder for a value bound at execution time.
use vstd::prelude::*;

use crate::decimal::{decimal, format_int, int_in_range, is_int_literal, lemma_decimal_is_literal, literal_value, parse_int};

verus! {

/// Time to live of a written row, in seconds.
#[derive(Debug, PartialEq, Eq, Structural, Copy, Clone)]
pub enum Ttl {
    Parameterized,
    Fixed(i32),
}

/// Write timestamp, in milliseconds since the UNIX epoch.
#[derive(Debug, PartialEq, Eq, Structural, Copy, Clone)]
pub enum Timestamp {
    Parameterized,
    Fixed(i64),
}

/// Server-side timeout, as a CQL duration literal such as `5ms` or `1h`.
#[derive(Debug, PartialEq, Clone)]
pub enum Timeout {
    Parameterized,
    Fixed(String),
}

/// Why an annotation could not be read.
#[derive(Debug, PartialEq, Eq, Structural, Copy, Clone)]
pub enum AnnotationError {
    /// The text is neither `?` nor a literal of the annotation's type.
    InvalidLiteral,
}

/// The reserved placeholder token.
pub open spec fn is_placeholder(s: Seq<char>) -> bool {
    s == seq!['?']
}

pub open spec fn ttl_of(s: Seq<char>) -> Result<Ttl, AnnotationError> {
    if is_placeholder(s) {
        Ok(Ttl::Parameterized)
    } else {
        match int_in_range(s, i32::MIN as int, i32::MAX as int) {
            Some(v) => Ok(Ttl::Fixed(v as i32)),
            None => Err(AnnotationError::InvalidLiteral),
        }
    }
}

pub open spec fn timestamp_of(s: Seq<char>) -> Result<Timestamp, AnnotationError> {
    if is_placeholder(s) {
        Ok(Timestamp::Parameterized)
    } else {
        match int_in_range(s, i64::MIN as int, i64::MAX as int) {
            Some(v) => Ok(Timestamp::Fixed(v as i64)),
            None => Err(AnnotationError::InvalidLiteral),
        }
    }
}

/// `t` is what the text `s` denotes as a timeout: any text but `?` is taken as it is.
pub open spec fn timeout_of(s: Seq<char>, t: Timeout) -> bool {
    if is_placeholder(s) {
        t is Parameterized
    } else {
        t matches Timeout::Fixed(f) && f@ == s
    }
}

pub open spec fn ttl_text(t: Ttl) -> Seq<char> {
    match t {
        Ttl::Parameterized => seq!['?'],
        Ttl::Fixed(n) => decimal(n as int),
    }
}

pub open spec fn timestamp_text(t: Timestamp) -> Seq<char> {
    match t {
        Timestamp::Parameterized => seq!['?'],
        Timestamp::Fixed(n) => decimal(n as int),
    }
}

pub open spec fn timeout_text(t: Timeout) -> Seq<char> {
    match t {
        Timeout::Parameterized => seq!['?'],
        Timeout::Fixed(f) => f@,
    }
}

fn is_placeholder_text(s: &str) -> (r: bool)
    ensures
        r == is_placeholder(s@),
{
    if s.unicode_len() == 1 {
        let c = s.get_char(0);
        if c == '?' {
            assert(s@ =~= seq!['?']);
            true
        } else {
            false
        }
    } else {
        false
    }
}

fn placeholder_text() -> (r: String)
    ensures
        r@ == seq!['?'],
{
    proof {
        reveal_strlit("?");
    }
    String::from_str("?")
}

impl Ttl {
    /// Reads a TTL annotation: `?`, or a signed 32-bit decimal integer.
    pub fn parse(s: &str) -> (r: Result<Ttl, AnnotationError>)
        ensures
            r == ttl_of(s@),
    {
        if is_placeholder_text(s) {
            Ok(Ttl::Parameterized)
        } else {
            match parse_int(s, i32::MIN as i64, i32::MAX as i64) {
                Some(v) => Ok(Ttl::Fixed(v as i32)),
                None => Err(AnnotationError::InvalidLiteral),
            }
        }
    }

    /// The annotation as it is written in a query.
    pub fn to_literal(&self) -> (r: String)
        ensures
            r@ == ttl_text(*self),
    {
        match self {
            Ttl::Parameterized => placeholder_text(),
            Ttl::Fixed(n) => format_int(*n as i64),
        }
    }
}

impl Timestamp {
    /// Reads a timestamp annotation: `?`, or a signed 64-bit decimal integer.
    pub fn parse(s: &str) -> (r: Result<Timestamp, AnnotationError>)
        ensures
            r == timestamp_of(s@),
    {
        if is_placeholder_text(s) {
            Ok(Timestamp::Parameterized)
        } else {
            match parse_int(s, i64::MIN, i64::MAX) {
                Some(v) => Ok(Timestamp::Fixed(v)),
                None => Err(AnnotationError::InvalidLiteral),
            }
        }
    }

    /// The annotation as it is written in a query.
    pub fn to_literal(&self) -> (r: String)
        ensures
            r@ == timestamp_text(*self),
    {
        match self {
            Timestamp::Parameterized => placeholder_text(),
            Timestamp::Fixed(n) => format_int(*n),
        }
    }
}

impl Timeout {
    /// Reads a timeout annotation: `?`, or any other text taken as a duration
    /// literal without checking its form.
    pub fn parse(s: &str) -> (r: Timeout)
        ensures
            timeout_of(s@, r),
    {
        if is_placeholder_text(s) {
            Timeout::Parameterized
        } else {
            Timeout::Fixed(s.to_owned())
        }
    }

    /// The annotation as it is written in a query.
    pub fn to_literal(&self) -> (r: String)
        ensures
            r@ == timeout_text(*self),
    {
        match self {
            Timeout::Parameterized => placeholder_text(),
            Timeout::Fixed(f) => f.clone(),
        }
    }
}

impl std::str::FromStr for Ttl {
    type Err = AnnotationError;

    fn from_str(s: &str) -> Result<Ttl, AnnotationError> {
        Ttl::parse(s)
    }
}

impl std::str::FromStr for Timestamp {
    type Err = AnnotationError;

    fn from_str(s: &str) -> Result<Timestamp, AnnotationError> {
        Timestamp::parse(s)
    }
}

impl std::str::FromStr for Timeout {
    type Err = ();

    fn from_str(s: &str) -> Result<Timeout, ()> {
        Ok(Timeout::parse(s))
    }
}

/// A well-formed integer literal other than `?` reads as a fixed TTL and a
/// fixed timestamp of the value it denotes, when that value fits the type.
pub proof fn lemma_literal_reads_as_fixed(s: Seq<char>)
    requires
        is_int_literal(s),
    ensures
        i32::MIN <= literal_value(s) <= i32::MAX ==> ttl_of(s) == Ok::<Ttl, AnnotationError>(
            Ttl::Fixed(literal_value(s) as i32),
        ),
        i64::MIN <= literal_value(s) <= i64::MAX ==> timestamp_of(s) == Ok::<Timestamp, AnnotationError>(
            Timestamp::Fixed(literal_value(s) as i64),
        ),
{
    assert(!is_placeholder(s)) by {
        if is_placeholder(s) {
            assert(s[0] == '?');
        }
    }
}

/// Text that is neither `?` nor an integer literal is refused as a TTL and as
/// a timestamp, and is taken unchanged as a fixed timeout.
pub proof fn lemma_malformed_literal(s: Seq<char>, t: Timeout)
    requires
        !is_placeholder(s),
        !is_int_literal(s),
    ensures
        ttl_of(s) == Err::<Ttl, AnnotationError>(AnnotationError::InvalidLiteral),
        timestamp_of(s) == Err::<Timestamp, AnnotationError>(AnnotationError::InvalidLiteral),
        timeout_of(s, t) <==> (t matches Timeout::Fixed(f) && f@ == s),
{
}

/// Writing a TTL out and reading it back gives the same TTL.
pub proof fn lemma_ttl_round_trip(t: Ttl)
    ensures
        ttl_of(ttl_text(t)) == Ok::<Ttl, AnnotationError>(t),
{
    if let Ttl::Fixed(n) = t {
        lemma_decimal_is_literal(n as int);
        lemma_literal_reads_as_fixed(decimal(n as int));
    }
}

/// Writing a timestamp out and reading it back gives the same timestamp.
pub proof fn lemma_timestamp_round_trip(t: Timestamp)
    ensures
        timestamp_of(timestamp_text(t)) == Ok::<Timestamp, AnnotationError>(t),
{
    if let Timestamp::Fixed(n) = t {
        lemma_decimal_is_literal(n as int);
        lemma_literal_reads_as_fixed(decimal(n as int));
    }
}

/// Writing a timeout out and reading it back gives a timeout of the same
/// text, unless a fixed timeout's text is the placeholder itself.
pub proof fn lemma_timeout_round_trip(t: Timeout)
    requires
        !(t matches Timeout::Fixed(f) && is_placeholder(f@)),
    ensures
        timeout_of(timeout_text(t), t),
{
}

} // verus!

use vstd::prelude::*;
use vstd::string::StringExecFns;

verus! {

#[verifier::external_type_specification]
#[verifier::external_body]
pub struct ExParseIntError(std::num::ParseIntError);

#[verifier::external_type_specification]
#[verifier::external_body]
pub struct ExIoError(std::io::Error);

#[verifier::external_type_specification]
#[verifier::external_body]
pub struct ExSetGlobalDefaultError(tracing::subscriber::SetGlobalDefaultError);

#[verifier::external_type_specification]
#[verifier::external_body]
pub struct ExSpanTrace(tracing_error::SpanTrace);

#[verifier::external_type_specification]
#[verifier::external_body]
pub struct ExBacktrace(std::backtrace::Backtrace);

/// The kinds of error that the parsing chain and its callers report.
#[allow(inconsistent_fields)]
pub enum ErrKind {
    /// A duration, in microseconds a multiple of seven, that was taken for a
    /// bad sign.
    SuperstitiousConcern { source_dur: std::time::Duration },
    /// An input or output error.
    Io { source: std::io::Error },
    /// A string that is not a decimal `u64`.
    ParseInt { source: std::num::ParseIntError },
    /// The global tracing subscriber could not be set.
    TracingSubscriber { source: tracing::subscriber::SetGlobalDefaultError },
    /// Any other error, described by a message.
    OtherErrorString { source_string: String },
}

/// An error kind together with the span trace and backtrace taken where it
/// was wrapped.
pub struct ErrWrapper {
    pub source: ErrKind,
    pub spantrace: tracing_error::SpanTrace,
    pub backtrace: std::backtrace::Backtrace,
}

/// Relies on tracing_error::SpanTrace::capture: the spans entered on this
/// thread at the call.
#[verifier::external_body]
fn capture_spantrace() -> (r: tracing_error::SpanTrace) {
    tracing_error::SpanTrace::capture()
}

/// Relies on std::backtrace::Backtrace::capture: the call stack at the call,
/// when the environment asks for backtraces.
#[verifier::external_body]
fn capture_backtrace() -> (r: std::backtrace::Backtrace) {
    std::backtrace::Backtrace::capture()
}

impl ErrWrapper {
    /// Wraps `kind`, capturing the current span trace and backtrace.
    pub fn wrap(kind: ErrKind) -> (r: ErrWrapper)
        ensures
            r.source == kind,
    {
        ErrWrapper { source: kind, spantrace: capture_spantrace(), backtrace: capture_backtrace() }
    }
}

/// Whether every character of `s` is an ASCII digit.
pub open spec fn all_digits(s: Seq<char>) -> bool {
    forall|i: int| 0 <= i < s.len() ==> '0' <= #[trigger] s[i] <= '9'
}

/// The number that the decimal digits `s` spell.
pub open spec fn digits_value(s: Seq<char>) -> int
    decreases s.len(),
{
    if s.len() == 0 {
        0
    } else {
        digits_value(s.drop_last()) * 10 + (s.last() as int - '0' as int)
    }
}

/// What parsing `s` as a `u64` gives: an optional `+` followed by one or
/// more ASCII digits whose value fits in a `u64`; anything else is no number.
pub open spec fn decimal_u64(s: Seq<char>) -> Option<u64> {
    let body = if s.len() > 0 && s[0] == '+' {
        s.drop_first()
    } else {
        s
    };
    if body.len() > 0 && all_digits(body) && digits_value(body) <= u64::MAX {
        Some(digits_value(body) as u64)
    } else {
        None
    }
}

/// What trimming whitespace from both ends of `s` leaves.
pub uninterp spec fn trimmed(s: Seq<char>) -> Seq<char>;

/// Relies on str::trim: `s` without leading and trailing whitespace (as
/// Unicode's White_Space property defines it).
#[verifier::external_body]
fn trim_str(s: &str) -> (r: &str)
    ensures
        r@ == trimmed(s@),
{
    s.trim()
}

/// `s` written twice in a row.
fn doubled(s: &str) -> (r: String)
    ensures
        r@ == s@ + s@,
{
    let mut r = String::from_str(s);
    r.append(s);
    r
}

/// Relies on `<u64 as FromStr>::from_str`: an optional `+` and then decimal
/// digits give their value when it fits in a `u64`; anything else is an
/// error.
#[verifier::external_body]
fn parse_u64(s: &str) -> (r: Result<u64, std::num::ParseIntError>)
    ensures
        r is Ok <==> decimal_u64(s@) is Some,
        r matches Ok(v) ==> decimal_u64(s@) == Some(v),
{
    s.parse::<u64>()
}

/// Parses `s` as a decimal `u64`; a string that is not one gives a parse
/// error.
pub fn parse_nest(s: String) -> (r: Result<u64, ErrWrapper>)
    ensures
        r is Ok <==> decimal_u64(s@) is Some,
        r matches Ok(v) ==> decimal_u64(s@) == Some(v),
        r matches Err(e) ==> e.source is ParseInt,
{
    match parse_u64(s.as_str()) {
        Ok(v) => Ok(v),
        Err(e) => Err(ErrWrapper::wrap(ErrKind::ParseInt { source: e })),
    }
}

/// Parses `s` written twice in a row as a decimal `u64` (`"12"` reads as
/// `1212`).
pub fn double_parse_nest(s: String) -> (r: Result<u64, ErrWrapper>)
    ensures
        r is Ok <==> decimal_u64(s@ + s@) is Some,
        r matches Ok(v) ==> decimal_u64(s@ + s@) == Some(v),
        r matches Err(e) ==> e.source is ParseInt,
{
    let so_long = doubled(s.as_str());
    parse_nest(so_long)
}

/// Trims whitespace from both ends of `s`, then parses it written twice in a
/// row as a decimal `u64`.
pub fn trim_double_parse_nest(s: &str) -> (r: Result<u64, ErrWrapper>)
    ensures
        r is Ok <==> decimal_u64(trimmed(s@) + trimmed(s@)) is Some,
        r matches Ok(v) ==> decimal_u64(trimmed(s@) + trimmed(s@)) == Some(v),
        r matches Err(e) ==> e.source is ParseInt,
{
    let so_clean = trim_str(s);
    double_parse_nest(so_clean.to_string())
}

} // verus!

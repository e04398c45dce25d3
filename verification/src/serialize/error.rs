//! Why an encoding fails, and what an encoding is to a contract.

use crate::decimal::{int_chars, push_int};
use crate::io::{Sink, WriteError};
use crate::value::DatetimeUnit;
use vstd::prelude::*;

verus! {

/// Why a value could not be encoded.
#[derive(Clone, Copy, Debug, PartialEq, Eq, Structural)]
pub enum EncodeError {
    /// A map key is not a string, and keys of other kinds were not asked for.
    KeyMustBeStr,
    /// A map key is of a kind that no key can be of.
    KeyTypeUnsupported,
    /// Sorted keys were asked for together with keys of other kinds.
    OptionsIncompatible,
    /// A time of day carries a time zone.
    TimeHasTimezone,
    /// A time zone gave no offset in any way that is known.
    TzLibraryUnsupported,
    /// A date and time that the calendar does not have.
    DatetimeOutOfRange,
    /// An integer lies outside the 64-bit range.
    IntegerOutOfRange,
    /// An extension tag lies outside 0 to 127.
    ExtTagOutOfRange,
    /// A string holds lone surrogates.
    InvalidStr,
    /// Containers are nested deeper than the ceiling.
    RecursionLimitReached,
    /// The fallback hook was entered more often in a row than the ceiling.
    DefaultRecursionLimitReached,
    /// A value is of no kind that is encoded, and the fallback hook is
    /// missing or failed on it.
    TypeNotSerializable,
    /// A view of memory has gaps.
    MemoryViewNotContiguous,
    /// A validated model has no attribute table.
    ModelMustHaveDict,
    /// The description of a numeric array contradicts itself.
    ArrayMalformed,
    /// A numeric array has gaps or elements of a kind that is not encoded,
    /// and there is no fallback hook.
    ArrayNotContiguous,
    /// A timestamp counts in a unit that no date and time is made from.
    DatetimeUnitUnsupported(DatetimeUnit),
    /// A timestamp names a moment that the calendar does not have.
    DatetimeUnrepresentable { unit: DatetimeUnit, val: i64 },
    /// The sink refused a write, or a length has no prefix in the format.
    Write,
}

impl EncodeError {
    /// The error of the encoder for a refused write.
    pub fn from_write(_e: WriteError) -> (r: EncodeError)
        ensures
            r == EncodeError::Write,
    {
        EncodeError::Write
    }

    /// The text that a caller is shown.
    pub open spec fn text(self) -> Seq<char> {
        match self {
            EncodeError::KeyMustBeStr => "Dict key must be str"@,
            EncodeError::KeyTypeUnsupported => "Dict key must a type serializable with OPT_NON_STR_KEYS"@,
            EncodeError::OptionsIncompatible => "OPT_NON_STR_KEYS is not compatible with OPT_SORT_KEYS"@,
            EncodeError::TimeHasTimezone => "datetime.time must not have tzinfo set"@,
            EncodeError::TzLibraryUnsupported => "datetime's timezone library is not supported: use datetime.timezone.utc, pendulum, pytz, or dateutil"@,
            EncodeError::DatetimeOutOfRange => "datetime is out of range"@,
            EncodeError::IntegerOutOfRange => "Integer exceeds 64-bit range"@,
            EncodeError::ExtTagOutOfRange => "Extension type out of range"@,
            EncodeError::InvalidStr => "str is not valid UTF-8: surrogates not allowed"@,
            EncodeError::RecursionLimitReached => "Recursion limit reached"@,
            EncodeError::DefaultRecursionLimitReached => "Recursion limit for default hook reached"@,
            EncodeError::TypeNotSerializable => "Type is not msgpack serializable"@,
            EncodeError::MemoryViewNotContiguous => "Failed to get buffer from memoryview"@,
            EncodeError::ModelMustHaveDict => "Pydantic model must have __dict__ attribute"@,
            EncodeError::ArrayMalformed => "numpy array is malformed"@,
            EncodeError::ArrayNotContiguous => "numpy array is not C contiguous; use ndarray.tolist() in default"@,
            EncodeError::DatetimeUnitUnsupported(unit) => "unsupported numpy.datetime64 unit: "@
                + unit_name_spec(unit)@,
            EncodeError::DatetimeUnrepresentable { unit, val } => "unrepresentable numpy.datetime64: "@
                + int_chars(val as int) + " "@ + unit_name_spec(unit)@,
            EncodeError::Write => "write error"@,
        }
    }

    /// The text that a caller is shown.
    pub fn message(&self) -> (s: String)
        ensures
            s@ == self.text(),
    {
        match self {
            EncodeError::KeyMustBeStr => "Dict key must be str".to_owned(),
            EncodeError::KeyTypeUnsupported => "Dict key must a type serializable with OPT_NON_STR_KEYS".to_owned(),
            EncodeError::OptionsIncompatible => "OPT_NON_STR_KEYS is not compatible with OPT_SORT_KEYS".to_owned(),
            EncodeError::TimeHasTimezone => "datetime.time must not have tzinfo set".to_owned(),
            EncodeError::TzLibraryUnsupported => "datetime's timezone library is not supported: use datetime.timezone.utc, pendulum, pytz, or dateutil".to_owned(),
            EncodeError::DatetimeOutOfRange => "datetime is out of range".to_owned(),
            EncodeError::IntegerOutOfRange => "Integer exceeds 64-bit range".to_owned(),
            EncodeError::ExtTagOutOfRange => "Extension type out of range".to_owned(),
            EncodeError::InvalidStr => "str is not valid UTF-8: surrogates not allowed".to_owned(),
            EncodeError::RecursionLimitReached => "Recursion limit reached".to_owned(),
            EncodeError::DefaultRecursionLimitReached => "Recursion limit for default hook reached".to_owned(),
            EncodeError::TypeNotSerializable => "Type is not msgpack serializable".to_owned(),
            EncodeError::MemoryViewNotContiguous => "Failed to get buffer from memoryview".to_owned(),
            EncodeError::ModelMustHaveDict => "Pydantic model must have __dict__ attribute".to_owned(),
            EncodeError::ArrayMalformed => "numpy array is malformed".to_owned(),
            EncodeError::ArrayNotContiguous => "numpy array is not C contiguous; use ndarray.tolist() in default".to_owned(),
            EncodeError::Write => "write error".to_owned(),
            EncodeError::DatetimeUnitUnsupported(unit) => {
                let mut s = "unsupported numpy.datetime64 unit: ".to_owned();
                vstd::string::StringExecFns::append(&mut s, unit_name(*unit));
                s
            },
            EncodeError::DatetimeUnrepresentable { unit, val } => {
                let mut s = "unrepresentable numpy.datetime64: ".to_owned();
                push_int(&mut s, *val);
                vstd::string::StringExecFns::append(&mut s, " ");
                vstd::string::StringExecFns::append(&mut s, unit_name(*unit));
                s
            },
        }
    }
}

/// The name of a unit of timestamps.
pub open spec fn unit_name_spec(unit: DatetimeUnit) -> &'static str {
    match unit {
        DatetimeUnit::NaT => "NaT",
        DatetimeUnit::Years => "years",
        DatetimeUnit::Months => "months",
        DatetimeUnit::Weeks => "weeks",
        DatetimeUnit::Days => "days",
        DatetimeUnit::Hours => "hours",
        DatetimeUnit::Minutes => "minutes",
        DatetimeUnit::Seconds => "seconds",
        DatetimeUnit::Milliseconds => "milliseconds",
        DatetimeUnit::Microseconds => "microseconds",
        DatetimeUnit::Nanoseconds => "nanoseconds",
        DatetimeUnit::Picoseconds => "picoseconds",
        DatetimeUnit::Femtoseconds => "femtoseconds",
        DatetimeUnit::Attoseconds => "attoseconds",
        DatetimeUnit::Generic => "generic",
    }
}

/// The name of a unit of timestamps.
pub fn unit_name(unit: DatetimeUnit) -> (s: &'static str)
    ensures
        s == unit_name_spec(unit),
{
    match unit {
        DatetimeUnit::NaT => "NaT",
        DatetimeUnit::Years => "years",
        DatetimeUnit::Months => "months",
        DatetimeUnit::Weeks => "weeks",
        DatetimeUnit::Days => "days",
        DatetimeUnit::Hours => "hours",
        DatetimeUnit::Minutes => "minutes",
        DatetimeUnit::Seconds => "seconds",
        DatetimeUnit::Milliseconds => "milliseconds",
        DatetimeUnit::Microseconds => "microseconds",
        DatetimeUnit::Nanoseconds => "nanoseconds",
        DatetimeUnit::Picoseconds => "picoseconds",
        DatetimeUnit::Femtoseconds => "femtoseconds",
        DatetimeUnit::Attoseconds => "attoseconds",
        DatetimeUnit::Generic => "generic",
    }
}

/// What encoding does, as a contract sees it: the bytes that it puts out,
/// in order, and the error that it ends with, if it ends with one. The
/// bytes of a failed encoding are those that were put out before it failed.
pub struct Emitted {
    pub bytes: Seq<u8>,
    pub error: Option<EncodeError>,
}

impl Emitted {
    /// Nothing put out, no error.
    pub open spec fn nothing() -> Emitted {
        Emitted { bytes: Seq::empty(), error: None }
    }

    /// The bytes put out, no error.
    pub open spec fn ok(bytes: Seq<u8>) -> Emitted {
        Emitted { bytes, error: None }
    }

    /// Nothing put out, and the error.
    pub open spec fn fail(error: EncodeError) -> Emitted {
        Emitted { bytes: Seq::empty(), error: Some(error) }
    }

    /// One token, or the refusal of the input where it has no token.
    pub open spec fn token(token: Option<Seq<u8>>) -> Emitted {
        match token {
            Some(bytes) => Emitted::ok(bytes),
            None => Emitted::fail(EncodeError::Write),
        }
    }

    /// This, and then `next` unless this failed.
    pub open spec fn followed_by(self, next: Emitted) -> Emitted {
        if self.error is Some {
            self
        } else {
            Emitted { bytes: self.bytes + next.bytes, error: next.error }
        }
    }

    /// What the caller is handed.
    pub open spec fn result(self) -> Result<(), EncodeError> {
        match self.error {
            Some(e) => Err(e),
            None => Ok(()),
        }
    }
}

/// What an encoder does to a sink. Where the sink has room for all that is
/// put out, it holds it afterwards, and the result is that of the encoding.
/// Where it has not, the write that did not fit ends the encoding.
pub open spec fn encoded(pre: Sink, post: Sink, r: Result<(), EncodeError>, e: Emitted) -> bool {
    if e.bytes.len() <= pre.room {
        post == pre.after(e.bytes) && r == e.result()
    } else {
        r == Err::<(), EncodeError>(EncodeError::Write)
    }
}

/// An encoding that succeeded, followed by a second one, is the two in
/// turn.
pub proof fn lemma_encoded_then(
    s0: Sink,
    s1: Sink,
    s2: Sink,
    r: Result<(), EncodeError>,
    e1: Emitted,
    e2: Emitted,
)
    requires
        encoded(s0, s1, Ok(()), e1),
        encoded(s1, s2, r, e2),
    ensures
        encoded(s0, s2, r, e1.followed_by(e2)),
{
    assert(e1.bytes.len() <= s0.room);
    if e2.bytes.len() <= s1.room {
        assert(s0.written + e1.bytes + e2.bytes =~= s0.written + (e1.bytes + e2.bytes));
    }
}

/// An encoding that failed stays what it is, whatever would have followed.
pub proof fn lemma_encoded_stop(
    s0: Sink,
    s1: Sink,
    e: EncodeError,
    e1: Emitted,
    e2: Emitted,
)
    requires
        encoded(s0, s1, Err(e), e1),
    ensures
        encoded(s0, s1, Err(e), e1.followed_by(e2)),
{
}

/// Nothing, followed by an encoding, is that encoding.
pub proof fn lemma_nothing_first(a: Emitted)
    ensures
        Emitted::nothing().followed_by(a) == a,
        a.followed_by(Emitted::nothing()) == a,
{
    assert(Seq::<u8>::empty() + a.bytes =~= a.bytes);
    assert(a.bytes + Seq::<u8>::empty() =~= a.bytes);
}

/// `followed_by` is associative, and `nothing` is neutral on both sides.
pub proof fn lemma_followed_by_assoc(a: Emitted, b: Emitted, c: Emitted)
    ensures
        a.followed_by(b).followed_by(c) == a.followed_by(b.followed_by(c)),
        Emitted::nothing().followed_by(a) == a,
        a.followed_by(Emitted::nothing()) == a,
{
    assert(a.bytes + b.bytes + c.bytes =~= a.bytes + (b.bytes + c.bytes));
    assert(Seq::<u8>::empty() + a.bytes =~= a.bytes);
    assert(a.bytes + Seq::<u8>::empty() =~= a.bytes);
}

/// A sink after nothing more has landed in it is the sink.
pub proof fn lemma_after_nothing(s: Sink)
    ensures
        s.after(Seq::empty()) == s,
{
    assert(s.written + Seq::<u8>::empty() =~= s.written);
}

/// An encoder that writes nothing and returns has put out nothing, or has
/// failed before it put out anything.
pub proof fn lemma_encoded_unchanged(s: Sink, r: Result<(), EncodeError>)
    ensures
        r is Ok ==> encoded(s, s, r, Emitted::nothing()),
        r matches Err(e) ==> encoded(s, s, r, Emitted::fail(e)),
{
    lemma_after_nothing(s);
    match r {
        Ok(unit) => {
            assert(unit == ());
            assert(r == Emitted::nothing().result());
        },
        Err(e) => {},
    }
}

} // verus!

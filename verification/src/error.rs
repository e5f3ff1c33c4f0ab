//! Decode failures: structured error values, never aborts. The innermost
//! failing conversion's error is returned unchanged.
use vstd::prelude::*;
use crate::model::ErrM;
use crate::value::Kind;

verus! {

/// What a decode rule expected of the input value.
#[derive(Clone, Copy, Debug, PartialEq, Eq, Structural)]
pub enum Expected {
    /// A value of exactly this kind.
    Exactly(Kind),
    /// A string naming a unit-like enum variant.
    BareTag,
    /// A dictionary with exactly one entry, keyed by a variant name.
    SingletonDict,
    /// Either of the two enum forms.
    BareTagOrSingletonDict,
}

/// Why a decode failed.
#[derive(Debug, PartialEq, Eq)]
#[allow(inconsistent_fields)]
pub enum DecodeError {
    /// The input value's kind does not fit the shape.
    KindMismatch { expected: Expected, actual: Kind },
    /// An array's length differs from the declared positional arity.
    ArityMismatch { expected: usize, actual: usize },
    /// A declared field name is missing from the dictionary.
    MissingField { name: String },
    /// A dictionary key names no data-carrying variant of the enum.
    UnknownVariant { name: String },
    /// An enum with no variants can never decode.
    EmptyEnum,
    /// The dictionary did not have exactly one entry.
    AmbiguousDictionary,
}

impl View for DecodeError {
    type V = ErrM;

    open spec fn view(&self) -> ErrM {
        match self {
            DecodeError::KindMismatch { expected, actual } => ErrM::KindMismatch {
                expected: *expected,
                actual: *actual,
            },
            DecodeError::ArityMismatch { expected, actual } => ErrM::ArityMismatch {
                expected: *expected as int,
                actual: *actual as int,
            },
            DecodeError::MissingField { name } => ErrM::MissingField { name: name@ },
            DecodeError::UnknownVariant { name } => ErrM::UnknownVariant { name: name@ },
            DecodeError::EmptyEnum => ErrM::EmptyEnum,
            DecodeError::AmbiguousDictionary => ErrM::AmbiguousDictionary,
        }
    }
}

} // verus!

verus! {

/// The printable name of a value kind.
pub open spec fn kind_text(k: Kind) -> Seq<char> {
    match k {
        Kind::Int => "an integer"@,
        Kind::Str => "a string"@,
        Kind::Array => "an array"@,
        Kind::Dict => "a dictionary"@,
        Kind::SetV => "a set"@,
    }
}

/// The printable form of what a decode rule expected.
pub open spec fn expected_text(e: Expected) -> Seq<char> {
    match e {
        Expected::Exactly(k) => kind_text(k),
        Expected::BareTag => "a string naming a variant"@,
        Expected::SingletonDict => "a dictionary with one entry"@,
        Expected::BareTagOrSingletonDict => "a string or a dictionary with one entry"@,
    }
}

/// The decimal digit character for `d`.
pub open spec fn digit_char(d: int) -> char {
    if d == 0 {
        '0'
    } else if d == 1 {
        '1'
    } else if d == 2 {
        '2'
    } else if d == 3 {
        '3'
    } else if d == 4 {
        '4'
    } else if d == 5 {
        '5'
    } else if d == 6 {
        '6'
    } else if d == 7 {
        '7'
    } else if d == 8 {
        '8'
    } else {
        '9'
    }
}

/// The decimal digits of `n`, most significant first.
pub open spec fn dec_digits(n: int) -> Seq<char>
    decreases n,
{
    if n < 10 {
        seq![digit_char(n)]
    } else {
        dec_digits(n / 10).push(digit_char(n % 10))
    }
}

/// The words a failure is reported in: the static expectation combined
/// with what was observed.
pub open spec fn message_m(e: ErrM) -> Seq<char> {
    match e {
        ErrM::KindMismatch { expected, actual } => "expected "@ + expected_text(expected)
            + ", got "@ + kind_text(actual),
        ErrM::ArityMismatch { expected, actual } => "expected an array of length "@ + dec_digits(
            expected,
        ) + ", got length "@ + dec_digits(actual),
        ErrM::MissingField { name } => "missing field "@ + name,
        ErrM::UnknownVariant { name } => "unknown variant "@ + name,
        ErrM::EmptyEnum => "cannot instantiate an empty enum"@,
        ErrM::AmbiguousDictionary => "expected a dictionary with exactly one entry"@,
    }
}

impl Kind {
    /// The kind's printable name.
    pub fn describe(&self) -> (s: &'static str)
        ensures
            s@ == kind_text(*self),
    {
        match self {
            Kind::Int => "an integer",
            Kind::Str => "a string",
            Kind::Array => "an array",
            Kind::Dict => "a dictionary",
            Kind::SetV => "a set",
        }
    }
}

impl Expected {
    /// The expectation's printable form.
    pub fn describe(&self) -> (s: &'static str)
        ensures
            s@ == expected_text(*self),
    {
        match self {
            Expected::Exactly(k) => k.describe(),
            Expected::BareTag => "a string naming a variant",
            Expected::SingletonDict => "a dictionary with one entry",
            Expected::BareTagOrSingletonDict => "a string or a dictionary with one entry",
        }
    }
}

fn digit_str(d: usize) -> (s: &'static str)
    requires
        d < 10,
    ensures
        s@ == seq![digit_char(d as int)],
{
    proof {
        reveal_strlit("0");
        reveal_strlit("1");
        reveal_strlit("2");
        reveal_strlit("3");
        reveal_strlit("4");
        reveal_strlit("5");
        reveal_strlit("6");
        reveal_strlit("7");
        reveal_strlit("8");
        reveal_strlit("9");
    }
    match d {
        0 => "0",
        1 => "1",
        2 => "2",
        3 => "3",
        4 => "4",
        5 => "5",
        6 => "6",
        7 => "7",
        8 => "8",
        _ => "9",
    }
}

fn push_digits(n: usize, out: &mut String)
    ensures
        final(out)@ == old(out)@ + dec_digits(n as int),
    decreases n,
{
    if n < 10 {
        out.append(digit_str(n));
    } else {
        push_digits(n / 10, out);
        out.append(digit_str(n % 10));
        proof {
            assert(old(out)@ + dec_digits((n / 10) as int) + seq![digit_char((n % 10) as int)]
                =~= old(out)@ + dec_digits(n as int));
        }
    }
}

/// The decimal rendering of `n`.
pub fn decimal_string(n: usize) -> (s: String)
    ensures
        s@ == dec_digits(n as int),
{
    let mut s = String::new();
    push_digits(n, &mut s);
    proof {
        assert(Seq::<char>::empty() + dec_digits(n as int) =~= dec_digits(n as int));
    }
    s
}

impl DecodeError {
    /// A human-readable description of the failure.
    pub fn message(&self) -> (s: String)
        ensures
            s@ == message_m(self@),
    {
        match self {
            DecodeError::KindMismatch { expected, actual } => {
                let mut s = String::from_str("expected ");
                s.append(expected.describe());
                s.append(", got ");
                s.append(actual.describe());
                s
            },
            DecodeError::ArityMismatch { expected, actual } => {
                let mut s = String::from_str("expected an array of length ");
                let e = decimal_string(*expected);
                s.append(e.as_str());
                s.append(", got length ");
                let a = decimal_string(*actual);
                s.append(a.as_str());
                s
            },
            DecodeError::MissingField { name } => {
                let mut s = String::from_str("missing field ");
                s.append(name.as_str());
                s
            },
            DecodeError::UnknownVariant { name } => {
                let mut s = String::from_str("unknown variant ");
                s.append(name.as_str());
                s
            },
            DecodeError::EmptyEnum => String::from_str("cannot instantiate an empty enum"),
            DecodeError::AmbiguousDictionary => String::from_str(
                "expected a dictionary with exactly one entry",
            ),
        }
    }
}

} // verus!

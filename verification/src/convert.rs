//! Turning what a match captured into typed values.
//!
//! A typed structure implements [`FromMatches`]: it says which names it cannot
//! do without, and builds itself from the mapping. The functions of this
//! module are the steps such an implementation is made of.

use crate::captures::Captures;
use crate::chars::to_chars;
use crate::decimal::{all_digits, decimal_value, is_digit, read_decimal};
use vstd::prelude::*;

verus! {

/// Mathematical form of a failed conversion.
pub enum ConversionFailure {
    MissingField { field_name: Seq<char> },
    FailedParse { field_name: Seq<char>, value: Seq<char> },
}

impl ConversionFailure {
    /// Whether the failure is one of this mapping: the missing name is not
    /// bound in it, the malformed text is what the name is bound to.
    pub open spec fn holds_of(self, matches: Map<Seq<char>, Seq<char>>) -> bool {
        match self {
            ConversionFailure::MissingField { field_name } => !matches.contains_key(field_name),
            ConversionFailure::FailedParse { field_name, value } => matches.contains_key(
                field_name,
            ) && matches[field_name] == value,
        }
    }
}

/// Why a mapping could not be turned into a typed structure.
#[derive(Debug, PartialEq, Eq)]
pub enum FromMatchesError {
    /// The structure requires the name, and the mapping does not bind it.
    MissingField { field_name: String },
    /// The mapping binds the name to text that is no value of the field's type.
    FailedParse { field_name: String, value: String },
}

impl View for FromMatchesError {
    type V = ConversionFailure;

    open spec fn view(&self) -> ConversionFailure {
        match *self {
            FromMatchesError::MissingField { field_name } => ConversionFailure::MissingField {
                field_name: field_name@,
            },
            FromMatchesError::FailedParse { field_name, value } => ConversionFailure::FailedParse {
                field_name: field_name@,
                value: value@,
            },
        }
    }
}

/// A typed structure that can be built from what a match captured.
pub trait FromMatches: Sized {
    /// Whether the structure cannot be built without a binding of `name`.
    /// Unless a structure says otherwise, it requires nothing.
    open spec fn requires_field(name: Seq<char>) -> bool {
        false
    }

    /// Builds the structure from the mapping.
    ///
    /// A mapping that lacks a required name is refused. Every refusal is true
    /// of the mapping, and one for a missing name names a required one.
    fn from_matches(matches: &Captures) -> (converted: Result<Self, FromMatchesError>)
        ensures
            (exists|name: Seq<char>| Self::requires_field(name) && !matches@.contains_key(name))
                ==> converted is Err,
            converted matches Err(error) ==> error@.holds_of(matches@) && (error is MissingField
                ==> Self::requires_field(error->MissingField_field_name@)),
    ;
}

impl FromMatches for () {
    /// The empty structure is built from any mapping.
    fn from_matches(matches: &Captures) -> (converted: Result<Self, FromMatchesError>)
        ensures
            converted is Ok,
    {
        Ok(())
    }
}

impl<T: FromMatches> FromMatches for Option<T> {
    /// The structure where it can be built, and `None` where it cannot.
    fn from_matches(matches: &Captures) -> (converted: Result<Self, FromMatchesError>)
        ensures
            match converted {
                Ok(Some(inner)) => call_ensures(
                    T::from_matches,
                    (matches,),
                    Ok::<T, FromMatchesError>(inner),
                ),
                Ok(None) => exists|error: FromMatchesError|
                    call_ensures(T::from_matches, (matches,), Err::<T, FromMatchesError>(error)),
                Err(_) => false,
            },
    {
        match T::from_matches(matches) {
            Ok(inner) => Ok(Some(inner)),
            Err(_) => Ok(None),
        }
    }
}

/// Builds a typed structure from the mapping, as the structure itself says.
pub fn from_matches<T: FromMatches>(matches: &Captures) -> (converted: Result<T, FromMatchesError>)
    ensures
        call_ensures(T::from_matches, (matches,), converted),
        (exists|name: Seq<char>| T::requires_field(name) && !matches@.contains_key(name))
            ==> converted is Err,
        converted matches Err(error) ==> error@.holds_of(matches@) && (error is MissingField
            ==> T::requires_field(error->MissingField_field_name@)),
{
    T::from_matches(matches)
}

/// The digits of a number in text: the text without a leading `+`.
pub open spec fn digits_of(text: Seq<char>) -> Seq<char> {
    if text.len() > 0 && text[0] == '+' {
        text.skip(1)
    } else {
        text
    }
}

/// The number that a text denotes: decimal digits, at least one, after at most
/// one `+`, and no larger than the machine can hold.
pub open spec fn number_of(text: Seq<char>) -> Option<usize> {
    let digits = digits_of(text);
    if digits.len() > 0 && all_digits(digits) && decimal_value(digits) <= usize::MAX {
        Some(decimal_value(digits) as usize)
    } else {
        None
    }
}

/// Reads a number from text.
pub fn parse_number(text: &str) -> (number: Option<usize>)
    ensures
        number == number_of(text@),
{
    let chars = to_chars(text);
    let start: usize = if chars.len() > 0 && chars[0] == '+' {
        1
    } else {
        0
    };
    let ghost digits = digits_of(text@);
    assert(digits =~= chars@.subrange(start as int, chars.len() as int));
    if start == chars.len() {
        return None;
    }
    let mut at: usize = start;
    while at < chars.len()
        invariant
            start <= at <= chars.len(),
            digits == digits_of(text@),
            digits == chars@.subrange(start as int, chars.len() as int),
            forall|i: int| start <= i < at ==> is_digit(#[trigger] chars[i]),
        decreases chars.len() - at,
    {
        let c = chars[at];
        if !('0' <= c && c <= '9') {
            assert(digits[at - start] == c);
            return None;
        }
        at += 1;
    }
    assert forall|i: int| 0 <= i < digits.len() implies is_digit(#[trigger] digits[i]) by {
        assert(digits[i] == chars[start + i]);
    }
    read_decimal(chars.as_slice(), start, chars.len())
}

/// What looking up a required name yields.
pub open spec fn required_in(matches: Map<Seq<char>, Seq<char>>, name: Seq<char>) -> Result<
    Seq<char>,
    ConversionFailure,
> {
    if matches.contains_key(name) {
        Ok(matches[name])
    } else {
        Err(ConversionFailure::MissingField { field_name: name })
    }
}

/// What reading the number of the field `name` from `text` yields.
pub open spec fn number_field(name: Seq<char>, text: Seq<char>) -> Result<
    usize,
    ConversionFailure,
> {
    match number_of(text) {
        Some(number) => Ok(number),
        None => Err(ConversionFailure::FailedParse { field_name: name, value: text }),
    }
}

/// What reading a required number yields.
pub open spec fn required_number_in(matches: Map<Seq<char>, Seq<char>>, name: Seq<char>)
    -> Result<usize, ConversionFailure> {
    match required_in(matches, name) {
        Ok(text) => number_field(name, text),
        Err(failure) => Err(failure),
    }
}

/// What reading a number that may be absent yields.
pub open spec fn optional_number_in(matches: Map<Seq<char>, Seq<char>>, name: Seq<char>)
    -> Result<Option<usize>, ConversionFailure> {
    if matches.contains_key(name) {
        match number_field(name, matches[name]) {
            Ok(number) => Ok(Some(number)),
            Err(failure) => Err(failure),
        }
    } else {
        Ok(None)
    }
}

/// Whether `found` is the outcome `expected`, with the text of a success
/// mapped by `view`.
pub open spec fn is_outcome<T, U>(
    found: Result<T, FromMatchesError>,
    expected: Result<U, ConversionFailure>,
    view: spec_fn(T) -> U,
) -> bool {
    match found {
        Ok(value) => expected == Ok::<U, ConversionFailure>(view(value)),
        Err(error) => expected == Err::<U, ConversionFailure>(error@),
    }
}

/// The text that a required name is bound to: an error that names the field
/// where the mapping does not bind it.
pub fn required<'a>(matches: &'a Captures, name: &str) -> (found: Result<
    &'a String,
    FromMatchesError,
>)
    ensures
        is_outcome(found, required_in(matches@, name@), |text: &String| text@),
{
    match matches.get(name) {
        Some(text) => Ok(text),
        None => Err(FromMatchesError::MissingField { field_name: name.to_owned() }),
    }
}

/// Reads the number of the field `name` from `text`: an error that holds the
/// name and the text where the text is no number.
pub fn parse_field(name: &str, text: &str) -> (found: Result<usize, FromMatchesError>)
    ensures
        is_outcome(found, number_field(name@, text@), |number: usize| number),
{
    match parse_number(text) {
        Some(number) => Ok(number),
        None => Err(
            FromMatchesError::FailedParse { field_name: name.to_owned(), value: text.to_owned() },
        ),
    }
}

/// The number that a required name is bound to.
pub fn required_number(matches: &Captures, name: &str) -> (found: Result<usize, FromMatchesError>)
    ensures
        is_outcome(found, required_number_in(matches@, name@), |number: usize| number),
{
    match required(matches, name) {
        Ok(text) => parse_field(name, text.as_str()),
        Err(error) => Err(error),
    }
}

/// The number that a name is bound to, where it is bound at all. Text that
/// is no number is an error, an absent name is not.
pub fn optional_number(matches: &Captures, name: &str) -> (found: Result<
    Option<usize>,
    FromMatchesError,
>)
    ensures
        is_outcome(found, optional_number_in(matches@, name@), |number: Option<usize>| number),
{
    match matches.get(name) {
        Some(text) => match parse_field(name, text.as_str()) {
            Ok(number) => Ok(Some(number)),
            Err(error) => Err(error),
        },
        None => Ok(None),
    }
}

} // verus!

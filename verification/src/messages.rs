//! What is said of an error.

use vstd::prelude::*;

use crate::cause::cause_text;
use crate::codec::{EncodeError, EncodeErrorV, Unsupported};
use crate::decode::ReadError;
use crate::json::{Expected, JsonError, JsonErrorV};
use crate::session::{RequestError, RequestErrorV};
use crate::text::{decimal, decimal_of};

verus! {

/// What a kind of type is called.
pub open spec fn unsupported_text(kind: Unsupported) -> Seq<char> {
    match kind {
        Unsupported::Maps => "maps"@,
        Unsupported::Resources => "resources"@,
        Unsupported::Futures => "futures"@,
        Unsupported::Streams => "streams"@,
        Unsupported::ErrorContexts => "error contexts"@,
    }
}

impl Unsupported {
    /// What the kind of type is called.
    pub fn text(self) -> (r: &'static str)
        ensures
            r@ == unsupported_text(self),
    {
        match self {
            Unsupported::Maps => "maps",
            Unsupported::Resources => "resources",
            Unsupported::Futures => "futures",
            Unsupported::Streams => "streams",
            Unsupported::ErrorContexts => "error contexts",
        }
    }
}

/// The sentence that says why a value could not be encoded.
pub open spec fn encode_error_text(e: EncodeErrorV) -> Seq<char> {
    match e {
        EncodeErrorV::StringTooLong => "failed to encode string"@,
        EncodeErrorV::ListTooLong => "list length does not fit in u32"@,
        EncodeErrorV::ListElement(_) => "failed to encode list element"@,
        EncodeErrorV::TupleElement(_) => "failed to encode tuple element"@,
        EncodeErrorV::UnknownVariant => "unknown variant discriminant"@,
        EncodeErrorV::TooManyCases => "case count does not fit in u32"@,
        EncodeErrorV::VariantTypeMissing => "type missing for variant"@,
        EncodeErrorV::VariantValue(_) => "failed to encode variant value"@,
        EncodeErrorV::UnknownEnum => "unknown enum discriminant"@,
        EncodeErrorV::TooManyNames => "name count does not fit in u32"@,
        EncodeErrorV::OptionValue(_) => "failed to encode `option::some` value"@,
        EncodeErrorV::OkUnknownType => "`result::ok` value of unknown type"@,
        EncodeErrorV::OkMissing => "`result::ok` value missing"@,
        EncodeErrorV::OkValue(_) => "failed to encode `result::ok` value"@,
        EncodeErrorV::ErrUnknownType => "`result::err` value of unknown type"@,
        EncodeErrorV::ErrMissing => "`result::err` value missing"@,
        EncodeErrorV::ErrValue(_) => "failed to encode `result::err` value"@,
        EncodeErrorV::Mismatch => "value type mismatch"@,
        EncodeErrorV::Field(name, _) => "failed to encode `"@ + name + "` field"@,
        EncodeErrorV::Unsupported(kind) => "encoding "@ + unsupported_text(kind)
            + " not supported by Starstream"@,
    }
}

impl EncodeError {
    /// The sentence that says why the value could not be encoded.
    pub fn text(&self) -> (r: String)
        ensures
            r@ == encode_error_text(self@),
    {
        match self {
            EncodeError::StringTooLong => "failed to encode string".to_owned(),
            EncodeError::ListTooLong => "list length does not fit in u32".to_owned(),
            EncodeError::ListElement(_) => "failed to encode list element".to_owned(),
            EncodeError::TupleElement(_) => "failed to encode tuple element".to_owned(),
            EncodeError::UnknownVariant => "unknown variant discriminant".to_owned(),
            EncodeError::TooManyCases => "case count does not fit in u32".to_owned(),
            EncodeError::VariantTypeMissing => "type missing for variant".to_owned(),
            EncodeError::VariantValue(_) => "failed to encode variant value".to_owned(),
            EncodeError::UnknownEnum => "unknown enum discriminant".to_owned(),
            EncodeError::TooManyNames => "name count does not fit in u32".to_owned(),
            EncodeError::OptionValue(_) => "failed to encode `option::some` value".to_owned(),
            EncodeError::OkUnknownType => "`result::ok` value of unknown type".to_owned(),
            EncodeError::OkMissing => "`result::ok` value missing".to_owned(),
            EncodeError::OkValue(_) => "failed to encode `result::ok` value".to_owned(),
            EncodeError::ErrUnknownType => "`result::err` value of unknown type".to_owned(),
            EncodeError::ErrMissing => "`result::err` value missing".to_owned(),
            EncodeError::ErrValue(_) => "failed to encode `result::err` value".to_owned(),
            EncodeError::Mismatch => "value type mismatch".to_owned(),
            EncodeError::Field(name, _) => {
                let mut r = "failed to encode `".to_owned();
                r.append(name.as_str());
                r.append("` field");
                r
            },
            EncodeError::Unsupported(kind) => {
                let mut r = "encoding ".to_owned();
                r.append(kind.text());
                r.append(" not supported by Starstream");
                r
            },
        }
    }
}

/// A text with something before it and behind it.
fn around(before: &str, text: &str, behind: &str) -> (r: String)
    ensures
        r@ == before@ + text@ + behind@,
{
    let mut r = before.to_owned();
    r.append(text);
    r.append(behind);
    r
}

/// The sentence that says why no value could be read.
pub open spec fn read_error_text(e: ReadError) -> Seq<char> {
    match e {
        ReadError::UnexpectedEof => "unexpected end of file"@,
        ReadError::InvalidBool(b) => "invalid bool value byte `"@ + decimal(b as nat) + "`"@,
        ReadError::InvalidOptionStatus(b) => "invalid option status byte value `"@ + decimal(
            b as nat,
        ) + "`"@,
        ReadError::InvalidResultStatus(b) => "invalid result status byte value `"@ + decimal(
            b as nat,
        ) + "`"@,
        ReadError::Overflow(bits) => "varint overflows "@ + decimal(bits as nat)
            + "-bit integer"@,
        ReadError::InvalidChar => "value is not valid UTF8"@,
        ReadError::InvalidUtf8 => "invalid UTF-8"@,
        ReadError::UnknownVariant(d) => "unknown variant discriminant `"@ + decimal(d as nat)
            + "`"@,
        ReadError::UnknownEnum(d) => "unknown enum discriminant `"@ + decimal(d as nat) + "`"@,
        ReadError::Unsupported(kind) => "decoding "@ + unsupported_text(kind)
            + " not supported by Starstream"@,
    }
}

impl ReadError {
    /// The sentence that says why no value could be read.
    pub fn text(self) -> (r: String)
        ensures
            r@ == read_error_text(self),
    {
        match self {
            ReadError::UnexpectedEof => "unexpected end of file".to_owned(),
            ReadError::InvalidBool(b) => around(
                "invalid bool value byte `",
                decimal_of(b as usize).as_str(),
                "`",
            ),
            ReadError::InvalidOptionStatus(b) => around(
                "invalid option status byte value `",
                decimal_of(b as usize).as_str(),
                "`",
            ),
            ReadError::InvalidResultStatus(b) => around(
                "invalid result status byte value `",
                decimal_of(b as usize).as_str(),
                "`",
            ),
            ReadError::Overflow(bits) => around(
                "varint overflows ",
                decimal_of(bits as usize).as_str(),
                "-bit integer",
            ),
            ReadError::InvalidChar => "value is not valid UTF8".to_owned(),
            ReadError::InvalidUtf8 => "invalid UTF-8".to_owned(),
            ReadError::UnknownVariant(d) => around(
                "unknown variant discriminant `",
                decimal_of(d as usize).as_str(),
                "`",
            ),
            ReadError::UnknownEnum(d) => around(
                "unknown enum discriminant `",
                decimal_of(d as usize).as_str(),
                "`",
            ),
            ReadError::Unsupported(kind) => around(
                "decoding ",
                kind.text(),
                " not supported by Starstream",
            ),
        }
    }
}

/// What was expected.
pub open spec fn expected_text(e: Expected) -> Seq<char> {
    match e {
        Expected::Boolean => "a boolean"@,
        Expected::Integer => "an integer"@,
        Expected::UnsignedInteger => "an unsigned integer"@,
        Expected::Number => "a number"@,
        Expected::StringForChar => "a string for char"@,
        Expected::String => "a string"@,
        Expected::ArrayForList => "an array for list"@,
        Expected::ObjectForRecord => "an object for record"@,
        Expected::ArrayForTuple => "an array for tuple"@,
    }
}

impl Expected {
    /// What was expected.
    pub fn text(self) -> (r: &'static str)
        ensures
            r@ == expected_text(self),
    {
        match self {
            Expected::Boolean => "a boolean",
            Expected::Integer => "an integer",
            Expected::UnsignedInteger => "an unsigned integer",
            Expected::Number => "a number",
            Expected::StringForChar => "a string for char",
            Expected::String => "a string",
            Expected::ArrayForList => "an array for list",
            Expected::ObjectForRecord => "an object for record",
            Expected::ArrayForTuple => "an array for tuple",
        }
    }
}

/// The sentence that says why a JSON value, written `shown`, is not a value of a type.
pub open spec fn json_error_text(e: JsonErrorV, shown: Seq<char>) -> Seq<char> {
    match e {
        JsonErrorV::Expected(what, _) => "expected "@ + expected_text(what) + ", got `"@ + shown
            + "`"@,
        JsonErrorV::NotOneCharacter => "expected exactly one character"@,
        JsonErrorV::MissingField(name) => "missing record field `"@ + name + "`"@,
        JsonErrorV::TupleSize { expected, got } => "expected a "@ + decimal(expected)
            + "-tuple, got "@ + decimal(got) + " elements"@,
        JsonErrorV::ArgumentCount { expected, got } => "expected "@ + decimal(expected)
            + " argument(s), got "@ + decimal(got),
        JsonErrorV::UnsupportedType => "unsupported parameter type"@,
    }
}

impl<'a> JsonError<'a> {
    /// The sentence that says why the JSON value, written `shown`, is not a value of the
    /// type.
    pub fn text(&self, shown: &str) -> (r: String)
        ensures
            r@ == json_error_text(self@, shown@),
    {
        match self {
            JsonError::Expected(what, _) => {
                let mut r = "expected ".to_owned();
                r.append(what.text());
                r.append(", got `");
                r.append(shown);
                r.append("`");
                r
            },
            JsonError::NotOneCharacter => "expected exactly one character".to_owned(),
            JsonError::MissingField(name) => {
                let mut r = "missing record field `".to_owned();
                r.append(name.as_str());
                r.append("`");
                r
            },
            JsonError::TupleSize { expected, got } => {
                let mut r = "expected a ".to_owned();
                r.append(decimal_of(*expected).as_str());
                r.append("-tuple, got ");
                r.append(decimal_of(*got).as_str());
                r.append(" elements");
                r
            },
            JsonError::ArgumentCount { expected, got } => {
                let mut r = "expected ".to_owned();
                r.append(decimal_of(*expected).as_str());
                r.append(" argument(s), got ");
                r.append(decimal_of(*got).as_str());
                r
            },
            JsonError::UnsupportedType => "unsupported parameter type".to_owned(),
        }
    }
}

/// The sentence that says why a request was refused. A JSON value at fault is written
/// `shown`.
pub open spec fn request_error_text(e: RequestErrorV, shown: Seq<char>) -> Seq<char> {
    match e {
        RequestErrorV::Refused(c) => cause_text(c),
        RequestErrorV::NoHandle => "a method call needs a `$handle` as its first argument"@,
        RequestErrorV::UnknownHandle => "unknown handle"@,
        RequestErrorV::NoStorage => "this resource has no storage"@,
        RequestErrorV::Json(e) => json_error_text(e, shown),
    }
}

impl<'a> RequestError<'a> {
    /// The sentence that says why the request was refused.
    pub fn text(&self, shown: &str) -> (r: String)
        ensures
            r@ == request_error_text(self@, shown@),
    {
        match self {
            RequestError::Refused(c) => c.text().to_owned(),
            RequestError::NoHandle =>
                "a method call needs a `$handle` as its first argument".to_owned(),
            RequestError::UnknownHandle => "unknown handle".to_owned(),
            RequestError::NoStorage => "this resource has no storage".to_owned(),
            RequestError::Json(e) => e.text(shown),
        }
    }
}

/// What has no encoding is told by its name.
pub proof fn kinds_have_their_names(kind: Unsupported, r: &'static str)
    requires
        call_ensures(Unsupported::text, (kind,), r),
    ensures
        kind == Unsupported::Maps ==> r@ == "maps"@,
        kind == Unsupported::Resources ==> r@ == "resources"@,
        kind == Unsupported::Futures ==> r@ == "futures"@,
        kind == Unsupported::Streams ==> r@ == "streams"@,
        kind == Unsupported::ErrorContexts ==> r@ == "error contexts"@,
{
}

/// Why a value could not be encoded is told by a sentence of its own; a field and a kind are
/// named.
pub proof fn encode_errors_have_their_sentences(e: &EncodeError, r: String)
    requires
        call_ensures(EncodeError::text, (e,), r),
    ensures
        e is StringTooLong ==> r@ == "failed to encode string"@,
        e is ListTooLong ==> r@ == "list length does not fit in u32"@,
        e is ListElement ==> r@ == "failed to encode list element"@,
        e is TupleElement ==> r@ == "failed to encode tuple element"@,
        e is UnknownVariant ==> r@ == "unknown variant discriminant"@,
        e is TooManyCases ==> r@ == "case count does not fit in u32"@,
        e is VariantTypeMissing ==> r@ == "type missing for variant"@,
        e is VariantValue ==> r@ == "failed to encode variant value"@,
        e is UnknownEnum ==> r@ == "unknown enum discriminant"@,
        e is TooManyNames ==> r@ == "name count does not fit in u32"@,
        e is OptionValue ==> r@ == "failed to encode `option::some` value"@,
        e is OkUnknownType ==> r@ == "`result::ok` value of unknown type"@,
        e is OkMissing ==> r@ == "`result::ok` value missing"@,
        e is OkValue ==> r@ == "failed to encode `result::ok` value"@,
        e is ErrUnknownType ==> r@ == "`result::err` value of unknown type"@,
        e is ErrMissing ==> r@ == "`result::err` value missing"@,
        e is ErrValue ==> r@ == "failed to encode `result::err` value"@,
        e is Mismatch ==> r@ == "value type mismatch"@,
        e matches EncodeError::Field(name, _) ==> r@ == "failed to encode `"@ + name@ + "` field"@,
        e matches EncodeError::Unsupported(kind) ==> r@ == "encoding "@ + unsupported_text(*kind)
            + " not supported by Starstream"@,
{
}

/// Why no value could be read is told by a sentence of its own, with the byte, the number or
/// the kind that was found.
pub proof fn read_errors_have_their_sentences(e: ReadError, r: String)
    requires
        call_ensures(ReadError::text, (e,), r),
    ensures
        e is UnexpectedEof ==> r@ == "unexpected end of file"@,
        e is InvalidChar ==> r@ == "value is not valid UTF8"@,
        e is InvalidUtf8 ==> r@ == "invalid UTF-8"@,
        e matches ReadError::InvalidBool(b) ==> r@ == "invalid bool value byte `"@ + decimal(
            b as nat,
        ) + "`"@,
        e matches ReadError::InvalidOptionStatus(b) ==> r@ == "invalid option status byte value `"@
            + decimal(b as nat) + "`"@,
        e matches ReadError::InvalidResultStatus(b) ==> r@ == "invalid result status byte value `"@
            + decimal(b as nat) + "`"@,
        e matches ReadError::Overflow(bits) ==> r@ == "varint overflows "@ + decimal(bits as nat)
            + "-bit integer"@,
        e matches ReadError::UnknownVariant(d) ==> r@ == "unknown variant discriminant `"@
            + decimal(d as nat) + "`"@,
        e matches ReadError::UnknownEnum(d) ==> r@ == "unknown enum discriminant `"@ + decimal(
            d as nat,
        ) + "`"@,
        e matches ReadError::Unsupported(kind) ==> r@ == "decoding "@ + unsupported_text(kind)
            + " not supported by Starstream"@,
{
}

/// What was expected is told by its name.
pub proof fn expectations_have_their_names(e: Expected, r: &'static str)
    requires
        call_ensures(Expected::text, (e,), r),
    ensures
        e == Expected::Boolean ==> r@ == "a boolean"@,
        e == Expected::Integer ==> r@ == "an integer"@,
        e == Expected::UnsignedInteger ==> r@ == "an unsigned integer"@,
        e == Expected::Number ==> r@ == "a number"@,
        e == Expected::StringForChar ==> r@ == "a string for char"@,
        e == Expected::String ==> r@ == "a string"@,
        e == Expected::ArrayForList ==> r@ == "an array for list"@,
        e == Expected::ObjectForRecord ==> r@ == "an object for record"@,
        e == Expected::ArrayForTuple ==> r@ == "an array for tuple"@,
{
}

/// Why JSON was refused is told with what was expected and what was found instead.
pub proof fn json_errors_have_their_sentences(e: &JsonError, shown: &str, r: String)
    requires
        call_ensures(JsonError::text, (e, shown), r),
    ensures
        e matches JsonError::Expected(what, _) ==> r@ == "expected "@ + expected_text(*what)
            + ", got `"@ + shown@ + "`"@,
        e is NotOneCharacter ==> r@ == "expected exactly one character"@,
        e matches JsonError::MissingField(name) ==> r@ == "missing record field `"@ + name@ + "`"@,
        e matches JsonError::TupleSize { expected, got } ==> r@ == "expected a "@ + decimal(
            *expected as nat,
        ) + "-tuple, got "@ + decimal(*got as nat) + " elements"@,
        e matches JsonError::ArgumentCount { expected, got } ==> r@ == "expected "@ + decimal(
            *expected as nat,
        ) + " argument(s), got "@ + decimal(*got as nat),
        e is UnsupportedType ==> r@ == "unsupported parameter type"@,
{
}

/// Why a request was refused is told by the sentence of its cause.
pub proof fn request_errors_have_their_sentences(
    e: &RequestError,
    shown: &str,
    r: String,
    sentence: &'static str,
    inner: String,
)
    requires
        call_ensures(RequestError::text, (e, shown), r),
        e matches RequestError::Refused(c) ==> call_ensures(
            crate::cause::Cause::text,
            (*c,),
            sentence,
        ),
        e matches RequestError::Json(j) ==> call_ensures(JsonError::text, (j, shown), inner),
    ensures
        e is Refused ==> r@ == sentence@,
        e is NoHandle ==> r@ == "a method call needs a `$handle` as its first argument"@,
        e is UnknownHandle ==> r@ == "unknown handle"@,
        e is NoStorage ==> r@ == "this resource has no storage"@,
        e is Json ==> r@ == inner@,
{
}

} // verus!

//! Errors for the message-validation layer of the RPC surface: a request
//! field that is missing, out of range, or an unknown variant.

use vstd::prelude::*;

verus! {

/// A malformed field in a decoded request message.
#[derive(Clone, Debug)]
pub enum Error {
    InvalidEnumVariant { field_name: String, message_name: String, variant_name: String },
    InvalidFieldValue { field_name: String, message_name: String, value: String },
    InvalidRepeatedValue { field_name: String, message_name: String, value: String },
    MissingField { field_name: String, message_name: String },
    UnknownEnumTag { field_name: String, message_name: String, tag: i32 },
}

impl Error {
    /// An unknown variant in an enum field of the named message.
    pub fn invalid_enum_variant(message_name: &str, field_name: &str, variant_name: &str) -> (r:
        Error)
        ensures
            r matches Error::InvalidEnumVariant { field_name: f, message_name: m, variant_name: v }
                && f@ == field_name@ && m@ == message_name@ && v@ == variant_name@,
    {
        Error::InvalidEnumVariant {
            field_name: field_name.to_owned(),
            message_name: message_name.to_owned(),
            variant_name: variant_name.to_owned(),
        }
    }

    /// An out-of-range value in a field of the named message.
    pub fn invalid_field_value(message_name: &str, field_name: &str, value: &str) -> (r: Error)
        ensures
            r matches Error::InvalidFieldValue { field_name: f, message_name: m, value: v } && f@
                == field_name@ && m@ == message_name@ && v@ == value@,
    {
        Error::InvalidFieldValue {
            field_name: field_name.to_owned(),
            message_name: message_name.to_owned(),
            value: value.to_owned(),
        }
    }

    /// An out-of-range element in a repeated field of the named message.
    pub fn invalid_repeated_value(message_name: &str, field_name: &str, value: &str) -> (r: Error)
        ensures
            r matches Error::InvalidRepeatedValue { field_name: f, message_name: m, value: v }
                && f@ == field_name@ && m@ == message_name@ && v@ == value@,
    {
        Error::InvalidRepeatedValue {
            field_name: field_name.to_owned(),
            message_name: message_name.to_owned(),
            value: value.to_owned(),
        }
    }

    /// A field the named message must carry but does not.
    pub fn missing_field(message_name: &str, field_name: &str) -> (r: Error)
        ensures
            r matches Error::MissingField { field_name: f, message_name: m } && f@ == field_name@
                && m@ == message_name@,
    {
        Error::MissingField {
            field_name: field_name.to_owned(),
            message_name: message_name.to_owned(),
        }
    }
}

} // verus!

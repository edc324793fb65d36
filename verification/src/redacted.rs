//! Wrappers that keep what they wrap out of logs and error messages.
//!
//! Whether values are redacted is decided where the text is made: each
//! function that renders a value is told so.

use vstd::prelude::*;
use vstd::string::StringExecFns;

verus! {

/// What stands in place of a redacted value.
pub open spec fn redacted_text() -> Seq<char> {
    "<redacted>"@
}

/// What `{:?}` renders a string as: the string in quotes, with escapes.
pub uninterp spec fn debug_text(s: Seq<char>) -> Seq<char>;

/// `format!` of std with `{:?}` on a string: its rendering for debugging.
#[verifier::external_body]
fn format_debug_str(s: &str) -> (r: String)
    ensures
        r@ == debug_text(s@),
{
    format!("{:?}", s)
}

/// `format!` of std with `{:?}` on any value: its rendering for debugging,
/// of which nothing is stated. The text is what the `Debug` impl of the
/// value's type writes; std panics where that impl reports an error.
#[verifier::external_body]
fn format_debug<T: core::fmt::Debug + ?Sized>(value: &T) -> (r: String) {
    format!("{:?}", value)
}

/// Wraps a reference to a value that must not show where values are redacted.
pub struct Sensitive<'a, T: ?Sized>(pub &'a T);

impl<'a, T: ?Sized> Sensitive<'a, T> {
    /// The value as text for display: the placeholder where values are
    /// redacted, else what the value displays as.
    pub fn display(&self, redact: bool) -> (r: String) where T: core::fmt::Display
        ensures
            redact ==> r@ == redacted_text(),
            !redact ==> vstd::string::to_string_from_display_ensures::<T>(self.0, r),
    {
        if redact {
            String::from_str("<redacted>")
        } else {
            self.0.to_string()
        }
    }

    /// The value as text for debugging: the placeholder where values are
    /// redacted, else what the value renders as for debugging.
    pub fn debug(&self, redact: bool) -> (r: String) where T: core::fmt::Debug
        ensures
            redact ==> r@ == redacted_text(),
    {
        if redact {
            String::from_str("<redacted>")
        } else {
            format_debug(self.0)
        }
    }
}

/// A string that must not show where values are redacted.
#[derive(Clone, PartialEq, Eq)]
pub struct RedactedString(pub String);

impl RedactedString {
    /// What the string displays as.
    pub open spec fn spec_display(self, redact: bool) -> Seq<char> {
        if redact {
            redacted_text()
        } else {
            self.0@
        }
    }

    /// What the string renders as for debugging.
    pub open spec fn spec_debug(self, redact: bool) -> Seq<char> {
        if redact {
            redacted_text()
        } else {
            debug_text(self.0@)
        }
    }

    /// The string that is wrapped.
    pub fn deref(&self) -> (r: &String)
        ensures
            r@ == self.0@,
    {
        &self.0
    }

    /// Wraps a copy of the text.
    pub fn from_str(input: &str) -> (r: RedactedString)
        ensures
            r.0@ == input@,
    {
        RedactedString(String::from_str(input))
    }

    /// The string as text for display: the placeholder where values are
    /// redacted, else the string itself.
    pub fn display(&self, redact: bool) -> (r: String)
        ensures
            r@ == self.spec_display(redact),
    {
        if redact {
            String::from_str("<redacted>")
        } else {
            self.0.clone()
        }
    }

    /// The string as text for debugging: the placeholder where values are
    /// redacted, else the string as `{:?}` renders it.
    pub fn debug(&self, redact: bool) -> (r: String)
        ensures
            r@ == self.spec_debug(redact),
    {
        if redact {
            String::from_str("<redacted>")
        } else {
            format_debug_str(self.0.as_str())
        }
    }

    /// Gives up the wrapper and keeps the string.
    pub fn into_string(self) -> (r: String)
        ensures
            r@ == self.0@,
    {
        self.0
    }
}

impl From<String> for RedactedString {
    fn from(s: String) -> (r: RedactedString) {
        RedactedString(s)
    }
}

impl vstd::std_specs::convert::FromSpecImpl<String> for RedactedString {
    open spec fn obeys_from_spec() -> bool {
        true
    }

    open spec fn from_spec(s: String) -> RedactedString {
        RedactedString(s)
    }
}

impl From<RedactedString> for String {
    fn from(s: RedactedString) -> (r: String) {
        s.0
    }
}

impl vstd::std_specs::convert::FromSpecImpl<RedactedString> for String {
    open spec fn obeys_from_spec() -> bool {
        true
    }

    open spec fn from_spec(s: RedactedString) -> String {
        s.0
    }
}

} // verus!

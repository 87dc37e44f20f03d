use vstd::prelude::*;
use vstd::string::*;

verus! {

/// Appends `"<prefix>: <value>\n"` to the string when the option holds a
/// value, rendering the value through its `Display` implementation; an
/// absent value leaves the string unchanged.
pub fn append_option<T: core::fmt::Display>(s: &mut String, op: &Option<T>, prefix: &str)
    ensures
        op is None ==> final(s)@ == old(s)@,
        op is Some ==> exists|rendered: Seq<char>|
            final(s)@ == old(s)@ + prefix@ + ": "@ + rendered + "\n"@,
{
    match op {
        Some(val) => {
            let rendered = val.to_string();
            s.append(prefix);
            s.append(": ");
            s.append(rendered.as_str());
            s.append("\n");
            proof {
                assert(s@ =~= old(s)@ + prefix@ + ": "@ + rendered@ + "\n"@);
            }
        },
        None => {},
    }
}

/// The library's error type. Validation failures are not errors (they
/// deactivate the offending bet); an `Error` is reserved for conditions that
/// end a whole game or conversion, such as a value outside its range or an
/// arithmetic result that no longer fits the balance type.
#[derive(Debug, Clone, PartialEq, Eq)]
pub enum Error {
    GenericError { message: String },
    FromStrError { message: String, string: String },
}

impl Error {
    /// The human-readable message carried by this error.
    pub fn message(&self) -> &String {
        match self {
            Error::GenericError { message } => message,
            Error::FromStrError { message, string: _ } => message,
        }
    }
}

} // verus!

//! Why an edit of a game file was refused.
use crate::paradox::ParseError;
use vstd::prelude::*;

verus! {

/// A refused read or edit: the script did not parse, the request does not
/// fit the file, or a picture could not be read.
#[derive(Debug, Clone)]
pub enum EditError {
    Message(String),
    Script { path: String, source: ParseError },
    /// A picture that could not be decoded or encoded.
    Image { path: String, message: String },
}

/// The decimal digits of `n`.
pub open spec fn decimal_spec(n: nat) -> Seq<char>
    decreases n,
{
    if n < 10 {
        seq![((48 + n) as u8) as char]
    } else {
        decimal_spec(n / 10).push(((48 + n % 10) as u8) as char)
    }
}

/// `n` written in decimal.
pub fn decimal(n: usize) -> (r: String)
    ensures
        r@ == decimal_spec(n as nat),
    decreases n,
{
    if n < 10 {
        let mut r = String::new();
        r.push(((48u8 + n as u8) as char));
        r
    } else {
        let mut r = decimal(n / 10);
        r.push(((48u8 + (n % 10) as u8) as char));
        r
    }
}

/// The message of a refusal that is not about parsing.
pub open spec fn message_text(e: EditError) -> Seq<char> {
    match e {
        EditError::Message(m) => m@,
        EditError::Script { path, source } => path@ + " could not be parsed: "@ + source.message@
            + " (at byte "@ + decimal_spec(source.offset as nat) + ")"@,
        EditError::Image { path, message } => path@ + " is not a supported image: "@ + message@,
    }
}

impl EditError {
    /// The message shown to the user.
    pub fn text(&self) -> (r: String)
        ensures
            r@ == message_text(*self),
    {
        match self {
            EditError::Message(m) => m.clone(),
            EditError::Script { path, source } => {
                let mut r = path.clone();
                r.push_str(" could not be parsed: ");
                r.push_str(source.message.as_str());
                r.push_str(" (at byte ");
                r.push_str(decimal(source.offset).as_str());
                r.push_str(")");
                r
            },
            EditError::Image { path, message } => {
                let mut r = path.clone();
                r.push_str(" is not a supported image: ");
                r.push_str(message.as_str());
                r
            },
        }
    }
}

} // verus!

use vstd::prelude::*;
use vstd::string::*;
use crate::parse::str_eq;

verus! {

/// One trimmed line of interactive input, classified: a control command, or
/// a plain answer to be compared against the expected back value.
#[derive(Debug)]
pub enum Commands {
    /// Any input that is not a control command, the empty string included.
    Answer(String),
    /// Show the help text.
    Help,
    /// Show all items with their current weights.
    Weights,
    /// End the session.
    Quit,
}

impl Commands {
    /// Classifies a trimmed input line. The three control commands are
    /// matched exactly; any other input starting with the command prefix
    /// `'\'` is an unrecognized command, a recoverable error; everything else
    /// is an answer, handed back verbatim.
    pub fn from_str(s: &str) -> (r: Result<Commands, String>)
        ensures
            (if s@ == "\\h"@ {
                r matches Ok(c) && c is Help
            } else if s@ == "\\w"@ {
                r matches Ok(c) && c is Weights
            } else if s@ == "\\q"@ {
                r matches Ok(c) && c is Quit
            } else if s@.len() > 0 && s@[0] == '\\' {
                r matches Err(e) && e@ == "Unknown command"@
            } else {
                r matches Ok(c) && c matches Commands::Answer(a) && a@ == s@
            }),
    {
        if str_eq(s, "\\h") {
            Ok(Commands::Help)
        } else if str_eq(s, "\\w") {
            Ok(Commands::Weights)
        } else if str_eq(s, "\\q") {
            Ok(Commands::Quit)
        } else {
            let n = s.unicode_len();
            if n > 0 && s.get_char(0) == '\\' {
                Err(String::from_str("Unknown command"))
            } else {
                Ok(Commands::Answer(s.to_owned()))
            }
        }
    }
}

} // verus!

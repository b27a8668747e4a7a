//! Text in terminal colours.

use vstd::prelude::*;
use vstd::string::*;

verus! {

/// `text` between the escape sequence that selects colour `code` of the
/// 256-colour palette and the one that resets the colour.
pub open spec fn colored(code: Seq<char>, text: Seq<char>) -> Seq<char> {
    "\x1b[38;5;"@ + code + "m"@ + text + "\x1b[0m"@
}

/// Text that can be put in one of five colours.
pub trait Colorize {
    /// The text that is coloured.
    spec fn plain(&self) -> Seq<char>;

    fn light_blue(&self) -> (r: String)
        ensures
            r@ == colored("117"@, self.plain()),
    ;

    fn green(&self) -> (r: String)
        ensures
            r@ == colored("120"@, self.plain()),
    ;

    fn bright_red(&self) -> (r: String)
        ensures
            r@ == colored("196"@, self.plain()),
    ;

    fn bright_yellow(&self) -> (r: String)
        ensures
            r@ == colored("226"@, self.plain()),
    ;

    fn bright_purple(&self) -> (r: String)
        ensures
            r@ == colored("129"@, self.plain()),
    ;
}

/// `text` in colour `code`.
fn paint(code: &str, text: &str) -> (r: String)
    ensures
        r@ == colored(code@, text@),
{
    let mut r = String::from_str("\x1b[38;5;");
    r.append(code);
    r.append("m");
    r.append(text);
    r.append("\x1b[0m");
    r
}

impl Colorize for str {
    open spec fn plain(&self) -> Seq<char> {
        self@
    }

    fn light_blue(&self) -> (r: String) {
        paint("117", self)
    }

    fn green(&self) -> (r: String) {
        paint("120", self)
    }

    fn bright_red(&self) -> (r: String) {
        paint("196", self)
    }

    fn bright_yellow(&self) -> (r: String) {
        paint("226", self)
    }

    fn bright_purple(&self) -> (r: String) {
        paint("129", self)
    }
}

} // verus!

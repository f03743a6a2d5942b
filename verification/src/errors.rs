//! Lexical diagnostics: a non-fatal record of one error, with the 1-based
//! line it was detected on, a location label (reserved for future context,
//! currently always empty), and a message; and its printed form.

use vstd::prelude::*;
use vstd::string::*;

verus! {

/// The character for one decimal digit.
pub open spec fn digit_char(d: nat) -> char {
    if d == 0 {
        '0'
    } else if d == 1 {
        '1'
    } else if d == 2 {
        '2'
    } else if d == 3 {
        '3'
    } else if d == 4 {
        '4'
    } else if d == 5 {
        '5'
    } else if d == 6 {
        '6'
    } else if d == 7 {
        '7'
    } else if d == 8 {
        '8'
    } else {
        '9'
    }
}

/// The decimal representation of `n`, most significant digit first, with
/// no leading zeroes (a single `'0'` for zero itself).
pub open spec fn decimal_rep(n: nat) -> Seq<char>
    decreases n,
{
    if n < 10 {
        seq![digit_char(n)]
    } else {
        decimal_rep(n / 10).push(digit_char(n % 10))
    }
}

/// The single-character text of one decimal digit.
fn digit_text(d: usize) -> (r: &'static str)
    requires
        d < 10,
    ensures
        r@ == seq![digit_char(d as nat)],
{
    proof {
        reveal_strlit("0");
        reveal_strlit("1");
        reveal_strlit("2");
        reveal_strlit("3");
        reveal_strlit("4");
        reveal_strlit("5");
        reveal_strlit("6");
        reveal_strlit("7");
        reveal_strlit("8");
        reveal_strlit("9");
    }
    let r = if d == 0 {
        "0"
    } else if d == 1 {
        "1"
    } else if d == 2 {
        "2"
    } else if d == 3 {
        "3"
    } else if d == 4 {
        "4"
    } else if d == 5 {
        "5"
    } else if d == 6 {
        "6"
    } else if d == 7 {
        "7"
    } else if d == 8 {
        "8"
    } else {
        "9"
    };
    proof {
        assert(r@ =~= seq![digit_char(d as nat)]);
    }
    r
}

/// The decimal text of `n`.
pub fn decimal_text(n: usize) -> (r: String)
    ensures
        r@ == decimal_rep(n as nat),
    decreases n,
{
    if n < 10 {
        String::from_str(digit_text(n))
    } else {
        let mut s = decimal_text(n / 10);
        s.append(digit_text(n % 10));
        proof {
            assert(s@ =~= decimal_rep((n / 10) as nat).push(digit_char((n % 10) as nat)));
        }
        s
    }
}

/// One non-fatal lexical error.
#[derive(PartialEq, Eq, Clone, Debug)]
pub struct CompileError {
    pub line: usize,
    pub location: String,
    pub message: String,
}

/// Ghost mirror of `CompileError`.
pub ghost struct ErrorModel {
    pub line: nat,
    pub location: Seq<char>,
    pub message: Seq<char>,
}

impl View for CompileError {
    type V = ErrorModel;

    open spec fn view(&self) -> ErrorModel {
        ErrorModel { line: self.line as nat, location: self.location@, message: self.message@ }
    }
}

/// The printed form of a diagnostic: `[line N] Error LOCATION: MESSAGE`.
pub open spec fn rendered_error(e: ErrorModel) -> Seq<char> {
    "[line "@ + decimal_rep(e.line) + "] Error "@ + e.location + ": "@ + e.message
}

impl CompileError {
    pub fn new(line: usize, location: String, message: String) -> (e: Self)
        ensures
            e.line == line,
            e.location == location,
            e.message == message,
    {
        CompileError { line, location, message }
    }

    /// This diagnostic's printed form, exactly as a driver reports it.
    pub fn render(&self) -> (r: String)
        ensures
            r@ == rendered_error(self@),
    {
        let mut s = String::from_str("[line ");
        let number = decimal_text(self.line);
        s.append(number.as_str());
        s.append("] Error ");
        s.append(self.location.as_str());
        s.append(": ");
        s.append(self.message.as_str());
        proof {
            assert(s@ =~= rendered_error(self@));
        }
        s
    }
}

/// The views of a list of diagnostics, in order.
pub open spec fn errors_model(errors: Seq<CompileError>) -> Seq<ErrorModel> {
    errors.map_values(|e: CompileError| e@)
}

} // verus!

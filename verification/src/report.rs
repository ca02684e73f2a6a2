//! The exact text of the status lines the engine reports, and verified
//! builders for them.

use vstd::prelude::*;
use vstd::string::StringExecFns;

verus! {

/// The character for one decimal digit.
pub open spec fn digit_char(d: nat) -> char {
    if d == 0 {
        '0'
    } else if d == 1 {
        '1'
    } else if d == 2 {
        '2'
    } else if d == 3 {
        '3'
    } else if d == 4 {
        '4'
    } else if d == 5 {
        '5'
    } else if d == 6 {
        '6'
    } else if d == 7 {
        '7'
    } else if d == 8 {
        '8'
    } else {
        '9'
    }
}

/// The decimal rendering of a number, most significant digit first.
pub open spec fn dec_of(n: nat) -> Seq<char>
    decreases n,
{
    if n < 10 {
        seq![digit_char(n)]
    } else {
        dec_of(n / 10) + seq![digit_char(n % 10)]
    }
}

/// The line logged for one count operation.
pub open spec fn found_line(files: nat, dirs: nat, pattern: Seq<char>) -> Seq<char> {
    "Found "@ + dec_of(files) + " files and "@ + dec_of(dirs) + " directories for '"@ + pattern
        + "'"@
}

/// The line logged for one rule during execution.
pub open spec fn mapping_line(from: Seq<char>, to: Seq<char>) -> Seq<char> {
    "Mapping '"@ + from + "' -> '"@ + to + "'"@
}

/// Appends one decimal digit to a string.
fn append_digit(s: &mut String, d: usize)
    requires
        d < 10,
    ensures
        final(s)@ == old(s)@ + seq![digit_char(d as nat)],
{
    let digit: &str = if d == 0 {
        "0"
    } else if d == 1 {
        "1"
    } else if d == 2 {
        "2"
    } else if d == 3 {
        "3"
    } else if d == 4 {
        "4"
    } else if d == 5 {
        "5"
    } else if d == 6 {
        "6"
    } else if d == 7 {
        "7"
    } else if d == 8 {
        "8"
    } else {
        "9"
    };
    proof {
        reveal_strlit("0");
        reveal_strlit("1");
        reveal_strlit("2");
        reveal_strlit("3");
        reveal_strlit("4");
        reveal_strlit("5");
        reveal_strlit("6");
        reveal_strlit("7");
        reveal_strlit("8");
        reveal_strlit("9");
        assert(digit@ =~= seq![digit_char(d as nat)]);
    }
    s.append(digit);
}

/// Renders a number in decimal.
pub fn usize_to_string(n: usize) -> (r: String)
    ensures
        r@ == dec_of(n as nat),
    decreases n,
{
    if n < 10 {
        let mut s = String::new();
        append_digit(&mut s, n);
        proof {
            assert(s@ =~= dec_of(n as nat));
        }
        s
    } else {
        proof {
            assert(n / 10 < n) by (nonlinear_arith)
                requires
                    n >= 10,
            ;
        }
        let mut s = usize_to_string(n / 10);
        append_digit(&mut s, n % 10);
        proof {
            assert(s@ =~= dec_of(n as nat));
        }
        s
    }
}

/// Builds the count-report line.
pub fn build_found_line(files: usize, dirs: usize, pattern: &str) -> (r: String)
    ensures
        r@ == found_line(files as nat, dirs as nat, pattern@),
{
    let mut s = String::from_str("Found ");
    let files_text = usize_to_string(files);
    s.append(files_text.as_str());
    s.append(" files and ");
    let dirs_text = usize_to_string(dirs);
    s.append(dirs_text.as_str());
    s.append(" directories for '");
    s.append(pattern);
    s.append("'");
    proof {
        assert(s@ =~= found_line(files as nat, dirs as nat, pattern@));
    }
    s
}

/// Builds the per-rule execution line.
pub fn build_mapping_line(from: &str, to: &str) -> (r: String)
    ensures
        r@ == mapping_line(from@, to@),
{
    let mut s = String::from_str("Mapping '");
    s.append(from);
    s.append("' -> '");
    s.append(to);
    s.append("'");
    proof {
        assert(s@ =~= mapping_line(from@, to@));
    }
    s
}

} // verus!

//! Lengths with CSS units: reading them and writing them.

use vstd::prelude::*;
use crate::frontmatter::chars_equal;
use crate::structs::{ParseUnitError, Unit};
use crate::text::{append_chars, char_is_digit, decimal, decimal_chars, to_chars, to_string, slice_of};
use crate::toplevel::list_parser::{digits_value, parse_usize};
use crate::toplevel::list_pattern::skip_digits;

verus! {

/// The name of the unit of a length.
pub open spec fn unit_suffix(u: Unit) -> Seq<char> {
    match u {
        Unit::Cap(_) => "cap"@,
        Unit::Ch(_) => "ch"@,
        Unit::Em(_) => "em"@,
        Unit::Ex(_) => "ex"@,
        Unit::Ic(_) => "ic"@,
        Unit::Lh(_) => "lh"@,
        Unit::Rcap(_) => "rcap"@,
        Unit::Rch(_) => "rch"@,
        Unit::Rem(_) => "rem"@,
        Unit::Ric(_) => "ric"@,
        Unit::Rlh(_) => "rlh"@,
        Unit::Vh(_) => "vh"@,
        Unit::Vw(_) => "vw"@,
        Unit::Vmax(_) => "vmax"@,
        Unit::Vb(_) => "vb"@,
        Unit::Vi(_) => "vi"@,
        Unit::Cqw(_) => "cqw"@,
        Unit::Cqh(_) => "cqh"@,
        Unit::Cqi(_) => "cqi"@,
        Unit::Cqb(_) => "cqb"@,
        Unit::Cqmin(_) => "cqmin"@,
        Unit::Cqmax(_) => "cqmax"@,
        Unit::Px(_) => "px"@,
        Unit::Cm(_) => "cm"@,
        Unit::Mm(_) => "mm"@,
        Unit::Q(_) => "q"@,
        Unit::In(_) => "in"@,
        Unit::Pc(_) => "pc"@,
        Unit::Pt(_) => "pt"@,
        Unit::Percentage(_) => "%"@,
    }
}

/// The number of a length.
pub open spec fn unit_value(u: Unit) -> isize {
    match u {
        Unit::Cap(n) => n,
        Unit::Ch(n) => n,
        Unit::Em(n) => n,
        Unit::Ex(n) => n,
        Unit::Ic(n) => n,
        Unit::Lh(n) => n,
        Unit::Rcap(n) => n,
        Unit::Rch(n) => n,
        Unit::Rem(n) => n,
        Unit::Ric(n) => n,
        Unit::Rlh(n) => n,
        Unit::Vh(n) => n,
        Unit::Vw(n) => n,
        Unit::Vmax(n) => n,
        Unit::Vb(n) => n,
        Unit::Vi(n) => n,
        Unit::Cqw(n) => n,
        Unit::Cqh(n) => n,
        Unit::Cqi(n) => n,
        Unit::Cqb(n) => n,
        Unit::Cqmin(n) => n,
        Unit::Cqmax(n) => n,
        Unit::Px(n) => n,
        Unit::Cm(n) => n,
        Unit::Mm(n) => n,
        Unit::Q(n) => n,
        Unit::In(n) => n,
        Unit::Pc(n) => n,
        Unit::Pt(n) => n,
        Unit::Percentage(n) => n,
    }
}

/// The length with this number whose unit has this name, if a unit has it.
pub open spec fn unit_with(suffix: Seq<char>, value: isize) -> Option<Unit> {
    if suffix == "cap"@ {
        Some(Unit::Cap(value))
    } else if suffix == "ch"@ {
        Some(Unit::Ch(value))
    } else if suffix == "em"@ {
        Some(Unit::Em(value))
    } else if suffix == "ex"@ {
        Some(Unit::Ex(value))
    } else if suffix == "ic"@ {
        Some(Unit::Ic(value))
    } else if suffix == "lh"@ {
        Some(Unit::Lh(value))
    } else if suffix == "rcap"@ {
        Some(Unit::Rcap(value))
    } else if suffix == "rch"@ {
        Some(Unit::Rch(value))
    } else if suffix == "rem"@ {
        Some(Unit::Rem(value))
    } else if suffix == "ric"@ {
        Some(Unit::Ric(value))
    } else if suffix == "rlh"@ {
        Some(Unit::Rlh(value))
    } else if suffix == "vh"@ {
        Some(Unit::Vh(value))
    } else if suffix == "vw"@ {
        Some(Unit::Vw(value))
    } else if suffix == "vmax"@ {
        Some(Unit::Vmax(value))
    } else if suffix == "vb"@ {
        Some(Unit::Vb(value))
    } else if suffix == "vi"@ {
        Some(Unit::Vi(value))
    } else if suffix == "cqw"@ {
        Some(Unit::Cqw(value))
    } else if suffix == "cqh"@ {
        Some(Unit::Cqh(value))
    } else if suffix == "cqi"@ {
        Some(Unit::Cqi(value))
    } else if suffix == "cqb"@ {
        Some(Unit::Cqb(value))
    } else if suffix == "cqmin"@ {
        Some(Unit::Cqmin(value))
    } else if suffix == "cqmax"@ {
        Some(Unit::Cqmax(value))
    } else if suffix == "px"@ {
        Some(Unit::Px(value))
    } else if suffix == "cm"@ {
        Some(Unit::Cm(value))
    } else if suffix == "mm"@ {
        Some(Unit::Mm(value))
    } else if suffix == "q"@ {
        Some(Unit::Q(value))
    } else if suffix == "in"@ {
        Some(Unit::In(value))
    } else if suffix == "pc"@ {
        Some(Unit::Pc(value))
    } else if suffix == "pt"@ {
        Some(Unit::Pt(value))
    } else if suffix == "%"@ {
        Some(Unit::Percentage(value))
    } else {
        None
    }
}

/// The length that a text writes: decimal digits and then the name of a
/// unit. A text without digits at its start, or with a number that is too
/// large, is no number; a number with anything else behind it has no unit.
pub open spec fn unit_of(s: Seq<char>) -> Result<Unit, ParseUnitError> {
    let k = skip_digits(s, 0);
    let number = s.take(k);
    if k > 0 && digits_value(number) <= isize::MAX {
        match unit_with(s.skip(k), digits_value(number) as isize) {
            Some(u) => Ok(u),
            None => Err(ParseUnitError::NotAUnit),
        }
    } else {
        Err(ParseUnitError::NotANumber)
    }
}

/// The decimal writing of a number that may be negative.
pub open spec fn signed_decimal(n: int) -> Seq<char> {
    if n < 0 {
        seq!['-'] + decimal((-n) as nat)
    } else {
        decimal(n as nat)
    }
}

/// The text that writes a length.
pub open spec fn unit_text(u: Unit) -> Seq<char> {
    signed_decimal(unit_value(u) as int) + unit_suffix(u)
}

fn suffix_of(u: &Unit) -> (r: &'static str)
    ensures
        r@ == unit_suffix(*u),
{
    match u {
        Unit::Cap(_) => "cap",
        Unit::Ch(_) => "ch",
        Unit::Em(_) => "em",
        Unit::Ex(_) => "ex",
        Unit::Ic(_) => "ic",
        Unit::Lh(_) => "lh",
        Unit::Rcap(_) => "rcap",
        Unit::Rch(_) => "rch",
        Unit::Rem(_) => "rem",
        Unit::Ric(_) => "ric",
        Unit::Rlh(_) => "rlh",
        Unit::Vh(_) => "vh",
        Unit::Vw(_) => "vw",
        Unit::Vmax(_) => "vmax",
        Unit::Vb(_) => "vb",
        Unit::Vi(_) => "vi",
        Unit::Cqw(_) => "cqw",
        Unit::Cqh(_) => "cqh",
        Unit::Cqi(_) => "cqi",
        Unit::Cqb(_) => "cqb",
        Unit::Cqmin(_) => "cqmin",
        Unit::Cqmax(_) => "cqmax",
        Unit::Px(_) => "px",
        Unit::Cm(_) => "cm",
        Unit::Mm(_) => "mm",
        Unit::Q(_) => "q",
        Unit::In(_) => "in",
        Unit::Pc(_) => "pc",
        Unit::Pt(_) => "pt",
        Unit::Percentage(_) => "%",
    }
}

fn value_of(u: &Unit) -> (r: isize)
    ensures
        r == unit_value(*u),
{
    match u {
        Unit::Cap(n) => *n,
        Unit::Ch(n) => *n,
        Unit::Em(n) => *n,
        Unit::Ex(n) => *n,
        Unit::Ic(n) => *n,
        Unit::Lh(n) => *n,
        Unit::Rcap(n) => *n,
        Unit::Rch(n) => *n,
        Unit::Rem(n) => *n,
        Unit::Ric(n) => *n,
        Unit::Rlh(n) => *n,
        Unit::Vh(n) => *n,
        Unit::Vw(n) => *n,
        Unit::Vmax(n) => *n,
        Unit::Vb(n) => *n,
        Unit::Vi(n) => *n,
        Unit::Cqw(n) => *n,
        Unit::Cqh(n) => *n,
        Unit::Cqi(n) => *n,
        Unit::Cqb(n) => *n,
        Unit::Cqmin(n) => *n,
        Unit::Cqmax(n) => *n,
        Unit::Px(n) => *n,
        Unit::Cm(n) => *n,
        Unit::Mm(n) => *n,
        Unit::Q(n) => *n,
        Unit::In(n) => *n,
        Unit::Pc(n) => *n,
        Unit::Pt(n) => *n,
        Unit::Percentage(n) => *n,
    }
}

fn with_suffix(suffix: &Vec<char>, value: isize) -> (r: Option<Unit>)
    ensures
        r == unit_with(suffix@, value),
{
    if chars_equal(suffix, &to_chars("cap")) {
        Some(Unit::Cap(value))
    } else if chars_equal(suffix, &to_chars("ch")) {
        Some(Unit::Ch(value))
    } else if chars_equal(suffix, &to_chars("em")) {
        Some(Unit::Em(value))
    } else if chars_equal(suffix, &to_chars("ex")) {
        Some(Unit::Ex(value))
    } else if chars_equal(suffix, &to_chars("ic")) {
        Some(Unit::Ic(value))
    } else if chars_equal(suffix, &to_chars("lh")) {
        Some(Unit::Lh(value))
    } else if chars_equal(suffix, &to_chars("rcap")) {
        Some(Unit::Rcap(value))
    } else if chars_equal(suffix, &to_chars("rch")) {
        Some(Unit::Rch(value))
    } else if chars_equal(suffix, &to_chars("rem")) {
        Some(Unit::Rem(value))
    } else if chars_equal(suffix, &to_chars("ric")) {
        Some(Unit::Ric(value))
    } else if chars_equal(suffix, &to_chars("rlh")) {
        Some(Unit::Rlh(value))
    } else if chars_equal(suffix, &to_chars("vh")) {
        Some(Unit::Vh(value))
    } else if chars_equal(suffix, &to_chars("vw")) {
        Some(Unit::Vw(value))
    } else if chars_equal(suffix, &to_chars("vmax")) {
        Some(Unit::Vmax(value))
    } else if chars_equal(suffix, &to_chars("vb")) {
        Some(Unit::Vb(value))
    } else if chars_equal(suffix, &to_chars("vi")) {
        Some(Unit::Vi(value))
    } else if chars_equal(suffix, &to_chars("cqw")) {
        Some(Unit::Cqw(value))
    } else if chars_equal(suffix, &to_chars("cqh")) {
        Some(Unit::Cqh(value))
    } else if chars_equal(suffix, &to_chars("cqi")) {
        Some(Unit::Cqi(value))
    } else if chars_equal(suffix, &to_chars("cqb")) {
        Some(Unit::Cqb(value))
    } else if chars_equal(suffix, &to_chars("cqmin")) {
        Some(Unit::Cqmin(value))
    } else if chars_equal(suffix, &to_chars("cqmax")) {
        Some(Unit::Cqmax(value))
    } else if chars_equal(suffix, &to_chars("px")) {
        Some(Unit::Px(value))
    } else if chars_equal(suffix, &to_chars("cm")) {
        Some(Unit::Cm(value))
    } else if chars_equal(suffix, &to_chars("mm")) {
        Some(Unit::Mm(value))
    } else if chars_equal(suffix, &to_chars("q")) {
        Some(Unit::Q(value))
    } else if chars_equal(suffix, &to_chars("in")) {
        Some(Unit::In(value))
    } else if chars_equal(suffix, &to_chars("pc")) {
        Some(Unit::Pc(value))
    } else if chars_equal(suffix, &to_chars("pt")) {
        Some(Unit::Pt(value))
    } else if chars_equal(suffix, &to_chars("%")) {
        Some(Unit::Percentage(value))
    } else {
        None
    }
}

impl Unit {
    /// Reads a length.
    pub fn parse(string: &str) -> (r: Result<Unit, ParseUnitError>)
        ensures
            r == unit_of(string@),
    {
        let v = to_chars(string);
        let n: usize = v.len();
        let mut k: usize = 0;
        while k < n && char_is_digit(v[k])
            invariant
                k <= n == v@.len(),
                skip_digits(v@, k as int) == skip_digits(v@, 0),
                forall|j: int| 0 <= j < k ==> crate::text::is_digit(#[trigger] v@[j]),
            decreases n - k,
        {
            k += 1;
        }
        let number = slice_of(&v, 0, k);
        let suffix = slice_of(&v, k, n);
        let value = match parse_usize(&number) {
            Some(x) => x,
            None => {
                return Err(ParseUnitError::NotANumber);
            },
        };
        if value > isize::MAX as usize {
            return Err(ParseUnitError::NotANumber);
        }
        match with_suffix(&suffix, value as isize) {
            Some(u) => Ok(u),
            None => Err(ParseUnitError::NotAUnit),
        }
    }

    /// Writes a length: its number and the name of its unit.
    pub fn to_string(&self) -> (r: String)
        ensures
            r@ == unit_text(*self),
    {
        let n = value_of(self);
        let mut out: Vec<char> = Vec::new();
        if n < 0 {
            out.push('-');
            let m: usize = ((-(n + 1)) as usize) + 1;
            let digits = decimal_chars(m);
            append_chars(&mut out, &digits);
        } else {
            let digits = decimal_chars(n as usize);
            append_chars(&mut out, &digits);
        }
        let suffix = to_chars(suffix_of(self));
        append_chars(&mut out, &suffix);
        to_string(&out)
    }
}

impl std::str::FromStr for Unit {
    type Err = ParseUnitError;

    fn from_str(string: &str) -> (r: Result<Self, Self::Err>)
        ensures
            r == unit_of(string@),
    {
        Unit::parse(string)
    }
}

impl ParseUnitError {
    /// The error in words.
    pub fn to_string(&self) -> (r: String)
        ensures
            r@ == (match *self {
                ParseUnitError::NotANumber => "not a number"@,
                ParseUnitError::NotAUnit => "not a unit"@,
            }),
    {
        match self {
            ParseUnitError::NotANumber => String::from_str("not a number"),
            ParseUnitError::NotAUnit => String::from_str("not a unit"),
        }
    }
}

} // verus!

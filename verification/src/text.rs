//! Small verified text helpers: decimal rendering of attempt counters and
//! the fixed failure messages the engine writes into recipient results.

use vstd::prelude::*;
use vstd::string::StringExecFns;
use vstd::string::StrSliceExecFns;

verus! {

/// Whether a character counts as whitespace for trimming; a function of the
/// character alone (the Unicode White_Space property).
pub uninterp spec fn spec_is_whitespace(c: char) -> bool;

/// Relies on `char::is_whitespace`: whether the character has the Unicode
/// White_Space property.
#[verifier::external_body]
fn char_is_whitespace(c: char) -> (r: bool)
    ensures
        r == spec_is_whitespace(c),
{
    c.is_whitespace()
}

/// A string with its trailing whitespace removed.
pub open spec fn strip_trailing_ws(s: Seq<char>) -> Seq<char>
    decreases s.len(),
{
    if s.len() > 0 && spec_is_whitespace(s.last()) {
        strip_trailing_ws(s.drop_last())
    } else {
        s
    }
}

/// A string with its leading whitespace removed.
pub open spec fn strip_leading_ws(s: Seq<char>) -> Seq<char>
    decreases s.len(),
{
    if s.len() > 0 && spec_is_whitespace(s.first()) {
        strip_leading_ws(s.subrange(1, s.len() as int))
    } else {
        s
    }
}

/// A string with its surrounding whitespace removed.
pub open spec fn spec_trimmed(s: Seq<char>) -> Seq<char> {
    strip_leading_ws(strip_trailing_ws(s))
}

/// Trims surrounding whitespace from a string.
pub fn trim_chars(s: &str) -> (r: String)
    ensures
        r@ == spec_trimmed(s@),
{
    let n = s.unicode_len();
    let mut j: usize = n;
    proof {
        assert(s@.take(n as int) =~= s@);
    }
    while j > 0 && char_is_whitespace(s.get_char(j - 1))
        invariant
            0 <= j <= n,
            n == s@.len(),
            strip_trailing_ws(s@.take(j as int)) == strip_trailing_ws(s@),
        decreases j,
    {
        proof {
            assert(s@.take(j as int).drop_last() =~= s@.take(j - 1));
            assert(s@.take(j as int).last() == s@[j - 1]);
        }
        j = j - 1;
    }
    let ghost t = s@.take(j as int);
    proof {
        if j > 0 {
            assert(t.last() == s@[j - 1]);
        }
        assert(t == strip_trailing_ws(s@));
    }
    let mut i: usize = 0;
    proof {
        assert(t.subrange(0, t.len() as int) =~= t);
    }
    while i < j && char_is_whitespace(s.get_char(i))
        invariant
            0 <= i <= j <= n,
            n == s@.len(),
            t == s@.take(j as int),
            strip_leading_ws(t.subrange(i as int, t.len() as int)) == strip_leading_ws(t),
        decreases j - i,
    {
        proof {
            let rest = t.subrange(i as int, t.len() as int);
            assert(rest.first() == s@[i as int]);
            assert(rest.subrange(1, rest.len() as int) =~= t.subrange(i + 1, t.len() as int));
        }
        i = i + 1;
    }
    proof {
        let rest = t.subrange(i as int, t.len() as int);
        if i < j {
            assert(rest.first() == s@[i as int]);
        }
        assert(rest == strip_leading_ws(rest));
        assert(s@.subrange(i as int, j as int) =~= rest);
    }
    s.substring_char(i, j).to_owned()
}

/// The character for a single decimal digit.
pub open spec fn spec_digit(d: u8) -> char {
    if d == 0 {
        '0'
    } else if d == 1 {
        '1'
    } else if d == 2 {
        '2'
    } else if d == 3 {
        '3'
    } else if d == 4 {
        '4'
    } else if d == 5 {
        '5'
    } else if d == 6 {
        '6'
    } else if d == 7 {
        '7'
    } else if d == 8 {
        '8'
    } else {
        '9'
    }
}

/// The decimal representation of a `u8`, most significant digit first,
/// without leading zeroes (`0` is rendered as "0").
pub open spec fn spec_u8_decimal(n: u8) -> Seq<char>
    decreases n,
{
    if n < 10 {
        seq![spec_digit(n)]
    } else {
        spec_u8_decimal((n / 10) as u8).push(spec_digit((n % 10) as u8))
    }
}

fn digit_str(d: u8) -> (r: &'static str)
    requires
        d < 10,
    ensures
        r@ == seq![spec_digit(d)],
{
    proof {
        reveal_strlit("0");
        reveal_strlit("1");
        reveal_strlit("2");
        reveal_strlit("3");
        reveal_strlit("4");
        reveal_strlit("5");
        reveal_strlit("6");
        reveal_strlit("7");
        reveal_strlit("8");
        reveal_strlit("9");
    }
    let r: &'static str = match d {
        0 => "0",
        1 => "1",
        2 => "2",
        3 => "3",
        4 => "4",
        5 => "5",
        6 => "6",
        7 => "7",
        8 => "8",
        _ => "9",
    };
    proof {
        assert(r@ =~= seq![spec_digit(d)]);
    }
    r
}

/// Renders a `u8` in decimal.
pub fn u8_to_decimal_string(n: u8) -> (r: String)
    ensures
        r@ == spec_u8_decimal(n),
    decreases n,
{
    if n < 10 {
        digit_str(n).to_owned()
    } else {
        let mut s = u8_to_decimal_string(n / 10);
        s.append(digit_str(n % 10));
        proof {
            assert(s@ =~= spec_u8_decimal(n));
        }
        s
    }
}

/// The reason written when a message runs out of worker passes while a
/// recipient is still deferred.
pub open spec fn too_many_attempts_text(attempts: u8, reason: Seq<char>) -> Seq<char> {
    "Too many attempts ("@ + spec_u8_decimal(attempts) + "): "@ + reason
}

/// Builds the "too many attempts" failure reason.
pub fn too_many_attempts_message(attempts: u8, reason: &String) -> (r: String)
    ensures
        r@ == too_many_attempts_text(attempts, reason@),
{
    let mut s = String::from_str("Too many attempts (");
    let d = u8_to_decimal_string(attempts);
    s.append(d.as_str());
    s.append("): ");
    s.append(reason.as_str());
    proof {
        assert(s@ =~= too_many_attempts_text(attempts, reason@));
    }
    s
}

/// The reason written when a single recipient has been deferred five or more
/// times across MX exchanges.
pub open spec fn five_attempts_text(reason: Seq<char>) -> Seq<char> {
    "Failed after 5 attempts: "@ + reason
}

/// Builds the "failed after 5 attempts" failure reason.
pub fn five_attempts_message(reason: &String) -> (r: String)
    ensures
        r@ == five_attempts_text(reason@),
{
    let mut s = String::from_str("Failed after 5 attempts: ");
    s.append(reason.as_str());
    proof {
        assert(s@ =~= five_attempts_text(reason@));
    }
    s
}

/// The reason written when a recipient has no usable MX exchange.
pub open spec fn no_valid_mx_text() -> Seq<char> {
    "MX records found but none are valid"@
}

/// Builds the "no valid MX records" failure reason.
pub fn no_valid_mx_message() -> (r: String)
    ensures
        r@ == no_valid_mx_text(),
{
    String::from_str("MX records found but none are valid")
}

} // verus!

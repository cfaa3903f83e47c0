use vstd::prelude::*;
use vstd::string::StringExecFns;
use crate::paths::push_char;

verus! {

/// The character of the decimal digit `d`.
pub open spec fn digit_char(d: int) -> char {
    (48 + d) as char
}

/// The decimal digits of `n`, most significant first.
pub open spec fn decimal(n: nat) -> Seq<char>
    decreases n,
{
    if n < 10 {
        seq![digit_char(n as int)]
    } else {
        decimal(n / 10).push(digit_char((n % 10) as int))
    }
}

/// Appends the decimal digits of `n` to `s`.
pub fn push_decimal(s: &mut String, n: usize)
    ensures
        final(s)@ == old(s)@ + decimal(n as nat),
    decreases n,
{
    if n >= 10 {
        push_decimal(s, n / 10);
    }
    let d = (n % 10) as u8;
    let c = (48u8 + d) as char;
    push_char(s, c);
    assert(final(s)@ =~= old(s)@ + decimal(n as nat));
}

/// The progress line of the client: the message, then `(current/total)`.
pub open spec fn progress_line(message: Seq<char>, current: nat, total: nat) -> Seq<char> {
    message + " ("@ + decimal(current) + seq!['/'] + decimal(total) + seq![')']
}

/// The progress line for `message` with `current` of `total` done.
pub fn progress_text(message: &str, current: usize, total: usize) -> (r: String)
    ensures
        r@ == progress_line(message@, current as nat, total as nat),
{
    let mut s = String::from_str(message);
    s.append(" (");
    push_decimal(&mut s, current);
    push_char(&mut s, '/');
    push_decimal(&mut s, total);
    push_char(&mut s, ')');
    assert(s@ =~= progress_line(message@, current as nat, total as nat));
    s
}

} // verus!

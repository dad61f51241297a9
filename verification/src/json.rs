//! Building JSON context text for the template engine: string escaping,
//! decimal numbers, string lists, all specified to the character.

use vstd::prelude::*;
use vstd::string::*;

use crate::strutil::{chars_vec, push_range, string_from_chars};

verus! {

/// The lower-case hex digit for `n` (0..16).
pub open spec fn hex_digit(n: int) -> char {
    if n == 0 {
        '0'
    } else if n == 1 {
        '1'
    } else if n == 2 {
        '2'
    } else if n == 3 {
        '3'
    } else if n == 4 {
        '4'
    } else if n == 5 {
        '5'
    } else if n == 6 {
        '6'
    } else if n == 7 {
        '7'
    } else if n == 8 {
        '8'
    } else if n == 9 {
        '9'
    } else if n == 10 {
        'a'
    } else if n == 11 {
        'b'
    } else if n == 12 {
        'c'
    } else if n == 13 {
        'd'
    } else if n == 14 {
        'e'
    } else {
        'f'
    }
}

/// The JSON escape of one character: quotes, backslashes and the named
/// whitespace escapes get a backslash form, other control characters the
/// `\u00XX` form, and everything else stands for itself.
pub open spec fn esc_char(c: char) -> Seq<char> {
    if c == '"' {
        seq!['\\', '"']
    } else if c == '\\' {
        seq!['\\', '\\']
    } else if c == '\n' {
        seq!['\\', 'n']
    } else if c == '\r' {
        seq!['\\', 'r']
    } else if c == '\t' {
        seq!['\\', 't']
    } else if (c as u32) < 32 {
        seq!['\\', 'u', '0', '0', hex_digit((c as u32) as int / 16), hex_digit(
            (c as u32) as int % 16,
        )]
    } else {
        seq![c]
    }
}

/// The escape of the suffix of `s` starting at `i`.
pub open spec fn esc_from(s: Seq<char>, i: int) -> Seq<char>
    decreases s.len() - i,
{
    if 0 <= i < s.len() {
        esc_char(s[i]) + esc_from(s, i + 1)
    } else {
        Seq::empty()
    }
}

/// The JSON escape of a whole string.
pub open spec fn esc(s: Seq<char>) -> Seq<char> {
    esc_from(s, 0)
}

/// A JSON string token: the escaped text in double quotes.
pub open spec fn json_str(s: Seq<char>) -> Seq<char> {
    seq!['"'] + esc(s) + seq!['"']
}

fn hex_digit_exec(n: u32) -> (c: char)
    requires
        n < 16,
    ensures
        c == hex_digit(n as int),
{
    if n == 0 {
        '0'
    } else if n == 1 {
        '1'
    } else if n == 2 {
        '2'
    } else if n == 3 {
        '3'
    } else if n == 4 {
        '4'
    } else if n == 5 {
        '5'
    } else if n == 6 {
        '6'
    } else if n == 7 {
        '7'
    } else if n == 8 {
        '8'
    } else if n == 9 {
        '9'
    } else if n == 10 {
        'a'
    } else if n == 11 {
        'b'
    } else if n == 12 {
        'c'
    } else if n == 13 {
        'd'
    } else if n == 14 {
        'e'
    } else {
        'f'
    }
}

#[verifier::rlimit(60)]
fn escape_chars(v: &Vec<char>) -> (r: Vec<char>)
    ensures
        r@ == esc(v@),
{
    let n: usize = v.len();
    let mut out: Vec<char> = Vec::new();
    let mut i: usize = 0;
    proof {
        assert(Seq::<char>::empty() + esc_from(v@, 0) =~= esc_from(v@, 0));
    }
    while i < n
        invariant
            i <= n,
            n == v@.len(),
            esc(v@) == out@ + esc_from(v@, i as int),
        decreases n - i,
    {
        let ghost pre = out@;
        let c = v[i];
        if c == '"' {
            out.push('\\');
            out.push('"');
        } else if c == '\\' {
            out.push('\\');
            out.push('\\');
        } else if c == '\n' {
            out.push('\\');
            out.push('n');
        } else if c == '\r' {
            out.push('\\');
            out.push('r');
        } else if c == '\t' {
            out.push('\\');
            out.push('t');
        } else {
            let code: u32 = c as u32;
            if code < 32 {
                out.push('\\');
                out.push('u');
                out.push('0');
                out.push('0');
                out.push(hex_digit_exec(code / 16));
                out.push(hex_digit_exec(code % 16));
            } else {
                out.push(c);
            }
        }
        proof {
            assert(out@ =~= pre + esc_char(v@[i as int]));
            assert(esc_from(v@, i as int) == esc_char(v@[i as int]) + esc_from(v@, i + 1));
            assert(pre + (esc_char(v@[i as int]) + esc_from(v@, i + 1)) =~= out@ + esc_from(
                v@,
                i + 1,
            ));
        }
        i = i + 1;
    }
    proof {
        assert(esc_from(v@, n as int) == Seq::<char>::empty());
        assert(out@ + Seq::<char>::empty() =~= out@);
    }
    out
}

/// Appends the JSON string token for `s` to `out`.
pub fn push_json_str(out: &mut Vec<char>, s: &str)
    ensures
        final(out)@ == old(out)@ + json_str(s@),
{
    let v = chars_vec(s);
    let e = escape_chars(&v);
    out.push('"');
    push_range(out, &e, 0, e.len());
    out.push('"');
    proof {
        assert(e@.subrange(0, e@.len() as int) =~= e@);
        assert(out@ =~= old(out)@ + json_str(s@));
    }
}

/// The JSON string token for `s`.
pub fn json_string(s: &str) -> (r: String)
    ensures
        r@ == json_str(s@),
{
    let mut out: Vec<char> = Vec::new();
    push_json_str(&mut out, s);
    proof {
        assert(Seq::<char>::empty() + json_str(s@) =~= json_str(s@));
    }
    string_from_chars(&out)
}

/// The decimal digit character for `n` (0..10).
pub open spec fn digit_char(n: int) -> char {
    if n == 0 {
        '0'
    } else if n == 1 {
        '1'
    } else if n == 2 {
        '2'
    } else if n == 3 {
        '3'
    } else if n == 4 {
        '4'
    } else if n == 5 {
        '5'
    } else if n == 6 {
        '6'
    } else if n == 7 {
        '7'
    } else if n == 8 {
        '8'
    } else {
        '9'
    }
}

/// The usual decimal writing of `n`, most significant digit first, no
/// leading zeros.
pub open spec fn dec_nat(n: nat) -> Seq<char>
    decreases n,
{
    if n < 10 {
        seq![digit_char(n as int)]
    } else {
        dec_nat(n / 10) + seq![digit_char((n % 10) as int)]
    }
}

fn digit_exec(d: u64) -> (c: char)
    requires
        d < 10,
    ensures
        c == digit_char(d as int),
{
    if d == 0 {
        '0'
    } else if d == 1 {
        '1'
    } else if d == 2 {
        '2'
    } else if d == 3 {
        '3'
    } else if d == 4 {
        '4'
    } else if d == 5 {
        '5'
    } else if d == 6 {
        '6'
    } else if d == 7 {
        '7'
    } else if d == 8 {
        '8'
    } else {
        '9'
    }
}

/// Appends the decimal digits of `n` to `out`.
pub fn push_dec(out: &mut Vec<char>, n: u64)
    ensures
        final(out)@ == old(out)@ + dec_nat(n as nat),
    decreases n,
{
    if n < 10 {
        out.push(digit_exec(n));
        proof {
            assert(out@ =~= old(out)@ + dec_nat(n as nat));
        }
    } else {
        push_dec(out, n / 10);
        out.push(digit_exec(n % 10));
        proof {
            assert(out@ =~= old(out)@ + (dec_nat((n / 10) as nat) + seq![digit_char(
                (n % 10) as int,
            )]));
            assert(dec_nat(n as nat) == dec_nat((n / 10) as nat) + seq![digit_char(
                (n % 10) as int,
            )]);
        }
    }
}

/// The decimal writing of `n`.
pub fn dec_u64(n: u64) -> (r: String)
    ensures
        r@ == dec_nat(n as nat),
{
    let mut out: Vec<char> = Vec::new();
    push_dec(&mut out, n);
    proof {
        assert(Seq::<char>::empty() + dec_nat(n as nat) =~= dec_nat(n as nat));
    }
    string_from_chars(&out)
}

} // verus!

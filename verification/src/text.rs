//! Numbers and addresses as text.

use vstd::prelude::*;
use vstd::string::*;

verus! {

/// The character of a decimal digit.
pub open spec fn digit_char(d: int) -> char {
    if d == 0 {
        '0'
    } else if d == 1 {
        '1'
    } else if d == 2 {
        '2'
    } else if d == 3 {
        '3'
    } else if d == 4 {
        '4'
    } else if d == 5 {
        '5'
    } else if d == 6 {
        '6'
    } else if d == 7 {
        '7'
    } else if d == 8 {
        '8'
    } else {
        '9'
    }
}

/// `n` in decimal, without leading zeros.
pub open spec fn decimal(n: nat) -> Seq<char>
    decreases n,
{
    if n < 10 {
        seq![digit_char(n as int)]
    } else {
        decimal(n / 10).push(digit_char((n % 10) as int))
    }
}

/// `n` in decimal, with a minus sign where it is negative.
pub open spec fn signed_decimal(n: int) -> Seq<char> {
    if n < 0 {
        seq!['-'] + decimal((-n) as nat)
    } else {
        decimal(n as nat)
    }
}

/// An IPv4 address in dotted decimal notation.
pub open spec fn dotted(octets: Seq<u8>) -> Seq<char>
    recommends
        octets.len() == 4,
{
    decimal(octets[0] as nat) + seq!['.'] + decimal(octets[1] as nat) + seq!['.'] + decimal(
        octets[2] as nat,
    ) + seq!['.'] + decimal(octets[3] as nat)
}

/// Where a knock goes: host, a colon, and the port in decimal.
pub open spec fn target(host: Seq<char>, port: i32) -> Seq<char> {
    host + seq![':'] + signed_decimal(port as int)
}

fn digit_text(d: u64) -> (text: &'static str)
    requires
        d < 10,
    ensures
        text@ == seq![digit_char(d as int)],
{
    proof {
        reveal_strlit("0");
        reveal_strlit("1");
        reveal_strlit("2");
        reveal_strlit("3");
        reveal_strlit("4");
        reveal_strlit("5");
        reveal_strlit("6");
        reveal_strlit("7");
        reveal_strlit("8");
        reveal_strlit("9");
    }
    let text = if d == 0 {
        "0"
    } else if d == 1 {
        "1"
    } else if d == 2 {
        "2"
    } else if d == 3 {
        "3"
    } else if d == 4 {
        "4"
    } else if d == 5 {
        "5"
    } else if d == 6 {
        "6"
    } else if d == 7 {
        "7"
    } else if d == 8 {
        "8"
    } else {
        "9"
    };
    proof {
        assert(text@ =~= seq![digit_char(d as int)]);
    }
    text
}

/// Appends `n` in decimal to `out`.
pub fn push_decimal(out: &mut String, n: u64)
    ensures
        final(out)@ == old(out)@ + decimal(n as nat),
    decreases n,
{
    if n >= 10 {
        push_decimal(out, n / 10);
    }
    out.append(digit_text(n % 10));
    proof {
        assert(final(out)@ =~= old(out)@ + decimal(n as nat));
    }
}

/// Appends `n` in decimal to `out`, with a minus sign where it is negative.
pub fn push_signed_decimal(out: &mut String, n: i32)
    ensures
        final(out)@ == old(out)@ + signed_decimal(n as int),
{
    if n < 0 {
        proof {
            reveal_strlit("-");
        }
        out.append("-");
        let magnitude: u64 = (-(n as i64)) as u64;
        push_decimal(out, magnitude);
        proof {
            assert("-"@ =~= seq!['-']);
            assert(final(out)@ =~= old(out)@ + signed_decimal(n as int));
        }
    } else {
        push_decimal(out, n as u64);
    }
}

/// Writes an IPv4 address in dotted decimal notation.
pub fn format_ipv4(octets: &[u8; 4]) -> (text: String)
    ensures
        text@ == dotted(octets@),
{
    proof {
        reveal_strlit(".");
    }
    let mut text = String::new();
    push_decimal(&mut text, octets[0] as u64);
    text.append(".");
    push_decimal(&mut text, octets[1] as u64);
    text.append(".");
    push_decimal(&mut text, octets[2] as u64);
    text.append(".");
    push_decimal(&mut text, octets[3] as u64);
    proof {
        assert("."@ =~= seq!['.']);
        assert(text@ =~= dotted(octets@));
    }
    text
}

/// Writes where a knock goes: `host`, a colon, and `port` in decimal.
pub fn format_target(host: &str, port: i32) -> (text: String)
    ensures
        text@ == target(host@, port),
{
    proof {
        reveal_strlit(":");
    }
    let mut text = host.to_owned();
    text.append(":");
    push_signed_decimal(&mut text, port);
    proof {
        assert(":"@ =~= seq![':']);
        assert(text@ =~= target(host@, port));
    }
    text
}

} // verus!

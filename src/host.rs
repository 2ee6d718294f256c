//! The host side: the agent's connection settings and the text forms of its
//! numeric readings.
use vstd::prelude::*;
use crate::text::{chars_of, contains, contains_exec, occurs_at_exec, slice, string_of};

verus! {

pub open spec fn digit(d: nat) -> char {
    "0123456789"@[d as int]
}

/// The decimal numeral of `n`, without leading zeros.
pub open spec fn decimal(n: nat) -> Seq<char>
    decreases n,
{
    if n < 10 {
        seq![digit(n)]
    } else {
        decimal(n / 10) + seq![digit(n % 10)]
    }
}

fn digit_char(d: u64) -> (c: char)
    requires
        d < 10,
    ensures
        c == digit(d as nat),
{
    proof {
        reveal_strlit("0123456789");
    }
    let digits = ['0', '1', '2', '3', '4', '5', '6', '7', '8', '9'];
    assert(digits@ == "0123456789"@);
    digits[d as usize]
}

/// Appends the decimal numeral of `n`.
pub fn push_decimal(out: &mut Vec<char>, n: u64)
    ensures
        final(out)@ == old(out)@ + decimal(n as nat),
    decreases n,
{
    if n >= 10 {
        push_decimal(out, n / 10);
    }
    out.push(digit_char(n % 10));
    assert(final(out)@ =~= old(out)@ + decimal(n as nat));
}

pub fn push_str(out: &mut Vec<char>, s: &str)
    ensures
        final(out)@ == old(out)@ + s@,
{
    let cs = crate::text::chars_of(s);
    let mut i: usize = 0;
    while i < cs.len()
        invariant
            i <= cs@.len(),
            cs@ == s@,
            out@ == old(out)@ + cs@.subrange(0, i as int),
        decreases cs@.len() - i,
    {
        out.push(cs[i]);
        i = i + 1;
        assert(out@ =~= old(out)@ + cs@.subrange(0, i as int));
    }
    assert(cs@.subrange(0, i as int) =~= cs@);
}

pub fn push_chars(out: &mut Vec<char>, s: &Vec<char>)
    ensures
        final(out)@ == old(out)@ + s@,
{
    let mut i: usize = 0;
    while i < s.len()
        invariant
            i <= s@.len(),
            out@ == old(out)@ + s@.subrange(0, i as int),
        decreases s@.len() - i,
    {
        out.push(s[i]);
        i = i + 1;
        assert(out@ =~= old(out)@ + s@.subrange(0, i as int));
    }
    assert(s@.subrange(0, i as int) =~= s@);
}

/// Whole days, hours, minutes and seconds of an uptime of `t` seconds.
pub open spec fn uptime_text(t: nat) -> Seq<char> {
    decimal(t / 86400) + " day "@ + decimal((t % 86400) / 3600) + " hour "@ + decimal(
        (t % 3600) / 60,
    ) + " minutes "@ + decimal(t % 60) + " sec"@
}

/// An uptime in seconds as `D day H hour M minutes S sec`, by fixed
/// 24-hour days, 60-minute hours and 60-second minutes.
pub fn _convert_sec_to_str(input: u64) -> (r: String)
    ensures
        r@ == uptime_text(input as nat),
{
    let day = input / 86400;
    let hour = input / 3600 - day * 24;
    let min = input / 60 - day * 24 * 60 - hour * 60;
    let sec = input - day * 24 * 60 * 60 - hour * 60 * 60 - min * 60;
    assert(hour == (input % 86400) / 3600) by (nonlinear_arith)
        requires
            day == input / 86400,
            hour == input / 3600 - day * 24,
    ;
    assert(min == (input % 3600) / 60) by (nonlinear_arith)
        requires
            day == input / 86400,
            hour == input / 3600 - day * 24,
            min == input / 60 - day * 24 * 60 - hour * 60,
    ;
    assert(sec == input % 60) by (nonlinear_arith)
        requires
            day == input / 86400,
            hour == input / 3600 - day * 24,
            min == input / 60 - day * 24 * 60 - hour * 60,
            sec == input - day * 24 * 60 * 60 - hour * 60 * 60 - min * 60,
    ;
    let mut out: Vec<char> = Vec::new();
    push_decimal(&mut out, day);
    push_str(&mut out, " day ");
    push_decimal(&mut out, hour);
    push_str(&mut out, " hour ");
    push_decimal(&mut out, min);
    push_str(&mut out, " minutes ");
    push_decimal(&mut out, sec);
    push_str(&mut out, " sec");
    assert(out@ =~= uptime_text(input as nat));
    string_of(&out)
}

/// An interface's address as the agent reports it, from the debug text of the
/// first address in its list (`V4(10.0.0.2)`, `V6(::1)`, `Empty`): the bare
/// address, or `null` where the list is empty or the address is not one of
/// the two wrapped forms.
pub open spec fn address_of(first: Option<Seq<char>>) -> Seq<char> {
    match first {
        None => "null"@,
        Some(d) => if !contains(d, "Empty"@) && d.len() >= 4 && (d.subrange(0, 3) == "V4("@
            || d.subrange(0, 3) == "V6("@) && d.last() == ')' {
            d.subrange(3, d.len() - 1)
        } else {
            "null"@
        },
    }
}

/// The reported address of an interface whose first address prints as
/// `first`, if it has one.
pub fn interface_address(first: Option<&str>) -> (r: String)
    ensures
        r@ == address_of(match first {
            Some(d) => Some(d@),
            None => None,
        }),
{
    match first {
        None => "null".to_string(),
        Some(d) => {
            let c = chars_of(d);
            let empty = chars_of("Empty");
            let v4 = chars_of("V4(");
            let v6 = chars_of("V6(");
            proof {
                reveal_strlit("V4(");
                reveal_strlit("V6(");
            }
            if contains_exec(&c, &empty) || c.len() < 4 || c[c.len() - 1] != ')' {
                return "null".to_string();
            }
            if !occurs_at_exec(&c, &v4, 0) && !occurs_at_exec(&c, &v6, 0) {
                return "null".to_string();
            }
            string_of(&slice(&c, 3, c.len() - 1))
        },
    }
}

/// Where the agent sends its snapshots, and the secret it sends with them.
pub struct MasterServerInfo {
    pub password: String,
    pub serveraddr: String,
}

impl MasterServerInfo {
    pub fn new(password: &str, serveraddr: &str) -> (r: MasterServerInfo)
        ensures
            r.password@ == password@,
            r.serveraddr@ == serveraddr@,
    {
        let password = password.to_string();
        let serveraddr = serveraddr.to_string();
        MasterServerInfo { password, serveraddr }
    }
}

} // verus!

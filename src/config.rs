//! Reading the server's settings from their raw text.
use vstd::prelude::*;

verus! {

/// The port served on when none, or an invalid one, is configured.
pub const DEFAULT_PORT: u16 = 8000;

/// Whether a character is an ASCII decimal digit.
pub open spec fn is_digit(c: char) -> bool {
    '0' <= c <= '9'
}

/// The value of a digit character.
pub open spec fn digit_value(c: char) -> nat {
    (c as nat - '0' as nat) as nat
}

/// The number that a sequence of decimal digits spells.
pub open spec fn digits_value(s: Seq<char>) -> nat
    decreases s.len(),
{
    if s.len() == 0 {
        0
    } else {
        digits_value(s.drop_last()) * 10 + digit_value(s.last())
    }
}

/// The text after an optional leading `+`.
pub open spec fn unsigned_digits(s: Seq<char>) -> Seq<char> {
    if s.len() > 0 && s[0] == '+' {
        s.drop_first()
    } else {
        s
    }
}

/// Whether every character of the text is a decimal digit.
pub open spec fn all_digits(d: Seq<char>) -> bool {
    forall|i: int| 0 <= i < d.len() ==> is_digit(#[trigger] d[i])
}

/// The port a text denotes: an optional `+` and one or more decimal digits
/// whose value fits in 16 bits.
pub open spec fn parsed_port(s: Seq<char>) -> Option<u16> {
    let d = unsigned_digits(s);
    if d.len() > 0 && all_digits(d) && digits_value(d) <= u16::MAX {
        Some(digits_value(d) as u16)
    } else {
        None
    }
}

/// The port to serve on: the configured one when it is a valid port number,
/// else the default.
pub fn port_from_setting(setting: Option<&str>) -> (r: u16)
    ensures
        r == match setting {
            Some(s) => match parsed_port(s@) {
                Some(p) => p,
                None => DEFAULT_PORT,
            },
            None => DEFAULT_PORT,
        },
{
    match setting {
        None => DEFAULT_PORT,
        Some(s) => match parse_port(s) {
            Some(p) => p,
            None => DEFAULT_PORT,
        },
    }
}

/// Parses a port number as `parsed_port` describes.
pub fn parse_port(s: &str) -> (r: Option<u16>)
    ensures
        r == parsed_port(s@),
{
    let n = s.unicode_len();
    let mut start: usize = 0;
    if n > 0 && s.get_char(0) == '+' {
        start = 1;
    }
    let ghost d = s@.subrange(start as int, n as int);
    assert(d =~= unsigned_digits(s@));
    if start == n {
        return None;
    }
    let mut value: u32 = 0;
    let mut i: usize = start;
    while i < n
        invariant
            start <= i <= n,
            n == s@.len(),
            d == s@.subrange(start as int, n as int),
            d == unsigned_digits(s@),
            value as nat == digits_value(d.take(i - start)),
            value <= u16::MAX,
            forall|j: int| 0 <= j < i - start ==> is_digit(#[trigger] d[j]),
        decreases n - i,
    {
        let c = s.get_char(i);
        assert(d[i - start] == c);
        if !('0' <= c && c <= '9') {
            assert(!is_digit(d[i - start]));
            assert(!all_digits(d));
            return None;
        }
        let next = value * 10 + (c as u32 - '0' as u32);
        assert(d.take(i - start + 1).drop_last() =~= d.take(i - start));
        assert(d.take(i - start + 1).last() == c);
        assert(next as nat == digits_value(d.take(i - start + 1)));
        if next > 65535 {
            proof {
                lemma_prefix_value_le(d, i - start + 1);
            }
            return None;
        }
        value = next;
        i = i + 1;
    }
    assert(d.take(i - start) =~= d);
    assert(all_digits(d));
    Some(value as u16)
}

proof fn lemma_prefix_value_le(d: Seq<char>, k: int)
    requires
        0 <= k <= d.len(),
    ensures
        digits_value(d.take(k)) <= digits_value(d),
    decreases d.len() - k,
{
    if k == d.len() {
        assert(d.take(k) =~= d);
    } else {
        lemma_prefix_value_le(d, k + 1);
        assert(d.take(k + 1).drop_last() =~= d.take(k));
    }
}

/// The destination every message goes to when none is configured.
pub open spec fn default_destination() -> Seq<char> {
    "https://discord.com/"@
}

/// The destination base: the configured one, ending in `/`, or the default.
pub open spec fn destination_base(setting: Option<Seq<char>>) -> Seq<char> {
    match setting {
        Some(s) => if s.len() > 0 && s.last() == '/' {
            s
        } else {
            s + "/"@
        },
        None => default_destination(),
    }
}

/// The destination base from its setting: the configured text with a trailing
/// `/` added if it lacks one, or the default.
pub fn destination_from_setting(setting: Option<String>) -> (r: String)
    ensures
        r@ == destination_base(
            match setting {
                Some(s) => Some(s@),
                None => None,
            },
        ),
{
    match setting {
        Some(mut s) => {
            let n = s.as_str().unicode_len();
            if n > 0 && s.as_str().get_char(n - 1) == '/' {
                s
            } else {
                s.append("/");
                s
            }
        },
        None => String::from_str("https://discord.com/"),
    }
}

/// Where a message for `path` is posted: the destination base followed by the path.
pub fn destination_for(base: &str, path: &str) -> (r: String)
    ensures
        r@ == base@ + path@,
{
    let mut r = base.to_owned();
    r.append(path);
    r
}

} // verus!

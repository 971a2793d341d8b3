//! IPv4 address texts.
//!
//! The dotted-quad grammar: four decimal octets, each between 0 and 255,
//! written without leading zeros and separated by dots.  Every address has
//! exactly one such text, so the parser is specified both ways: whatever
//! it accepts is the text of the address it returns, and the text of any
//! address is accepted.

use vstd::prelude::*;
use vstd::string::StrSliceExecFns;

verus! {

/// An IPv4 address as four plain octets.
#[derive(Clone, Copy, Debug, PartialEq, Eq, Structural)]
pub struct Ipv4Address {
    pub a: u8,
    pub b: u8,
    pub c: u8,
    pub d: u8,
}

/// The ten decimal digit characters.
pub open spec fn is_digit_char(c: char) -> bool {
    c == '0' || c == '1' || c == '2' || c == '3' || c == '4' || c == '5' || c == '6' || c == '7'
        || c == '8' || c == '9'
}

/// The digit character of a value below ten.
pub open spec fn digit_char(value: int) -> char {
    if value == 0 {
        '0'
    } else if value == 1 {
        '1'
    } else if value == 2 {
        '2'
    } else if value == 3 {
        '3'
    } else if value == 4 {
        '4'
    } else if value == 5 {
        '5'
    } else if value == 6 {
        '6'
    } else if value == 7 {
        '7'
    } else if value == 8 {
        '8'
    } else {
        '9'
    }
}

/// The decimal text of an octet: one to three digits, no leading zero.
pub open spec fn octet_text(value: int) -> Seq<char> {
    if value < 10 {
        seq![digit_char(value)]
    } else if value < 100 {
        seq![digit_char(value / 10), digit_char(value % 10)]
    } else {
        seq![digit_char(value / 100), digit_char((value / 10) % 10), digit_char(value % 10)]
    }
}

/// The dotted-quad text of an address.
pub open spec fn ipv4_text(a: u8, b: u8, c: u8, d: u8) -> Seq<char> {
    octet_text(a as int) + seq!['.'] + octet_text(b as int) + seq!['.'] + octet_text(c as int)
        + seq!['.'] + octet_text(d as int)
}

/// An octet's text sits in `s` at `start`, and whatever follows it is not
/// a digit — the place where one octet of a dotted quad can stand.
pub open spec fn octet_at(s: Seq<char>, start: int, value: int) -> bool {
    &&& 0 <= value <= 255
    &&& start + octet_text(value).len() <= s.len()
    &&& s.subrange(start, start + octet_text(value).len() as int) == octet_text(value)
    &&& (start + octet_text(value).len() < s.len() ==> !is_digit_char(
        s[start + octet_text(value).len() as int],
    ))
}

/// The value of a digit character.
fn digit_of(c: char) -> (value: Option<u8>)
    ensures
        value is Some <==> is_digit_char(c),
        value matches Some(v) ==> v <= 9 && c == digit_char(v as int),
{
    match c {
        '0' => Some(0),
        '1' => Some(1),
        '2' => Some(2),
        '3' => Some(3),
        '4' => Some(4),
        '5' => Some(5),
        '6' => Some(6),
        '7' => Some(7),
        '8' => Some(8),
        '9' => Some(9),
        _ => None,
    }
}

/// Reads one octet at `start`: at most three digits, no leading zero, no
/// digit following, value at most 255.  Exactly the octets that can stand
/// there are read, with where the text continues.
fn parse_octet(text: &str, start: usize) -> (result: Option<(u8, usize)>)
    requires
        start <= text@.len(),
    ensures
        result matches Some((value, end)) ==> octet_at(text@, start as int, value as int) && end
            as int == start as int + octet_text(value as int).len(),
        forall|v: int| octet_at(text@, start as int, v)
            ==> (result matches Some((value, end)) && value as int == v),
{
    let n = text.unicode_len();
    if start >= n {
        return None;
    }
    let d0 = match digit_of(text.get_char(start)) {
        Some(v) => v,
        None => {
            proof {
                assert forall|v: int| !octet_at(text@, start as int, v) by {
                    if octet_at(text@, start as int, v) {
                        assert(text@[start as int] == octet_text(v)[0]);
                    }
                }
            }
            return None;
        },
    };
    let second = if start + 1 < n {
        digit_of(text.get_char(start + 1))
    } else {
        None
    };
    let d1 = match second {
        Some(v) => v,
        None => {
            proof {
                assert(text@.subrange(start as int, start as int + 1) =~= seq![
                    digit_char(d0 as int),
                ]);
                assert(octet_at(text@, start as int, d0 as int));
                assert forall|v: int| octet_at(text@, start as int, v) implies v == d0 as int by {
                    assert(text@[start as int] == octet_text(v)[0]);
                    if v >= 10 {
                        assert(is_digit_char(text@[start as int + 1]));
                    }
                }
            }
            return Some((d0, start + 1));
        },
    };
    if d0 == 0 {
        proof {
            assert forall|v: int| !octet_at(text@, start as int, v) by {
                if octet_at(text@, start as int, v) {
                    assert(text@[start as int] == octet_text(v)[0]);
                    if v < 10 {
                        assert(!is_digit_char(text@[start as int + 1]));
                    } else if v < 100 {
                        assert(text@[start as int] == digit_char(v / 10));
                    } else {
                        assert(text@[start as int] == digit_char(v / 100));
                    }
                }
            }
        }
        return None;
    }
    let third = if start + 2 < n {
        digit_of(text.get_char(start + 2))
    } else {
        None
    };
    let d2 = match third {
        Some(v) => v,
        None => {
            let value: u8 = d0 * 10 + d1;
            proof {
                assert(value as int / 10 == d0 as int && value as int % 10 == d1 as int);
                assert(text@.subrange(start as int, start as int + 2) =~= seq![
                    digit_char(d0 as int),
                    digit_char(d1 as int),
                ]);
                assert(octet_at(text@, start as int, value as int));
                assert forall|v: int| octet_at(text@, start as int, v) implies v == value as int by {
                    assert(text@[start as int] == octet_text(v)[0]);
                    if v < 10 {
                        assert(!is_digit_char(text@[start as int + 1]));
                    } else if v < 100 {
                        assert(text@[start as int] == digit_char(v / 10));
                        assert(text@[start as int + 1] == digit_char(v % 10));
                    } else {
                        assert(text@[start as int + 1] == digit_char((v / 10) % 10));
                        assert(is_digit_char(text@[start as int + 2]));
                    }
                }
            }
            return Some((value, start + 2));
        },
    };
    let wide: u16 = (d0 as u16) * 100 + (d1 as u16) * 10 + (d2 as u16);
    if wide > 255 {
        proof {
            assert forall|v: int| !octet_at(text@, start as int, v) by {
                if octet_at(text@, start as int, v) {
                    assert(text@[start as int] == octet_text(v)[0]);
                    if v < 10 {
                        assert(!is_digit_char(text@[start as int + 1]));
                    } else if v < 100 {
                        assert(!is_digit_char(text@[start as int + 2]));
                    } else {
                        assert(text@[start as int] == digit_char(v / 100));
                        assert(text@[start as int + 1] == digit_char((v / 10) % 10));
                        assert(text@[start as int + 2] == digit_char(v % 10));
                        assert(v == (v / 100) * 100 + ((v / 10) % 10) * 10 + v % 10) by (nonlinear_arith);
                    }
                }
            }
        }
        return None;
    }
    let fourth_is_digit = if start + 3 < n {
        digit_of(text.get_char(start + 3)).is_some()
    } else {
        false
    };
    if fourth_is_digit {
        proof {
            assert forall|v: int| !octet_at(text@, start as int, v) by {
                if octet_at(text@, start as int, v) {
                    if v < 10 {
                        assert(!is_digit_char(text@[start as int + 1]));
                    } else if v < 100 {
                        assert(!is_digit_char(text@[start as int + 2]));
                    } else {
                        assert(!is_digit_char(text@[start as int + 3]));
                    }
                }
            }
        }
        return None;
    }
    let value: u8 = wide as u8;
    proof {
        assert(value as int == wide as int);
        assert(value as int / 100 == d0 as int && (value as int / 10) % 10 == d1 as int && value
            as int % 10 == d2 as int) by (nonlinear_arith)
            requires
                value as int == d0 as int * 100 + d1 as int * 10 + d2 as int,
                1 <= d0 as int <= 9,
                0 <= d1 as int <= 9,
                0 <= d2 as int <= 9;
        assert(text@.subrange(start as int, start as int + 3) =~= seq![
            digit_char(d0 as int),
            digit_char(d1 as int),
            digit_char(d2 as int),
        ]);
        assert(octet_at(text@, start as int, value as int));
        assert forall|v: int| octet_at(text@, start as int, v) implies v == value as int by {
            assert(text@[start as int] == octet_text(v)[0]);
            if v < 10 {
                assert(!is_digit_char(text@[start as int + 1]));
            } else if v < 100 {
                assert(!is_digit_char(text@[start as int + 2]));
            } else {
                assert(text@[start as int] == digit_char(v / 100));
                assert(text@[start as int + 1] == digit_char((v / 10) % 10));
                assert(text@[start as int + 2] == digit_char(v % 10));
                assert(v == (v / 100) * 100 + ((v / 10) % 10) * 10 + v % 10) by (nonlinear_arith);
            }
        }
    }
    Some((value, start + 3))
}

/// Parses a dotted-quad text: accepts a text exactly when it is the text
/// of an address, and then returns that address.
pub fn parse_ipv4(text: &str) -> (result: Option<Ipv4Address>)
    ensures
        result matches Some(ip) ==> text@ == ipv4_text(ip.a, ip.b, ip.c, ip.d),
        forall|a: u8, b: u8, c: u8, d: u8| text@ == ipv4_text(a, b, c, d)
            ==> (result matches Some(ip) && ip.a == a && ip.b == b && ip.c == c && ip.d == d),
{
    let ghost s = text@;
    let n = text.unicode_len();
    proof {
        lemma_ipv4_text_octets(s);
    }
    let (a, p1) = match parse_octet(text, 0) {
        Some(x) => x,
        None => {
            return None;
        },
    };
    if p1 >= n || text.get_char(p1) != '.' {
        return None;
    }
    let (b, p2) = match parse_octet(text, p1 + 1) {
        Some(x) => x,
        None => {
            return None;
        },
    };
    if p2 >= n || text.get_char(p2) != '.' {
        return None;
    }
    let (c, p3) = match parse_octet(text, p2 + 1) {
        Some(x) => x,
        None => {
            return None;
        },
    };
    if p3 >= n || text.get_char(p3) != '.' {
        return None;
    }
    let (d, p4) = match parse_octet(text, p3 + 1) {
        Some(x) => x,
        None => {
            return None;
        },
    };
    if p4 != n {
        return None;
    }
    let ip = Ipv4Address { a, b, c, d };
    proof {
        assert(s =~= octet_text(a as int) + seq!['.'] + octet_text(b as int) + seq!['.']
            + octet_text(c as int) + seq!['.'] + octet_text(d as int));
    }
    Some(ip)
}

/// In the text of an address, each octet stands where the parser looks for
/// it, with a dot or the end after it.
proof fn lemma_ipv4_text_octets(s: Seq<char>)
    ensures
        forall|a: u8, b: u8, c: u8, d: u8| s == #[trigger] ipv4_text(a, b, c, d) ==> {
            let la = octet_text(a as int).len() as int;
            let lb = octet_text(b as int).len() as int;
            let lc = octet_text(c as int).len() as int;
            let ld = octet_text(d as int).len() as int;
            &&& octet_at(s, 0, a as int)
            &&& s[la] == '.'
            &&& octet_at(s, la + 1, b as int)
            &&& s[la + 1 + lb] == '.'
            &&& octet_at(s, la + 1 + lb + 1, c as int)
            &&& s[la + 1 + lb + 1 + lc] == '.'
            &&& octet_at(s, la + 1 + lb + 1 + lc + 1, d as int)
            &&& s.len() == la + 1 + lb + 1 + lc + 1 + ld
        },
{
    assert forall|a: u8, b: u8, c: u8, d: u8| s == #[trigger] ipv4_text(a, b, c, d) implies {
        let la = octet_text(a as int).len() as int;
        let lb = octet_text(b as int).len() as int;
        let lc = octet_text(c as int).len() as int;
        let ld = octet_text(d as int).len() as int;
        &&& octet_at(s, 0, a as int)
        &&& s[la] == '.'
        &&& octet_at(s, la + 1, b as int)
        &&& s[la + 1 + lb] == '.'
        &&& octet_at(s, la + 1 + lb + 1, c as int)
        &&& s[la + 1 + lb + 1 + lc] == '.'
        &&& octet_at(s, la + 1 + lb + 1 + lc + 1, d as int)
        &&& s.len() == la + 1 + lb + 1 + lc + 1 + ld
    } by {
        let la = octet_text(a as int).len() as int;
        let lb = octet_text(b as int).len() as int;
        let lc = octet_text(c as int).len() as int;
        let ld = octet_text(d as int).len() as int;
        assert(s.subrange(0, la) =~= octet_text(a as int));
        assert(s.subrange(la + 1, la + 1 + lb) =~= octet_text(b as int));
        assert(s.subrange(la + 1 + lb + 1, la + 1 + lb + 1 + lc) =~= octet_text(c as int));
        assert(s.subrange(la + 1 + lb + 1 + lc + 1, la + 1 + lb + 1 + lc + 1 + ld) =~= octet_text(
            d as int,
        ));
        assert(!is_digit_char('.'));
    }
}

/// Reads an IPv4 address, falling back to the loopback address 127.0.0.1
/// on any text that is not a dotted quad.
pub fn parse_ip(ip_str: String) -> (ip: Ipv4Address)
    ensures
        forall|a: u8, b: u8, c: u8, d: u8| ip_str@ == ipv4_text(a, b, c, d)
            ==> ip == (Ipv4Address { a, b, c, d }),
        !(exists|a: u8, b: u8, c: u8, d: u8| ip_str@ == ipv4_text(a, b, c, d)) ==> ip == (
        Ipv4Address { a: 127, b: 0, c: 0, d: 1 }),
{
    match parse_ipv4(ip_str.as_str()) {
        Some(ip) => ip,
        None => Ipv4Address { a: 127, b: 0, c: 0, d: 1 },
    }
}

} // verus!

//! IPv4 addresses and their dotted-decimal text form.

use vstd::prelude::*;

use crate::text::{chars_of, push_char};

verus! {

/// An IPv4 address, held as its four octets in network order.
#[derive(Debug, Clone, Copy, PartialEq, Eq, Structural)]
pub struct Ipv4Address {
    pub a: u8,
    pub b: u8,
    pub c: u8,
    pub d: u8,
}

/// The text is not the dotted-decimal form of any IPv4 address.
#[derive(Debug, Clone, Copy, PartialEq, Eq, Structural)]
pub struct AddrParseError;

/// An ASCII decimal digit.
pub open spec fn is_digit(c: char) -> bool {
    '0' <= c && c <= '9'
}

/// The value of the decimal digit `c`.
pub open spec fn digit_value(c: char) -> int {
    (c as int) - ('0' as int)
}

/// The decimal digit whose value is `d` (for `0 <= d < 10`).
pub open spec fn digit_char(d: int) -> char {
    ((d + ('0' as int)) as u32) as char
}

/// The value of a string of decimal digits, most significant first.
pub open spec fn digits_value(s: Seq<char>) -> int
    decreases s.len(),
{
    if s.len() == 0 {
        0
    } else {
        10 * digits_value(s.drop_last()) + digit_value(s.last())
    }
}

/// The decimal text of an octet: no sign, no leading zero.
pub open spec fn octet_text(n: u8) -> Seq<char> {
    if n < 10 {
        seq![digit_char(n as int)]
    } else if n < 100 {
        seq![digit_char(n as int / 10), digit_char(n as int % 10)]
    } else {
        seq![digit_char(n as int / 100), digit_char((n as int / 10) % 10), digit_char(n as int % 10)]
    }
}

/// The dotted-decimal text of an address, such as `127.0.0.1`.
pub open spec fn ipv4_text(ip: Ipv4Address) -> Seq<char> {
    octet_text(ip.a) + seq!['.'] + octet_text(ip.b) + seq!['.'] + octet_text(ip.c) + seq!['.']
        + octet_text(ip.d)
}

/// The address whose dotted-decimal text is `s`, if there is one.
pub open spec fn parse_ipv4(s: Seq<char>) -> Option<Ipv4Address> {
    if exists|ip: Ipv4Address| ipv4_text(ip) == s {
        Some(choose|ip: Ipv4Address| ipv4_text(ip) == s)
    } else {
        None
    }
}

/// `v` holds the text of the octet `x` at `start`, and no further digit follows it.
pub open spec fn octet_at(v: Seq<char>, start: int, x: u8) -> bool {
    let end = start + octet_text(x).len();
    &&& 0 <= start
    &&& end <= v.len()
    &&& v.subrange(start, end) == octet_text(x)
    &&& (end == v.len() || !is_digit(v[end]))
}

proof fn lemma_digit_char(d: int)
    requires
        0 <= d < 10,
    ensures
        is_digit(digit_char(d)),
        digit_value(digit_char(d)) == d,
{
}

proof fn lemma_digit_roundtrip(c: char)
    requires
        is_digit(c),
    ensures
        digit_char(digit_value(c)) == c,
{
}

/// Facts about the text of an octet.
pub proof fn lemma_octet_text(n: u8)
    ensures
        1 <= octet_text(n).len() <= 3,
        forall|i: int| 0 <= i < octet_text(n).len() ==> is_digit(#[trigger] octet_text(n)[i]),
        octet_text(n).len() > 1 ==> octet_text(n)[0] != '0',
        digits_value(octet_text(n)) == n,
{
    let t = octet_text(n);
    let m = n as int;
    lemma_digit_char(m % 10);
    if n >= 10 && n < 100 {
        lemma_digit_char(m / 10);
    }
    if n >= 100 {
        lemma_digit_char(m / 100);
        lemma_digit_char((m / 10) % 10);
    }
    lemma_small_digits_value(t);
}

/// The value of a one, two or three digit string.
proof fn lemma_small_digits_value(r: Seq<char>)
    requires
        1 <= r.len() <= 3,
    ensures
        r.len() == 1 ==> digits_value(r) == digit_value(r[0]),
        r.len() == 2 ==> digits_value(r) == 10 * digit_value(r[0]) + digit_value(r[1]),
        r.len() == 3 ==> digits_value(r) == 100 * digit_value(r[0]) + 10 * digit_value(r[1])
            + digit_value(r[2]),
{
    reveal_with_fuel(digits_value, 4);
    if r.len() == 1 {
        assert(r.drop_last() =~= Seq::<char>::empty());
    } else if r.len() == 2 {
        assert(r.drop_last().drop_last() =~= Seq::<char>::empty());
        assert(r.drop_last() =~= seq![r[0]]);
        assert(digits_value(r.drop_last()) == digit_value(r[0]));
    } else {
        assert(r.drop_last().drop_last().drop_last() =~= Seq::<char>::empty());
        assert(r.drop_last().drop_last() =~= seq![r[0]]);
        assert(r.drop_last() =~= seq![r[0], r[1]]);
        assert(digits_value(r.drop_last().drop_last()) == digit_value(r[0]));
        assert(digits_value(r.drop_last()) == 10 * digit_value(r[0]) + digit_value(r[1]));
    }
}

/// A digit string of at most three digits, without a leading zero, whose value fits an
/// octet, is the text of that octet.
pub proof fn lemma_canonical_octet(r: Seq<char>)
    requires
        1 <= r.len() <= 3,
        forall|i: int| 0 <= i < r.len() ==> is_digit(#[trigger] r[i]),
        r.len() > 1 ==> r[0] != '0',
        0 <= digits_value(r) <= 255,
    ensures
        r == octet_text(digits_value(r) as u8),
{
    let v = digits_value(r);
    lemma_small_digits_value(r);
    lemma_digit_roundtrip(r[0]);
    if r.len() >= 2 {
        lemma_digit_roundtrip(r[1]);
    }
    if r.len() == 3 {
        lemma_digit_roundtrip(r[2]);
    }
    if r.len() == 1 {
        assert(r =~= octet_text(v as u8));
    } else if r.len() == 2 {
        assert(v / 10 == digit_value(r[0]));
        assert(v % 10 == digit_value(r[1]));
        assert(r =~= octet_text(v as u8));
    } else {
        assert(v / 100 == digit_value(r[0]));
        assert((v / 10) % 10 == digit_value(r[1]));
        assert(v % 10 == digit_value(r[2]));
        assert(r =~= octet_text(v as u8));
    }
}

/// Distinct octets have distinct texts.
pub proof fn lemma_octet_text_injective(x: u8, y: u8)
    requires
        octet_text(x) == octet_text(y),
    ensures
        x == y,
{
    lemma_octet_text(x);
    lemma_octet_text(y);
}

/// At a given position at most one octet text can stand as a maximal digit run.
pub proof fn lemma_octet_at_unique(v: Seq<char>, start: int, x: u8, y: u8)
    requires
        octet_at(v, start, x),
        octet_at(v, start, y),
    ensures
        x == y,
{
    lemma_octet_text(x);
    lemma_octet_text(y);
    let lx = octet_text(x).len() as int;
    let ly = octet_text(y).len() as int;
    if lx < ly {
        assert(v[start + lx] == octet_text(y)[lx]);
    } else if ly < lx {
        assert(v[start + ly] == octet_text(x)[ly]);
    }
    lemma_octet_text_injective(x, y);
}

/// Where each piece of an address text stands.
pub proof fn lemma_ipv4_text_layout(ip: Ipv4Address)
    ensures
        ({
            let v = ipv4_text(ip);
            let e1 = octet_text(ip.a).len() as int;
            let e2 = e1 + 1 + octet_text(ip.b).len();
            let e3 = e2 + 1 + octet_text(ip.c).len();
            &&& octet_at(v, 0, ip.a)
            &&& v[e1] == '.'
            &&& octet_at(v, e1 + 1, ip.b)
            &&& v[e2] == '.'
            &&& octet_at(v, e2 + 1, ip.c)
            &&& v[e3] == '.'
            &&& octet_at(v, e3 + 1, ip.d)
            &&& e3 + 1 + octet_text(ip.d).len() == v.len()
        }),
{
    let v = ipv4_text(ip);
    let ta = octet_text(ip.a);
    let tb = octet_text(ip.b);
    let tc = octet_text(ip.c);
    let td = octet_text(ip.d);
    lemma_octet_text(ip.a);
    lemma_octet_text(ip.b);
    lemma_octet_text(ip.c);
    lemma_octet_text(ip.d);
    let e1 = ta.len() as int;
    let e2 = e1 + 1 + tb.len();
    let e3 = e2 + 1 + tc.len();
    assert(v.subrange(0, e1) =~= ta);
    assert(v.subrange(e1 + 1, e2) =~= tb);
    assert(v.subrange(e2 + 1, e3) =~= tc);
    assert(v.subrange(e3 + 1, v.len() as int) =~= td);
}

/// The address text determines the address.
pub proof fn lemma_ipv4_text_injective(x: Ipv4Address, y: Ipv4Address)
    requires
        ipv4_text(x) == ipv4_text(y),
    ensures
        x == y,
{
    let v = ipv4_text(x);
    lemma_ipv4_text_layout(x);
    lemma_ipv4_text_layout(y);
    lemma_octet_at_unique(v, 0, x.a, y.a);
    let e1 = octet_text(x.a).len() as int;
    lemma_octet_at_unique(v, e1 + 1, x.b, y.b);
    let e2 = e1 + 1 + octet_text(x.b).len();
    lemma_octet_at_unique(v, e2 + 1, x.c, y.c);
    let e3 = e2 + 1 + octet_text(x.c).len();
    lemma_octet_at_unique(v, e3 + 1, x.d, y.d);
}

/// Reading back the text of an address gives the address.
pub proof fn law_parse_of_text(ip: Ipv4Address)
    ensures
        parse_ipv4(ipv4_text(ip)) == Some(ip),
{
    let s = ipv4_text(ip);
    assert(exists|x: Ipv4Address| ipv4_text(x) == s);
    let x = choose|x: Ipv4Address| ipv4_text(x) == s;
    lemma_ipv4_text_injective(x, ip);
}

/// Only the canonical form is read: a text that reads as an address is that address's
/// text, so writing the address back gives the same text.
pub proof fn law_text_of_parse(s: Seq<char>)
    ensures
        parse_ipv4(s) matches Some(ip) ==> ipv4_text(ip) == s,
{
}

/// Appends the decimal text of `n`.
fn push_octet(s: &mut String, n: u8)
    ensures
        final(s)@ == old(s)@ + octet_text(n),
{
    if n >= 100 {
        push_char(s, ((n / 100) + 48) as char);
    }
    if n >= 10 {
        push_char(s, (((n / 10) % 10) + 48) as char);
    }
    push_char(s, ((n % 10) + 48) as char);
    assert(s@ =~= old(s)@ + octet_text(n));
}

/// Reads the octet whose text starts at `start` and runs to the end of the digits there.
fn parse_octet(v: &Vec<char>, start: usize) -> (r: Option<(u8, usize)>)
    requires
        start <= v@.len(),
    ensures
        r matches Some((x, end)) ==> octet_at(v@, start as int, x) && end == start
            + octet_text(x).len(),
        r is None ==> forall|x: u8| !octet_at(v@, start as int, x),
{
    let n = v.len();
    let mut j = start;
    let mut value: u32 = 0;
    while j < n && '0' <= v[j] && v[j] <= '9' && j - start < 4
        invariant
            start <= j <= n == v@.len(),
            j - start <= 4,
            value == digits_value(v@.subrange(start as int, j as int)),
            j - start <= 1 ==> value < 10,
            j - start <= 2 ==> value < 100,
            j - start <= 3 ==> value < 1000,
            value < 10000,
            forall|i: int| start <= i < j ==> is_digit(#[trigger] v@[i]),
        decreases n - j,
    {
        let d = (v[j] as u32) - 48;
        proof {
            let s = v@.subrange(start as int, j + 1);
            assert(s.drop_last() =~= v@.subrange(start as int, j as int));
        }
        value = value * 10 + d;
        j = j + 1;
    }
    let len = j - start;
    let run = Ghost(v@.subrange(start as int, j as int));
    proof {
        assert forall|i: int| 0 <= i < run@.len() implies is_digit(#[trigger] run@[i]) by {
            assert(run@[i] == v@[start + i]);
        }
    }
    if len == 0 || len > 3 || (len > 1 && v[start] == '0') || value > 255 {
        proof {
            assert forall|x: u8| !octet_at(v@, start as int, x) by {
                if octet_at(v@, start as int, x) {
                    lemma_octet_text(x);
                    let t = octet_text(x);
                    let lt = t.len() as int;
                    assert forall|i: int| start <= i < start + lt implies is_digit(#[trigger] v@[i]) by {
                        assert(v@[i] == t[i - start]);
                    }
                    if len < lt {
                        // the run stopped early: either a digit limit or a non-digit inside `t`
                        assert(len == 4);
                    } else if len > lt {
                        assert(is_digit(v@[start + lt]));
                    } else {
                        assert(run@ =~= t);
                        if len > 1 {
                            assert(v@[start as int] == t[0]);
                        }
                    }
                }
            }
        }
        None
    } else {
        proof {
            assert(run@.len() > 1 ==> run@[0] == v@[start as int]);
            lemma_canonical_octet(run@);
        }
        Some((value as u8, j))
    }
}

/// The positions at which an address whose text is `v` has its pieces, given the first
/// octets it must have.
proof fn lemma_match_steps(v: Seq<char>, ip: Ipv4Address)
    requires
        ipv4_text(ip) == v,
    ensures
        ({
            let e1 = octet_text(ip.a).len() as int;
            let e2 = e1 + 1 + octet_text(ip.b).len();
            let e3 = e2 + 1 + octet_text(ip.c).len();
            &&& octet_at(v, 0, ip.a)
            &&& e1 < v.len() && v[e1] == '.'
            &&& octet_at(v, e1 + 1, ip.b)
            &&& e2 < v.len() && v[e2] == '.'
            &&& octet_at(v, e2 + 1, ip.c)
            &&& e3 < v.len() && v[e3] == '.'
            &&& octet_at(v, e3 + 1, ip.d)
            &&& e3 + 1 + octet_text(ip.d).len() == v.len()
        }),
{
    lemma_ipv4_text_layout(ip);
    lemma_octet_text(ip.d);
}

impl Ipv4Address {
    /// Builds the address `a.b.c.d`.
    pub fn new(a: u8, b: u8, c: u8, d: u8) -> (ip: Ipv4Address)
        ensures
            ip == (Ipv4Address { a, b, c, d }),
    {
        Ipv4Address { a, b, c, d }
    }

    /// The four octets, in network order.
    pub fn octets(&self) -> (o: [u8; 4])
        ensures
            o@ == seq![self.a, self.b, self.c, self.d],
    {
        let o = [self.a, self.b, self.c, self.d];
        assert(o@ =~= seq![self.a, self.b, self.c, self.d]);
        o
    }

    /// Reads an address in dotted-decimal form, as `std::net::Ipv4Addr` does: exactly four
    /// decimal octets separated by dots, each at most 255, without sign or leading zero.
    pub fn parse(s: &str) -> (r: Result<Ipv4Address, AddrParseError>)
        ensures
            r matches Ok(ip) ==> parse_ipv4(s@) == Some(ip),
            r is Err <==> parse_ipv4(s@) is None,
    {
        let v = chars_of(s);
        let n = v.len();
        let (a, e1) = match parse_octet(&v, 0) {
            Some(p) => p,
            None => {
                proof {
                    assert forall|ip: Ipv4Address| ipv4_text(ip) != s@ by {
                        if ipv4_text(ip) == s@ {
                            lemma_match_steps(v@, ip);
                        }
                    }
                }
                return Err(AddrParseError);
            },
        };
        if e1 >= n || v[e1] != '.' {
            proof {
                assert forall|ip: Ipv4Address| ipv4_text(ip) != s@ by {
                    if ipv4_text(ip) == s@ {
                        lemma_match_steps(v@, ip);
                        lemma_octet_at_unique(v@, 0, a, ip.a);
                    }
                }
            }
            return Err(AddrParseError);
        }
        let (b, e2) = match parse_octet(&v, e1 + 1) {
            Some(p) => p,
            None => {
                proof {
                    assert forall|ip: Ipv4Address| ipv4_text(ip) != s@ by {
                        if ipv4_text(ip) == s@ {
                            lemma_match_steps(v@, ip);
                            lemma_octet_at_unique(v@, 0, a, ip.a);
                        }
                    }
                }
                return Err(AddrParseError);
            },
        };
        if e2 >= n || v[e2] != '.' {
            proof {
                assert forall|ip: Ipv4Address| ipv4_text(ip) != s@ by {
                    if ipv4_text(ip) == s@ {
                        lemma_match_steps(v@, ip);
                        lemma_octet_at_unique(v@, 0, a, ip.a);
                        lemma_octet_at_unique(v@, e1 + 1, b, ip.b);
                    }
                }
            }
            return Err(AddrParseError);
        }
        let (c, e3) = match parse_octet(&v, e2 + 1) {
            Some(p) => p,
            None => {
                proof {
                    assert forall|ip: Ipv4Address| ipv4_text(ip) != s@ by {
                        if ipv4_text(ip) == s@ {
                            lemma_match_steps(v@, ip);
                            lemma_octet_at_unique(v@, 0, a, ip.a);
                            lemma_octet_at_unique(v@, e1 + 1, b, ip.b);
                        }
                    }
                }
                return Err(AddrParseError);
            },
        };
        if e3 >= n || v[e3] != '.' {
            proof {
                assert forall|ip: Ipv4Address| ipv4_text(ip) != s@ by {
                    if ipv4_text(ip) == s@ {
                        lemma_match_steps(v@, ip);
                        lemma_octet_at_unique(v@, 0, a, ip.a);
                        lemma_octet_at_unique(v@, e1 + 1, b, ip.b);
                        lemma_octet_at_unique(v@, e2 + 1, c, ip.c);
                    }
                }
            }
            return Err(AddrParseError);
        }
        let (d, e4) = match parse_octet(&v, e3 + 1) {
            Some(p) => p,
            None => {
                proof {
                    assert forall|ip: Ipv4Address| ipv4_text(ip) != s@ by {
                        if ipv4_text(ip) == s@ {
                            lemma_match_steps(v@, ip);
                            lemma_octet_at_unique(v@, 0, a, ip.a);
                            lemma_octet_at_unique(v@, e1 + 1, b, ip.b);
                            lemma_octet_at_unique(v@, e2 + 1, c, ip.c);
                        }
                    }
                }
                return Err(AddrParseError);
            },
        };
        if e4 != n {
            proof {
                assert forall|ip: Ipv4Address| ipv4_text(ip) != s@ by {
                    if ipv4_text(ip) == s@ {
                        lemma_match_steps(v@, ip);
                        lemma_octet_at_unique(v@, 0, a, ip.a);
                        lemma_octet_at_unique(v@, e1 + 1, b, ip.b);
                        lemma_octet_at_unique(v@, e2 + 1, c, ip.c);
                        lemma_octet_at_unique(v@, e3 + 1, d, ip.d);
                    }
                }
            }
            return Err(AddrParseError);
        }
        let ip = Ipv4Address { a, b, c, d };
        proof {
            let t = ipv4_text(ip);
            lemma_ipv4_text_layout(ip);
            assert(t.len() == v@.len());
            assert forall|i: int| 0 <= i < t.len() implies t[i] == v@[i] by {
                if i < e1 {
                    assert(v@.subrange(0, e1 as int)[i] == v@[i]);
                    assert(t.subrange(0, e1 as int)[i] == t[i]);
                } else if i == e1 {
                } else if i < e2 {
                    assert(v@.subrange(e1 + 1, e2 as int)[i - e1 - 1] == v@[i]);
                    assert(t.subrange(e1 + 1, e2 as int)[i - e1 - 1] == t[i]);
                } else if i == e2 {
                } else if i < e3 {
                    assert(v@.subrange(e2 + 1, e3 as int)[i - e2 - 1] == v@[i]);
                    assert(t.subrange(e2 + 1, e3 as int)[i - e2 - 1] == t[i]);
                } else if i == e3 {
                } else {
                    assert(v@.subrange(e3 + 1, e4 as int)[i - e3 - 1] == v@[i]);
                    assert(t.subrange(e3 + 1, e4 as int)[i - e3 - 1] == t[i]);
                }
            }
            assert(t =~= v@);
            let x = choose|x: Ipv4Address| ipv4_text(x) == s@;
            lemma_ipv4_text_injective(x, ip);
        }
        Ok(ip)
    }

    /// The dotted-decimal text of the address, such as `127.0.0.1`.
    pub fn to_string(&self) -> (s: String)
        ensures
            s@ == ipv4_text(*self),
    {
        let mut s = String::new();
        push_octet(&mut s, self.a);
        push_char(&mut s, '.');
        push_octet(&mut s, self.b);
        push_char(&mut s, '.');
        push_octet(&mut s, self.c);
        push_char(&mut s, '.');
        push_octet(&mut s, self.d);
        assert(s@ =~= ipv4_text(*self));
        s
    }
}

} // verus!

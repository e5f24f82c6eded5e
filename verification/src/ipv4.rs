//! IPv4 addresses and their canonical dotted-decimal text form.
//!
//! The portal embeds the caller's address as text in HTML and expects it as
//! text in form submissions, so the library needs both directions: a verified
//! parser that accepts exactly the canonical dotted-decimal literals (four
//! decimal octets, no leading zeros, each at most 255) and a verified
//! formatter that produces them.

use vstd::prelude::*;
use vstd::string::StrSliceExecFns;
use vstd::string::StringExecFns;

verus! {

/// An IPv4 address as its four octets, most significant first.
#[derive(Clone, Copy, PartialEq, Eq, Structural, Debug)]
pub struct Ipv4Address {
    pub a: u8,
    pub b: u8,
    pub c: u8,
    pub d: u8,
}

/// The decimal digit characters.
pub open spec fn is_digit_char(c: char) -> bool {
    c == '0' || c == '1' || c == '2' || c == '3' || c == '4' || c == '5' || c == '6' || c == '7'
        || c == '8' || c == '9'
}

/// Numeric value of a decimal digit character.
pub open spec fn digit_val(c: char) -> int {
    if c == '0' {
        0
    } else if c == '1' {
        1
    } else if c == '2' {
        2
    } else if c == '3' {
        3
    } else if c == '4' {
        4
    } else if c == '5' {
        5
    } else if c == '6' {
        6
    } else if c == '7' {
        7
    } else if c == '8' {
        8
    } else {
        9
    }
}

/// Decimal digit character for a value between 0 and 9.
pub open spec fn digit_char(d: int) -> char {
    if d == 0 {
        '0'
    } else if d == 1 {
        '1'
    } else if d == 2 {
        '2'
    } else if d == 3 {
        '3'
    } else if d == 4 {
        '4'
    } else if d == 5 {
        '5'
    } else if d == 6 {
        '6'
    } else if d == 7 {
        '7'
    } else if d == 8 {
        '8'
    } else {
        '9'
    }
}

/// Canonical decimal text of one octet: no leading zeros, one to three digits.
pub open spec fn octet_chars(v: u8) -> Seq<char> {
    if v < 10 {
        seq![digit_char(v as int)]
    } else if v < 100 {
        seq![digit_char(v as int / 10), digit_char(v as int % 10)]
    } else {
        seq![
            digit_char(v as int / 100),
            digit_char((v as int / 10) % 10),
            digit_char(v as int % 10),
        ]
    }
}

/// Canonical dotted-decimal text of an address.
pub open spec fn ipv4_chars(ip: Ipv4Address) -> Seq<char> {
    octet_chars(ip.a) + seq!['.'] + octet_chars(ip.b) + seq!['.'] + octet_chars(ip.c) + seq!['.']
        + octet_chars(ip.d)
}

/// The address whose canonical text is `s`, if there is one.
pub open spec fn parse_ipv4_spec(s: Seq<char>) -> Option<Ipv4Address> {
    if exists|ip: Ipv4Address| s == ipv4_chars(ip) {
        Some(choose|ip: Ipv4Address| s == ipv4_chars(ip))
    } else {
        None
    }
}

/// The canonical text of octet `v` stands in `s` at position `i` and is not
/// followed by a further digit.
pub open spec fn octet_at(s: Seq<char>, i: int, v: u8) -> bool {
    let r = octet_chars(v);
    &&& 0 <= i
    &&& i + r.len() <= s.len()
    &&& s.subrange(i, i + r.len()) == r
    &&& (i + r.len() == s.len() || !is_digit_char(s[i + r.len()]))
}

/// Digit characters round-trip through their numeric value.
proof fn lemma_digit_char_val(d: int)
    requires
        0 <= d <= 9,
    ensures
        is_digit_char(digit_char(d)),
        digit_val(digit_char(d)) == d,
{
}

/// Numeric values of digit characters round-trip through `digit_char`.
proof fn lemma_digit_val_char(c: char)
    requires
        is_digit_char(c),
    ensures
        0 <= digit_val(c) <= 9,
        digit_char(digit_val(c)) == c,
{
}

/// Shape and value of the canonical text of one octet.
proof fn lemma_octet_chars_props(v: u8)
    ensures
        1 <= octet_chars(v).len() <= 3,
        forall|k: int| 0 <= k < octet_chars(v).len() ==> is_digit_char(#[trigger] octet_chars(v)[k]),
        octet_chars(v).len() >= 2 ==> octet_chars(v)[0] != '0',
        octet_chars(v).len() == 1 ==> v as int == digit_val(octet_chars(v)[0]),
        octet_chars(v).len() == 2 ==> v as int == 10 * digit_val(octet_chars(v)[0]) + digit_val(
            octet_chars(v)[1],
        ),
        octet_chars(v).len() == 3 ==> v as int == 100 * digit_val(octet_chars(v)[0]) + 10
            * digit_val(octet_chars(v)[1]) + digit_val(octet_chars(v)[2]),
        (octet_chars(v).len() == 1 <==> v < 10),
        (octet_chars(v).len() == 2 <==> 10 <= v < 100),
        (octet_chars(v).len() == 3 <==> v >= 100),
{
    if v < 10 {
        lemma_digit_char_val(v as int);
    } else if v < 100 {
        lemma_digit_char_val(v as int / 10);
        lemma_digit_char_val(v as int % 10);
        assert(v as int / 10 >= 1);
    } else {
        lemma_digit_char_val(v as int / 100);
        lemma_digit_char_val((v as int / 10) % 10);
        lemma_digit_char_val(v as int % 10);
        assert(v as int / 100 >= 1);
        assert(100 * (v as int / 100) + 10 * ((v as int / 10) % 10) + v as int % 10 == v as int);
    }
}

/// At a given position of a given text, at most one octet value can stand.
proof fn lemma_octet_at_unique(s: Seq<char>, i: int, v1: u8, v2: u8)
    requires
        octet_at(s, i, v1),
        octet_at(s, i, v2),
    ensures
        v1 == v2,
{
    lemma_octet_chars_props(v1);
    lemma_octet_chars_props(v2);
    let r1 = octet_chars(v1);
    let r2 = octet_chars(v2);
    if r1.len() < r2.len() {
        assert(s[i + r1.len()] == r2[r1.len() as int]);
        assert(is_digit_char(r2[r1.len() as int]));
    } else if r2.len() < r1.len() {
        assert(s[i + r2.len()] == r1[r2.len() as int]);
        assert(is_digit_char(r1[r2.len() as int]));
    } else {
        assert(r1 == r2);
        assert(forall|k: int| 0 <= k < r1.len() ==> r1[k] == r2[k]);
    }
}

/// Position of the second octet in the canonical text of `ip`.
pub open spec fn ipv4_pos_b(ip: Ipv4Address) -> int {
    octet_chars(ip.a).len() as int + 1
}

/// Position of the third octet in the canonical text of `ip`.
pub open spec fn ipv4_pos_c(ip: Ipv4Address) -> int {
    ipv4_pos_b(ip) + octet_chars(ip.b).len() as int + 1
}

/// Position of the fourth octet in the canonical text of `ip`.
pub open spec fn ipv4_pos_d(ip: Ipv4Address) -> int {
    ipv4_pos_c(ip) + octet_chars(ip.c).len() as int + 1
}

/// Reading the canonical text of an address back off the text: each octet
/// stands at its place, separated by dots, and the last octet ends the text.
proof fn lemma_ipv4_chars_structure(ip: Ipv4Address, s: Seq<char>)
    requires
        s == ipv4_chars(ip),
    ensures
        s.len() == ipv4_pos_d(ip) + octet_chars(ip.d).len(),
        octet_at(s, 0, ip.a),
        s[ipv4_pos_b(ip) - 1] == '.',
        octet_at(s, ipv4_pos_b(ip), ip.b),
        s[ipv4_pos_c(ip) - 1] == '.',
        octet_at(s, ipv4_pos_c(ip), ip.c),
        s[ipv4_pos_d(ip) - 1] == '.',
        octet_at(s, ipv4_pos_d(ip), ip.d),
{
    let la = octet_chars(ip.a).len() as int;
    let lb = octet_chars(ip.b).len() as int;
    let lc = octet_chars(ip.c).len() as int;
    let ld = octet_chars(ip.d).len() as int;
    lemma_octet_chars_props(ip.a);
    lemma_octet_chars_props(ip.b);
    lemma_octet_chars_props(ip.c);
    lemma_octet_chars_props(ip.d);
    assert(s.subrange(0, la) =~= octet_chars(ip.a));
    assert(s.subrange(la + 1, la + 1 + lb) =~= octet_chars(ip.b));
    assert(s.subrange(la + lb + 2, la + lb + 2 + lc) =~= octet_chars(ip.c));
    assert(s.subrange(la + lb + lc + 3, la + lb + lc + 3 + ld) =~= octet_chars(ip.d));
    assert(s[la] == '.');
    assert(s[la + lb + 1] == '.');
    assert(s[la + lb + lc + 2] == '.');
}

/// Putting the canonical text of an address together from its pieces: octets
/// at their places, dots between them, nothing after the last octet.
proof fn lemma_ipv4_chars_assemble(s: Seq<char>, ip: Ipv4Address)
    requires
        octet_at(s, 0, ip.a),
        s[ipv4_pos_b(ip) - 1] == '.',
        octet_at(s, ipv4_pos_b(ip), ip.b),
        s[ipv4_pos_c(ip) - 1] == '.',
        octet_at(s, ipv4_pos_c(ip), ip.c),
        s[ipv4_pos_d(ip) - 1] == '.',
        octet_at(s, ipv4_pos_d(ip), ip.d),
        s.len() == ipv4_pos_d(ip) + octet_chars(ip.d).len(),
    ensures
        s == ipv4_chars(ip),
{
    let la = octet_chars(ip.a).len() as int;
    let lb = octet_chars(ip.b).len() as int;
    let lc = octet_chars(ip.c).len() as int;
    let ld = octet_chars(ip.d).len() as int;
    assert forall|i: int| 0 <= i < s.len() implies s[i] == ipv4_chars(ip)[i] by {
        if i < la {
            assert(s.subrange(0, la)[i] == s[i]);
        } else if i == la {
        } else if i < la + 1 + lb {
            assert(s.subrange(la + 1, la + 1 + lb)[i - (la + 1)] == s[i]);
        } else if i == la + lb + 1 {
        } else if i < la + lb + 2 + lc {
            assert(s.subrange(la + lb + 2, la + lb + 2 + lc)[i - (la + lb + 2)] == s[i]);
        } else if i == la + lb + lc + 2 {
        } else {
            assert(s.subrange(la + lb + lc + 3, la + lb + lc + 3 + ld)[i - (la + lb + lc + 3)]
                == s[i]);
        }
    }
    assert(s =~= ipv4_chars(ip));
}

/// Two addresses with the same canonical text are the same address.
pub proof fn lemma_ipv4_chars_injective(ip1: Ipv4Address, ip2: Ipv4Address)
    requires
        ipv4_chars(ip1) == ipv4_chars(ip2),
    ensures
        ip1 == ip2,
{
    let s = ipv4_chars(ip1);
    lemma_ipv4_chars_structure(ip1, s);
    lemma_ipv4_chars_structure(ip2, s);
    lemma_octet_at_unique(s, 0, ip1.a, ip2.a);
    lemma_octet_at_unique(s, ipv4_pos_b(ip1), ip1.b, ip2.b);
    lemma_octet_at_unique(s, ipv4_pos_c(ip1), ip1.c, ip2.c);
    lemma_octet_at_unique(s, ipv4_pos_d(ip1), ip1.d, ip2.d);
}

/// Every character of the canonical text of an address is a digit or a dot.
pub proof fn lemma_ipv4_chars_digits_or_dots(ip: Ipv4Address)
    ensures
        forall|k: int|
            0 <= k < ipv4_chars(ip).len() ==> is_digit_char(#[trigger] ipv4_chars(ip)[k])
                || ipv4_chars(ip)[k] == '.',
{
    let s = ipv4_chars(ip);
    let la = octet_chars(ip.a).len() as int;
    let lb = octet_chars(ip.b).len() as int;
    let lc = octet_chars(ip.c).len() as int;
    let ld = octet_chars(ip.d).len() as int;
    lemma_ipv4_chars_structure(ip, s);
    lemma_octet_chars_props(ip.a);
    lemma_octet_chars_props(ip.b);
    lemma_octet_chars_props(ip.c);
    lemma_octet_chars_props(ip.d);
    assert forall|k: int| 0 <= k < s.len() implies is_digit_char(#[trigger] s[k]) || s[k]
        == '.' by {
        if k < la {
            assert(s.subrange(0, la)[k] == s[k]);
            assert(is_digit_char(octet_chars(ip.a)[k]));
        } else if k == la {
        } else if k < la + 1 + lb {
            assert(s.subrange(la + 1, la + 1 + lb)[k - (la + 1)] == s[k]);
            assert(is_digit_char(octet_chars(ip.b)[k - (la + 1)]));
        } else if k == la + lb + 1 {
        } else if k < la + lb + 2 + lc {
            assert(s.subrange(la + lb + 2, la + lb + 2 + lc)[k - (la + lb + 2)] == s[k]);
            assert(is_digit_char(octet_chars(ip.c)[k - (la + lb + 2)]));
        } else if k == la + lb + lc + 2 {
        } else {
            assert(s.subrange(la + lb + lc + 3, la + lb + lc + 3 + ld)[k - (la + lb + lc + 3)]
                == s[k]);
            assert(is_digit_char(octet_chars(ip.d)[k - (la + lb + lc + 3)]));
        }
    }
}

/// Law: parsing the canonical text of any address gives back exactly that
/// address; together with the contracts of `parse_ipv4` and `format_ipv4`,
/// formatting and re-parsing is the identity.
pub proof fn lemma_parse_of_canonical(ip: Ipv4Address)
    ensures
        parse_ipv4_spec(ipv4_chars(ip)) == Some(ip),
{
    let other = choose|x: Ipv4Address| ipv4_chars(ip) == ipv4_chars(x);
    assert(ipv4_chars(ip) == ipv4_chars(ip));
    lemma_ipv4_chars_injective(ip, other);
}

/// Numeric value of `c` if it is a decimal digit.
fn digit_of(c: char) -> (r: Option<u8>)
    ensures
        match r {
            Some(d) => is_digit_char(c) && d == digit_val(c),
            None => !is_digit_char(c),
        },
{
    match c {
        '0' => Some(0),
        '1' => Some(1),
        '2' => Some(2),
        '3' => Some(3),
        '4' => Some(4),
        '5' => Some(5),
        '6' => Some(6),
        '7' => Some(7),
        '8' => Some(8),
        '9' => Some(9),
        _ => None,
    }
}

/// Parses the canonical octet starting at character position `start` of `s`,
/// returning its value and the position just past its digits.
fn parse_octet(s: &str, start: usize) -> (r: Option<(u8, usize)>)
    requires
        start <= s@.len(),
    ensures
        match r {
            Some(pair) => {
                &&& octet_at(s@, start as int, pair.0)
                &&& pair.1 == start + octet_chars(pair.0).len()
                &&& pair.1 <= s@.len()
            },
            None => forall|v: u8| !octet_at(s@, start as int, v),
        },
{
    let len = s.unicode_len();
    if start >= len {
        proof {
            assert forall|v: u8| !octet_at(s@, start as int, v) by {
                lemma_octet_chars_props(v);
            }
        }
        return None;
    }
    let c0 = s.get_char(start);
    let d0 = match digit_of(c0) {
        Some(d) => d,
        None => {
            proof {
                assert forall|v: u8| !octet_at(s@, start as int, v) by {
                    lemma_octet_chars_props(v);
                    if octet_at(s@, start as int, v) {
                        assert(s@.subrange(start as int, start + octet_chars(v).len())[0] == c0);
                    }
                }
            }
            return None;
        },
    };
    // One digit is in hand; look at the next character.
    let second = if start + 1 < len {
        digit_of(s.get_char(start + 1))
    } else {
        None
    };
    let d1 = match second {
        Some(d) => d,
        None => {
            let v = d0;
            proof {
                lemma_digit_val_char(c0);
                assert(octet_chars(v) =~= s@.subrange(start as int, start + 1));
            }
            return Some((v, start + 1));
        },
    };
    if d0 == 0 {
        // A leading zero is not canonical.
        proof {
            lemma_digit_val_char(c0);
            assert(c0 == '0');
            assert forall|v: u8| !octet_at(s@, start as int, v) by {
                lemma_octet_chars_props(v);
                if octet_at(s@, start as int, v) {
                    let r = octet_chars(v);
                    assert(s@.subrange(start as int, start + r.len())[0] == c0);
                    if r.len() >= 2 {
                        assert(r[0] != '0');
                    } else {
                        assert(is_digit_char(s@[start + 1]));
                    }
                }
            }
        }
        return None;
    }
    let ghost c1 = s@[start as int + 1];
    // Two digits are in hand, the first nonzero; look at the next character.
    let third = if start + 2 < len {
        digit_of(s.get_char(start + 2))
    } else {
        None
    };
    let d2 = match third {
        Some(d) => d,
        None => {
            let v = 10 * d0 + d1;
            proof {
                lemma_digit_val_char(c0);
                lemma_digit_val_char(c1);
                assert(10 <= v < 100);
                assert(v as int / 10 == digit_val(c0) && v as int % 10 == digit_val(c1));
                assert(octet_chars(v) =~= s@.subrange(start as int, start + 2));
            }
            return Some((v, start + 2));
        },
    };
    let ghost c2 = s@[start as int + 2];
    proof {
        lemma_digit_val_char(c0);
        lemma_digit_val_char(c1);
        lemma_digit_val_char(c2);
    }
    if start + 3 < len && digit_of(s.get_char(start + 3)).is_some() {
        // Four digits in a row: no canonical octet can stand here.
        proof {
            assert forall|v: u8| !octet_at(s@, start as int, v) by {
                lemma_octet_chars_props(v);
                if octet_at(s@, start as int, v) {
                    let r = octet_chars(v);
                    assert(is_digit_char(s@[start + r.len()]));
                }
            }
        }
        return None;
    }
    let val: u16 = 100 * (d0 as u16) + 10 * (d1 as u16) + (d2 as u16);
    if val > 255 {
        proof {
            assert forall|v: u8| !octet_at(s@, start as int, v) by {
                lemma_octet_chars_props(v);
                if octet_at(s@, start as int, v) {
                    let r = octet_chars(v);
                    if r.len() <= 2 {
                        assert(is_digit_char(s@[start + r.len()]));
                    } else {
                        assert(s@.subrange(start as int, start + 3)[0] == c0);
                        assert(s@.subrange(start as int, start + 3)[1] == c1);
                        assert(s@.subrange(start as int, start + 3)[2] == c2);
                        assert(v as int == 100 * digit_val(c0) + 10 * digit_val(c1) + digit_val(
                            c2,
                        ));
                    }
                }
            }
        }
        return None;
    }
    let v = val as u8;
    proof {
        assert(v as int == 100 * (d0 as int) + 10 * (d1 as int) + (d2 as int));
        assert(v >= 100);
        assert(v as int / 100 == d0 as int) by {
            assert(10 * (d1 as int) + (d2 as int) < 100);
        }
        assert(v as int / 10 == 10 * (d0 as int) + (d1 as int)) by {
            assert((d2 as int) < 10);
        }
        assert((v as int / 10) % 10 == d1 as int);
        assert(v as int % 10 == d2 as int);
        assert(octet_chars(v) =~= s@.subrange(start as int, start + 3));
    }
    Some((v, start + 3))
}

/// Parses a complete canonical dotted-decimal IPv4 literal.
///
/// Returns the address whose canonical text is `s`, and `None` when `s` is
/// not the canonical text of any address.
pub fn parse_ipv4(s: &str) -> (r: Option<Ipv4Address>)
    ensures
        r == parse_ipv4_spec(s@),
{
    let len = s.unicode_len();
    let (a, p1) = match parse_octet(s, 0) {
        Some(x) => x,
        None => {
            proof {
                assert forall|ip: Ipv4Address| s@ != ipv4_chars(ip) by {
                    if s@ == ipv4_chars(ip) {
                        lemma_ipv4_chars_structure(ip, s@);
                    }
                }
            }
            return None;
        },
    };
    if p1 >= len || s.get_char(p1) != '.' {
        proof {
            assert forall|ip: Ipv4Address| s@ != ipv4_chars(ip) by {
                if s@ == ipv4_chars(ip) {
                    lemma_ipv4_chars_structure(ip, s@);
                    lemma_octet_at_unique(s@, 0, a, ip.a);
                }
            }
        }
        return None;
    }
    let (b, p2) = match parse_octet(s, p1 + 1) {
        Some(x) => x,
        None => {
            proof {
                assert forall|ip: Ipv4Address| s@ != ipv4_chars(ip) by {
                    if s@ == ipv4_chars(ip) {
                        lemma_ipv4_chars_structure(ip, s@);
                        lemma_octet_at_unique(s@, 0, a, ip.a);
                    }
                }
            }
            return None;
        },
    };
    if p2 >= len || s.get_char(p2) != '.' {
        proof {
            assert forall|ip: Ipv4Address| s@ != ipv4_chars(ip) by {
                if s@ == ipv4_chars(ip) {
                    lemma_ipv4_chars_structure(ip, s@);
                    lemma_octet_at_unique(s@, 0, a, ip.a);
                    lemma_octet_at_unique(s@, ipv4_pos_b(ip), b, ip.b);
                }
            }
        }
        return None;
    }
    let (c, p3) = match parse_octet(s, p2 + 1) {
        Some(x) => x,
        None => {
            proof {
                assert forall|ip: Ipv4Address| s@ != ipv4_chars(ip) by {
                    if s@ == ipv4_chars(ip) {
                        lemma_ipv4_chars_structure(ip, s@);
                        lemma_octet_at_unique(s@, 0, a, ip.a);
                        lemma_octet_at_unique(s@, ipv4_pos_b(ip), b, ip.b);
                    }
                }
            }
            return None;
        },
    };
    if p3 >= len || s.get_char(p3) != '.' {
        proof {
            assert forall|ip: Ipv4Address| s@ != ipv4_chars(ip) by {
                if s@ == ipv4_chars(ip) {
                    lemma_ipv4_chars_structure(ip, s@);
                    lemma_octet_at_unique(s@, 0, a, ip.a);
                    lemma_octet_at_unique(s@, ipv4_pos_b(ip), b, ip.b);
                    lemma_octet_at_unique(s@, ipv4_pos_c(ip), c, ip.c);
                }
            }
        }
        return None;
    }
    let (d, p4) = match parse_octet(s, p3 + 1) {
        Some(x) => x,
        None => {
            proof {
                assert forall|ip: Ipv4Address| s@ != ipv4_chars(ip) by {
                    if s@ == ipv4_chars(ip) {
                        lemma_ipv4_chars_structure(ip, s@);
                        lemma_octet_at_unique(s@, 0, a, ip.a);
                        lemma_octet_at_unique(s@, ipv4_pos_b(ip), b, ip.b);
                        lemma_octet_at_unique(s@, ipv4_pos_c(ip), c, ip.c);
                    }
                }
            }
            return None;
        },
    };
    if p4 != len {
        proof {
            assert forall|ip: Ipv4Address| s@ != ipv4_chars(ip) by {
                if s@ == ipv4_chars(ip) {
                    lemma_ipv4_chars_structure(ip, s@);
                    lemma_octet_at_unique(s@, 0, a, ip.a);
                    lemma_octet_at_unique(s@, ipv4_pos_b(ip), b, ip.b);
                    lemma_octet_at_unique(s@, ipv4_pos_c(ip), c, ip.c);
                    lemma_octet_at_unique(s@, ipv4_pos_d(ip), d, ip.d);
                }
            }
        }
        return None;
    }
    let found = Ipv4Address { a, b, c, d };
    proof {
        lemma_ipv4_chars_assemble(s@, found);
        let other = choose|ip: Ipv4Address| s@ == ipv4_chars(ip);
        lemma_ipv4_chars_injective(found, other);
    }
    Some(found)
}

/// The one-character text of a decimal digit value.
fn digit_str(d: u8) -> (r: &'static str)
    requires
        d <= 9,
    ensures
        r@ == seq![digit_char(d as int)],
{
    proof {
        reveal_strlit("0");
        reveal_strlit("1");
        reveal_strlit("2");
        reveal_strlit("3");
        reveal_strlit("4");
        reveal_strlit("5");
        reveal_strlit("6");
        reveal_strlit("7");
        reveal_strlit("8");
        reveal_strlit("9");
    }
    let r = match d {
        0 => "0",
        1 => "1",
        2 => "2",
        3 => "3",
        4 => "4",
        5 => "5",
        6 => "6",
        7 => "7",
        8 => "8",
        _ => "9",
    };
    proof {
        assert(r@ =~= seq![digit_char(d as int)]);
    }
    r
}

/// Appends the canonical decimal text of one octet to `out`.
fn push_octet(out: &mut String, v: u8)
    ensures
        final(out)@ == old(out)@ + octet_chars(v),
{
    if v < 10 {
        out.append(digit_str(v));
        assert(out@ =~= old(out)@ + octet_chars(v));
    } else if v < 100 {
        out.append(digit_str(v / 10));
        out.append(digit_str(v % 10));
        assert(out@ =~= old(out)@ + octet_chars(v));
    } else {
        out.append(digit_str(v / 100));
        out.append(digit_str((v / 10) % 10));
        out.append(digit_str(v % 10));
        assert(out@ =~= old(out)@ + octet_chars(v));
    }
}

/// Formats an address as its canonical dotted-decimal text.
pub fn format_ipv4(ip: Ipv4Address) -> (r: String)
    ensures
        r@ == ipv4_chars(ip),
{
    proof {
        reveal_strlit(".");
    }
    let mut out = String::new();
    push_octet(&mut out, ip.a);
    out.append(".");
    push_octet(&mut out, ip.b);
    out.append(".");
    push_octet(&mut out, ip.c);
    out.append(".");
    push_octet(&mut out, ip.d);
    proof {
        assert(out@ =~= ipv4_chars(ip));
    }
    out
}

} // verus!

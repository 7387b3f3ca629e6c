//! Verified strict IPv4 address handling.
//!
//! An address is accepted exactly when it is written in canonical dotted
//! decimal: four octet values, each as its minimal decimal representation
//! (no leading zeros, no signs), separated by single dots. This is the
//! strict form used to validate checker responses, and the same form the
//! formatter produces, so the accepted strings and the canonical strings
//! coincide — a fact proved below.

use vstd::prelude::*;

verus! {

/// A validated IPv4 address: four octets, most significant first.
#[derive(Clone, Copy, Debug, PartialEq, Eq, Structural)]
pub struct Ipv4Addr {
    pub o0: u8,
    pub o1: u8,
    pub o2: u8,
    pub o3: u8,
}

/// Whether `c` is a decimal digit.
pub open spec fn is_digit(c: char) -> bool {
    48 <= c as int && c as int <= 57
}

/// The numeric value of the digit `c`.
pub open spec fn digit_val(c: char) -> int {
    c as int - 48
}

/// The digit character for a value `d` between 0 and 9.
pub open spec fn digit_char(d: int) -> char {
    if d == 0 {
        '0'
    } else if d == 1 {
        '1'
    } else if d == 2 {
        '2'
    } else if d == 3 {
        '3'
    } else if d == 4 {
        '4'
    } else if d == 5 {
        '5'
    } else if d == 6 {
        '6'
    } else if d == 7 {
        '7'
    } else if d == 8 {
        '8'
    } else {
        '9'
    }
}

/// Whether every character of `s` is a decimal digit.
pub open spec fn all_digits(s: Seq<char>) -> bool {
    forall|i: int| 0 <= i < s.len() ==> is_digit(s[i])
}

/// The numeric value of a sequence of decimal digits, most significant
/// first.
pub open spec fn seq_val(s: Seq<char>) -> int
    decreases s.len(),
{
    if s.len() == 0 {
        0
    } else {
        seq_val(s.drop_last()) * 10 + digit_val(s.last())
    }
}

/// The minimal decimal representation of a non-negative number `n`.
pub open spec fn dec_rep(n: int) -> Seq<char>
    decreases n,
{
    if n <= 9 {
        seq![digit_char(n)]
    } else {
        dec_rep(n / 10).push(digit_char(n % 10))
    }
}

/// Whether `s` is the decimal form of an octet value: one to three digits,
/// no leading zero, value at most 255.
pub open spec fn is_octet_seq(s: Seq<char>) -> bool {
    &&& 1 <= s.len() <= 3
    &&& all_digits(s)
    &&& s.len() > 1 ==> s[0] != '0'
    &&& seq_val(s) <= 255
}

proof fn lemma_seq_val_bounds(s: Seq<char>)
    requires
        all_digits(s),
    ensures
        seq_val(s) >= 0,
        s.len() == 0 ==> seq_val(s) == 0,
        s.len() == 1 ==> seq_val(s) <= 9,
        s.len() == 2 ==> seq_val(s) <= 99,
        s.len() == 3 ==> seq_val(s) <= 999,
    decreases s.len(),
{
    if s.len() > 0 {
        assert(all_digits(s.drop_last()));
        lemma_seq_val_bounds(s.drop_last());
    }
}

/// The minimal decimal representation of an octet value is an octet
/// sequence, and reading it back yields the value it was made from.
pub proof fn lemma_dec_rep(n: int)
    requires
        0 <= n <= 255,
    ensures
        all_digits(dec_rep(n)),
        seq_val(dec_rep(n)) == n,
        is_octet_seq(dec_rep(n)),
        dec_rep(n).len() == (if n <= 9 {
            1int
        } else if n <= 99 {
            2int
        } else {
            3int
        }),
        dec_rep(n)[0] != '0' || n == 0,
    decreases n,
{
    if n <= 9 {
        let s = dec_rep(n);
        assert(s == seq![digit_char(n)]);
        assert(s.drop_last() =~= Seq::<char>::empty());
        assert(seq_val(Seq::<char>::empty()) == 0);
        assert(seq_val(s) == seq_val(s.drop_last()) * 10 + digit_val(s.last()));
        assert(seq_val(s) == digit_val(digit_char(n)));
    } else {
        lemma_dec_rep(n / 10);
        let t = dec_rep(n / 10);
        let c = digit_char(n % 10);
        let s = t.push(c);
        assert(s.drop_last() =~= t);
        assert(s.last() == c);
        assert(seq_val(s) == seq_val(t) * 10 + digit_val(c));
        assert(seq_val(s) == (n / 10) * 10 + n % 10);
        assert((n / 10) * 10 + n % 10 == n) by {
            vstd::arithmetic::div_mod::lemma_fundamental_div_mod(n, 10);
        }
        assert(s[0] == t[0]);
        assert(n / 10 >= 1);
        assert(all_digits(s)) by {
            assert(forall|i: int| 0 <= i < t.len() ==> s[i] == t[i]);
        }
    }
}

/// An octet sequence is recovered exactly by formatting its value: the
/// strict decimal octet grammar admits only canonical representations.
pub proof fn lemma_octet_canonical(s: Seq<char>)
    requires
        is_octet_seq(s),
    ensures
        dec_rep(seq_val(s)) == s,
    decreases s.len(),
{
    lemma_seq_val_bounds(s);
    let n = seq_val(s);
    if s.len() == 1 {
        assert(s.drop_last() =~= Seq::<char>::empty());
        assert(n == digit_val(s[0]));
        assert(dec_rep(n) == seq![digit_char(n)]);
        assert(digit_char(digit_val(s[0])) == s[0]);
        assert(dec_rep(n) =~= s);
    } else {
        let t = s.drop_last();
        let d = digit_val(s.last());
        assert(all_digits(t)) by {
            assert(forall|i: int| 0 <= i < t.len() ==> t[i] == s[i]);
        }
        lemma_seq_val_bounds(t);
        assert(n == seq_val(t) * 10 + d);
        // the leading digit is not zero, so the prefix value is at least one
        assert(seq_val(t) >= 1) by {
            lemma_leading_digit_positive(t);
        }
        assert(n >= 10);
        assert(n / 10 == seq_val(t) && n % 10 == d) by {
            vstd::arithmetic::div_mod::lemma_fundamental_div_mod_converse(
                n,
                10,
                seq_val(t),
                d,
            );
        }
        assert(is_octet_seq(t));
        lemma_octet_canonical(t);
        assert(dec_rep(n) == t.push(digit_char(d)));
        assert(digit_char(digit_val(s.last())) == s.last());
        assert(t.push(s.last()) =~= s);
    }
}

proof fn lemma_leading_digit_positive(t: Seq<char>)
    requires
        all_digits(t),
        t.len() >= 1,
        t[0] != '0',
    ensures
        seq_val(t) >= 1,
    decreases t.len(),
{
    if t.len() == 1 {
        assert(digit_val(t[0]) >= 1);
        assert(t.drop_last() =~= Seq::<char>::empty());
        assert(seq_val(Seq::<char>::empty()) == 0);
        assert(seq_val(t) == seq_val(t.drop_last()) * 10 + digit_val(t.last()));
    } else {
        let u = t.drop_last();
        assert(all_digits(u)) by {
            assert(forall|i: int| 0 <= i < u.len() ==> u[i] == t[i]);
        }
        lemma_leading_digit_positive(u);
        lemma_seq_val_bounds(u);
        assert(digit_val(t.last()) >= 0);
        assert(seq_val(t) == seq_val(u) * 10 + digit_val(t.last()));
    }
}

/// The number of consecutive decimal digits in `s` starting at index `i`.
pub open spec fn digit_run_len(s: Seq<char>, i: int) -> int
    decreases s.len() - i,
{
    if 0 <= i && i < s.len() && is_digit(s[i]) {
        1 + digit_run_len(s, i + 1)
    } else {
        0
    }
}

proof fn lemma_digit_run_len(s: Seq<char>, i: int)
    requires
        0 <= i <= s.len(),
    ensures
        0 <= digit_run_len(s, i),
        i + digit_run_len(s, i) <= s.len(),
        forall|j: int| i <= j < i + digit_run_len(s, i) ==> is_digit(s[j]),
        i + digit_run_len(s, i) < s.len() ==> !is_digit(s[i + digit_run_len(s, i)]),
    decreases s.len() - i,
{
    if i < s.len() && is_digit(s[i]) {
        lemma_digit_run_len(s, i + 1);
    }
}

proof fn lemma_digit_run_len_of(s: Seq<char>, i: int, k: int)
    requires
        0 <= i,
        0 <= k,
        i + k <= s.len(),
        forall|j: int| i <= j < i + k ==> is_digit(s[j]),
        i + k == s.len() || !is_digit(s[i + k]),
    ensures
        digit_run_len(s, i) == k,
    decreases k,
{
    if k == 0 {
    } else {
        lemma_digit_run_len_of(s, i + 1, k - 1);
    }
}

/// The octet value read at index `i` of `s`, together with the index just
/// past it, when the characters starting at `i` form a strict decimal
/// octet: one to three digits, no leading zero, value at most 255, ending
/// at the end of `s` or at a non-digit.
pub open spec fn octet_at(s: Seq<char>, i: int) -> Option<(int, int)> {
    let k = digit_run_len(s, i);
    let run = s.subrange(i, i + k);
    if 1 <= k <= 3 && (k > 1 ==> s[i] != '0') && seq_val(run) <= 255 {
        Some((seq_val(run), i + k))
    } else {
        None
    }
}

/// The strict parse of `s` as a dotted-decimal IPv4 address: four octets
/// separated by single dots, with nothing before, between, or after them.
pub open spec fn spec_parse_ipv4(s: Seq<char>) -> Option<Ipv4Addr> {
    match octet_at(s, 0) {
        None => None,
        Some((v0, i1)) => if !(i1 < s.len() && s[i1] == '.') {
            None
        } else {
            match octet_at(s, i1 + 1) {
                None => None,
                Some((v1, i2)) => if !(i2 < s.len() && s[i2] == '.') {
                    None
                } else {
                    match octet_at(s, i2 + 1) {
                        None => None,
                        Some((v2, i3)) => if !(i3 < s.len() && s[i3] == '.') {
                            None
                        } else {
                            match octet_at(s, i3 + 1) {
                                None => None,
                                Some((v3, i4)) => if i4 == s.len() {
                                    Some(
                                        Ipv4Addr {
                                            o0: v0 as u8,
                                            o1: v1 as u8,
                                            o2: v2 as u8,
                                            o3: v3 as u8,
                                        },
                                    )
                                } else {
                                    None
                                },
                            }
                        },
                    }
                },
            }
        },
    }
}

/// Whether `s` is a strictly valid dotted-decimal IPv4 address.
pub open spec fn is_ipv4_string(s: Seq<char>) -> bool {
    spec_parse_ipv4(s) is Some
}

/// The canonical dotted-decimal form of the address `a`.
pub open spec fn ipv4_seq(a: Ipv4Addr) -> Seq<char> {
    dec_rep(a.o0 as int) + seq!['.'] + dec_rep(a.o1 as int) + seq!['.'] + dec_rep(a.o2 as int)
        + seq!['.'] + dec_rep(a.o3 as int)
}

proof fn lemma_octet_at_region(s: Seq<char>, i: int, r: Seq<char>)
    requires
        0 <= i,
        i + r.len() <= s.len(),
        s.subrange(i, i + r.len() as int) == r,
        is_octet_seq(r),
        i + r.len() == s.len() || !is_digit(s[i + r.len()]),
    ensures
        octet_at(s, i) == Some((seq_val(r), i + r.len() as int)),
{
    assert(forall|j: int| i <= j < i + r.len() ==> s[j] == r[j - i]);
    lemma_digit_run_len_of(s, i, r.len() as int);
    assert(s.subrange(i, i + digit_run_len(s, i)) == r);
    assert(r.len() > 1 ==> s[i] == r[0]);
}

/// Parsing the canonical form of an address yields exactly that address:
/// the formatter and the strict parser are mutually inverse, one way.
pub proof fn lemma_parse_of_canonical(a: Ipv4Addr)
    ensures
        spec_parse_ipv4(ipv4_seq(a)) == Some(a),
{
    let r0 = dec_rep(a.o0 as int);
    let r1 = dec_rep(a.o1 as int);
    let r2 = dec_rep(a.o2 as int);
    let r3 = dec_rep(a.o3 as int);
    lemma_dec_rep(a.o0 as int);
    lemma_dec_rep(a.o1 as int);
    lemma_dec_rep(a.o2 as int);
    lemma_dec_rep(a.o3 as int);
    let s = ipv4_seq(a);
    let p0: int = 0;
    let p1: int = r0.len() as int + 1;
    let p2: int = p1 + r1.len() as int + 1;
    let p3: int = p2 + r2.len() as int + 1;
    assert(s.len() == r0.len() + r1.len() + r2.len() + r3.len() + 3);
    assert(s.subrange(p0, p0 + r0.len() as int) =~= r0);
    assert(s[p1 - 1] == '.');
    assert(!is_digit('.'));
    lemma_octet_at_region(s, p0, r0);
    assert(s.subrange(p1, p1 + r1.len() as int) =~= r1);
    assert(s[p2 - 1] == '.');
    lemma_octet_at_region(s, p1, r1);
    assert(s.subrange(p2, p2 + r2.len() as int) =~= r2);
    assert(s[p3 - 1] == '.');
    lemma_octet_at_region(s, p2, r2);
    assert(s.subrange(p3, p3 + r3.len() as int) =~= r3);
    lemma_octet_at_region(s, p3, r3);
    assert(octet_at(s, 0) == Some((a.o0 as int, p1 - 1)));
    assert(octet_at(s, p1) == Some((a.o1 as int, p2 - 1)));
    assert(octet_at(s, p2) == Some((a.o2 as int, p3 - 1)));
    assert(octet_at(s, p3) == Some((a.o3 as int, s.len() as int)));
}

/// A string the strict parser accepts is the canonical form of the address
/// it parses to: accepted strings and canonical strings coincide.
#[verifier::rlimit(60)]
pub proof fn lemma_canonical_of_parse(s: Seq<char>, a: Ipv4Addr)
    requires
        spec_parse_ipv4(s) == Some(a),
    ensures
        ipv4_seq(a) == s,
{
    let k0 = digit_run_len(s, 0);
    lemma_digit_run_len(s, 0);
    let run0 = s.subrange(0, k0);
    assert(all_digits(run0));
    lemma_seq_val_bounds(run0);
    assert(is_octet_seq(run0));
    lemma_octet_canonical(run0);
    let i1 = k0 + 1;
    let k1 = digit_run_len(s, i1);
    lemma_digit_run_len(s, i1);
    let run1 = s.subrange(i1, i1 + k1);
    assert(all_digits(run1));
    lemma_seq_val_bounds(run1);
    assert(is_octet_seq(run1));
    lemma_octet_canonical(run1);
    let i2 = i1 + k1 + 1;
    let k2 = digit_run_len(s, i2);
    lemma_digit_run_len(s, i2);
    let run2 = s.subrange(i2, i2 + k2);
    assert(all_digits(run2));
    lemma_seq_val_bounds(run2);
    assert(is_octet_seq(run2));
    lemma_octet_canonical(run2);
    let i3 = i2 + k2 + 1;
    let k3 = digit_run_len(s, i3);
    lemma_digit_run_len(s, i3);
    let run3 = s.subrange(i3, i3 + k3);
    assert(all_digits(run3));
    lemma_seq_val_bounds(run3);
    assert(is_octet_seq(run3));
    lemma_octet_canonical(run3);
    assert(a.o0 as int == seq_val(run0) && a.o1 as int == seq_val(run1) && a.o2 as int == seq_val(
        run2,
    ) && a.o3 as int == seq_val(run3));
    assert(ipv4_seq(a) == run0 + seq!['.'] + run1 + seq!['.'] + run2 + seq!['.'] + run3);
    assert(ipv4_seq(a) =~= s);
}

/// Runtime test for [`is_digit`].
fn is_digit_char(c: char) -> (b: bool)
    ensures
        b == is_digit(c),
{
    let n = c as u32;
    48 <= n && n <= 57
}

/// Scans the strict decimal octet starting at index `i` of `s`, returning
/// its value and the index just past it.
fn scan_octet(s: &str, i: usize, n: usize) -> (r: Option<(u8, usize)>)
    requires
        n == s@.len(),
        i <= n,
    ensures
        match r {
            Some(v) => octet_at(s@, i as int) == Some((v.0 as int, v.1 as int)) && i < v.1 <= n,
            None => octet_at(s@, i as int) is None,
        },
{
    let mut j = i;
    loop
        invariant
            i <= j <= n,
            n == s@.len(),
            forall|t: int| i <= t < j ==> is_digit(s@[t]),
        ensures
            i <= j <= n,
            forall|t: int| i <= t < j ==> is_digit(s@[t]),
            j == n || !is_digit(s@[j as int]),
        decreases n - j,
    {
        if j == n {
            break ;
        }
        if !is_digit_char(s.get_char(j)) {
            break ;
        }
        j += 1;
    }
    proof {
        lemma_digit_run_len_of(s@, i as int, j - i);
    }
    let k = j - i;
    if k < 1 || k > 3 {
        return None;
    }
    if k > 1 && s.get_char(i) == '0' {
        return None;
    }
    let mut val: u32 = 0;
    let mut t = i;
    while t < j
        invariant
            i <= t <= j <= n,
            j - i <= 3,
            n == s@.len(),
            forall|u: int| i <= u < j ==> is_digit(s@[u]),
            val == seq_val(s@.subrange(i as int, t as int)),
            val <= 999,
        decreases j - t,
    {
        let c = s.get_char(t);
        proof {
            let run = s@.subrange(i as int, t as int);
            assert(all_digits(run));
            lemma_seq_val_bounds(run);
            assert(run.len() <= 2);
            let ext = s@.subrange(i as int, t + 1);
            assert(ext.drop_last() =~= run);
            assert(ext.last() == s@[t as int]);
            assert(seq_val(ext) == seq_val(run) * 10 + digit_val(s@[t as int]));
        }
        val = val * 10 + (c as u32 - 48);
        t += 1;
    }
    proof {
        let run = s@.subrange(i as int, j as int);
        assert(all_digits(run));
        lemma_seq_val_bounds(run);
    }
    if val > 255 {
        return None;
    }
    Some((val as u8, j))
}

/// Parses `s` strictly as a dotted-decimal IPv4 address. The address is
/// returned exactly when `s` is canonical dotted decimal, and in that case
/// formatting it again gives back `s`.
pub fn parse_ipv4(s: &str) -> (r: Option<Ipv4Addr>)
    ensures
        r == spec_parse_ipv4(s@),
{
    let n = s.unicode_len();
    let o0 = match scan_octet(s, 0, n) {
        None => {
            return None;
        },
        Some(v) => v,
    };
    if o0.1 == n || s.get_char(o0.1) != '.' {
        return None;
    }
    let o1 = match scan_octet(s, o0.1 + 1, n) {
        None => {
            return None;
        },
        Some(v) => v,
    };
    if o1.1 == n || s.get_char(o1.1) != '.' {
        return None;
    }
    let o2 = match scan_octet(s, o1.1 + 1, n) {
        None => {
            return None;
        },
        Some(v) => v,
    };
    if o2.1 == n || s.get_char(o2.1) != '.' {
        return None;
    }
    let o3 = match scan_octet(s, o2.1 + 1, n) {
        None => {
            return None;
        },
        Some(v) => v,
    };
    if o3.1 != n {
        return None;
    }
    Some(Ipv4Addr { o0: o0.0, o1: o1.0, o2: o2.0, o3: o3.0 })
}

/// The strings the strict parser accepts are exactly the canonical
/// dotted-decimal forms of addresses.
pub proof fn lemma_ipv4_strings_are_canonical(s: Seq<char>)
    ensures
        is_ipv4_string(s) <==> exists|a: Ipv4Addr| ipv4_seq(a) == s,
{
    if is_ipv4_string(s) {
        let a = choose|a: Ipv4Addr| spec_parse_ipv4(s) == Some(a);
        lemma_canonical_of_parse(s, a);
        assert(ipv4_seq(a) == s);
    }
    if exists|a: Ipv4Addr| ipv4_seq(a) == s {
        let a = choose|a: Ipv4Addr| ipv4_seq(a) == s;
        lemma_parse_of_canonical(a);
    }
}

fn digit_str(d: u8) -> (r: &'static str)
    requires
        d <= 9,
    ensures
        r@ == seq![digit_char(d as int)],
{
    if d == 0 {
        proof {
            reveal_strlit("0");
            assert("0"@ =~= seq![digit_char(0)]);
        }
        "0"
    } else if d == 1 {
        proof {
            reveal_strlit("1");
            assert("1"@ =~= seq![digit_char(1)]);
        }
        "1"
    } else if d == 2 {
        proof {
            reveal_strlit("2");
            assert("2"@ =~= seq![digit_char(2)]);
        }
        "2"
    } else if d == 3 {
        proof {
            reveal_strlit("3");
            assert("3"@ =~= seq![digit_char(3)]);
        }
        "3"
    } else if d == 4 {
        proof {
            reveal_strlit("4");
            assert("4"@ =~= seq![digit_char(4)]);
        }
        "4"
    } else if d == 5 {
        proof {
            reveal_strlit("5");
            assert("5"@ =~= seq![digit_char(5)]);
        }
        "5"
    } else if d == 6 {
        proof {
            reveal_strlit("6");
            assert("6"@ =~= seq![digit_char(6)]);
        }
        "6"
    } else if d == 7 {
        proof {
            reveal_strlit("7");
            assert("7"@ =~= seq![digit_char(7)]);
        }
        "7"
    } else if d == 8 {
        proof {
            reveal_strlit("8");
            assert("8"@ =~= seq![digit_char(8)]);
        }
        "8"
    } else {
        proof {
            reveal_strlit("9");
            assert("9"@ =~= seq![digit_char(9)]);
        }
        "9"
    }
}

/// Appends the minimal decimal representation of `v` to `out`.
fn append_u8(out: &mut String, v: u8)
    ensures
        final(out)@ == old(out)@ + dec_rep(v as int),
{
    let ghost orig = out@;
    if v >= 100 {
        out.append(digit_str(v / 100));
    }
    if v >= 10 {
        out.append(digit_str((v / 10) % 10));
    }
    out.append(digit_str(v % 10));
    proof {
        if v <= 9 {
            assert(v % 10 == v);
            assert(dec_rep(v as int) == seq![digit_char(v as int)]);
            assert(out@ =~= orig + dec_rep(v as int));
        } else if v <= 99 {
            assert(dec_rep(v as int) == dec_rep(v as int / 10).push(digit_char(v as int % 10)));
            assert(v as int / 10 <= 9);
            assert(dec_rep(v as int / 10) == seq![digit_char(v as int / 10)]);
            assert((v / 10) % 10 == v / 10);
            assert(out@ =~= orig + dec_rep(v as int));
        } else {
            assert(dec_rep(v as int) == dec_rep(v as int / 10).push(digit_char(v as int % 10)));
            assert(v as int / 10 >= 10);
            assert(dec_rep(v as int / 10) == dec_rep(v as int / 100).push(
                digit_char((v as int / 10) % 10),
            ));
            assert(v as int / 100 <= 9);
            assert(dec_rep(v as int / 100) == seq![digit_char(v as int / 100)]);
            assert(out@ =~= orig + dec_rep(v as int));
        }
    }
}

/// Formats `a` in its canonical dotted-decimal form.
pub fn ipv4_string(a: &Ipv4Addr) -> (r: String)
    ensures
        r@ == ipv4_seq(*a),
{
    let mut r = String::new();
    append_u8(&mut r, a.o0);
    r.append(".");
    append_u8(&mut r, a.o1);
    r.append(".");
    append_u8(&mut r, a.o2);
    r.append(".");
    append_u8(&mut r, a.o3);
    proof {
        reveal_strlit(".");
        assert("."@ =~= seq!['.']);
        assert(r@ =~= ipv4_seq(*a));
    }
    r
}

} // verus!

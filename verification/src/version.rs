//! Structured semantic versions — a numeric `major.minor.patch` core and an
//! optional pre-release suffix — with a verified renderer and parser for
//! their canonical rendering.

use vstd::prelude::*;

verus! {

/// The numeric core of a semantic version: three ordered components.
#[derive(Clone, Copy, PartialEq, Eq, Structural, Debug)]
pub struct VersionCore {
    pub major: u64,
    pub minor: u64,
    pub patch: u64,
}

/// The character for one decimal digit value.
pub open spec fn digit_char(d: int) -> char {
    if d == 0 {
        '0'
    } else if d == 1 {
        '1'
    } else if d == 2 {
        '2'
    } else if d == 3 {
        '3'
    } else if d == 4 {
        '4'
    } else if d == 5 {
        '5'
    } else if d == 6 {
        '6'
    } else if d == 7 {
        '7'
    } else if d == 8 {
        '8'
    } else {
        '9'
    }
}

/// Whether a character is a decimal digit.
pub open spec fn is_digit(c: char) -> bool {
    48 <= c as int <= 57
}

/// The numeric value of a digit character.
pub open spec fn digit_val(c: char) -> int {
    c as int - 48
}

/// Whether a string is a canonical decimal numeral: nonempty, digits only,
/// and without a leading zero (except for a lone `0`).
pub open spec fn all_digits(s: Seq<char>) -> bool {
    forall|i: int| 0 <= i < s.len() ==> is_digit(#[trigger] s[i])
}

pub open spec fn canonical_digits(s: Seq<char>) -> bool {
    &&& s.len() > 0
    &&& all_digits(s)
    &&& (s.len() > 1 ==> s[0] != '0')
}

/// The value of a digit string, most significant digit first.
pub open spec fn digits_val(s: Seq<char>) -> int
    decreases s.len(),
{
    if s.len() == 0 {
        0
    } else {
        digits_val(s.drop_last()) * 10 + digit_val(s.last())
    }
}

/// The canonical decimal rendering of a natural number: no sign, no leading
/// zeros (a lone `0` for zero).
pub open spec fn dec_str(n: nat) -> Seq<char>
    decreases n,
{
    if n < 10 {
        seq![digit_char(n as int)]
    } else {
        dec_str(n / 10).push(digit_char((n % 10) as int))
    }
}

/// The canonical rendering of a numeric core, `major.minor.patch`.
pub open spec fn core_canon(v: VersionCore) -> Seq<char> {
    dec_str(v.major as nat) + seq!['.'] + dec_str(v.minor as nat) + seq!['.'] + dec_str(
        v.patch as nat,
    )
}

/// The numeric core whose canonical rendering a string is, if any: exactly
/// the canonical `major.minor.patch` numerals.
pub open spec fn spec_parse_core(s: Seq<char>) -> Option<VersionCore> {
    if exists|v: VersionCore| #[trigger] core_canon(v) == s {
        Some(choose|v: VersionCore| core_canon(v) == s)
    } else {
        None
    }
}

proof fn lemma_digit_char_val(d: int)
    requires
        0 <= d < 10,
    ensures
        digit_char(d) as int == 48 + d,
        is_digit(digit_char(d)),
{
    assert('0' as int == 48);
    assert('1' as int == 49);
    assert('2' as int == 50);
    assert('3' as int == 51);
    assert('4' as int == 52);
    assert('5' as int == 53);
    assert('6' as int == 54);
    assert('7' as int == 55);
    assert('8' as int == 56);
    assert('9' as int == 57);
}

/// A decimal rendering is a canonical numeral, and evaluates to the number
/// it renders.
pub proof fn lemma_dec_str(n: nat)
    ensures
        canonical_digits(dec_str(n)),
        digits_val(dec_str(n)) == n,
    decreases n,
{
    if n < 10 {
        lemma_digit_char_val(n as int);
        assert(dec_str(n) =~= seq![digit_char(n as int)]);
        assert(dec_str(n).drop_last() =~= Seq::<char>::empty());
        assert(digits_val(Seq::<char>::empty()) == 0);
        assert forall|i: int| 0 <= i < dec_str(n).len() implies is_digit(
            #[trigger] dec_str(n)[i],
        ) by {
            assert(dec_str(n)[i] == digit_char(n as int));
        }
    } else {
        lemma_dec_str(n / 10);
        lemma_digit_char_val((n % 10) as int);
        let t = dec_str(n / 10);
        assert(dec_str(n) == t.push(digit_char((n % 10) as int)));
        assert(t.push(digit_char((n % 10) as int)).drop_last() =~= t);
        assert(digits_val(dec_str(n)) == digits_val(t) * 10 + (n % 10));
        assert(n / 10 >= 1);
        assert(all_digits(dec_str(n))) by {
            assert forall|i: int| 0 <= i < dec_str(n).len() implies is_digit(
                #[trigger] dec_str(n)[i],
            ) by {
                if i < t.len() {
                    assert(dec_str(n)[i] == t[i]);
                }
            }
        }
        assert(dec_str(n)[0] == t[0]);
        assert(dec_str(n)[0] != '0') by {
            if t[0] == '0' {
                if t.len() == 1 {
                    assert(t.drop_last() =~= Seq::<char>::empty());
                    assert(digits_val(Seq::<char>::empty()) == 0);
                    assert(t.last() == t[0]);
                    assert('0' as int == 48);
                    assert(digits_val(t) == 0);
                }
                assert(false);
            }
        }
    }
}

/// The value of a digit string is nonnegative, and positive when the string
/// does not start with `0`.
proof fn lemma_digits_val_bounds(s: Seq<char>)
    requires
        all_digits(s),
    ensures
        digits_val(s) >= 0,
        s.len() > 0 && s[0] != '0' ==> digits_val(s) >= 1,
    decreases s.len(),
{
    if s.len() > 0 {
        let t = s.drop_last();
        assert(all_digits(t)) by {
            assert(forall|i: int| 0 <= i < t.len() ==> t[i] == s[i]);
        }
        lemma_digits_val_bounds(t);
        assert(is_digit(s.last()));
        assert(digit_val(s.last()) >= 0);
        if s.len() > 1 && s[0] != '0' {
            assert(t[0] == s[0]);
            assert('0' as int == 48);
        }
        if s.len() == 1 && s[0] != '0' {
            assert('0' as int == 48);
            assert(s.last() == s[0]);
            assert(digit_val(s.last()) >= 1);
        }
    }
}

/// Reading a prefix of a digit string never exceeds the whole string's value.
proof fn lemma_digits_val_prefix(s: Seq<char>, k: int)
    requires
        all_digits(s),
        0 <= k <= s.len(),
    ensures
        digits_val(s.subrange(0, k)) <= digits_val(s),
    decreases s.len(),
{
    if k == s.len() {
        assert(s.subrange(0, k) =~= s);
    } else {
        let t = s.drop_last();
        assert(all_digits(t)) by {
            assert(forall|i: int| 0 <= i < t.len() ==> t[i] == s[i]);
        }
        lemma_digits_val_prefix(t, k);
        lemma_digits_val_bounds(t);
        assert(is_digit(s.last()));
        assert(s.subrange(0, k) =~= t.subrange(0, k));
        assert(digits_val(s) == digits_val(t) * 10 + digit_val(s.last()));
        assert(digits_val(t) * 10 >= digits_val(t));
    }
}

/// A canonical numeral is the decimal rendering of its own value.
pub proof fn lemma_canonical_dec_str(s: Seq<char>)
    requires
        canonical_digits(s),
    ensures
        digits_val(s) >= 0,
        dec_str(digits_val(s) as nat) == s,
    decreases s.len(),
{
    lemma_digits_val_bounds(s);
    if s.len() == 1 {
        let c = s[0];
        assert(s.drop_last() =~= Seq::<char>::empty());
        assert(digits_val(Seq::<char>::empty()) == 0);
        assert(digits_val(s) == digit_val(c));
        lemma_digit_char_val(digit_val(c));
        assert(digit_char(digit_val(c)) as int == c as int);
        assert(dec_str(digits_val(s) as nat) =~= s);
    } else {
        let t = s.drop_last();
        assert(all_digits(t)) by {
            assert(forall|i: int| 0 <= i < t.len() ==> t[i] == s[i]);
        }
        assert(t[0] == s[0]);
        assert(canonical_digits(t));
        lemma_canonical_dec_str(t);
        lemma_digits_val_bounds(t);
        assert(digits_val(t) >= 1);
        let d = digit_val(s.last());
        assert(is_digit(s.last()));
        assert(0 <= d < 10);
        let n = digits_val(s);
        assert(n == digits_val(t) * 10 + d);
        assert(n >= 10) by {
            assert(digits_val(t) * 10 >= 10);
        }
        assert(n / 10 == digits_val(t) && n % 10 == d) by (nonlinear_arith)
            requires
                n == digits_val(t) * 10 + d,
                0 <= d < 10,
                digits_val(t) >= 0,
        ;
        lemma_digit_char_val(d);
        assert(digit_char((n % 10) as int) as int == s.last() as int);
        assert(dec_str(n as nat) == dec_str(digits_val(t) as nat).push(
            digit_char((n % 10) as int),
        ));
        assert(dec_str(n as nat) =~= s);
    }
}

proof fn lemma_digit_not_dot(c: char)
    requires
        is_digit(c),
    ensures
        c != '.',
{
    assert('.' as int == 46);
}

/// Where the dots and the numerals stand in a canonical core rendering.
proof fn lemma_core_structure(v: VersionCore)
    ensures
        core_canon(v).len() == dec_str(v.major as nat).len() + dec_str(v.minor as nat).len()
            + dec_str(v.patch as nat).len() + 2,
        core_canon(v).subrange(0, dec_str(v.major as nat).len() as int) == dec_str(
            v.major as nat,
        ),
        core_canon(v)[dec_str(v.major as nat).len() as int] == '.',
        core_canon(v).subrange(
            dec_str(v.major as nat).len() as int + 1,
            dec_str(v.major as nat).len() as int + 1 + dec_str(v.minor as nat).len() as int,
        ) == dec_str(v.minor as nat),
        core_canon(v)[dec_str(v.major as nat).len() as int + 1 + dec_str(
            v.minor as nat,
        ).len() as int] == '.',
        core_canon(v).subrange(
            dec_str(v.major as nat).len() as int + dec_str(v.minor as nat).len() as int + 2,
            core_canon(v).len() as int,
        ) == dec_str(v.patch as nat),
        forall|k: int|
            0 <= k < core_canon(v).len() && core_canon(v)[k] == '.' ==> k == dec_str(
                v.major as nat,
            ).len() || k == dec_str(v.major as nat).len() + 1 + dec_str(v.minor as nat).len(),
{
    let a = dec_str(v.major as nat);
    let b = dec_str(v.minor as nat);
    let c = dec_str(v.patch as nat);
    let s = core_canon(v);
    lemma_dec_str(v.major as nat);
    lemma_dec_str(v.minor as nat);
    lemma_dec_str(v.patch as nat);
    assert(s.len() == a.len() + b.len() + c.len() + 2);
    assert(s.subrange(0, a.len() as int) =~= a);
    assert(s[a.len() as int] == '.');
    assert(s.subrange(a.len() as int + 1, a.len() as int + 1 + b.len() as int) =~= b);
    assert(s[a.len() as int + 1 + b.len() as int] == '.');
    assert(s.subrange(a.len() as int + b.len() as int + 2, s.len() as int) =~= c);
    assert forall|k: int| 0 <= k < s.len() && s[k] == '.' implies k == a.len() || k == a.len() + 1
        + b.len() by {
        if k < a.len() {
            assert(s[k] == a[k]);
            lemma_digit_not_dot(a[k]);
        } else if a.len() + 1 <= k < a.len() + 1 + b.len() {
            assert(s[k] == b[k - (a.len() + 1)]);
            lemma_digit_not_dot(b[k - (a.len() + 1)]);
        } else if k >= a.len() + b.len() + 2 {
            assert(s[k] == c[k - (a.len() + b.len() + 2)]);
            lemma_digit_not_dot(c[k - (a.len() + b.len() + 2)]);
        }
    }
}

/// Canonical renderings of distinct numeric cores are distinct.
pub proof fn lemma_core_canon_injective(v1: VersionCore, v2: VersionCore)
    requires
        core_canon(v1) == core_canon(v2),
    ensures
        v1 == v2,
{
    let a1 = dec_str(v1.major as nat);
    let b1 = dec_str(v1.minor as nat);
    let c1 = dec_str(v1.patch as nat);
    let a2 = dec_str(v2.major as nat);
    let b2 = dec_str(v2.minor as nat);
    let c2 = dec_str(v2.patch as nat);
    let s = core_canon(v1);
    lemma_core_structure(v1);
    lemma_core_structure(v2);
    lemma_dec_str(v1.major as nat);
    lemma_dec_str(v1.minor as nat);
    lemma_dec_str(v1.patch as nat);
    lemma_dec_str(v2.major as nat);
    lemma_dec_str(v2.minor as nat);
    lemma_dec_str(v2.patch as nat);
    assert(a1.len() == a2.len()) by {
        if a1.len() < a2.len() {
            assert(s[a1.len() as int] == '.');
        } else if a2.len() < a1.len() {
            assert(s[a2.len() as int] == '.');
        }
    }
    assert(a1 == a2) by {
        assert(s.subrange(0, a1.len() as int) == a1);
        assert(s.subrange(0, a2.len() as int) == a2);
    }
    assert(v1.major == v2.major) by {
        assert(digits_val(a1) == v1.major);
        assert(digits_val(a2) == v2.major);
    }
    assert(b1.len() == b2.len()) by {
        if b1.len() < b2.len() {
            assert(s[a1.len() as int + 1 + b1.len() as int] == '.');
        } else if b2.len() < b1.len() {
            assert(s[a2.len() as int + 1 + b2.len() as int] == '.');
        }
    }
    assert(b1 == b2) by {
        assert(s.subrange(a1.len() as int + 1, a1.len() as int + 1 + b1.len() as int) == b1);
        assert(s.subrange(a2.len() as int + 1, a2.len() as int + 1 + b2.len() as int) == b2);
    }
    assert(v1.minor == v2.minor);
    assert(c1 == c2) by {
        assert(s.subrange(a1.len() as int + b1.len() as int + 2, s.len() as int) == c1);
        assert(s.subrange(a2.len() as int + b2.len() as int + 2, s.len() as int) == c2);
    }
    assert(v1.patch == v2.patch);
}

/// Parsing accepts every canonical core rendering, and gives back the core
/// that was rendered.
pub proof fn lemma_parse_core_canon(v: VersionCore)
    ensures
        spec_parse_core(core_canon(v)) == Some(v),
{
    let s = core_canon(v);
    assert(exists|w: VersionCore| #[trigger] core_canon(w) == s);
    let w = choose|w: VersionCore| core_canon(w) == s;
    lemma_core_canon_injective(w, v);
}

fn digit_to_str(d: u64) -> (r: &'static str)
    requires
        d < 10,
    ensures
        r@ == seq![digit_char(d as int)],
{
    proof {
        reveal_strlit("0");
        reveal_strlit("1");
        reveal_strlit("2");
        reveal_strlit("3");
        reveal_strlit("4");
        reveal_strlit("5");
        reveal_strlit("6");
        reveal_strlit("7");
        reveal_strlit("8");
        reveal_strlit("9");
    }
    let r: &'static str = match d {
        0 => "0",
        1 => "1",
        2 => "2",
        3 => "3",
        4 => "4",
        5 => "5",
        6 => "6",
        7 => "7",
        8 => "8",
        _ => "9",
    };
    proof {
        assert(r@ =~= seq![digit_char(d as int)]);
    }
    r
}

/// Render a number as its canonical decimal string.
pub fn u64_to_string(n: u64) -> (r: String)
    ensures
        r@ == dec_str(n as nat),
    decreases n,
{
    if n < 10 {
        String::from_str(digit_to_str(n))
    } else {
        let mut s = u64_to_string(n / 10);
        s.append(digit_to_str(n % 10));
        proof {
            assert(s@ =~= dec_str(n as nat));
        }
        s
    }
}

/// Render a numeric core canonically, `major.minor.patch`.
pub fn render_core(v: &VersionCore) -> (r: String)
    ensures
        r@ == core_canon(*v),
{
    proof {
        reveal_strlit(".");
        assert("."@ =~= seq!['.']);
    }
    let mut s = u64_to_string(v.major);
    s.append(".");
    let minor = u64_to_string(v.minor);
    s.append(minor.as_str());
    s.append(".");
    let patch = u64_to_string(v.patch);
    s.append(patch.as_str());
    proof {
        assert(s@ =~= core_canon(*v));
    }
    s
}

/// Parse a canonical decimal numeral; reject anything else, including
/// leading zeros and values over `u64::MAX`.
pub fn parse_u64(s: &str) -> (r: Option<u64>)
    ensures
        r matches Some(n) ==> s@ == dec_str(n as nat),
        r is None ==> forall|n: u64| s@ != dec_str(n as nat),
{
    let len = s.unicode_len();
    if len == 0 {
        proof {
            assert forall|n: u64| s@ != dec_str(n as nat) by {
                lemma_dec_str(n as nat);
            }
        }
        return None;
    }
    let first = s.get_char(0);
    if len > 1 && (first as u32) == 48 {
        proof {
            assert(s@[0] as int == 48);
            assert('0' as int == 48);
            assert forall|n: u64| s@ != dec_str(n as nat) by {
                lemma_dec_str(n as nat);
            }
        }
        return None;
    }
    let mut acc: u64 = 0;
    let mut i: usize = 0;
    while i < len
        invariant
            0 <= i <= len,
            len == s@.len(),
            all_digits(s@.subrange(0, i as int)),
            acc as int == digits_val(s@.subrange(0, i as int)),
        decreases len - i,
    {
        let c = s.get_char(i);
        let v = c as u32;
        if v < 48 || v > 57 {
            proof {
                assert(!is_digit(s@[i as int]));
                assert forall|n: u64| s@ != dec_str(n as nat) by {
                    lemma_dec_str(n as nat);
                }
            }
            return None;
        }
        let d = (v - 48) as u64;
        let acc10 = match acc.checked_mul(10) {
            Some(x) => x,
            None => {
                proof {
                    lemma_overflow(s@, i as int, acc as int, d as int);
                }
                return None;
            },
        };
        let acc2 = match acc10.checked_add(d) {
            Some(x) => x,
            None => {
                proof {
                    lemma_overflow(s@, i as int, acc as int, d as int);
                }
                return None;
            },
        };
        proof {
            let p = s@.subrange(0, i as int);
            let q = s@.subrange(0, i + 1 as int);
            assert(q.drop_last() =~= p);
            assert(q.last() == s@[i as int]);
            assert(is_digit(s@[i as int]));
            assert(digit_val(s@[i as int]) == d);
            assert(all_digits(q)) by {
                assert(forall|k: int| 0 <= k < p.len() ==> q[k] == p[k]);
            }
            assert(digits_val(q) == digits_val(p) * 10 + d);
        }
        acc = acc2;
        i += 1;
    }
    proof {
        assert(s@.subrange(0, len as int) =~= s@);
        assert(canonical_digits(s@)) by {
            assert('0' as int == 48);
        }
        lemma_canonical_dec_str(s@);
    }
    Some(acc)
}

/// The value read so far cannot shrink: once the next step would overflow a
/// `u64`, no `u64` renders to this string.
proof fn lemma_overflow(s: Seq<char>, i: int, acc: int, d: int)
    requires
        0 <= i < s.len(),
        all_digits(s.subrange(0, i)),
        acc == digits_val(s.subrange(0, i)),
        is_digit(s[i]),
        digit_val(s[i]) == d,
        acc * 10 + d > u64::MAX,
    ensures
        forall|n: u64| s != dec_str(n as nat),
{
    assert forall|n: u64| s != dec_str(n as nat) by {
        lemma_dec_str(n as nat);
        if s == dec_str(n as nat) {
            let q = s.subrange(0, i + 1);
            assert(q.drop_last() =~= s.subrange(0, i));
            assert(q.last() == s[i]);
            assert(digits_val(q) == acc * 10 + d);
            lemma_digits_val_prefix(s, i + 1);
            assert(digits_val(s) == n);
        }
    }
}

/// Parse a numeric core: exactly the canonical `major.minor.patch` form.
pub fn parse_core(s: &str) -> (r: Option<VersionCore>)
    ensures
        r == spec_parse_core(s@),
{
    let len = s.unicode_len();
    let mut i: usize = 0;
    while i < len && (s.get_char(i) as u32) != 46
        invariant
            0 <= i <= len,
            len == s@.len(),
            forall|k: int| 0 <= k < i ==> s@[k] != '.',
        decreases len - i,
    {
        proof {
            assert('.' as int == 46);
        }
        i += 1;
    }
    proof {
        assert('.' as int == 46);
    }
    if i >= len {
        proof {
            lemma_no_canon_without_dots(s@, len as int, len as int);
        }
        return None;
    }
    let mut j: usize = i + 1;
    while j < len && (s.get_char(j) as u32) != 46
        invariant
            i < j <= len,
            len == s@.len(),
            forall|k: int| 0 <= k < i ==> s@[k] != '.',
            s@[i as int] == '.',
            forall|k: int| i < k < j ==> s@[k] != '.',
        decreases len - j,
    {
        proof {
            assert('.' as int == 46);
        }
        j += 1;
    }
    if j >= len {
        proof {
            lemma_no_canon_without_dots(s@, i as int, len as int);
        }
        return None;
    }
    let p1 = s.substring_char(0, i);
    let p2 = s.substring_char(i + 1, j);
    let p3 = s.substring_char(j + 1, len);
    let major = match parse_u64(p1) {
        Some(x) => x,
        None => {
            proof {
                lemma_parts_decide(s@, i as int, j as int);
                if exists|v: VersionCore| #[trigger] core_canon(v) == s@ {
                    let v = choose|v: VersionCore| core_canon(v) == s@;
                    assert(p1@ == dec_str(v.major as nat));
                    assert(false);
                }
            }
            return None;
        },
    };
    let minor = match parse_u64(p2) {
        Some(x) => x,
        None => {
            proof {
                lemma_parts_decide(s@, i as int, j as int);
                if exists|v: VersionCore| #[trigger] core_canon(v) == s@ {
                    let v = choose|v: VersionCore| core_canon(v) == s@;
                    assert(p2@ == dec_str(v.minor as nat));
                    assert(false);
                }
            }
            return None;
        },
    };
    let patch = match parse_u64(p3) {
        Some(x) => x,
        None => {
            proof {
                lemma_parts_decide(s@, i as int, j as int);
                if exists|v: VersionCore| #[trigger] core_canon(v) == s@ {
                    let v = choose|v: VersionCore| core_canon(v) == s@;
                    assert(p3@ == dec_str(v.patch as nat));
                    assert(false);
                }
            }
            return None;
        },
    };
    let v = VersionCore { major, minor, patch };
    proof {
        assert(s@[j as int] == '.');
        assert(p1@ == s@.subrange(0, i as int));
        assert(p2@ == s@.subrange(i + 1, j as int));
        assert(p3@ == s@.subrange(j + 1, len as int));
        assert(s@ =~= core_canon(v));
        lemma_parse_core_canon(v);
    }
    Some(v)
}

/// A string whose dots do not split it in three parts is no canonical
/// core rendering.
proof fn lemma_no_canon_without_dots(s: Seq<char>, i: int, j: int)
    requires
        0 <= i <= j <= s.len(),
        forall|k: int| 0 <= k < i ==> s[k] != '.',
        i < s.len() ==> s[i] == '.',
        forall|k: int| i < k < j ==> s[k] != '.',
        j == s.len(),
    ensures
        spec_parse_core(s) is None,
{
    if exists|v: VersionCore| #[trigger] core_canon(v) == s {
        let v = choose|v: VersionCore| core_canon(v) == s;
        lemma_core_structure(v);
        let l1 = dec_str(v.major as nat).len() as int;
        let l2 = dec_str(v.minor as nat).len() as int;
        assert(s[l1] == '.');
        assert(s[l1 + 1 + l2] == '.');
        assert(l1 < l1 + 1 + l2 < s.len());
        // Every dot must stand at position `i`: it is neither before `i`
        // nor strictly between `i` and `j == s.len()`. Two distinct dots
        // cannot both do so.
        assert(l1 == i);
        assert(l1 + 1 + l2 == i);
        assert(false);
    }
}

/// With the first two dots found at `i` and `j`, the three parts between
/// them decide the parse: if any part is no canonical numeral, the whole
/// string is no canonical rendering; if all are, the string renders the
/// version they spell.
proof fn lemma_parts_decide(s: Seq<char>, i: int, j: int)
    requires
        0 <= i < j < s.len(),
        forall|k: int| 0 <= k < i ==> s[k] != '.',
        s[i] == '.',
        forall|k: int| i < k < j ==> s[k] != '.',
        s[j] == '.',
    ensures
        forall|v: VersionCore| #[trigger] core_canon(v) == s ==> dec_str(v.major as nat)
            == s.subrange(0, i) && dec_str(v.minor as nat) == s.subrange(i + 1, j) && dec_str(
            v.patch as nat,
        ) == s.subrange(j + 1, s.len() as int),
{
    assert forall|v: VersionCore| #[trigger] core_canon(v) == s implies dec_str(v.major as nat)
        == s.subrange(0, i) && dec_str(v.minor as nat) == s.subrange(i + 1, j) && dec_str(
        v.patch as nat,
    ) == s.subrange(j + 1, s.len() as int) by {
        lemma_core_structure(v);
        let l1 = dec_str(v.major as nat).len() as int;
        let l2 = dec_str(v.minor as nat).len() as int;
        assert(s[l1] == '.');
        assert(s[l1 + 1 + l2] == '.');
        assert(i == l1);
        assert(j == l1 + 1 + l2);
    }
}

/// Every character of a canonical core rendering is a digit or a dot.
proof fn lemma_core_chars(v: VersionCore)
    ensures
        forall|k: int|
            0 <= k < core_canon(v).len() ==> is_digit(#[trigger] core_canon(v)[k]) || core_canon(
                v,
            )[k] == '.',
{
    let a = dec_str(v.major as nat);
    let b = dec_str(v.minor as nat);
    let c = dec_str(v.patch as nat);
    let s = core_canon(v);
    lemma_core_structure(v);
    lemma_dec_str(v.major as nat);
    lemma_dec_str(v.minor as nat);
    lemma_dec_str(v.patch as nat);
    assert forall|k: int| 0 <= k < s.len() implies is_digit(#[trigger] s[k]) || s[k] == '.' by {
        if k < a.len() {
            assert(s[k] == s.subrange(0, a.len() as int)[k]);
        } else if a.len() + 1 <= k < a.len() + 1 + b.len() {
            assert(s[k] == s.subrange(a.len() as int + 1, a.len() as int + 1 + b.len() as int)[k
                - (a.len() + 1)]);
        } else if k >= a.len() + b.len() + 2 {
            assert(s[k] == s.subrange(a.len() as int + b.len() as int + 2, s.len() as int)[k - (
            a.len() + b.len() + 2)]);
        }
    }
}

/// Whether a character may stand in a pre-release identifier: an ASCII
/// digit, letter, or hyphen.
pub open spec fn is_pre_char(c: char) -> bool {
    ||| is_digit(c)
    ||| 65 <= c as int <= 90
    ||| 97 <= c as int <= 122
    ||| c == '-'
}

/// A well-formed pre-release suffix: nonempty dot-separated identifiers,
/// each nonempty, over digits, ASCII letters and hyphens.
pub open spec fn pre_wf(p: Seq<char>) -> bool {
    &&& p.len() > 0
    &&& (forall|i: int| 0 <= i < p.len() ==> is_pre_char(#[trigger] p[i]) || p[i] == '.')
    &&& p[0] != '.'
    &&& p[p.len() - 1] != '.'
    &&& (forall|i: int| 0 <= i < p.len() - 1 ==> !(#[trigger] p[i] == '.' && p[i + 1] == '.'))
}

/// Check a pre-release suffix for well-formedness.
pub fn check_pre_release(s: &str) -> (b: bool)
    ensures
        b == pre_wf(s@),
{
    let len = s.unicode_len();
    if len == 0 {
        return false;
    }
    let mut prev_dot = false;
    let mut i: usize = 0;
    while i < len
        invariant
            0 < len == s@.len(),
            0 <= i <= len,
            forall|k: int| 0 <= k < i ==> is_pre_char(#[trigger] s@[k]) || s@[k] == '.',
            s@[0] != '.' || i == 0,
            forall|k: int| 0 <= k < i - 1 ==> !(#[trigger] s@[k] == '.' && s@[k + 1] == '.'),
            prev_dot == (i > 0 && s@[i - 1] == '.'),
        decreases len - i,
    {
        let c = s.get_char(i);
        let v = c as u32;
        let is_dot = v == 46;
        let ok = (48 <= v && v <= 57) || (65 <= v && v <= 90) || (97 <= v && v <= 122) || v == 45
            || is_dot;
        proof {
            assert('.' as int == 46);
            assert('-' as int == 45);
        }
        if !ok {
            return false;
        }
        if is_dot && (i == 0 || prev_dot) {
            return false;
        }
        prev_dot = is_dot;
        i += 1;
    }
    !prev_dot
}

/// A structured semantic version: the numeric core, and an optional
/// pre-release suffix.
#[derive(Clone, PartialEq, Eq, Debug)]
pub struct Version {
    pub core: VersionCore,
    pub pre: Option<String>,
}

#[verifier::ext_equal]
pub struct VersionV {
    pub core: VersionCore,
    pub pre: Option<Seq<char>>,
}

impl View for Version {
    type V = VersionV;

    open spec fn view(&self) -> VersionV {
        VersionV {
            core: self.core,
            pre: match self.pre {
                Some(ref p) => Some(p@),
                None => None,
            },
        }
    }
}

impl VersionV {
    /// A well-formed version: any pre-release suffix is one.
    pub open spec fn wf(self) -> bool {
        self.pre matches Some(p) ==> pre_wf(p)
    }
}

/// The canonical rendering of a version: the core, then `-` and the
/// pre-release suffix where one is present.
pub open spec fn version_canon(v: VersionV) -> Seq<char> {
    match v.pre {
        None => core_canon(v.core),
        Some(p) => core_canon(v.core) + seq!['-'] + p,
    }
}

/// The well-formed version whose canonical rendering a string is, if any.
pub open spec fn spec_parse_version(s: Seq<char>) -> Option<VersionV> {
    if exists|v: VersionV| v.wf() && #[trigger] version_canon(v) == s {
        Some(choose|v: VersionV| v.wf() && version_canon(v) == s)
    } else {
        None
    }
}

/// Canonical renderings of distinct well-formed versions are distinct.
pub proof fn lemma_version_canon_injective(v1: VersionV, v2: VersionV)
    requires
        v1.wf(),
        v2.wf(),
        version_canon(v1) == version_canon(v2),
    ensures
        v1 == v2,
{
    let s = version_canon(v1);
    lemma_core_chars(v1.core);
    lemma_core_chars(v2.core);
    let l1 = core_canon(v1.core).len() as int;
    let l2 = core_canon(v2.core).len() as int;
    assert('-' as int == 45);
    assert('.' as int == 46);
    match (v1.pre, v2.pre) {
        (None, None) => {
            lemma_core_canon_injective(v1.core, v2.core);
            assert(v1 =~~= v2);
        },
        (None, Some(p2)) => {
            assert(s[l2] == '-');
            assert(is_digit(s[l2]) || s[l2] == '.');
            assert(false);
        },
        (Some(p1), None) => {
            assert(s[l1] == '-');
            assert(is_digit(s[l1]) || s[l1] == '.');
            assert(false);
        },
        (Some(p1), Some(p2)) => {
            assert(l1 == l2) by {
                if l1 < l2 {
                    assert(s[l1] == '-');
                    assert(is_digit(s[l1]) || s[l1] == '.');
                } else if l2 < l1 {
                    assert(s[l2] == '-');
                    assert(is_digit(s[l2]) || s[l2] == '.');
                }
            }
            assert(core_canon(v1.core) =~= s.subrange(0, l1));
            assert(core_canon(v2.core) =~= s.subrange(0, l2));
            lemma_core_canon_injective(v1.core, v2.core);
            assert(p1 =~= s.subrange(l1 + 1, s.len() as int));
            assert(p2 =~= s.subrange(l2 + 1, s.len() as int));
            assert(v1 =~~= v2);
        },
    }
}

/// Parsing accepts every canonical rendering of a well-formed version, and
/// gives back the version that was rendered.
pub proof fn lemma_parse_canon(v: VersionV)
    requires
        v.wf(),
    ensures
        spec_parse_version(version_canon(v)) == Some(v),
{
    let s = version_canon(v);
    assert(exists|w: VersionV| w.wf() && #[trigger] version_canon(w) == s);
    let w = choose|w: VersionV| w.wf() && version_canon(w) == s;
    lemma_version_canon_injective(w, v);
}

/// Render a version canonically.
pub fn render_version(v: &Version) -> (r: String)
    ensures
        r@ == version_canon(v@),
{
    let mut s = render_core(&v.core);
    match &v.pre {
        Some(p) => {
            proof {
                reveal_strlit("-");
                assert("-"@ =~= seq!['-']);
            }
            s.append("-");
            s.append(p.as_str());
            proof {
                assert(s@ =~= version_canon(v@));
            }
        },
        None => {},
    }
    s
}

/// Parse a version string: the canonical core, optionally followed by `-`
/// and a well-formed pre-release suffix. Everything after the first hyphen
/// is the suffix, since the core holds no hyphen.
pub fn parse_version(s: &str) -> (r: Option<Version>)
    ensures
        r matches Some(v) ==> v@.wf() && spec_parse_version(s@) == Some(v@),
        r is None ==> spec_parse_version(s@) is None,
{
    let len = s.unicode_len();
    let mut h: usize = 0;
    while h < len && (s.get_char(h) as u32) != 45
        invariant
            0 <= h <= len,
            len == s@.len(),
            forall|k: int| 0 <= k < h ==> s@[k] != '-',
        decreases len - h,
    {
        proof {
            assert('-' as int == 45);
        }
        h += 1;
    }
    proof {
        assert('-' as int == 45);
    }
    if h >= len {
        let core = match parse_core(s) {
            Some(c) => c,
            None => {
                proof {
                    lemma_no_version_here(s@, len as int);
                }
                return None;
            },
        };
        let v = Version { core, pre: None };
        proof {
            assert(version_canon(v@) == s@);
            lemma_parse_canon(v@);
        }
        return Some(v);
    }
    let core_str = s.substring_char(0, h);
    let pre_str = s.substring_char(h + 1, len);
    if !check_pre_release(pre_str) {
        proof {
            lemma_no_version_with_dash(s@, h as int);
        }
        return None;
    }
    let core = match parse_core(core_str) {
        Some(c) => c,
        None => {
            proof {
                lemma_no_version_with_dash(s@, h as int);
            }
            return None;
        },
    };
    let v = Version { core, pre: Some(String::from_str(pre_str)) };
    proof {
        assert(version_canon(v@) =~= s@);
        lemma_parse_canon(v@);
    }
    Some(v)
}

/// In a string without a hyphen, only a bare core can be a version
/// rendering.
proof fn lemma_no_version_here(s: Seq<char>, len: int)
    requires
        len == s.len(),
        forall|k: int| 0 <= k < len ==> s[k] != '-',
        spec_parse_core(s) is None,
    ensures
        spec_parse_version(s) is None,
{
    assert('-' as int == 45);
    if exists|v: VersionV| v.wf() && #[trigger] version_canon(v) == s {
        let v = choose|v: VersionV| v.wf() && version_canon(v) == s;
        match v.pre {
            None => {
                assert(core_canon(v.core) == s);
                assert(false);
            },
            Some(p) => {
                let l = core_canon(v.core).len() as int;
                assert(s[l] == '-');
                assert(false);
            },
        }
    }
}

/// With the first hyphen at `h`, a version rendering splits there: the core
/// before it, the pre-release suffix after it. If either part fails, the
/// string renders no well-formed version.
proof fn lemma_no_version_with_dash(s: Seq<char>, h: int)
    requires
        0 <= h < s.len(),
        forall|k: int| 0 <= k < h ==> s[k] != '-',
        s[h] == '-',
        !pre_wf(s.subrange(h + 1, s.len() as int)) || spec_parse_core(s.subrange(0, h)) is None,
    ensures
        spec_parse_version(s) is None,
{
    assert('-' as int == 45);
    assert('.' as int == 46);
    if exists|v: VersionV| v.wf() && #[trigger] version_canon(v) == s {
        let v = choose|v: VersionV| v.wf() && version_canon(v) == s;
        lemma_core_chars(v.core);
        let l = core_canon(v.core).len() as int;
        match v.pre {
            None => {
                assert(is_digit(s[h]) || s[h] == '.');
                assert(false);
            },
            Some(p) => {
                assert(l == h) by {
                    if l < h {
                        assert(s[l] == '-');
                    } else if h < l {
                        assert(is_digit(s[h]) || s[h] == '.');
                    }
                }
                assert(core_canon(v.core) =~= s.subrange(0, h));
                assert(p =~= s.subrange(h + 1, s.len() as int));
                lemma_parse_core_canon(v.core);
                assert(false);
            },
        }
    }
}

} // verus!

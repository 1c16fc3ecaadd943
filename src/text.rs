use vstd::prelude::*;

verus! {

// ---------------------------------------------------------------------------
// Unsigned integer text: decimal digits, or `0x` followed by hexadecimal
// digits, each optionally preceded by `+`.
// ---------------------------------------------------------------------------

/// The value of the digit `c` in base `radix` (10 or 16), if it is one.
pub open spec fn digit_value(c: char, radix: nat) -> Option<nat> {
    if '0' <= c && c <= '9' {
        Some((c as nat - '0' as nat) as nat)
    } else if radix == 16 && 'a' <= c && c <= 'f' {
        Some((c as nat - 'a' as nat + 10) as nat)
    } else if radix == 16 && 'A' <= c && c <= 'F' {
        Some((c as nat - 'A' as nat + 10) as nat)
    } else {
        None
    }
}

pub open spec fn all_digits(s: Seq<char>, radix: nat) -> bool {
    forall|i: int| 0 <= i < s.len() ==> (#[trigger] digit_value(s[i], radix)) is Some
}

/// The number that a string of digits in base `radix` writes.
pub open spec fn digits_value(s: Seq<char>, radix: nat) -> nat
    decreases s.len(),
{
    if s.len() == 0 {
        0
    } else {
        digits_value(s.drop_last(), radix) * radix + digit_value(s.last(), radix).unwrap_or(0)
    }
}

/// The value of a non-empty run of digits in base `radix`, with an optional
/// leading `+`.
pub open spec fn radix_text_value(s: Seq<char>, radix: nat) -> Option<nat> {
    let d = if s.len() > 0 && s[0] == '+' { s.skip(1) } else { s };
    if d.len() > 0 && all_digits(d, radix) {
        Some(digits_value(d, radix))
    } else {
        None
    }
}

/// The value of an unsigned count field: hexadecimal after a `0x` prefix,
/// decimal otherwise.
pub open spec fn count_value(s: Seq<char>) -> Option<nat> {
    if s.len() >= 2 && s[0] == '0' && s[1] == 'x' {
        radix_text_value(s.skip(2), 16)
    } else {
        radix_text_value(s, 10)
    }
}

proof fn lemma_digits_prefix(s: Seq<char>, radix: nat, j: int)
    requires
        radix >= 1,
        0 <= j <= s.len(),
    ensures
        digits_value(s.take(j), radix) <= digits_value(s, radix),
    decreases s.len(),
{
    if j < s.len() {
        lemma_digits_prefix(s.drop_last(), radix, j);
        assert(s.drop_last().take(j) =~= s.take(j));
        let a = digits_value(s.drop_last(), radix);
        assert(a * radix >= a) by (nonlinear_arith)
            requires radix >= 1;
    } else {
        assert(s.take(j) =~= s);
    }
}

fn digit_of(c: char, radix: u32) -> (r: Option<u32>)
    requires
        radix == 10 || radix == 16,
    ensures
        match r {
            Some(v) => digit_value(c, radix as nat) == Some(v as nat) && v < radix,
            None => digit_value(c, radix as nat) is None,
        },
{
    if '0' <= c && c <= '9' {
        Some(c as u32 - '0' as u32)
    } else if radix == 16 && 'a' <= c && c <= 'f' {
        Some(c as u32 - 'a' as u32 + 10)
    } else if radix == 16 && 'A' <= c && c <= 'F' {
        Some(c as u32 - 'A' as u32 + 10)
    } else {
        None
    }
}

/// Reads `cs[lo..]` as digits in base `radix` with an optional leading `+`.
fn radix_value_in(cs: &Vec<char>, lo: usize, radix: u32) -> (r: Option<usize>)
    requires
        lo <= cs@.len(),
        radix == 10 || radix == 16,
    ensures
        match r {
            Some(n) => radix_text_value(cs@.skip(lo as int), radix as nat) == Some(n as nat),
            None => match radix_text_value(cs@.skip(lo as int), radix as nat) {
                Some(v) => v > usize::MAX,
                None => true,
            },
        },
{
    let ghost s = cs@.skip(lo as int);
    let mut st: usize = lo;
    if lo < cs.len() && cs[lo] == '+' {
        st = lo + 1;
    }
    let ghost d = cs@.skip(st as int);
    assert(s.len() > 0 ==> s[0] == cs@[lo as int]);
    assert(d =~= (if s.len() > 0 && s[0] == '+' { s.skip(1) } else { s }));
    if st == cs.len() {
        return None;
    }
    let mut acc: usize = 0;
    let mut i: usize = st;
    while i < cs.len()
        invariant
            st <= i <= cs@.len(),
            d == cs@.skip(st as int),
            d.len() > 0,
            s == cs@.skip(lo as int),
            radix_text_value(s, radix as nat) == (if all_digits(d, radix as nat) {
                Some(digits_value(d, radix as nat))
            } else {
                None::<nat>
            }),
            radix == 10 || radix == 16,
            all_digits(d.take(i - st), radix as nat),
            acc as nat == digits_value(d.take(i - st), radix as nat),
        decreases cs@.len() - i,
    {
        let ghost k = i - st;
        assert(d.take(k + 1).drop_last() =~= d.take(k));
        assert(d[k] == cs@[i as int]);
        assert(d.take(k + 1).last() == d[k]);
        match digit_of(cs[i], radix) {
            None => {
                assert(digit_value(d[k], radix as nat) is None);
                return None;
            },
            Some(v) => {
                assert(all_digits(d.take(k + 1), radix as nat)) by {
                    assert forall|j: int| 0 <= j < k + 1 implies
                        (#[trigger] digit_value(d.take(k + 1)[j], radix as nat)) is Some by {
                        if j < k {
                            assert(d.take(k + 1)[j] == d.take(k)[j]);
                        }
                    }
                }
                if acc > (usize::MAX - v as usize) / radix as usize {
                    proof {
                        assert(acc * radix + v > usize::MAX) by (nonlinear_arith)
                            requires
                                acc > (usize::MAX - v) / radix as int,
                                radix > 0,
                                v < radix,
                        ;
                        if all_digits(d, radix as nat) {
                            lemma_digits_prefix(d, radix as nat, k + 1);
                        }
                    }
                    return None;
                }
                proof {
                    assert(acc * radix + v <= usize::MAX) by (nonlinear_arith)
                        requires
                            acc <= (usize::MAX - v) / radix as int,
                            radix > 0,
                            v < radix,
                    ;
                }
                acc = acc * radix as usize + v as usize;
            },
        }
        i = i + 1;
    }
    assert(d.take(i - st) =~= d);
    Some(acc)
}

/// Reads an unsigned count field: `0x` and hexadecimal digits, or decimal
/// digits, either after an optional `+`.
pub fn parse_count(s: &String) -> (r: Option<usize>)
    ensures
        match r {
            Some(n) => count_value(s@) == Some(n as nat),
            None => match count_value(s@) {
                Some(v) => v > usize::MAX,
                None => true,
            },
        },
{
    let cs = chars_of(s);
    if cs.len() >= 2 && cs[0] == '0' && cs[1] == 'x' {
        radix_value_in(&cs, 2, 16)
    } else {
        assert(cs@.skip(0) =~= cs@);
        radix_value_in(&cs, 0, 10)
    }
}

/// The characters of `s`, in order.
pub fn chars_of(s: &String) -> (r: Vec<char>)
    ensures
        r@ == s@,
{
    let t = s.as_str();
    let n = t.unicode_len();
    let mut out: Vec<char> = Vec::new();
    let mut i: usize = 0;
    while i < n
        invariant
            n == t@.len(),
            t@ == s@,
            i <= n,
            out@ == t@.take(i as int),
        decreases n - i,
    {
        out.push(t.get_char(i));
        i = i + 1;
        assert(out@ =~= t@.take(i as int));
    }
    assert(t@.take(n as int) =~= t@);
    out
}

// ---------------------------------------------------------------------------
// Floating-point text:
//   Float    ::= Sign? ( 'inf' | 'infinity' | 'nan' | Number )
//   Number   ::= ( Digit+ | Digit+ '.' Digit* | Digit* '.' Digit+ ) Exp?
//   Exp      ::= ( 'e' | 'E' ) Sign? Digit+
// where the three words may be written in any mix of upper and lower case.
// ---------------------------------------------------------------------------

pub open spec fn is_dec_digit(c: char) -> bool {
    '0' <= c && c <= '9'
}

pub open spec fn dec_digits(s: Seq<char>) -> bool {
    forall|i: int| 0 <= i < s.len() ==> #[trigger] is_dec_digit(s[i])
}

pub open spec fn is_exp_mark(c: char) -> bool {
    c == 'e' || c == 'E'
}

pub open spec fn is_sign(c: char) -> bool {
    c == '+' || c == '-'
}

/// `s` without one leading sign, if it has one.
pub open spec fn unsigned_part(s: Seq<char>) -> Seq<char> {
    if s.len() > 0 && is_sign(s[0]) { s.skip(1) } else { s }
}

/// Digits with at most one decimal point, and at least one digit.
pub open spec fn mantissa_ok(m: Seq<char>) -> bool {
    (m.len() > 0 && dec_digits(m)) || exists|p: int|
        0 <= p < m.len() && m[p] == '.' && m.len() >= 2 && dec_digits(#[trigger] m.take(p))
            && dec_digits(m.skip(p + 1))
}

pub open spec fn exponent_ok(e: Seq<char>) -> bool {
    let d = unsigned_part(e);
    d.len() > 0 && dec_digits(d)
}

pub open spec fn decimal_ok(b: Seq<char>) -> bool {
    mantissa_ok(b) || exists|p: int|
        0 <= p < b.len() && is_exp_mark(b[p]) && mantissa_ok(#[trigger] b.take(p))
            && exponent_ok(b.skip(p + 1))
}

/// `c` is the lower-case letter `l` in either case.
pub open spec fn same_letter(c: char, l: char) -> bool {
    c == l || c as u32 == l as u32 - 32
}

pub open spec fn special_ok(b: Seq<char>) -> bool {
    (b.len() == 3 && same_letter(b[0], 'i') && same_letter(b[1], 'n') && same_letter(b[2], 'f'))
        || (b.len() == 8 && same_letter(b[0], 'i') && same_letter(b[1], 'n') && same_letter(
        b[2],
        'f',
    ) && same_letter(b[3], 'i') && same_letter(b[4], 'n') && same_letter(b[5], 'i')
        && same_letter(b[6], 't') && same_letter(b[7], 'y')) || (b.len() == 3 && same_letter(
        b[0],
        'n',
    ) && same_letter(b[1], 'a') && same_letter(b[2], 'n'))
}

/// `s` is the text of a floating-point number.
pub open spec fn float_text_ok(s: Seq<char>) -> bool {
    let b = unsigned_part(s);
    special_ok(b) || decimal_ok(b)
}

proof fn lemma_mantissa_chars(m: Seq<char>, i: int)
    requires
        mantissa_ok(m),
        0 <= i < m.len(),
    ensures
        is_dec_digit(m[i]) || m[i] == '.',
{
    if !(m.len() > 0 && dec_digits(m)) {
        let p = choose|p: int|
            0 <= p < m.len() && m[p] == '.' && m.len() >= 2 && dec_digits(#[trigger] m.take(p))
                && dec_digits(m.skip(p + 1));
        if i < p {
            assert(m.take(p)[i] == m[i]);
        } else if i > p {
            assert(m.skip(p + 1)[i - p - 1] == m[i]);
        }
    }
}

fn dec_digits_in(cs: &Vec<char>, lo: usize, hi: usize) -> (r: bool)
    requires
        lo <= hi <= cs@.len(),
    ensures
        r == dec_digits(cs@.subrange(lo as int, hi as int)),
{
    let mut i: usize = lo;
    while i < hi
        invariant
            lo <= i <= hi <= cs@.len(),
            forall|j: int| lo <= j < i ==> is_dec_digit(cs@[j]),
        decreases hi - i,
    {
        if !('0' <= cs[i] && cs[i] <= '9') {
            assert(cs@.subrange(lo as int, hi as int)[i - lo] == cs@[i as int]);
            assert(!is_dec_digit(cs@.subrange(lo as int, hi as int)[i - lo]));
            return false;
        }
        i = i + 1;
    }
    assert forall|j: int| 0 <= j < hi - lo implies #[trigger] is_dec_digit(
        cs@.subrange(lo as int, hi as int)[j],
    ) by {
        assert(cs@.subrange(lo as int, hi as int)[j] == cs@[lo + j]);
    }
    true
}

/// The first index in `lo..hi` whose character satisfies `exp` (an exponent
/// mark) or else is a decimal point; `hi` when there is none.
fn find_in(cs: &Vec<char>, lo: usize, hi: usize, exp: bool) -> (r: usize)
    requires
        lo <= hi <= cs@.len(),
    ensures
        lo <= r <= hi,
        r < hi ==> (if exp { is_exp_mark(cs@[r as int]) } else { cs@[r as int] == '.' }),
        forall|j: int|
            lo <= j < r ==> !(if exp { is_exp_mark(#[trigger] cs@[j]) } else { cs@[j] == '.' }),
{
    let mut i: usize = lo;
    while i < hi
        invariant
            lo <= i <= hi <= cs@.len(),
            forall|j: int|
                lo <= j < i ==> !(if exp { is_exp_mark(#[trigger] cs@[j]) } else { cs@[j] == '.' }),
        decreases hi - i,
    {
        let c = cs[i];
        if (exp && (c == 'e' || c == 'E')) || (!exp && c == '.') {
            return i;
        }
        i = i + 1;
    }
    hi
}

fn mantissa_in(cs: &Vec<char>, lo: usize, hi: usize) -> (r: bool)
    requires
        lo <= hi <= cs@.len(),
    ensures
        r == mantissa_ok(cs@.subrange(lo as int, hi as int)),
{
    let ghost m = cs@.subrange(lo as int, hi as int);
    let p = find_in(cs, lo, hi, false);
    if p == hi {
        let r = hi > lo && dec_digits_in(cs, lo, hi);
        proof {
            if exists|q: int|
                0 <= q < m.len() && m[q] == '.' && m.len() >= 2 && dec_digits(#[trigger] m.take(q))
                    && dec_digits(m.skip(q + 1)) {
                let q = choose|q: int|
                    0 <= q < m.len() && m[q] == '.' && m.len() >= 2 && dec_digits(
                        #[trigger] m.take(q),
                    ) && dec_digits(m.skip(q + 1));
                assert(m[q] == cs@[lo + q]);
            }
        }
        r
    } else {
        let r = hi - lo >= 2 && dec_digits_in(cs, lo, p) && dec_digits_in(cs, p + 1, hi);
        proof {
            let k = p - lo;
            assert(m.take(k) =~= cs@.subrange(lo as int, p as int));
            assert(m.skip(k + 1) =~= cs@.subrange(p + 1, hi as int));
            assert(m[k] == '.');
            assert(!dec_digits(m)) by {
                assert(!is_dec_digit(m[k]));
            }
            if mantissa_ok(m) {
                let q = choose|q: int|
                    0 <= q < m.len() && m[q] == '.' && m.len() >= 2 && dec_digits(
                        #[trigger] m.take(q),
                    ) && dec_digits(m.skip(q + 1));
                if q < k {
                    assert(m[q] == cs@[lo + q]);
                } else if q > k {
                    assert(m.take(q)[k] == m[k]);
                }
            }
        }
        r
    }
}

fn exponent_in(cs: &Vec<char>, lo: usize, hi: usize) -> (r: bool)
    requires
        lo <= hi <= cs@.len(),
    ensures
        r == exponent_ok(cs@.subrange(lo as int, hi as int)),
{
    let ghost e = cs@.subrange(lo as int, hi as int);
    let mut st = lo;
    if lo < hi && (cs[lo] == '+' || cs[lo] == '-') {
        st = lo + 1;
    }
    assert(unsigned_part(e) =~= cs@.subrange(st as int, hi as int));
    st < hi && dec_digits_in(cs, st, hi)
}

fn decimal_in(cs: &Vec<char>, lo: usize, hi: usize) -> (r: bool)
    requires
        lo <= hi <= cs@.len(),
    ensures
        r == decimal_ok(cs@.subrange(lo as int, hi as int)),
{
    let ghost b = cs@.subrange(lo as int, hi as int);
    let p = find_in(cs, lo, hi, true);
    if p == hi {
        let r = mantissa_in(cs, lo, hi);
        proof {
            if exists|q: int|
                0 <= q < b.len() && is_exp_mark(b[q]) && mantissa_ok(#[trigger] b.take(q))
                    && exponent_ok(b.skip(q + 1)) {
                let q = choose|q: int|
                    0 <= q < b.len() && is_exp_mark(b[q]) && mantissa_ok(#[trigger] b.take(q))
                        && exponent_ok(b.skip(q + 1));
                assert(b[q] == cs@[lo + q]);
            }
        }
        r
    } else {
        let r = mantissa_in(cs, lo, p) && exponent_in(cs, p + 1, hi);
        proof {
            let k = p - lo;
            assert(b.take(k) =~= cs@.subrange(lo as int, p as int));
            assert(b.skip(k + 1) =~= cs@.subrange(p + 1, hi as int));
            assert(is_exp_mark(b[k]));
            if mantissa_ok(b) {
                lemma_mantissa_chars(b, k);
            }
            if exists|q: int|
                0 <= q < b.len() && is_exp_mark(b[q]) && mantissa_ok(#[trigger] b.take(q))
                    && exponent_ok(b.skip(q + 1)) {
                let q = choose|q: int|
                    0 <= q < b.len() && is_exp_mark(b[q]) && mantissa_ok(#[trigger] b.take(q))
                        && exponent_ok(b.skip(q + 1));
                if q < k {
                    assert(b[q] == cs@[lo + q]);
                } else if q > k {
                    lemma_mantissa_chars(b.take(q), k);
                }
            }
        }
        r
    }
}

fn same_letter_exec(c: char, l: char) -> (r: bool)
    requires
        'a' <= l <= 'z',
    ensures
        r == same_letter(c, l),
{
    c == l || c as u32 == l as u32 - 32
}

fn special_in(cs: &Vec<char>, lo: usize, hi: usize) -> (r: bool)
    requires
        lo <= hi <= cs@.len(),
    ensures
        r == special_ok(cs@.subrange(lo as int, hi as int)),
{
    let ghost b = cs@.subrange(lo as int, hi as int);
    let n = hi - lo;
    if n == 3 {
        assert(b[0] == cs@[lo as int] && b[1] == cs@[lo + 1] && b[2] == cs@[lo + 2]);
        (same_letter_exec(cs[lo], 'i') && same_letter_exec(cs[lo + 1], 'n') && same_letter_exec(
            cs[lo + 2],
            'f',
        )) || (same_letter_exec(cs[lo], 'n') && same_letter_exec(cs[lo + 1], 'a')
            && same_letter_exec(cs[lo + 2], 'n'))
    } else if n == 8 {
        assert(b[0] == cs@[lo as int] && b[1] == cs@[lo + 1] && b[2] == cs@[lo + 2] && b[3]
            == cs@[lo + 3] && b[4] == cs@[lo + 4] && b[5] == cs@[lo + 5] && b[6] == cs@[lo + 6]
            && b[7] == cs@[lo + 7]);
        same_letter_exec(cs[lo], 'i') && same_letter_exec(cs[lo + 1], 'n') && same_letter_exec(
            cs[lo + 2],
            'f',
        ) && same_letter_exec(cs[lo + 3], 'i') && same_letter_exec(cs[lo + 4], 'n')
            && same_letter_exec(cs[lo + 5], 'i') && same_letter_exec(cs[lo + 6], 't')
            && same_letter_exec(cs[lo + 7], 'y')
    } else {
        false
    }
}

/// Tells whether `s` is the text of a floating-point number.
pub fn is_float_text(s: &String) -> (r: bool)
    ensures
        r == float_text_ok(s@),
{
    let cs = chars_of(s);
    let n = cs.len();
    let mut st: usize = 0;
    if n > 0 && (cs[0] == '+' || cs[0] == '-') {
        st = 1;
    }
    assert(unsigned_part(s@) =~= cs@.subrange(st as int, n as int));
    special_in(&cs, st, n) || decimal_in(&cs, st, n)
}

} // verus!

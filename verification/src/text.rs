//! Character-level text helpers: equality, decimal rendering and parsing,
//! and escape handling for quoted strings.

use vstd::prelude::*;
use vstd::string::StrSliceExecFns;
use vstd::string::StringExecFns;

verus! {

/// Relies on `String::push`: appends exactly the given character at the end.
#[verifier::external_body]
pub(crate) fn push_char(s: &mut String, c: char)
    ensures
        final(s)@ == old(s)@.push(c),
{
    s.push(c);
}

/// Character-by-character string equality.
pub fn str_eq(a: &str, b: &str) -> (r: bool)
    ensures
        r == (a@ == b@),
{
    let an = a.unicode_len();
    let bn = b.unicode_len();
    if an != bn {
        return false;
    }
    let mut i: usize = 0;
    while i < an
        invariant
            i <= an,
            an == a@.len(),
            an == b@.len(),
            forall|j: int| 0 <= j < i ==> a@[j] == b@[j],
        decreases an - i,
    {
        if a.get_char(i) != b.get_char(i) {
            return false;
        }
        i = i + 1;
    }
    proof {
        assert(a@ =~= b@);
    }
    true
}

/// The decimal digit character for a value below ten.
pub open spec fn spec_digit_char(d: int) -> char {
    if d == 0 {
        '0'
    } else if d == 1 {
        '1'
    } else if d == 2 {
        '2'
    } else if d == 3 {
        '3'
    } else if d == 4 {
        '4'
    } else if d == 5 {
        '5'
    } else if d == 6 {
        '6'
    } else if d == 7 {
        '7'
    } else if d == 8 {
        '8'
    } else {
        '9'
    }
}

/// The usual decimal rendering of a natural number, most significant digit
/// first, with no leading zeroes.
pub open spec fn spec_dec_seq(n: nat) -> Seq<char>
    decreases n,
{
    if n < 10 {
        seq![spec_digit_char(n as int)]
    } else {
        spec_dec_seq(n / 10).push(spec_digit_char((n % 10) as int))
    }
}

/// Renders a number in decimal.
pub fn fmt_usize(n: usize) -> (r: String)
    ensures
        r@ == spec_dec_seq(n as nat),
    decreases n,
{
    let digits = "0123456789";
    proof {
        reveal_strlit("0123456789");
    }
    let d: usize = n % 10;
    let ds = digits.substring_char(d, d + 1);
    proof {
        assert(ds@ =~= seq![spec_digit_char(d as int)]);
    }
    if n < 10 {
        ds.to_owned()
    } else {
        let front = fmt_usize(n / 10);
        let r = front.concat(ds);
        proof {
            assert(r@ =~= spec_dec_seq((n / 10) as nat).push(spec_digit_char((n % 10) as int)));
        }
        r
    }
}

/// The decimal rendering reads back to the number it renders.
pub proof fn lemma_dec_seq_value(n: nat)
    ensures
        spec_dec_value(spec_dec_seq(n)) == n,
        spec_dec_seq(n).len() >= 1,
    decreases n,
{
    if n < 10 {
        assert(spec_dec_value(Seq::<char>::empty()) == 0);
        assert(seq![spec_digit_char(n as int)].drop_last() =~= Seq::<char>::empty());
        assert(spec_digit_val(spec_digit_char(n as int)) == n);
    } else {
        lemma_dec_seq_value(n / 10);
        assert(spec_dec_seq(n).drop_last() =~= spec_dec_seq(n / 10));
        assert(spec_dec_seq(n).last() == spec_digit_char((n % 10) as int));
        assert(spec_digit_val(spec_digit_char((n % 10) as int)) == n % 10);
    }
}

/// Appending to equal prefixes, equal results mean equal suffixes.
pub proof fn lemma_concat_cancel(base: Seq<char>, x: Seq<char>, y: Seq<char>)
    requires
        base + x == base + y,
    ensures
        x == y,
{
    assert(x =~= (base + x).skip(base.len() as int));
    assert(y =~= (base + y).skip(base.len() as int));
}

pub open spec fn spec_is_digit(c: char) -> bool {
    '0' <= c && c <= '9'
}

pub open spec fn spec_digit_val(c: char) -> int {
    c as int - '0' as int
}

pub open spec fn spec_all_digits(s: Seq<char>) -> bool {
    forall|i: int| 0 <= i < s.len() ==> spec_is_digit(#[trigger] s[i])
}

/// The value of a digit string read in base ten.
pub open spec fn spec_dec_value(s: Seq<char>) -> int
    decreases s.len(),
{
    if s.len() == 0 {
        0
    } else {
        spec_dec_value(s.drop_last()) * 10 + spec_digit_val(s.last())
    }
}

pub open spec fn spec_strip_underscores(s: Seq<char>) -> Seq<char> {
    s.filter(|c: char| c != '_')
}

/// The mathematical value of an integer literal: after underscores are
/// removed, an optional sign followed by at least one decimal digit.
pub open spec fn spec_int_value(s: Seq<char>) -> Option<int> {
    let t = spec_strip_underscores(s);
    if t.len() >= 2 && t[0] == '+' && spec_all_digits(t.drop_first()) {
        Some(spec_dec_value(t.drop_first()))
    } else if t.len() >= 2 && t[0] == '-' && spec_all_digits(t.drop_first()) {
        Some(-spec_dec_value(t.drop_first()))
    } else if t.len() >= 1 && spec_all_digits(t) {
        Some(spec_dec_value(t))
    } else {
        None
    }
}

proof fn lemma_filter_singleton(c: char, pred: spec_fn(char) -> bool)
    ensures
        seq![c].filter(pred) == if pred(c) {
            seq![c]
        } else {
            Seq::<char>::empty()
        },
{
    reveal_with_fuel(Seq::filter, 2);
    assert(seq![c].drop_last() =~= Seq::<char>::empty());
    if pred(c) {
        assert(seq![c].filter(pred) =~= seq![c]);
    } else {
        assert(seq![c].filter(pred) =~= Seq::<char>::empty());
    }
}

/// Removes every underscore, keeping the rest in order.
pub fn strip_underscores(s: &str) -> (r: String)
    ensures
        r@ == spec_strip_underscores(s@),
{
    let n = s.unicode_len();
    let mut r = String::new();
    let mut i: usize = 0;
    while i < n
        invariant
            i <= n,
            n == s@.len(),
            r@ == spec_strip_underscores(s@.take(i as int)),
        decreases n - i,
    {
        let c = s.get_char(i);
        proof {
            assert(s@.take(i + 1) =~= s@.take(i as int) + seq![c]);
            Seq::filter_distributes_over_add(s@.take(i as int), seq![c], |x: char| x != '_');
            lemma_filter_singleton(c, |x: char| x != '_');
        }
        if c != '_' {
            push_char(&mut r, c);
            proof {
                assert(r@ =~= spec_strip_underscores(s@.take(i + 1)));
            }
        } else {
            proof {
                assert(r@ =~= spec_strip_underscores(s@.take(i + 1)));
            }
        }
        i = i + 1;
    }
    proof {
        assert(s@.take(n as int) =~= s@);
    }
    r
}

/// A digit string's value only grows as more digits are appended.
proof fn lemma_dec_value_monotone(s: Seq<char>, i: int)
    requires
        spec_all_digits(s),
        0 <= i <= s.len(),
    ensures
        spec_dec_value(s) >= spec_dec_value(s.take(i)),
        spec_dec_value(s.take(i)) >= 0,
    decreases s.len() - i,
{
    if i == s.len() {
        assert(s.take(i) =~= s);
        lemma_dec_value_nonneg(s);
    } else {
        lemma_dec_value_monotone(s, i + 1);
        assert(s.take(i + 1).drop_last() =~= s.take(i));
        assert(spec_dec_value(s.take(i + 1)) == spec_dec_value(s.take(i)) * 10 + spec_digit_val(
            s.take(i + 1).last(),
        ));
        lemma_dec_value_nonneg(s.take(i));
    }
}

proof fn lemma_dec_value_nonneg(s: Seq<char>)
    requires
        spec_all_digits(s),
    ensures
        spec_dec_value(s) >= 0,
    decreases s.len(),
{
    if s.len() > 0 {
        assert(spec_all_digits(s.drop_last()));
        lemma_dec_value_nonneg(s.drop_last());
    }
}

/// Reads an integer literal, underscores allowed anywhere, returning its
/// value when it is well formed and representable.
pub fn parse_integer_text(s: &str) -> (r: Option<i128>)
    ensures
        r == (match spec_int_value(s@) {
            Some(n) => if i128::MIN <= n <= i128::MAX {
                Some(n as i128)
            } else {
                None::<i128>
            },
            None => None::<i128>,
        }),
{
    let stripped = strip_underscores(s);
    let t = stripped.as_str();
    let n = t.unicode_len();
    if n == 0 {
        return None;
    }
    let first = t.get_char(0);
    let neg = first == '-';
    let signed = first == '-' || first == '+';
    let start: usize = if signed {
        1
    } else {
        0
    };
    let ghost digits = if signed {
        t@.drop_first()
    } else {
        t@
    };
    if signed && n == 1 {
        return None;
    }
    let mut mag: u128 = 0;
    let mut i: usize = start;
    while i < n
        invariant
            start <= i <= n,
            start == if signed {
                1int
            } else {
                0int
            },
            n == t@.len(),
            n >= 1,
            t@ == spec_strip_underscores(s@),
            signed == (t@[0] == '+' || t@[0] == '-'),
            neg == (t@[0] == '-'),
            signed ==> n >= 2,
            digits == if signed {
                t@.drop_first()
            } else {
                t@
            },
            n - start == digits.len(),
            spec_all_digits(digits.take(i - start)),
            mag as int == spec_dec_value(digits.take(i - start)),
        decreases n - i,
    {
        let c = t.get_char(i);
        if !(c >= '0' && c <= '9') {
            proof {
                assert(digits[i - start] == c);
            }
            return None;
        }
        let d: u32 = (c as u32) - ('0' as u32);
        let m10 = match mag.checked_mul(10) {
            Some(v) => v,
            None => {
                proof {
                    overflow_means_out_of_range(digits, i - start, t@, signed, neg, s@);
                }
                return None;
            },
        };
        let m = match m10.checked_add(d as u128) {
            Some(v) => v,
            None => {
                proof {
                    overflow_means_out_of_range(digits, i - start, t@, signed, neg, s@);
                }
                return None;
            },
        };
        proof {
            assert(digits.take(i - start + 1).drop_last() =~= digits.take(i - start));
            assert(digits.take(i - start + 1).last() == c);
        }
        mag = m;
        i = i + 1;
    }
    proof {
        assert(digits.take(n - start) =~= digits);
    }
    if mag > 170141183460469231731687303715884105727u128 {
        if neg && mag == 170141183460469231731687303715884105728u128 {
            proof {
                assert(spec_int_value(s@) == Some(-(mag as int)));
            }
            return Some(i128::MIN);
        }
        proof {
            check_out_of_range(t@, signed, neg, s@, mag as int);
        }
        return None;
    }
    let v = mag as i128;
    if neg {
        Some(-v)
    } else {
        Some(v)
    }
}

/// After an overflowing step, the digit string's value exceeds the
/// representable range whatever the sign.
proof fn overflow_means_out_of_range(
    digits: Seq<char>,
    i: int,
    t: Seq<char>,
    signed: bool,
    neg: bool,
    s: Seq<char>,
)
    requires
        0 <= i < digits.len(),
        spec_all_digits(digits.take(i)),
        spec_is_digit(digits[i]),
        spec_dec_value(digits.take(i)) * 10 + spec_digit_val(digits[i]) > u128::MAX,
        t == spec_strip_underscores(s),
        digits == if signed {
            t.drop_first()
        } else {
            t
        },
        signed == (t[0] == '+' || t[0] == '-'),
        neg == (t[0] == '-'),
        signed ==> t.len() >= 2,
        t.len() >= 1,
    ensures
        (match spec_int_value(s) {
            Some(n) => !(i128::MIN <= n <= i128::MAX),
            None => true,
        }),
{
    match spec_int_value(s) {
        Some(n) => {
            assert(spec_all_digits(digits));
            assert(digits.take(i + 1).drop_last() =~= digits.take(i));
            assert(spec_dec_value(digits.take(i + 1)) > u128::MAX);
            lemma_dec_value_monotone(digits, i + 1);
            assert(spec_dec_value(digits) > u128::MAX);
            if signed {
                assert(n == spec_dec_value(digits) || n == -spec_dec_value(digits));
            } else {
                assert(n == spec_dec_value(digits));
            }
        },
        None => {},
    }
}

/// A magnitude above the signed range makes the literal unrepresentable.
proof fn check_out_of_range(t: Seq<char>, signed: bool, neg: bool, s: Seq<char>, mag: int)
    requires
        t == spec_strip_underscores(s),
        t.len() >= 1,
        signed == (t[0] == '+' || t[0] == '-'),
        neg == (t[0] == '-'),
        signed ==> t.len() >= 2,
        mag == (if signed {
            spec_dec_value(t.drop_first())
        } else {
            spec_dec_value(t)
        }),
        mag > i128::MAX,
        !(neg && mag == -(i128::MIN as int)),
    ensures
        (match spec_int_value(s) {
            Some(n) => !(i128::MIN <= n <= i128::MAX),
            None => true,
        }),
{
}

/// One step of the float-literal automaton. States: `0` start, `1` after a
/// sign, `2` integer digits, `3` a point after digits, `4` fraction digits,
/// `5` an exponent marker, `6` an exponent sign, `7` exponent digits, `8` a
/// leading point, `9` reject.
pub open spec fn spec_float_step(state: int, c: char) -> int {
    if state == 0 || state == 1 {
        if spec_is_digit(c) {
            2
        } else if c == '.' {
            8
        } else if state == 0 && (c == '+' || c == '-') {
            1
        } else {
            9
        }
    } else if state == 2 {
        if spec_is_digit(c) {
            2
        } else if c == '.' {
            3
        } else if c == 'e' || c == 'E' {
            5
        } else {
            9
        }
    } else if state == 3 || state == 4 {
        if spec_is_digit(c) {
            4
        } else if c == 'e' || c == 'E' {
            5
        } else {
            9
        }
    } else if state == 5 {
        if spec_is_digit(c) {
            7
        } else if c == '+' || c == '-' {
            6
        } else {
            9
        }
    } else if state == 6 || state == 7 {
        if spec_is_digit(c) {
            7
        } else {
            9
        }
    } else if state == 8 {
        if spec_is_digit(c) {
            4
        } else {
            9
        }
    } else {
        9
    }
}

pub open spec fn spec_float_run(s: Seq<char>, i: int, state: int) -> int
    decreases s.len() - i,
{
    if i < 0 || i >= s.len() {
        state
    } else {
        spec_float_run(s, i + 1, spec_float_step(state, s[i]))
    }
}

/// Whether the text, underscores removed, reads as a float literal: an
/// optional sign, then digits with at most one point, then an optional
/// exponent. This is the shape the grammar produces float tokens in; the
/// value itself stays with the value system outside this core.
pub open spec fn spec_float_text_ok(s: Seq<char>) -> bool {
    let t = spec_strip_underscores(s);
    let f = spec_float_run(t, 0, 0);
    f == 2 || f == 3 || f == 4 || f == 7
}

/// Checks a float literal's shape.
pub fn float_text_ok(s: &str) -> (r: bool)
    ensures
        r == spec_float_text_ok(s@),
{
    let stripped = strip_underscores(s);
    let t = stripped.as_str();
    let n = t.unicode_len();
    let mut state: i32 = 0;
    let mut i: usize = 0;
    while i < n
        invariant
            0 <= i <= n,
            n == t@.len(),
            0 <= state <= 9,
            spec_float_run(t@, 0, 0) == spec_float_run(t@, i as int, state as int),
        decreases n - i,
    {
        let c = t.get_char(i);
        let next: i32 = if state == 0 || state == 1 {
            if c >= '0' && c <= '9' {
                2
            } else if c == '.' {
                8
            } else if state == 0 && (c == '+' || c == '-') {
                1
            } else {
                9
            }
        } else if state == 2 {
            if c >= '0' && c <= '9' {
                2
            } else if c == '.' {
                3
            } else if c == 'e' || c == 'E' {
                5
            } else {
                9
            }
        } else if state == 3 || state == 4 {
            if c >= '0' && c <= '9' {
                4
            } else if c == 'e' || c == 'E' {
                5
            } else {
                9
            }
        } else if state == 5 {
            if c >= '0' && c <= '9' {
                7
            } else if c == '+' || c == '-' {
                6
            } else {
                9
            }
        } else if state == 6 || state == 7 {
            if c >= '0' && c <= '9' {
                7
            } else {
                9
            }
        } else if state == 8 {
            if c >= '0' && c <= '9' {
                4
            } else {
                9
            }
        } else {
            9
        };
        proof {
            assert(next as int == spec_float_step(state as int, c));
        }
        state = next;
        i = i + 1;
    }
    state == 2 || state == 3 || state == 4 || state == 7
}

/// Escape resolution for quoted text, scanning from position `i`: a
/// backslash must be followed by one more character; `n`, `r` and `t` mean
/// the usual control characters and any other escaped character stands for
/// itself. A trailing backslash makes the text invalid.
pub open spec fn spec_unescape_from(s: Seq<char>, i: int) -> Option<Seq<char>>
    decreases s.len() - i,
{
    if i < 0 || i >= s.len() {
        Some(Seq::empty())
    } else if s[i] == '\\' {
        if i + 1 >= s.len() {
            None
        } else {
            let c = s[i + 1];
            let e = if c == 'n' {
                '\n'
            } else if c == 'r' {
                '\r'
            } else if c == 't' {
                '\t'
            } else {
                c
            };
            match spec_unescape_from(s, i + 2) {
                Some(rest) => Some(seq![e] + rest),
                None => None,
            }
        }
    } else {
        match spec_unescape_from(s, i + 1) {
            Some(rest) => Some(seq![s[i]] + rest),
            None => None,
        }
    }
}

pub open spec fn spec_unescape(s: Seq<char>) -> Option<Seq<char>> {
    spec_unescape_from(s, 0)
}

/// Resolves backslash escapes in quoted text; `None` when the text ends in
/// a lone backslash.
pub fn unescape_text(s: &str) -> (r: Option<String>)
    ensures
        (match spec_unescape(s@) {
            Some(u) => r matches Some(v) && v@ == u,
            None => r is None,
        }),
{
    let n = s.unicode_len();
    let mut out = String::new();
    let mut i: usize = 0;
    while i < n
        invariant
            0 <= i <= n,
            n == s@.len(),
            spec_unescape(s@) == (match spec_unescape_from(s@, i as int) {
                Some(rest) => Some(out@ + rest),
                None => None::<Seq<char>>,
            }),
        decreases n - i,
    {
        let c = s.get_char(i);
        if c == '\\' {
            if i + 1 >= n {
                proof {
                    assert(spec_unescape_from(s@, i as int) is None);
                }
                return None;
            }
            let c2 = s.get_char(i + 1);
            let e = if c2 == 'n' {
                '\n'
            } else if c2 == 'r' {
                '\r'
            } else if c2 == 't' {
                '\t'
            } else {
                c2
            };
            push_char(&mut out, e);
            proof {
                match spec_unescape_from(s@, i + 2) {
                    Some(rest) => {
                        assert(out@ + rest =~= (out@.drop_last() + (seq![e] + rest)));
                    },
                    None => {},
                }
            }
            i = i + 2;
        } else {
            push_char(&mut out, c);
            proof {
                match spec_unescape_from(s@, i + 1) {
                    Some(rest) => {
                        assert(out@ + rest =~= (out@.drop_last() + (seq![c] + rest)));
                    },
                    None => {},
                }
            }
            i = i + 1;
        }
    }
    proof {
        assert(spec_unescape_from(s@, i as int) == Some(Seq::<char>::empty()));
        assert(out@ + Seq::<char>::empty() =~= out@);
    }
    Some(out)
}

} // verus!

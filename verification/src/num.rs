//! Integer number literals: the decimal form the codec writes, and the
//! reader that also accepts the `.0` fractions the game writes for whole
//! numbers.

use vstd::prelude::*;
use vstd::arithmetic::div_mod::lemma_fundamental_div_mod;
use crate::tables::{split_on, lemma_split_on_len, lemma_split_on_no_sep};

verus! {

pub open spec fn is_digit(c: char) -> bool {
    48 <= c as u32 && c as u32 <= 57
}

pub open spec fn digit_val(c: char) -> int {
    c as u32 - 48
}

pub open spec fn digit_char(d: int) -> char {
    ((48 + d) as u8) as char
}

pub open spec fn all_digits(s: Seq<char>) -> bool {
    forall|i: int| 0 <= i < s.len() ==> is_digit(#[trigger] s[i])
}

pub open spec fn all_zeros(s: Seq<char>) -> bool {
    forall|i: int| 0 <= i < s.len() ==> #[trigger] s[i] == '0'
}

/// The value of a digit string, most significant digit first.
pub open spec fn digits_val(s: Seq<char>) -> int
    decreases s.len(),
{
    if s.len() == 0 {
        0
    } else {
        digits_val(s.drop_last()) * 10 + digit_val(s.last())
    }
}

/// The canonical decimal digits of `n`, most significant first.
pub open spec fn dec_rep(n: nat) -> Seq<char>
    decreases n,
{
    if n < 10 {
        seq![digit_char(n as int)]
    } else {
        dec_rep(n / 10).push(digit_char((n % 10) as int))
    }
}

/// The canonical literal of an integer: optional minus, then digits.
pub open spec fn int_rep(n: int) -> Seq<char> {
    if n < 0 {
        seq!['-'] + dec_rep((-n) as nat)
    } else {
        dec_rep(n as nat)
    }
}

/// The integer an unsigned literal denotes: digits, optionally followed
/// by a fraction made of zeros. Anything else denotes no integer.
pub open spec fn spec_parse_uint(s: Seq<char>) -> Option<int> {
    let parts = split_on(s, '.');
    if parts.len() == 1 && parts[0].len() >= 1 && all_digits(parts[0]) {
        Some(digits_val(parts[0]))
    } else if parts.len() == 2 && parts[0].len() >= 1 && all_digits(parts[0]) && parts[1].len() >= 1
        && all_zeros(parts[1]) {
        Some(digits_val(parts[0]))
    } else {
        None
    }
}

/// The integer a literal denotes, with an optional leading minus.
pub open spec fn spec_parse_int(s: Seq<char>) -> Option<int> {
    if s.len() >= 1 && s[0] == '-' {
        match spec_parse_uint(s.drop_first()) {
            Some(v) => Some(-v),
            None => None,
        }
    } else {
        spec_parse_uint(s)
    }
}

/// Digit strings denote nonnegative values, and extending one multiplies
/// its value up.
proof fn lemma_digits_val_nonneg(s: Seq<char>)
    requires
        all_digits(s),
    ensures
        digits_val(s) >= 0,
    decreases s.len(),
{
    if s.len() > 0 {
        assert(all_digits(s.drop_last()));
        lemma_digits_val_nonneg(s.drop_last());
    }
}

/// The canonical digits of `n` are digits, and read back as `n`.
pub proof fn lemma_dec_rep(n: nat)
    ensures
        dec_rep(n).len() >= 1,
        all_digits(dec_rep(n)),
        digits_val(dec_rep(n)) == n,
    decreases n,
{
    if n < 10 {
        assert(digits_val(dec_rep(n)) == digits_val(Seq::<char>::empty()) * 10 + digit_val(
            digit_char(n as int),
        )) by {
            assert(dec_rep(n).drop_last() =~= Seq::<char>::empty());
        }
    } else {
        lemma_dec_rep(n / 10);
        assert(dec_rep(n).drop_last() =~= dec_rep(n / 10));
        lemma_fundamental_div_mod(n as int, 10);
        assert forall|i: int| 0 <= i < dec_rep(n).len() implies is_digit(
            #[trigger] dec_rep(n)[i],
        ) by {
            if i < dec_rep(n / 10).len() {
                assert(dec_rep(n)[i] == dec_rep(n / 10)[i]);
            }
        }
    }
}

/// The canonical literal of any `n` reads back as `n`.
pub proof fn lemma_int_rep_parses(n: int)
    ensures
        spec_parse_int(int_rep(n)) == Some(n),
{
    if n < 0 {
        let m = (-n) as nat;
        lemma_dec_rep(m);
        assert(int_rep(n)[0] == '-');
        assert(int_rep(n).drop_first() =~= dec_rep(m));
        assert(forall|i: int| 0 <= i < dec_rep(m).len() ==> #[trigger] dec_rep(m)[i] != '.');
        lemma_split_on_no_sep(dec_rep(m), '.');
        assert(spec_parse_uint(dec_rep(m)) == Some(digits_val(dec_rep(m))));
    } else {
        let m = n as nat;
        lemma_dec_rep(m);
        assert(is_digit(int_rep(n)[0]));
        assert(int_rep(n)[0] != '-');
        assert(forall|i: int| 0 <= i < dec_rep(m).len() ==> #[trigger] dec_rep(m)[i] != '.');
        lemma_split_on_no_sep(dec_rep(m), '.');
        assert(spec_parse_uint(dec_rep(m)) == Some(digits_val(dec_rep(m))));
    }
}

/// The first field of a split is a separator-free prefix; a lone field is
/// the whole string.
proof fn lemma_split_on_first_field(t: Seq<char>, sep: char)
    ensures
        split_on(t, sep)[0].len() <= t.len(),
        forall|k: int|
            0 <= k < split_on(t, sep)[0].len() ==> #[trigger] split_on(t, sep)[0][k] == t[k],
        split_on(t, sep).len() == 1 ==> split_on(t, sep)[0] == t,
    decreases t.len(),
{
    if t.len() == 0 {
    } else if t[0] == sep {
    } else {
        lemma_split_on_first_field(t.drop_first(), sep);
        lemma_split_on_len(t.drop_first(), sep);
        let rest = split_on(t.drop_first(), sep);
        assert(split_on(t, sep)[0] =~= seq![t[0]] + rest[0]);
        if split_on(t, sep).len() == 1 {
            assert(rest.len() == 1);
            assert(split_on(t, sep)[0] =~= t);
        }
    }
}

/// With exactly two fields, `t` is first + sep + second, and neither
/// field holds the separator.
proof fn lemma_split_two_parts(t: Seq<char>, sep: char)
    requires
        split_on(t, sep).len() == 2,
    ensures
        t =~= split_on(t, sep)[0] + seq![sep] + split_on(t, sep)[1],
    decreases t.len(),
{
    if t.len() == 0 {
    } else if t[0] == sep {
        let rest = split_on(t.drop_first(), sep);
        lemma_split_on_len(t.drop_first(), sep);
        assert(rest.len() == 1);
        lemma_split_on_first_field(t.drop_first(), sep);
        assert(rest[0] == t.drop_first());
        assert(split_on(t, sep)[0] =~= Seq::<char>::empty());
        assert(split_on(t, sep)[1] == t.drop_first());
        assert(t =~= split_on(t, sep)[0] + seq![sep] + split_on(t, sep)[1]);
    } else {
        let rest = split_on(t.drop_first(), sep);
        lemma_split_on_len(t.drop_first(), sep);
        assert(rest.len() == 2);
        lemma_split_two_parts(t.drop_first(), sep);
        assert(split_on(t, sep)[0] =~= seq![t[0]] + rest[0]);
        assert(split_on(t, sep)[1] == rest[1]);
        assert(t.drop_first() == rest[0] + seq![sep] + rest[1]);
        assert forall|k: int| 0 <= k < t.len() implies t[k] == (split_on(t, sep)[0] + seq![sep]
            + split_on(t, sep)[1])[k] by {
            if k > 0 {
                assert(t[k] == t.drop_first()[k - 1]);
            }
        }
        assert(t =~= split_on(t, sep)[0] + seq![sep] + split_on(t, sep)[1]);
    }
}

/// What a well-formed unsigned literal looks like: either all digits, or
/// digits, a dot at the first field's end, and zeros to the end.
proof fn lemma_uint_shape(t: Seq<char>)
    requires
        spec_parse_uint(t) is Some,
    ensures
        split_on(t, '.').len() == 1 || split_on(t, '.').len() == 2,
        split_on(t, '.').len() == 1 ==> t.len() >= 1 && all_digits(t),
        split_on(t, '.').len() == 2 ==> {
            let p = split_on(t, '.')[0].len() as int;
            &&& 1 <= p
            &&& p + 1 < t.len()
            &&& t[p] == '.'
            &&& all_digits(t.take(p))
            &&& (forall|k: int| p < k < t.len() ==> t[k] == '0')
        },
{
    let parts = split_on(t, '.');
    if parts.len() == 1 {
        lemma_split_on_first_field(t, '.');
        assert(parts[0] == t);
    } else {
        assert(parts.len() == 2);
        lemma_split_two_parts(t, '.');
        let p = parts[0].len() as int;
        assert(t[p] == (parts[0] + seq!['.'] + parts[1])[p]);
        assert(t.take(p) =~= parts[0]);
        assert forall|k: int| p < k < t.len() implies t[k] == '0' by {
            assert(t[k] == parts[1][k - p - 1]);
        }
    }
}

/// One digit as a string slice.
fn digit_str(d: u64) -> (r: &'static str)
    requires
        d < 10,
    ensures
        r@ == seq![digit_char(d as int)],
{
    if d == 0 {
        proof { reveal_strlit("0"); }
        assert("0"@ =~= seq![digit_char(0)]);
        "0"
    } else if d == 1 {
        proof { reveal_strlit("1"); }
        assert("1"@ =~= seq![digit_char(1)]);
        "1"
    } else if d == 2 {
        proof { reveal_strlit("2"); }
        assert("2"@ =~= seq![digit_char(2)]);
        "2"
    } else if d == 3 {
        proof { reveal_strlit("3"); }
        assert("3"@ =~= seq![digit_char(3)]);
        "3"
    } else if d == 4 {
        proof { reveal_strlit("4"); }
        assert("4"@ =~= seq![digit_char(4)]);
        "4"
    } else if d == 5 {
        proof { reveal_strlit("5"); }
        assert("5"@ =~= seq![digit_char(5)]);
        "5"
    } else if d == 6 {
        proof { reveal_strlit("6"); }
        assert("6"@ =~= seq![digit_char(6)]);
        "6"
    } else if d == 7 {
        proof { reveal_strlit("7"); }
        assert("7"@ =~= seq![digit_char(7)]);
        "7"
    } else if d == 8 {
        proof { reveal_strlit("8"); }
        assert("8"@ =~= seq![digit_char(8)]);
        "8"
    } else {
        proof { reveal_strlit("9"); }
        assert("9"@ =~= seq![digit_char(9)]);
        "9"
    }
}

/// Append the canonical decimal digits of `m`.
fn push_dec(out: &mut String, m: u64)
    ensures
        final(out)@ == old(out)@ + dec_rep(m as nat),
    decreases m,
{
    if m >= 10 {
        push_dec(out, m / 10);
        let ds = digit_str(m % 10);
        out.append(ds);
        proof {
            assert(old(out)@ + dec_rep((m / 10) as nat) + seq![digit_char((m % 10) as int)]
                =~= old(out)@ + dec_rep(m as nat));
        }
    } else {
        let ds = digit_str(m);
        out.append(ds);
        proof {
            assert(old(out)@ + seq![digit_char(m as int)] =~= old(out)@ + dec_rep(m as nat));
        }
    }
}

/// The canonical decimal string of `n`.
pub fn int_to_string(n: i64) -> (r: String)
    ensures
        r@ == int_rep(n as int),
{
    let mut out = String::new();
    if n < 0 {
        proof { reveal_strlit("-"); }
        out.append("-");
        assert(out@ =~= seq!['-']);
        let m: u64 = if n == i64::MIN {
            9223372036854775808u64
        } else {
            (-n) as u64
        };
        assert(m as nat == (-(n as int)) as nat);
        push_dec(&mut out, m);
        assert(out@ =~= int_rep(n as int));
    } else {
        push_dec(&mut out, n as u64);
        assert(out@ =~= int_rep(n as int));
    }
    out
}

/// Read an integer literal. Success exactly when the literal is well
/// formed and its value fits in `i64`.
#[verifier::loop_isolation(false)]
pub fn parse_int(s: &str) -> (r: Option<i64>)
    ensures
        r matches Some(v) ==> spec_parse_int(s@) == Some(v as int),
        r is None ==> match spec_parse_int(s@) {
            Some(v) => v < i64::MIN || v > i64::MAX,
            None => true,
        },
{
    let n = s.unicode_len();
    let neg = n >= 1 && s.get_char(0) == '-';
    let start: usize = if neg { 1 } else { 0 };
    let ghost t: Seq<char> = if neg { s@.drop_first() } else { s@ };
    assert(t.len() == n - start);
    assert(forall|k: int| 0 <= k < t.len() ==> t[k] == s@[k + start]);

    let mut i: usize = start;
    let mut m: u64 = 0;
    let mut overflow = false;
    let mut hit_non_digit = false;
    while i < n && !hit_non_digit
        invariant
            start <= i <= n,
            n == s@.len(),
            start == (if neg { 1int } else { 0int }),
            neg ==> n >= 1 && s@[0] == '-',
            t == (if neg { s@.drop_first() } else { s@ }),
            t.len() == n - start,
            forall|k: int| 0 <= k < t.len() ==> t[k] == s@[k + start],
            hit_non_digit ==> i < n && !is_digit(t[i - start]),
            !hit_non_digit ==> all_digits(t.take(i - start)),
            hit_non_digit ==> all_digits(t.take(i - start)),
            !overflow ==> m == digits_val(t.take(i - start)),
            overflow ==> digits_val(t.take(i - start)) > 9223372036854775808,
        decreases n - i, 1int + (if hit_non_digit { 0int } else { 1int }),
    {
        let c = s.get_char(i);
        if (c as u32) < 48 || (c as u32) > 57 {
            hit_non_digit = true;
        } else {
            let d = (c as u32 - 48) as u64;
            proof {
                assert(t[i - start] == s@[i as int]);
                assert(t.take(i + 1 - start).drop_last() =~= t.take(i - start));
                assert(t.take(i + 1 - start).last() == t[i - start]);
            }
            if overflow {
                proof {
                    assert(digits_val(t.take(i + 1 - start)) == digits_val(t.take(i - start)) * 10
                        + digit_val(t[i - start]));
                }
            } else if m > 1844674407370955160u64 || (m == 1844674407370955160u64 && d > 8) {
                overflow = true;
                proof {
                    assert(digits_val(t.take(i + 1 - start)) == m * 10 + d as int);
                }
            } else {
                m = m * 10 + d;
            }
            i += 1;
        }
    }
    let digits_end = i;
    let ghost p = digits_end - start;
    let ghost digits = t.take(digits_end - start);

    if digits_end == start {
        // no leading digit at all: not a literal
        proof {
            if spec_parse_uint(t) is Some {
                lemma_uint_shape(t);
                if split_on(t, '.').len() == 1 {
                    assert(is_digit(t[0]));
                } else {
                    let q = split_on(t, '.')[0].len() as int;
                    assert(is_digit(t.take(q)[0]));
                    assert(is_digit(t[0]));
                }
                assert(!is_digit(t[0]));
            }
        }
        return None;
    }

    if digits_end < n {
        let c = s.get_char(digits_end);
        if !(c == '.') {
            // a stray character follows the digits: not a literal
            proof {
                assert(t[p] == s@[digits_end as int]);
                assert(!is_digit(t[p]) && t[p] != '.');
                if spec_parse_uint(t) is Some {
                    lemma_uint_shape(t);
                    if split_on(t, '.').len() == 1 {
                        assert(is_digit(t[p]));
                    } else {
                        let q = split_on(t, '.')[0].len() as int;
                        if q == p {
                        } else if q < p {
                            assert(t[p] == '0');
                        } else {
                            assert(is_digit(t.take(q)[p]));
                        }
                    }
                }
            }
            return None;
        }
        let mut j = digits_end + 1;
        if j == n {
            // the dot ends the string: not a literal
            proof {
                assert(t[p] == '.');
                if spec_parse_uint(t) is Some {
                    lemma_uint_shape(t);
                    if split_on(t, '.').len() == 1 {
                        assert(is_digit(t[p]));
                    } else {
                        let q = split_on(t, '.')[0].len() as int;
                        if q == p {
                            assert(q + 1 < t.len());
                        } else if q < p {
                            assert(t[p] == '0');
                        } else {
                            assert(is_digit(t.take(q)[p]));
                        }
                    }
                }
            }
            return None;
        }
        while j < n
            invariant
                digits_end + 1 <= j <= n,
                n == s@.len(),
                t == (if neg { s@.drop_first() } else { s@ }),
                t.len() == n - start,
                forall|k: int| 0 <= k < t.len() ==> t[k] == s@[k + start],
                start <= digits_end < n,
                p == digits_end - start,
                t[p] == '.',
                start == (if neg { 1int } else { 0int }),
                all_digits(t.take(p)),
                p >= 1,
                forall|k: int| p < k < j - start ==> t[k] == '0',
            decreases n - j,
        {
            let c = s.get_char(j);
            if !(c == '0') {
                // the fraction holds something besides zeros: not a literal
                proof {
                    assert(t[j - start] == s@[j as int]);
                    assert(t[j - start] != '0');
                    if spec_parse_uint(t) is Some {
                        lemma_uint_shape(t);
                        if split_on(t, '.').len() == 1 {
                            assert(is_digit(t[p]));
                        } else {
                            let q = split_on(t, '.')[0].len() as int;
                            if q < p {
                                assert(t[p] == '0');
                            } else if q > p {
                                assert(is_digit(t.take(q)[p]));
                            } else {
                                assert(t[j - start] == '0');
                            }
                        }
                    }
                }
                return None;
            }
            j += 1;
        }
    }

    // the literal is well formed; establish what it denotes
    proof {
        if digits_end == n {
            assert(t.take(p) =~= t);
            assert(forall|k: int| 0 <= k < t.len() ==> #[trigger] t[k] != '.') by {
                assert(all_digits(t));
            }
            lemma_split_on_no_sep(t, '.');
            assert(spec_parse_uint(t) == Some(digits_val(digits)));
        } else {
            assert forall|k: int| 0 <= k < t.len() && k != p implies #[trigger] t[k] != '.' by {
                if k < p {
                    assert(is_digit(t.take(p)[k]));
                } else {
                    assert(t[k] == '0');
                }
            }
            crate::tables::lemma_split_one_sep(t, '.', p);
            assert(t.subrange(0, p) =~= digits);
            let frac = t.subrange(p + 1, t.len() as int);
            assert forall|k: int| 0 <= k < frac.len() implies #[trigger] frac[k] == '0' by {
                assert(frac[k] == t[p + 1 + k]);
            }
            assert(frac.len() >= 1);
            assert(spec_parse_uint(t) == Some(digits_val(digits)));
        }
        lemma_digits_val_nonneg(digits);
        if neg {
            assert(spec_parse_int(s@) == Some(-digits_val(digits)));
        } else {
            assert(s@[0] == t[0]);
            assert(is_digit(t[0]));
            assert(spec_parse_int(s@) == Some(digits_val(digits)));
        }
    }

    if overflow {
        return None;
    }
    if neg {
        if m < 9223372036854775808u64 {
            Some(-(m as i64))
        } else if m == 9223372036854775808u64 {
            Some(i64::MIN)
        } else {
            None
        }
    } else {
        if m <= 9223372036854775807u64 {
            Some(m as i64)
        } else {
            None
        }
    }
}

} // verus!

use vstd::prelude::*;

verus! {

/// Microseconds in one second.
pub const MICROS_PER_SECOND: i128 = 1_000_000;

/// Whether `c` is one of the ASCII digits `0` to `9`.
pub open spec fn is_digit(c: char) -> bool {
    '0' <= c && c <= '9'
}

/// The value of the digit `c`.
pub open spec fn digit_value(c: char) -> nat {
    (c as int - '0' as int) as nat
}

/// The character of the digit `d`, for `d < 10`.
pub open spec fn digit_char(d: nat) -> char {
    ((d + 48) as u32) as char
}

/// Whether every character of `s` is a digit.
pub open spec fn all_digits(s: Seq<char>) -> bool {
    forall|i: int| 0 <= i < s.len() ==> is_digit(#[trigger] s[i])
}

/// The number that the digits `s` write in base ten (0 for no digits).
pub open spec fn digits_value(s: Seq<char>) -> nat
    decreases s.len(),
{
    if s.len() == 0 {
        0
    } else {
        digits_value(s.drop_last()) * 10 + digit_value(s.last())
    }
}

/// Ten to the power `n`.
pub open spec fn pow10(n: nat) -> nat
    decreases n,
{
    if n == 0 {
        1
    } else {
        10 * pow10((n - 1) as nat)
    }
}

/// The position of the first `.` in `s`, or the length of `s` where it has none.
pub open spec fn point_index(s: Seq<char>) -> int
    decreases s.len(),
{
    if s.len() == 0 {
        0
    } else if s[0] == '.' {
        0
    } else {
        1 + point_index(s.skip(1))
    }
}

/// The digits before the point.
pub open spec fn whole_part(s: Seq<char>) -> Seq<char> {
    s.take(point_index(s))
}

/// The digits after the point (none where `s` has no point).
pub open spec fn fraction_part(s: Seq<char>) -> Seq<char> {
    if point_index(s) < s.len() {
        s.skip(point_index(s) + 1)
    } else {
        Seq::empty()
    }
}

/// The microseconds that the text `s` of a timestamp stands for.
///
/// A timestamp is written as whole seconds, optionally followed by a point and
/// at most six digits of the second: `1589788800.000001`, `12345`, `1.5`,
/// `.5`, `7.`. At least one digit is present, and the whole seconds fit in
/// 64 bits. Any other text stands for no timestamp.
pub open spec fn timestamp_micros(s: Seq<char>) -> Option<int> {
    let whole = whole_part(s);
    let frac = fraction_part(s);
    if all_digits(whole) && all_digits(frac) && whole.len() + frac.len() > 0 && frac.len() <= 6
        && digits_value(whole) <= u64::MAX {
        Some(
            (digits_value(whole) * 1_000_000 + digits_value(frac) * pow10((6 - frac.len()) as nat))
                as int,
        )
    } else {
        None
    }
}

/// The decimal digits of `n`, without leading zeros (`0` for zero).
pub open spec fn decimal_digits(n: nat) -> Seq<char>
    decreases n,
{
    if n < 10 {
        seq![digit_char(n)]
    } else {
        decimal_digits(n / 10).push(digit_char(n % 10))
    }
}

/// `s` without the zeros at its end.
pub open spec fn strip_trailing_zeros(s: Seq<char>) -> Seq<char>
    decreases s.len(),
{
    if s.len() > 0 && s.last() == '0' {
        strip_trailing_zeros(s.drop_last())
    } else {
        s
    }
}

/// The six digits of a count of microseconds below one second, zeros first.
pub open spec fn six_digits(f: nat) -> Seq<char> {
    Seq::new(6, |k: int| digit_char((f / pow10((5 - k) as nat)) % 10))
}

/// The shortest decimal text of `micros` microseconds, in seconds: the whole
/// seconds, then a point and the fraction of the second only where it is not
/// zero, without zeros at its end (`12345`, `1.5`, `1589788800.000001`).
pub open spec fn decimal_text(micros: int) -> Seq<char> {
    if micros < 0 {
        seq!['-'] + unsigned_decimal_text((-micros) as nat)
    } else {
        unsigned_decimal_text(micros as nat)
    }
}

/// `decimal_text` of a count that is not negative.
pub open spec fn unsigned_decimal_text(micros: nat) -> Seq<char> {
    let whole = micros / 1_000_000;
    let frac = micros % 1_000_000;
    if frac == 0 {
        decimal_digits(whole)
    } else {
        decimal_digits(whole) + seq!['.'] + strip_trailing_zeros(six_digits(frac))
    }
}

proof fn lemma_point_index(s: Seq<char>, p: int)
    requires
        0 <= p <= s.len(),
        forall|j: int| 0 <= j < p ==> s[j] != '.',
        p == s.len() || s[p] == '.',
    ensures
        point_index(s) == p,
    decreases p,
{
    if p > 0 {
        assert forall|j: int| 0 <= j < p - 1 implies s.skip(1)[j] != '.' by {
            assert(s.skip(1)[j] == s[j + 1]);
        }
        if p < s.len() {
            assert(s.skip(1)[p - 1] == s[p]);
        }
        lemma_point_index(s.skip(1), p - 1);
    }
}

proof fn lemma_digits_value_prefix(s: Seq<char>, j: int)
    requires
        0 <= j <= s.len(),
    ensures
        digits_value(s.take(j)) <= digits_value(s),
    decreases s.len(),
{
    if j < s.len() {
        assert(s.drop_last().take(j) =~= s.take(j));
        lemma_digits_value_prefix(s.drop_last(), j);
    } else {
        assert(s.take(j) =~= s);
    }
}

proof fn lemma_digits_value_below_pow10(s: Seq<char>)
    requires
        all_digits(s),
    ensures
        digits_value(s) < pow10(s.len()),
    decreases s.len(),
{
    if s.len() > 0 {
        let d = s.drop_last();
        assert(all_digits(d)) by {
            assert forall|i: int| 0 <= i < d.len() implies is_digit(#[trigger] d[i]) by {
                assert(d[i] == s[i]);
            }
        }
        lemma_digits_value_below_pow10(d);
        assert(is_digit(s[s.len() - 1]));
        let a = digits_value(d);
        let b = pow10(d.len());
        assert(a * 10 + 9 < b * 10) by (nonlinear_arith)
            requires
                a < b,
        ;
    }
}

proof fn lemma_pow10_small(k: nat)
    requires
        k <= 6,
    ensures
        1 <= pow10(k) <= 1_000_000,
{
    reveal_with_fuel(pow10, 7);
}

/// One more digit `c` after the digits `s.take(i)`.
proof fn lemma_digits_value_step(s: Seq<char>, i: int)
    requires
        0 <= i < s.len(),
    ensures
        digits_value(s.take(i + 1)) == digits_value(s.take(i)) * 10 + digit_value(s[i]),
{
    assert(s.take(i + 1).drop_last() =~= s.take(i));
}

/// The value of the digit `c`, or `None` where it is no digit.
fn digit_of(c: char) -> (r: Option<u32>)
    ensures
        r == (if is_digit(c) {
            Some(digit_value(c) as u32)
        } else {
            None::<u32>
        }),
{
    let v = c as u32;
    if 48 <= v && v <= 57 {
        Some(v - 48)
    } else {
        None
    }
}

/// `pow10(k)` for the small `k` that a fraction of a second needs.
fn pow10_exec(k: usize) -> (r: u32)
    requires
        k <= 6,
    ensures
        r == pow10(k as nat),
        1 <= r <= 1_000_000,
{
    reveal_with_fuel(pow10, 7);
    match k {
        0 => 1,
        1 => 10,
        2 => 100,
        3 => 1_000,
        4 => 10_000,
        5 => 100_000,
        _ => 1_000_000,
    }
}

/// The text of the digit `d`.
fn digit_str(d: u128) -> (r: &'static str)
    requires
        d < 10,
    ensures
        r@ == seq![digit_char(d as nat)],
{
    proof {
        reveal_strlit("0");
        reveal_strlit("1");
        reveal_strlit("2");
        reveal_strlit("3");
        reveal_strlit("4");
        reveal_strlit("5");
        reveal_strlit("6");
        reveal_strlit("7");
        reveal_strlit("8");
        reveal_strlit("9");
    }
    match d {
        0 => "0",
        1 => "1",
        2 => "2",
        3 => "3",
        4 => "4",
        5 => "5",
        6 => "6",
        7 => "7",
        8 => "8",
        _ => "9",
    }
}

/// Appends the decimal digits of `n` to `out`.
fn push_decimal(out: &mut String, n: u128)
    ensures
        final(out)@ == old(out)@ + decimal_digits(n as nat),
    decreases n,
{
    if n >= 10 {
        push_decimal(out, n / 10);
    }
    out.append(digit_str(n % 10));
    proof {
        if n >= 10 {
            assert(old(out)@ + decimal_digits((n / 10) as nat) + seq![digit_char((n % 10) as nat)]
                =~= old(out)@ + decimal_digits(n as nat));
        }
    }
}

/// Appends the fraction `f` of a second, in microseconds, to `out`: its six
/// digits without the zeros at their end.
fn push_fraction(out: &mut String, f: u128)
    requires
        f < 1_000_000,
    ensures
        final(out)@ == old(out)@ + strip_trailing_zeros(six_digits(f as nat)),
{
    let ghost six = six_digits(f as nat);
    assert(six.take(6) =~= six);
    let mut end: usize = 6;
    while end > 0 && (f / pow10_exec(6 - end) as u128) % 10 == 0
        invariant
            end <= 6,
            f < 1_000_000,
            six == six_digits(f as nat),
            strip_trailing_zeros(six.take(end as int)) == strip_trailing_zeros(six),
        decreases end,
    {
        proof {
            lemma_pow10_small((6 - end) as nat);
            assert(six.take(end as int).last() == digit_char(0));
            assert(six.take(end as int).drop_last() =~= six.take(end - 1));
        }
        end = end - 1;
    }
    proof {
        if end > 0 {
            lemma_pow10_small((6 - end) as nat);
            let d = ((f as nat) / pow10((6 - end) as nat)) % 10;
            assert(six.take(end as int).last() == digit_char(d));
            assert(digit_char(d) != '0');
        }
    }
    let ghost start = out@;
    let mut k: usize = 0;
    while k < end
        invariant
            k <= end <= 6,
            f < 1_000_000,
            six == six_digits(f as nat),
            out@ == start + six.take(k as int),
        decreases end - k,
    {
        proof {
            lemma_pow10_small((5 - k) as nat);
        }
        let d = (f / pow10_exec(5 - k) as u128) % 10;
        out.append(digit_str(d));
        proof {
            assert(six.take(k + 1) =~= six.take(k as int).push(digit_char(d as nat)));
        }
        k = k + 1;
    }
}

/// A point in time, in microseconds since the Unix epoch.
#[derive(Clone, Copy, Debug, PartialEq, Eq, Structural)]
pub struct Timestamp {
    pub micros: i128,
}

impl Timestamp {
    /// The timestamp `seconds` whole seconds after the epoch.
    pub fn from_seconds(seconds: i64) -> (r: Timestamp)
        ensures
            r.micros == seconds * 1_000_000,
    {
        Timestamp { micros: seconds as i128 * MICROS_PER_SECOND }
    }

    /// The timestamp `seconds` and `micros` microseconds after the epoch.
    pub fn from_parts(seconds: u64, micros: u32) -> (r: Timestamp)
        requires
            micros < 1_000_000,
        ensures
            r.micros == seconds * 1_000_000 + micros,
    {
        Timestamp { micros: seconds as i128 * MICROS_PER_SECOND + micros as i128 }
    }

    /// The shortest decimal text of this timestamp in seconds (see
    /// `decimal_text`): `12345` for 12345 whole seconds, `1.5`, `1589788800.000001`.
    pub fn to_decimal_string(&self) -> (r: String)
        ensures
            r@ == decimal_text(self.micros as int),
    {
        let mut out = String::new();
        let magnitude: u128 = if self.micros < 0 {
            out.append("-");
            (-(self.micros + 1)) as u128 + 1
        } else {
            self.micros as u128
        };
        proof {
            reveal_strlit("-");
        }
        let ghost sign = out@;
        let whole = magnitude / MICROS_PER_SECOND as u128;
        let frac = magnitude % MICROS_PER_SECOND as u128;
        push_decimal(&mut out, whole);
        if frac != 0 {
            out.append(".");
            proof {
                reveal_strlit(".");
            }
            push_fraction(&mut out, frac);
        }
        proof {
            assert(sign + unsigned_decimal_text(magnitude as nat) =~= out@);
        }
        out
    }

    /// Reads the text of a timestamp (see `timestamp_micros`), such as
    /// `1589788800.000001`; `None` where the text is no timestamp.
    pub fn parse(s: &str) -> (r: Option<Timestamp>)
        ensures
            match timestamp_micros(s@) {
                Some(m) => r matches Some(t) && t.micros == m,
                None => r is None,
            },
    {
        let n = s.unicode_len();
        let mut p: usize = 0;
        while p < n && s.get_char(p) != '.'
            invariant
                p <= n,
                n == s@.len(),
                forall|j: int| 0 <= j < p ==> s@[j] != '.',
            decreases n - p,
        {
            p = p + 1;
        }
        proof {
            lemma_point_index(s@, p as int);
        }
        let ghost whole_text = whole_part(s@);
        let ghost frac_text = fraction_part(s@);
        let mut whole: u64 = 0;
        let mut i: usize = 0;
        while i < p
            invariant
                i <= p <= n,
                n == s@.len(),
                whole_text == s@.take(p as int),
                whole_text == whole_part(s@),
                frac_text == fraction_part(s@),
                point_index(s@) == p,
                all_digits(whole_text.take(i as int)),
                whole == digits_value(whole_text.take(i as int)),
            decreases p - i,
        {
            let c = s.get_char(i);
            proof {
                assert(whole_text[i as int] == c);
                lemma_digits_value_step(whole_text, i as int);
            }
            let d = match digit_of(c) {
                Some(d) => d,
                None => {
                    proof {
                        assert(!all_digits(whole_text));
                    }
                    return None;
                },
            };
            let next = match whole.checked_mul(10) {
                Some(w) => w.checked_add(d as u64),
                None => None,
            };
            match next {
                Some(w) => {
                    whole = w;
                },
                None => {
                    proof {
                        assert(whole as int * 10 + d as int > u64::MAX);
                        lemma_digits_value_prefix(whole_text, i + 1);
                        assert(digits_value(whole_text) > u64::MAX);
                    }
                    return None;
                },
            }
            proof {
                assert forall|j: int| 0 <= j < i + 1 implies is_digit(
                    #[trigger] whole_text.take(i + 1)[j],
                ) by {
                    if j < i {
                        assert(whole_text.take(i + 1)[j] == whole_text.take(i as int)[j]);
                    }
                }
            }
            i = i + 1;
        }
        proof {
            assert(whole_text.take(p as int) =~= whole_text);
        }
        let mut frac: u32 = 0;
        let mut frac_len: usize = 0;
        if p < n {
            if n - p - 1 > 6 {
                return None;
            }
            let mut j: usize = p + 1;
            while j < n
                invariant
                    p < j <= n,
                    n == s@.len(),
                    n - p - 1 <= 6,
                    frac_text == s@.skip(p + 1),
                    whole_text == whole_part(s@),
                    frac_text == fraction_part(s@),
                    point_index(s@) == p,
                    frac_len == j - p - 1,
                    all_digits(frac_text.take(frac_len as int)),
                    frac == digits_value(frac_text.take(frac_len as int)),
                decreases n - j,
            {
                let c = s.get_char(j);
                proof {
                    assert(frac_text[frac_len as int] == c);
                    lemma_digits_value_step(frac_text, frac_len as int);
                    lemma_digits_value_below_pow10(frac_text.take(frac_len as int));
                    lemma_pow10_small(frac_len as nat);
                }
                let d = match digit_of(c) {
                    Some(d) => d,
                    None => {
                        proof {
                            assert(!all_digits(frac_text));
                        }
                        return None;
                    },
                };
                proof {
                    assert forall|k: int| 0 <= k < frac_len + 1 implies is_digit(
                        #[trigger] frac_text.take(frac_len + 1)[k],
                    ) by {
                        if k < frac_len {
                            assert(frac_text.take(frac_len + 1)[k] == frac_text.take(
                                frac_len as int,
                            )[k]);
                        }
                    }
                }
                frac = frac * 10 + d;
                frac_len = frac_len + 1;
                j = j + 1;
            }
            proof {
                assert(frac_text.take(frac_len as int) =~= frac_text);
            }
        } else {
            proof {
                assert(frac_text =~= Seq::<char>::empty());
                assert(frac_text.take(0) =~= frac_text);
            }
        }
        if p + frac_len == 0 {
            return None;
        }
        proof {
            lemma_digits_value_below_pow10(frac_text);
            lemma_pow10_small(frac_len as nat);
            lemma_pow10_small((6 - frac_len) as nat);
        }
        let scale = pow10_exec(6 - frac_len);
        proof {
            let w = whole as int;
            let f = frac as int;
            let k = scale as int;
            assert(w * 1_000_000 <= u64::MAX * 1_000_000) by (nonlinear_arith)
                requires
                    w <= u64::MAX,
            ;
            assert(f * k <= 1_000_000 * 1_000_000) by (nonlinear_arith)
                requires
                    0 <= f <= 1_000_000,
                    0 <= k <= 1_000_000,
            ;
        }
        Some(
            Timestamp {
                micros: whole as i128 * MICROS_PER_SECOND + frac as i128 * scale as i128,
            },
        )
    }
}

} // verus!

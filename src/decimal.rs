use vstd::prelude::*;
use vstd::string::*;
use vstd::utf8::*;

use crate::text::utf8_text;

verus! {

/// A decimal quantity (a temperature, a wattage) held exactly in thousandths.
#[derive(Clone, Copy, Debug, PartialEq, Eq, Structural)]
pub struct Fixed {
    pub milli: i64,
}

/// Thousandths in one unit.
pub const SCALE: i64 = 1000;

/// The saturation point of the whole-part accumulator: any whole part at or
/// above it gives a magnitude beyond `i64::MAX` thousandths.
const WHOLE_CAP: u64 = 9223372036854776;

impl Fixed {
    pub fn from_milli(milli: i64) -> (r: Fixed)
        ensures
            r.milli == milli,
    {
        Fixed { milli }
    }

    /// A whole number of units.
    pub fn from_int(units: i32) -> (r: Fixed)
        ensures
            r.milli == units * 1000,
    {
        Fixed { milli: units as i64 * SCALE }
    }

    pub fn zero() -> (r: Fixed)
        ensures
            r.milli == 0,
    {
        Fixed { milli: 0 }
    }

    pub fn is_zero(&self) -> (r: bool)
        ensures
            r == (self.milli == 0),
    {
        self.milli == 0
    }
}

pub open spec fn is_digit(c: char) -> bool {
    '0' <= c && c <= '9'
}

pub open spec fn digit_value(c: char) -> int {
    c as int - '0' as int
}

pub open spec fn all_digits(s: Seq<char>) -> bool {
    forall|i: int| 0 <= i < s.len() ==> is_digit(#[trigger] s[i])
}

/// The number that a run of decimal digits denotes.
pub open spec fn digits_value(s: Seq<char>) -> int
    decreases s.len(),
{
    if s.len() == 0 {
        0
    } else {
        digits_value(s.drop_last()) * 10 + digit_value(s.last())
    }
}

/// The first three digits after the point, in thousandths; later digits are
/// cut off.
pub open spec fn frac_milli(f: Seq<char>) -> int {
    (if f.len() > 0 { digit_value(f[0]) } else { 0 }) * 100 + (if f.len() > 1 {
        digit_value(f[1])
    } else {
        0
    }) * 10 + (if f.len() > 2 { digit_value(f[2]) } else { 0 })
}

pub open spec fn has_sign(s: Seq<char>) -> bool {
    s.len() > 0 && (s[0] == '-' || s[0] == '+')
}

pub open spec fn is_negative(s: Seq<char>) -> bool {
    s.len() > 0 && s[0] == '-'
}

pub open spec fn unsigned_part(s: Seq<char>) -> Seq<char> {
    if has_sign(s) {
        s.drop_first()
    } else {
        s
    }
}

/// Where the first `.` stands, or the length when there is none.
pub open spec fn dot_position(s: Seq<char>) -> int
    decreases s.len(),
{
    if s.len() == 0 {
        0
    } else if s[0] == '.' {
        0
    } else {
        1 + dot_position(s.drop_first())
    }
}

pub open spec fn whole_part(s: Seq<char>) -> Seq<char> {
    unsigned_part(s).take(dot_position(unsigned_part(s)))
}

pub open spec fn fraction_part(s: Seq<char>) -> Seq<char> {
    let u = unsigned_part(s);
    let k = dot_position(u);
    if k < u.len() {
        u.skip(k + 1)
    } else {
        Seq::empty()
    }
}

/// Decimal text: an optional sign, digits, and optionally a point followed by
/// more digits, with at least one digit in all.
pub open spec fn is_decimal(s: Seq<char>) -> bool {
    &&& all_digits(whole_part(s))
    &&& all_digits(fraction_part(s))
    &&& whole_part(s).len() + fraction_part(s).len() > 0
}

pub open spec fn magnitude_milli(s: Seq<char>) -> int {
    digits_value(whole_part(s)) * 1000 + frac_milli(fraction_part(s))
}

/// The value of decimal text in thousandths, truncated toward zero.
pub open spec fn decimal_milli(s: Seq<char>) -> int {
    if is_negative(s) {
        -magnitude_milli(s)
    } else {
        magnitude_milli(s)
    }
}

/// Decimal text whose value fits a `Fixed`.
pub open spec fn parses_to_fixed(s: Seq<char>) -> bool {
    is_decimal(s) && magnitude_milli(s) <= i64::MAX
}

proof fn lemma_dot_position(u: Seq<char>, j: int)
    requires
        0 <= j <= u.len(),
        forall|i: int| 0 <= i < j ==> u[i] != '.',
        j == u.len() || u[j] == '.',
    ensures
        dot_position(u) == j,
    decreases j,
{
    if j > 0 {
        assert(u[0] != '.');
        let t = u.drop_first();
        assert forall|i: int| 0 <= i < j - 1 implies t[i] != '.' by {
            assert(t[i] == u[i + 1]);
        }
        lemma_dot_position(t, j - 1);
    }
}

proof fn lemma_digits_value_nonneg(s: Seq<char>)
    requires
        all_digits(s),
    ensures
        digits_value(s) >= 0,
    decreases s.len(),
{
    if s.len() > 0 {
        let p = s.drop_last();
        assert(all_digits(p)) by {
            assert forall|i: int| 0 <= i < p.len() implies is_digit(#[trigger] p[i]) by {
                assert(p[i] == s[i]);
            }
        }
        lemma_digits_value_nonneg(p);
        assert(is_digit(s[s.len() - 1]));
    }
}

/// Reads decimal text (`"25.0"`, `"-3"`, `"+.5"`) as a `Fixed`, keeping three
/// digits after the point. Anything else, and a value beyond what `Fixed`
/// holds, gives `None`.
pub fn parse_fixed(text: &str) -> (r: Option<Fixed>)
    ensures
        r is Some <==> parses_to_fixed(text@),
        r matches Some(v) ==> v.milli == decimal_milli(text@),
{
    let ghost s = text@;
    let n = text.unicode_len();
    let mut start: usize = 0;
    let mut negative = false;
    if n > 0 {
        let c = text.get_char(0);
        if c == '-' {
            negative = true;
            start = 1;
        } else if c == '+' {
            start = 1;
        }
    }
    let ghost u = unsigned_part(s);
    assert(u =~= s.subrange(start as int, n as int));
    assert(negative == is_negative(s));

    let mut k: usize = start;
    while k < n && text.get_char(k) != '.'
        invariant
            n == s.len(),
            s == text@,
            start <= k <= n,
            forall|i: int| start <= i < k ==> s[i] != '.',
        decreases n - k,
    {
        k = k + 1;
    }
    proof {
        assert forall|i: int| 0 <= i < k - start implies u[i] != '.' by {
            assert(u[i] == s[start + i]);
        }
        lemma_dot_position(u, k - start);
    }
    let ghost w = whole_part(s);
    let ghost f = fraction_part(s);
    assert(w =~= s.subrange(start as int, k as int));
    assert(k < n ==> f =~= s.subrange(k + 1, n as int));
    assert(k >= n ==> f.len() == 0);

    let mut whole: u64 = 0;
    let mut i: usize = start;
    while i < k
        invariant
            n == s.len(),
            s == text@,
            start <= i <= k <= n,
            w == s.subrange(start as int, k as int),
            w == whole_part(s),
            all_digits(s.subrange(start as int, i as int)),
            whole as int == if digits_value(s.subrange(start as int, i as int)) < WHOLE_CAP {
                digits_value(s.subrange(start as int, i as int))
            } else {
                WHOLE_CAP as int
            },
        decreases k - i,
    {
        let c = text.get_char(i);
        if !('0' <= c && c <= '9') {
            proof {
                assert(w[i - start] == c);
                assert(!is_digit(w[i - start]));
                assert(!all_digits(w));
            }
            return None;
        }
        let d = (c as u32 - '0' as u32) as u64;
        let ghost p = s.subrange(start as int, i as int);
        let ghost q = s.subrange(start as int, i + 1);
        proof {
            assert(q.drop_last() =~= p);
            assert(q.last() == c);
            lemma_digits_value_nonneg(p);
        }
        if whole < WHOLE_CAP {
            let next = whole * 10 + d;
            whole = if next < WHOLE_CAP {
                next
            } else {
                WHOLE_CAP
            };
        }
        i = i + 1;
        assert(all_digits(q)) by {
            assert forall|j: int| 0 <= j < q.len() implies is_digit(#[trigger] q[j]) by {
                if j < p.len() {
                    assert(q[j] == p[j]);
                }
            }
        }
    }
    let mut frac: u64 = 0;
    let mut frac_len: usize = 0;
    if k < n {
        let mut j: usize = k + 1;
        assert(f == s.subrange(k + 1, n as int));
        while j < n
            invariant
                n == s.len(),
                s == text@,
                k < n,
                k + 1 <= j <= n,
                f == s.subrange(k + 1, n as int),
                f == fraction_part(s),
                all_digits(s.subrange(k + 1, j as int)),
                frac as int == frac_milli(s.subrange(k + 1, j as int)),
                frac <= 999,
            decreases n - j,
        {
            let c = text.get_char(j);
            if !('0' <= c && c <= '9') {
                proof {
                    assert(f[j - k - 1] == c);
                    assert(!is_digit(f[j - k - 1]));
                    assert(!all_digits(f));
                }
                return None;
            }
            let d = (c as u32 - '0' as u32) as u64;
            let ghost p = s.subrange(k + 1, j as int);
            let ghost q = s.subrange(k + 1, j + 1);
            let pos = j - (k + 1);
            if pos == 0 {
                frac = d * 100;
            } else if pos == 1 {
                frac = frac + d * 10;
            } else if pos == 2 {
                frac = frac + d;
            }
            j = j + 1;
            proof {
                assert(q.len() == p.len() + 1);
                assert(forall|t: int| 0 <= t < p.len() ==> q[t] == p[t]);
                assert(q[p.len() as int] == c);
                assert(all_digits(q)) by {
                    assert forall|t: int| 0 <= t < q.len() implies is_digit(#[trigger] q[t]) by {
                        if t < p.len() {
                            assert(q[t] == p[t]);
                        }
                    }
                }
            }
        }
        frac_len = n - (k + 1);
    }
    assert(frac_len == f.len());
    if (k - start) + frac_len == 0 {
        return None;
    }
    proof {
        lemma_digits_value_nonneg(w);
    }
    if whole >= WHOLE_CAP {
        return None;
    }
    let magnitude = whole * 1000 + frac;
    if magnitude > i64::MAX as u64 {
        return None;
    }
    let m = magnitude as i64;
    if negative {
        Some(Fixed { milli: -m })
    } else {
        Some(Fixed { milli: m })
    }
}

/// The characters that ASCII bytes stand for.
pub open spec fn ascii_chars(b: Seq<u8>) -> Seq<char> {
    Seq::new(b.len(), |i: int| b[i] as char)
}

pub open spec fn digit_byte(d: int) -> u8 {
    (d + 48) as u8
}

/// The decimal digits of `n`, without leading zeros.
pub open spec fn nat_bytes(n: nat) -> Seq<u8>
    decreases n,
{
    if n < 10 {
        seq![digit_byte(n as int)]
    } else {
        nat_bytes(n / 10).push(digit_byte((n % 10) as int))
    }
}

/// The digits of thousandths `f` (between 1 and 999) after the point, without
/// trailing zeros.
pub open spec fn frac_bytes(f: nat) -> Seq<u8> {
    let d1 = digit_byte((f / 100) as int);
    let d2 = digit_byte(((f / 10) % 10) as int);
    let d3 = digit_byte((f % 10) as int);
    if f % 10 != 0 {
        seq![d1, d2, d3]
    } else if f % 100 != 0 {
        seq![d1, d2]
    } else {
        seq![d1]
    }
}

pub open spec fn abs(x: int) -> nat {
    if x < 0 {
        (-x) as nat
    } else {
        x as nat
    }
}

/// A value in thousandths written out: a minus sign when negative, the whole
/// part, and the fraction without trailing zeros when there is one
/// (`25`, `-0.5`, `23.125`).
pub open spec fn fixed_bytes(milli: int) -> Seq<u8> {
    let m = abs(milli);
    let sign: Seq<u8> = if milli < 0 {
        seq![45u8]
    } else {
        Seq::empty()
    };
    let fraction: Seq<u8> = if m % 1000 == 0 {
        Seq::empty()
    } else {
        seq![46u8] + frac_bytes(m % 1000)
    };
    sign + nat_bytes(m / 1000) + fraction
}

pub open spec fn fixed_text(milli: int) -> Seq<char> {
    ascii_chars(fixed_bytes(milli))
}

pub open spec fn is_ascii_bytes(b: Seq<u8>) -> bool {
    forall|i: int| 0 <= i < b.len() ==> #[trigger] b[i] < 128
}

/// Text made of ASCII bytes.
pub(crate) fn ascii_string(bytes: &[u8]) -> (r: String)
    requires
        is_ascii_bytes(bytes@),
    ensures
        r@ == ascii_chars(bytes@),
{
    let ghost c = ascii_chars(bytes@);
    proof {
        assert(is_ascii_chars(c)) by {
            assert forall|i: int| 0 <= i < c.len() implies '\0' <= #[trigger] c[i] <= '\u{7f}' by {
                assert(bytes@[i] < 128);
            }
        }
        is_ascii_chars_encode_utf8(c);
        assert(encode_utf8(c) =~= bytes@);
        encode_utf8_valid_utf8(c);
        encode_utf8_decode_utf8(c);
    }
    match utf8_text(bytes) {
        Some(s) => {
            proof {
                encode_utf8_decode_utf8(s@);
            }
            s
        },
        None => String::new(),
    }
}

proof fn lemma_nat_bytes_ascii(n: nat)
    ensures
        is_ascii_bytes(nat_bytes(n)),
        nat_bytes(n).len() >= 1,
    decreases n,
{
    if n >= 10 {
        lemma_nat_bytes_ascii(n / 10);
        let p = nat_bytes(n / 10);
        let q = p.push(digit_byte((n % 10) as int));
        assert forall|i: int| 0 <= i < q.len() implies #[trigger] q[i] < 128 by {
            if i < p.len() {
                assert(q[i] == p[i]);
            }
        }
    }
}

/// Appends the decimal digits of `n`.
fn push_digits(n: u64, out: &mut Vec<u8>)
    ensures
        final(out)@ == old(out)@ + nat_bytes(n as nat),
    decreases n,
{
    if n >= 10 {
        push_digits(n / 10, out);
    }
    out.push((48 + n % 10) as u8);
    proof {
        if n >= 10 {
            assert(old(out)@ + nat_bytes(n as nat) =~= old(out)@ + nat_bytes((n / 10) as nat)
                + seq![digit_byte((n % 10) as int)]);
        } else {
            assert(old(out)@ + nat_bytes(n as nat) =~= old(out)@ + seq![digit_byte(n as int)]);
        }
    }
}

impl Fixed {
    /// The value written out in decimal, as `fixed_text` says.
    pub fn to_text(&self) -> (r: String)
        ensures
            r@ == fixed_text(self.milli as int),
    {
        let m: u64 = if self.milli < 0 {
            (-(self.milli as i128)) as u64
        } else {
            self.milli as u64
        };
        let mut out: Vec<u8> = Vec::new();
        if self.milli < 0 {
            out.push(45u8);
        }
        let ghost sign = out@;
        push_digits(m / 1000, &mut out);
        let ghost whole = out@;
        let f = m % 1000;
        if f != 0 {
            out.push(46u8);
            out.push((48 + f / 100) as u8);
            if f % 100 != 0 {
                out.push((48 + (f / 10) % 10) as u8);
            }
            if f % 10 != 0 {
                out.push((48 + f % 10) as u8);
            }
        }
        proof {
            assert(m as nat == abs(self.milli as int));
            let fb: Seq<u8> = if f == 0 {
                Seq::empty()
            } else {
                seq![46u8] + frac_bytes(f as nat)
            };
            assert(out@ =~= whole + fb);
            assert(out@ =~= fixed_bytes(self.milli as int));
            lemma_nat_bytes_ascii((m / 1000) as nat);
            let nb = nat_bytes((m / 1000) as nat);
            assert(is_ascii_bytes(out@)) by {
                assert forall|i: int| 0 <= i < out@.len() implies #[trigger] out@[i] < 128 by {
                    if i >= sign.len() && i < whole.len() {
                        assert(out@[i] == nb[i - sign.len()]);
                    }
                }
            }
        }
        ascii_string(out.as_slice())
    }
}

proof fn lemma_ascii_chars_concat(a: Seq<u8>, b: Seq<u8>)
    ensures
        ascii_chars(a + b) == ascii_chars(a) + ascii_chars(b),
{
    assert(ascii_chars(a + b) =~= ascii_chars(a) + ascii_chars(b));
}

proof fn lemma_digit_char(d: int)
    requires
        0 <= d < 10,
    ensures
        is_digit(digit_byte(d) as char),
        digit_value(digit_byte(d) as char) == d,
        digit_byte(d) < 128,
{
}

/// The digits written for `n` are digits, and they read back as `n`.
proof fn lemma_nat_bytes_value(n: nat)
    ensures
        all_digits(ascii_chars(nat_bytes(n))),
        digits_value(ascii_chars(nat_bytes(n))) == n,
    decreases n,
{
    if n < 10 {
        lemma_digit_char(n as int);
        let c = ascii_chars(nat_bytes(n));
        assert(c.len() == 1);
        assert(c.drop_last() =~= Seq::<char>::empty());
        assert(c.last() == digit_byte(n as int) as char);
        assert(digits_value(c) == digits_value(c.drop_last()) * 10 + digit_value(c.last()));
    } else {
        lemma_nat_bytes_value(n / 10);
        lemma_digit_char((n % 10) as int);
        let p = ascii_chars(nat_bytes(n / 10));
        let c = ascii_chars(nat_bytes(n));
        assert(c =~= p.push(digit_byte((n % 10) as int) as char));
        assert(c.drop_last() =~= p);
        assert(c.last() == digit_byte((n % 10) as int) as char);
        assert(digits_value(c) == digits_value(p) * 10 + digit_value(c.last()));
        assert(n == (n / 10) * 10 + n % 10);
        assert forall|i: int| 0 <= i < c.len() implies is_digit(#[trigger] c[i]) by {
            if i < p.len() {
                assert(c[i] == p[i]);
            }
        }
    }
}

/// The fraction written for thousandths `f` reads back as `f`.
proof fn lemma_frac_bytes_value(f: nat)
    requires
        0 < f < 1000,
    ensures
        all_digits(ascii_chars(frac_bytes(f))),
        frac_milli(ascii_chars(frac_bytes(f))) == f,
        frac_bytes(f).len() >= 1,
{
    lemma_digit_char((f / 100) as int);
    lemma_digit_char(((f / 10) % 10) as int);
    lemma_digit_char((f % 10) as int);
    assert(f == (f / 100) * 100 + ((f / 10) % 10) * 10 + f % 10) by (nonlinear_arith)
        requires
            0 < f < 1000,
    ;
    let c = ascii_chars(frac_bytes(f));
    assert forall|i: int| 0 <= i < c.len() implies is_digit(#[trigger] c[i]) by {}
}

/// Text written by `to_text` reads back as the same value. The one value left
/// out is `i64::MIN`, whose magnitude is beyond what `parse_fixed` takes.
pub proof fn lemma_text_round_trip(v: Fixed)
    requires
        v.milli > i64::MIN,
    ensures
        parses_to_fixed(fixed_text(v.milli as int)),
        decimal_milli(fixed_text(v.milli as int)) == v.milli,
{
    let milli = v.milli as int;
    let m = abs(milli);
    let w = m / 1000;
    let f = m % 1000;
    let sign: Seq<u8> = if milli < 0 {
        seq![45u8]
    } else {
        Seq::empty()
    };
    let digits = nat_bytes(w);
    let tail: Seq<u8> = if f == 0 {
        Seq::empty()
    } else {
        seq![46u8] + frac_bytes(f)
    };
    let s = fixed_text(milli);
    assert(fixed_bytes(milli) == sign + digits + tail);
    lemma_ascii_chars_concat(sign + digits, tail);
    lemma_ascii_chars_concat(sign, digits);
    lemma_nat_bytes_value(w);
    lemma_nat_bytes_ascii(w);
    let dc = ascii_chars(digits);
    let tc = ascii_chars(tail);
    assert(s == ascii_chars(sign) + dc + tc);
    assert(is_digit(dc[0]));
    let u = unsigned_part(s);
    if milli < 0 {
        assert(s[0] == '-');
        assert(u =~= dc + tc);
    } else {
        assert(ascii_chars(sign) =~= Seq::<char>::empty());
        assert(s =~= dc + tc);
        assert(s[0] == dc[0]);
        assert(u == dc + tc);
    }
    assert(is_negative(s) == (milli < 0));
    assert forall|i: int| 0 <= i < dc.len() implies u[i] != '.' by {
        assert(u[i] == dc[i]);
        assert(is_digit(dc[i]));
    }
    if f == 0 {
        assert(tc =~= Seq::<char>::empty());
        assert(u =~= dc);
        lemma_dot_position(u, dc.len() as int);
        assert(whole_part(s) =~= dc);
        assert(fraction_part(s) =~= Seq::<char>::empty());
    } else {
        lemma_frac_bytes_value(f);
        let fc = ascii_chars(frac_bytes(f));
        lemma_ascii_chars_concat(seq![46u8], frac_bytes(f));
        assert(ascii_chars(seq![46u8]) =~= seq!['.']);
        assert(tc == seq!['.'] + fc);
        assert(u[dc.len() as int] == '.');
        lemma_dot_position(u, dc.len() as int);
        assert(whole_part(s) =~= dc);
        assert(fraction_part(s) =~= fc);
    }
    assert(m == w * 1000 + f);
}

} // verus!

//! Numbers as text: whole numbers both ways, and seconds with a fraction.
use vstd::prelude::*;

use crate::text;

verus! {

// ── Writing ──────────────────────────────────────────────────────────────

/// The character of a digit.
pub open spec fn digit_char(d: nat) -> char {
    (d + 48) as char
}

/// A whole number in decimal digits.
pub open spec fn decimal(n: nat) -> Seq<char>
    decreases n,
{
    if n < 10 {
        seq![digit_char(n)]
    } else {
        decimal(n / 10).push(digit_char(n % 10))
    }
}

/// A whole number with a minus sign where it is negative.
pub open spec fn signed_decimal(n: int) -> Seq<char> {
    if n < 0 {
        seq!['-'] + decimal((-n) as nat)
    } else {
        decimal(n as nat)
    }
}

/// Text filled up with `fill` on the left to at least `width` characters.
pub open spec fn padded_left(s: Seq<char>, width: nat, fill: char) -> Seq<char> {
    if s.len() >= width {
        s
    } else {
        Seq::new((width - s.len()) as nat, |i: int| fill) + s
    }
}

/// Text filled up with `fill` on the right to at least `width` characters.
pub open spec fn padded_right(s: Seq<char>, width: nat, fill: char) -> Seq<char> {
    if s.len() >= width {
        s
    } else {
        s + Seq::new((width - s.len()) as nat, |i: int| fill)
    }
}

/// A whole number in decimal digits.
pub fn write_number(n: u64) -> (text: String)
    ensures
        text@ == decimal(n as nat),
    decreases n,
{
    if n < 10 {
        let mut text = String::new();
        text.push(((n as u8) + 48) as char);
        assert(text@ =~= decimal(n as nat));
        text
    } else {
        let mut text = write_number(n / 10);
        text.push((((n % 10) as u8) + 48) as char);
        text
    }
}

/// A whole number with a minus sign where it is negative.
pub fn write_signed(n: i64) -> (text: String)
    ensures
        text@ == signed_decimal(n as int),
{
    if n < 0 {
        let mut text = String::new();
        text.push('-');
        let size: u64 = if n == i64::MIN {
            0x8000_0000_0000_0000
        } else {
            (-n) as u64
        };
        let digits = write_number(size);
        text.append(&digits);
        assert(text@ =~= signed_decimal(n as int));
        text
    } else {
        write_number(n as u64)
    }
}

fn repeated(fill: char, n: usize) -> (text: String)
    ensures
        text@ == Seq::new(n as nat, |i: int| fill),
{
    let mut text = String::new();
    let mut i: usize = 0;
    while i < n
        invariant
            i <= n,
            text@ =~= Seq::new(i as nat, |i: int| fill),
        decreases n - i,
    {
        text.push(fill);
        i += 1;
    }
    text
}

/// The text filled up with `fill` on the left to at least `width` characters.
pub fn pad_left(text: &str, width: usize, fill: char) -> (r: String)
    ensures
        r@ == padded_left(text@, width as nat, fill),
{
    let n = text::characters(text).len();
    let mut r = if n < width {
        repeated(fill, width - n)
    } else {
        String::new()
    };
    r.append(text);
    assert(r@ =~= padded_left(text@, width as nat, fill));
    r
}

/// The text filled up with `fill` on the right to at least `width` characters.
pub fn pad_right(text: &str, width: usize, fill: char) -> (r: String)
    ensures
        r@ == padded_right(text@, width as nat, fill),
{
    let n = text::characters(text).len();
    let mut r = text.to_owned();
    if n < width {
        let rest = repeated(fill, width - n);
        r.append(&rest);
    }
    assert(r@ =~= padded_right(text@, width as nat, fill));
    r
}

// ── Reading ──────────────────────────────────────────────────────────────

/// Are these digits, all of them?
pub open spec fn all_digits(s: Seq<char>) -> bool {
    forall|i: int| 0 <= i < s.len() ==> text::is_digit(#[trigger] s[i])
}

/// The number that a row of digits stands for; nothing stands for zero.
pub open spec fn digits_value(s: Seq<char>) -> nat
    decreases s.len(),
{
    if s.len() == 0 {
        0
    } else {
        digits_value(s.drop_last()) * 10 + ((s.last() as int - 48) as nat)
    }
}

/// A whole number without a minus sign: digits, with a plus sign before them or none.
pub open spec fn unsigned_value(s: Seq<char>) -> Option<nat> {
    let digits = if s.len() > 0 && s[0] == '+' {
        s.skip(1)
    } else {
        s
    };
    if digits.len() > 0 && all_digits(digits) {
        Some(digits_value(digits))
    } else {
        None
    }
}

/// A whole number no larger than `max`.
pub open spec fn unsigned_within(s: Seq<char>, max: nat) -> Option<nat> {
    match unsigned_value(s) {
        Some(n) if n <= max => Some(n),
        _ => None,
    }
}

/// A whole number: digits, with a sign before them or none.
pub open spec fn signed_value(s: Seq<char>) -> Option<int> {
    if s.len() > 0 && s[0] == '-' {
        let digits = s.skip(1);
        if digits.len() > 0 && all_digits(digits) {
            Some(-(digits_value(digits) as int))
        } else {
            None
        }
    } else {
        match unsigned_value(s) {
            Some(n) => Some(n as int),
            None => None,
        }
    }
}

/// Numbers are read up to here; beyond it they are only known to be larger.
const FAR: u128 = 0x1_0000_0000_0000_0000_0000;

/// The value of `chars[from..]` if those are digits, at least one, and at most `max` in value.
fn read_digits(chars: &[char], from: usize, max: u128) -> (r: Option<u128>)
    requires
        from <= chars@.len(),
        max <= FAR,
    ensures
        ({
            let digits = chars@.skip(from as int);
            match r {
                Some(n) => digits.len() > 0 && all_digits(digits) && n == digits_value(digits) && n
                    <= max,
                None => digits.len() == 0 || !all_digits(digits) || digits_value(digits) > max,
            }
        }),
{
    let ghost digits = chars@.skip(from as int);
    if from == chars.len() {
        return None;
    }
    let mut n: u128 = 0;
    let mut i: usize = from;
    let mut over = false;
    while i < chars.len()
        invariant
            from <= i <= chars@.len(),
            digits == chars@.skip(from as int),
            max <= FAR,
            forall|j: int| 0 <= j < i - from ==> text::is_digit(#[trigger] digits[j]),
            !over ==> n == digits_value(digits.take(i - from)) && n <= max,
            over ==> digits_value(digits.take(i - from)) > max,
        decreases chars@.len() - i,
    {
        let c = chars[i];
        assert(digits[i - from] == c);
        if !text::digit(c) {
            return None;
        }
        assert(digits.take(i + 1 - from).drop_last() =~= digits.take(i - from));
        if !over {
            let d = (c as u32 - 48) as u128;
            let next = n * 10 + d;
            if next > max {
                over = true;
            } else {
                n = next;
            }
        }
        i += 1;
    }
    assert(digits.take(chars@.len() - from) =~= digits);
    if over {
        None
    } else {
        Some(n)
    }
}

/// Read a whole number without a minus sign, up to `max`.
pub fn read_unsigned(text: &str, max: u64) -> (r: Option<u64>)
    ensures
        match r {
            Some(n) => unsigned_within(text@, max as nat) == Some(n as nat),
            None => unsigned_within(text@, max as nat) is None,
        },
{
    let chars = text::characters(text);
    assert(chars@.skip(0) =~= text@);
    let from: usize = if chars.len() > 0 && chars[0] == '+' {
        1
    } else {
        0
    };
    match read_digits(&chars, from, max as u128) {
        Some(n) => Some(n as u64),
        None => None,
    }
}

/// Read a whole number that fits in 32 bits.
pub fn read_u32(text: &str) -> (r: Option<u32>)
    ensures
        match r {
            Some(n) => unsigned_within(text@, u32::MAX as nat) == Some(n as nat),
            None => unsigned_within(text@, u32::MAX as nat) is None,
        },
{
    match read_unsigned(text, u32::MAX as u64) {
        Some(n) => Some(n as u32),
        None => None,
    }
}

/// Read a signed whole number that fits in 32 bits.
pub fn read_i32(text: &str) -> (r: Option<i32>)
    ensures
        match r {
            Some(n) => signed_value(text@) == Some(n as int),
            None => match signed_value(text@) {
                Some(n) => !(i32::MIN <= n <= i32::MAX),
                None => true,
            },
        },
{
    let chars = text::characters(text);
    if chars.len() > 0 && chars[0] == '-' {
        match read_digits(&chars, 1, 0x8000_0000) {
            Some(n) => Some((-(n as i64)) as i32),
            None => None,
        }
    } else {
        match read_unsigned(text, 0x7fff_ffff) {
            Some(n) => Some(n as i32),
            None => None,
        }
    }
}

// ── Seconds ──────────────────────────────────────────────────────────────

/// `n` zeros.
pub open spec fn zeros(n: nat) -> Seq<char> {
    Seq::new(n, |i: int| '0')
}

/// A row of digits with its decimal point moved `by` places to the right and what stands behind
/// the point left out.
pub open spec fn moved(digits: Seq<char>, by: int) -> Seq<char> {
    if by >= 0 {
        digits + zeros(by as nat)
    } else if digits.len() + by > 0 {
        digits.take(digits.len() + by)
    } else {
        seq![]
    }
}

/// The digits before and after the decimal point: `12.5`, `12.`, `.5` or `12`.
pub open spec fn point_split(s: Seq<char>) -> Option<(Seq<char>, Seq<char>)> {
    let (a, b) = match text::first_index(s, '.') {
        Some(i) => (s.take(i), s.skip(i + 1)),
        None => (s, seq![]),
    };
    if all_digits(a) && all_digits(b) && a.len() + b.len() > 0 {
        Some((a, b))
    } else {
        None
    }
}

/// The part before an exponent, and the exponent, which is zero where none is written.
pub open spec fn exponent_split(s: Seq<char>) -> Option<(Seq<char>, int)> {
    match text::first_index(s, 'e') {
        Some(i) => match signed_value(s.skip(i + 1)) {
            Some(e) => Some((s.take(i), e)),
            None => None,
        },
        None => Some((s, 0)),
    }
}

/// The milliseconds in an unsigned number of seconds such as `12`, `12.5` or `1.2e1`.
pub open spec fn unsigned_millis(s: Seq<char>) -> Option<nat> {
    match exponent_split(text::lowered(s)) {
        Some((m, e)) => match point_split(m) {
            Some((a, b)) => Some(digits_value(moved(a + b, e + 3 - b.len()))),
            None => None,
        },
        None => None,
    }
}

/// The milliseconds in a number of seconds, which may carry a sign. What is finer than a
/// millisecond is left out; a number of milliseconds beyond 63 bits is none.
pub open spec fn millis(s: Seq<char>) -> Option<int> {
    let negative = s.len() > 0 && s[0] == '-';
    let body = if s.len() > 0 && (s[0] == '-' || s[0] == '+') {
        s.skip(1)
    } else {
        s
    };
    match unsigned_millis(body) {
        Some(n) if n <= i64::MAX => Some(
            if negative {
                -(n as int)
            } else {
                n as int
            },
        ),
        _ => None,
    }
}

pub open spec fn ten_to(n: nat) -> nat
    decreases n,
{
    if n == 0 {
        1
    } else {
        10 * ten_to((n - 1) as nat)
    }
}

proof fn lemma_zeros(digits: Seq<char>, n: nat)
    ensures
        digits_value(digits + zeros(n)) == digits_value(digits) * ten_to(n),
    decreases n,
{
    if n == 0 {
        assert(digits + zeros(0) =~= digits);
        let v = digits_value(digits);
        let t = ten_to(0);
        assert(v * t == v) by (nonlinear_arith)
            requires
                t == 1,
        ;
    } else {
        let m = (n - 1) as nat;
        lemma_zeros(digits, m);
        assert((digits + zeros(n)).drop_last() =~= digits + zeros(m));
        assert((digits + zeros(n)).last() == '0');
        let v = digits_value(digits);
        let t = ten_to(m);
        assert(v * t * 10 == v * (10 * t)) by (nonlinear_arith);
    }
}

proof fn lemma_ten_to_large(n: nat)
    requires
        n >= 19,
    ensures
        ten_to(n) > i64::MAX,
    decreases n,
{
    if n == 19 {
        reveal_with_fuel(ten_to, 20);
    } else {
        lemma_ten_to_large((n - 1) as nat);
    }
}

proof fn lemma_no_value(digits: Seq<char>)
    ensures
        (forall|i: int| 0 <= i < digits.len() ==> digits[i] == '0') ==> digits_value(digits) == 0,
    decreases digits.len(),
{
    if digits.len() > 0 {
        lemma_no_value(digits.drop_last());
    }
}

proof fn lemma_some_value(digits: Seq<char>, i: int)
    requires
        all_digits(digits),
        0 <= i < digits.len(),
        digits[i] != '0',
    ensures
        digits_value(digits) > 0,
    decreases digits.len(),
{
    if i < digits.len() - 1 {
        lemma_some_value(digits.drop_last(), i);
    }
}

/// Far from the digits, moving the point farther no longer changes what the number stands for:
/// it is nothing, or too large.
proof fn lemma_far(digits: Seq<char>, by: int, near: int)
    requires
        all_digits(digits),
        by == near || by > near >= 19 || by < near <= -digits.len(),
    ensures
        digits_value(moved(digits, by)) == digits_value(moved(digits, near)) || (digits_value(
            moved(digits, by),
        ) > i64::MAX && digits_value(moved(digits, near)) > i64::MAX),
{
    if by > near {
        lemma_zeros(digits, by as nat);
        lemma_zeros(digits, near as nat);
        lemma_ten_to_large(by as nat);
        lemma_ten_to_large(near as nat);
        let v = digits_value(digits);
        let t = ten_to(by as nat);
        let u = ten_to(near as nat);
        if v == 0 {
            assert(v * t == 0 && v * u == 0) by (nonlinear_arith)
                requires
                    v == 0,
            ;
        } else {
            assert(v * t >= t && v * u >= u) by (nonlinear_arith)
                requires
                    v >= 1,
            ;
        }
    }
}

/// Are `chars[from..to]` digits, all of them?
fn digits_only(chars: &[char], from: usize, to: usize) -> (r: bool)
    requires
        from <= to <= chars@.len(),
    ensures
        r == all_digits(chars@.subrange(from as int, to as int)),
{
    let ghost part = chars@.subrange(from as int, to as int);
    let mut i: usize = from;
    while i < to
        invariant
            from <= i <= to <= chars@.len(),
            part == chars@.subrange(from as int, to as int),
            forall|j: int| 0 <= j < i - from ==> text::is_digit(#[trigger] part[j]),
        decreases to - i,
    {
        assert(part[i - from] == chars@[i as int]);
        if !text::digit(chars[i]) {
            return false;
        }
        i += 1;
    }
    true
}

/// Where `c` stands first in the text, if anywhere.
fn index_of(chars: &[char], c: char) -> (at: Option<usize>)
    ensures
        match at {
            Some(i) => text::first_index(chars@, c) == Some(i as int) && i < chars@.len(),
            None => text::first_index(chars@, c) is None,
        },
{
    let mut i: usize = 0;
    while i < chars.len()
        invariant
            i <= chars@.len(),
            forall|j: int| 0 <= j < i ==> chars@[j] != c,
        decreases chars@.len() - i,
    {
        if chars[i] == c {
            proof {
                text::lemma_first_index_is(chars@, c, i as int);
            }
            return Some(i);
        }
        i += 1;
    }
    proof {
        text::lemma_first_index_none(chars@, c);
    }
    None
}

/// A signed number, read no farther from zero than `FAR`.
fn read_exponent(chars: &[char]) -> (r: Option<i128>)
    ensures
        match r {
            Some(e) => signed_value(chars@) matches Some(v) && -FAR <= e <= FAR && (v == e || (v > e
                == FAR) || (v < e == -FAR)),
            None => signed_value(chars@) is None,
        },
{
    let negative = chars.len() > 0 && chars[0] == '-';
    let from: usize = if chars.len() > 0 && (chars[0] == '-' || chars[0] == '+') {
        1
    } else {
        0
    };
    assert(chars@.skip(0) =~= chars@);
    assert(chars@.subrange(from as int, chars@.len() as int) =~= chars@.skip(from as int));
    if from == chars.len() || !digits_only(chars, from, chars.len()) {
        return None;
    }
    let size: i128 = match read_digits(chars, from, FAR) {
        Some(n) => n as i128,
        None => FAR as i128,
    };
    Some(
        if negative {
            -size
        } else {
            size
        },
    )
}

/// `digits` with its decimal point moved; the value that this stands for, if it fits.
fn read_moved(digits: &Vec<char>, by: i128) -> (r: Option<i64>)
    requires
        all_digits(digits@),
        -0x1_0000_0000_0000_0000_0000_0000 <= by <= 0x1_0000_0000_0000_0000_0000_0000,
    ensures
        match r {
            Some(n) => n >= 0 && digits_value(moved(digits@, by as int)) == n,
            None => digits_value(moved(digits@, by as int)) > i64::MAX,
        },
{
    let mut shown: Vec<char> = Vec::new();
    let n = digits.len();
    if by >= 19 {
        let mut i: usize = 0;
        while i < n
            invariant
                i <= n == digits@.len(),
                by >= 19,
                all_digits(digits@),
                forall|j: int| 0 <= j < i ==> digits@[j] == '0',
            decreases n - i,
        {
            if digits[i] != '0' {
                proof {
                    lemma_zeros(digits@, by as nat);
                    lemma_some_value(digits@, i as int);
                    lemma_ten_to_large(by as nat);
                    let v = digits_value(digits@);
                    let t = ten_to(by as nat);
                    assert(v * t >= t) by (nonlinear_arith)
                        requires
                            v >= 1,
                    ;
                }
                return None;
            }
            i += 1;
        }
        proof {
            lemma_zeros(digits@, by as nat);
            lemma_no_value(digits@);
        }
        return Some(0);
    }
    let keep: usize = if by >= 0 {
        n
    } else if n as i128 + by > 0 {
        (n as i128 + by) as usize
    } else {
        0
    };
    let mut i: usize = 0;
    while i < keep
        invariant
            i <= keep <= digits@.len(),
            shown@ == digits@.take(i as int),
        decreases keep - i,
    {
        shown.push(digits[i]);
        assert(digits@.take(i + 1) =~= digits@.take(i as int).push(digits@[i as int]));
        i += 1;
    }
    let mut k: i128 = 0;
    while k < by
        invariant
            0 <= k,
            by >= 0 ==> k <= by,
            by >= 0 ==> keep == digits@.len(),
            k > 0 ==> by >= 0,
            keep <= digits@.len(),
            shown@ =~= digits@.take(keep as int) + zeros(k as nat),
        decreases by - k,
    {
        shown.push('0');
        k += 1;
    }
    assert(shown@ =~= moved(digits@, by as int));
    assert(all_digits(shown@));
    if shown.len() == 0 {
        return Some(0);
    }
    assert(shown@.skip(0) =~= shown@);
    match read_digits(&shown, 0, i64::MAX as u128) {
        Some(n) => Some(n as i64),
        None => None,
    }
}

/// Split off the exponent, read no farther from zero than `FAR`.
fn split_exponent(chars: &Vec<char>) -> (r: Option<(Vec<char>, i128)>)
    ensures
        match r {
            Some((m, e)) => exponent_split(chars@) matches Some((em, v)) && em == m@ && -FAR <= e
                <= FAR && (v == e || (v > e == FAR) || (v < e == -FAR)),
            None => exponent_split(chars@) is None,
        },
{
    let end = chars.len();
    match index_of(chars, 'e') {
        Some(i) => {
            let tail = text::characters(&text::text_of(chars, i + 1, end));
            assert(tail@ =~= chars@.skip(i + 1));
            match read_exponent(&tail) {
                Some(e) => {
                    let m = text::characters(&text::text_of(chars, 0, i));
                    assert(m@ =~= chars@.take(i as int));
                    Some((m, e))
                },
                None => None,
            }
        },
        None => {
            let m = text::characters(&text::text_of(chars, 0, end));
            assert(m@ =~= chars@);
            Some((m, 0))
        },
    }
}

/// The digits around the decimal point, and how many stand behind it.
fn split_point(chars: &Vec<char>) -> (r: Option<(Vec<char>, usize)>)
    ensures
        match r {
            Some((digits, places)) => point_split(chars@) matches Some((a, b)) && digits@ == a + b
                && places == b.len(),
            None => point_split(chars@) is None,
        },
{
    let end = chars.len();
    let (point, after): (usize, usize) = match index_of(chars, '.') {
        Some(i) => (i, i + 1),
        None => (end, end),
    };
    let ghost a = chars@.subrange(0, point as int);
    let ghost b = chars@.subrange(after as int, chars@.len() as int);
    assert(point == chars@.len() ==> a =~= chars@ && b =~= seq![]);
    assert(a =~= chars@.take(point as int));
    assert(point < chars@.len() ==> b =~= chars@.skip(point + 1));
    if !digits_only(chars, 0, point) || !digits_only(chars, after, end) {
        return None;
    }
    let mut digits: Vec<char> = text::characters(&text::text_of(chars, 0, point));
    let mut fraction: Vec<char> = text::characters(&text::text_of(chars, after, end));
    let places = fraction.len();
    digits.append(&mut fraction);
    assert(digits@ =~= a + b);
    if digits.len() == 0 {
        None
    } else {
        Some((digits, places))
    }
}

/// Read an unsigned number of seconds as milliseconds, if those fit.
fn read_unsigned_millis(body: &str) -> (r: Option<i64>)
    ensures
        match r {
            Some(n) => n >= 0 && unsigned_millis(body@) == Some(n as nat),
            None => match unsigned_millis(body@) {
                Some(n) => n > i64::MAX,
                None => true,
            },
        },
{
    let low = text::characters(&text::lowercase(body));
    match split_exponent(&low) {
        Some((m, e)) => match split_point(&m) {
            Some((digits, places)) => {
                let by: i128 = e + 3 - places as i128;
                proof {
                    let (a, b) = point_split(m@)->Some_0;
                    let exact = exponent_split(low@)->Some_0.1;
                    assert(all_digits(a + b));
                    assert(digits.len() == (a + b).len());
                    lemma_far(a + b, exact + 3 - b.len(), by as int);
                }
                read_moved(&digits, by)
            },
            None => None,
        },
        None => None,
    }
}

/// Read a number of seconds as milliseconds.
pub fn read_millis(text: &str) -> (r: Option<i64>)
    ensures
        match r {
            Some(n) => millis(text@) == Some(n as int),
            None => millis(text@) is None,
        },
{
    let chars = text::characters(text);
    let negative = chars.len() > 0 && chars[0] == '-';
    let from: usize = if chars.len() > 0 && (chars[0] == '-' || chars[0] == '+') {
        1
    } else {
        0
    };
    let body = text::text_of(&chars, from, chars.len());
    assert(from == 1 ==> body@ =~= text@.skip(1));
    assert(from == 0 ==> body@ =~= text@);
    match read_unsigned_millis(&body) {
        Some(n) => Some(
            if negative {
                -n
            } else {
                n
            },
        ),
        None => None,
    }
}

// ── Laws ─────────────────────────────────────────────────────────────────

/// A number that was written in decimal reads back as that number.
pub proof fn law_decimal_reads_back(n: nat)
    ensures
        decimal(n).len() > 0,
        all_digits(decimal(n)),
        digits_value(decimal(n)) == n,
        unsigned_value(decimal(n)) == Some(n),
    decreases n,
{
    let s = decimal(n);
    if n >= 10 {
        law_decimal_reads_back(n / 10);
        assert(s.drop_last() =~= decimal(n / 10));
    } else {
        assert(s.drop_last() =~= seq![]);
        assert(digits_value(s.drop_last()) == 0);
    }
}

/// A number that was written with its sign reads back as that number.
pub proof fn law_signed_reads_back(n: int)
    ensures
        signed_value(signed_decimal(n)) == Some(n),
{
    if n < 0 {
        law_decimal_reads_back((-n) as nat);
        assert(signed_decimal(n).skip(1) =~= decimal((-n) as nat));
    } else {
        law_decimal_reads_back(n as nat);
        assert(text::is_digit(decimal(n as nat)[0]));
    }
}

/// A time written as seconds, a point and three digits, as mpd writes it.
pub open spec fn seconds_text(millis: nat) -> Seq<char> {
    decimal(millis / 1000) + "."@ + padded_left(decimal(millis % 1000), 3, '0')
}

/// A time as seconds, a point and three digits, as mpd writes it and reads it.
pub fn write_seconds(millis: u64) -> (r: String)
    ensures
        r@ == seconds_text(millis as nat),
{
    write_number(millis / 1000).concat(".").concat(&pad_left(&write_number(millis % 1000), 3, '0'))
}

proof fn lemma_three_digits(n: nat)
    requires
        n < 1000,
    ensures
        ({
            let s = padded_left(decimal(n), 3, '0');
            s.len() == 3 && all_digits(s) && digits_value(s) == n
        }),
{
    law_decimal_reads_back(n);
    reveal_with_fuel(decimal, 3);
    reveal_with_fuel(digits_value, 4);
    let s = padded_left(decimal(n), 3, '0');
    assert(s.len() == 3);
    assert(s[2] == digit_char(n % 10));
    assert(s[1] == digit_char(n / 10 % 10));
    assert(s[0] == digit_char(n / 100));
    assert(s.drop_last().drop_last().drop_last() =~= seq![]);
}

/// A time that was written to the millisecond reads back as that time.
pub proof fn law_time_reads_back(time: nat)
    requires
        time <= i64::MAX,
    ensures
        millis(seconds_text(time)) == Some(time as int),
{
    reveal_strlit(".");
    let a = decimal(time / 1000);
    let b = padded_left(decimal(time % 1000), 3, '0');
    let s = seconds_text(time);
    law_decimal_reads_back(time / 1000);
    lemma_three_digits(time % 1000);
    assert forall|i: int| 0 <= i < s.len() implies text::is_digit(#[trigger] s[i]) || (s[i] == '.'
        && i == a.len()) by {
        if i > a.len() {
            assert(s[i] == b[i - a.len() - 1]);
        }
    }
    assert(text::is_digit(s[0]));
    assert(text::lowered(s) =~= s);
    text::lemma_first_index_none(s, 'e');
    text::lemma_first_index_is(s, '.', a.len() as int);
    assert(s.take(a.len() as int) =~= a);
    assert(s.skip(a.len() as int + 1) =~= b);
    assert(moved(a + b, 0) =~= a + b);
    assert((a + b).drop_last().drop_last().drop_last() =~= a);
    reveal_with_fuel(digits_value, 4);
    assert(b.drop_last().drop_last().drop_last() =~= seq![]);
    assert((a + b).last() == b[2] && (a + b).drop_last().last() == b[1]
        && (a + b).drop_last().drop_last().last() == b[0]);
}

/// A digit stands for itself, and each digit that follows makes the number ten times as large.
pub proof fn law_digits(s: Seq<char>, c: char, d: nat)
    requires
        '0' <= c <= '9',
        d < 10,
    ensures
        digits_value(seq![]) == 0,
        digits_value(s.push(c)) == digits_value(s) * 10 + (c as int - '0' as int),
        digit_char(d) as int == '0' as int + d,
{
    assert(s.push(c).drop_last() =~= s);
}

/// A number is written without zeros before it; zero itself is one digit.
pub proof fn law_no_zeros_before(n: nat)
    ensures
        n > 0 ==> decimal(n)[0] != '0',
        n < 10 ==> decimal(n).len() == 1,
    decreases n,
{
    if n >= 10 {
        law_no_zeros_before(n / 10);
        law_decimal_reads_back(n / 10);
        assert(decimal(n)[0] == decimal(n / 10)[0]);
    }
}

/// A negative number is written as a minus sign and what it is without it; any other as it is.
pub proof fn law_signs_are_written(n: int)
    ensures
        n >= 0 ==> signed_decimal(n) == decimal(n as nat),
        n < 0 ==> signed_decimal(n) == seq!['-'] + decimal((-n) as nat),
{
}

/// Digits are read as the number that they stand for, with a plus sign or without; with a minus sign
/// they stand for the negative number. One that is larger than is asked for is none.
pub proof fn law_numbers_are_read(digits: Seq<char>, max: nat)
    requires
        digits.len() > 0,
        all_digits(digits),
    ensures
        unsigned_value(digits) == Some(digits_value(digits)),
        unsigned_value(seq!['+'] + digits) == Some(digits_value(digits)),
        signed_value(digits) == Some(digits_value(digits) as int),
        signed_value(seq!['+'] + digits) == Some(digits_value(digits) as int),
        signed_value(seq!['-'] + digits) == Some(-(digits_value(digits) as int)),
        digits_value(digits) <= max ==> unsigned_within(digits, max) == Some(digits_value(digits)),
        digits_value(digits) > max ==> unsigned_within(digits, max) is None,
{
    assert(text::is_digit(digits[0]));
    assert((seq!['+'] + digits).skip(1) =~= digits);
    assert((seq!['-'] + digits).skip(1) =~= digits);
}

/// What is read as a number is digits, at least one, with at most a sign before them.
pub proof fn law_only_numbers_are_read(s: Seq<char>, i: int)
    ensures
        unsigned_value(s) is Some ==> s.len() > 0 && (0 < i < s.len() ==> text::is_digit(s[i]))
            && (text::is_digit(s[0]) || (s[0] == '+' && s.len() > 1)),
        signed_value(s) is Some ==> s.len() > 0 && (0 < i < s.len() ==> text::is_digit(s[i])) && (
        text::is_digit(s[0]) || ((s[0] == '+' || s[0] == '-') && s.len() > 1)),
{
    let rest = s.skip(1);
    if 0 < i < s.len() {
        assert(rest[i - 1] == s[i]);
    }
}

/// A text is padded to a width by putting the fill before it or behind it, and never cut.
pub proof fn law_padding(s: Seq<char>, width: nat, fill: char, i: int)
    ensures
        ({
            let left = padded_left(s, width, fill);
            let right = padded_right(s, width, fill);
            let more = if width > s.len() {
                width - s.len()
            } else {
                0
            };
            &&& left.len() == s.len() + more
            &&& right.len() == s.len() + more
            &&& left.skip(more) == s
            &&& right.take(s.len() as int) == s
            &&& 0 <= i < more ==> left[i] == fill && right[s.len() + i] == fill
        }),
{
    let left = padded_left(s, width, fill);
    let right = padded_right(s, width, fill);
    let more = if width > s.len() {
        width - s.len()
    } else {
        0
    };
    assert(left.skip(more) =~= s);
    assert(right.take(s.len() as int) =~= s);
}

/// A time to the millisecond has three digits behind its point.
pub proof fn law_three_places(time: nat)
    ensures
        seconds_text(time).len() == decimal(time / 1000).len() + 4,
        seconds_text(time).take(decimal(time / 1000).len() as int) == decimal(time / 1000),
        seconds_text(time)[decimal(time / 1000).len() as int] == '.',
        digits_value(seconds_text(time).skip(decimal(time / 1000).len() as int + 1)) == time % 1000,
{
    reveal_strlit(".");
    lemma_three_digits(time % 1000);
    let s = seconds_text(time);
    let n = decimal(time / 1000).len() as int;
    assert(s.take(n) =~= decimal(time / 1000));
    assert(s.skip(n + 1) =~= padded_left(decimal(time % 1000), 3, '0'));
}

proof fn lemma_plain_digits(s: Seq<char>, point: int)
    requires
        forall|i: int| 0 <= i < s.len() && i != point ==> text::is_digit(#[trigger] s[i]),
        0 <= point < s.len() ==> s[point] == '.',
    ensures
        text::lowered(s) == s,
        exponent_split(text::lowered(s)) == Some((s, 0int)),
{
    assert forall|i: int| 0 <= i < s.len() implies text::lower(s[i]) == s[i] && s[i] != 'e' by {
        if i != point {
            assert(text::is_digit(s[i]));
        }
    }
    assert(text::lowered(s) =~= s);
    text::lemma_first_index_none(s, 'e');
}

/// A time in seconds is read in milliseconds: three digits behind the point count, what lacks of them
/// is zeros, and what is behind them is left. Without a point it is whole seconds.
pub proof fn law_times_are_read(whole: Seq<char>, part: Seq<char>)
    requires
        whole.len() > 0,
        all_digits(whole),
        all_digits(part),
    ensures
        ({
            let three = if part.len() <= 3 {
                part + zeros((3 - part.len()) as nat)
            } else {
                part.take(3)
            };
            let n = digits_value(whole + three) as int;
            let seconds = digits_value(whole) * 1000;
            &&& n <= i64::MAX ==> millis(whole + seq!['.'] + part) == Some(n)
            &&& n > i64::MAX ==> millis(whole + seq!['.'] + part) is None
            &&& seconds <= i64::MAX ==> millis(whole) == Some(seconds as int)
            &&& seconds > i64::MAX ==> millis(whole) is None
        }),
{
    let s = whole + seq!['.'] + part;
    let k = whole.len() as int;
    assert(text::is_digit(whole[0]));
    assert forall|i: int| 0 <= i < s.len() && i != k implies text::is_digit(#[trigger] s[i]) by {
        if i > k {
            assert(s[i] == part[i - k - 1]);
        } else {
            assert(s[i] == whole[i]);
        }
    }
    assert(s[0] == whole[0]);
    lemma_plain_digits(s, k);
    lemma_plain_digits(whole, -1);
    text::lemma_first_index_is(s, '.', k);
    assert(s.take(k) =~= whole);
    assert(s.skip(k + 1) =~= part);
    if part.len() <= 3 {
        let z = zeros((3 - part.len()) as nat);
        assert(moved(whole + part, 3 - part.len()) =~= whole + (part + z));
    } else {
        assert(moved(whole + part, 3 - part.len()) =~= whole + part.take(3));
    }
    text::lemma_first_index_none(whole, '.');
    assert(whole + Seq::<char>::empty() =~= whole);
    assert(moved(whole + Seq::<char>::empty(), 3) =~= whole + zeros(3));
    lemma_zeros(whole, 3);
    reveal_with_fuel(ten_to, 4);
}

/// A sign before a time makes it the time before or after the start.
pub proof fn law_signs_of_times(s: Seq<char>)
    requires
        s.len() > 0,
        s[0] != '+',
        s[0] != '-',
    ensures
        millis(seq!['+'] + s) == millis(s),
        millis(s) is None ==> millis(seq!['-'] + s) is None,
        millis(s) matches Some(n) ==> n >= 0 && millis(seq!['-'] + s) == Some(-n),
{
    assert((seq!['+'] + s).skip(1) =~= s);
    assert((seq!['-'] + s).skip(1) =~= s);
}

/// A text with a character that no number has is no time.
pub proof fn law_odd_times_are_none(s: Seq<char>, i: int)
    requires
        0 <= i < s.len(),
        !text::is_digit(s[i]),
        s[i] != '.' && s[i] != 'e' && s[i] != 'E' && s[i] != '+' && s[i] != '-',
    ensures
        millis(s) is None,
{
    let signed = s[0] == '-' || s[0] == '+';
    let body = if signed {
        s.skip(1)
    } else {
        s
    };
    let at = if signed {
        i - 1
    } else {
        i
    };
    assert(body[at] == s[i]);
    let low = text::lowered(body);
    assert(low[at] == text::lower(s[i]));
    assert(!text::is_digit(low[at]) && low[at] != '.' && low[at] != 'e' && low[at] != '+' && low[at]
        != '-');
    if let Some((m, e)) = exponent_split(low) {
        text::lemma_first_index(low, 'e');
        let n = m.len() as int;
        if at < n {
            assert(m[at] == low[at]);
            lemma_odd_point(m, at);
        } else {
            assert(at > n);
            let rest = low.skip(n + 1);
            assert(rest[at - n - 1] == low[at]);
            law_only_numbers_are_read(rest, at - n - 1);
            law_only_numbers_are_read(rest, 0);
        }
    }
}

proof fn lemma_odd_point(m: Seq<char>, at: int)
    requires
        0 <= at < m.len(),
        !text::is_digit(m[at]),
        m[at] != '.',
    ensures
        point_split(m) is None,
{
    text::lemma_first_index(m, '.');
    match text::first_index(m, '.') {
        Some(k) => {
            if at < k {
                assert(m.take(k)[at] == m[at]);
            } else {
                assert(m.skip(k + 1)[at - k - 1] == m[at]);
            }
        },
        None => {},
    }
}

proof fn lemma_below_ten_to(digits: Seq<char>)
    requires
        all_digits(digits),
    ensures
        digits_value(digits) < ten_to(digits.len()),
    decreases digits.len(),
{
    if digits.len() > 0 {
        let less = digits.drop_last();
        assert forall|i: int| 0 <= i < less.len() implies text::is_digit(#[trigger] less[i]) by {
            assert(less[i] == digits[i]);
        }
        lemma_below_ten_to(less);
        assert(text::is_digit(digits[digits.len() - 1]));
    }
}

proof fn lemma_ten_to_grows(n: nat)
    ensures
        ten_to(n) > 0,
    decreases n,
{
    if n > 0 {
        lemma_ten_to_grows((n - 1) as nat);
    }
}

proof fn lemma_digits_left(digits: Seq<char>, n: nat)
    requires
        all_digits(digits),
        n <= digits.len(),
    ensures
        digits_value(digits.take(digits.len() - n)) == digits_value(digits) / ten_to(n),
    decreases n,
{
    if n == 0 {
        assert(digits.take(digits.len() as int) =~= digits);
        let v = digits_value(digits);
        let t = ten_to(0);
        assert(v / t == v) by (nonlinear_arith)
            requires
                t == 1,
        ;
    } else {
        let m = (n - 1) as nat;
        lemma_digits_left(digits, m);
        lemma_ten_to_grows(m);
        let more = digits.take(digits.len() - m);
        let less = digits.take(digits.len() - n);
        assert(more.drop_last() =~= less);
        assert(more.last() == digits[digits.len() - m - 1]);
        assert(text::is_digit(digits[digits.len() - m - 1]));
        vstd::arithmetic::div_mod::lemma_div_denominator(
            digits_value(digits) as int,
            ten_to(m) as int,
            10,
        );
        assert(ten_to(m) * 10 == ten_to(n)) by (nonlinear_arith)
            requires
                ten_to(n) == 10 * ten_to(m),
        ;
    }
}

proof fn lemma_ten_to_more(a: nat, b: nat)
    requires
        a <= b,
    ensures
        ten_to(a) <= ten_to(b),
    decreases b,
{
    if a < b {
        lemma_ten_to_more(a, (b - 1) as nat);
        lemma_ten_to_grows((b - 1) as nat);
    }
}

/// Moving the point to the right multiplies by ten for each place, and to the left divides, with what
/// is behind the point left off.
pub proof fn law_moving_the_point(digits: Seq<char>, by: nat)
    requires
        all_digits(digits),
    ensures
        digits_value(moved(digits, by as int)) == digits_value(digits) * ten_to(by),
        digits_value(moved(digits, -(by as int))) == digits_value(digits) / ten_to(by),
{
    lemma_zeros(digits, by);
    if by == 0 {
        assert(digits + zeros(0) =~= digits);
        lemma_digits_left(digits, 0);
        assert(digits.take(digits.len() as int) =~= digits);
    } else if by < digits.len() {
        lemma_digits_left(digits, by);
    } else {
        lemma_below_ten_to(digits);
        lemma_ten_to_more(digits.len(), by);
        vstd::arithmetic::div_mod::lemma_basic_div(
            digits_value(digits) as int,
            ten_to(by) as int,
        );
    }
}

/// A time may have an exponent, which moves its point, behind an `e` of either case.
pub proof fn law_exponents_of_times(whole: Seq<char>, part: Seq<char>, power: Seq<char>, e: char)
    requires
        whole.len() > 0,
        all_digits(whole),
        all_digits(part),
        signed_value(power) is Some,
        e == 'e' || e == 'E',
    ensures
        ({
            let n = digits_value(
                moved(whole + part, signed_value(power)->Some_0 + 3 - part.len()),
            ) as int;
            let s = whole + seq!['.'] + part + seq![e] + power;
            &&& n <= i64::MAX ==> millis(s) == Some(n)
            &&& n > i64::MAX ==> millis(s) is None
        }),
{
    let m = whole + seq!['.'] + part;
    let s = m + seq![e] + power;
    let k = whole.len() as int;
    assert(text::is_digit(whole[0]));
    assert(s[0] == whole[0]);
    assert forall|i: int| 0 <= i < m.len() && i != k implies text::is_digit(#[trigger] m[i]) by {
        if i > k {
            assert(m[i] == part[i - k - 1]);
        } else {
            assert(m[i] == whole[i]);
        }
    }
    assert forall|i: int| 0 <= i < m.len() implies text::lower(m[i]) == m[i] && m[i] != 'e' by {
        if i != k {
            assert(text::is_digit(m[i]));
        }
    }
    assert forall|i: int| 0 <= i < power.len() implies text::lower(power[i]) == power[i] by {
        law_only_numbers_are_read(power, i);
    }
    let low = text::lowered(s);
    assert(low =~= m + seq!['e'] + power) by {
        assert(text::lower(e) == 'e');
    }
    let n = m.len() as int;
    assert forall|j: int| 0 <= j < n implies low[j] != 'e' by {
        assert(low[j] == m[j]);
    }
    assert(low[n] == 'e');
    text::lemma_first_index_is(low, 'e', n);
    assert(low.take(n) =~= m);
    assert(low.skip(n + 1) =~= power);
    assert forall|j: int| 0 <= j < k implies m[j] != '.' by {
        assert(m[j] == whole[j]);
        assert(text::is_digit(whole[j]));
    }
    text::lemma_first_index_is(m, '.', k);
    assert(m.take(k) =~= whole);
    assert(m.skip(k + 1) =~= part);
}

} // verus!

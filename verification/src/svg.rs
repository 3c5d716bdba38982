//! Aspect ratio of an SVG document, read from the root element's `width` and
//! `height` attributes or, failing that, from its `viewBox`.
//!
//! Numbers are decimal literals (`12`, `12.5`, `.5`, `5.`, with an optional
//! sign inside a `viewBox`) of at most 17 digits, and ratios are computed as
//! exact fractions.

use vstd::prelude::*;
use crate::image::{side_of, Dimensions, VECTOR_SIDE};
use crate::text::{
    decode_utf8_lossy, find, find_chars, is_either, split_by, split_on_either, trim, trimmed,
    utf8_lossy, views,
};

verus! {

pub open spec fn pow10(k: nat) -> nat
    decreases k,
{
    if k == 0 {
        1
    } else {
        10 * pow10((k - 1) as nat)
    }
}

pub proof fn lemma_pow10_monotone(a: nat, b: nat)
    requires
        a <= b,
    ensures
        1 <= pow10(a) <= pow10(b),
    decreases b,
{
    if b > a {
        lemma_pow10_monotone(a, (b - 1) as nat);
    } else if a > 0 {
        lemma_pow10_monotone((a - 1) as nat, (a - 1) as nat);
    }
}

pub proof fn lemma_pow10_17()
    ensures
        pow10(16) == 10000000000000000,
        pow10(17) == 100000000000000000,
{
    reveal_with_fuel(pow10, 18);
}

fn pow10_exec(k: u32) -> (r: u128)
    requires
        k <= 17,
    ensures
        r == pow10(k as nat),
{
    let mut r: u128 = 1;
    let mut i: u32 = 0;
    while i < k
        invariant
            i <= k <= 17,
            r == pow10(i as nat),
        decreases k - i,
    {
        proof {
            lemma_pow10_monotone((i + 1) as nat, 17);
            lemma_pow10_17();
        }
        r = r * 10;
        i = i + 1;
    }
    r
}

pub open spec fn is_digit(c: char) -> bool {
    '0' <= c && c <= '9'
}

pub open spec fn is_numeric(c: char) -> bool {
    is_digit(c) || c == '.'
}

pub open spec fn digit_value(c: char) -> int {
    (c as u32) as int - ('0' as u32) as int
}

/// Number of decimal digits in `t`.
pub open spec fn digit_count(t: Seq<char>) -> nat
    decreases t.len(),
{
    if t.len() == 0 {
        0
    } else if is_digit(t.last()) {
        digit_count(t.drop_last()) + 1
    } else {
        digit_count(t.drop_last())
    }
}

/// Number of `.` characters in `t`.
pub open spec fn dot_count(t: Seq<char>) -> nat
    decreases t.len(),
{
    if t.len() == 0 {
        0
    } else if t.last() == '.' {
        dot_count(t.drop_last()) + 1
    } else {
        dot_count(t.drop_last())
    }
}

/// The digits of `t` read as one integer, ignoring the decimal point.
pub open spec fn digits_value(t: Seq<char>) -> nat
    decreases t.len(),
{
    if t.len() == 0 {
        0
    } else if is_digit(t.last()) {
        (10 * digits_value(t.drop_last()) + digit_value(t.last())) as nat
    } else {
        digits_value(t.drop_last())
    }
}

/// Number of digits after the decimal point.
pub open spec fn fraction_digits(t: Seq<char>) -> nat
    decreases t.len(),
{
    if t.len() == 0 {
        0
    } else if is_digit(t.last()) && dot_count(t.drop_last()) > 0 {
        fraction_digits(t.drop_last()) + 1
    } else if is_digit(t.last()) {
        0
    } else {
        fraction_digits(t.drop_last())
    }
}

/// An unsigned decimal literal: digits with at most one `.`, at least one and
/// at most 17 digits.
pub open spec fn decimal_ok(t: Seq<char>) -> bool {
    &&& forall|i: int| 0 <= i < t.len() ==> is_numeric(#[trigger] t[i])
    &&& dot_count(t) <= 1
    &&& 1 <= digit_count(t) <= 17
}

/// A decimal as an exact fraction `mantissa / 10^scale`.
#[derive(Debug, Clone, Copy, PartialEq, Eq, Structural)]
pub struct Decimal {
    pub negative: bool,
    pub mantissa: u64,
    pub scale: u32,
}

pub open spec fn parse_unsigned(t: Seq<char>) -> Option<Decimal> {
    if decimal_ok(t) {
        Some(
            Decimal {
                negative: false,
                mantissa: digits_value(t) as u64,
                scale: fraction_digits(t) as u32,
            },
        )
    } else {
        None
    }
}

/// An optionally signed decimal literal.
pub open spec fn parse_signed(t: Seq<char>) -> Option<Decimal> {
    if t.len() > 0 && (t[0] == '+' || t[0] == '-') {
        match parse_unsigned(t.drop_first()) {
            Some(d) => Some(Decimal { negative: t[0] == '-', ..d }),
            None => None,
        }
    } else {
        parse_unsigned(t)
    }
}

pub open spec fn is_positive(d: Decimal) -> bool {
    !d.negative && d.mantissa > 0
}

proof fn lemma_digits_value_bound(t: Seq<char>)
    ensures
        digits_value(t) < pow10(digit_count(t)),
        fraction_digits(t) <= digit_count(t),
    decreases t.len(),
{
    if t.len() > 0 {
        lemma_digits_value_bound(t.drop_last());
    }
}

pub fn parse_decimal(t: &[char]) -> (r: Option<Decimal>)
    ensures
        r == parse_unsigned(t@),
{
    let mut value: u64 = 0;
    let mut digits: u32 = 0;
    let mut dots: u32 = 0;
    let mut frac: u32 = 0;
    let mut i: usize = 0;
    while i < t.len()
        invariant
            i <= t@.len(),
            forall|j: int| 0 <= j < i ==> is_numeric(#[trigger] t@[j]),
            digits <= 17,
            dots <= 1,
            value == digits_value(t@.take(i as int)),
            digits == digit_count(t@.take(i as int)),
            dots == dot_count(t@.take(i as int)),
            frac == fraction_digits(t@.take(i as int)),
        decreases t.len() - i,
    {
        let c = t[i];
        let ghost prefix = t@.take(i + 1);
        assert(prefix.drop_last() =~= t@.take(i as int));
        assert(prefix.last() == c);
        if '0' <= c && c <= '9' {
            if digits == 17 {
                proof {
                    lemma_count_monotone(t@, i + 1);
                }
                return None;
            }
            proof {
                lemma_digits_value_bound(t@.take(i as int));
                lemma_pow10_monotone(digits as nat, 16);
                lemma_pow10_17();
            }
            value = value * 10 + ((c as u32) - ('0' as u32)) as u64;
            digits = digits + 1;
            if dots > 0 {
                frac = frac + 1;
            }
        } else if c == '.' {
            if dots == 1 {
                proof {
                    lemma_count_monotone(t@, i + 1);
                }
                return None;
            }
            dots = dots + 1;
        } else {
            return None;
        }
        i = i + 1;
    }
    assert(t@.take(t@.len() as int) =~= t@);
    if digits == 0 {
        return None;
    }
    Some(Decimal { negative: false, mantissa: value, scale: frac })
}

proof fn lemma_count_monotone(t: Seq<char>, k: int)
    requires
        0 <= k <= t.len(),
    ensures
        digit_count(t.take(k)) <= digit_count(t),
        dot_count(t.take(k)) <= dot_count(t),
    decreases t.len() - k,
{
    if k < t.len() {
        lemma_count_monotone(t, k + 1);
        assert(t.take(k + 1).drop_last() =~= t.take(k));
    } else {
        assert(t.take(k) =~= t);
    }
}

pub fn parse_signed_decimal(t: &[char]) -> (r: Option<Decimal>)
    ensures
        r == parse_signed(t@),
{
    if t.len() > 0 && (t[0] == '+' || t[0] == '-') {
        let mut rest: Vec<char> = Vec::new();
        let mut i: usize = 1;
        while i < t.len()
            invariant
                1 <= i <= t@.len(),
                rest@ == t@.subrange(1, i as int),
            decreases t.len() - i,
        {
            rest.push(t[i]);
            i = i + 1;
        }
        assert(rest@ =~= t@.drop_first());
        match parse_decimal(&rest) {
            Some(d) => Some(Decimal { negative: t[0] == '-', ..d }),
            None => None,
        }
    } else {
        parse_decimal(t)
    }
}

// ---------------------------------------------------------------------------
// Attributes

pub open spec fn attr_pattern(name: Seq<char>) -> Seq<char> {
    name + seq!['=', '"']
}

/// `name="value"`: the text after the first occurrence of `name="` up to the
/// next `"`.
pub open spec fn svg_attribute(head: Seq<char>, name: Seq<char>) -> Option<Seq<char>> {
    match find(head, attr_pattern(name)) {
        None => None,
        Some(i) => {
            let rest = head.subrange(i + name.len() + 2, head.len() as int);
            match find(rest, seq!['"']) {
                None => None,
                Some(j) => Some(rest.subrange(0, j)),
            }
        },
    }
}

fn attribute(head: &[char], name: &[char]) -> (r: Option<Vec<char>>)
    ensures
        r is Some <==> svg_attribute(head@, name@) is Some,
        r matches Some(v) ==> v@ == svg_attribute(head@, name@)->0,
{
    let mut pattern: Vec<char> = Vec::new();
    let mut k: usize = 0;
    while k < name.len()
        invariant
            k <= name@.len(),
            pattern@ == name@.take(k as int),
        decreases name.len() - k,
    {
        pattern.push(name[k]);
        k = k + 1;
    }
    pattern.push('=');
    pattern.push('"');
    assert(pattern@ =~= attr_pattern(name@));
    let at = match find_chars(head, &pattern) {
        Some(i) => i,
        None => return None,
    };
    proof {
        crate::text::lemma_find_from_spec(head@, attr_pattern(name@), 0);
        assert(crate::text::occurs_at(head@, pattern@, at as int));
        assert(pattern@.len() == name@.len() + 2);
        assert(at + name@.len() + 2 <= head@.len());
    }
    let head_len = head.len();
    let start = at + name.len() + 2;
    let mut rest: Vec<char> = Vec::new();
    let mut i = start;
    while i < head.len()
        invariant
            start <= i <= head@.len(),
            rest@ == head@.subrange(start as int, i as int),
        decreases head.len() - i,
    {
        rest.push(head[i]);
        i = i + 1;
    }
    let mut quote: Vec<char> = Vec::new();
    quote.push('"');
    assert(quote@ =~= seq!['"']);
    let end = match find_chars(&rest, &quote) {
        Some(j) => j,
        None => return None,
    };
    proof {
        crate::text::lemma_find_from_spec(rest@, seq!['"'], 0);
    }
    let mut value: Vec<char> = Vec::new();
    let mut j: usize = 0;
    while j < end
        invariant
            j <= end <= rest@.len(),
            value@ == rest@.subrange(0, j as int),
        decreases end - j,
    {
        value.push(rest[j]);
        j = j + 1;
    }
    Some(value)
}

/// Length of the leading run of digits and `.` from index `i`.
pub open spec fn numeric_run_end(t: Seq<char>, i: int) -> int
    decreases t.len() - i,
{
    if 0 <= i < t.len() && is_numeric(t[i]) {
        numeric_run_end(t, i + 1)
    } else {
        i
    }
}

/// The leading number of an attribute value: surrounding whitespace trimmed,
/// units (`px`, `pt`, `%`) ignored, and only positive values used.
pub open spec fn leading_number(value: Seq<char>) -> Option<Decimal> {
    let t = trim(value);
    match parse_unsigned(t.take(numeric_run_end(t, 0))) {
        Some(d) => if is_positive(d) {
            Some(d)
        } else {
            None
        },
        None => None,
    }
}

fn leading_number_of(value: &[char]) -> (r: Option<Decimal>)
    ensures
        r == leading_number(value@),
{
    let t = trimmed(value);
    let mut i: usize = 0;
    while i < t.len() && (('0' <= t[i] && t[i] <= '9') || t[i] == '.')
        invariant
            i <= t@.len(),
            numeric_run_end(t@, 0) == numeric_run_end(t@, i as int),
        decreases t.len() - i,
    {
        i = i + 1;
    }
    let mut run: Vec<char> = Vec::new();
    let mut k: usize = 0;
    while k < i
        invariant
            k <= i <= t@.len(),
            run@ == t@.take(k as int),
        decreases i - k,
    {
        run.push(t[k]);
        k = k + 1;
    }
    match parse_decimal(&run) {
        Some(d) => if !d.negative && d.mantissa > 0 {
            Some(d)
        } else {
            None
        },
        None => None,
    }
}

// ---------------------------------------------------------------------------
// viewBox

/// The numbers of a `viewBox`: its non-empty parts (separated by spaces or
/// commas) that parse as decimals, in order.
pub open spec fn view_box_numbers(parts: Seq<Seq<char>>) -> Seq<Decimal>
    decreases parts.len(),
{
    if parts.len() == 0 {
        Seq::empty()
    } else {
        let prev = view_box_numbers(parts.drop_last());
        let p = parts.last();
        if p.len() > 0 && parse_signed(p) is Some {
            prev.push(parse_signed(p)->0)
        } else {
            prev
        }
    }
}

pub open spec fn view_box_parts(v: Seq<char>) -> Seq<Seq<char>> {
    split_by(v, is_either(' ', ','))
}

/// Width-to-height ratio as a fraction `(numerator, denominator)`.
pub open spec fn ratio_of(w: Decimal, h: Decimal) -> (int, int) {
    (w.mantissa * pow10(h.scale as nat), h.mantissa * pow10(w.scale as nat))
}

/// Width/height ratio of the root `<svg>`: from `width` and `height` when
/// both carry a positive leading number, else from a four-number `viewBox`
/// with positive width and height.
pub open spec fn svg_ratio(head: Seq<char>) -> Option<(int, int)> {
    let w = match svg_attribute(head, seq!['w', 'i', 'd', 't', 'h']) {
        Some(v) => leading_number(v),
        None => None,
    };
    let h = match svg_attribute(head, seq!['h', 'e', 'i', 'g', 'h', 't']) {
        Some(v) => leading_number(v),
        None => None,
    };
    if w is Some && h is Some {
        Some(ratio_of(w->0, h->0))
    } else {
        match svg_attribute(head, seq!['v', 'i', 'e', 'w', 'B', 'o', 'x']) {
            None => None,
            Some(vb) => {
                let nums = view_box_numbers(view_box_parts(vb));
                if nums.len() == 4 && is_positive(nums[2]) && is_positive(nums[3]) {
                    Some(ratio_of(nums[2], nums[3]))
                } else {
                    None
                }
            },
        }
    }
}

/// An exact positive ratio `num / den`.
#[derive(Debug, Clone, Copy, PartialEq, Eq, Structural)]
pub struct Ratio {
    pub num: u128,
    pub den: u128,
}

fn ratio_exec(w: Decimal, h: Decimal) -> (r: Ratio)
    requires
        w.mantissa > 0,
        h.mantissa > 0,
        w.mantissa < pow10(17),
        h.mantissa < pow10(17),
        w.scale <= 17,
        h.scale <= 17,
    ensures
        (r.num as int, r.den as int) == ratio_of(w, h),
        r.num < pow10(17) * pow10(17),
        r.den < pow10(17) * pow10(17),
        r.num > 0,
        r.den > 0,
{
    let pw = pow10_exec(h.scale);
    let ph = pow10_exec(w.scale);
    proof {
        lemma_pow10_monotone(h.scale as nat, 17);
        lemma_pow10_monotone(w.scale as nat, 17);
        lemma_pow10_17();
        assert((w.mantissa as int) * (pw as int) < pow10(17) * pow10(17)) by (nonlinear_arith)
            requires
                w.mantissa < pow10(17),
                pw <= pow10(17),
        ;
        assert((h.mantissa as int) * (ph as int) < pow10(17) * pow10(17)) by (nonlinear_arith)
            requires
                h.mantissa < pow10(17),
                ph <= pow10(17),
        ;
        assert((w.mantissa as int) * (pw as int) > 0) by (nonlinear_arith)
            requires
                w.mantissa > 0,
                pw >= 1,
        ;
        assert((h.mantissa as int) * (ph as int) > 0) by (nonlinear_arith)
            requires
                h.mantissa > 0,
                ph >= 1,
        ;
    }
    Ratio { num: (w.mantissa as u128) * pw, den: (h.mantissa as u128) * ph }
}

proof fn lemma_decimal_bounds(t: Seq<char>)
    requires
        parse_unsigned(t) is Some,
    ensures
        parse_unsigned(t)->0.mantissa < pow10(17),
        parse_unsigned(t)->0.scale <= 17,
{
    lemma_digits_value_bound(t);
    lemma_pow10_monotone(digit_count(t), 17);
}

proof fn lemma_signed_bounds(t: Seq<char>)
    requires
        parse_signed(t) is Some,
    ensures
        parse_signed(t)->0.mantissa < pow10(17),
        parse_signed(t)->0.scale <= 17,
{
    if t.len() > 0 && (t[0] == '+' || t[0] == '-') {
        lemma_decimal_bounds(t.drop_first());
    } else {
        lemma_decimal_bounds(t);
    }
}

proof fn lemma_view_box_numbers_bounded(parts: Seq<Seq<char>>)
    ensures
        forall|i: int|
            0 <= i < view_box_numbers(parts).len() ==> #[trigger] view_box_numbers(parts)[i].mantissa
                < pow10(17) && view_box_numbers(parts)[i].scale <= 17,
    decreases parts.len(),
{
    if parts.len() > 0 {
        lemma_view_box_numbers_bounded(parts.drop_last());
        let prev = view_box_numbers(parts.drop_last());
        let p = parts.last();
        if p.len() > 0 && parse_signed(p) is Some {
            lemma_signed_bounds(p);
            let cur = view_box_numbers(parts);
            assert forall|i: int| 0 <= i < cur.len() implies #[trigger] cur[i].mantissa < pow10(17)
                && cur[i].scale <= 17 by {
                if i < prev.len() {
                    assert(cur[i] == prev[i]);
                }
            }
        }
    }
}

fn view_box_numbers_of(vb: &[char]) -> (r: Vec<Decimal>)
    ensures
        r@ == view_box_numbers(view_box_parts(vb@)),
{
    let parts = split_on_either(vb, ' ', ',');
    let mut out: Vec<Decimal> = Vec::new();
    let mut i: usize = 0;
    while i < parts.len()
        invariant
            i <= parts@.len(),
            views(parts@) == view_box_parts(vb@),
            out@ == view_box_numbers(views(parts@).take(i as int)),
        decreases parts.len() - i,
    {
        let ghost ps = views(parts@);
        assert(ps.take(i + 1).drop_last() =~= ps.take(i as int));
        assert(ps.take(i + 1).last() == parts@[i as int]@);
        if parts[i].len() > 0 {
            match parse_signed_decimal(&parts[i]) {
                Some(d) => {
                    out.push(d);
                },
                None => {},
            }
        }
        i = i + 1;
    }
    assert(views(parts@).take(parts@.len() as int) =~= views(parts@));
    out
}

fn chars5(a: char, b: char, c: char, d: char, e: char) -> (v: Vec<char>)
    ensures
        v@ == seq![a, b, c, d, e],
{
    let mut v: Vec<char> = Vec::new();
    v.push(a);
    v.push(b);
    v.push(c);
    v.push(d);
    v.push(e);
    assert(v@ =~= seq![a, b, c, d, e]);
    v
}

pub fn svg_aspect_ratio(head: &[char]) -> (r: Option<Ratio>)
    ensures
        r is Some <==> svg_ratio(head@) is Some,
        r matches Some(q) ==> (q.num as int, q.den as int) == svg_ratio(head@)->0,
        r matches Some(q) ==> q.num < pow10(17) * pow10(17) && q.den < pow10(17) * pow10(17),
        r matches Some(q) ==> q.num > 0 && q.den > 0,
{
    let width_name = chars5('w', 'i', 'd', 't', 'h');
    let mut height_name = chars5('h', 'e', 'i', 'g', 'h');
    height_name.push('t');
    let mut view_box_name = chars5('v', 'i', 'e', 'w', 'B');
    view_box_name.push('o');
    view_box_name.push('x');
    assert(height_name@ =~= seq!['h', 'e', 'i', 'g', 'h', 't']);
    assert(view_box_name@ =~= seq!['v', 'i', 'e', 'w', 'B', 'o', 'x']);
    let w = match attribute(head, &width_name) {
        Some(v) => leading_number_of(&v),
        None => None,
    };
    let h = match attribute(head, &height_name) {
        Some(v) => leading_number_of(&v),
        None => None,
    };
    if let (Some(w), Some(h)) = (w, h) {
        proof {
            let t = trim(svg_attribute(head@, seq!['w', 'i', 'd', 't', 'h'])->0);
            lemma_decimal_bounds(t.take(numeric_run_end(t, 0)));
            let u = trim(svg_attribute(head@, seq!['h', 'e', 'i', 'g', 'h', 't'])->0);
            lemma_decimal_bounds(u.take(numeric_run_end(u, 0)));
        }
        return Some(ratio_exec(w, h));
    }
    let vb = match attribute(head, &view_box_name) {
        Some(v) => v,
        None => return None,
    };
    let nums = view_box_numbers_of(&vb);
    proof {
        lemma_view_box_numbers_bounded(view_box_parts(vb@));
    }
    if nums.len() == 4 && !nums[2].negative && nums[2].mantissa > 0 && !nums[3].negative
        && nums[3].mantissa > 0 {
        Some(ratio_exec(nums[2], nums[3]))
    } else {
        None
    }
}

// ---------------------------------------------------------------------------
// Extent

pub open spec fn cap_u32(x: int) -> u32 {
    if x > u32::MAX {
        u32::MAX
    } else {
        x as u32
    }
}

/// Extent reported for a vector: the short edge stays at `VECTOR_SIDE` while
/// the long edge carries the document's proportions; without a usable ratio
/// the document is taken as square.
pub open spec fn svg_dims_for(r: Option<(int, int)>) -> Dimensions {
    match r {
        Some((n, d)) => if n > d {
            Dimensions { width: cap_u32(4096 * n / d), height: 4096 }
        } else if n < d {
            Dimensions { width: 4096, height: cap_u32(4096 * d / n) }
        } else {
            Dimensions { width: 4096, height: 4096 }
        },
        None => Dimensions { width: 4096, height: 4096 },
    }
}

pub open spec fn svg_head(b: Seq<u8>) -> Seq<char> {
    utf8_lossy(
        b.subrange(
            0,
            if b.len() < 2048 {
                b.len() as int
            } else {
                2048
            },
        ),
    )
}

pub open spec fn svg_dims(b: Seq<u8>) -> Dimensions {
    svg_dims_for(svg_ratio(svg_head(b)))
}

pub fn svg_dimensions(bytes: &[u8]) -> (d: Dimensions)
    ensures
        d == svg_dims(bytes@),
{
    let probe_len = if bytes.len() < 2048 {
        bytes.len()
    } else {
        2048
    };
    let head = decode_utf8_lossy(&bytes[0..probe_len]);
    match svg_aspect_ratio(&head) {
        Some(q) => {
            proof {
                lemma_pow10_17();
            }
            if q.num > q.den {
                let w = 4096 * q.num / q.den;
                let width: u32 = if w > 4294967295 {
                    4294967295
                } else {
                    w as u32
                };
                Dimensions { width, height: VECTOR_SIDE }
            } else if q.num < q.den {
                let h = 4096 * q.den / q.num;
                let height: u32 = if h > 4294967295 {
                    4294967295
                } else {
                    h as u32
                };
                Dimensions { width: VECTOR_SIDE, height }
            } else {
                Dimensions { width: VECTOR_SIDE, height: VECTOR_SIDE }
            }
        },
        None => Dimensions { width: VECTOR_SIDE, height: VECTOR_SIDE },
    }
}

/// A ratio read from a document has a positive numerator and denominator.
proof fn lemma_svg_ratio_positive(head: Seq<char>)
    ensures
        svg_ratio(head) matches Some((n, d)) ==> n > 0 && d > 0,
{
    match svg_ratio(head) {
        Some((n, d)) => {
            let w = match svg_attribute(head, seq!['w', 'i', 'd', 't', 'h']) {
                Some(v) => leading_number(v),
                None => None,
            };
            let h = match svg_attribute(head, seq!['h', 'e', 'i', 'g', 'h', 't']) {
                Some(v) => leading_number(v),
                None => None,
            };
            let (a, b) = if w is Some && h is Some {
                (w->0, h->0)
            } else {
                let vb = svg_attribute(head, seq!['v', 'i', 'e', 'w', 'B', 'o', 'x'])->0;
                let nums = view_box_numbers(view_box_parts(vb));
                (nums[2], nums[3])
            };
            assert(is_positive(a) && is_positive(b));
            assert((n, d) == ratio_of(a, b));
            lemma_pow10_monotone(0, b.scale as nat);
            lemma_pow10_monotone(0, a.scale as nat);
            assert(a.mantissa * pow10(b.scale as nat) > 0) by (nonlinear_arith)
                requires
                    a.mantissa > 0,
                    pow10(b.scale as nat) >= 1,
            ;
            assert(b.mantissa * pow10(a.scale as nat) > 0) by (nonlinear_arith)
                requires
                    b.mantissa > 0,
                    pow10(a.scale as nat) >= 1,
            ;
        },
        None => {},
    }
}

/// A vector's reported resolution is always `VECTOR_SIDE`, whatever size
/// the document declares: its short edge never drops below it.
pub proof fn lemma_svg_side_is_vector_side(b: Seq<u8>)
    ensures
        side_of(svg_dims(b)) == VECTOR_SIDE,
        svg_dims(b).width >= VECTOR_SIDE,
        svg_dims(b).height >= VECTOR_SIDE,
{
    lemma_svg_ratio_positive(svg_head(b));
    match svg_ratio(svg_head(b)) {
        Some((n, d)) => {
            if n > d {
                assert(4096 * n / d >= 4096) by (nonlinear_arith)
                    requires
                        n > d,
                        d > 0,
                ;
            } else if n < d {
                assert(4096 * d / n >= 4096) by (nonlinear_arith)
                    requires
                        d > n,
                        n > 0,
                ;
            }
        },
        None => {},
    }
}

} // verus!

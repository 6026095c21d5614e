//! The field coercion policy: how one raw field becomes a typed value, with a
//! fallback for every missing or unparsable field.

use vstd::prelude::*;
use vstd::slice::slice_to_vec;

verus! {

/// An ASCII decimal digit.
pub open spec fn is_digit(b: u8) -> bool {
    48 <= b <= 57
}

pub open spec fn all_digits(s: Seq<u8>) -> bool {
    forall|i: int| 0 <= i < s.len() ==> is_digit(#[trigger] s[i])
}

/// The number that a string of decimal digits writes.
pub open spec fn digits_value(s: Seq<u8>) -> nat
    decreases s.len(),
{
    if s.len() == 0 {
        0
    } else {
        digits_value(s.drop_last()) * 10 + (s.last() - 48) as nat
    }
}

/// What `str::parse::<u32>` accepts: an optional `+`, then one or more digits
/// whose value fits in a `u32`.
pub open spec fn u32_of(s: Seq<u8>) -> Option<u32> {
    let d = if s.len() > 0 && s[0] == 43 {
        s.drop_first()
    } else {
        s
    };
    if d.len() > 0 && all_digits(d) && digits_value(d) <= u32::MAX {
        Some(digits_value(d) as u32)
    } else {
        None
    }
}

proof fn lemma_digits_prefix_le(s: Seq<u8>, j: int)
    requires
        all_digits(s),
        0 <= j <= s.len(),
    ensures
        digits_value(s.subrange(0, j)) <= digits_value(s),
    decreases s.len(),
{
    if j < s.len() {
        let t = s.drop_last();
        assert(s.subrange(0, j) =~= t.subrange(0, j));
        lemma_digits_prefix_le(t, j);
    } else {
        assert(s.subrange(0, j) =~= s);
    }
}

/// Reads a decimal `u32` as `str::parse::<u32>` does.
pub fn parse_u32(s: &[u8]) -> (r: Option<u32>)
    ensures
        r == u32_of(s@),
{
    let mut start: usize = 0;
    if s.len() > 0 && s[0] == 43 {
        start = 1;
    }
    let ghost d = if s@.len() > 0 && s@[0] == 43 {
        s@.drop_first()
    } else {
        s@
    };
    assert(d =~= s@.subrange(start as int, s@.len() as int));
    if start == s.len() {
        return None;
    }
    let mut i: usize = start;
    let mut acc: u32 = 0;
    while i < s.len()
        invariant
            start <= i <= s.len(),
            d == s@.subrange(start as int, s@.len() as int),
            d.len() > 0,
            d == (if s@.len() > 0 && s@[0] == 43 {
                s@.drop_first()
            } else {
                s@
            }),
            all_digits(s@.subrange(start as int, i as int)),
            acc as nat == digits_value(s@.subrange(start as int, i as int)),
        decreases s.len() - i,
    {
        let b = s[i];
        let ghost before = s@.subrange(start as int, i as int);
        let ghost after = s@.subrange(start as int, i + 1);
        assert(after.drop_last() =~= before);
        assert(after.last() == b);
        assert(digits_value(after) == digits_value(before) * 10 + (b - 48) as nat);
        if b < 48 || b > 57 {
            assert(d[i - start] == b);
            assert(!is_digit(d[i - start]));
            assert(!all_digits(d));
            return None;
        }
        assert(all_digits(after));
        match acc.checked_mul(10) {
            Some(m) => match m.checked_add((b - 48) as u32) {
                Some(v) => {
                    acc = v;
                },
                None => {
                    proof {
                        if all_digits(d) {
                            assert(after =~= d.subrange(0, i + 1 - start));
                            lemma_digits_prefix_le(d, i + 1 - start);
                        }
                    }
                    return None;
                },
            },
            None => {
                proof {
                    if all_digits(d) {
                        assert(after =~= d.subrange(0, i + 1 - start));
                        lemma_digits_prefix_le(d, i + 1 - start);
                    }
                }
                return None;
            },
        }
        i = i + 1;
    }
    assert(s@.subrange(start as int, i as int) =~= d);
    Some(acc)
}

/// The end of the run of digits that starts at `i`.
pub open spec fn digit_run(s: Seq<u8>, i: int) -> int
    decreases s.len() - i,
{
    if 0 <= i < s.len() && is_digit(s[i]) {
        digit_run(s, i + 1)
    } else {
        i
    }
}

pub open spec fn is_sign(b: u8) -> bool {
    b == 43 || b == 45
}

/// The unsigned decimal form that `str::parse::<f64>` accepts:
/// `(Digit+ | Digit+ '.' Digit* | Digit* '.' Digit+) Exp?`, where
/// `Exp ::= ('e' | 'E') Sign? Digit+`.
pub open spec fn is_decimal(s: Seq<u8>) -> bool {
    let a = digit_run(s, 0);
    let has_point = a < s.len() && s[a] == 46;
    let f = if has_point {
        digit_run(s, a + 1)
    } else {
        a
    };
    let n_digits = if has_point {
        f - 1
    } else {
        a
    };
    &&& n_digits > 0
    &&& (f == s.len() || ((s[f] == 101 || s[f] == 69) && {
        let k = if f + 1 < s.len() && is_sign(s[f + 1]) {
            f + 2
        } else {
            f + 1
        };
        let e = digit_run(s, k);
        e > k && e == s.len()
    }))
}

/// ASCII lower case of one byte.
pub open spec fn lower(b: u8) -> u8 {
    if 65 <= b <= 90 {
        (b + 32) as u8
    } else {
        b
    }
}

/// `s` spells the lower-case word `w`, ignoring ASCII case.
pub open spec fn is_word(s: Seq<u8>, w: Seq<u8>) -> bool {
    s.len() == w.len() && forall|i: int| 0 <= i < s.len() ==> lower(#[trigger] s[i]) == w[i]
}

/// A literal without its optional leading sign.
pub open spec fn unsigned_part(s: Seq<u8>) -> Seq<u8> {
    if s.len() > 0 && is_sign(s[0]) {
        s.drop_first()
    } else {
        s
    }
}

/// A literal that `str::parse::<f64>` reads as a number rather than NaN:
/// an optional sign, then a decimal, `inf` or `infinity` in any case.
pub open spec fn is_number_text(s: Seq<u8>) -> bool {
    let body = unsigned_part(s);
    is_decimal(body) || is_word(body, seq![105u8, 110, 102]) || is_word(
        body,
        seq![105u8, 110, 102, 105, 110, 105, 116, 121],
    )
}

/// A coordinate field: the number's literal, or `None` for NaN.
pub open spec fn coord_of(f: Option<Seq<u8>>) -> Option<Seq<u8>> {
    match f {
        Some(b) => if is_number_text(b) {
            Some(b)
        } else {
            None
        },
        None => None,
    }
}

/// A population field: absent when missing or not a `u32`.
pub open spec fn population_of(f: Option<Seq<u8>>) -> Option<u32> {
    match f {
        Some(b) => u32_of(b),
        None => None,
    }
}

/// The text that stands for a missing text field.
pub open spec fn sentinel() -> Seq<char> {
    seq!['N', 'o', 'n', 'e']
}

/// A text field: kept as it is, even when empty; the sentinel when missing.
pub open spec fn text_of(f: Option<Seq<char>>) -> Seq<char> {
    match f {
        Some(t) => t,
        None => sentinel(),
    }
}

fn digit_run_from(s: &[u8], i: usize) -> (r: usize)
    requires
        i <= s.len(),
    ensures
        r as int == digit_run(s@, i as int),
        i <= r <= s.len(),
{
    let mut j: usize = i;
    while j < s.len() && s[j] >= 48 && s[j] <= 57
        invariant
            i <= j <= s.len(),
            digit_run(s@, i as int) == digit_run(s@, j as int),
        decreases s.len() - j,
    {
        j = j + 1;
    }
    j
}

/// Whether `s` is an unsigned decimal in the form that `str::parse::<f64>` accepts.
pub fn is_decimal_literal(s: &[u8]) -> (r: bool)
    ensures
        r == is_decimal(s@),
{
    let a = digit_run_from(s, 0);
    let has_point = a < s.len() && s[a] == 46;
    let f = if has_point {
        digit_run_from(s, a + 1)
    } else {
        a
    };
    let n_digits = if has_point {
        f - 1
    } else {
        a
    };
    if n_digits == 0 {
        return false;
    }
    if f == s.len() {
        return true;
    }
    if s[f] != 101 && s[f] != 69 {
        return false;
    }
    let k = if f + 1 < s.len() && (s[f + 1] == 43 || s[f + 1] == 45) {
        f + 2
    } else {
        f + 1
    };
    let e = digit_run_from(s, k);
    e > k && e == s.len()
}

fn lower_byte(b: u8) -> (r: u8)
    ensures
        r == lower(b),
{
    if 65 <= b && b <= 90 {
        b + 32
    } else {
        b
    }
}

fn matches_word(s: &[u8], w: &[u8]) -> (r: bool)
    ensures
        r == is_word(s@, w@),
{
    if s.len() != w.len() {
        return false;
    }
    let mut i: usize = 0;
    while i < s.len()
        invariant
            s.len() == w.len(),
            i <= s.len(),
            forall|j: int| 0 <= j < i ==> lower(#[trigger] s@[j]) == w@[j],
        decreases s.len() - i,
    {
        if lower_byte(s[i]) != w[i] {
            return false;
        }
        i = i + 1;
    }
    true
}

/// Whether `str::parse::<f64>` reads `s` as a number rather than NaN.
pub fn is_number_literal(s: &[u8]) -> (r: bool)
    ensures
        r == is_number_text(s@),
{
    let body: &[u8] = if s.len() > 0 && (s[0] == 43 || s[0] == 45) {
        s.split_at(1).1
    } else {
        s
    };
    assert(body@ =~= unsigned_part(s@));
    let inf: Vec<u8> = vec![105u8, 110, 102];
    let infinity: Vec<u8> = vec![105u8, 110, 102, 105, 110, 105, 116, 121];
    assert(inf@ =~= seq![105u8, 110, 102]);
    assert(infinity@ =~= seq![105u8, 110, 102, 105, 110, 105, 116, 121]);
    is_decimal_literal(body) || matches_word(body, inf.as_slice()) || matches_word(
        body,
        infinity.as_slice(),
    )
}

/// A literal that `str::parse::<f64>` reads as NaN: `nan` in any case, with an
/// optional sign.
pub open spec fn is_nan_text(b: Seq<u8>) -> bool {
    is_word(unsigned_part(b), seq![110u8, 97, 110])
}

/// Whether `str::parse::<f64>` reads `s` as NaN.
pub fn is_nan_literal(s: &[u8]) -> (r: bool)
    ensures
        r == is_nan_text(s@),
{
    let body: &[u8] = if s.len() > 0 && (s[0] == 43 || s[0] == 45) {
        s.split_at(1).1
    } else {
        s
    };
    assert(body@ =~= unsigned_part(s@));
    let nan: Vec<u8> = vec![110u8, 97, 110];
    assert(nan@ =~= seq![110u8, 97, 110]);
    matches_word(body, nan.as_slice())
}

/// The population column's policy: the field's `u32`, or absent.
pub fn coerce_population(f: Option<&[u8]>) -> (r: Option<u32>)
    ensures
        r == population_of(
            match f {
                Some(b) => Some(b@),
                None => None,
            },
        ),
{
    match f {
        Some(b) => parse_u32(b),
        None => None,
    }
}

/// The coordinate columns' policy: the field's literal when it reads as a
/// number, else NaN.
pub fn coerce_coord(f: Option<&[u8]>) -> (r: Coord)
    ensures
        r@ == coord_of(
            match f {
                Some(b) => Some(b@),
                None => None,
            },
        ),
{
    match f {
        Some(b) => if is_number_literal(b) {
            Coord::Num(slice_to_vec(b))
        } else {
            Coord::NaN
        },
        None => Coord::NaN,
    }
}

/// The text columns' policy: the field as it is, or the sentinel `None`.
pub fn coerce_text(f: Option<&str>) -> (r: String)
    ensures
        r@ == text_of(
            match f {
                Some(t) => Some(t@),
                None => None,
            },
        ),
{
    match f {
        Some(t) => t.to_owned(),
        None => {
            let r = String::from_str("None");
            proof {
                reveal_strlit("None");
            }
            assert(r@ =~= sentinel());
            r
        },
    }
}

/// A latitude or longitude: the literal of a number, to be read as `f64`, or
/// NaN where the field was missing or did not read as a number.
#[derive(Debug, PartialEq, Eq)]
pub enum Coord {
    NaN,
    Num(Vec<u8>),
}

impl View for Coord {
    type V = Option<Seq<u8>>;

    open spec fn view(&self) -> Option<Seq<u8>> {
        match self {
            Coord::NaN => None,
            Coord::Num(b) => Some(b@),
        }
    }
}

} // verus!

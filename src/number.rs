//! The two kinds of number that a mesh file holds: vertex indices, read as
//! `usize` values, and real coordinates, recognised by their decimal form.
use vstd::prelude::*;
use vstd::slice::slice_subrange;

verus! {

pub const PLUS: u8 = 43;

pub const MINUS: u8 = 45;

pub const DOT: u8 = 46;

pub open spec fn is_digit(b: u8) -> bool {
    48 <= b <= 57
}

pub open spec fn all_digits(s: Seq<u8>) -> bool {
    forall|i: int| 0 <= i < s.len() ==> is_digit(#[trigger] s[i])
}

/// The number that a run of decimal digits writes.
pub open spec fn digits_value(s: Seq<u8>) -> nat
    decreases s.len(),
{
    if s.len() == 0 {
        0
    } else {
        digits_value(s.drop_last()) * 10 + (s.last() - 48) as nat
    }
}

/// The digits of an index token: what follows an optional leading `+`.
pub open spec fn index_digits(s: Seq<u8>) -> Seq<u8> {
    if s.len() > 0 && s[0] == PLUS {
        s.drop_first()
    } else {
        s
    }
}

/// Whether `s` reads as a `usize`: an optional `+`, then one or more digits
/// whose value fits.
pub open spec fn is_index_literal(s: Seq<u8>) -> bool {
    let d = index_digits(s);
    d.len() > 0 && all_digits(d) && digits_value(d) <= usize::MAX
}

pub open spec fn index_value(s: Seq<u8>) -> nat {
    digits_value(index_digits(s))
}

pub proof fn lemma_digits_value_grows(s: Seq<u8>, k: int)
    requires
        all_digits(s),
        0 <= k <= s.len(),
    ensures
        digits_value(s.take(k)) <= digits_value(s),
    decreases s.len(),
{
    if k < s.len() {
        assert(s.take(k) =~= s.drop_last().take(k));
        lemma_digits_value_grows(s.drop_last(), k);
    } else {
        assert(s.take(k) =~= s);
    }
}

/// Reads a vertex index as `str::parse::<usize>` does.
pub fn parse_index(s: &[u8]) -> (r: Option<usize>)
    ensures
        r == (if is_index_literal(s@) {
            Some(index_value(s@) as usize)
        } else {
            None::<usize>
        }),
{
    let start: usize = if s.len() > 0 && s[0] == PLUS {
        1
    } else {
        0
    };
    let d = slice_subrange(s, start, s.len());
    assert(d@ =~= index_digits(s@));
    if d.len() == 0 {
        return None;
    }
    let mut value: usize = 0;
    let mut i: usize = 0;
    assert(d@.take(0) =~= Seq::<u8>::empty());
    while i < d.len()
        invariant
            0 <= i <= d@.len(),
            d@ == index_digits(s@),
            d@.len() > 0,
            all_digits(d@.take(i as int)),
            value as nat == digits_value(d@.take(i as int)),
        decreases d@.len() - i,
    {
        let b = d[i];
        if b < 48 || b > 57 {
            assert(!is_digit(d@[i as int]));
            return None;
        }
        let ghost next = d@.take(i as int + 1);
        assert(next.drop_last() =~= d@.take(i as int));
        assert(all_digits(next));
        match value.checked_mul(10) {
            None => {
                proof {
                    if all_digits(d@) {
                        lemma_digits_value_grows(d@, i as int + 1);
                    }
                }
                return None;
            },
            Some(v10) => match v10.checked_add((b - 48) as usize) {
                None => {
                    proof {
                        if all_digits(d@) {
                            lemma_digits_value_grows(d@, i as int + 1);
                        }
                    }
                    return None;
                },
                Some(v) => {
                    value = v;
                },
            },
        }
        i = i + 1;
    }
    assert(d@.take(d@.len() as int) =~= d@);
    Some(value)
}

pub open spec fn is_sign(b: u8) -> bool {
    b == PLUS || b == MINUS
}

pub open spec fn is_exp_mark(b: u8) -> bool {
    b == 101 || b == 69
}

/// The bytes of `s` after an optional leading sign.
pub open spec fn unsigned_part(s: Seq<u8>) -> Seq<u8> {
    if s.len() > 0 && is_sign(s[0]) {
        s.drop_first()
    } else {
        s
    }
}

/// Digits with at most one decimal point among them, and at least one digit:
/// `12`, `12.5`, `12.` and `.5`.
pub open spec fn is_decimal(m: Seq<u8>) -> bool {
    (m.len() > 0 && all_digits(m)) || (m.len() >= 2 && exists|p: int|
        0 <= p < m.len() && m[p] == DOT && all_digits(#[trigger] m.take(p)) && all_digits(
            m.skip(p + 1),
        ))
}

/// What follows the exponent mark: an optional sign, then one or more digits.
pub open spec fn is_exponent(x: Seq<u8>) -> bool {
    let u = unsigned_part(x);
    u.len() > 0 && all_digits(u)
}

/// A finite real number in decimal notation: an optional sign, a decimal,
/// and optionally `e` or `E` with an exponent (`-1.5`, `+.5e-3`, `2E10`).
/// These are the finite forms that `str::parse::<f64>` reads; `inf` and `NaN`
/// are no coordinates.
pub open spec fn is_real_literal(s: Seq<u8>) -> bool {
    let u = unsigned_part(s);
    is_decimal(u) || exists|e: int|
        0 <= e < u.len() && is_exp_mark(u[e]) && is_decimal(#[trigger] u.take(e)) && is_exponent(
            u.skip(e + 1),
        )
}

pub open spec fn is_mantissa_byte(b: u8) -> bool {
    is_digit(b) || b == DOT
}

pub proof fn lemma_decimal_bytes(m: Seq<u8>, i: int)
    requires
        is_decimal(m),
        0 <= i < m.len(),
    ensures
        is_mantissa_byte(m[i]),
{
    if !all_digits(m) {
        let p = choose|p: int|
            0 <= p < m.len() && m[p] == DOT && all_digits(#[trigger] m.take(p)) && all_digits(
                m.skip(p + 1),
            );
        if i < p {
            assert(m.take(p)[i] == m[i]);
        } else if i > p {
            assert(m.skip(p + 1)[i - p - 1] == m[i]);
        }
    }
}

/// The first position at or after `from` that holds no digit, or the length.
fn digits_end(s: &[u8], from: usize) -> (r: usize)
    requires
        from <= s@.len(),
    ensures
        from <= r <= s@.len(),
        forall|i: int| from <= i < r ==> is_digit(#[trigger] s@[i]),
        r < s@.len() ==> !is_digit(s@[r as int]),
{
    let mut i = from;
    while i < s.len() && 48 <= s[i] && s[i] <= 57
        invariant
            from <= i <= s@.len(),
            forall|k: int| from <= k < i ==> is_digit(#[trigger] s@[k]),
        decreases s@.len() - i,
    {
        i = i + 1;
    }
    i
}

/// The first position that holds neither a digit nor a decimal point, or the length.
fn mantissa_end(s: &[u8]) -> (r: usize)
    ensures
        r <= s@.len(),
        forall|i: int| 0 <= i < r ==> is_mantissa_byte(#[trigger] s@[i]),
        r < s@.len() ==> !is_mantissa_byte(s@[r as int]),
{
    let mut i: usize = 0;
    while i < s.len() && ((48 <= s[i] && s[i] <= 57) || s[i] == DOT)
        invariant
            0 <= i <= s@.len(),
            forall|k: int| 0 <= k < i ==> is_mantissa_byte(#[trigger] s@[k]),
        decreases s@.len() - i,
    {
        i = i + 1;
    }
    i
}

fn decimal_ok(m: &[u8]) -> (r: bool)
    ensures
        r == is_decimal(m@),
{
    let d = digits_end(m, 0);
    if d == m.len() {
        return m.len() > 0;
    }
    if m[d] != DOT {
        proof {
            assert(!all_digits(m@));
            assert forall|p: int|
                0 <= p < m@.len() && m@[p] == DOT && all_digits(#[trigger] m@.take(p)) implies !all_digits(
                m@.skip(p + 1),
            ) by {
                if p > d {
                    assert(m@.take(p)[d as int] == m@[d as int]);
                }
            }
        }
        return false;
    }
    let d2 = digits_end(m, d + 1);
    if d2 == m.len() {
        proof {
            if m@.len() >= 2 {
                assert(all_digits(m@.take(d as int)));
                assert(all_digits(m@.skip(d + 1)));
            }
        }
        return m.len() >= 2;
    }
    proof {
        assert(!all_digits(m@));
        assert forall|p: int|
            0 <= p < m@.len() && m@[p] == DOT && all_digits(#[trigger] m@.take(p)) implies !all_digits(
            m@.skip(p + 1),
        ) by {
            if p > d {
                assert(m@.take(p)[d as int] == m@[d as int]);
            } else if p == d {
                assert(m@.skip(p + 1)[d2 - p - 1] == m@[d2 as int]);
            }
        }
    }
    false
}

fn exponent_ok(x: &[u8]) -> (r: bool)
    ensures
        r == is_exponent(x@),
{
    let start: usize = if x.len() > 0 && (x[0] == PLUS || x[0] == MINUS) {
        1
    } else {
        0
    };
    let u = slice_subrange(x, start, x.len());
    assert(u@ =~= unsigned_part(x@));
    let d = digits_end(u, 0);
    proof {
        if d < u@.len() {
            assert(!is_digit(u@[d as int]));
        }
    }
    u.len() > 0 && d == u.len()
}

/// Whether a token is a coordinate that the mesh format accepts.
pub fn real_literal_ok(s: &[u8]) -> (r: bool)
    ensures
        r == is_real_literal(s@),
{
    let start: usize = if s.len() > 0 && (s[0] == PLUS || s[0] == MINUS) {
        1
    } else {
        0
    };
    let u = slice_subrange(s, start, s.len());
    assert(u@ =~= unsigned_part(s@));
    let q = mantissa_end(u);
    if q == u.len() {
        proof {
            assert forall|e: int| 0 <= e < u@.len() implies !is_exp_mark(u@[e]) by {
                assert(is_mantissa_byte(u@[e]));
            }
        }
        return decimal_ok(u);
    }
    proof {
        if is_decimal(u@) {
            lemma_decimal_bytes(u@, q as int);
        }
        assert forall|e: int|
            0 <= e < u@.len() && e != q && is_exp_mark(u@[e]) implies !is_decimal(
            #[trigger] u@.take(e),
        ) by {
            if e < q {
                assert(is_mantissa_byte(u@[e]));
            } else if is_decimal(u@.take(e)) {
                lemma_decimal_bytes(u@.take(e), q as int);
            }
        }
    }
    if u[q] == 101 || u[q] == 69 {
        let m = slice_subrange(u, 0, q);
        let x = slice_subrange(u, q + 1, u.len());
        decimal_ok(m) && exponent_ok(x)
    } else {
        false
    }
}

} // verus!

//! Digits of a skin number object: which glyph each digit slot shows.
//!
//! A number object has `digit` slots, the most significant first. Leading
//! zeros are blank, or padded with glyph 0 (`zeropadding` 1) or glyph 10
//! (`zeropadding` 2); a negative value shows no digit glyph (its digits are
//! negative); glyphs outside the object's `divx × divy` grid are not drawn.

use vstd::prelude::*;

verus! {

/// `10^k`.
pub open spec fn pow10(k: nat) -> int
    decreases k,
{
    if k == 0 {
        1
    } else {
        10 * pow10((k - 1) as nat)
    }
}

/// Decimal digit `k` (from the right) of `val`, carrying `val`'s sign.
#[verifier::opaque]
pub open spec fn digit_of(val: int, k: nat) -> int {
    let m = ((if val < 0 { -val } else { val }) / pow10(k)) % 10;
    if val < 0 {
        -m
    } else {
        m
    }
}

/// The digit shown in slot `j` of `digit` slots (slot 0 the most significant).
pub open spec fn slot_digit(val: int, digit: nat, j: int) -> int {
    digit_of(val, (digit - 1 - j) as nat)
}

/// Number of leading blank slots: leading zero digits, keeping at least the
/// last slot.
pub open spec fn leading_blanks(val: int, digit: nat) -> int {
    if digit == 0 {
        0
    } else if exists|j: int| 0 <= j < digit - 1 && slot_digit(val, digit, j) != 0 {
        choose|j: int|
            0 <= j < digit - 1 && slot_digit(val, digit, j) != 0 && forall|i: int|
                0 <= i < j ==> slot_digit(val, digit, i) == 0
    } else {
        digit - 1
    }
}

/// Glyph of slot `j`: blank or padding before the leading blanks end, the
/// digit after.
pub open spec fn slot_glyph(val: int, digit: nat, zeropadding: int, j: int) -> Option<int> {
    if j < leading_blanks(val, digit) {
        if zeropadding >= 1 {
            Some(if zeropadding == 2 { 10int } else { 0int })
        } else {
            None
        }
    } else {
        Some(slot_digit(val, digit, j))
    }
}

/// The (slot, glyph) pairs drawn for the first `n` slots: slots with a glyph
/// inside the grid of `cells` glyphs.
pub open spec fn glyphs_spec(val: int, digit: nat, zeropadding: int, cells: int, n: int) -> Seq<(u32, u32)>
    decreases n,
{
    if n <= 0 {
        Seq::empty()
    } else {
        let rest = glyphs_spec(val, digit, zeropadding, cells, n - 1);
        match slot_glyph(val, digit, zeropadding, n - 1) {
            Some(g) => if 0 <= g < cells {
                rest.push(((n - 1) as u32, g as u32))
            } else {
                rest
            },
            None => rest,
        }
    }
}

proof fn lemma_pow10_monotone(a: nat, b: nat)
    requires
        a <= b,
    ensures
        1 <= pow10(a) <= pow10(b),
    decreases b,
{
    if b > a {
        lemma_pow10_monotone(a, (b - 1) as nat);
    } else if a > 0 {
        lemma_pow10_monotone((a - 1) as nat, (a - 1) as nat);
    }
}

proof fn lemma_pow10_bounds(k: nat)
    requires
        k <= 18,
    ensures
        1 <= pow10(k) <= 1_000_000_000_000_000_000,
{
    lemma_pow10_monotone(k, 18);
    assert(pow10(18) == 1_000_000_000_000_000_000) by {
        reveal_with_fuel(pow10, 19);
    }
}

/// The digit of each slot and the number of leading blank slots.
fn slot_digits(val: i64, digit: u32) -> (r: (Vec<i64>, u32))
    requires
        digit <= 19,
    ensures
        r.0@.len() == digit,
        forall|i: int| 0 <= i < digit ==> r.0@[i] == slot_digit(val as int, digit as nat, i),
        r.1 == leading_blanks(val as int, digit as nat),
{
    proof {
        reveal(digit_of);
    }
    let mag: u64 = if val < 0 {
        let v128: i128 = val as i128;
        let neg: i128 = 0 - v128;
        neg as u64
    } else {
        val as u64
    };
    // digits[j]: the digit of slot j
    let mut digits: Vec<i64> = Vec::new();
    let mut j: u32 = 0;
    while j < digit
        invariant
            0 <= j <= digit,
            digit <= 19,
            mag == (if val < 0 { -val } else { val as int }),
            digits@.len() == j,
            forall|i: int| 0 <= i < j ==> digits@[i] == slot_digit(val as int, digit as nat, i),
        decreases digit - j,
    {
        proof {
            reveal(digit_of);
        }
        let k: u32 = digit - 1 - j;
        let mut p: u64 = 1;
        let mut e: u32 = 0;
        while e < k
            invariant
                0 <= e <= k,
                k <= 18,
                p == pow10(e as nat),
            decreases k - e,
        {
            proof {
                lemma_pow10_bounds(e as nat);
                lemma_pow10_bounds((e + 1) as nat);
            }
            p = p * 10;
            e = e + 1;
        }
        proof {
            lemma_pow10_bounds(k as nat);
        }
        let m: u64 = (mag / p) % 10;
        let d: i64 = if val < 0 {
            -(m as i64)
        } else {
            m as i64
        };
        digits.push(d);
        j = j + 1;
    }
    let mut lead: u32 = 0;
    while lead + 1 < digit && digits[lead as usize] == 0
        invariant
            0 <= lead <= (if digit == 0 { 0 } else { digit - 1 }),
            digits@.len() == digit,
            forall|i: int| 0 <= i < digit ==> digits@[i] == slot_digit(val as int, digit as nat, i),
            forall|i: int| 0 <= i < lead ==> slot_digit(val as int, digit as nat, i) == 0,
        decreases digit - lead,
    {
        lead = lead + 1;
    }
    proof {
        let v = val as int;
        let dn = digit as nat;
        if digit > 0 {
            if lead + 1 < digit {
                assert(slot_digit(v, dn, lead as int) != 0);
                let c = choose|c: int|
                    0 <= c < dn - 1 && slot_digit(v, dn, c) != 0 && forall|i: int|
                        0 <= i < c ==> slot_digit(v, dn, i) == 0;
                if c < lead {
                    assert(slot_digit(v, dn, c) == 0);
                } else if c > lead {
                    assert(slot_digit(v, dn, lead as int) == 0);
                }
            } else {
                assert(lead == digit - 1);
                if exists|c: int| 0 <= c < dn - 1 && slot_digit(v, dn, c) != 0 {
                    let c = choose|c: int| 0 <= c < dn - 1 && slot_digit(v, dn, c) != 0;
                    assert(slot_digit(v, dn, c) == 0);
                }
            }
        }
        assert(lead == leading_blanks(v, dn));
    }
    (digits, lead)
}

/// Number of blank leading slots of a number object showing `val` in
/// `digit` slots (leading zeros, keeping at least the last slot).
pub fn leading_blank_slots(val: i64, digit: u32) -> (n: u32)
    requires
        digit <= 19,
    ensures
        n == leading_blanks(val as int, digit as nat),
{
    let (_, lead) = slot_digits(val, digit);
    lead
}

/// The digit glyphs of a number object showing `val` in `digit` slots:
/// (slot, glyph) pairs in slot order (see the module documentation).
pub fn number_glyphs(val: i64, digit: u32, zeropadding: i32, divx: u32, divy: u32) -> (r: Vec<(u32, u32)>)
    requires
        digit <= 19,
    ensures
        r@ == glyphs_spec(val as int, digit as nat, zeropadding as int, divx * divy, digit as int),
{
    let (digits, lead) = slot_digits(val, digit);
    proof {
        assert((divx as u64) * (divy as u64) <= 0xFFFF_FFFE_0000_0001) by (nonlinear_arith)
            requires
                divx <= 0xFFFF_FFFF,
                divy <= 0xFFFF_FFFF,
        ;
    }
    let cells: u64 = (divx as u64) * (divy as u64);
    let mut out: Vec<(u32, u32)> = Vec::new();
    let mut s: u32 = 0;
    while s < digit
        invariant
            0 <= s <= digit,
            digits@.len() == digit,
            lead == leading_blanks(val as int, digit as nat),
            cells == divx * divy,
            forall|i: int| 0 <= i < digit ==> digits@[i] == slot_digit(val as int, digit as nat, i),
            out@ == glyphs_spec(val as int, digit as nat, zeropadding as int, divx * divy, s as int),
        decreases digit - s,
    {
        let g: Option<i64> = if s < lead {
            if zeropadding >= 1 {
                Some(if zeropadding == 2 { 10 } else { 0 })
            } else {
                None
            }
        } else {
            Some(digits[s as usize])
        };
        assert(g == match slot_glyph(val as int, digit as nat, zeropadding as int, s as int) {
            Some(x) => Some(x as i64),
            None => None::<i64>,
        });
        match g {
            Some(x) => {
                if 0 <= x && (x as u64) < cells {
                    out.push((s, x as u32));
                }
            },
            None => {},
        }
        s = s + 1;
    }
    out
}


proof fn lemma_first_nonzero(val: int, digit: nat, c0: int)
    requires
        0 <= c0 < digit - 1,
        slot_digit(val, digit, c0) != 0,
    ensures
        exists|c: int|
            0 <= c < digit - 1 && slot_digit(val, digit, c) != 0 && forall|i: int|
                0 <= i < c ==> slot_digit(val, digit, i) == 0,
    decreases c0,
{
    if exists|j: int| 0 <= j < c0 && slot_digit(val, digit, j) != 0 {
        let j = choose|j: int| 0 <= j < c0 && slot_digit(val, digit, j) != 0;
        lemma_first_nonzero(val, digit, j);
    } else {
        assert(forall|i: int| 0 <= i < c0 ==> slot_digit(val, digit, i) == 0);
    }
}

proof fn lemma_leading_blanks_bound(val: int, digit: nat)
    ensures
        0 <= leading_blanks(val, digit) <= (if digit == 0 { 0 } else { digit - 1 }),
{
    if digit > 0 && exists|j: int| 0 <= j < digit - 1 && slot_digit(val, digit, j) != 0 {
        let j0 = choose|j: int| 0 <= j < digit - 1 && slot_digit(val, digit, j) != 0;
        lemma_first_nonzero(val, digit, j0);
    }
}

#[verifier::rlimit(50)]
proof fn lemma_glyph_count_upto(val: int, digit: nat, zeropadding: int, cells: int, n: int)
    requires
        0 <= n <= digit,
        forall|j: int|
            0 <= j < digit ==> (#[trigger] slot_glyph(val, digit, zeropadding, j) matches Some(g) ==> 0 <= g < cells),
    ensures
        glyphs_spec(val, digit, zeropadding, cells, n).len() == if zeropadding >= 1 {
            n
        } else if n <= leading_blanks(val, digit) {
            0
        } else {
            n - leading_blanks(val, digit)
        },
    decreases n,
{
    lemma_leading_blanks_bound(val, digit);
    if n > 0 {
        lemma_glyph_count_upto(val, digit, zeropadding, cells, n - 1);
        let lb = leading_blanks(val, digit);
        let sg = slot_glyph(val, digit, zeropadding, n - 1);
        assert(sg matches Some(g) ==> 0 <= g < cells);
        assert(sg is None <==> (n - 1 < lb && zeropadding < 1));
        let rest = glyphs_spec(val, digit, zeropadding, cells, n - 1);
        assert(glyphs_spec(val, digit, zeropadding, cells, n) == match sg {
            Some(g) => if 0 <= g < cells {
                rest.push(((n - 1) as u32, g as u32))
            } else {
                rest
            },
            None => rest,
        });
        lemma_leading_blanks_bound(val, digit);
        if sg is None {
            assert(glyphs_spec(val, digit, zeropadding, cells, n).len() == rest.len());
        } else {
            assert(glyphs_spec(val, digit, zeropadding, cells, n).len() == rest.len() + 1);
        }
    }
}

/// How many digit glyphs a number object draws when every glyph it uses
/// lies in its grid: all its slots with zero padding (1 or 2), else the slots
/// after the leading blanks.
pub proof fn lemma_glyph_count(val: int, digit: nat, zeropadding: int, cells: int)
    requires
        forall|j: int|
            0 <= j < digit ==> (#[trigger] slot_glyph(val, digit, zeropadding, j) matches Some(g) ==> 0 <= g < cells),
    ensures
        glyphs_spec(val, digit, zeropadding, cells, digit as int).len() == if zeropadding >= 1 {
            digit as int
        } else {
            digit - leading_blanks(val, digit)
        },
{
    lemma_leading_blanks_bound(val, digit);
    lemma_glyph_count_upto(val, digit, zeropadding, cells, digit as int);
}

} // verus!

//! A byte-level scanner for JSON text.
//!
//! The spec functions in this module define the grammar: each one returns
//! the position just past the construct that starts at `i`, or `None` when
//! the bytes do not form that construct. String contents are unescaped as
//! they are read (including `\uXXXX` escapes and surrogate pairs), numbers
//! and nested values are validated and skipped. The executable functions
//! mirror the spec ones exactly.
//!
//! The defensive bounds tests in the spec bodies (`if !(i < w) { None }`)
//! only serve the termination measure; the executable scanner checks the
//! same bounds, and its postconditions show they always pass.

use vstd::prelude::*;

use crate::digits::is_digit;

verus! {

pub open spec fn opt_pos(r: Option<usize>) -> Option<int> {
    match r {
        Some(p) => Some(p as int),
        None => None,
    }
}

/// JSON insignificant whitespace.
pub open spec fn is_json_ws(b: u8) -> bool {
    b == 32 || b == 9 || b == 10 || b == 13
}

/// First position at or after `i` that does not hold whitespace.
pub open spec fn ws_end(s: Seq<u8>, i: int) -> int
    decreases s.len() - i,
{
    if 0 <= i < s.len() && is_json_ws(s[i]) {
        ws_end(s, i + 1)
    } else {
        i
    }
}

pub open spec fn is_hex(b: u8) -> bool {
    is_digit(b) || (65 <= b <= 70) || (97 <= b <= 102)
}

pub open spec fn hex_val(b: u8) -> int {
    if is_digit(b) {
        b - 48
    } else if 65 <= b <= 70 {
        b - 55
    } else {
        b - 87
    }
}

pub open spec fn hex4_ok(s: Seq<u8>, i: int) -> bool {
    &&& 0 <= i
    &&& i + 4 <= s.len()
    &&& is_hex(s[i])
    &&& is_hex(s[i + 1])
    &&& is_hex(s[i + 2])
    &&& is_hex(s[i + 3])
}

pub open spec fn hex4_val(s: Seq<u8>, i: int) -> int {
    hex_val(s[i]) * 4096 + hex_val(s[i + 1]) * 256 + hex_val(s[i + 2]) * 16 + hex_val(s[i + 3])
}

/// The byte a single-character escape stands for.
pub open spec fn esc_byte(e: u8) -> Option<u8> {
    if e == 34 {
        Some(34u8)
    } else if e == 92 {
        Some(92u8)
    } else if e == 47 {
        Some(47u8)
    } else if e == 98 {
        Some(8u8)
    } else if e == 102 {
        Some(12u8)
    } else if e == 110 {
        Some(10u8)
    } else if e == 114 {
        Some(13u8)
    } else if e == 116 {
        Some(9u8)
    } else {
        None
    }
}

/// UTF-8 encoding of a code point.
pub open spec fn utf8_enc(cp: int) -> Seq<u8> {
    if cp < 0x80 {
        seq![cp as u8]
    } else if cp < 0x800 {
        seq![(0xC0 + cp / 0x40) as u8, (0x80 + cp % 0x40) as u8]
    } else if cp < 0x10000 {
        seq![
            (0xE0 + cp / 0x1000) as u8,
            (0x80 + (cp / 0x40) % 0x40) as u8,
            (0x80 + cp % 0x40) as u8,
        ]
    } else {
        seq![
            (0xF0 + cp / 0x40000) as u8,
            (0x80 + (cp / 0x1000) % 0x40) as u8,
            (0x80 + (cp / 0x40) % 0x40) as u8,
            (0x80 + cp % 0x40) as u8,
        ]
    }
}

/// A UTF-8 continuation byte.
pub open spec fn is_cont(b: u8) -> bool {
    0x80 <= b <= 0xBF
}

/// Well-formed UTF-8: every byte at or above 0x80 belongs to a complete,
/// shortest-form, non-surrogate multi-byte sequence.
pub open spec fn is_utf8(m: Seq<u8>) -> bool
    decreases m.len(),
{
    if m.len() == 0 {
        true
    } else {
        let b = m[0];
        if b < 0x80 {
            is_utf8(m.skip(1))
        } else if 0xC2 <= b <= 0xDF {
            m.len() >= 2 && is_cont(m[1]) && is_utf8(m.skip(2))
        } else if b == 0xE0 {
            m.len() >= 3 && 0xA0 <= m[1] <= 0xBF && is_cont(m[2]) && is_utf8(m.skip(3))
        } else if b == 0xED {
            m.len() >= 3 && 0x80 <= m[1] <= 0x9F && is_cont(m[2]) && is_utf8(m.skip(3))
        } else if 0xE1 <= b <= 0xEF {
            m.len() >= 3 && is_cont(m[1]) && is_cont(m[2]) && is_utf8(m.skip(3))
        } else if b == 0xF0 {
            m.len() >= 4 && 0x90 <= m[1] <= 0xBF && is_cont(m[2]) && is_cont(m[3]) && is_utf8(
                m.skip(4),
            )
        } else if 0xF1 <= b <= 0xF3 {
            m.len() >= 4 && is_cont(m[1]) && is_cont(m[2]) && is_cont(m[3]) && is_utf8(m.skip(4))
        } else if b == 0xF4 {
            m.len() >= 4 && 0x80 <= m[1] <= 0x8F && is_cont(m[2]) && is_cont(m[3]) && is_utf8(
                m.skip(4),
            )
        } else {
            false
        }
    }
}

pub open spec fn str_cons(pre: Seq<u8>, r: Option<(Seq<u8>, int)>) -> Option<(Seq<u8>, int)> {
    match r {
        Some(p) => Some((pre + p.0, p.1)),
        None => None,
    }
}

/// Scans a string literal from just after its opening quote; yields the
/// unescaped contents and the position just past the closing quote.
pub open spec fn str_body(s: Seq<u8>, i: int) -> Option<(Seq<u8>, int)>
    decreases s.len() - i, 1int,
{
    if !(0 <= i < s.len()) {
        None
    } else {
        let b = s[i];
        if b == 34 {
            Some((Seq::empty(), i + 1))
        } else if b == 92 {
            if i + 2 > s.len() {
                None
            } else {
                let e = s[i + 1];
                if e == 117 {
                    if hex4_ok(s, i + 2) {
                        let c1 = hex4_val(s, i + 2);
                        if 0xD800 <= c1 < 0xDC00 {
                            // high surrogate: a low surrogate escape must follow
                            if i + 12 <= s.len() && s[i + 6] == 92 && s[i + 7] == 117 && hex4_ok(
                                s,
                                i + 8,
                            ) {
                                let c2 = hex4_val(s, i + 8);
                                if 0xDC00 <= c2 < 0xE000 {
                                    str_cons(
                                        utf8_enc(0x10000 + (c1 - 0xD800) * 0x400 + (c2 - 0xDC00)),
                                        str_body(s, i + 12),
                                    )
                                } else {
                                    None
                                }
                            } else {
                                None
                            }
                        } else if 0xDC00 <= c1 < 0xE000 {
                            None
                        } else {
                            str_cons(utf8_enc(c1), str_body(s, i + 6))
                        }
                    } else {
                        None
                    }
                } else {
                    match esc_byte(e) {
                        Some(c) => str_cons(seq![c], str_body(s, i + 2)),
                        None => None,
                    }
                }
            }
        } else if b < 32 {
            None
        } else if b < 0x80 {
            str_cons(seq![b], str_body(s, i + 1))
        } else {
            mb_body(s, i)
        }
    }
}

/// Scans one multi-byte UTF-8 sequence inside a string literal (first byte
/// at or above 0x80), then the rest of the string.
pub open spec fn mb_body(s: Seq<u8>, i: int) -> Option<(Seq<u8>, int)>
    decreases s.len() - i, 0int,
{
    if !(0 <= i < s.len()) {
        None
    } else {
        let b = s[i];
        if 0xC2 <= b <= 0xDF {
            if i + 2 <= s.len() && is_cont(s[i + 1]) {
                str_cons(seq![b, s[i + 1]], str_body(s, i + 2))
            } else {
                None
            }
        } else if b == 0xE0 {
            if i + 3 <= s.len() && 0xA0 <= s[i + 1] <= 0xBF && is_cont(s[i + 2]) {
                str_cons(seq![b, s[i + 1], s[i + 2]], str_body(s, i + 3))
            } else {
                None
            }
        } else if b == 0xED {
            if i + 3 <= s.len() && 0x80 <= s[i + 1] <= 0x9F && is_cont(s[i + 2]) {
                str_cons(seq![b, s[i + 1], s[i + 2]], str_body(s, i + 3))
            } else {
                None
            }
        } else if 0xE1 <= b <= 0xEF {
            if i + 3 <= s.len() && is_cont(s[i + 1]) && is_cont(s[i + 2]) {
                str_cons(seq![b, s[i + 1], s[i + 2]], str_body(s, i + 3))
            } else {
                None
            }
        } else if b == 0xF0 {
            if i + 4 <= s.len() && 0x90 <= s[i + 1] <= 0xBF && is_cont(s[i + 2]) && is_cont(
                s[i + 3],
            ) {
                str_cons(seq![b, s[i + 1], s[i + 2], s[i + 3]], str_body(s, i + 4))
            } else {
                None
            }
        } else if 0xF1 <= b <= 0xF3 {
            if i + 4 <= s.len() && is_cont(s[i + 1]) && is_cont(s[i + 2]) && is_cont(s[i + 3]) {
                str_cons(seq![b, s[i + 1], s[i + 2], s[i + 3]], str_body(s, i + 4))
            } else {
                None
            }
        } else if b == 0xF4 {
            if i + 4 <= s.len() && 0x80 <= s[i + 1] <= 0x8F && is_cont(s[i + 2]) && is_cont(
                s[i + 3],
            ) {
                str_cons(seq![b, s[i + 1], s[i + 2], s[i + 3]], str_body(s, i + 4))
            } else {
                None
            }
        } else {
            None
        }
    }
}

/// First position at or after `i` that does not hold a digit.
pub open spec fn digits_end(s: Seq<u8>, i: int) -> int
    decreases s.len() - i,
{
    if 0 <= i < s.len() && is_digit(s[i]) {
        digits_end(s, i + 1)
    } else {
        i
    }
}

pub proof fn lemma_digits_end(s: Seq<u8>, i: int)
    requires
        0 <= i <= s.len(),
    ensures
        i <= digits_end(s, i) <= s.len(),
        digits_end(s, i) == s.len() || !is_digit(s[digits_end(s, i)]),
        forall|q: int| i <= q < digits_end(s, i) ==> is_digit(#[trigger] s[q]),
    decreases s.len() - i,
{
    if 0 <= i < s.len() && is_digit(s[i]) {
        lemma_digits_end(s, i + 1);
    }
}

/// Optional fraction part.
pub open spec fn frac_end(s: Seq<u8>, k: int) -> Option<int> {
    if 0 <= k < s.len() && s[k] == 46 {
        if k + 1 < s.len() && is_digit(s[k + 1]) {
            Some(digits_end(s, k + 1))
        } else {
            None
        }
    } else {
        Some(k)
    }
}

/// Optional exponent part.
pub open spec fn exp_end(s: Seq<u8>, k: int) -> Option<int> {
    if 0 <= k < s.len() && (s[k] == 101 || s[k] == 69) {
        let j = if k + 1 < s.len() && (s[k + 1] == 43 || s[k + 1] == 45) {
            k + 2
        } else {
            k + 1
        };
        if j < s.len() && is_digit(s[j]) {
            Some(digits_end(s, j))
        } else {
            None
        }
    } else {
        Some(k)
    }
}

/// Scans a number token starting at `i` (optional minus, integer part
/// without leading zeros, optional fraction, optional exponent).
pub open spec fn num_end(s: Seq<u8>, i: int) -> Option<int> {
    if !(0 <= i < s.len()) {
        None
    } else {
        let j = if s[i] == 45 {
            i + 1
        } else {
            i
        };
        if !(j < s.len() && is_digit(s[j])) {
            None
        } else {
            let k = if s[j] == 48 {
                j + 1
            } else {
                digits_end(s, j)
            };
            match frac_end(s, k) {
                None => None,
                Some(k2) => exp_end(s, k2),
            }
        }
    }
}

/// Scans one JSON value starting exactly at `i`.
pub open spec fn value_end(s: Seq<u8>, i: int) -> Option<int>
    decreases s.len() - i, 0int,
{
    if !(0 <= i < s.len()) {
        None
    } else {
        let b = s[i];
        if b == 123 {
            obj_first(s, i + 1)
        } else if b == 91 {
            arr_first(s, i + 1)
        } else if b == 34 {
            match str_body(s, i + 1) {
                Some(p) => Some(p.1),
                None => None,
            }
        } else if b == 45 || is_digit(b) {
            num_end(s, i)
        } else if b == 110 {
            if i + 4 <= s.len() && s[i + 1] == 117 && s[i + 2] == 108 && s[i + 3] == 108 {
                Some(i + 4)
            } else {
                None
            }
        } else if b == 116 {
            if i + 4 <= s.len() && s[i + 1] == 114 && s[i + 2] == 117 && s[i + 3] == 101 {
                Some(i + 4)
            } else {
                None
            }
        } else if b == 102 {
            if i + 5 <= s.len() && s[i + 1] == 97 && s[i + 2] == 108 && s[i + 3] == 115 && s[i + 4]
                == 101 {
                Some(i + 5)
            } else {
                None
            }
        } else {
            None
        }
    }
}

/// Inside an object, just after `{`: either `}` or the first member.
pub open spec fn obj_first(s: Seq<u8>, i: int) -> Option<int>
    decreases s.len() - i, 2int,
{
    if !(0 <= i <= s.len()) {
        None
    } else {
        let w = ws_end(s, i);
        if !(i <= w && w < s.len()) {
            None
        } else if s[w] == 125 {
            Some(w + 1)
        } else {
            obj_memb(s, w)
        }
    }
}

/// One `"key": value` member starting exactly at the key's quote.
pub open spec fn obj_memb(s: Seq<u8>, i: int) -> Option<int>
    decreases s.len() - i, 1int,
{
    if !(0 <= i < s.len() && s[i] == 34) {
        None
    } else {
        match str_body(s, i + 1) {
            None => None,
            Some(p) => {
                let w = ws_end(s, p.1);
                if !(i < w && w < s.len() && s[w] == 58) {
                    None
                } else {
                    let v = ws_end(s, w + 1);
                    if !(i < v && v <= s.len()) {
                        None
                    } else {
                        match value_end(s, v) {
                            None => None,
                            Some(e) => if i < e && e <= s.len() {
                                obj_next(s, e)
                            } else {
                                None
                            },
                        }
                    }
                }
            },
        }
    }
}

/// Inside an object, just after a member's value: `}` or `, "key": value`.
pub open spec fn obj_next(s: Seq<u8>, i: int) -> Option<int>
    decreases s.len() - i, 2int,
{
    if !(0 <= i <= s.len()) {
        None
    } else {
        let w = ws_end(s, i);
        if !(i <= w && w < s.len()) {
            None
        } else if s[w] == 125 {
            Some(w + 1)
        } else if s[w] == 44 {
            let m = ws_end(s, w + 1);
            if i < m && m <= s.len() {
                obj_memb(s, m)
            } else {
                None
            }
        } else {
            None
        }
    }
}

/// Inside an array, just after `[`: either `]` or the first element.
pub open spec fn arr_first(s: Seq<u8>, i: int) -> Option<int>
    decreases s.len() - i, 2int,
{
    if !(0 <= i <= s.len()) {
        None
    } else {
        let w = ws_end(s, i);
        if !(i <= w && w < s.len()) {
            None
        } else if s[w] == 93 {
            Some(w + 1)
        } else {
            match value_end(s, w) {
                None => None,
                Some(e) => if i < e && e <= s.len() {
                    arr_next(s, e)
                } else {
                    None
                },
            }
        }
    }
}

/// Inside an array, just after an element: `]` or `, value`.
pub open spec fn arr_next(s: Seq<u8>, i: int) -> Option<int>
    decreases s.len() - i, 2int,
{
    if !(0 <= i <= s.len()) {
        None
    } else {
        let w = ws_end(s, i);
        if !(i <= w && w < s.len()) {
            None
        } else if s[w] == 93 {
            Some(w + 1)
        } else if s[w] == 44 {
            let v = ws_end(s, w + 1);
            if !(i < v && v <= s.len()) {
                None
            } else {
                match value_end(s, v) {
                    None => None,
                    Some(e) => if i < e && e <= s.len() {
                        arr_next(s, e)
                    } else {
                        None
                    },
                }
            }
        } else {
            None
        }
    }
}

pub(crate) fn skip_ws_x(s: &[u8], i: usize) -> (r: usize)
    requires
        i <= s@.len(),
    ensures
        r == ws_end(s@, i as int),
        i <= r <= s@.len(),
{
    let mut k: usize = i;
    while k < s.len() && (s[k] == 32 || s[k] == 9 || s[k] == 10 || s[k] == 13)
        invariant
            i <= k <= s@.len(),
            ws_end(s@, i as int) == ws_end(s@, k as int),
        decreases s@.len() - k,
    {
        k = k + 1;
    }
    k
}

fn digits_end_x(s: &[u8], i: usize) -> (r: usize)
    requires
        i <= s@.len(),
    ensures
        r == digits_end(s@, i as int),
        i <= r <= s@.len(),
{
    let mut k: usize = i;
    while k < s.len() && 48 <= s[k] && s[k] <= 57
        invariant
            i <= k <= s@.len(),
            digits_end(s@, i as int) == digits_end(s@, k as int),
        decreases s@.len() - k,
    {
        k = k + 1;
    }
    k
}

fn is_hex_x(b: u8) -> (r: bool)
    ensures
        r == is_hex(b),
{
    (48 <= b && b <= 57) || (65 <= b && b <= 70) || (97 <= b && b <= 102)
}

fn hex_val_x(b: u8) -> (r: u32)
    requires
        is_hex(b),
    ensures
        r == hex_val(b),
{
    if b <= 57 {
        (b - 48) as u32
    } else if b <= 70 {
        (b - 55) as u32
    } else {
        (b - 87) as u32
    }
}

fn hex4_x(s: &[u8], i: usize) -> (r: Option<u32>)
    requires
        i <= s@.len(),
    ensures
        match r {
            Some(c) => hex4_ok(s@, i as int) && c == hex4_val(s@, i as int) && c <= 0xFFFF,
            None => !hex4_ok(s@, i as int),
        },
{
    if s.len() - i < 4 {
        return None;
    }
    if !(is_hex_x(s[i]) && is_hex_x(s[i + 1]) && is_hex_x(s[i + 2]) && is_hex_x(s[i + 3])) {
        return None;
    }
    let c = hex_val_x(s[i]) * 4096 + hex_val_x(s[i + 1]) * 256 + hex_val_x(s[i + 2]) * 16
        + hex_val_x(s[i + 3]);
    Some(c)
}

fn push_utf8(acc: &mut Vec<u8>, cp: u32)
    requires
        cp < 0x110000,
    ensures
        final(acc)@ == old(acc)@ + utf8_enc(cp as int),
{
    if cp < 0x80 {
        acc.push(cp as u8);
        proof {
            assert(final(acc)@ =~= old(acc)@ + utf8_enc(cp as int));
        }
    } else if cp < 0x800 {
        acc.push((0xC0 + cp / 0x40) as u8);
        acc.push((0x80 + cp % 0x40) as u8);
        proof {
            assert(final(acc)@ =~= old(acc)@ + utf8_enc(cp as int));
        }
    } else if cp < 0x10000 {
        acc.push((0xE0 + cp / 0x1000) as u8);
        acc.push((0x80 + (cp / 0x40) % 0x40) as u8);
        acc.push((0x80 + cp % 0x40) as u8);
        proof {
            assert(final(acc)@ =~= old(acc)@ + utf8_enc(cp as int));
        }
    } else {
        acc.push((0xF0 + cp / 0x40000) as u8);
        acc.push((0x80 + (cp / 0x1000) % 0x40) as u8);
        acc.push((0x80 + (cp / 0x40) % 0x40) as u8);
        acc.push((0x80 + cp % 0x40) as u8);
        proof {
            assert(final(acc)@ =~= old(acc)@ + utf8_enc(cp as int));
        }
    }
}

fn esc_byte_x(e: u8) -> (r: Option<u8>)
    ensures
        r == esc_byte(e),
{
    if e == 34 {
        Some(34)
    } else if e == 92 {
        Some(92)
    } else if e == 47 {
        Some(47)
    } else if e == 98 {
        Some(8)
    } else if e == 102 {
        Some(12)
    } else if e == 110 {
        Some(10)
    } else if e == 114 {
        Some(13)
    } else if e == 116 {
        Some(9)
    } else {
        None
    }
}

/// Reads one multi-byte UTF-8 sequence inside a string literal, appending
/// its bytes to `acc`.
#[verifier::rlimit(100)]
fn mb_step_x(s: &[u8], k: usize, acc: &mut Vec<u8>) -> (r: Option<usize>)
    requires
        k < s@.len(),
        s@[k as int] >= 0x80,
    ensures
        match r {
            Some(j) => mb_body(s@, k as int) == str_cons(
                s@.subrange(k as int, j as int),
                str_body(s@, j as int),
            ) && final(acc)@ == old(acc)@ + s@.subrange(k as int, j as int) && k < j
                <= s@.len(),
            None => mb_body(s@, k as int) == None::<(Seq<u8>, int)> && final(acc)@ == old(
                acc,
            )@,
        },
{
    let b = s[k];
    if 0xC2 <= b && b <= 0xDF {
        if s.len() - k < 2 || !(0x80 <= s[k + 1] && s[k + 1] <= 0xBF) {
            return None;
        }
        acc.push(b);
        acc.push(s[k + 1]);
        proof {
            assert(s@.subrange(k as int, k + 2) =~= seq![b, s@[k + 1]]);
            assert(final(acc)@ =~= old(acc)@ + s@.subrange(k as int, k + 2));
        }
        Some(k + 2)
    } else if b == 0xE0 || b == 0xED || (0xE1 <= b && b <= 0xEF) {
        if s.len() - k < 3 {
            return None;
        }
        let b1 = s[k + 1];
        let b2 = s[k + 2];
        let ok1 = if b == 0xE0 {
            0xA0 <= b1 && b1 <= 0xBF
        } else if b == 0xED {
            0x80 <= b1 && b1 <= 0x9F
        } else {
            0x80 <= b1 && b1 <= 0xBF
        };
        if !(ok1 && 0x80 <= b2 && b2 <= 0xBF) {
            return None;
        }
        acc.push(b);
        acc.push(b1);
        acc.push(b2);
        proof {
            assert(s@.subrange(k as int, k + 3) =~= seq![b, s@[k + 1], s@[k + 2]]);
            assert(final(acc)@ =~= old(acc)@ + s@.subrange(k as int, k + 3));
        }
        Some(k + 3)
    } else if 0xF0 <= b && b <= 0xF4 {
        if s.len() - k < 4 {
            return None;
        }
        let b1 = s[k + 1];
        let b2 = s[k + 2];
        let b3 = s[k + 3];
        let ok1 = if b == 0xF0 {
            0x90 <= b1 && b1 <= 0xBF
        } else if b == 0xF4 {
            0x80 <= b1 && b1 <= 0x8F
        } else {
            0x80 <= b1 && b1 <= 0xBF
        };
        if !(ok1 && 0x80 <= b2 && b2 <= 0xBF && 0x80 <= b3 && b3 <= 0xBF) {
            return None;
        }
        acc.push(b);
        acc.push(b1);
        acc.push(b2);
        acc.push(b3);
        proof {
            assert(s@.subrange(k as int, k + 4) =~= seq![b, s@[k + 1], s@[k + 2], s@[k + 3]]);
            assert(final(acc)@ =~= old(acc)@ + s@.subrange(k as int, k + 4));
        }
        Some(k + 4)
    } else {
        None
    }
}

#[verifier::rlimit(100)]
pub(crate) fn str_body_x(s: &[u8], i: usize) -> (r: Option<(Vec<u8>, usize)>)
    requires
        i <= s@.len(),
    ensures
        match r {
            Some(p) => str_body(s@, i as int) == Some((p.0@, p.1 as int)) && i < p.1 <= s@.len(),
            None => str_body(s@, i as int) == None::<(Seq<u8>, int)>,
        },
{
    let mut acc: Vec<u8> = Vec::new();
    let mut k: usize = i;
    proof {
        assert(match str_body(s@, i as int) {
            Some(p) => acc@ + p.0 =~= p.0,
            None => true,
        });
    }
    loop
        invariant
            i <= k <= s@.len(),
            str_body(s@, i as int) == str_cons(acc@, str_body(s@, k as int)),
        decreases s@.len() - k,
    {
        if k >= s.len() {
            return None;
        }
        let ghost acc0 = acc@;
        let ghost k0 = k as int;
        let b = s[k];
        if b == 34 {
            proof {
                assert(acc0 + Seq::<u8>::empty() =~= acc0);
            }
            return Some((acc, k + 1));
        } else if b == 92 {
            if s.len() - k < 2 {
                return None;
            }
            let e = s[k + 1];
            if e == 117 {
                match hex4_x(s, k + 2) {
                    None => {
                        return None;
                    },
                    Some(c1) => {
                        if 0xD800 <= c1 && c1 < 0xDC00 {
                            if s.len() - k < 12 {
                                return None;
                            }
                            if !(s[k + 6] == 92 && s[k + 7] == 117) {
                                return None;
                            }
                            match hex4_x(s, k + 8) {
                                None => {
                                    return None;
                                },
                                Some(c2) => {
                                    if !(0xDC00 <= c2 && c2 < 0xE000) {
                                        return None;
                                    }
                                    let cp = 0x10000 + (c1 - 0xD800) * 0x400 + (c2 - 0xDC00);
                                    let ghost pre = utf8_enc(cp as int);
                                    push_utf8(&mut acc, cp);
                                    k = k + 12;
                                    proof {
                                        assert(str_body(s@, k0) == str_cons(
                                            pre,
                                            str_body(s@, k as int),
                                        ));
                                        match str_body(s@, k as int) {
                                            Some(p) => {
                                                assert(acc0 + (pre + p.0) =~= (acc0 + pre) + p.0);
                                            },
                                            None => {},
                                        }
                                    }
                                },
                            }
                        } else if 0xDC00 <= c1 && c1 < 0xE000 {
                            return None;
                        } else {
                            let ghost pre = utf8_enc(c1 as int);
                            push_utf8(&mut acc, c1);
                            k = k + 6;
                            proof {
                                assert(str_body(s@, k0) == str_cons(pre, str_body(s@, k as int)));
                                match str_body(s@, k as int) {
                                    Some(p) => {
                                        assert(acc0 + (pre + p.0) =~= (acc0 + pre) + p.0);
                                    },
                                    None => {},
                                }
                            }
                        }
                    },
                }
            } else {
                match esc_byte_x(e) {
                    None => {
                        return None;
                    },
                    Some(c) => {
                        acc.push(c);
                        k = k + 2;
                        proof {
                            assert(acc@ =~= acc0 + seq![c]);
                            assert(str_body(s@, k0) == str_cons(seq![c], str_body(s@, k as int)));
                            match str_body(s@, k as int) {
                                Some(p) => {
                                    assert(acc0 + (seq![c] + p.0) =~= (acc0 + seq![c]) + p.0);
                                },
                                None => {},
                            }
                        }
                    },
                }
            }
        } else if b < 32 {
            return None;
        } else if b < 0x80 {
            acc.push(b);
            k = k + 1;
            proof {
                assert(acc@ =~= acc0 + seq![b]);
                assert(str_body(s@, k0) == str_cons(seq![b], str_body(s@, k as int)));
                match str_body(s@, k as int) {
                    Some(p) => {
                        assert(acc0 + (seq![b] + p.0) =~= (acc0 + seq![b]) + p.0);
                    },
                    None => {},
                }
            }
        } else {
            match mb_step_x(s, k, &mut acc) {
                None => {
                    proof {
                        assert(str_body(s@, k as int) == mb_body(s@, k as int));
                    }
                    return None;
                },
                Some(j) => {
                    let ghost pre = s@.subrange(k as int, j as int);
                    proof {
                        assert(str_body(s@, k0) == mb_body(s@, k0));
                        assert(str_body(s@, k0) == str_cons(pre, str_body(s@, j as int)));
                        match str_body(s@, j as int) {
                            Some(p) => {
                                assert(acc0 + (pre + p.0) =~= (acc0 + pre) + p.0);
                            },
                            None => {},
                        }
                    }
                    k = j;
                },
            }
        }
    }
}

fn frac_end_x(s: &[u8], k: usize) -> (r: Option<usize>)
    requires
        k <= s@.len(),
    ensures
        opt_pos(r) == frac_end(s@, k as int),
        match r {
            Some(e) => k <= e <= s@.len(),
            None => true,
        },
{
    if k < s.len() && s[k] == 46 {
        if k + 1 < s.len() && 48 <= s[k + 1] && s[k + 1] <= 57 {
            Some(digits_end_x(s, k + 1))
        } else {
            None
        }
    } else {
        Some(k)
    }
}

fn exp_end_x(s: &[u8], k: usize) -> (r: Option<usize>)
    requires
        k <= s@.len(),
    ensures
        opt_pos(r) == exp_end(s@, k as int),
        match r {
            Some(e) => k <= e <= s@.len(),
            None => true,
        },
{
    if k < s.len() && (s[k] == 101 || s[k] == 69) {
        let j = if k + 1 < s.len() && (s[k + 1] == 43 || s[k + 1] == 45) {
            k + 2
        } else {
            k + 1
        };
        if j < s.len() && 48 <= s[j] && s[j] <= 57 {
            Some(digits_end_x(s, j))
        } else {
            None
        }
    } else {
        Some(k)
    }
}

pub(crate) fn num_end_x(s: &[u8], i: usize) -> (r: Option<usize>)
    requires
        i <= s@.len(),
    ensures
        opt_pos(r) == num_end(s@, i as int),
        match r {
            Some(e) => i < e <= s@.len(),
            None => true,
        },
{
    if i >= s.len() {
        return None;
    }
    let j = if s[i] == 45 {
        i + 1
    } else {
        i
    };
    if !(j < s.len() && 48 <= s[j] && s[j] <= 57) {
        return None;
    }
    let k = if s[j] == 48 {
        j + 1
    } else {
        digits_end_x(s, j)
    };
    proof {
        lemma_digits_end(s@, j as int);
    }
    match frac_end_x(s, k) {
        None => None,
        Some(k2) => exp_end_x(s, k2),
    }
}

pub(crate) fn value_end_x(s: &[u8], i: usize) -> (r: Option<usize>)
    requires
        i <= s@.len(),
    ensures
        opt_pos(r) == value_end(s@, i as int),
        match r {
            Some(e) => i < e <= s@.len(),
            None => true,
        },
    decreases s@.len() - i, 0int,
{
    if i >= s.len() {
        return None;
    }
    let b = s[i];
    if b == 123 {
        obj_first_x(s, i + 1)
    } else if b == 91 {
        arr_first_x(s, i + 1)
    } else if b == 34 {
        match str_body_x(s, i + 1) {
            Some(p) => Some(p.1),
            None => None,
        }
    } else if b == 45 || (48 <= b && b <= 57) {
        num_end_x(s, i)
    } else if b == 110 {
        if s.len() - i >= 4 && s[i + 1] == 117 && s[i + 2] == 108 && s[i + 3] == 108 {
            Some(i + 4)
        } else {
            None
        }
    } else if b == 116 {
        if s.len() - i >= 4 && s[i + 1] == 114 && s[i + 2] == 117 && s[i + 3] == 101 {
            Some(i + 4)
        } else {
            None
        }
    } else if b == 102 {
        if s.len() - i >= 5 && s[i + 1] == 97 && s[i + 2] == 108 && s[i + 3] == 115 && s[i + 4]
            == 101 {
            Some(i + 5)
        } else {
            None
        }
    } else {
        None
    }
}

fn obj_first_x(s: &[u8], i: usize) -> (r: Option<usize>)
    requires
        i <= s@.len(),
    ensures
        opt_pos(r) == obj_first(s@, i as int),
        match r {
            Some(e) => i < e <= s@.len(),
            None => true,
        },
    decreases s@.len() - i, 2int,
{
    let w = skip_ws_x(s, i);
    if w >= s.len() {
        return None;
    }
    if s[w] == 125 {
        return Some(w + 1);
    }
    obj_memb_x(s, w)
}

fn obj_memb_x(s: &[u8], i: usize) -> (r: Option<usize>)
    requires
        i <= s@.len(),
    ensures
        opt_pos(r) == obj_memb(s@, i as int),
        match r {
            Some(e) => i < e <= s@.len(),
            None => true,
        },
    decreases s@.len() - i, 1int,
{
    if i >= s.len() || s[i] != 34 {
        return None;
    }
    match str_body_x(s, i + 1) {
        None => None,
        Some(p) => {
            let w = skip_ws_x(s, p.1);
            if w >= s.len() || s[w] != 58 {
                return None;
            }
            let v = skip_ws_x(s, w + 1);
            match value_end_x(s, v) {
                None => None,
                Some(e) => obj_next_x(s, e),
            }
        },
    }
}

fn obj_next_x(s: &[u8], i: usize) -> (r: Option<usize>)
    requires
        i <= s@.len(),
    ensures
        opt_pos(r) == obj_next(s@, i as int),
        match r {
            Some(e) => i < e <= s@.len(),
            None => true,
        },
    decreases s@.len() - i, 2int,
{
    let w = skip_ws_x(s, i);
    if w >= s.len() {
        return None;
    }
    if s[w] == 125 {
        return Some(w + 1);
    }
    if s[w] == 44 {
        let m = skip_ws_x(s, w + 1);
        obj_memb_x(s, m)
    } else {
        None
    }
}

fn arr_first_x(s: &[u8], i: usize) -> (r: Option<usize>)
    requires
        i <= s@.len(),
    ensures
        opt_pos(r) == arr_first(s@, i as int),
        match r {
            Some(e) => i < e <= s@.len(),
            None => true,
        },
    decreases s@.len() - i, 2int,
{
    let w = skip_ws_x(s, i);
    if w >= s.len() {
        return None;
    }
    if s[w] == 93 {
        return Some(w + 1);
    }
    match value_end_x(s, w) {
        None => None,
        Some(e) => arr_next_x(s, e),
    }
}

fn arr_next_x(s: &[u8], i: usize) -> (r: Option<usize>)
    requires
        i <= s@.len(),
    ensures
        opt_pos(r) == arr_next(s@, i as int),
        match r {
            Some(e) => i < e <= s@.len(),
            None => true,
        },
    decreases s@.len() - i, 2int,
{
    let w = skip_ws_x(s, i);
    if w >= s.len() {
        return None;
    }
    if s[w] == 93 {
        return Some(w + 1);
    }
    if s[w] == 44 {
        let v = skip_ws_x(s, w + 1);
        match value_end_x(s, v) {
            None => None,
            Some(e) => arr_next_x(s, e),
        }
    } else {
        None
    }
}

} // verus!

//! The codec round trip: decoding what the encoder produced yields an
//! envelope with exactly the encoded fields.
//!
//! The encoder's output is a flat JSON object with two symbolic parts — the
//! decimal digits of an id or code, and an escaped message string — so the
//! proof walks the decode scanner across the text, using one lemma for each
//! symbolic part.

use vstd::prelude::*;

use crate::digits::{all_digits, dec_digits, dec_val, is_digit};
use crate::json::{
    digits_end, esc_byte, exp_end, frac_end, hex4_ok, hex4_val, hex_val, is_hex, is_json_ws,
    num_end, str_body, str_cons, utf8_enc, value_end, ws_end,
};
use crate::codec::{escape, esc_seq, hex_digit};

verus! {

/// One escaped byte is read back as itself, and the lexer moves past its
/// escape form.
#[verifier::rlimit(100)]
proof fn lemma_esc_seq_lexes(s: Seq<u8>, i: int, b: u8)
    requires
        b < 0x80,
        0 <= i,
        i + esc_seq(b).len() < s.len(),
        forall|q: int| 0 <= q < esc_seq(b).len() ==> #[trigger] s[i + q] == esc_seq(b)[q],
    ensures
        str_body(s, i) == str_cons(seq![b], str_body(s, i + esc_seq(b).len())),
{
    let e = esc_seq(b);
    if b == 34 || b == 92 {
        assert(s[i + 0] == 92 && s[i + 1] == b);
        assert(esc_byte(b) == Some(b));
    } else if b == 8 || b == 9 || b == 10 || b == 12 || b == 13 {
        assert(s[i + 0] == 92);
        assert(esc_byte(s[i + 1]) == Some(b));
    } else if b < 32 {
        assert(s[i + 0] == 92 && s[i + 1] == 117 && s[i + 2] == 48 && s[i + 3] == 48);
        assert(s[i + 4] == hex_digit(b / 16) && s[i + 5] == hex_digit(b % 16));
        assert(is_hex(hex_digit(b / 16)) && hex_val(hex_digit(b / 16)) == b / 16);
        assert(is_hex(hex_digit(b % 16)) && hex_val(hex_digit(b % 16)) == b % 16);
        assert(is_hex(48u8) && hex_val(48u8) == 0);
        assert(hex4_ok(s, i + 2));
        assert(hex4_val(s, i + 2) == 0 * 4096 + 0 * 256 + (b / 16) * 16 + b % 16);
        assert(hex4_val(s, i + 2) == b) by {
            assert(b == (b / 16) * 16 + b % 16);
        }
        assert(utf8_enc(b as int) =~= seq![b]);
    } else {
        assert(s[i + 0] == b);
    }
}

/// Every byte of a multi-byte UTF-8 sequence passes through `escape`
/// unchanged.
proof fn lemma_escape_multibyte(m: Seq<u8>, n: int)
    requires
        2 <= n <= 4,
        m.len() >= n,
        forall|q: int| 0 <= q < n ==> #[trigger] m[q] >= 0x80,
    ensures
        escape(m) =~= m.take(n) + escape(m.skip(n)),
        escape(m).len() == n + escape(m.skip(n)).len(),
{
    assert(esc_seq(m[0]) == seq![m[0]]);
    assert(escape(m) == seq![m[0]] + escape(m.skip(1)));
    assert(m.skip(1)[0] == m[1]);
    assert(esc_seq(m[1]) == seq![m[1]]);
    assert(m.skip(1).skip(1) =~= m.skip(2));
    assert(escape(m.skip(1)) == seq![m[1]] + escape(m.skip(2)));
    if n == 2 {
        assert(escape(m) =~= m.take(2) + escape(m.skip(2)));
    } else {
        assert(m.skip(2)[0] == m[2]);
        assert(esc_seq(m[2]) == seq![m[2]]);
        assert(m.skip(2).skip(1) =~= m.skip(3));
        assert(escape(m.skip(2)) == seq![m[2]] + escape(m.skip(3)));
        if n == 3 {
            assert(escape(m) =~= m.take(3) + escape(m.skip(3)));
        } else {
            assert(m.skip(3)[0] == m[3]);
            assert(esc_seq(m[3]) == seq![m[3]]);
            assert(m.skip(3).skip(1) =~= m.skip(4));
            assert(escape(m.skip(3)) == seq![m[3]] + escape(m.skip(4)));
            assert(escape(m) =~= m.take(4) + escape(m.skip(4)));
        }
    }
}

/// Text made of bytes below 0x80 is well-formed UTF-8.
proof fn lemma_ascii_utf8(m: Seq<u8>)
    requires
        forall|q: int| 0 <= q < m.len() ==> #[trigger] m[q] < 0x80,
    ensures
        crate::json::is_utf8(m),
    decreases m.len(),
{
    if m.len() > 0 {
        assert forall|q: int| 0 <= q < m.skip(1).len() implies #[trigger] m.skip(1)[q]
            < 0x80 by {
            assert(m.skip(1)[q] == m[q + 1]);
        }
        lemma_ascii_utf8(m.skip(1));
    }
}

/// One well-formed multi-byte sequence at the head of `m` is read back
/// verbatim, and the lexer moves past it.
#[verifier::rlimit(100)]
proof fn lemma_mb_lexes(s: Seq<u8>, i: int, m: Seq<u8>, n: int)
    requires
        crate::json::is_utf8(m),
        m.len() >= 1,
        m[0] >= 0x80,
        n == if m[0] <= 0xDF {
            2int
        } else if m[0] <= 0xEF {
            3int
        } else {
            4int
        },
        0 <= i,
        i + n <= s.len(),
        forall|q: int| 0 <= q < n ==> #[trigger] s[i + q] == m[q],
    ensures
        str_body(s, i) == str_cons(m.take(n), str_body(s, i + n)),
{
    assert(s[i + 0] == m[0] && s[i + 1] == m[1]);
    if n == 2 {
        assert(m.take(2) =~= seq![m[0], m[1]]);
        assert(crate::json::mb_body(s, i) == str_cons(seq![m[0], m[1]], str_body(s, i + 2)));
    } else if n == 3 {
        assert(s[i + 2] == m[2]);
        assert(m.take(3) =~= seq![m[0], m[1], m[2]]);
        assert(crate::json::mb_body(s, i) == str_cons(
            seq![m[0], m[1], m[2]],
            str_body(s, i + 3),
        ));
    } else {
        assert(s[i + 2] == m[2] && s[i + 3] == m[3]);
        assert(m.take(4) =~= seq![m[0], m[1], m[2], m[3]]);
        assert(crate::json::mb_body(s, i) == str_cons(
            seq![m[0], m[1], m[2], m[3]],
            str_body(s, i + 4),
        ));
    }
    assert(str_body(s, i) == crate::json::mb_body(s, i));
}

/// An escaped well-formed UTF-8 string followed by its closing quote lexes
/// back to exactly the original bytes.
#[verifier::rlimit(100)]
proof fn lemma_escaped_lexes(s: Seq<u8>, i: int, m: Seq<u8>)
    requires
        0 <= i,
        crate::json::is_utf8(m),
        i + escape(m).len() + 1 <= s.len(),
        forall|q: int|
            0 <= q <= escape(m).len() ==> #[trigger] s[i + q] == (escape(m) + seq![34u8])[q],
    ensures
        str_body(s, i) == Some((m, i + escape(m).len() + 1)),
    decreases m.len(),
{
    if m.len() == 0 {
        assert(s[i + 0] == 34);
        assert(str_body(s, i) == Some((Seq::<u8>::empty(), i + 1)));
        assert(Seq::<u8>::empty() =~= m);
    } else if m[0] < 0x80 {
        let b = m[0];
        let e = esc_seq(b);
        let m2 = m.skip(1);
        assert(escape(m) == e + escape(m2));
        let el = e.len() as int;
        let i2 = i + el;
        // hand the tail's bytes to the induction hypothesis
        assert forall|q: int| 0 <= q <= escape(m2).len() implies #[trigger] s[i2 + q] == (escape(
            m2,
        ) + seq![34u8])[q] by {
            assert(s[i + (el + q)] == (escape(m) + seq![34u8])[el + q]);
        }
        lemma_escaped_lexes(s, i2, m2);
        // each escape form is read back as its original byte
        assert forall|q: int| 0 <= q < el implies #[trigger] s[i + q] == e[q] by {
            assert(s[i + q] == (escape(m) + seq![34u8])[q]);
        }
        lemma_esc_seq_lexes(s, i, b);
        assert(seq![b] + m2 =~= m);
    } else {
        // a complete multi-byte sequence, passed through escape unchanged
        let b = m[0];
        let n: int = if b <= 0xDF {
            2
        } else if b <= 0xEF {
            3
        } else {
            4
        };
        assert(m.len() >= n);
        assert forall|q: int| 0 <= q < n implies #[trigger] m[q] >= 0x80 by {
            assert(crate::json::is_cont(m[1]) || m[1] >= 0x80);
        }
        lemma_escape_multibyte(m, n);
        let m2 = m.skip(n);
        assert(crate::json::is_utf8(m2));
        let i2 = i + n;
        assert forall|q: int| 0 <= q <= escape(m2).len() implies #[trigger] s[i2 + q] == (escape(
            m2,
        ) + seq![34u8])[q] by {
            assert(s[i + (n + q)] == (escape(m) + seq![34u8])[n + q]);
        }
        lemma_escaped_lexes(s, i2, m2);
        assert forall|q: int| 0 <= q < n implies #[trigger] s[i + q] == m[q] by {
            assert(s[i + q] == (escape(m) + seq![34u8])[q]);
            assert(escape(m)[q] == (m.take(n) + escape(m2))[q]);
        }
        lemma_mb_lexes(s, i, m, n);
        assert(m.take(n) + m2 =~= m);
    }
}

/// A run of digits delimited on the right ends exactly where it ends.
proof fn lemma_digits_end_at(s: Seq<u8>, i: int, e: int)
    requires
        0 <= i <= e <= s.len(),
        forall|q: int| i <= q < e ==> is_digit(#[trigger] s[q]),
        e == s.len() || !is_digit(s[e]),
    ensures
        digits_end(s, i) == e,
    decreases e - i,
{
    if i < e {
        lemma_digits_end_at(s, i + 1, e);
    }
}

/// The printed digits of `n`, followed by a byte that cannot extend a
/// number, scan back as a number token whose lexeme is exactly the digits.
proof fn lemma_digits_value(s: Seq<u8>, i: int, n: nat)
    requires
        0 <= i,
        i + dec_digits(n).len() < s.len(),
        forall|q: int|
            0 <= q < dec_digits(n).len() ==> #[trigger] s[i + q] == dec_digits(n)[q],
        !is_digit(s[i + dec_digits(n).len()]),
        s[i + dec_digits(n).len()] != 46,
        s[i + dec_digits(n).len()] != 101,
        s[i + dec_digits(n).len()] != 69,
        s[i + dec_digits(n).len()] != 45,
    ensures
        num_end(s, i) == Some(i + dec_digits(n).len()),
        value_end(s, i) == Some(i + dec_digits(n).len()),
        s.subrange(i, i + dec_digits(n).len()) == dec_digits(n),
{
    let dg = dec_digits(n);
    let dl = dg.len() as int;
    crate::digits::lemma_dec_digits_wf(n);
    assert forall|q: int| 0 <= q < dl implies s.subrange(i, i + dl)[q] == dg[q] by {
        assert(s[i + q] == dg[q]);
    }
    assert(s.subrange(i, i + dl) =~= dg);
    assert(s[i] == s.subrange(i, i + dl)[0]);
    assert(is_digit(s[i]));
    assert forall|q: int| i <= q < i + dl implies is_digit(#[trigger] s[q]) by {
        assert(s[q] == s.subrange(i, i + dl)[q - i]);
    }
    if n < 10 {
        assert(dl == 1);
        if dg[0] == 48 {
            assert(frac_end(s, i + 1) == Some(i + 1));
            assert(exp_end(s, i + 1) == Some(i + 1));
        } else {
            lemma_digits_end_at(s, i, i + 1);
            assert(frac_end(s, i + 1) == Some(i + 1));
            assert(exp_end(s, i + 1) == Some(i + 1));
        }
    } else {
        assert(dg[0] != 48 && dg[0] != 45);
        lemma_digits_end_at(s, i, i + dl);
        assert(frac_end(s, i + dl) == Some(i + dl));
        assert(exp_end(s, i + dl) == Some(i + dl));
    }
    assert(num_end(s, i) == Some(i + dl));
    assert(s[i] != 123 && s[i] != 91 && s[i] != 34);
}

/// Escaping text that needs no escapes leaves it unchanged.
proof fn lemma_escape_plain(m: Seq<u8>)
    requires
        forall|q: int| 0 <= q < m.len() ==> 32 <= #[trigger] m[q] && m[q] != 34 && m[q] != 92,
    ensures
        escape(m) == m,
    decreases m.len(),
{
    if m.len() > 0 {
        assert(m.skip(1).len() == m.len() - 1);
        assert forall|q: int|
            0 <= q < m.skip(1).len() implies 32 <= #[trigger] m.skip(1)[q] && m.skip(1)[q] != 34
            && m.skip(1)[q] != 92 by {
            assert(m.skip(1)[q] == m[q + 1]);
        }
        lemma_escape_plain(m.skip(1));
        assert(esc_seq(m[0]) == seq![m[0]]);
        assert(seq![m[0]] + m.skip(1) =~= m);
    }
}

/// A quote-delimited run of plain bytes lexes as a string with exactly
/// those contents.
proof fn lemma_plain_str_lexes(s: Seq<u8>, i: int, m: Seq<u8>)
    requires
        0 <= i,
        i + m.len() + 1 <= s.len(),
        forall|q: int|
            0 <= q < m.len() ==> 32 <= #[trigger] m[q] < 0x80 && m[q] != 34 && m[q] != 92,
        forall|q: int| 0 <= q < m.len() ==> #[trigger] s[i + q] == m[q],
        s[i + m.len()] == 34,
    ensures
        str_body(s, i) == Some((m, i + m.len() + 1)),
{
    lemma_escape_plain(m);
    lemma_ascii_utf8(m);
    assert forall|q: int| 0 <= q <= escape(m).len() implies #[trigger] s[i + q] == (escape(m)
        + seq![34u8])[q] by {
        if q < m.len() {
            assert(s[i + q] == m[q]);
        }
    }
    lemma_escaped_lexes(s, i, m);
}

/// `-` followed by printed digits scans as one (negative) number token.
proof fn lemma_neg_digits_value(s: Seq<u8>, i: int, n: nat)
    requires
        n > 0,
        0 <= i < s.len(),
        s[i] == 45,
        i + 1 + dec_digits(n).len() < s.len(),
        forall|q: int|
            0 <= q < dec_digits(n).len() ==> #[trigger] s[i + 1 + q] == dec_digits(n)[q],
        !is_digit(s[i + 1 + dec_digits(n).len()]),
        s[i + 1 + dec_digits(n).len()] != 46,
        s[i + 1 + dec_digits(n).len()] != 101,
        s[i + 1 + dec_digits(n).len()] != 69,
    ensures
        num_end(s, i) == Some(i + 1 + dec_digits(n).len()),
        value_end(s, i) == Some(i + 1 + dec_digits(n).len()),
{
    let dg = dec_digits(n);
    let dl = dg.len() as int;
    crate::digits::lemma_dec_digits_wf(n);
    assert forall|q: int| i + 1 <= q < i + 1 + dl implies is_digit(#[trigger] s[q]) by {
        assert(s[i + 1 + (q - i - 1)] == dg[q - i - 1]);
    }
    assert(s[i + 1 + 0] == dg[0]);
    assert(dg[0] != 48);
    lemma_digits_end_at(s, i + 1, i + 1 + dl);
    assert(frac_end(s, i + 1 + dl) == Some(i + 1 + dl));
    assert(exp_end(s, i + 1 + dl) == Some(i + 1 + dl));
}

/// One top-level member: its key, the colon, its value, then onwards.
proof fn lemma_scan_memb_step(
    s: Seq<u8>,
    i: int,
    key: Seq<u8>,
    j: int,
    e: int,
    id: Option<u64>,
    m: Option<Seq<u8>>,
)
    requires
        0 <= i < s.len(),
        s[i] == 34,
        str_body(s, i + 1) == Some((key, j)),
        i + 1 < j,
        j + 1 < s.len(),
        s[j] == 58,
        !is_json_ws(s[j + 1]),
        value_end(s, j + 1) == Some(e),
        i < e <= s.len(),
    ensures
        crate::codec::scan_memb(s, i, id, m) == crate::codec::scan_next(
            s,
            e,
            if key == crate::codec::id_key() {
                crate::codec::num_id(s, j + 1, e)
            } else {
                id
            },
            if key == crate::codec::method_key() {
                crate::codec::str_method(s, j + 1)
            } else {
                m
            },
        ),
{
    assert(ws_end(s, j) == j);
    assert(ws_end(s, j + 1) == j + 1);
}

proof fn lemma_scan_next_comma(s: Seq<u8>, i: int, id: Option<u64>, m: Option<Seq<u8>>)
    requires
        0 <= i,
        i + 1 < s.len(),
        s[i] == 44,
        !is_json_ws(s[i + 1]),
    ensures
        crate::codec::scan_next(s, i, id, m) == crate::codec::scan_memb(s, i + 1, id, m),
{
    assert(ws_end(s, i) == i);
    assert(ws_end(s, i + 1) == i + 1);
}

proof fn lemma_scan_next_close(s: Seq<u8>, i: int, id: Option<u64>, m: Option<Seq<u8>>)
    requires
        0 <= i < s.len(),
        s[i] == 125,
    ensures
        crate::codec::scan_next(s, i, id, m) == Some((id, m, i + 1)),
{
    assert(ws_end(s, i) == i);
}

/// One nested-object member: key, colon, value, then onwards.
proof fn lemma_obj_memb_step(s: Seq<u8>, i: int, key: Seq<u8>, j: int, e: int)
    requires
        0 <= i < s.len(),
        s[i] == 34,
        str_body(s, i + 1) == Some((key, j)),
        i + 1 < j,
        j + 1 < s.len(),
        s[j] == 58,
        !is_json_ws(s[j + 1]),
        value_end(s, j + 1) == Some(e),
        i < e <= s.len(),
    ensures
        crate::json::obj_memb(s, i) == crate::json::obj_next(s, e),
{
    assert(ws_end(s, j) == j);
    assert(ws_end(s, j + 1) == j + 1);
}

proof fn lemma_obj_next_comma(s: Seq<u8>, i: int)
    requires
        0 <= i,
        i + 1 < s.len(),
        s[i] == 44,
        !is_json_ws(s[i + 1]),
    ensures
        crate::json::obj_next(s, i) == crate::json::obj_memb(s, i + 1),
{
    assert(ws_end(s, i) == i);
    assert(ws_end(s, i + 1) == i + 1);
}

proof fn lemma_obj_next_close(s: Seq<u8>, i: int)
    requires
        0 <= i < s.len(),
        s[i] == 125,
    ensures
        crate::json::obj_next(s, i) == Some(i + 1),
{
    assert(ws_end(s, i) == i);
}

proof fn lemma_obj_first_nonempty(s: Seq<u8>, i: int)
    requires
        0 <= i < s.len(),
        !is_json_ws(s[i]),
        s[i] != 125,
    ensures
        crate::json::obj_first(s, i) == crate::json::obj_memb(s, i),
{
    assert(ws_end(s, i) == i);
}

proof fn lemma_obj_first_empty(s: Seq<u8>, i: int)
    requires
        0 <= i < s.len(),
        s[i] == 125,
    ensures
        crate::json::obj_first(s, i) == Some(i + 1),
{
    assert(ws_end(s, i) == i);
}

/// The id the decoder recovers from an outgoing envelope.
pub open spec fn shape_id(o: crate::codec::OutShape) -> Option<u64> {
    match o {
        crate::codec::OutShape::InitializeResult { id } => Some(id),
        crate::codec::OutShape::ErrorReply { id, .. } => id,
        crate::codec::OutShape::LogMessage { .. } => None,
    }
}

/// The method the decoder recovers from an outgoing envelope.
pub open spec fn shape_method(o: crate::codec::OutShape) -> Option<Seq<u8>> {
    match o {
        crate::codec::OutShape::LogMessage { .. } => Some(
            seq![
                119u8, 105, 110, 100, 111, 119, 47, 108, 111, 103, 77, 101, 115, 115, 97, 103,
                101,
            ],
        ),
        _ => None,
    }
}

/// The leading `{"jsonrpc":"2.0",` member: the scan reaches the second
/// member with nothing recorded yet.
#[verifier::rlimit(50)]
proof fn lemma_scan_rpc_member(s: Seq<u8>)
    requires
        s.len() > 17,
        forall|q: int| 0 <= q < 17 ==> #[trigger] s[q] == crate::codec::json_rpc_prefix()[q],
        !is_json_ws(s[17]),
    ensures
        ws_end(s, 0) == 0,
        s[0] == 123,
        crate::codec::scan_first(s, 1) == crate::codec::scan_memb(
            s,
            17,
            None::<u64>,
            None::<Seq<u8>>,
        ),
{
    let jsr = seq![106u8, 115, 111, 110, 114, 112, 99];
    assert(ws_end(s, 0) == 0 && s[0] == 123);
    assert(ws_end(s, 1) == 1 && s[1] == 34 && s[1] != 125);
    assert(crate::codec::scan_first(s, 1) == crate::codec::scan_memb(
        s,
        1,
        None::<u64>,
        None::<Seq<u8>>,
    ));
    assert forall|q: int| 0 <= q < 7 implies #[trigger] s[2 + q] == jsr[q] by {
        assert(s[2 + q] == crate::codec::json_rpc_prefix()[2 + q]);
    }
    assert(s[9] == 34);
    lemma_plain_str_lexes(s, 2, jsr);
    assert(s[12] == 50 && s[13] == 46 && s[14] == 48 && s[15] == 34);
    lemma_plain_str_lexes(s, 12, seq![50u8, 46, 48]);
    assert(s[10] == 58 && s[11] == 34);
    assert(value_end(s, 11) == Some(16int));
    assert(jsr != crate::codec::id_key() && jsr != crate::codec::method_key());
    lemma_scan_memb_step(s, 1, jsr, 10, 16, None, None);
    assert(s[16] == 44);
    lemma_scan_next_comma(s, 16, None, None);
}

/// The `"id":<value>` member: whatever the value is, the scan records what
/// `num_id` makes of it and moves past it.
#[verifier::rlimit(50)]
proof fn lemma_scan_id_member(s: Seq<u8>, ve: int)
    requires
        s.len() > 22,
        forall|q: int|
            0 <= q < 5 ==> s[17 + q] == #[trigger] crate::codec::id_prefix()[q],
        !is_json_ws(s[22]),
        value_end(s, 22) == Some(ve),
        22 < ve <= s.len(),
    ensures
        crate::codec::scan_memb(s, 17, None::<u64>, None::<Seq<u8>>)
            == crate::codec::scan_next(s, ve, crate::codec::num_id(s, 22, ve), None::<Seq<u8>>),
{
    let idk = crate::codec::id_key();
    assert(crate::codec::id_prefix()[0] == 34 && crate::codec::id_prefix()[1] == 105
        && crate::codec::id_prefix()[2] == 100 && crate::codec::id_prefix()[3] == 34
        && crate::codec::id_prefix()[4] == 58);
    assert(s[17] == 34 && s[18] == 105 && s[19] == 100 && s[20] == 34 && s[21] == 58);
    assert forall|q: int| 0 <= q < 2 implies #[trigger] s[18 + q] == idk[q] by {
        assert(s[17 + (1 + q)] == crate::codec::id_prefix()[1 + q]);
    }
    lemma_plain_str_lexes(s, 18, idk);
    assert(idk != crate::codec::method_key());
    lemma_scan_memb_step(s, 17, idk, 21, ve, None, None);
}

/// The trailing `,"result":{"capabilities":{}}}`: the scan keeps what it
/// recorded and reaches the end of the object.
#[verifier::rlimit(100)]
proof fn lemma_scan_result_tail(s: Seq<u8>, t: int, id: Option<u64>, m: Option<Seq<u8>>)
    requires
        0 <= t,
        t + 30 == s.len(),
        forall|q: int|
            0 <= q < 30 ==> #[trigger] s[t + q] == crate::codec::result_caps_suffix()[q],
    ensures
        crate::codec::scan_next(s, t, id, m) == Some((id, m, t + 30)),
{
    let caps = crate::codec::result_caps_suffix();
    let rk = seq![114u8, 101, 115, 117, 108, 116];
    assert(s[t + 0] == 44 && s[t + 1] == 34);
    lemma_scan_next_comma(s, t, id, m);
    assert forall|q: int| 0 <= q < 6 implies #[trigger] s[t + 2 + q] == rk[q] by {
        assert(s[t + (2 + q)] == caps[2 + q]);
    }
    assert(s[t + 8] == 34);
    lemma_plain_str_lexes(s, t + 2, rk);
    assert(s[t + 9] == 58 && s[t + 10] == 123 && s[t + 11] == 34);
    let ck = seq![99u8, 97, 112, 97, 98, 105, 108, 105, 116, 105, 101, 115];
    assert forall|q: int| 0 <= q < 12 implies #[trigger] s[t + 12 + q] == ck[q] by {
        assert(s[t + (12 + q)] == caps[12 + q]);
    }
    assert(s[t + 24] == 34);
    lemma_plain_str_lexes(s, t + 12, ck);
    assert(s[t + 25] == 58 && s[t + 26] == 123 && s[t + 27] == 125 && s[t + 28] == 125 && s[t
        + 29] == 125);
    lemma_obj_first_empty(s, t + 27);
    assert(value_end(s, t + 26) == Some(t + 28));
    lemma_obj_memb_step(s, t + 11, ck, t + 25, t + 28);
    lemma_obj_next_close(s, t + 28);
    lemma_obj_first_nonempty(s, t + 11);
    assert(value_end(s, t + 10) == Some(t + 29));
    assert(rk != crate::codec::id_key() && rk != crate::codec::method_key()) by {
        assert(rk[0] != crate::codec::method_key()[0]);
    }
    lemma_scan_memb_step(s, t + 1, rk, t + 9, t + 29, id, m);
    lemma_scan_next_close(s, t + 29, id, m);
}

#[verifier::rlimit(50)]
proof fn lemma_rt_initialize(id: u64)
    ensures
        crate::codec::body_fields(
            crate::codec::encode_spec(crate::codec::OutShape::InitializeResult { id }),
        ) == Ok::<_, crate::codec::CodecError>((Some(id), None::<Seq<u8>>)),
{
    let jp = crate::codec::json_rpc_prefix();
    let idp = crate::codec::id_prefix();
    let dg = dec_digits(id as nat);
    let caps = crate::codec::result_caps_suffix();
    let s = crate::codec::encode_spec(crate::codec::OutShape::InitializeResult { id });
    assert(s == jp + idp + dg + caps);
    crate::digits::lemma_dec_digits_wf(id as nat);
    crate::digits::lemma_dec_val_digits(id as nat);
    let dl = dg.len() as int;
    let t = 22 + dl;
    assert(s.len() == t + 30);
    assert forall|q: int| 0 <= q < 17 implies #[trigger] s[q] == jp[q] by {}
    assert forall|q: int| 0 <= q < 5 implies #[trigger] s[17 + q] == idp[q] by {}
    assert forall|q: int| 0 <= q < dl implies #[trigger] s[22 + q] == dg[q] by {}
    assert forall|q: int| 0 <= q < 30 implies #[trigger] s[t + q] == caps[q] by {}
    assert(s[22] == dg[0] && is_digit(dg[0]) && !is_json_ws(s[22]));
    assert(s[17] == 34 && !is_json_ws(s[17]));
    lemma_scan_rpc_member(s);
    assert(s[t] == 44 && !is_digit(s[t]) && s[t] != 46 && s[t] != 101 && s[t] != 69 && s[t]
        != 45);
    lemma_digits_value(s, 22, id as nat);
    lemma_scan_id_member(s, t);
    assert(crate::codec::num_id(s, 22, t) == Some(id)) by {
        assert(s.subrange(22, t) == dg);
        assert(dec_val(dg) == id && dec_val(dg) <= u64::MAX);
    }
    lemma_scan_result_tail(s, t, Some(id), None);
    assert(crate::codec::scan_first(s, 1) == Some((Some(id), None::<Seq<u8>>, t + 30)));
    assert(ws_end(s, t + 30) == t + 30);
}

/// The `"code":<code>` member of the error object.
#[verifier::rlimit(100)]
proof fn lemma_error_code_member(s: Seq<u8>, t: int, code: int)
    requires
        0 <= t,
        t + 17 + crate::codec::int_text(code).len() + 1 <= s.len(),
        forall|q: int|
            0 <= q < 17 ==> s[t + q] == #[trigger] crate::codec::error_prefix()[q],
        forall|q: int|
            0 <= q < crate::codec::int_text(code).len() ==> s[t + 17 + q]
                == #[trigger] crate::codec::int_text(code)[q],
        s[t + 17 + crate::codec::int_text(code).len()] == 44,
    ensures
        crate::json::obj_memb(s, t + 10) == crate::json::obj_next(
            s,
            t + 17 + crate::codec::int_text(code).len(),
        ),
{
    let ep = crate::codec::error_prefix();
    let ct = crate::codec::int_text(code);
    let cl = ct.len() as int;
    let u = t + 17;
    let w = u + cl;
    assert(ep[10] == 34 && ep[15] == 34 && ep[16] == 58);
    assert(s[t + 10] == 34 && s[t + 15] == 34 && s[t + 16] == 58);
    let ck = seq![99u8, 111, 100, 101];
    assert forall|q: int| 0 <= q < 4 implies #[trigger] s[t + 11 + q] == ck[q] by {
        assert(s[t + (11 + q)] == ep[11 + q]);
    }
    lemma_plain_str_lexes(s, t + 11, ck);
    assert(!is_digit(44u8) && 44 != 46 && 44 != 101 && 44 != 69 && 44 != 45);
    if code >= 0 {
        let dg = dec_digits(code as nat);
        assert(ct == dg);
        assert forall|q: int| 0 <= q < dg.len() implies #[trigger] s[u + q] == dg[q] by {
            assert(s[t + 17 + q] == ct[q]);
        }
        assert(s[u + dg.len()] == 44);
        lemma_digits_value(s, u, code as nat);
        assert(value_end(s, u) == Some(w));
    } else {
        let dg = dec_digits((-code) as nat);
        assert(ct == seq![45u8] + dg);
        assert(s[u + 0] == ct[0] && ct[0] == 45);
        assert forall|q: int| 0 <= q < dg.len() implies #[trigger] s[u + 1 + q] == dg[q] by {
            assert(s[t + 17 + (1 + q)] == ct[1 + q]);
        }
        assert(s[u + 1 + dg.len()] == 44);
        lemma_neg_digits_value(s, u, (-code) as nat);
        assert(value_end(s, u) == Some(w));
    }
    assert(!is_json_ws(s[u])) by {
        assert(s[t + 17 + 0] == ct[0]);
        crate::digits::lemma_dec_digits_wf(
            if code >= 0 {
                code as nat
            } else {
                (-code) as nat
            },
        );
    }
    lemma_obj_memb_step(s, t + 10, ck, t + 16, w);
}

/// The `,"message":"<esc>"}` part of the error object.
#[verifier::rlimit(100)]
proof fn lemma_error_message_member(s: Seq<u8>, w: int, msg: Seq<u8>)
    requires
        crate::json::is_utf8(msg),
        0 <= w,
        w + 12 + escape(msg).len() + 2 < s.len(),
        forall|q: int|
            0 <= q < 12 ==> s[w + q] == #[trigger] crate::codec::message_prefix()[q],
        forall|q: int|
            0 <= q <= escape(msg).len() ==> s[w + 12 + q] == #[trigger] (escape(msg)
                + seq![34u8])[q],
        s[w + 12 + escape(msg).len() + 1] == 125,
    ensures
        crate::json::obj_next(s, w) == Some(w + 12 + escape(msg).len() + 2),
{
    let mp = crate::codec::message_prefix();
    let x = w + 12;
    let el = escape(msg).len() as int;
    let y = x + el;
    assert(mp[0] == 44 && mp[1] == 34 && mp[9] == 34 && mp[10] == 58 && mp[11] == 34);
    assert(s[w + 0] == 44 && s[w + 1] == 34 && s[w + 9] == 34 && s[w + 10] == 58 && s[w + 11]
        == 34);
    lemma_obj_next_comma(s, w);
    let mk = seq![109u8, 101, 115, 115, 97, 103, 101];
    assert forall|q: int| 0 <= q < 7 implies #[trigger] s[w + 2 + q] == mk[q] by {
        assert(s[w + (2 + q)] == mp[2 + q]);
    }
    lemma_plain_str_lexes(s, w + 2, mk);
    lemma_escaped_lexes(s, x, msg);
    assert(!is_json_ws(s[w + 11]));
    assert(value_end(s, w + 11) == Some(y + 1));
    lemma_obj_memb_step(s, w + 1, mk, w + 10, y + 1);
    lemma_obj_next_close(s, y + 1);
}

/// The whole `{"code":<code>,"message":"<esc>"}` value of the error member.
#[verifier::rlimit(100)]
proof fn lemma_error_obj_value(s: Seq<u8>, t: int, code: int, msg: Seq<u8>)
    requires
        crate::json::is_utf8(msg),
        0 <= t,
        t + 17 + crate::codec::int_text(code).len() + 12 + escape(msg).len() + 3 == s.len(),
        forall|q: int|
            0 <= q < 17 ==> s[t + q] == #[trigger] crate::codec::error_prefix()[q],
        forall|q: int|
            0 <= q < crate::codec::int_text(code).len() ==> s[t + 17 + q]
                == #[trigger] crate::codec::int_text(code)[q],
        forall|q: int|
            0 <= q < 12 ==> s[t + 17 + crate::codec::int_text(code).len() + q]
                == #[trigger] crate::codec::message_prefix()[q],
        forall|q: int|
            0 <= q <= escape(msg).len() ==> s[t + 17 + crate::codec::int_text(code).len() + 12
                + q] == #[trigger] (escape(msg) + seq![34u8])[q],
        s[s.len() - 2] == 125,
    ensures
        value_end(s, t + 9) == Some(s.len() - 1),
{
    let ep = crate::codec::error_prefix();
    let ct = crate::codec::int_text(code);
    let cl = ct.len() as int;
    let mp = crate::codec::message_prefix();
    let w = t + 17 + cl;
    let y = w + 12 + escape(msg).len() as int;
    assert(ep[9] == 123 && ep[10] == 34);
    assert(s[t + 9] == 123 && s[t + 10] == 34);
    assert(s[w + 0] == 44) by {
        assert(s[t + 17 + cl + 0] == mp[0] && mp[0] == 44);
    }
    lemma_error_code_member(s, t, code);
    lemma_error_message_member(s, w, msg);
    lemma_obj_first_nonempty(s, t + 10);
}

/// The trailing `,"error":{"code":<code>,"message":"<esc>"}}`: the scan
/// keeps what it recorded and reaches the end of the object.
#[verifier::rlimit(100)]
proof fn lemma_scan_error_tail(
    s: Seq<u8>,
    t: int,
    code: int,
    msg: Seq<u8>,
    id: Option<u64>,
    m: Option<Seq<u8>>,
)
    requires
        crate::json::is_utf8(msg),
        0 <= t,
        t + 17 + crate::codec::int_text(code).len() + 12 + escape(msg).len() + 3 == s.len(),
        forall|q: int|
            0 <= q < 17 ==> s[t + q] == #[trigger] crate::codec::error_prefix()[q],
        forall|q: int|
            0 <= q < crate::codec::int_text(code).len() ==> s[t + 17 + q]
                == #[trigger] crate::codec::int_text(code)[q],
        forall|q: int|
            0 <= q < 12 ==> s[t + 17 + crate::codec::int_text(code).len() + q]
                == #[trigger] crate::codec::message_prefix()[q],
        forall|q: int|
            0 <= q <= escape(msg).len() ==> s[t + 17 + crate::codec::int_text(code).len() + 12
                + q] == #[trigger] (escape(msg) + seq![34u8])[q],
        s[s.len() - 2] == 125,
        s[s.len() - 1] == 125,
    ensures
        crate::codec::scan_next(s, t, id, m) == Some((id, m, s.len() as int)),
{
    let ep = crate::codec::error_prefix();
    let ct = crate::codec::int_text(code);
    let cl = ct.len() as int;
    let mp = crate::codec::message_prefix();
    let u = t + 17;
    let w = u + cl;
    let x = w + 12;
    let el = escape(msg).len() as int;
    let y = x + el;
    assert(ep[0] == 44 && ep[1] == 34 && ep[7] == 34 && ep[8] == 58 && ep[9] == 123);
    assert(s[t] == 44 && s[t + 1] == 34);
    lemma_scan_next_comma(s, t, id, m);
    let ek = seq![101u8, 114, 114, 111, 114];
    assert forall|q: int| 0 <= q < 5 implies #[trigger] s[t + 2 + q] == ek[q] by {
        assert(s[t + (2 + q)] == ep[2 + q]);
    }
    assert(s[t + 7] == 34);
    lemma_plain_str_lexes(s, t + 2, ek);
    assert(s[t + 8] == 58 && s[t + 9] == 123);
    lemma_error_obj_value(s, t, code, msg);
    assert(value_end(s, t + 9) == Some(y + 2));
    assert(ek != crate::codec::id_key() && ek != crate::codec::method_key());
    lemma_scan_memb_step(s, t + 1, ek, t + 8, y + 2, id, m);
    lemma_scan_next_close(s, y + 2, id, m);
}

/// The whole `{"type":3,"message":"<esc>"}` value of the log notification's
/// params member.
#[verifier::rlimit(100)]
proof fn lemma_log_params_value(s: Seq<u8>, msg: Seq<u8>)
    requires
        crate::json::is_utf8(msg),
        17 + 59 + escape(msg).len() + 3 == s.len(),
        forall|q: int|
            0 <= q < 59 ==> s[17 + q] == #[trigger] crate::codec::log_prefix()[q],
        forall|q: int|
            0 <= q <= escape(msg).len() ==> s[76 + q] == #[trigger] (escape(msg) + seq![34u8])[q],
        s[s.len() - 2] == 125,
    ensures
        value_end(s, 55) == Some(s.len() - 1),
{
    let lp = crate::codec::log_prefix();
    let el = escape(msg).len() as int;
    let y = 76 + el;
    assert(s[55] == 123 && s[56] == 34 && s[61] == 34 && s[62] == 58 && s[63] == 51 && s[64]
        == 44 && s[65] == 34 && s[73] == 34 && s[74] == 58 && s[75] == 34) by {
        assert(s[17int + 38] == lp[38] && s[17int + 39] == lp[39] && s[17int + 44] == lp[44]
            && s[17int + 45] == lp[45] && s[17int + 46] == lp[46] && s[17int + 47] == lp[47]
            && s[17int + 48] == lp[48] && s[17int + 56] == lp[56] && s[17int + 57] == lp[57]
            && s[17int + 58] == lp[58]);
    }
    // the type member, a number
    let tk = seq![116u8, 121, 112, 101];
    assert forall|q: int| 0 <= q < 4 implies #[trigger] s[57 + q] == tk[q] by {
        assert(s[17 + (40 + q)] == lp[40 + q]);
    }
    lemma_plain_str_lexes(s, 57, tk);
    assert(digits_end(s, 64) == 64);
    assert(digits_end(s, 63) == 64);
    assert(frac_end(s, 64) == Some(64int));
    assert(exp_end(s, 64) == Some(64int));
    assert(num_end(s, 63) == Some(64int));
    assert(value_end(s, 63) == Some(64int));
    lemma_obj_memb_step(s, 56, tk, 62, 64);
    lemma_obj_next_comma(s, 64);
    // the message member, the escaped string
    let gk = seq![109u8, 101, 115, 115, 97, 103, 101];
    assert forall|q: int| 0 <= q < 7 implies #[trigger] s[66 + q] == gk[q] by {
        assert(s[17 + (49 + q)] == lp[49 + q]);
    }
    lemma_plain_str_lexes(s, 66, gk);
    lemma_escaped_lexes(s, 76, msg);
    assert(value_end(s, 75) == Some(y + 1));
    lemma_obj_memb_step(s, 65, gk, 74, y + 1);
    assert(s[y + 1] == 125);
    lemma_obj_next_close(s, y + 1);
    lemma_obj_first_nonempty(s, 56);
}

/// The `"method":"window/logMessage","params":{"type":3,"message":"<esc>"}}`
/// tail of the log notification, scanned from its `method` key.
#[verifier::rlimit(100)]
proof fn lemma_scan_log_tail(s: Seq<u8>, msg: Seq<u8>)
    requires
        crate::json::is_utf8(msg),
        17 + 59 + escape(msg).len() + 3 == s.len(),
        forall|q: int|
            0 <= q < 59 ==> s[17 + q] == #[trigger] crate::codec::log_prefix()[q],
        forall|q: int|
            0 <= q <= escape(msg).len() ==> s[76 + q] == #[trigger] (escape(msg) + seq![34u8])[q],
        s[s.len() - 2] == 125,
        s[s.len() - 1] == 125,
    ensures
        crate::codec::scan_memb(s, 17, None::<u64>, None::<Seq<u8>>) == Some(
            (
                None::<u64>,
                Some(
                    seq![
                        119u8, 105, 110, 100, 111, 119, 47, 108, 111, 103, 77, 101, 115, 115, 97,
                        103, 101,
                    ],
                ),
                s.len() as int,
            ),
        ),
{
    let lp = crate::codec::log_prefix();
    let el = escape(msg).len() as int;
    let y = 76 + el;
    let mk = crate::codec::method_key();
    let wlm = seq![
        119u8, 105, 110, 100, 111, 119, 47, 108, 111, 103, 77, 101, 115, 115, 97, 103, 101,
    ];
    assert(s[17] == 34 && s[24] == 34 && s[25] == 58 && s[26] == 34 && s[44] == 34 && s[45]
        == 44 && s[46] == 34 && s[53] == 34 && s[54] == 58 && s[55] == 123 && s[56] == 34 && s[61]
        == 34 && s[62] == 58 && s[63] == 51 && s[64] == 44 && s[65] == 34 && s[73] == 34 && s[74]
        == 58 && s[75] == 34) by {
        assert(s[17int + 0] == lp[0] && s[17int + 7] == lp[7] && s[17int + 8] == lp[8] && s[17int + 9]
            == lp[9] && s[17int + 27] == lp[27] && s[17int + 28] == lp[28] && s[17int + 29] == lp[29]
            && s[17int + 36] == lp[36] && s[17int + 37] == lp[37] && s[17int + 38] == lp[38]
            && s[17int + 39] == lp[39] && s[17int + 44] == lp[44] && s[17int + 45] == lp[45]
            && s[17int + 46] == lp[46] && s[17int + 47] == lp[47] && s[17int + 48] == lp[48]
            && s[17int + 56] == lp[56] && s[17int + 57] == lp[57] && s[17int + 58] == lp[58]);
    }
    assert forall|q: int| 0 <= q < 6 implies #[trigger] s[18 + q] == mk[q] by {
        assert(s[17 + (1 + q)] == lp[1 + q]);
    }
    lemma_plain_str_lexes(s, 18, mk);
    assert forall|q: int| 0 <= q < 17 implies #[trigger] s[27 + q] == wlm[q] by {
        assert(s[17 + (10 + q)] == lp[10 + q]);
    }
    lemma_plain_str_lexes(s, 27, wlm);
    assert(value_end(s, 26) == Some(45int));
    assert(crate::codec::str_method(s, 26) == Some(wlm));
    assert(mk != crate::codec::id_key());
    lemma_scan_memb_step(s, 17, mk, 25, 45, None, None);
    lemma_scan_next_comma(s, 45, None, Some(wlm));
    // the params member
    let pk = seq![112u8, 97, 114, 97, 109, 115];
    assert forall|q: int| 0 <= q < 6 implies #[trigger] s[47 + q] == pk[q] by {
        assert(s[17 + (30 + q)] == lp[30 + q]);
    }
    lemma_plain_str_lexes(s, 47, pk);
    lemma_log_params_value(s, msg);
    assert(value_end(s, 55) == Some(y + 2));
    assert(pk != crate::codec::id_key() && pk != crate::codec::method_key()) by {
        assert(pk[0] != crate::codec::method_key()[0]);
    }
    lemma_scan_memb_step(s, 46, pk, 54, y + 2, None, Some(wlm));
    lemma_scan_next_close(s, y + 2, None, Some(wlm));
}

/// The id value of a reply: printed digits give that id back, `null` gives
/// no id.
#[verifier::rlimit(100)]
proof fn lemma_id_value(s: Seq<u8>, id: Option<u64>)
    requires
        22 + (crate::codec::id_text(id).len() as int) < s.len(),
        forall|q: int|
            0 <= q < crate::codec::id_text(id).len() ==> #[trigger] s[22 + q]
                == crate::codec::id_text(id)[q],
        s[22 + (crate::codec::id_text(id).len() as int)] == 44,
    ensures
        value_end(s, 22) == Some(22 + (crate::codec::id_text(id).len() as int)),
        crate::codec::num_id(s, 22, 22 + (crate::codec::id_text(id).len() as int)) == id,
        !is_json_ws(s[22]),
{
    let idt = crate::codec::id_text(id);
    let t = 22 + idt.len() as int;
    assert(!is_digit(44u8) && 44 != 46 && 44 != 101 && 44 != 69 && 44 != 45);
    match id {
        Some(n) => {
            let dg = dec_digits(n as nat);
            assert(idt == dg);
            crate::digits::lemma_dec_digits_wf(n as nat);
            crate::digits::lemma_dec_val_digits(n as nat);
            assert(s[22int + 0] == dg[0] && is_digit(dg[0]));
            lemma_digits_value(s, 22, n as nat);
            assert(crate::codec::num_id(s, 22, t) == Some(n)) by {
                assert(s.subrange(22, t) == dg);
                assert(dec_val(dg) == n && dec_val(dg) <= u64::MAX);
            }
        },
        None => {
            assert(idt == crate::codec::null_text());
            assert(s[22int + 0] == 110 && s[22int + 1] == 117 && s[22int + 2] == 108 && s[22int
                + 3] == 108);
            assert(value_end(s, 22) == Some(t));
            assert(crate::codec::num_id(s, 22, t) == None::<u64>) by {
                assert(s.subrange(22, t)[0] == s[22]);
                assert(!is_digit(s.subrange(22, t)[0]));
                assert(!all_digits(s.subrange(22, t)));
            }
        },
    }
}

#[verifier::rlimit(100)]
proof fn lemma_rt_error(id: Option<u64>, code: int, message: Seq<u8>)
    requires
        crate::json::is_utf8(message),
    ensures
        crate::codec::body_fields(
            crate::codec::encode_spec(
                crate::codec::OutShape::ErrorReply { id, code, message },
            ),
        ) == Ok::<_, crate::codec::CodecError>((id, None::<Seq<u8>>)),
{
    let jp = crate::codec::json_rpc_prefix();
    let idp = crate::codec::id_prefix();
    let idt = crate::codec::id_text(id);
    let il = idt.len() as int;
    let ep = crate::codec::error_prefix();
    let ct = crate::codec::int_text(code);
    let cl = ct.len() as int;
    let mp = crate::codec::message_prefix();
    let esc = escape(message);
    let el = esc.len() as int;
    let close = crate::codec::str_close_suffix();
    let s = crate::codec::encode_spec(crate::codec::OutShape::ErrorReply { id, code, message });
    assert(s == jp + idp + idt + ep + ct + mp + esc + close);
    let t = 22 + il;
    let w = t + 17 + cl;
    let x = w + 12;
    let y = x + el;
    assert(s.len() == y + 3);
    assert forall|q: int| 0 <= q < 17 implies #[trigger] s[q] == jp[q] by {}
    assert forall|q: int| 0 <= q < 5 implies s[17 + q] == #[trigger] idp[q] by {}
    assert forall|q: int| 0 <= q < il implies #[trigger] s[22 + q] == idt[q] by {}
    assert forall|q: int| 0 <= q < 17 implies s[t + q] == #[trigger] ep[q] by {}
    assert forall|q: int| 0 <= q < cl implies s[t + 17 + q] == #[trigger] ct[q] by {}
    assert forall|q: int| 0 <= q < 12 implies s[t + 17 + cl + q] == #[trigger] mp[q] by {}
    assert forall|q: int| 0 <= q <= el implies s[x + q] == #[trigger] (esc + seq![34u8])[q] by {
        if q < el {
            assert(s[x + q] == esc[q]);
        } else {
            assert(s[x + q] == close[0]);
        }
    }
    assert(s[y + 1] == close[1] && s[y + 2] == close[2]);
    assert(s[17] == 34 && !is_json_ws(s[17])) by {
        assert(idp[0] == 34);
    }
    lemma_scan_rpc_member(s);
    // the id value: digits when present, `null` when absent
    assert(ep[0] == 44 && s[t] == 44);
    lemma_id_value(s, id);
    lemma_scan_id_member(s, t);
    lemma_scan_error_tail(s, t, code, message, id, None);
    assert(crate::codec::scan_first(s, 1) == Some((id, None::<Seq<u8>>, s.len() as int)));
    assert(ws_end(s, s.len() as int) == s.len());
    assert(ws_end(s, 0) == 0 && s[0] == 123);
}

#[verifier::rlimit(100)]
proof fn lemma_rt_log(message: Seq<u8>)
    requires
        crate::json::is_utf8(message),
    ensures
        crate::codec::body_fields(
            crate::codec::encode_spec(crate::codec::OutShape::LogMessage { message }),
        ) == Ok::<_, crate::codec::CodecError>(
            (
                None::<u64>,
                Some(
                    seq![
                        119u8, 105, 110, 100, 111, 119, 47, 108, 111, 103, 77, 101, 115, 115, 97,
                        103, 101,
                    ],
                ),
            ),
        ),
{
    let jp = crate::codec::json_rpc_prefix();
    let lp = crate::codec::log_prefix();
    let esc = escape(message);
    let el = esc.len() as int;
    let close = crate::codec::str_close_suffix();
    let s = crate::codec::encode_spec(crate::codec::OutShape::LogMessage { message });
    assert(s == jp + lp + esc + close);
    let y = 76 + el;
    assert(s.len() == y + 3);
    assert forall|q: int| 0 <= q < 17 implies #[trigger] s[q] == jp[q] by {}
    assert forall|q: int| 0 <= q < 59 implies s[17 + q] == #[trigger] lp[q] by {}
    assert forall|q: int| 0 <= q <= el implies s[76 + q] == #[trigger] (esc + seq![34u8])[q] by {
        if q < el {
            assert(s[76 + q] == esc[q]);
        } else {
            assert(s[76 + q] == close[0]);
        }
    }
    assert(s[y + 1] == close[1] && s[y + 2] == close[2]);
    assert(s[17] == 34 && !is_json_ws(s[17])) by {
        assert(s[17int + 0] == lp[0] && lp[0] == 34);
    }
    lemma_scan_rpc_member(s);
    lemma_scan_log_tail(s, message);
    assert(ws_end(s, s.len() as int) == s.len());
    assert(ws_end(s, 0) == 0 && s[0] == 123);
}

/// Codec round trip: decoding the encoder's output recovers exactly the
/// envelope's `id` and `method` fields, for every outgoing envelope.
pub proof fn lemma_codec_round_trip(o: crate::codec::OutShape)
    requires
        crate::codec::wf_outgoing(o),
    ensures
        crate::codec::body_fields(crate::codec::encode_spec(o)) == Ok::<
            _,
            crate::codec::CodecError,
        >((shape_id(o), shape_method(o))),
{
    match o {
        crate::codec::OutShape::InitializeResult { id } => lemma_rt_initialize(id),
        crate::codec::OutShape::ErrorReply { id, code, message } => lemma_rt_error(
            id,
            code,
            message,
        ),
        crate::codec::OutShape::LogMessage { message } => lemma_rt_log(message),
    }
}

/// Full round trip: frame an outgoing envelope, feed the bytes to a fresh
/// reader, and decode the one frame that comes out — the result is an
/// envelope with exactly the encoded fields, and the reader is left fresh.
pub proof fn lemma_round_trip(o: crate::codec::OutShape)
    requires
        crate::codec::wf_outgoing(o),
        crate::codec::encode_spec(o).len() <= usize::MAX,
    ensures
        crate::frame::drain(
            crate::frame::Phase::Headers { expected: None },
            crate::writer::frame_spec(crate::codec::encode_spec(o)),
        ) == (crate::frame::ScanResult {
            frames: seq![crate::codec::encode_spec(o)],
            phase: crate::frame::Phase::Headers { expected: None },
            rest: Seq::<u8>::empty(),
            err: None,
        }),
        crate::codec::body_fields(crate::codec::encode_spec(o)) == Ok::<
            _,
            crate::codec::CodecError,
        >((shape_id(o), shape_method(o))),
{
    crate::writer::lemma_frame_round_trip(crate::codec::encode_spec(o));
    lemma_codec_round_trip(o);
}

} // verus!


//! Frame extraction: turns an incoming byte stream into discrete message
//! bodies, one per `Content-Length`-delimited frame.
//!
//! The reader is a two-state machine per frame (`Headers`, then `Body`).
//! Header lines are terminated by CRLF; a blank line ends the header block.
//! Only the `Content-Length` key is meaningful, other keys are ignored.
//! Bytes beyond a frame's declared length stay buffered for the next frame.
//!
//! The whole behaviour of `FrameReader::feed` is pinned down by the spec
//! function [`drain`], which consumes buffered bytes until it either needs
//! more input or hits a framing error.

use vstd::prelude::*;

use crate::digits::{all_digits, dec_val};

verus! {

/// Where the reader stands inside the current frame.
#[derive(Clone, Copy, PartialEq, Eq, Structural, Debug)]
pub enum Phase {
    /// Reading header lines; `expected` is the `Content-Length` seen so far.
    Headers { expected: Option<usize> },
    /// Headers done; waiting for `expected` body bytes.
    Body { expected: usize },
}

/// A malformed header block. The reader reports it instead of panicking or
/// stalling; the offending line is consumed so the caller may resynchronize.
#[derive(Clone, Copy, PartialEq, Eq, Structural, Debug)]
pub enum FramingError {
    /// The blank line arrived before any `Content-Length` header.
    MissingContentLength,
    /// A `Content-Length` value that is not an unsigned decimal numeral
    /// (or does not fit in `usize`).
    InvalidContentLength,
}

/// What draining the buffer produces: completed frames, the state and the
/// unconsumed bytes left behind, and the error that stopped the scan, if any.
pub struct ScanResult {
    pub frames: Seq<Seq<u8>>,
    pub phase: Phase,
    pub rest: Seq<u8>,
    pub err: Option<FramingError>,
}

pub open spec fn phase_rank(p: Phase) -> int {
    match p {
        Phase::Headers { .. } => 0,
        Phase::Body { .. } => 1,
    }
}

/// Whitespace trimmed around header keys and values (ASCII whitespace).
pub open spec fn is_space(b: u8) -> bool {
    b == 32 || (9 <= b <= 13)
}

pub open spec fn trim_start(s: Seq<u8>) -> Seq<u8>
    decreases s.len(),
{
    if s.len() > 0 && is_space(s[0]) {
        trim_start(s.skip(1))
    } else {
        s
    }
}

pub open spec fn trim_end(s: Seq<u8>) -> Seq<u8>
    decreases s.len(),
{
    if s.len() > 0 && is_space(s.last()) {
        trim_end(s.drop_last())
    } else {
        s
    }
}

pub open spec fn trim(s: Seq<u8>) -> Seq<u8> {
    trim_start(trim_end(s))
}

/// Position of the first CRLF pair, if any.
pub open spec fn find_crlf(s: Seq<u8>) -> Option<int>
    decreases s.len(),
{
    if s.len() < 2 {
        None
    } else if s[0] == 13 && s[1] == 10 {
        Some(0)
    } else {
        match find_crlf(s.skip(1)) {
            Some(p) => Some(p + 1),
            None => None,
        }
    }
}

/// Position of the first colon, if any.
pub open spec fn find_colon(s: Seq<u8>) -> Option<int>
    decreases s.len(),
{
    if s.len() == 0 {
        None
    } else if s[0] == 58 {
        Some(0)
    } else {
        match find_colon(s.skip(1)) {
            Some(p) => Some(p + 1),
            None => None,
        }
    }
}

/// The bytes of `Content-Length`.
pub open spec fn cl_key() -> Seq<u8> {
    seq![67u8, 111, 110, 116, 101, 110, 116, 45, 76, 101, 110, 103, 116, 104]
}

/// Effect of one non-blank header line on the expected length: the line is
/// split at its first colon; a trimmed key equal to `Content-Length` sets the
/// expectation to the trimmed value, which must be an unsigned decimal
/// numeral fitting `usize`. Lines without a colon or with other keys are
/// ignored.
pub open spec fn header_line(line: Seq<u8>, expected: Option<usize>) -> Result<
    Option<usize>,
    FramingError,
> {
    match find_colon(line) {
        None => Ok(expected),
        Some(c) => {
            if trim(line.take(c)) == cl_key() {
                let val = trim(line.skip(c + 1));
                if val.len() > 0 && all_digits(val) && dec_val(val) <= usize::MAX {
                    Ok(Some(dec_val(val) as usize))
                } else {
                    Err(FramingError::InvalidContentLength)
                }
            } else {
                Ok(expected)
            }
        },
    }
}

pub open spec fn scan_stuck(phase: Phase, buf: Seq<u8>) -> ScanResult {
    ScanResult { frames: seq![], phase, rest: buf, err: None }
}

pub open spec fn scan_failed(rest: Seq<u8>, e: FramingError) -> ScanResult {
    ScanResult {
        frames: seq![],
        phase: Phase::Headers { expected: None },
        rest,
        err: Some(e),
    }
}

/// Consumes buffered bytes until more input is needed or a framing error
/// occurs. Completed frames come out in order; per-frame state (the expected
/// length) is reset after every frame and after every error.
pub open spec fn drain(phase: Phase, buf: Seq<u8>) -> ScanResult
    decreases buf.len(), phase_rank(phase),
{
    match phase {
        Phase::Headers { expected } => match find_crlf(buf) {
            None => scan_stuck(phase, buf),
            Some(p) => {
                if 0 <= p && p + 2 <= buf.len() {
                    let line = buf.take(p);
                    let rest = buf.skip(p + 2);
                    if line.len() == 0 {
                        match expected {
                            Some(n) => drain(Phase::Body { expected: n }, rest),
                            None => scan_failed(rest, FramingError::MissingContentLength),
                        }
                    } else {
                        match header_line(line, expected) {
                            Ok(e) => drain(Phase::Headers { expected: e }, rest),
                            Err(er) => scan_failed(rest, er),
                        }
                    }
                } else {
                    // cannot happen: find_crlf always points at a CRLF pair
                    scan_stuck(phase, buf)
                }
            },
        },
        Phase::Body { expected } => {
            if buf.len() >= expected {
                let sub = drain(Phase::Headers { expected: None }, buf.skip(expected as int));
                ScanResult {
                    frames: seq![buf.take(expected as int)] + sub.frames,
                    phase: sub.phase,
                    rest: sub.rest,
                    err: sub.err,
                }
            } else {
                scan_stuck(phase, buf)
            }
        },
    }
}

/// The views of a vector of byte vectors.
pub open spec fn frames_view(v: Seq<Vec<u8>>) -> Seq<Seq<u8>> {
    Seq::new(v.len(), |i: int| v[i]@)
}

pub proof fn lemma_find_crlf(s: Seq<u8>)
    ensures
        match find_crlf(s) {
            Some(p) => 0 <= p && p + 2 <= s.len() && s[p] == 13 && s[p + 1] == 10 && forall|
                q: int,
            |
                0 <= q < p ==> !(#[trigger] s[q] == 13 && s[q + 1] == 10),
            None => forall|q: int|
                0 <= q && q + 2 <= s.len() ==> !(#[trigger] s[q] == 13 && s[q + 1] == 10),
        },
    decreases s.len(),
{
    if s.len() >= 2 && !(s[0] == 13 && s[1] == 10) {
        lemma_find_crlf(s.skip(1));
        match find_crlf(s.skip(1)) {
            Some(p) => {
                assert(s[p + 1] == s.skip(1)[p] && s[p + 2] == s.skip(1)[p + 1]);
                assert forall|q: int| 0 <= q < p + 1 implies !(#[trigger] s[q] == 13 && s[q + 1]
                    == 10) by {
                    if q > 0 {
                        assert(s[q] == s.skip(1)[q - 1] && s[q + 1] == s.skip(1)[q]);
                    }
                }
            },
            None => {
                assert forall|q: int| 0 <= q && q + 2 <= s.len() implies !(#[trigger] s[q] == 13
                    && s[q + 1] == 10) by {
                    if q > 0 {
                        assert(s[q] == s.skip(1)[q - 1] && s[q + 1] == s.skip(1)[q]);
                    }
                }
            },
        }
    }
}

pub proof fn lemma_find_colon(s: Seq<u8>)
    ensures
        match find_colon(s) {
            Some(p) => 0 <= p < s.len() && s[p] == 58 && forall|q: int|
                0 <= q < p ==> #[trigger] s[q] != 58,
            None => forall|q: int| 0 <= q < s.len() ==> #[trigger] s[q] != 58,
        },
    decreases s.len(),
{
    if s.len() > 0 && s[0] != 58 {
        lemma_find_colon(s.skip(1));
        match find_colon(s.skip(1)) {
            Some(p) => {
                assert(s[p + 1] == s.skip(1)[p]);
                assert forall|q: int| 0 <= q < p + 1 implies #[trigger] s[q] != 58 by {
                    if q > 0 {
                        assert(s[q] == s.skip(1)[q - 1]);
                    }
                }
            },
            None => {
                assert forall|q: int| 0 <= q < s.len() implies #[trigger] s[q] != 58 by {
                    if q > 0 {
                        assert(s[q] == s.skip(1)[q - 1]);
                    }
                }
            },
        }
    }
}

/// `trim_start` drops exactly the leading run of spaces.
pub proof fn lemma_trim_start_at(s: Seq<u8>, k: int)
    requires
        0 <= k <= s.len(),
        forall|q: int| 0 <= q < k ==> is_space(#[trigger] s[q]),
        k == s.len() || !is_space(s[k]),
    ensures
        trim_start(s) == s.skip(k),
    decreases k,
{
    if k == 0 {
        assert(s.skip(0) =~= s);
    } else {
        lemma_trim_start_at(s.skip(1), k - 1);
        assert(s.skip(1).skip(k - 1) =~= s.skip(k));
    }
}

/// Copy of `v[i..j]`.
fn subvec(v: &Vec<u8>, i: usize, j: usize) -> (r: Vec<u8>)
    requires
        i <= j <= v@.len(),
    ensures
        r@ == v@.subrange(i as int, j as int),
{
    let mut r: Vec<u8> = Vec::new();
    let mut k: usize = i;
    while k < j
        invariant
            i <= k <= j <= v@.len(),
            r@ == v@.subrange(i as int, k as int),
        decreases j - k,
    {
        r.push(v[k]);
        proof {
            assert(v@.subrange(i as int, k + 1) =~= v@.subrange(i as int, k as int).push(
                v@[k as int],
            ));
        }
        k = k + 1;
    }
    r
}

/// Appends all of `src` to `dst`.
pub(crate) fn push_all(dst: &mut Vec<u8>, src: &[u8])
    ensures
        final(dst)@ == old(dst)@ + src@,
{
    let mut k: usize = 0;
    while k < src.len()
        invariant
            0 <= k <= src@.len(),
            dst@ == old(dst)@ + src@.take(k as int),
        decreases src@.len() - k,
    {
        dst.push(src[k]);
        proof {
            assert(old(dst)@ + src@.take(k + 1) =~= (old(dst)@ + src@.take(k as int)).push(
                src@[k as int],
            ));
        }
        k = k + 1;
    }
    proof {
        assert(src@.take(src@.len() as int) =~= src@);
    }
}

fn find_crlf_x(v: &Vec<u8>) -> (r: Option<usize>)
    ensures
        match r {
            Some(p) => find_crlf(v@) == Some(p as int) && p + 2 <= v@.len(),
            None => find_crlf(v@) == None::<int>,
        },
{
    proof {
        lemma_find_crlf(v@);
    }
    if v.len() < 2 {
        return None;
    }
    let mut k: usize = 0;
    while k < v.len() - 1
        invariant
            0 <= k && k + 1 <= v@.len(),
            forall|q: int| 0 <= q < k ==> !(#[trigger] v@[q] == 13 && v@[q + 1] == 10),
        decreases v@.len() - k,
    {
        if v[k] == 13 && v[k + 1] == 10 {
            proof {
                lemma_find_crlf(v@);
                match find_crlf(v@) {
                    Some(p) => {
                        if p < k {
                            assert(!(v@[p] == 13 && v@[p + 1] == 10));
                        }
                        if p > k {
                            assert(!(v@[k as int] == 13 && v@[k + 1] == 10));
                        }
                    },
                    None => {
                        assert(!(v@[k as int] == 13 && v@[k + 1] == 10));
                    },
                }
            }
            return Some(k);
        }
        k = k + 1;
    }
    None
}

fn find_colon_x(v: &Vec<u8>) -> (r: Option<usize>)
    ensures
        match r {
            Some(p) => find_colon(v@) == Some(p as int) && p < v@.len(),
            None => find_colon(v@) == None::<int>,
        },
{
    proof {
        lemma_find_colon(v@);
    }
    let mut k: usize = 0;
    while k < v.len()
        invariant
            0 <= k <= v@.len(),
            forall|q: int| 0 <= q < k ==> #[trigger] v@[q] != 58,
        decreases v@.len() - k,
    {
        if v[k] == 58 {
            proof {
                lemma_find_colon(v@);
                match find_colon(v@) {
                    Some(p) => {
                        if p < k {
                            assert(v@[p] != 58);
                        }
                        if p > k {
                            assert(v@[k as int] != 58);
                        }
                    },
                    None => {
                        assert(v@[k as int] != 58);
                    },
                }
            }
            return Some(k);
        }
        k = k + 1;
    }
    None
}

/// `trim_end` drops exactly the trailing run of spaces.
pub proof fn lemma_trim_end_at(s: Seq<u8>, k: int)
    requires
        0 <= k <= s.len(),
        forall|q: int| k <= q < s.len() ==> is_space(#[trigger] s[q]),
        k == 0 || !is_space(s[k - 1]),
    ensures
        trim_end(s) == s.take(k),
    decreases s.len() - k,
{
    if k == s.len() {
        assert(s.take(k) =~= s);
    } else {
        lemma_trim_end_at(s.drop_last(), k);
        assert(s.drop_last().take(k) =~= s.take(k));
    }
}

fn is_space_x(b: u8) -> (r: bool)
    ensures
        r == is_space(b),
{
    b == 32 || (9 <= b && b <= 13)
}

fn trim_x(v: &Vec<u8>) -> (r: Vec<u8>)
    ensures
        r@ == trim(v@),
{
    let mut s: usize = 0;
    while s < v.len() && is_space_x(v[s])
        invariant
            0 <= s <= v@.len(),
            forall|q: int| 0 <= q < s ==> is_space(#[trigger] v@[q]),
        decreases v@.len() - s,
    {
        s = s + 1;
    }
    let mut e: usize = v.len();
    while e > s && is_space_x(v[e - 1])
        invariant
            s <= e <= v@.len(),
            forall|q: int| e <= q < v@.len() ==> is_space(#[trigger] v@[q]),
        decreases e,
    {
        e = e - 1;
    }
    proof {
        if s == v@.len() {
            // all spaces: trim_end eats everything
            lemma_trim_end_at(v@, 0);
            assert(trim_start(Seq::<u8>::empty()) =~= Seq::<u8>::empty());
            assert(v@.take(0) =~= Seq::<u8>::empty());
            assert(v@.subrange(s as int, e as int) =~= Seq::<u8>::empty());
        } else {
            // v[s] is the first non-space, v[e - 1] the last one
            lemma_trim_end_at(v@, e as int);
            lemma_trim_start_at(v@.take(e as int), s as int);
            assert(v@.take(e as int).skip(s as int) =~= v@.subrange(s as int, e as int));
        }
    }
    subvec(v, s, e)
}

fn is_cl_key(v: &Vec<u8>) -> (r: bool)
    ensures
        r == (v@ == cl_key()),
{
    let pat: Vec<u8> = vec![67u8, 111, 110, 116, 101, 110, 116, 45, 76, 101, 110, 103, 116, 104];
    proof {
        assert(pat@ =~= cl_key());
    }
    if v.len() != pat.len() {
        proof {
            assert(v@ != cl_key());
        }
        return false;
    }
    let mut k: usize = 0;
    while k < v.len()
        invariant
            0 <= k <= v@.len(),
            v@.len() == pat@.len(),
            pat@ == cl_key(),
            forall|q: int| 0 <= q < k ==> #[trigger] v@[q] == pat@[q],
        decreases v@.len() - k,
    {
        if v[k] != pat[k] {
            proof {
                assert(v@ != cl_key());
            }
            return false;
        }
        k = k + 1;
    }
    proof {
        assert(v@ =~= cl_key());
    }
    true
}

fn header_line_x(line: &Vec<u8>, expected: Option<usize>) -> (r: Result<
    Option<usize>,
    FramingError,
>)
    ensures
        r == header_line(line@, expected),
{
    match find_colon_x(line) {
        None => Ok(expected),
        Some(c) => {
            let key = trim_x(&subvec(line, 0, c));
            proof {
                assert(line@.subrange(0, c as int) =~= line@.take(c as int));
            }
            if is_cl_key(&key) {
                proof {
                    assert(c < line@.len() && line@.len() == line.len());
                }
                let raw = subvec(line, c + 1, line.len());
                proof {
                    assert(line@.subrange(c + 1, line@.len() as int) =~= line@.skip(c + 1));
                }
                let val = trim_x(&raw);
                let ghost vs = trim(line@.skip(c + 1));
                match crate::digits::parse_u64(val.as_slice()) {
                    Some(n) => {
                        if n <= usize::MAX as u64 {
                            Ok(Some(n as usize))
                        } else {
                            Err(FramingError::InvalidContentLength)
                        }
                    },
                    None => {
                        proof {
                            if vs.len() > 0 && all_digits(vs) && dec_val(vs) <= usize::MAX {
                                assert(dec_val(vs) <= u64::MAX);
                            }
                        }
                        Err(FramingError::InvalidContentLength)
                    },
                }
            } else {
                Ok(expected)
            }
        },
    }
}

/// Reassembles `Content-Length`-framed messages from an incoming byte
/// stream, fed in arbitrary chunks.
pub struct FrameReader {
    pub phase: Phase,
    pub buf: Vec<u8>,
}

impl FrameReader {
    /// A fresh reader: no buffered bytes, waiting for the first header line.
    pub fn new() -> (r: FrameReader)
        ensures
            r.phase == (Phase::Headers { expected: None }),
            r.buf@ == Seq::<u8>::empty(),
    {
        let buf: Vec<u8> = Vec::new();
        proof {
            assert(buf@ =~= Seq::<u8>::empty());
        }
        FrameReader { phase: Phase::Headers { expected: None }, buf }
    }

    /// Appends `chunk` to the internal buffer and extracts every frame that
    /// is now complete, per the [`drain`] specification: bodies come out in
    /// order, partial frames stay buffered, and a malformed header block is
    /// reported after the frames that preceded it.
    #[verifier::loop_isolation(false)]
    pub fn feed(&mut self, chunk: &[u8]) -> (r: (Vec<Vec<u8>>, Option<FramingError>))
        ensures
            ({
                let out = drain(old(self).phase, old(self).buf@ + chunk@);
                &&& frames_view(r.0@) == out.frames
                &&& r.1 == out.err
                &&& final(self).phase == out.phase
                &&& final(self).buf@ == out.rest
            }),
    {
        push_all(&mut self.buf, chunk);
        let ghost p0 = self.phase;
        let ghost b0 = self.buf@;
        let mut frames: Vec<Vec<u8>> = Vec::new();
        proof {
            assert(frames_view(frames@) =~= Seq::<Seq<u8>>::empty());
        }
        loop
            invariant
                drain(p0, b0).frames == frames_view(frames@) + drain(self.phase, self.buf@).frames,
                drain(p0, b0).phase == drain(self.phase, self.buf@).phase,
                drain(p0, b0).rest == drain(self.phase, self.buf@).rest,
                drain(p0, b0).err == drain(self.phase, self.buf@).err,
            decreases self.buf@.len(), phase_rank(self.phase),
        {
            let ghost cur_phase = self.phase;
            let ghost cur_buf = self.buf@;
            match self.phase {
                Phase::Headers { expected } => {
                    match find_crlf_x(&self.buf) {
                        None => {
                            proof {
                                assert(drain(cur_phase, cur_buf) == scan_stuck(cur_phase, cur_buf));
                                assert(drain(p0, b0).frames =~= frames_view(frames@));
                            }
                            return (frames, None);
                        },
                        Some(p) => {
                            proof {
                                lemma_find_crlf(cur_buf);
                                assert(p + 2 <= cur_buf.len() && cur_buf.len()
                                    == self.buf.len());
                            }
                            let line = subvec(&self.buf, 0, p);
                            let rest = subvec(&self.buf, p + 2, self.buf.len());
                            proof {
                                assert(line@ =~= cur_buf.take(p as int));
                                assert(rest@ =~= cur_buf.skip(p + 2));
                            }
                            if line.len() == 0 {
                                match expected {
                                    Some(n) => {
                                        self.phase = Phase::Body { expected: n };
                                        self.buf = rest;
                                    },
                                    None => {
                                        self.phase = Phase::Headers { expected: None };
                                        self.buf = rest;
                                        proof {
                                            assert(drain(p0, b0).frames =~= frames_view(frames@));
                                        }
                                        return (frames, Some(FramingError::MissingContentLength));
                                    },
                                }
                            } else {
                                match header_line_x(&line, expected) {
                                    Ok(e2) => {
                                        self.phase = Phase::Headers { expected: e2 };
                                        self.buf = rest;
                                    },
                                    Err(er) => {
                                        self.phase = Phase::Headers { expected: None };
                                        self.buf = rest;
                                        proof {
                                            assert(drain(p0, b0).frames =~= frames_view(frames@));
                                        }
                                        return (frames, Some(er));
                                    },
                                }
                            }
                        },
                    }
                },
                Phase::Body { expected } => {
                    if self.buf.len() >= expected {
                        let body = subvec(&self.buf, 0, expected);
                        let rest = subvec(&self.buf, expected, self.buf.len());
                        proof {
                            assert(body@ =~= cur_buf.take(expected as int));
                            assert(rest@ =~= cur_buf.skip(expected as int));
                        }
                        self.phase = Phase::Headers { expected: None };
                        self.buf = rest;
                        frames.push(body);
                        proof {
                            assert(frames_view(frames@) =~= frames_view(frames@.drop_last()).push(
                                body@,
                            ));
                            assert(drain(p0, b0).frames =~= frames_view(frames@) + drain(
                                self.phase,
                                self.buf@,
                            ).frames);
                        }
                    } else {
                        proof {
                            assert(drain(cur_phase, cur_buf) == scan_stuck(cur_phase, cur_buf));
                            assert(drain(p0, b0).frames =~= frames_view(frames@));
                        }
                        return (frames, None);
                    }
                },
            }
        }
    }
}

/// A CRLF found in a buffer is still the first one after more bytes arrive.
proof fn lemma_find_crlf_prefix(x: Seq<u8>, b: Seq<u8>)
    ensures
        match find_crlf(x) {
            Some(k) => find_crlf(x + b) == Some(k),
            None => true,
        },
    decreases x.len(),
{
    if x.len() >= 2 {
        assert((x + b)[0] == x[0] && (x + b)[1] == x[1]);
        if !(x[0] == 13 && x[1] == 10) {
            lemma_find_crlf_prefix(x.skip(1), b);
            assert(x.skip(1) + b =~= (x + b).skip(1));
        }
    }
}

/// Feeding input in pieces equals feeding it whole: what the reader holds
/// back after one chunk is exactly what reproduces the remaining frames
/// once the next chunk arrives.
pub proof fn lemma_drain_in_pieces(phase: Phase, x: Seq<u8>, b: Seq<u8>)
    requires
        drain(phase, x).err == None::<FramingError>,
    ensures
        ({
            let first = drain(phase, x);
            let second = drain(first.phase, first.rest + b);
            drain(phase, x + b) == (ScanResult {
                frames: first.frames + second.frames,
                phase: second.phase,
                rest: second.rest,
                err: second.err,
            })
        }),
    decreases x.len(), phase_rank(phase),
{
    let first = drain(phase, x);
    let second = drain(first.phase, first.rest + b);
    match phase {
        Phase::Headers { expected } => {
            lemma_find_crlf_prefix(x, b);
            match find_crlf(x) {
                None => {
                    assert(first == scan_stuck(phase, x));
                    assert(Seq::<Seq<u8>>::empty() + second.frames =~= second.frames);
                },
                Some(p) => {
                    lemma_find_crlf(x);
                    assert(find_crlf(x + b) == Some(p));
                    assert((x + b).take(p) =~= x.take(p));
                    assert((x + b).skip(p + 2) =~= x.skip(p + 2) + b);
                    let line = x.take(p);
                    let rest = x.skip(p + 2);
                    if line.len() == 0 {
                        match expected {
                            Some(n) => {
                                lemma_drain_in_pieces(Phase::Body { expected: n }, rest, b);
                            },
                            None => {
                                // a missing length is an error, excluded here
                                assert(false);
                            },
                        }
                    } else {
                        match header_line(line, expected) {
                            Ok(e) => {
                                lemma_drain_in_pieces(Phase::Headers { expected: e }, rest, b);
                            },
                            Err(er) => {
                                assert(false);
                            },
                        }
                    }
                },
            }
        },
        Phase::Body { expected } => {
            if x.len() >= expected {
                assert((x + b).len() >= expected);
                assert((x + b).take(expected as int) =~= x.take(expected as int));
                assert((x + b).skip(expected as int) =~= x.skip(expected as int) + b);
                lemma_drain_in_pieces(
                    Phase::Headers { expected: None },
                    x.skip(expected as int),
                    b,
                );
                let sub_first = drain(Phase::Headers { expected: None }, x.skip(expected as int));
                assert(seq![x.take(expected as int)] + (sub_first.frames + second.frames) =~= (
                seq![x.take(expected as int)] + sub_first.frames) + second.frames);
            } else {
                assert(first == scan_stuck(phase, x));
                assert(Seq::<Seq<u8>>::empty() + second.frames =~= second.frames);
            }
        },
    }
}

} // verus!

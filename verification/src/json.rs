use vstd::prelude::*;

verus! {

// Lexical layer of the wire-format reader. The server speaks JSON; the
// replies this client consumes have fixed, flat shapes, so the reader is
// written directly against that grammar. Everything here works on bytes.

/// JSON insignificant whitespace.
pub open spec fn is_ws(b: u8) -> bool {
    b == 0x20 || b == 0x09 || b == 0x0a || b == 0x0d
}

/// First index at or after `pos` holding a non-whitespace byte (or the end).
pub open spec fn spec_skip_ws(s: Seq<u8>, pos: int) -> int
    decreases s.len() - pos,
{
    if 0 <= pos < s.len() && is_ws(s[pos]) {
        spec_skip_ws(s, pos + 1)
    } else {
        pos
    }
}

pub fn skip_ws(s: &Vec<u8>, pos: usize) -> (r: usize)
    requires
        pos <= s@.len(),
    ensures
        r == spec_skip_ws(s@, pos as int),
        pos <= r <= s@.len(),
{
    let mut cur = pos;
    while cur < s.len() && (s[cur] == 0x20 || s[cur] == 0x09 || s[cur] == 0x0a || s[cur] == 0x0d)
        invariant
            pos <= cur <= s@.len(),
            spec_skip_ws(s@, pos as int) == spec_skip_ws(s@, cur as int),
        decreases s@.len() - cur,
    {
        cur += 1;
    }
    cur
}

/// ASCII decimal digit.
pub open spec fn is_digit(b: u8) -> bool {
    0x30 <= b <= 0x39
}

/// End of the digit run starting at `pos`.
pub open spec fn spec_digits_end(s: Seq<u8>, pos: int) -> int
    decreases s.len() - pos,
{
    if 0 <= pos < s.len() && is_digit(s[pos]) {
        spec_digits_end(s, pos + 1)
    } else {
        pos
    }
}

pub proof fn lemma_digits_end_range(s: Seq<u8>, pos: int)
    requires
        0 <= pos <= s.len(),
    ensures
        pos <= spec_digits_end(s, pos) <= s.len(),
    decreases s.len() - pos,
{
    if pos < s.len() && is_digit(s[pos]) {
        lemma_digits_end_range(s, pos + 1);
    }
}

/// Value of the decimal digit run `s[pos .. end)`.
pub open spec fn spec_digits_val(s: Seq<u8>, pos: int, end: int) -> int
    decreases end - pos,
{
    if pos < end {
        spec_digits_val(s, pos, end - 1) * 10 + (s[end - 1] - 0x30)
    } else {
        0
    }
}

/// The strict JSON integer token at `pos`: an optional minus sign and a
/// digit run without a redundant leading zero, not followed by a fraction
/// or exponent part. Integer values beyond the signed 64-bit range are
/// refused, as the server never produces them for any field this client
/// reads. Yields the value and the index just past the token.
pub open spec fn spec_parse_int(s: Seq<u8>, pos: int) -> Option<(int, int)> {
    if !(0 <= pos < s.len()) {
        None
    } else {
        let neg = s[pos] == 0x2d;
        let d0 = if neg {
            pos + 1
        } else {
            pos
        };
        if !(d0 < s.len() && is_digit(s[d0])) {
            None
        } else if s[d0] == 0x30 && d0 + 1 < s.len() && is_digit(s[d0 + 1]) {
            None
        } else {
            let end = spec_digits_end(s, d0);
            if end < s.len() && (s[end] == 0x2e || s[end] == 0x65 || s[end] == 0x45) {
                None
            } else {
                let mag = spec_digits_val(s, d0, end);
                let v = if neg {
                    -mag
                } else {
                    mag
                };
                if v < i64::MIN || v > i64::MAX {
                    None
                } else {
                    Some((v, end))
                }
            }
        }
    }
}

pub proof fn lemma_parse_int_range(s: Seq<u8>, pos: int)
    requires
        0 <= pos <= s.len(),
    ensures
        match spec_parse_int(s, pos) {
            Some((v, p)) => pos < p <= s.len() && i64::MIN <= v <= i64::MAX,
            None => true,
        },
{
    if spec_parse_int(s, pos) is Some {
        let neg = s[pos] == 0x2d;
        let d0 = if neg {
            pos + 1
        } else {
            pos
        };
        assert(d0 < s.len() && is_digit(s[d0]));
        lemma_digits_end_range(s, d0 + 1);
        assert(spec_digits_end(s, d0) == spec_digits_end(s, d0 + 1));
    }
}

/// Reads the strict integer token at `pos`.
pub fn parse_int(s: &Vec<u8>, pos: usize) -> (r: Option<(i64, usize)>)
    requires
        pos <= s@.len(),
    ensures
        match r {
            Some((v, p)) => spec_parse_int(s@, pos as int) == Some((v as int, p as int)) && pos < p
                <= s@.len(),
            None => spec_parse_int(s@, pos as int) is None,
        },
{
    proof {
        lemma_parse_int_range(s@, pos as int);
    }
    if pos >= s.len() {
        return None;
    }
    let neg = s[pos] == 0x2d;
    let d0 = if neg {
        pos + 1
    } else {
        pos
    };
    if !(d0 < s.len() && 0x30 <= s[d0] && s[d0] <= 0x39) {
        return None;
    }
    if s[d0] == 0x30 && d0 + 1 < s.len() && 0x30 <= s[d0 + 1] && s[d0 + 1] <= 0x39 {
        return None;
    }
    let mut end = d0;
    let mut mag: u64 = 0;
    let mut overflow = false;
    while end < s.len() && 0x30 <= s[end] && s[end] <= 0x39
        invariant
            d0 <= end <= s@.len(),
            spec_digits_end(s@, d0 as int) == spec_digits_end(s@, end as int),
            !overflow ==> mag == spec_digits_val(s@, d0 as int, end as int),
            overflow ==> spec_digits_val(s@, d0 as int, end as int) > u64::MAX,
            forall|k: int| d0 <= k < end ==> is_digit(s@[k]),
        decreases s@.len() - end,
    {
        let d = (s[end] - 0x30) as u64;
        if !overflow {
            if mag > (u64::MAX - d) / 10 {
                proof {
                    let ghost ve = spec_digits_val(s@, d0 as int, end as int);
                    assert(spec_digits_val(s@, d0 as int, end as int + 1) == ve * 10 + d);
                }
                overflow = true;
            } else {
                mag = mag * 10 + d;
            }
        } else {
            proof {
                let ghost ve = spec_digits_val(s@, d0 as int, end as int);
                assert(spec_digits_val(s@, d0 as int, end as int + 1) == ve * 10 + d);
            }
        }
        end += 1;
    }
    assert(end == spec_digits_end(s@, d0 as int));
    if end < s.len() && (s[end] == 0x2e || s[end] == 0x65 || s[end] == 0x45) {
        return None;
    }
    let ghost smag = spec_digits_val(s@, d0 as int, end as int);
    if neg {
        if overflow || mag > 9223372036854775808u64 {
            assert(smag > i64::MAX ==> -smag < i64::MIN);
            return None;
        }
        if mag == 9223372036854775808u64 {
            assert(-smag == i64::MIN);
            return Some((i64::MIN, end));
        }
        let v = -(mag as i64);
        return Some((v, end));
    }
    if overflow || mag > i64::MAX as u64 {
        return None;
    }
    Some((mag as i64, end))
}

/// The views of a sequence of byte vectors.
pub open spec fn views_of(v: Seq<Vec<u8>>) -> Seq<Seq<u8>> {
    v.map_values(|x: Vec<u8>| x@)
}

/// Byte-wise comparison of a vector against a slice.
pub fn eq_bytes(a: &Vec<u8>, b: &[u8]) -> (r: bool)
    ensures
        r == (a@ == b@),
{
    if a.len() != b.len() {
        return false;
    }
    let mut i: usize = 0;
    while i < a.len()
        invariant
            a@.len() == b@.len(),
            i <= a@.len(),
            forall|k: int| 0 <= k < i ==> a@[k] == b@[k],
        decreases a@.len() - i,
    {
        if a[i] != b[i] {
            return false;
        }
        i += 1;
    }
    proof {
        assert(a@ =~= b@);
    }
    true
}

/// Whether the four bytes of the JSON `null` keyword stand at `pos`.
pub open spec fn is_null_at(s: Seq<u8>, pos: int) -> bool {
    &&& 0 <= pos
    &&& pos + 4 <= s.len()
    &&& s[pos] == 0x6e
    &&& s[pos + 1] == 0x75
    &&& s[pos + 2] == 0x6c
    &&& s[pos + 3] == 0x6c
}

/// Checks for the JSON `null` keyword at `pos`.
pub fn null_at(s: &Vec<u8>, pos: usize) -> (r: bool)
    requires
        pos <= s@.len(),
    ensures
        r == is_null_at(s@, pos as int),
{
    s.len() - pos >= 4 && s[pos] == 0x6e && s[pos + 1] == 0x75 && s[pos + 2] == 0x6c && s[pos + 3]
        == 0x6c
}

/// Relies on String::from_utf8: yields the string holding exactly the given
/// bytes when they are valid UTF-8, and refuses them otherwise.
#[verifier::external_body]
pub(crate) fn string_from_utf8(v: Vec<u8>) -> (r: Option<String>)
    ensures
        match r {
            Some(s) => vstd::utf8::encode_utf8(s@) == v@ && vstd::utf8::valid_utf8(v@),
            None => !vstd::utf8::valid_utf8(v@),
        },
{
    String::from_utf8(v).ok()
}

/// Clamps a continuation index into `[lo, s.len()]` so that recursion over
/// positions is well founded; every reachable continuation is already in
/// range, so the clamp never changes a meaningful value.
pub open spec fn next_pos(s: Seq<u8>, lo: int, p: int) -> int {
    if p < lo {
        lo
    } else if p > s.len() {
        s.len() as int
    } else {
        p
    }
}

/// Value of an ASCII hexadecimal digit, or -1.
pub open spec fn hex_val(b: u8) -> int {
    if 0x30 <= b <= 0x39 {
        b - 0x30
    } else if 0x61 <= b <= 0x66 {
        b - 0x61 + 10
    } else if 0x41 <= b <= 0x46 {
        b - 0x41 + 10
    } else {
        -1
    }
}

/// The four-digit hexadecimal scalar at `pos`.
pub open spec fn spec_hex4(s: Seq<u8>, pos: int) -> Option<int> {
    if 0 <= pos && pos + 4 <= s.len() && hex_val(s[pos]) >= 0 && hex_val(s[pos + 1]) >= 0
        && hex_val(s[pos + 2]) >= 0 && hex_val(s[pos + 3]) >= 0 {
        Some(
            ((hex_val(s[pos]) * 16 + hex_val(s[pos + 1])) * 16 + hex_val(s[pos + 2])) * 16
                + hex_val(s[pos + 3]),
        )
    } else {
        None
    }
}

/// UTF-8 encoding of the scalar value `cp`.
pub open spec fn utf8_enc(cp: int) -> Seq<u8> {
    if cp < 0x80 {
        seq![cp as u8]
    } else if cp < 0x800 {
        seq![(0xC0 + cp / 64) as u8, (0x80 + cp % 64) as u8]
    } else if cp < 0x10000 {
        seq![(0xE0 + cp / 4096) as u8, (0x80 + (cp / 64) % 64) as u8, (0x80 + cp % 64) as u8]
    } else {
        seq![
            (0xF0 + cp / 262144) as u8,
            (0x80 + (cp / 4096) % 64) as u8,
            (0x80 + (cp / 64) % 64) as u8,
            (0x80 + cp % 64) as u8,
        ]
    }
}

/// The escape sequence whose backslash stands just before `pos`: the bytes
/// it denotes and the index just past it. `\u` escapes encode their scalar
/// as UTF-8; a surrogate pair is combined, a lone surrogate is malformed.
pub open spec fn spec_escape(s: Seq<u8>, pos: int) -> Option<(Seq<u8>, int)> {
    if !(0 <= pos < s.len()) {
        None
    } else {
        let b = s[pos];
        if b == 0x22 {
            Some((seq![0x22u8], pos + 1))
        } else if b == 0x5c {
            Some((seq![0x5cu8], pos + 1))
        } else if b == 0x2f {
            Some((seq![0x2fu8], pos + 1))
        } else if b == 0x62 {
            Some((seq![0x08u8], pos + 1))
        } else if b == 0x66 {
            Some((seq![0x0cu8], pos + 1))
        } else if b == 0x6e {
            Some((seq![0x0au8], pos + 1))
        } else if b == 0x72 {
            Some((seq![0x0du8], pos + 1))
        } else if b == 0x74 {
            Some((seq![0x09u8], pos + 1))
        } else if b == 0x75 {
            match spec_hex4(s, pos + 1) {
                Some(c1) => {
                    if 0xD800 <= c1 < 0xDC00 {
                        if pos + 11 <= s.len() && s[pos + 5] == 0x5c && s[pos + 6] == 0x75 {
                            match spec_hex4(s, pos + 7) {
                                Some(c2) => {
                                    if 0xDC00 <= c2 < 0xE000 {
                                        Some(
                                            (
                                                utf8_enc(
                                                    0x10000 + (c1 - 0xD800) * 0x400 + (c2
                                                        - 0xDC00),
                                                ),
                                                pos + 11,
                                            ),
                                        )
                                    } else {
                                        None
                                    }
                                },
                                None => None,
                            }
                        } else {
                            None
                        }
                    } else if 0xDC00 <= c1 < 0xE000 {
                        None
                    } else {
                        Some((utf8_enc(c1), pos + 5))
                    }
                },
                None => None,
            }
        } else {
            None
        }
    }
}

/// Body of a JSON string from `pos` (just inside the opening quote) to its
/// closing quote: the decoded content bytes and the index just past the
/// closing quote. Unescaped control bytes are malformed.
pub open spec fn spec_string_rest(s: Seq<u8>, pos: int) -> Option<(Seq<u8>, int)>
    decreases s.len() - pos,
{
    if !(0 <= pos < s.len()) {
        None
    } else {
        let b = s[pos];
        if b == 0x22 {
            Some((Seq::empty(), pos + 1))
        } else if b == 0x5c {
            match spec_escape(s, pos + 1) {
                Some((e, p2)) => {
                    match spec_string_rest(s, next_pos(s, pos + 1, p2)) {
                        Some((c, p3)) => Some((e + c, p3)),
                        None => None,
                    }
                },
                None => None,
            }
        } else if b < 0x20 {
            None
        } else {
            match spec_string_rest(s, pos + 1) {
                Some((c, p3)) => Some((seq![b] + c, p3)),
                None => None,
            }
        }
    }
}

/// The JSON string token at `pos`: its decoded content and the index just
/// past its closing quote.
pub open spec fn spec_parse_string(s: Seq<u8>, pos: int) -> Option<(Seq<u8>, int)> {
    if 0 <= pos < s.len() && s[pos] == 0x22 {
        spec_string_rest(s, pos + 1)
    } else {
        None
    }
}

/// Reads the escape sequence that starts just after a backslash at `pos - 1`.
fn parse_escape(s: &Vec<u8>, pos: usize) -> (r: Option<(Vec<u8>, usize)>)
    requires
        pos <= s@.len(),
    ensures
        match r {
            Some((e, p)) => spec_escape(s@, pos as int) == Some((e@, p as int)) && pos < p
                <= s@.len(),
            None => spec_escape(s@, pos as int) is None,
        },
{
    if pos >= s.len() {
        return None;
    }
    let b = s[pos];
    if b == 0x22 || b == 0x5c || b == 0x2f {
        let mut e: Vec<u8> = Vec::new();
        e.push(b);
        assert(e@ =~= seq![b]);
        return Some((e, pos + 1));
    }
    if b == 0x62 || b == 0x66 || b == 0x6e || b == 0x72 || b == 0x74 {
        let decoded: u8 = if b == 0x62 {
            0x08
        } else if b == 0x66 {
            0x0c
        } else if b == 0x6e {
            0x0a
        } else if b == 0x72 {
            0x0d
        } else {
            0x09
        };
        let mut e: Vec<u8> = Vec::new();
        e.push(decoded);
        assert(e@ =~= seq![decoded]);
        return Some((e, pos + 1));
    }
    if b != 0x75 {
        return None;
    }
    let c1 = match hex4(s, pos + 1) {
        Some(c) => c,
        None => {
            return None;
        },
    };
    if 0xD800 <= c1 && c1 < 0xDC00 {
        if s.len() - pos >= 11 && s[pos + 5] == 0x5c && s[pos + 6] == 0x75 {
            let c2 = match hex4(s, pos + 7) {
                Some(c) => c,
                None => {
                    return None;
                },
            };
            if 0xDC00 <= c2 && c2 < 0xE000 {
                let cp: u32 = 0x10000 + (c1 - 0xD800) * 0x400 + (c2 - 0xDC00);
                return Some((utf8_encode(cp), pos + 11));
            }
            return None;
        }
        return None;
    }
    if 0xDC00 <= c1 && c1 < 0xE000 {
        return None;
    }
    Some((utf8_encode(c1), pos + 5))
}

/// Value of one hexadecimal digit byte.
fn hex_digit(b: u8) -> (r: Option<u8>)
    ensures
        match r {
            Some(v) => hex_val(b) == v as int && v < 16,
            None => hex_val(b) < 0,
        },
{
    if 0x30 <= b && b <= 0x39 {
        Some(b - 0x30)
    } else if 0x61 <= b && b <= 0x66 {
        Some(b - 0x61 + 10)
    } else if 0x41 <= b && b <= 0x46 {
        Some(b - 0x41 + 10)
    } else {
        None
    }
}

/// Reads four hexadecimal digits at `pos`.
fn hex4(s: &Vec<u8>, pos: usize) -> (r: Option<u32>)
    requires
        pos <= s@.len(),
    ensures
        match r {
            Some(v) => spec_hex4(s@, pos as int) == Some(v as int) && v < 0x10000,
            None => spec_hex4(s@, pos as int) is None,
        },
{
    if s.len() - pos < 4 {
        return None;
    }
    let d0 = match hex_digit(s[pos]) {
        Some(d) => d,
        None => {
            return None;
        },
    };
    let d1 = match hex_digit(s[pos + 1]) {
        Some(d) => d,
        None => {
            return None;
        },
    };
    let d2 = match hex_digit(s[pos + 2]) {
        Some(d) => d,
        None => {
            return None;
        },
    };
    let d3 = match hex_digit(s[pos + 3]) {
        Some(d) => d,
        None => {
            return None;
        },
    };
    let v: u32 = ((d0 as u32 * 16 + d1 as u32) * 16 + d2 as u32) * 16 + d3 as u32;
    Some(v)
}

/// UTF-8 encoding of the scalar `cp`.
fn utf8_encode(cp: u32) -> (r: Vec<u8>)
    requires
        cp < 0x110000,
    ensures
        r@ == utf8_enc(cp as int),
{
    let mut out: Vec<u8> = Vec::new();
    if cp < 0x80 {
        out.push(cp as u8);
        assert(out@ =~= utf8_enc(cp as int));
    } else if cp < 0x800 {
        out.push((0xC0 + cp / 64) as u8);
        out.push((0x80 + cp % 64) as u8);
        assert(out@ =~= utf8_enc(cp as int));
    } else if cp < 0x10000 {
        out.push((0xE0 + cp / 4096) as u8);
        out.push((0x80 + (cp / 64) % 64) as u8);
        out.push((0x80 + cp % 64) as u8);
        assert(out@ =~= utf8_enc(cp as int));
    } else {
        out.push((0xF0 + cp / 262144) as u8);
        out.push((0x80 + (cp / 4096) % 64) as u8);
        out.push((0x80 + (cp / 64) % 64) as u8);
        out.push((0x80 + cp % 64) as u8);
        assert(out@ =~= utf8_enc(cp as int));
    }
    out
}

/// Reads the JSON string token at `pos` and decodes its content.
pub fn parse_string(s: &Vec<u8>, pos: usize) -> (r: Option<(Vec<u8>, usize)>)
    requires
        pos <= s@.len(),
    ensures
        match r {
            Some((c, p)) => spec_parse_string(s@, pos as int) == Some((c@, p as int)) && pos < p
                <= s@.len(),
            None => spec_parse_string(s@, pos as int) is None,
        },
{
    if pos >= s.len() || s[pos] != 0x22 {
        return None;
    }
    let mut acc: Vec<u8> = Vec::new();
    let mut cur = pos + 1;
    loop
        invariant
            pos + 1 <= cur <= s@.len(),
            pos < s@.len() && s@[pos as int] == 0x22,
            match spec_string_rest(s@, cur as int) {
                Some((c, p)) => spec_string_rest(s@, pos + 1) == Some((acc@ + c, p)),
                None => spec_string_rest(s@, pos + 1) is None,
            },
        decreases s@.len() - cur,
    {
        if cur >= s.len() {
            return None;
        }
        let b = s[cur];
        if b == 0x22 {
            proof {
                assert(spec_string_rest(s@, cur as int) == Some(
                    (Seq::<u8>::empty(), cur + 1int),
                ));
                assert(acc@ + Seq::<u8>::empty() =~= acc@);
            }
            return Some((acc, cur + 1));
        }
        if b == 0x5c {
            match parse_escape(s, cur + 1) {
                Some((e, p2)) => {
                    proof {
                        assert(next_pos(s@, cur + 1, p2 as int) == p2 as int);
                    }
                    let ghost acc0 = acc@;
                    let mut k: usize = 0;
                    while k < e.len()
                        invariant
                            k <= e@.len(),
                            acc@ == acc0 + e@.subrange(0, k as int),
                        decreases e@.len() - k,
                    {
                        acc.push(e[k]);
                        assert(acc@ =~= acc0 + e@.subrange(0, k + 1int));
                        k += 1;
                    }
                    assert(acc@ == acc0 + e@) by {
                        assert(e@.subrange(0, e@.len() as int) =~= e@);
                    }
                    proof {
                        if spec_string_rest(s@, p2 as int) is Some {
                            let (c3, p3) = spec_string_rest(s@, p2 as int)->Some_0;
                            assert(spec_string_rest(s@, cur as int) == Some((e@ + c3, p3)));
                            assert(acc0 + (e@ + c3) =~= (acc0 + e@) + c3);
                        }
                    }
                    cur = p2;
                },
                None => {
                    return None;
                },
            }
        } else if b < 0x20 {
            return None;
        } else {
            proof {
                if spec_string_rest(s@, cur + 1) is Some {
                    let (c3, p3) = spec_string_rest(s@, cur + 1)->Some_0;
                    assert(spec_string_rest(s@, cur as int) == Some((seq![b] + c3, p3)));
                    assert(acc@ + (seq![b] + c3) =~= acc@.push(b) + c3);
                }
            }
            acc.push(b);
            cur += 1;
        }
    }
}

} // verus!

use vstd::prelude::*;
use vstd::string::StrSliceExecFns;
use vstd::string::StringExecFns;
use vstd::string::StringSliceAdditionalSpecFns;

use crate::json::eq_bytes;
use crate::json::next_pos;
use crate::json::parse_int;
use crate::json::parse_string;
use crate::json::skip_ws;
use crate::json::spec_parse_int;
use crate::json::spec_parse_string;
use crate::json::spec_skip_ws;
use crate::wire_board::parse_u8_at;
use crate::wire_board::spec_u8_at;

verus! {

// Pattern bookkeeping: the command-line pattern arguments and their parser.
// One argument names a pattern file together with the pattern's anchor and
// its priority, as four space-separated fields.

/// One pattern pixel: an offset from the pattern's anchor and the color the
/// cell should hold.
#[derive(Debug, Clone, Copy, PartialEq, Eq, Structural)]
pub struct PatternPixel {
    pub x: i32,
    pub y: i32,
    pub color: u8,
}

/// A desired arrangement of pixels, anchored later by a pattern argument.
#[derive(Debug, Clone)]
pub struct Pattern {
    pub pattern: Vec<PatternPixel>,
}

impl View for Pattern {
    type V = Seq<PatternPixel>;

    open spec fn view(&self) -> Seq<PatternPixel> {
        self.pattern@
    }
}

/// One parsed pattern argument: the pattern file's path, the anchor, and
/// the priority (lower is served first).
#[derive(Debug, PartialEq, Eq)]
pub struct ArgSpecs {
    pub pattern_path: String,
    pub x: i32,
    pub y: i32,
    pub priority: u32,
}

/// The raw command-line arguments: the credential pair and one string per
/// pattern.
#[derive(Debug)]
pub struct Args {
    pub refresh_token: String,
    pub token: String,
    pub patterns: Vec<String>,
}

/// ASCII decimal digit.
pub open spec fn is_digit_ch(c: char) -> bool {
    '0' <= c && c <= '9'
}

/// Index of the first space in `s`, or its length.
pub open spec fn first_space(s: Seq<char>) -> int
    decreases s.len(),
{
    if s.len() == 0 {
        0
    } else if s[0] == ' ' {
        0
    } else {
        1 + first_space(s.skip(1))
    }
}

/// The scan that finds the first space: any index bounding a space-free
/// prefix, and holding a space if interior, is that first index.
pub proof fn lemma_first_space_is(s: Seq<char>, i: int)
    requires
        0 <= i <= s.len(),
        forall|k: int| 0 <= k < i ==> s[k] != ' ',
        i < s.len() ==> s[i] == ' ',
    ensures
        first_space(s) == i,
    decreases s.len(),
{
    if s.len() > 0 && s[0] != ' ' {
        assert(i >= 1);
        assert forall|k: int| 0 <= k < i - 1 implies s.skip(1)[k] != ' ' by {
            assert(s.skip(1)[k] == s[k + 1]);
        }
        if i - 1 < s.skip(1).len() {
            assert(s.skip(1)[i - 1] == s[i]);
        }
        lemma_first_space_is(s.skip(1), i - 1);
    }
}

/// `s` split on every single space, empty fields kept.
pub open spec fn split_spaces(s: Seq<char>) -> Seq<Seq<char>>
    decreases s.len(),
{
    let i = first_space(s);
    if !(0 <= i < s.len()) {
        seq![s]
    } else {
        seq![s.take(i)] + split_spaces(s.skip(i + 1))
    }
}

/// Value of the decimal digit run `s[from .. to)`.
pub open spec fn chars_val(s: Seq<char>, from: int, to: int) -> int
    decreases to - from,
{
    if from < to {
        chars_val(s, from, to - 1) * 10 + (s[to - 1] as u32 - 48)
    } else {
        0
    }
}

/// The unsigned decimal number spelled by `s[d0 ..]`: at least one digit
/// and nothing else.
pub open spec fn spec_parse_uint(s: Seq<char>, d0: int) -> Option<int> {
    if d0 < s.len() && (forall|k: int| d0 <= k < s.len() ==> is_digit_ch(#[trigger] s[k])) {
        Some(chars_val(s, d0, s.len() as int))
    } else {
        None
    }
}

/// The signed 32-bit integer `s` spells: an optional sign, then digits,
/// refused outside the i32 range.
pub open spec fn spec_parse_i32(s: Seq<char>) -> Option<i32> {
    if s.len() == 0 {
        None
    } else {
        let neg = s[0] == '-';
        let signed = s[0] == '-' || s[0] == '+';
        let d0: int = if signed {
            1
        } else {
            0
        };
        match spec_parse_uint(s, d0) {
            Some(m) => {
                let v: int = if neg {
                    -m
                } else {
                    m
                };
                if i32::MIN <= v <= i32::MAX {
                    Some(v as i32)
                } else {
                    None
                }
            },
            None => None,
        }
    }
}

/// The unsigned 32-bit integer `s` spells: an optional plus sign, then
/// digits, refused outside the u32 range.
pub open spec fn spec_parse_u32(s: Seq<char>) -> Option<u32> {
    if s.len() == 0 {
        None
    } else {
        let d0: int = if s[0] == '+' {
            1
        } else {
            0
        };
        match spec_parse_uint(s, d0) {
            Some(m) => if 0 <= m <= u32::MAX {
                Some(m as u32)
            } else {
                None
            },
            None => None,
        }
    }
}

/// Reads the unsigned digit run of `s[d0 ..]`; `None` when empty, when a
/// non-digit occurs, or when the value tops the u32 range (the flag tells
/// the overflow case apart so signed callers can keep their exact bounds).
fn parse_uint_str(s: &str, d0: usize, n: usize) -> (r: (Option<u64>, bool))
    requires
        d0 <= n,
        n == s@.len(),
    ensures
        match spec_parse_uint(s@, d0 as int) {
            Some(m) => {
                &&& m >= 0
                &&& r.1 == (m > u32::MAX)
                &&& (m <= u32::MAX ==> r.0 == Some(m as u64))
                &&& (m > u32::MAX ==> r.0 is None)
            },
            None => r.0 is None && !r.1,
        },
{
    if d0 >= n {
        return (None, false);
    }
    let mut j = d0;
    let mut mag: u64 = 0;
    let mut huge = false;
    while j < n
        invariant
            d0 <= j <= n,
            n == s@.len(),
            forall|k: int| d0 <= k < j ==> is_digit_ch(#[trigger] s@[k]),
            !huge ==> mag == chars_val(s@, d0 as int, j as int) && mag <= u32::MAX,
            huge ==> chars_val(s@, d0 as int, j as int) > u32::MAX,
        decreases n - j,
    {
        let c = s.get_char(j);
        if !('0' <= c && c <= '9') {
            return (None, false);
        }
        let d: u64 = (c as u32 - 48) as u64;
        proof {
            assert(chars_val(s@, d0 as int, j + 1) == chars_val(s@, d0 as int, j as int) * 10 + d);
        }
        if !huge {
            let next = mag * 10 + d;
            if next > u32::MAX as u64 {
                huge = true;
            } else {
                mag = next;
            }
        }
        j += 1;
    }
    if huge {
        (None, true)
    } else {
        (Some(mag), false)
    }
}

/// Reads the signed 32-bit integer `s` spells.
pub fn parse_i32_str(s: &str) -> (r: Option<i32>)
    ensures
        r == spec_parse_i32(s@),
{
    let n = s.unicode_len();
    if n == 0 {
        return None;
    }
    let c0 = s.get_char(0);
    let neg = c0 == '-';
    let signed = neg || c0 == '+';
    let d0: usize = if signed {
        1
    } else {
        0
    };
    let (mag, huge) = parse_uint_str(s, d0, n);
    match mag {
        None => {
            if huge {
                // The digit run is valid but its value tops u32::MAX, which
                // is outside the i32 range for either sign.
                assert(spec_parse_i32(s@) is None);
            }
            None
        },
        Some(m) => {
            if neg {
                if m > 2147483648u64 {
                    return None;
                }
                if m == 2147483648u64 {
                    return Some(i32::MIN);
                }
                Some(-(m as i32))
            } else {
                if m > 2147483647u64 {
                    return None;
                }
                Some(m as i32)
            }
        },
    }
}

/// Reads the unsigned 32-bit integer `s` spells.
pub fn parse_u32_str(s: &str) -> (r: Option<u32>)
    ensures
        r == spec_parse_u32(s@),
{
    let n = s.unicode_len();
    if n == 0 {
        return None;
    }
    let c0 = s.get_char(0);
    let d0: usize = if c0 == '+' {
        1
    } else {
        0
    };
    let (mag, _huge) = parse_uint_str(s, d0, n);
    match mag {
        None => None,
        Some(m) => Some(m as u32),
    }
}

/// The views of a sequence of string slices.
pub open spec fn str_views(v: Seq<&str>) -> Seq<Seq<char>> {
    v.map_values(|p: &str| p@)
}

/// Splits `s` on every single space, empty fields kept.
fn split_spaces_str<'a>(s: &'a str) -> (parts: Vec<&'a str>)
    ensures
        str_views(parts@) == split_spaces(s@),
{
    let n = s.unicode_len();
    let mut parts: Vec<&'a str> = Vec::new();
    let mut start: usize = 0;
    proof {
        assert(s@.skip(0) =~= s@);
        assert(str_views(parts@) =~= Seq::<Seq<char>>::empty());
        assert(str_views(parts@) + split_spaces(s@) =~= split_spaces(s@));
    }
    loop
        invariant
            start <= n,
            n == s@.len(),
            split_spaces(s@) == str_views(parts@) + split_spaces(s@.skip(start as int)),
        decreases n - start,
    {
        let mut j = start;
        while j < n && s.get_char(j) != ' '
            invariant
                start <= j <= n,
                n == s@.len(),
                forall|k: int| start <= k < j ==> s@[k] != ' ',
            decreases n - j,
        {
            j += 1;
        }
        let ghost rem = s@.skip(start as int);
        proof {
            assert forall|k: int| 0 <= k < j - start implies rem[k] != ' ' by {
                assert(rem[k] == s@[start + k]);
            }
            if j < n {
                assert(rem[j - start] == s@[j as int]);
            }
            lemma_first_space_is(rem, j - start);
        }
        if j < n {
            let part = s.substring_char(start, j);
            proof {
                assert(part@ =~= rem.take(j - start));
                assert(rem.skip(j - start + 1) =~= s@.skip(j + 1));
                assert(split_spaces(rem) == seq![rem.take(j - start)] + split_spaces(
                    s@.skip(j + 1),
                ));
                assert(str_views(parts@.push(part)) =~= str_views(parts@).push(part@));
                assert(str_views(parts@) + (seq![part@] + split_spaces(s@.skip(j + 1)))
                    =~= str_views(parts@.push(part)) + split_spaces(s@.skip(j + 1)));
            }
            parts.push(part);
            start = j + 1;
        } else {
            let part = s.substring_char(start, n);
            proof {
                assert(part@ =~= rem.take(j - start));
                assert(rem.take(j - start) =~= rem);
                assert(split_spaces(rem) == seq![rem]);
                assert(str_views(parts@.push(part)) =~= str_views(parts@).push(part@));
                assert(str_views(parts@) + seq![rem] =~= str_views(parts@.push(part)));
            }
            parts.push(part);
            return parts;
        }
    }
}

/// Parses one pattern argument of the form `path x y priority`. Exactly
/// four space-separated fields; the anchor coordinates are signed 32-bit
/// integers and the priority an unsigned one. Each refusal names the field
/// at fault, first fault first.
pub fn parse_patterns(pattern: &str) -> (r: Result<ArgSpecs, String>)
    ensures
        ({
            let parts = split_spaces(pattern@);
            match r {
                Ok(a) => {
                    &&& parts.len() == 4
                    &&& a.pattern_path@ == parts[0]
                    &&& Some(a.x) == spec_parse_i32(parts[1])
                    &&& Some(a.y) == spec_parse_i32(parts[2])
                    &&& Some(a.priority) == spec_parse_u32(parts[3])
                },
                Err(m) => {
                    if parts.len() != 4 {
                        m@ == "Invalid pattern arguments "@ + pattern@
                    } else if spec_parse_i32(parts[1]) is None {
                        m@ == "Invalid x coordinate: "@ + parts[1]
                    } else if spec_parse_i32(parts[2]) is None {
                        m@ == "Invalid y coordinate: "@ + parts[2]
                    } else if spec_parse_u32(parts[3]) is None {
                        m@ == "Invalid y priority: "@ + parts[3]
                    } else {
                        false
                    }
                },
            }
        }),
{
    let parts = split_spaces_str(pattern);
    proof {
        assert(str_views(parts@).len() == parts@.len());
    }
    if parts.len() != 4 {
        return Err(String::from_str("Invalid pattern arguments ").concat(pattern));
    }
    proof {
        assert(str_views(parts@)[1] == parts@[1]@);
        assert(str_views(parts@)[2] == parts@[2]@);
        assert(str_views(parts@)[3] == parts@[3]@);
        assert(str_views(parts@)[0] == parts@[0]@);
    }
    let x = match parse_i32_str(parts[1]) {
        Some(v) => v,
        None => {
            return Err(String::from_str("Invalid x coordinate: ").concat(parts[1]));
        },
    };
    let y = match parse_i32_str(parts[2]) {
        Some(v) => v,
        None => {
            return Err(String::from_str("Invalid y coordinate: ").concat(parts[2]));
        },
    };
    let priority = match parse_u32_str(parts[3]) {
        Some(v) => v,
        None => {
            return Err(String::from_str("Invalid y priority: ").concat(parts[3]));
        },
    };
    let pattern_path = parts[0].to_owned();
    Ok(ArgSpecs { pattern_path, x, y, priority })
}

/// The i32-ranged integer token at `pos`.
pub open spec fn spec_i32_at(s: Seq<u8>, pos: int) -> Option<(i32, int)> {
    match spec_parse_int(s, pos) {
        Some((v, p)) => if i32::MIN <= v <= i32::MAX {
            Some((v as i32, p))
        } else {
            None
        },
        None => None,
    }
}

/// Reads the i32-ranged integer token at `pos`.
fn parse_i32_at(s: &Vec<u8>, pos: usize) -> (r: Option<(i32, usize)>)
    requires
        pos <= s@.len(),
    ensures
        match r {
            Some((v, p)) => spec_i32_at(s@, pos as int) == Some((v, p as int)) && pos < p
                <= s@.len(),
            None => spec_i32_at(s@, pos as int) is None,
        },
{
    match parse_int(s, pos) {
        Some((v, p)) => {
            if i32::MIN as i64 <= v && v <= i32::MAX as i64 {
                Some((v as i32, p))
            } else {
                None
            }
        },
        None => None,
    }
}

/// How many of a pixel's three fields are still unseen.
pub open spec fn pixel_unseen(x: Option<i32>, y: Option<i32>, color: Option<u8>) -> int {
    (if x is None {
        1int
    } else {
        0int
    }) + (if y is None {
        1int
    } else {
        0int
    }) + (if color is None {
        1int
    } else {
        0int
    })
}

/// One pixel member at `pos`, followed by the rest of the pixel object.
pub open spec fn spec_pixel_member(
    s: Seq<u8>,
    pos: int,
    x: Option<i32>,
    y: Option<i32>,
    color: Option<u8>,
) -> Option<(PatternPixel, int)>
    decreases pixel_unseen(x, y, color), 0int,
{
    match spec_parse_string(s, pos) {
        None => None,
        Some((key, p1)) => {
            let p2 = spec_skip_ws(s, p1);
            if !(0 <= p2 < s.len() && s[p2] == 0x3a) {
                None
            } else {
                let p3 = spec_skip_ws(s, p2 + 1);
                if key == ("x").spec_bytes() {
                    if x is Some {
                        None
                    } else {
                        match spec_i32_at(s, p3) {
                            Some((v, p4)) => spec_pixel_after(s, p4, Some(v), y, color),
                            None => None,
                        }
                    }
                } else if key == ("y").spec_bytes() {
                    if y is Some {
                        None
                    } else {
                        match spec_i32_at(s, p3) {
                            Some((v, p4)) => spec_pixel_after(s, p4, x, Some(v), color),
                            None => None,
                        }
                    }
                } else if key == ("color").spec_bytes() {
                    if color is Some {
                        None
                    } else {
                        match spec_u8_at(s, p3) {
                            Some((v, p4)) => spec_pixel_after(s, p4, x, y, Some(v)),
                            None => None,
                        }
                    }
                } else {
                    None
                }
            }
        },
    }
}

/// After one pixel member: a comma and a further member, or the closing
/// brace once all three fields were seen.
pub open spec fn spec_pixel_after(
    s: Seq<u8>,
    pos: int,
    x: Option<i32>,
    y: Option<i32>,
    color: Option<u8>,
) -> Option<(PatternPixel, int)>
    decreases pixel_unseen(x, y, color), 1int,
{
    let p = spec_skip_ws(s, pos);
    if 0 <= p < s.len() && s[p] == 0x2c {
        if pixel_unseen(x, y, color) > 0 {
            spec_pixel_member(s, spec_skip_ws(s, p + 1), x, y, color)
        } else {
            None
        }
    } else if 0 <= p < s.len() && s[p] == 0x7d {
        match (x, y, color) {
            (Some(px), Some(py), Some(pc)) => Some(
                (PatternPixel { x: px, y: py, color: pc }, p + 1),
            ),
            _ => None,
        }
    } else {
        None
    }
}

/// The pixel object at `pos`.
pub open spec fn spec_pixel_obj(s: Seq<u8>, pos: int) -> Option<(PatternPixel, int)> {
    if 0 <= pos < s.len() && s[pos] == 0x7b {
        spec_pixel_member(s, spec_skip_ws(s, pos + 1), None, None, None)
    } else {
        None
    }
}

/// One or more comma-separated pixels, up to and including the closing
/// bracket.
pub open spec fn spec_pixel_elems(s: Seq<u8>, pos: int) -> Option<(Seq<PatternPixel>, int)>
    decreases s.len() - pos,
{
    match spec_pixel_obj(s, pos) {
        None => None,
        Some((c, p)) => {
            let p1 = spec_skip_ws(s, p);
            if 0 <= p1 < s.len() && s[p1] == 0x2c {
                match spec_pixel_elems(s, next_pos(s, pos + 1, spec_skip_ws(s, p1 + 1))) {
                    Some((rest, p2)) => Some((seq![c] + rest, p2)),
                    None => None,
                }
            } else if 0 <= p1 < s.len() && s[p1] == 0x5d {
                Some((seq![c], p1 + 1))
            } else {
                None
            }
        },
    }
}

/// The pixel array at `pos`.
pub open spec fn spec_pixels_at(s: Seq<u8>, pos: int) -> Option<(Seq<PatternPixel>, int)> {
    if 0 <= pos < s.len() && s[pos] == 0x5b {
        let p1 = spec_skip_ws(s, pos + 1);
        if 0 <= p1 < s.len() && s[p1] == 0x5d {
            Some((Seq::empty(), p1 + 1))
        } else {
            spec_pixel_elems(s, next_pos(s, pos + 1, p1))
        }
    } else {
        None
    }
}

/// One pattern-file member at `pos`: only the `pattern` field exists.
pub open spec fn spec_pattern_member(s: Seq<u8>, pos: int, pat: Option<Seq<PatternPixel>>) -> Option<
    (Seq<PatternPixel>, int),
>
    decreases (if pat is None {
        1int
    } else {
        0int
    }), 0int,
{
    match spec_parse_string(s, pos) {
        None => None,
        Some((key, p1)) => {
            let p2 = spec_skip_ws(s, p1);
            if !(0 <= p2 < s.len() && s[p2] == 0x3a) {
                None
            } else {
                let p3 = spec_skip_ws(s, p2 + 1);
                if key == ("pattern").spec_bytes() {
                    if pat is Some {
                        None
                    } else {
                        match spec_pixels_at(s, p3) {
                            Some((px, p4)) => spec_pattern_after(s, p4, Some(px)),
                            None => None,
                        }
                    }
                } else {
                    None
                }
            }
        },
    }
}

/// After the pattern-file member: only the closing brace may follow.
pub open spec fn spec_pattern_after(s: Seq<u8>, pos: int, pat: Option<Seq<PatternPixel>>) -> Option<
    (Seq<PatternPixel>, int),
>
    decreases (if pat is None {
        1int
    } else {
        0int
    }), 1int,
{
    let p = spec_skip_ws(s, pos);
    if 0 <= p < s.len() && s[p] == 0x7d {
        match pat {
            Some(px) => Some((px, p + 1)),
            None => None,
        }
    } else {
        None
    }
}

/// The whole pattern file carried by `s`: its pixel sequence, in file
/// order. `None` exactly when the bytes do not spell an object with the
/// single `pattern` field.
pub open spec fn spec_pattern_file(s: Seq<u8>) -> Option<Seq<PatternPixel>> {
    let p0 = spec_skip_ws(s, 0);
    if 0 <= p0 < s.len() && s[p0] == 0x7b {
        let p1 = spec_skip_ws(s, p0 + 1);
        match spec_pattern_member(s, p1, None) {
            None => None,
            Some((px, p2)) => {
                if spec_skip_ws(s, p2) == s.len() {
                    Some(px)
                } else {
                    None
                }
            },
        }
    } else {
        None
    }
}

/// Reads one pixel member and the rest of the pixel object.
fn pixel_member(s: &Vec<u8>, pos: usize, x: Option<i32>, y: Option<i32>, color: Option<u8>) -> (r:
    Option<(PatternPixel, usize)>)
    requires
        pos <= s@.len(),
    ensures
        match r {
            Some((c, p)) => spec_pixel_member(s@, pos as int, x, y, color) == Some((c, p as int))
                && pos < p <= s@.len(),
            None => spec_pixel_member(s@, pos as int, x, y, color) is None,
        },
    decreases pixel_unseen(x, y, color), 0int,
{
    let (key, p1) = match parse_string(s, pos) {
        Some(k) => k,
        None => {
            return None;
        },
    };
    let p2 = skip_ws(s, p1);
    if !(p2 < s.len() && s[p2] == 0x3a) {
        return None;
    }
    let p3 = skip_ws(s, p2 + 1);
    if eq_bytes(&key, "x".as_bytes()) {
        if x.is_some() {
            return None;
        }
        match parse_i32_at(s, p3) {
            Some((v, p4)) => pixel_after(s, p4, Some(v), y, color),
            None => None,
        }
    } else if eq_bytes(&key, "y".as_bytes()) {
        if y.is_some() {
            return None;
        }
        match parse_i32_at(s, p3) {
            Some((v, p4)) => pixel_after(s, p4, x, Some(v), color),
            None => None,
        }
    } else if eq_bytes(&key, "color".as_bytes()) {
        if color.is_some() {
            return None;
        }
        match parse_u8_at(s, p3) {
            Some((v, p4)) => pixel_after(s, p4, x, y, Some(v)),
            None => None,
        }
    } else {
        None
    }
}

/// Reads what follows one pixel member.
fn pixel_after(s: &Vec<u8>, pos: usize, x: Option<i32>, y: Option<i32>, color: Option<u8>) -> (r:
    Option<(PatternPixel, usize)>)
    requires
        pos <= s@.len(),
    ensures
        match r {
            Some((c, p)) => spec_pixel_after(s@, pos as int, x, y, color) == Some((c, p as int))
                && pos < p <= s@.len(),
            None => spec_pixel_after(s@, pos as int, x, y, color) is None,
        },
    decreases pixel_unseen(x, y, color), 1int,
{
    let p = skip_ws(s, pos);
    if p < s.len() && s[p] == 0x2c {
        let unseen: u32 = (if x.is_none() {
            1u32
        } else {
            0u32
        }) + (if y.is_none() {
            1u32
        } else {
            0u32
        }) + (if color.is_none() {
            1u32
        } else {
            0u32
        });
        if unseen > 0 {
            let nxt = skip_ws(s, p + 1);
            pixel_member(s, nxt, x, y, color)
        } else {
            None
        }
    } else if p < s.len() && s[p] == 0x7d {
        match (x, y, color) {
            (Some(px), Some(py), Some(pc)) => Some((PatternPixel { x: px, y: py, color: pc }, p
                + 1)),
            _ => None,
        }
    } else {
        None
    }
}

/// Reads the pixel object at `pos`.
fn pixel_obj(s: &Vec<u8>, pos: usize) -> (r: Option<(PatternPixel, usize)>)
    requires
        pos <= s@.len(),
    ensures
        match r {
            Some((c, p)) => spec_pixel_obj(s@, pos as int) == Some((c, p as int)) && pos < p
                <= s@.len(),
            None => spec_pixel_obj(s@, pos as int) is None,
        },
{
    if pos < s.len() && s[pos] == 0x7b {
        let p1 = skip_ws(s, pos + 1);
        pixel_member(s, p1, None, None, None)
    } else {
        None
    }
}

/// Reads the pixel array at `pos`.
fn pixels_at(s: &Vec<u8>, pos: usize) -> (r: Option<(Vec<PatternPixel>, usize)>)
    requires
        pos <= s@.len(),
    ensures
        match r {
            Some((v, p)) => spec_pixels_at(s@, pos as int) == Some((v@, p as int)) && pos < p
                <= s@.len(),
            None => spec_pixels_at(s@, pos as int) is None,
        },
{
    if pos >= s.len() || s[pos] != 0x5b {
        return None;
    }
    let p1 = skip_ws(s, pos + 1);
    if p1 < s.len() && s[p1] == 0x5d {
        let out: Vec<PatternPixel> = Vec::new();
        assert(out@ =~= Seq::<PatternPixel>::empty());
        return Some((out, p1 + 1));
    }
    let ghost start = p1 as int;
    assert(next_pos(s@, pos + 1, p1 as int) == start);
    let mut out: Vec<PatternPixel> = Vec::new();
    let mut cur = p1;
    proof {
        assert(spec_pixels_at(s@, pos as int) == spec_pixel_elems(s@, start));
        if spec_pixel_elems(s@, start) is Some {
            let (rest, p) = spec_pixel_elems(s@, start)->Some_0;
            assert(out@ + rest =~= rest);
        }
    }
    loop
        invariant
            pos + 1 <= cur <= s@.len(),
            match spec_pixel_elems(s@, cur as int) {
                Some((rest, p)) => spec_pixels_at(s@, pos as int) == Some((out@ + rest, p)),
                None => spec_pixels_at(s@, pos as int) is None,
            },
        decreases s@.len() - cur,
    {
        let (c, p) = match pixel_obj(s, cur) {
            Some(x) => x,
            None => {
                return None;
            },
        };
        let p2 = skip_ws(s, p);
        if p2 < s.len() && s[p2] == 0x2c {
            let nxt = skip_ws(s, p2 + 1);
            proof {
                assert(next_pos(s@, cur + 1, spec_skip_ws(s@, p2 + 1)) == nxt as int);
                if spec_pixel_elems(s@, nxt as int) is Some {
                    let (rest, pe) = spec_pixel_elems(s@, nxt as int)->Some_0;
                    assert(spec_pixel_elems(s@, cur as int) == Some((seq![c] + rest, pe)));
                    assert(out@ + (seq![c] + rest) =~= out@.push(c) + rest);
                }
            }
            out.push(c);
            cur = nxt;
        } else if p2 < s.len() && s[p2] == 0x5d {
            proof {
                assert(spec_pixel_elems(s@, cur as int) == Some((seq![c], p2 + 1int)));
                assert(out@ + seq![c] =~= out@.push(c));
            }
            out.push(c);
            return Some((out, p2 + 1));
        } else {
            return None;
        }
    }
}

/// Reads a whole pattern file: the object's single `pattern` field, an
/// array of pixel objects, in file order.
pub fn parse_pattern_file(s: &Vec<u8>) -> (r: Option<Pattern>)
    ensures
        match r {
            Some(pat) => spec_pattern_file(s@) == Some(pat@),
            None => spec_pattern_file(s@) is None,
        },
{
    let p0 = skip_ws(s, 0);
    if !(p0 < s.len() && s[p0] == 0x7b) {
        return None;
    }
    let p1 = skip_ws(s, p0 + 1);
    let (key, p2) = match parse_string(s, p1) {
        Some(k) => k,
        None => {
            return None;
        },
    };
    let p3 = skip_ws(s, p2);
    if !(p3 < s.len() && s[p3] == 0x3a) {
        return None;
    }
    let p4 = skip_ws(s, p3 + 1);
    if !eq_bytes(&key, "pattern".as_bytes()) {
        return None;
    }
    let (px, p5) = match pixels_at(s, p4) {
        Some(x) => x,
        None => {
            return None;
        },
    };
    let p6 = skip_ws(s, p5);
    if !(p6 < s.len() && s[p6] == 0x7d) {
        return None;
    }
    let pe = skip_ws(s, p6 + 1);
    if pe == s.len() {
        Some(Pattern { pattern: px })
    } else {
        None
    }
}

} // verus!

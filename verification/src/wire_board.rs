use vstd::prelude::*;
use vstd::string::StringSliceAdditionalSpecFns;
use vstd::utf8::encode_utf8;
use vstd::utf8::valid_utf8;

use crate::board::Color;
use crate::json::eq_bytes;
use crate::json::string_from_utf8;
use crate::json::next_pos;
use crate::json::parse_int;
use crate::json::parse_string;
use crate::json::skip_ws;
use crate::json::spec_parse_int;
use crate::json::spec_parse_string;
use crate::json::spec_skip_ws;
use crate::json::views_of;

verus! {

// Reader for the board reply: a JSON object with a `colors` palette array,
// a `type` tag and a `board` matrix of cell objects. Only the palette and
// each cell's color id are kept; a cell's author and timestamp are checked
// for shape and dropped.

/// The model of one palette entry: id, name bytes, red, green, blue.
pub type ColorModel = (u8, Seq<u8>, u8, u8, u8);

/// The u8-ranged integer token at `pos`.
pub open spec fn spec_u8_at(s: Seq<u8>, pos: int) -> Option<(u8, int)> {
    match spec_parse_int(s, pos) {
        Some((v, p)) => if 0 <= v <= 255 {
            Some((v as u8, p))
        } else {
            None
        },
        None => None,
    }
}

/// Reads the u8-ranged integer token at `pos`.
pub(crate) fn parse_u8_at(s: &Vec<u8>, pos: usize) -> (r: Option<(u8, usize)>)
    requires
        pos <= s@.len(),
    ensures
        match r {
            Some((v, p)) => spec_u8_at(s@, pos as int) == Some((v, p as int)) && pos < p
                <= s@.len(),
            None => spec_u8_at(s@, pos as int) is None,
        },
{
    match parse_int(s, pos) {
        Some((v, p)) => {
            if 0 <= v && v <= 255 {
                Some((v as u8, p))
            } else {
                None
            }
        },
        None => None,
    }
}

/// How many of a palette entry's five fields are still unseen.
pub open spec fn color_unseen(
    id: Option<u8>,
    name: Option<Seq<u8>>,
    red: Option<u8>,
    green: Option<u8>,
    blue: Option<u8>,
) -> int {
    (if id is None {
        1int
    } else {
        0int
    }) + (if name is None {
        1int
    } else {
        0int
    }) + (if red is None {
        1int
    } else {
        0int
    }) + (if green is None {
        1int
    } else {
        0int
    }) + (if blue is None {
        1int
    } else {
        0int
    })
}

/// One palette-entry member at `pos`, followed by the rest of the entry.
pub open spec fn spec_color_member(
    s: Seq<u8>,
    pos: int,
    id: Option<u8>,
    name: Option<Seq<u8>>,
    red: Option<u8>,
    green: Option<u8>,
    blue: Option<u8>,
) -> Option<(ColorModel, int)>
    decreases color_unseen(id, name, red, green, blue), 0int,
{
    match spec_parse_string(s, pos) {
        None => None,
        Some((key, p1)) => {
            let p2 = spec_skip_ws(s, p1);
            if !(0 <= p2 < s.len() && s[p2] == 0x3a) {
                None
            } else {
                let p3 = spec_skip_ws(s, p2 + 1);
                if key == ("id").spec_bytes() {
                    if id is Some {
                        None
                    } else {
                        match spec_u8_at(s, p3) {
                            Some((v, p4)) => spec_color_after(s, p4, Some(v), name, red, green, blue),
                            None => None,
                        }
                    }
                } else if key == ("name").spec_bytes() {
                    if name is Some {
                        None
                    } else {
                        match spec_parse_string(s, p3) {
                            Some((c, p4)) => spec_color_after(s, p4, id, Some(c), red, green, blue),
                            None => None,
                        }
                    }
                } else if key == ("red").spec_bytes() {
                    if red is Some {
                        None
                    } else {
                        match spec_u8_at(s, p3) {
                            Some((v, p4)) => spec_color_after(s, p4, id, name, Some(v), green, blue),
                            None => None,
                        }
                    }
                } else if key == ("green").spec_bytes() {
                    if green is Some {
                        None
                    } else {
                        match spec_u8_at(s, p3) {
                            Some((v, p4)) => spec_color_after(s, p4, id, name, red, Some(v), blue),
                            None => None,
                        }
                    }
                } else if key == ("blue").spec_bytes() {
                    if blue is Some {
                        None
                    } else {
                        match spec_u8_at(s, p3) {
                            Some((v, p4)) => spec_color_after(s, p4, id, name, red, green, Some(v)),
                            None => None,
                        }
                    }
                } else {
                    None
                }
            }
        },
    }
}

/// After one palette-entry member: a comma and a further member, or the
/// closing brace once all five fields were seen.
pub open spec fn spec_color_after(
    s: Seq<u8>,
    pos: int,
    id: Option<u8>,
    name: Option<Seq<u8>>,
    red: Option<u8>,
    green: Option<u8>,
    blue: Option<u8>,
) -> Option<(ColorModel, int)>
    decreases color_unseen(id, name, red, green, blue), 1int,
{
    let p = spec_skip_ws(s, pos);
    if 0 <= p < s.len() && s[p] == 0x2c {
        if color_unseen(id, name, red, green, blue) > 0 {
            spec_color_member(s, spec_skip_ws(s, p + 1), id, name, red, green, blue)
        } else {
            None
        }
    } else if 0 <= p < s.len() && s[p] == 0x7d {
        match (id, name, red, green, blue) {
            (Some(i), Some(n), Some(r), Some(g), Some(b)) => Some(((i, n, r, g, b), p + 1)),
            _ => None,
        }
    } else {
        None
    }
}

/// The palette-entry object at `pos`.
pub open spec fn spec_color_obj(s: Seq<u8>, pos: int) -> Option<(ColorModel, int)> {
    if 0 <= pos < s.len() && s[pos] == 0x7b {
        spec_color_member(s, spec_skip_ws(s, pos + 1), None, None, None, None, None)
    } else {
        None
    }
}

/// One or more comma-separated palette entries, up to and including the
/// closing bracket.
pub open spec fn spec_color_elems(s: Seq<u8>, pos: int) -> Option<(Seq<ColorModel>, int)>
    decreases s.len() - pos,
{
    match spec_color_obj(s, pos) {
        None => None,
        Some((c, p)) => {
            let p1 = spec_skip_ws(s, p);
            if 0 <= p1 < s.len() && s[p1] == 0x2c {
                match spec_color_elems(s, next_pos(s, pos + 1, spec_skip_ws(s, p1 + 1))) {
                    Some((rest, p2)) => Some((seq![c] + rest, p2)),
                    None => None,
                }
            } else if 0 <= p1 < s.len() && s[p1] == 0x5d {
                Some((seq![c], p1 + 1))
            } else {
                None
            }
        },
    }
}

/// The palette array at `pos`.
pub open spec fn spec_colors_at(s: Seq<u8>, pos: int) -> Option<(Seq<ColorModel>, int)> {
    if 0 <= pos < s.len() && s[pos] == 0x5b {
        let p1 = spec_skip_ws(s, pos + 1);
        if 0 <= p1 < s.len() && s[p1] == 0x5d {
            Some((Seq::empty(), p1 + 1))
        } else {
            spec_color_elems(s, next_pos(s, pos + 1, p1))
        }
    } else {
        None
    }
}

/// How many of a cell's three fields are still unseen.
pub open spec fn cell_unseen(user: bool, cid: Option<u8>, time: bool) -> int {
    (if user {
        0int
    } else {
        1int
    }) + (if cid is None {
        1int
    } else {
        0int
    }) + (if time {
        0int
    } else {
        1int
    })
}

/// One cell member at `pos`, followed by the rest of the cell.
pub open spec fn spec_cell_member(s: Seq<u8>, pos: int, user: bool, cid: Option<u8>, time: bool) -> Option<
    (u8, int),
>
    decreases cell_unseen(user, cid, time), 0int,
{
    match spec_parse_string(s, pos) {
        None => None,
        Some((key, p1)) => {
            let p2 = spec_skip_ws(s, p1);
            if !(0 <= p2 < s.len() && s[p2] == 0x3a) {
                None
            } else {
                let p3 = spec_skip_ws(s, p2 + 1);
                if key == ("username").spec_bytes() {
                    if user {
                        None
                    } else {
                        match spec_parse_string(s, p3) {
                            Some((c, p4)) => spec_cell_after(s, p4, true, cid, time),
                            None => None,
                        }
                    }
                } else if key == ("color_id").spec_bytes() {
                    if cid is Some {
                        None
                    } else {
                        match spec_u8_at(s, p3) {
                            Some((v, p4)) => spec_cell_after(s, p4, user, Some(v), time),
                            None => None,
                        }
                    }
                } else if key == ("set_time").spec_bytes() {
                    if time {
                        None
                    } else {
                        match spec_parse_string(s, p3) {
                            Some((c, p4)) => spec_cell_after(s, p4, user, cid, true),
                            None => None,
                        }
                    }
                } else {
                    None
                }
            }
        },
    }
}

/// After one cell member: a comma and a further member, or the closing
/// brace once all three fields were seen.
pub open spec fn spec_cell_after(s: Seq<u8>, pos: int, user: bool, cid: Option<u8>, time: bool) -> Option<
    (u8, int),
>
    decreases cell_unseen(user, cid, time), 1int,
{
    let p = spec_skip_ws(s, pos);
    if 0 <= p < s.len() && s[p] == 0x2c {
        if cell_unseen(user, cid, time) > 0 {
            spec_cell_member(s, spec_skip_ws(s, p + 1), user, cid, time)
        } else {
            None
        }
    } else if 0 <= p < s.len() && s[p] == 0x7d {
        match cid {
            Some(v) => if user && time {
                Some((v, p + 1))
            } else {
                None
            },
            None => None,
        }
    } else {
        None
    }
}

/// The cell object at `pos`: its color id.
pub open spec fn spec_cell_obj(s: Seq<u8>, pos: int) -> Option<(u8, int)> {
    if 0 <= pos < s.len() && s[pos] == 0x7b {
        spec_cell_member(s, spec_skip_ws(s, pos + 1), false, None, false)
    } else {
        None
    }
}

/// One or more comma-separated cells, up to and including the closing
/// bracket.
pub open spec fn spec_cell_elems(s: Seq<u8>, pos: int) -> Option<(Seq<u8>, int)>
    decreases s.len() - pos,
{
    match spec_cell_obj(s, pos) {
        None => None,
        Some((c, p)) => {
            let p1 = spec_skip_ws(s, p);
            if 0 <= p1 < s.len() && s[p1] == 0x2c {
                match spec_cell_elems(s, next_pos(s, pos + 1, spec_skip_ws(s, p1 + 1))) {
                    Some((rest, p2)) => Some((seq![c] + rest, p2)),
                    None => None,
                }
            } else if 0 <= p1 < s.len() && s[p1] == 0x5d {
                Some((seq![c], p1 + 1))
            } else {
                None
            }
        },
    }
}

/// One row of the board: an array of cells at `pos`.
pub open spec fn spec_row_at(s: Seq<u8>, pos: int) -> Option<(Seq<u8>, int)> {
    if 0 <= pos < s.len() && s[pos] == 0x5b {
        let p1 = spec_skip_ws(s, pos + 1);
        if 0 <= p1 < s.len() && s[p1] == 0x5d {
            Some((Seq::empty(), p1 + 1))
        } else {
            spec_cell_elems(s, next_pos(s, pos + 1, p1))
        }
    } else {
        None
    }
}

/// One or more comma-separated rows, up to and including the closing
/// bracket.
pub open spec fn spec_row_elems(s: Seq<u8>, pos: int) -> Option<(Seq<Seq<u8>>, int)>
    decreases s.len() - pos,
{
    match spec_row_at(s, pos) {
        None => None,
        Some((c, p)) => {
            let p1 = spec_skip_ws(s, p);
            if 0 <= p1 < s.len() && s[p1] == 0x2c {
                match spec_row_elems(s, next_pos(s, pos + 1, spec_skip_ws(s, p1 + 1))) {
                    Some((rest, p2)) => Some((seq![c] + rest, p2)),
                    None => None,
                }
            } else if 0 <= p1 < s.len() && s[p1] == 0x5d {
                Some((seq![c], p1 + 1))
            } else {
                None
            }
        },
    }
}

/// The board matrix at `pos`: an array of rows.
pub open spec fn spec_rows_at(s: Seq<u8>, pos: int) -> Option<(Seq<Seq<u8>>, int)> {
    if 0 <= pos < s.len() && s[pos] == 0x5b {
        let p1 = spec_skip_ws(s, pos + 1);
        if 0 <= p1 < s.len() && s[p1] == 0x5d {
            Some((Seq::empty(), p1 + 1))
        } else {
            spec_row_elems(s, next_pos(s, pos + 1, p1))
        }
    } else {
        None
    }
}

/// How many of the reply's three fields are still unseen.
pub open spec fn board_unseen(
    colors: Option<Seq<ColorModel>>,
    ty: bool,
    rows: Option<Seq<Seq<u8>>>,
) -> int {
    (if colors is None {
        1int
    } else {
        0int
    }) + (if ty {
        0int
    } else {
        1int
    }) + (if rows is None {
        1int
    } else {
        0int
    })
}

/// One board-reply member at `pos`, followed by the rest of the reply.
pub open spec fn spec_board_member(
    s: Seq<u8>,
    pos: int,
    colors: Option<Seq<ColorModel>>,
    ty: bool,
    rows: Option<Seq<Seq<u8>>>,
) -> Option<((Seq<ColorModel>, Seq<Seq<u8>>), int)>
    decreases board_unseen(colors, ty, rows), 0int,
{
    match spec_parse_string(s, pos) {
        None => None,
        Some((key, p1)) => {
            let p2 = spec_skip_ws(s, p1);
            if !(0 <= p2 < s.len() && s[p2] == 0x3a) {
                None
            } else {
                let p3 = spec_skip_ws(s, p2 + 1);
                if key == ("colors").spec_bytes() {
                    if colors is Some {
                        None
                    } else {
                        match spec_colors_at(s, p3) {
                            Some((cs, p4)) => spec_board_after(s, p4, Some(cs), ty, rows),
                            None => None,
                        }
                    }
                } else if key == ("type").spec_bytes() {
                    if ty {
                        None
                    } else {
                        match spec_parse_string(s, p3) {
                            Some((c, p4)) => spec_board_after(s, p4, colors, true, rows),
                            None => None,
                        }
                    }
                } else if key == ("board").spec_bytes() {
                    if rows is Some {
                        None
                    } else {
                        match spec_rows_at(s, p3) {
                            Some((rs, p4)) => spec_board_after(s, p4, colors, ty, Some(rs)),
                            None => None,
                        }
                    }
                } else {
                    None
                }
            }
        },
    }
}

/// After one board-reply member: a comma and a further member, or the
/// closing brace once all three fields were seen.
pub open spec fn spec_board_after(
    s: Seq<u8>,
    pos: int,
    colors: Option<Seq<ColorModel>>,
    ty: bool,
    rows: Option<Seq<Seq<u8>>>,
) -> Option<((Seq<ColorModel>, Seq<Seq<u8>>), int)>
    decreases board_unseen(colors, ty, rows), 1int,
{
    let p = spec_skip_ws(s, pos);
    if 0 <= p < s.len() && s[p] == 0x2c {
        if board_unseen(colors, ty, rows) > 0 {
            spec_board_member(s, spec_skip_ws(s, p + 1), colors, ty, rows)
        } else {
            None
        }
    } else if 0 <= p < s.len() && s[p] == 0x7d {
        match (colors, rows) {
            (Some(cs), Some(rs)) => if ty {
                Some(((cs, rs), p + 1))
            } else {
                None
            },
            _ => None,
        }
    } else {
        None
    }
}

/// The whole board reply carried by `s`: the palette models and the raw
/// rows of color ids, still in server orientation. `None` exactly when the
/// bytes do not spell an object of the reply's shape.
pub open spec fn spec_board_reply(s: Seq<u8>) -> Option<(Seq<ColorModel>, Seq<Seq<u8>>)> {
    let p0 = spec_skip_ws(s, 0);
    if 0 <= p0 < s.len() && s[p0] == 0x7b {
        let p1 = spec_skip_ws(s, p0 + 1);
        match spec_board_member(s, p1, None, false, None) {
            None => None,
            Some(((cs, rs), p2)) => {
                if spec_skip_ws(s, p2) == s.len() {
                    Some((cs, rs))
                } else {
                    None
                }
            },
        }
    } else {
        None
    }
}

/// A palette entry as first read off the wire, its name still in bytes.
pub type RawColor = (u8, Vec<u8>, u8, u8, u8);

/// The model of a raw palette entry.
pub open spec fn raw_color_view(c: RawColor) -> ColorModel {
    (c.0, c.1@, c.2, c.3, c.4)
}

/// The models of a sequence of raw palette entries.
pub open spec fn raw_colors_view(cs: Seq<RawColor>) -> Seq<ColorModel> {
    cs.map_values(|c: RawColor| raw_color_view(c))
}

/// The model of an optional list of raw palette entries.
pub open spec fn opt_colors_view(t: &Option<Vec<RawColor>>) -> Option<Seq<ColorModel>> {
    match t {
        Some(v) => Some(raw_colors_view(v@)),
        None => None,
    }
}

/// The model of an optional list of rows.
pub open spec fn opt_rows_view(t: &Option<Vec<Vec<u8>>>) -> Option<Seq<Seq<u8>>> {
    match t {
        Some(v) => Some(views_of(v@)),
        None => None,
    }
}

/// Reads one palette-entry member and the rest of the entry.
fn color_member(
    s: &Vec<u8>,
    pos: usize,
    id: Option<u8>,
    name: Option<Vec<u8>>,
    red: Option<u8>,
    green: Option<u8>,
    blue: Option<u8>,
) -> (r: Option<(RawColor, usize)>)
    requires
        pos <= s@.len(),
    ensures
        match r {
            Some((c, p)) => spec_color_member(
                s@,
                pos as int,
                id,
                match name {
                    Some(ref n) => Some(n@),
                    None => None,
                },
                red,
                green,
                blue,
            ) == Some((raw_color_view(c), p as int)) && pos < p <= s@.len(),
            None => spec_color_member(
                s@,
                pos as int,
                id,
                match name {
                    Some(ref n) => Some(n@),
                    None => None,
                },
                red,
                green,
                blue,
            ) is None,
        },
    decreases color_unseen(
        id,
        match name {
            Some(ref n) => Some(n@),
            None => None,
        },
        red,
        green,
        blue,
    ), 0int,
{
    let (key, p1) = match parse_string(s, pos) {
        Some(x) => x,
        None => {
            return None;
        },
    };
    let p2 = skip_ws(s, p1);
    if !(p2 < s.len() && s[p2] == 0x3a) {
        return None;
    }
    let p3 = skip_ws(s, p2 + 1);
    if eq_bytes(&key, "id".as_bytes()) {
        if id.is_some() {
            return None;
        }
        match parse_u8_at(s, p3) {
            Some((v, p4)) => color_after(s, p4, Some(v), name, red, green, blue),
            None => None,
        }
    } else if eq_bytes(&key, "name".as_bytes()) {
        if name.is_some() {
            return None;
        }
        match parse_string(s, p3) {
            Some((c, p4)) => color_after(s, p4, id, Some(c), red, green, blue),
            None => None,
        }
    } else if eq_bytes(&key, "red".as_bytes()) {
        if red.is_some() {
            return None;
        }
        match parse_u8_at(s, p3) {
            Some((v, p4)) => color_after(s, p4, id, name, Some(v), green, blue),
            None => None,
        }
    } else if eq_bytes(&key, "green".as_bytes()) {
        if green.is_some() {
            return None;
        }
        match parse_u8_at(s, p3) {
            Some((v, p4)) => color_after(s, p4, id, name, red, Some(v), blue),
            None => None,
        }
    } else if eq_bytes(&key, "blue".as_bytes()) {
        if blue.is_some() {
            return None;
        }
        match parse_u8_at(s, p3) {
            Some((v, p4)) => color_after(s, p4, id, name, red, green, Some(v)),
            None => None,
        }
    } else {
        None
    }
}

/// Reads what follows one palette-entry member.
fn color_after(
    s: &Vec<u8>,
    pos: usize,
    id: Option<u8>,
    name: Option<Vec<u8>>,
    red: Option<u8>,
    green: Option<u8>,
    blue: Option<u8>,
) -> (r: Option<(RawColor, usize)>)
    requires
        pos <= s@.len(),
    ensures
        match r {
            Some((c, p)) => spec_color_after(
                s@,
                pos as int,
                id,
                match name {
                    Some(ref n) => Some(n@),
                    None => None,
                },
                red,
                green,
                blue,
            ) == Some((raw_color_view(c), p as int)) && pos < p <= s@.len(),
            None => spec_color_after(
                s@,
                pos as int,
                id,
                match name {
                    Some(ref n) => Some(n@),
                    None => None,
                },
                red,
                green,
                blue,
            ) is None,
        },
    decreases color_unseen(
        id,
        match name {
            Some(ref n) => Some(n@),
            None => None,
        },
        red,
        green,
        blue,
    ), 1int,
{
    let p = skip_ws(s, pos);
    if p < s.len() && s[p] == 0x2c {
        let unseen: u32 = (if id.is_none() {
            1u32
        } else {
            0u32
        }) + (if name.is_none() {
            1u32
        } else {
            0u32
        }) + (if red.is_none() {
            1u32
        } else {
            0u32
        }) + (if green.is_none() {
            1u32
        } else {
            0u32
        }) + (if blue.is_none() {
            1u32
        } else {
            0u32
        });
        if unseen > 0 {
            let nxt = skip_ws(s, p + 1);
            color_member(s, nxt, id, name, red, green, blue)
        } else {
            None
        }
    } else if p < s.len() && s[p] == 0x7d {
        match (id, name, red, green, blue) {
            (Some(i), Some(n), Some(r), Some(g), Some(b)) => Some(((i, n, r, g, b), p + 1)),
            _ => None,
        }
    } else {
        None
    }
}

/// Reads the palette-entry object at `pos`.
fn color_obj(s: &Vec<u8>, pos: usize) -> (r: Option<(RawColor, usize)>)
    requires
        pos <= s@.len(),
    ensures
        match r {
            Some((c, p)) => spec_color_obj(s@, pos as int) == Some((raw_color_view(c), p as int))
                && pos < p <= s@.len(),
            None => spec_color_obj(s@, pos as int) is None,
        },
{
    if pos < s.len() && s[pos] == 0x7b {
        let p1 = skip_ws(s, pos + 1);
        color_member(s, p1, None, None, None, None, None)
    } else {
        None
    }
}

/// Reads the palette array at `pos`.
fn colors_at(s: &Vec<u8>, pos: usize) -> (r: Option<(Vec<RawColor>, usize)>)
    requires
        pos <= s@.len(),
    ensures
        match r {
            Some((v, p)) => spec_colors_at(s@, pos as int) == Some((raw_colors_view(v@), p as int))
                && p <= s@.len(),
            None => spec_colors_at(s@, pos as int) is None,
        },
{
    if pos >= s.len() || s[pos] != 0x5b {
        return None;
    }
    let p1 = skip_ws(s, pos + 1);
    if p1 < s.len() && s[p1] == 0x5d {
        let out: Vec<RawColor> = Vec::new();
        assert(raw_colors_view(out@) =~= Seq::<ColorModel>::empty());
        return Some((out, p1 + 1));
    }
    let ghost start = p1 as int;
    assert(next_pos(s@, pos + 1, p1 as int) == start);
    let mut out: Vec<RawColor> = Vec::new();
    let mut cur = p1;
    proof {
        assert(spec_colors_at(s@, pos as int) == spec_color_elems(s@, start));
        if spec_color_elems(s@, start) is Some {
            let (rest, p) = spec_color_elems(s@, start)->Some_0;
            assert(raw_colors_view(out@) =~= Seq::<ColorModel>::empty());
            assert(raw_colors_view(out@) + rest =~= rest);
        }
    }
    loop
        invariant
            pos + 1 <= cur <= s@.len(),
            match spec_color_elems(s@, cur as int) {
                Some((rest, p)) => spec_colors_at(s@, pos as int) == Some(
                    (raw_colors_view(out@) + rest, p),
                ),
                None => spec_colors_at(s@, pos as int) is None,
            },
        decreases s@.len() - cur,
    {
        let (c, p) = match color_obj(s, cur) {
            Some(x) => x,
            None => {
                return None;
            },
        };
        let p2 = skip_ws(s, p);
        if p2 < s.len() && s[p2] == 0x2c {
            let nxt = skip_ws(s, p2 + 1);
            proof {
                assert(next_pos(s@, cur + 1, spec_skip_ws(s@, p2 + 1)) == nxt as int);
                if spec_color_elems(s@, nxt as int) is Some {
                    let (rest, pe) = spec_color_elems(s@, nxt as int)->Some_0;
                    assert(spec_color_elems(s@, cur as int) == Some(
                        (seq![raw_color_view(c)] + rest, pe),
                    ));
                    assert(raw_colors_view(out@.push(c)) =~= raw_colors_view(out@).push(
                        raw_color_view(c),
                    ));
                    assert(raw_colors_view(out@) + (seq![raw_color_view(c)] + rest)
                        =~= raw_colors_view(out@.push(c)) + rest);
                }
            }
            out.push(c);
            cur = nxt;
        } else if p2 < s.len() && s[p2] == 0x5d {
            proof {
                assert(spec_color_elems(s@, cur as int) == Some(
                    (seq![raw_color_view(c)], p2 + 1int),
                ));
                assert(raw_colors_view(out@.push(c)) =~= raw_colors_view(out@).push(
                    raw_color_view(c),
                ));
                assert(raw_colors_view(out@) + seq![raw_color_view(c)] =~= raw_colors_view(
                    out@.push(c),
                ));
            }
            out.push(c);
            return Some((out, p2 + 1));
        } else {
            return None;
        }
    }
}

/// Reads one cell member and the rest of the cell.
fn cell_member(s: &Vec<u8>, pos: usize, user: bool, cid: Option<u8>, time: bool) -> (r: Option<
    (u8, usize),
>)
    requires
        pos <= s@.len(),
    ensures
        match r {
            Some((c, p)) => spec_cell_member(s@, pos as int, user, cid, time) == Some(
                (c, p as int),
            ) && pos < p <= s@.len(),
            None => spec_cell_member(s@, pos as int, user, cid, time) is None,
        },
    decreases cell_unseen(user, cid, time), 0int,
{
    let (key, p1) = match parse_string(s, pos) {
        Some(x) => x,
        None => {
            return None;
        },
    };
    let p2 = skip_ws(s, p1);
    if !(p2 < s.len() && s[p2] == 0x3a) {
        return None;
    }
    let p3 = skip_ws(s, p2 + 1);
    if eq_bytes(&key, "username".as_bytes()) {
        if user {
            return None;
        }
        match parse_string(s, p3) {
            Some((_c, p4)) => cell_after(s, p4, true, cid, time),
            None => None,
        }
    } else if eq_bytes(&key, "color_id".as_bytes()) {
        if cid.is_some() {
            return None;
        }
        match parse_u8_at(s, p3) {
            Some((v, p4)) => cell_after(s, p4, user, Some(v), time),
            None => None,
        }
    } else if eq_bytes(&key, "set_time".as_bytes()) {
        if time {
            return None;
        }
        match parse_string(s, p3) {
            Some((_c, p4)) => cell_after(s, p4, user, cid, true),
            None => None,
        }
    } else {
        None
    }
}

/// Reads what follows one cell member.
fn cell_after(s: &Vec<u8>, pos: usize, user: bool, cid: Option<u8>, time: bool) -> (r: Option<
    (u8, usize),
>)
    requires
        pos <= s@.len(),
    ensures
        match r {
            Some((c, p)) => spec_cell_after(s@, pos as int, user, cid, time) == Some((c, p as int))
                && pos < p <= s@.len(),
            None => spec_cell_after(s@, pos as int, user, cid, time) is None,
        },
    decreases cell_unseen(user, cid, time), 1int,
{
    let p = skip_ws(s, pos);
    if p < s.len() && s[p] == 0x2c {
        let unseen: u32 = (if user {
            0u32
        } else {
            1u32
        }) + (if cid.is_none() {
            1u32
        } else {
            0u32
        }) + (if time {
            0u32
        } else {
            1u32
        });
        if unseen > 0 {
            let nxt = skip_ws(s, p + 1);
            cell_member(s, nxt, user, cid, time)
        } else {
            None
        }
    } else if p < s.len() && s[p] == 0x7d {
        match cid {
            Some(v) => {
                if user && time {
                    Some((v, p + 1))
                } else {
                    None
                }
            },
            None => None,
        }
    } else {
        None
    }
}

/// Reads the cell object at `pos`.
fn cell_obj(s: &Vec<u8>, pos: usize) -> (r: Option<(u8, usize)>)
    requires
        pos <= s@.len(),
    ensures
        match r {
            Some((c, p)) => spec_cell_obj(s@, pos as int) == Some((c, p as int)) && pos < p
                <= s@.len(),
            None => spec_cell_obj(s@, pos as int) is None,
        },
{
    if pos < s.len() && s[pos] == 0x7b {
        let p1 = skip_ws(s, pos + 1);
        cell_member(s, p1, false, None, false)
    } else {
        None
    }
}

/// Reads one row (an array of cells) at `pos`.
fn row_at(s: &Vec<u8>, pos: usize) -> (r: Option<(Vec<u8>, usize)>)
    requires
        pos <= s@.len(),
    ensures
        match r {
            Some((v, p)) => spec_row_at(s@, pos as int) == Some((v@, p as int)) && pos < p
                <= s@.len(),
            None => spec_row_at(s@, pos as int) is None,
        },
{
    if pos >= s.len() || s[pos] != 0x5b {
        return None;
    }
    let p1 = skip_ws(s, pos + 1);
    if p1 < s.len() && s[p1] == 0x5d {
        let out: Vec<u8> = Vec::new();
        assert(out@ =~= Seq::<u8>::empty());
        return Some((out, p1 + 1));
    }
    let ghost start = p1 as int;
    assert(next_pos(s@, pos + 1, p1 as int) == start);
    let mut out: Vec<u8> = Vec::new();
    let mut cur = p1;
    proof {
        assert(spec_row_at(s@, pos as int) == spec_cell_elems(s@, start));
        if spec_cell_elems(s@, start) is Some {
            let (rest, p) = spec_cell_elems(s@, start)->Some_0;
            assert(out@ + rest =~= rest);
        }
    }
    loop
        invariant
            pos + 1 <= cur <= s@.len(),
            match spec_cell_elems(s@, cur as int) {
                Some((rest, p)) => spec_row_at(s@, pos as int) == Some((out@ + rest, p)),
                None => spec_row_at(s@, pos as int) is None,
            },
        decreases s@.len() - cur,
    {
        let (c, p) = match cell_obj(s, cur) {
            Some(x) => x,
            None => {
                return None;
            },
        };
        let p2 = skip_ws(s, p);
        if p2 < s.len() && s[p2] == 0x2c {
            let nxt = skip_ws(s, p2 + 1);
            proof {
                assert(next_pos(s@, cur + 1, spec_skip_ws(s@, p2 + 1)) == nxt as int);
                if spec_cell_elems(s@, nxt as int) is Some {
                    let (rest, pe) = spec_cell_elems(s@, nxt as int)->Some_0;
                    assert(spec_cell_elems(s@, cur as int) == Some((seq![c] + rest, pe)));
                    assert(out@ + (seq![c] + rest) =~= out@.push(c) + rest);
                }
            }
            out.push(c);
            cur = nxt;
        } else if p2 < s.len() && s[p2] == 0x5d {
            proof {
                assert(spec_cell_elems(s@, cur as int) == Some((seq![c], p2 + 1int)));
                assert(out@ + seq![c] =~= out@.push(c));
            }
            out.push(c);
            return Some((out, p2 + 1));
        } else {
            return None;
        }
    }
}

/// Reads the board matrix (an array of rows) at `pos`.
fn rows_at(s: &Vec<u8>, pos: usize) -> (r: Option<(Vec<Vec<u8>>, usize)>)
    requires
        pos <= s@.len(),
    ensures
        match r {
            Some((v, p)) => spec_rows_at(s@, pos as int) == Some((views_of(v@), p as int)) && pos
                < p <= s@.len(),
            None => spec_rows_at(s@, pos as int) is None,
        },
{
    if pos >= s.len() || s[pos] != 0x5b {
        return None;
    }
    let p1 = skip_ws(s, pos + 1);
    if p1 < s.len() && s[p1] == 0x5d {
        let out: Vec<Vec<u8>> = Vec::new();
        assert(views_of(out@) =~= Seq::<Seq<u8>>::empty());
        return Some((out, p1 + 1));
    }
    let ghost start = p1 as int;
    assert(next_pos(s@, pos + 1, p1 as int) == start);
    let mut out: Vec<Vec<u8>> = Vec::new();
    let mut cur = p1;
    proof {
        assert(spec_rows_at(s@, pos as int) == spec_row_elems(s@, start));
        if spec_row_elems(s@, start) is Some {
            let (rest, p) = spec_row_elems(s@, start)->Some_0;
            assert(views_of(out@) =~= Seq::<Seq<u8>>::empty());
            assert(views_of(out@) + rest =~= rest);
        }
    }
    loop
        invariant
            pos + 1 <= cur <= s@.len(),
            match spec_row_elems(s@, cur as int) {
                Some((rest, p)) => spec_rows_at(s@, pos as int) == Some(
                    (views_of(out@) + rest, p),
                ),
                None => spec_rows_at(s@, pos as int) is None,
            },
        decreases s@.len() - cur,
    {
        let (c, p) = match row_at(s, cur) {
            Some(x) => x,
            None => {
                return None;
            },
        };
        let p2 = skip_ws(s, p);
        if p2 < s.len() && s[p2] == 0x2c {
            let nxt = skip_ws(s, p2 + 1);
            proof {
                assert(next_pos(s@, cur + 1, spec_skip_ws(s@, p2 + 1)) == nxt as int);
                if spec_row_elems(s@, nxt as int) is Some {
                    let (rest, pe) = spec_row_elems(s@, nxt as int)->Some_0;
                    assert(spec_row_elems(s@, cur as int) == Some((seq![c@] + rest, pe)));
                    assert(views_of(out@.push(c)) =~= views_of(out@).push(c@));
                    assert(views_of(out@) + (seq![c@] + rest) =~= views_of(out@.push(c)) + rest);
                }
            }
            out.push(c);
            cur = nxt;
        } else if p2 < s.len() && s[p2] == 0x5d {
            proof {
                assert(spec_row_elems(s@, cur as int) == Some((seq![c@], p2 + 1int)));
                assert(views_of(out@.push(c)) =~= views_of(out@).push(c@));
                assert(views_of(out@) + seq![c@] =~= views_of(out@.push(c)));
            }
            out.push(c);
            return Some((out, p2 + 1));
        } else {
            return None;
        }
    }
}

/// Reads one board-reply member and the rest of the reply.
fn board_member(
    s: &Vec<u8>,
    pos: usize,
    colors: Option<Vec<RawColor>>,
    ty: bool,
    rows: Option<Vec<Vec<u8>>>,
) -> (r: Option<(Vec<RawColor>, Vec<Vec<u8>>, usize)>)
    requires
        pos <= s@.len(),
    ensures
        match r {
            Some((cs, rs, p)) => spec_board_member(
                s@,
                pos as int,
                opt_colors_view(&colors),
                ty,
                opt_rows_view(&rows),
            ) == Some(((raw_colors_view(cs@), views_of(rs@)), p as int)) && p <= s@.len(),
            None => spec_board_member(
                s@,
                pos as int,
                opt_colors_view(&colors),
                ty,
                opt_rows_view(&rows),
            ) is None,
        },
    decreases board_unseen(opt_colors_view(&colors), ty, opt_rows_view(&rows)), 0int,
{
    let (key, p1) = match parse_string(s, pos) {
        Some(x) => x,
        None => {
            return None;
        },
    };
    let p2 = skip_ws(s, p1);
    if !(p2 < s.len() && s[p2] == 0x3a) {
        return None;
    }
    let p3 = skip_ws(s, p2 + 1);
    if eq_bytes(&key, "colors".as_bytes()) {
        if colors.is_some() {
            return None;
        }
        match colors_at(s, p3) {
            Some((cs, p4)) => board_after(s, p4, Some(cs), ty, rows),
            None => None,
        }
    } else if eq_bytes(&key, "type".as_bytes()) {
        if ty {
            return None;
        }
        match parse_string(s, p3) {
            Some((_c, p4)) => board_after(s, p4, colors, true, rows),
            None => None,
        }
    } else if eq_bytes(&key, "board".as_bytes()) {
        if rows.is_some() {
            return None;
        }
        match rows_at(s, p3) {
            Some((rs, p4)) => board_after(s, p4, colors, ty, Some(rs)),
            None => None,
        }
    } else {
        None
    }
}

/// Reads what follows one board-reply member.
fn board_after(
    s: &Vec<u8>,
    pos: usize,
    colors: Option<Vec<RawColor>>,
    ty: bool,
    rows: Option<Vec<Vec<u8>>>,
) -> (r: Option<(Vec<RawColor>, Vec<Vec<u8>>, usize)>)
    requires
        pos <= s@.len(),
    ensures
        match r {
            Some((cs, rs, p)) => spec_board_after(
                s@,
                pos as int,
                opt_colors_view(&colors),
                ty,
                opt_rows_view(&rows),
            ) == Some(((raw_colors_view(cs@), views_of(rs@)), p as int)) && p <= s@.len(),
            None => spec_board_after(
                s@,
                pos as int,
                opt_colors_view(&colors),
                ty,
                opt_rows_view(&rows),
            ) is None,
        },
    decreases board_unseen(opt_colors_view(&colors), ty, opt_rows_view(&rows)), 1int,
{
    let p = skip_ws(s, pos);
    if p < s.len() && s[p] == 0x2c {
        let unseen: u32 = (if colors.is_none() {
            1u32
        } else {
            0u32
        }) + (if ty {
            0u32
        } else {
            1u32
        }) + (if rows.is_none() {
            1u32
        } else {
            0u32
        });
        if unseen > 0 {
            let nxt = skip_ws(s, p + 1);
            board_member(s, nxt, colors, ty, rows)
        } else {
            None
        }
    } else if p < s.len() && s[p] == 0x7d {
        match (colors, rows) {
            (Some(cs), Some(rs)) => {
                if ty {
                    Some((cs, rs, p + 1))
                } else {
                    None
                }
            },
            _ => None,
        }
    } else {
        None
    }
}

/// Whether some palette entry's name bytes are not valid UTF-8.
pub open spec fn some_palette_name_invalid(cm: Seq<ColorModel>) -> bool {
    exists|j: int| 0 <= j < cm.len() && !valid_utf8(#[trigger] cm[j].1)
}

/// Reads the whole board reply: the palette and the raw rows of color ids,
/// still in server orientation. `None` exactly when the bytes do not spell
/// the reply's shape, or when some palette name is not valid UTF-8.
#[verifier::loop_isolation(false)]
#[verifier::rlimit(30)]
pub fn parse_board_reply(s: &Vec<u8>) -> (r: Option<(Vec<Color>, Vec<Vec<u8>>)>)
    ensures
        match r {
            Some((colors, rows)) => {
                &&& spec_board_reply(s@) matches Some((cm, rm))
                &&& views_of(rows@) == rm
                &&& colors@.len() == cm.len()
                &&& forall|i: int|
                    0 <= i < cm.len() ==> {
                        &&& (#[trigger] colors@[i]).id == cm[i].0
                        &&& encode_utf8(colors@[i].name@) == cm[i].1
                        &&& colors@[i].red == cm[i].2
                        &&& colors@[i].green == cm[i].3
                        &&& colors@[i].blue == cm[i].4
                    }
            },
            None => match spec_board_reply(s@) {
                Some((cm, rm)) => some_palette_name_invalid(cm),
                None => true,
            },
        },
{
    let p0 = skip_ws(s, 0);
    if !(p0 < s.len() && s[p0] == 0x7b) {
        return None;
    }
    let p1 = skip_ws(s, p0 + 1);
    let (raw_colors, rows, p2) = match board_member(s, p1, None, false, None) {
        Some(x) => x,
        None => {
            return None;
        },
    };
    let pe = skip_ws(s, p2);
    if pe != s.len() {
        return None;
    }
    let ghost cm = raw_colors_view(raw_colors@);
    let ghost rm = views_of(rows@);
    proof {
        assert(cm.len() == raw_colors@.len());
        assert(spec_board_reply(s@) == Some((cm, rm)));
    }
    let mut raw = raw_colors;
    let n_colors = raw.len();
    assert(cm.len() == n_colors);
    let mut colors: Vec<Color> = Vec::new();
    let mut i: usize = 0;
    proof {
        assert(raw_colors_view(raw@) =~= cm.subrange(0, cm.len() as int));
    }
    while raw.len() > 0
        invariant
            spec_board_reply(s@) == Some((cm, rm)),
            i + raw@.len() == cm.len(),
            raw_colors_view(raw@) == cm.subrange(i as int, cm.len() as int),
            colors@.len() == i,
            forall|k: int|
                0 <= k < i ==> {
                    &&& (#[trigger] colors@[k]).id == cm[k].0
                    &&& encode_utf8(colors@[k].name@) == cm[k].1
                    &&& colors@[k].red == cm[k].2
                    &&& colors@[k].green == cm[k].3
                    &&& colors@[k].blue == cm[k].4
                },
        decreases raw@.len(),
    {
        let ghost prev = raw@;
        proof {
            assert(raw_colors_view(prev)[0] == raw_color_view(prev[0]));
            assert(raw_colors_view(prev)[0] == cm[i as int]);
        }
        let (id, name_bytes, red, green, blue) = raw.remove(0);
        proof {
            assert(raw@ =~= prev.subrange(1, prev.len() as int));
            assert(raw_colors_view(raw@) =~= cm.subrange(i + 1, cm.len() as int)) by {
                assert forall|k: int| 0 <= k < raw@.len() implies raw_colors_view(raw@)[k] == cm[i
                    + 1 + k] by {
                    assert(raw_colors_view(raw@)[k] == raw_color_view(raw@[k]));
                    assert(raw@[k] == prev[k + 1]);
                    assert(raw_color_view(prev[k + 1]) == raw_colors_view(prev)[k + 1]);
                }
            }
        }
        let ghost nb = name_bytes@;
        let name = match string_from_utf8(name_bytes) {
            Some(n) => n,
            None => {
                proof {
                    assert(cm[i as int].1 == nb);
                    assert(some_palette_name_invalid(cm)) by {
                        assert((i as int) < cm.len() && !valid_utf8(cm[i as int].1));
                    }
                }
                return None;
            },
        };
        colors.push(Color { id, name, red, green, blue });
        i += 1;
    }
    Some((colors, rows))
}

} // verus!

use vstd::prelude::*;
use vstd::string::StringSliceAdditionalSpecFns;

use crate::json::eq_bytes;
use crate::json::is_null_at;
use crate::json::next_pos;
use crate::json::null_at;
use crate::json::parse_string;
use crate::json::skip_ws;
use crate::json::spec_parse_string;
use crate::json::spec_skip_ws;
use crate::json::views_of;

verus! {

// Reader for the placement reply: a JSON object with a required `timers`
// field (an array of timestamp strings) and an optional `message` field
// (a string or null). Anything else is malformed. The message is
// discriminated structurally here, so no caller matches on free-form text.

/// What the reply's `message` field said.
#[derive(PartialEq, Eq, Structural, Clone, Copy, Debug)]
pub enum ReplyMessage {
    /// No message (absent or null).
    Missing,
    /// The distinguished rate-limit message.
    TooEarly,
    /// Any other message.
    Other,
}

/// The parsed placement reply.
#[derive(Debug)]
pub struct TimerReply {
    pub timers: Vec<Vec<u8>>,
    pub message: ReplyMessage,
}

impl View for TimerReply {
    type V = (Seq<Seq<u8>>, ReplyMessage);

    open spec fn view(&self) -> (Seq<Seq<u8>>, ReplyMessage) {
        (views_of(self.timers@), self.message)
    }
}

/// The JSON array of strings at `pos`: its decoded elements and the index
/// just past the closing bracket.
pub open spec fn spec_string_array(s: Seq<u8>, pos: int) -> Option<(Seq<Seq<u8>>, int)> {
    if 0 <= pos < s.len() && s[pos] == 0x5b {
        let p1 = spec_skip_ws(s, pos + 1);
        if 0 <= p1 < s.len() && s[p1] == 0x5d {
            Some((Seq::empty(), p1 + 1))
        } else {
            spec_string_elems(s, next_pos(s, pos + 1, p1))
        }
    } else {
        None
    }
}

/// One or more comma-separated string elements starting at `pos`, up to and
/// including the closing bracket.
pub open spec fn spec_string_elems(s: Seq<u8>, pos: int) -> Option<(Seq<Seq<u8>>, int)>
    decreases s.len() - pos,
{
    match spec_parse_string(s, pos) {
        None => None,
        Some((c, p)) => {
            let p1 = spec_skip_ws(s, p);
            if 0 <= p1 < s.len() && s[p1] == 0x2c {
                match spec_string_elems(s, next_pos(s, pos + 1, spec_skip_ws(s, p1 + 1))) {
                    Some((rest, p2)) => Some((seq![c] + rest, p2)),
                    None => None,
                }
            } else if 0 <= p1 < s.len() && s[p1] == 0x5d {
                Some((seq![c], p1 + 1))
            } else {
                None
            }
        },
    }
}

/// Reads the JSON array of strings at `pos`.
pub fn parse_string_array(s: &Vec<u8>, pos: usize) -> (r: Option<(Vec<Vec<u8>>, usize)>)
    requires
        pos <= s@.len(),
    ensures
        match r {
            Some((v, p)) => spec_string_array(s@, pos as int) == Some((views_of(v@), p as int))
                && pos < p <= s@.len(),
            None => spec_string_array(s@, pos as int) is None,
        },
{
    if pos >= s.len() || s[pos] != 0x5b {
        return None;
    }
    let p1 = skip_ws(s, pos + 1);
    if p1 < s.len() && s[p1] == 0x5d {
        let out: Vec<Vec<u8>> = Vec::new();
        assert(views_of(out@) =~= Seq::<Seq<u8>>::empty());
        return Some((out, p1 + 1));
    }
    let ghost start = p1 as int;
    assert(next_pos(s@, pos + 1, p1 as int) == start);
    let mut out: Vec<Vec<u8>> = Vec::new();
    let mut cur = p1;
    proof {
        assert(spec_string_array(s@, pos as int) == spec_string_elems(s@, start));
        if spec_string_elems(s@, start) is Some {
            let (rest, p) = spec_string_elems(s@, start)->Some_0;
            assert(views_of(out@) =~= Seq::<Seq<u8>>::empty());
            assert(views_of(out@) + rest =~= rest);
        }
    }
    loop
        invariant
            pos + 1 <= cur <= s@.len(),
            pos < s@.len(),
            match spec_string_elems(s@, cur as int) {
                Some((rest, p)) => spec_string_array(s@, pos as int) == Some(
                    (views_of(out@) + rest, p),
                ),
                None => spec_string_array(s@, pos as int) is None,
            },
        decreases s@.len() - cur,
    {
        let (c, p) = match parse_string(s, cur) {
            Some(x) => x,
            None => {
                return None;
            },
        };
        let p2 = skip_ws(s, p);
        if p2 < s.len() && s[p2] == 0x2c {
            let nxt = skip_ws(s, p2 + 1);
            proof {
                assert(next_pos(s@, cur + 1, spec_skip_ws(s@, p2 + 1)) == nxt as int);
                if spec_string_elems(s@, nxt as int) is Some {
                    let (rest, pe) = spec_string_elems(s@, nxt as int)->Some_0;
                    assert(spec_string_elems(s@, cur as int) == Some((seq![c@] + rest, pe)));
                    assert(views_of(out@.push(c)) =~= views_of(out@).push(c@));
                    assert(views_of(out@) + (seq![c@] + rest) =~= views_of(out@.push(c)) + rest);
                }
            }
            out.push(c);
            cur = nxt;
        } else if p2 < s.len() && s[p2] == 0x5d {
            proof {
                assert(spec_string_elems(s@, cur as int) == Some((seq![c@], p2 + 1int)));
                assert(views_of(out@.push(c)) =~= views_of(out@).push(c@));
                assert(views_of(out@) + seq![c@] =~= views_of(out@.push(c)));
            }
            out.push(c);
            return Some((out, p2 + 1));
        } else {
            return None;
        }
    }
}

/// How many of the reply's two known fields are still unseen.
pub open spec fn tr_unseen(timers: Option<Seq<Seq<u8>>>, msg: Option<ReplyMessage>) -> int {
    (if timers is None {
        1int
    } else {
        0int
    }) + (if msg is None {
        1int
    } else {
        0int
    })
}

/// The reply's message once the object is closed: an absent field reads as
/// no message.
pub open spec fn tr_final_msg(msg: Option<ReplyMessage>) -> ReplyMessage {
    match msg {
        Some(m) => m,
        None => ReplyMessage::Missing,
    }
}

/// One object member at `pos` (a key, a colon and a value), followed by the
/// rest of the object. Each known key may appear once; an unknown key is
/// malformed.
pub open spec fn spec_tr_member(
    s: Seq<u8>,
    pos: int,
    timers: Option<Seq<Seq<u8>>>,
    msg: Option<ReplyMessage>,
) -> Option<(Seq<Seq<u8>>, ReplyMessage, int)>
    decreases tr_unseen(timers, msg), 0int,
{
    match spec_parse_string(s, pos) {
        None => None,
        Some((key, p1)) => {
            let p2 = spec_skip_ws(s, p1);
            if !(0 <= p2 < s.len() && s[p2] == 0x3a) {
                None
            } else {
                let p3 = spec_skip_ws(s, p2 + 1);
                if key == ("timers").spec_bytes() {
                    if timers is Some {
                        None
                    } else {
                        match spec_string_array(s, p3) {
                            None => None,
                            Some((arr, p4)) => spec_tr_after(s, p4, Some(arr), msg),
                        }
                    }
                } else if key == ("message").spec_bytes() {
                    if msg is Some {
                        None
                    } else {
                        match spec_parse_string(s, p3) {
                            Some((c, p4)) => spec_tr_after(
                                s,
                                p4,
                                timers,
                                Some(
                                    if c == ("Too early").spec_bytes() {
                                        ReplyMessage::TooEarly
                                    } else {
                                        ReplyMessage::Other
                                    },
                                ),
                            ),
                            None => if is_null_at(s, p3) {
                                spec_tr_after(s, p3 + 4, timers, Some(ReplyMessage::Missing))
                            } else {
                                None
                            },
                        }
                    }
                } else {
                    None
                }
            }
        },
    }
}

/// After one member: either a comma and a further member, or the closing
/// brace, which requires the `timers` field to have been seen.
pub open spec fn spec_tr_after(
    s: Seq<u8>,
    pos: int,
    timers: Option<Seq<Seq<u8>>>,
    msg: Option<ReplyMessage>,
) -> Option<(Seq<Seq<u8>>, ReplyMessage, int)>
    decreases tr_unseen(timers, msg), 1int,
{
    let p = spec_skip_ws(s, pos);
    if 0 <= p < s.len() && s[p] == 0x2c {
        if tr_unseen(timers, msg) > 0 {
            spec_tr_member(s, spec_skip_ws(s, p + 1), timers, msg)
        } else {
            None
        }
    } else if 0 <= p < s.len() && s[p] == 0x7d {
        match timers {
            Some(t) => Some((t, tr_final_msg(msg), p + 1)),
            None => None,
        }
    } else {
        None
    }
}

/// The whole placement reply carried by `s`: its timer strings and its
/// structured message. `None` exactly when the bytes do not spell an object
/// of the reply's shape (with nothing but whitespace around it).
pub open spec fn spec_timer_reply(s: Seq<u8>) -> Option<(Seq<Seq<u8>>, ReplyMessage)> {
    let p0 = spec_skip_ws(s, 0);
    if 0 <= p0 < s.len() && s[p0] == 0x7b {
        let p1 = spec_skip_ws(s, p0 + 1);
        match spec_tr_member(s, p1, None, None) {
            None => None,
            Some((t, m, p2)) => {
                if spec_skip_ws(s, p2) == s.len() {
                    Some((t, m))
                } else {
                    None
                }
            },
        }
    } else {
        None
    }
}

/// Reads one reply member and the rest of the object.
fn tr_member(s: &Vec<u8>, pos: usize, timers: Option<Vec<Vec<u8>>>, msg: Option<ReplyMessage>) -> (r:
    Option<(Vec<Vec<u8>>, ReplyMessage, usize)>)
    requires
        pos <= s@.len(),
    ensures
        match r {
            Some((t, m, p)) => spec_tr_member(s@, pos as int, opt_views(&timers), msg) == Some(
                (views_of(t@), m, p as int),
            ) && p <= s@.len(),
            None => spec_tr_member(s@, pos as int, opt_views(&timers), msg) is None,
        },
    decreases tr_unseen(opt_views(&timers), msg), 0int,
{
    let (key, p1) = match parse_string(s, pos) {
        Some(x) => x,
        None => {
            return None;
        },
    };
    let p2 = skip_ws(s, p1);
    if !(p2 < s.len() && s[p2] == 0x3a) {
        return None;
    }
    let p3 = skip_ws(s, p2 + 1);
    if eq_bytes(&key, "timers".as_bytes()) {
        if timers.is_some() {
            return None;
        }
        match parse_string_array(s, p3) {
            None => None,
            Some((arr, p4)) => tr_after(s, p4, Some(arr), msg),
        }
    } else if eq_bytes(&key, "message".as_bytes()) {
        if msg.is_some() {
            return None;
        }
        match parse_string(s, p3) {
            Some((c, p4)) => {
                let m = if eq_bytes(&c, "Too early".as_bytes()) {
                    ReplyMessage::TooEarly
                } else {
                    ReplyMessage::Other
                };
                tr_after(s, p4, timers, Some(m))
            },
            None => {
                if null_at(s, p3) {
                    tr_after(s, p3 + 4, timers, Some(ReplyMessage::Missing))
                } else {
                    None
                }
            },
        }
    } else {
        None
    }
}

/// Reads what follows one reply member.
fn tr_after(s: &Vec<u8>, pos: usize, timers: Option<Vec<Vec<u8>>>, msg: Option<ReplyMessage>) -> (r:
    Option<(Vec<Vec<u8>>, ReplyMessage, usize)>)
    requires
        pos <= s@.len(),
    ensures
        match r {
            Some((t, m, p)) => spec_tr_after(s@, pos as int, opt_views(&timers), msg) == Some(
                (views_of(t@), m, p as int),
            ) && p <= s@.len(),
            None => spec_tr_after(s@, pos as int, opt_views(&timers), msg) is None,
        },
    decreases tr_unseen(opt_views(&timers), msg), 1int,
{
    let p = skip_ws(s, pos);
    if p < s.len() && s[p] == 0x2c {
        let unseen = (if timers.is_none() {
            1u32
        } else {
            0u32
        }) + (if msg.is_none() {
            1u32
        } else {
            0u32
        });
        if unseen > 0 {
            let nxt = skip_ws(s, p + 1);
            tr_member(s, nxt, timers, msg)
        } else {
            None
        }
    } else if p < s.len() && s[p] == 0x7d {
        match timers {
            Some(t) => {
                let m = match msg {
                    Some(m0) => m0,
                    None => ReplyMessage::Missing,
                };
                Some((t, m, p + 1))
            },
            None => None,
        }
    } else {
        None
    }
}

/// The model of an optional list of byte vectors.
pub open spec fn opt_views(t: &Option<Vec<Vec<u8>>>) -> Option<Seq<Seq<u8>>> {
    match t {
        Some(v) => Some(views_of(v@)),
        None => None,
    }
}

/// Reads the placement reply carried by `s`: the server's timer strings and
/// its structured message.
pub fn parse_timer_reply(s: &Vec<u8>) -> (r: Option<TimerReply>)
    ensures
        match r {
            Some(tr) => spec_timer_reply(s@) == Some(tr@),
            None => spec_timer_reply(s@) is None,
        },
{
    let p0 = skip_ws(s, 0);
    if !(p0 < s.len() && s[p0] == 0x7b) {
        return None;
    }
    let p1 = skip_ws(s, p0 + 1);
    match tr_member(s, p1, None, None) {
        None => None,
        Some((t, m, p2)) => {
            let pe = skip_ws(s, p2);
            if pe == s.len() {
                Some(TimerReply { timers: t, message: m })
            } else {
                None
            }
        },
    }
}

} // verus!

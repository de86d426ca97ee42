use vstd::prelude::*;
use vstd::slice::slice_subrange;
use vstd::slice::slice_to_vec;
use vstd::utf8::encode_utf8;
use vstd::utf8::valid_utf8;

use crate::config::MAX_PLACEMENT_RETRIES;
use crate::cooldown::calculate_wait_interval;
use crate::cooldown::spec_wait_secs;
use crate::json::string_from_utf8;
use crate::json::views_of;
use crate::reconcile::Target;
use crate::wire::ReplyMessage;
use crate::wire::parse_timer_reply;
use crate::wire::spec_timer_reply;

verus! {

// The pixel placer: interprets one placement response, refreshes the
// session credentials in place on an expiry reply, and drives a bounded
// per-cell retry machine. It never touches the network itself; the caller
// hands it the status, headers and body of each attempt.

/// The current session credentials. One shared pair per run, overwritten
/// in place when the server signals expiry.
#[derive(Debug, Clone)]
pub struct Auth {
    pub refresh_token: String,
    pub token: String,
}

/// What one placement attempt came to.
#[derive(Debug, Clone, Copy, PartialEq, Eq)]
pub enum PlaceOutcome {
    /// The pixel was accepted; the server may name the next allowed
    /// instant, already turned into a wait in seconds.
    Placed { cooldown: Option<u64> },
    /// The credentials expired; they have been replaced and the same pixel
    /// must be sent again.
    NeedsRefresh,
    /// The shared cooldown has not elapsed; wait this many seconds.
    RateLimited { cooldown: u64 },
    /// Any other failure; the cell may be retried a bounded number of
    /// times.
    Rejected,
}

/// Index of the first semicolon in a cookie entry, or its length.
pub open spec fn first_semi(c: Seq<u8>) -> int
    decreases c.len(),
{
    if c.len() == 0 {
        0
    } else if c[0] == 0x3b {
        0
    } else {
        1 + first_semi(c.skip(1))
    }
}

/// The scan that finds the first semicolon: any index bounding a
/// semicolon-free prefix, and holding one if interior, is that first index.
pub proof fn lemma_first_semi_is(c: Seq<u8>, i: int)
    requires
        0 <= i <= c.len(),
        forall|k: int| 0 <= k < i ==> c[k] != 0x3b,
        i < c.len() ==> c[i] == 0x3b,
    ensures
        first_semi(c) == i,
    decreases c.len(),
{
    if c.len() > 0 && c[0] != 0x3b {
        assert(i >= 1);
        assert forall|k: int| 0 <= k < i - 1 implies c.skip(1)[k] != 0x3b by {
            assert(c.skip(1)[k] == c[k + 1]);
        }
        if i - 1 < c.skip(1).len() {
            assert(c.skip(1)[i - 1] == c[i]);
        }
        lemma_first_semi_is(c.skip(1), i - 1);
    }
}

/// The value a cookie entry assigns to the given key, when its first
/// `;`-separated field reads `key=value`.
pub open spec fn cookie_value(c: Seq<u8>, key: Seq<u8>) -> Option<Seq<u8>> {
    let field = c.take(first_semi(c));
    if field.len() >= key.len() && field.take(key.len() as int) == key {
        Some(field.skip(key.len() as int))
    } else {
        None
    }
}

/// The bytes of the `token=` key.
pub open spec fn token_key() -> Seq<u8> {
    seq![0x74u8, 0x6f, 0x6b, 0x65, 0x6e, 0x3d]
}

/// The bytes of the `refresh=` key.
pub open spec fn refresh_key() -> Seq<u8> {
    seq![0x72u8, 0x65, 0x66, 0x72, 0x65, 0x73, 0x68, 0x3d]
}

/// The credential a run of cookie entries leaves for the given key: the
/// last well-formed assignment wins; entries whose value is not valid
/// UTF-8, and entries for other keys, change nothing.
pub open spec fn spec_credential(cookies: Seq<Seq<u8>>, key: Seq<u8>, cur: Seq<u8>) -> Seq<u8>
    decreases cookies.len(),
{
    if cookies.len() == 0 {
        cur
    } else {
        let prev = spec_credential(cookies.drop_last(), key, cur);
        match cookie_value(cookies.last(), key) {
            Some(v) => if valid_utf8(v) {
                v
            } else {
                prev
            },
            None => prev,
        }
    }
}

/// Reads the value the cookie entry assigns to `key`, as a string.
fn cookie_value_str(c: &Vec<u8>, key: &[u8]) -> (r: Option<String>)
    ensures
        match r {
            Some(s) => cookie_value(c@, key@) matches Some(v) && valid_utf8(v) && encode_utf8(s@)
                == v,
            None => match cookie_value(c@, key@) {
                Some(v) => !valid_utf8(v),
                None => true,
            },
        },
{
    let mut semi: usize = 0;
    while semi < c.len() && c[semi] != 0x3b
        invariant
            semi <= c@.len(),
            forall|k: int| 0 <= k < semi ==> c@[k] != 0x3b,
        decreases c@.len() - semi,
    {
        semi += 1;
    }
    proof {
        lemma_first_semi_is(c@, semi as int);
    }
    let ghost field = c@.take(first_semi(c@));
    if semi < key.len() {
        proof {
            assert(field.len() < key@.len());
        }
        return None;
    }
    let mut k: usize = 0;
    while k < key.len()
        invariant
            key@.len() <= semi <= c@.len(),
            first_semi(c@) == semi as int,
            field == c@.take(semi as int),
            k <= key@.len(),
            forall|j: int| 0 <= j < k ==> c@[j] == key@[j],
        decreases key@.len() - k,
    {
        if c[k] != key[k] {
            proof {
                assert(field.take(key@.len() as int)[k as int] != key@[k as int]);
            }
            return None;
        }
        k += 1;
    }
    proof {
        assert(field.take(key@.len() as int) =~= key@);
    }
    let value_slice: &[u8] = slice_subrange(c.as_slice(), key.len(), semi);
    let value: Vec<u8> = slice_to_vec(value_slice);
    proof {
        assert(value@ =~= field.skip(key@.len() as int));
    }
    string_from_utf8(value)
}

/// Overwrites the credential pair in place from the expiry reply's cookie
/// entries: the last `token=` and `refresh=` assignments win, and a missing
/// assignment leaves the old value standing.
pub fn refresh_credentials(auth: &mut Auth, cookies: &Vec<Vec<u8>>)
    ensures
        encode_utf8(final(auth).token@) == spec_credential(
            views_of(cookies@),
            token_key(),
            encode_utf8(old(auth).token@),
        ),
        encode_utf8(final(auth).refresh_token@) == spec_credential(
            views_of(cookies@),
            refresh_key(),
            encode_utf8(old(auth).refresh_token@),
        ),
{
    let ghost cv = views_of(cookies@);
    let ghost tok0 = encode_utf8(auth.token@);
    let ghost ref0 = encode_utf8(auth.refresh_token@);
    let token_key_bytes: [u8; 6] = [0x74, 0x6f, 0x6b, 0x65, 0x6e, 0x3d];
    let refresh_key_bytes: [u8; 8] = [0x72, 0x65, 0x66, 0x72, 0x65, 0x73, 0x68, 0x3d];
    proof {
        assert(token_key_bytes@ =~= token_key());
        assert(refresh_key_bytes@ =~= refresh_key());
        assert(cv.take(0) =~= Seq::<Seq<u8>>::empty());
    }
    let mut i: usize = 0;
    while i < cookies.len()
        invariant
            i <= cookies@.len(),
            cv == views_of(cookies@),
            tok0 == encode_utf8(old(auth).token@),
            ref0 == encode_utf8(old(auth).refresh_token@),
            token_key_bytes@ == token_key(),
            refresh_key_bytes@ == refresh_key(),
            encode_utf8(auth.token@) == spec_credential(cv.take(i as int), token_key(), tok0),
            encode_utf8(auth.refresh_token@) == spec_credential(
                cv.take(i as int),
                refresh_key(),
                ref0,
            ),
        decreases cookies@.len() - i,
    {
        proof {
            assert(cv.take(i + 1).drop_last() =~= cv.take(i as int));
            assert(cv.take(i + 1).last() == cv[i as int]);
            assert(cv[i as int] == cookies@[i as int]@);
        }
        match cookie_value_str(&cookies[i], &token_key_bytes) {
            Some(t) => {
                auth.token = t;
            },
            None => {},
        }
        match cookie_value_str(&cookies[i], &refresh_key_bytes) {
            Some(t) => {
                auth.refresh_token = t;
            },
            None => {},
        }
        i += 1;
    }
    proof {
        assert(cv.take(cookies@.len() as int) =~= cv);
    }
}

/// A successful HTTP status.
pub open spec fn is_success(status: u16) -> bool {
    200 <= status < 300
}

/// What one placement response means, per the response contract: 426 is a
/// credential expiry; another non-success status is a rate limit exactly
/// when the reply's message reads as the distinguished rate-limit message,
/// and a hard rejection otherwise; a success stands on its own, carrying a
/// wait whenever the reply names any timers.
pub open spec fn spec_outcome(status: u16, body: Seq<u8>, now_ms: i64) -> PlaceOutcome {
    if status == 426 {
        PlaceOutcome::NeedsRefresh
    } else if !is_success(status) {
        match spec_timer_reply(body) {
            Some((timers, msg)) => if msg == ReplyMessage::TooEarly {
                PlaceOutcome::RateLimited { cooldown: spec_wait_secs(timers, now_ms) }
            } else {
                PlaceOutcome::Rejected
            },
            None => PlaceOutcome::Rejected,
        }
    } else {
        match spec_timer_reply(body) {
            Some((timers, _)) => if timers.len() > 0 {
                PlaceOutcome::Placed { cooldown: Some(spec_wait_secs(timers, now_ms)) }
            } else {
                PlaceOutcome::Placed { cooldown: None }
            },
            None => PlaceOutcome::Placed { cooldown: None },
        }
    }
}

/// Interprets one placement response. On the expiry status the credential
/// pair is rewritten in place from the response's cookie entries; on every
/// other status it is left alone. The returned outcome follows
/// `spec_outcome`; `now_ms` anchors any cooldown computation.
pub fn interpret_response(
    status: u16,
    cookies: &Vec<Vec<u8>>,
    body: &Vec<u8>,
    now_ms: i64,
    auth: &mut Auth,
) -> (r: PlaceOutcome)
    ensures
        r == spec_outcome(status, body@, now_ms),
        status == 426 ==> {
            &&& encode_utf8(final(auth).token@) == spec_credential(
                views_of(cookies@),
                token_key(),
                encode_utf8(old(auth).token@),
            )
            &&& encode_utf8(final(auth).refresh_token@) == spec_credential(
                views_of(cookies@),
                refresh_key(),
                encode_utf8(old(auth).refresh_token@),
            )
        },
        status != 426 ==> *final(auth) == *old(auth),
{
    if status == 426 {
        refresh_credentials(auth, cookies);
        return PlaceOutcome::NeedsRefresh;
    }
    if !(200 <= status && status < 300) {
        match parse_timer_reply(body) {
            Some(reply) => {
                if reply.message == ReplyMessage::TooEarly {
                    let wait = calculate_wait_interval(&reply.timers, now_ms);
                    return PlaceOutcome::RateLimited { cooldown: wait };
                }
                return PlaceOutcome::Rejected;
            },
            None => {
                return PlaceOutcome::Rejected;
            },
        }
    }
    match parse_timer_reply(body) {
        Some(reply) => {
            if reply.timers.len() > 0 {
                let wait = calculate_wait_interval(&reply.timers, now_ms);
                PlaceOutcome::Placed { cooldown: Some(wait) }
            } else {
                PlaceOutcome::Placed { cooldown: None }
            }
        },
        None => PlaceOutcome::Placed { cooldown: None },
    }
}

/// Where one cell's placement stands.
#[derive(Debug, Clone, Copy, PartialEq, Eq)]
pub enum CellState {
    /// The cell still needs a placement attempt.
    Pending,
    /// The cell is settled for this cycle, placed or abandoned, with the
    /// tightest cooldown it observed.
    Done { placed: bool, cooldown: Option<u64> },
}

/// The bounded retry machine for one cell: a target, how many failed
/// attempts it has cost, and where it stands.
#[derive(Debug, Clone, Copy)]
pub struct CellPlacement {
    pub target: Target,
    pub retries: u32,
    pub state: CellState,
}

/// The machine's one transition: an accepted pixel or a rate limit settles
/// the cell; a credential expiry changes nothing but the credentials, so
/// the same cell is sent again with no retry spent; a rejection costs one
/// retry and abandons the cell at the bound.
pub open spec fn spec_cell_step(c: CellPlacement, o: PlaceOutcome) -> CellPlacement {
    match o {
        PlaceOutcome::Placed { cooldown } => CellPlacement {
            state: CellState::Done { placed: true, cooldown },
            ..c
        },
        PlaceOutcome::NeedsRefresh => c,
        PlaceOutcome::RateLimited { cooldown } => CellPlacement {
            state: CellState::Done { placed: false, cooldown: Some(cooldown) },
            ..c
        },
        PlaceOutcome::Rejected => {
            if c.retries + 1 < MAX_PLACEMENT_RETRIES {
                CellPlacement { retries: (c.retries + 1) as u32, ..c }
            } else {
                CellPlacement {
                    retries: MAX_PLACEMENT_RETRIES,
                    state: CellState::Done { placed: false, cooldown: None },
                    ..c
                }
            }
        },
    }
}

impl CellPlacement {
    /// The retry counter never passes its bound.
    pub open spec fn wf(&self) -> bool {
        self.retries <= MAX_PLACEMENT_RETRIES
    }

    /// Starts the machine for one target cell.
    pub fn start(target: Target) -> (r: CellPlacement)
        ensures
            r.target == target,
            r.retries == 0,
            r.state == CellState::Pending,
            r.wf(),
    {
        CellPlacement { target, retries: 0, state: CellState::Pending }
    }

    /// Feeds one placement outcome to the machine.
    pub fn on_outcome(&mut self, outcome: &PlaceOutcome)
        requires
            old(self).state == CellState::Pending,
            old(self).wf(),
        ensures
            *final(self) == spec_cell_step(*old(self), *outcome),
            final(self).wf(),
    {
        match outcome {
            PlaceOutcome::Placed { cooldown } => {
                self.state = CellState::Done { placed: true, cooldown: *cooldown };
            },
            PlaceOutcome::NeedsRefresh => {},
            PlaceOutcome::RateLimited { cooldown } => {
                self.state = CellState::Done { placed: false, cooldown: Some(*cooldown) };
            },
            PlaceOutcome::Rejected => {
                if self.retries + 1 < MAX_PLACEMENT_RETRIES {
                    self.retries = self.retries + 1;
                } else {
                    self.retries = MAX_PLACEMENT_RETRIES;
                    self.state = CellState::Done { placed: false, cooldown: None };
                }
            },
        }
    }
}

/// Law: credential refresh is transparent. A pending cell that receives
/// one expiry outcome and then an accepted placement ends placed, and the
/// expiry round-trip neither spends a retry nor settles the cell early.
pub proof fn lemma_refresh_transparency(c: CellPlacement, cooldown: Option<u64>)
    requires
        c.state == CellState::Pending,
        c.wf(),
    ensures
        ({
            let after_refresh = spec_cell_step(c, PlaceOutcome::NeedsRefresh);
            let done = spec_cell_step(after_refresh, PlaceOutcome::Placed { cooldown });
            &&& after_refresh.state == CellState::Pending
            &&& after_refresh.retries == c.retries
            &&& done.state == (CellState::Done { placed: true, cooldown })
            &&& done.retries == c.retries
        }),
{
}

} // verus!

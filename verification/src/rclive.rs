//! The live reader core: decodes one brace-delimited, comma-separated wire
//! frame into a normalized update. The network itself stays with the caller:
//! it hands in the datagram text of one receive, or nothing on a receive
//! timeout, which yields an empty update. A malformed frame or field never
//! stops the reader; what cannot be decoded is skipped and the frame's text
//! is kept under the `unknown` diagnostic category.

use vstd::prelude::*;
use crate::xspaces::{XSpaces, in_lim};
use crate::tokens::{TokCfg, peelable, peeled, tokens_spec, peel_bracket, tokens_vec};
use crate::strutil::{trim_spec, has_prefix, contains_char, first_occ, trim_chars, str_chars,
    starts_with_chars, chars_eq, split_once_char, lemma_toks_deep_view};
use crate::numparse::{u64_grammar, digits_val, dec_micro_val, parse_u64};
use crate::playdata::{PositionsUpdate, PuModel, MsgsModel};
use crate::rcg::{pitch_spaces, coord_ok, norm_x, norm_y, parse_coord, PITCH_X0, PITCH_Y0,
    PITCH_X1, PITCH_Y1, UNIT_0, UNIT_1};

verus! {

/// Nominal cadence of the wire protocol: seconds per record, in millionths.
pub const LIVE_SECONDS_PER_RECORD: i64 = 50_000;

/// Tokenizer configuration of the wire format.
pub open spec fn live_cfg() -> TokCfg {
    TokCfg { bracket_begin: '{', bracket_end: '}', quote: '^', string_subpart: true }
}

/// `s` without trailing occurrences of `c`.
pub open spec fn drop_trailing(s: Seq<char>, c: char) -> Seq<char>
    decreases s.len(),
{
    if s.len() > 0 && s.last() == c {
        drop_trailing(s.drop_last(), c)
    } else {
        s
    }
}

/// Strip trailing occurrences of `c`.
pub fn trim_trailing_char(v: &[char], c: char) -> (r: Vec<char>)
    ensures
        r@ == drop_trailing(v@, c),
{
    let n = v.len();
    let mut j: usize = n;
    proof {
        assert(v@.take(n as int) =~= v@);
    }
    while j > 0 && v[j - 1] == c
        invariant
            j <= n,
            n == v@.len(),
            drop_trailing(v@, c) == drop_trailing(v@.take(j as int), c),
        decreases j,
    {
        proof {
            assert(v@.take(j as int).drop_last() =~= v@.take(j as int - 1));
        }
        j = j - 1;
    }
    proof {
        assert(drop_trailing(v@.take(j as int), c) =~= v@.take(j as int));
    }
    crate::strutil::slice_range_vec(v, 0, j)
}

/// The key of a colon-separated pair.
pub open spec fn kv_key(kv: Seq<char>) -> Seq<char> {
    kv.take(first_occ(kv, ':'))
}

/// The value of a colon-separated pair.
pub open spec fn kv_val(kv: Seq<char>) -> Seq<char> {
    kv.skip(first_occ(kv, ':') + 1)
}

/// Effect of one ball pair on the running coordinates: a parsable `x` or
/// `y` value replaces its side; anything else changes nothing.
pub open spec fn ball_step(kv: Seq<char>, cur: (int, int)) -> (int, int) {
    if !contains_char(kv, ':') {
        cur
    } else {
        let key = kv_key(kv);
        let v = kv_val(kv);
        let cx = if key == "\"x\""@ && coord_ok(v) {
            (dec_micro_val(v), cur.1)
        } else {
            cur
        };
        if key == "\"y\""@ && coord_ok(v) {
            (cx.0, dec_micro_val(v))
        } else {
            cx
        }
    }
}

/// Fold of a ball object's pairs: the last parsable `x` and `y` values win;
/// a missing or unparsable coordinate keeps its running value.
pub open spec fn ball_xy(kvs: Seq<Seq<char>>, k: int, cur: (int, int)) -> (int, int)
    decreases kvs.len() - k,
{
    if k < 0 || k >= kvs.len() {
        cur
    } else {
        ball_xy(kvs, k + 1, ball_step(kvs[k], cur))
    }
}

/// Running decode state of one player object.
pub struct LivePlayer {
    pub side: Seq<char>,
    pub num: int,
    pub x: int,
    pub y: int,
}

/// Effect of one player pair on the running decode state: a side pair
/// replaces the side text; a parsable number or coordinate replaces its
/// field; anything else changes nothing.
pub open spec fn player_step(kv: Seq<char>, st: LivePlayer) -> LivePlayer {
    if !contains_char(kv, ':') {
        st
    } else {
        let key = kv_key(kv);
        let v = kv_val(kv);
        let s1 = if key == "\"side\""@ {
            LivePlayer { side: v, ..st }
        } else {
            st
        };
        let s2 = if key == "\"unum\""@ && u64_grammar(v) && digits_val(v) <= 0x7fff_ffff {
            LivePlayer { num: digits_val(v), ..s1 }
        } else {
            s1
        };
        let s3 = if key == "\"x\""@ && coord_ok(v) {
            LivePlayer { x: dec_micro_val(v), ..s2 }
        } else {
            s2
        };
        if key == "\"y\""@ && coord_ok(v) {
            LivePlayer { y: dec_micro_val(v), ..s3 }
        } else {
            s3
        }
    }
}

/// Fold of a player object's pairs: side text, in-team number and the two
/// coordinates, each kept at its running value when a pair is missing or
/// unparsable.
pub open spec fn player_fold(kvs: Seq<Seq<char>>, k: int, st: LivePlayer) -> LivePlayer
    decreases kvs.len() - k,
{
    if k < 0 || k >= kvs.len() {
        st
    } else {
        player_fold(kvs, k + 1, player_step(kvs[k], st))
    }
}

/// The starting state of a player decode: empty side, number and position
/// zero.
pub open spec fn player_start() -> LivePlayer {
    LivePlayer { side: Seq::empty(), num: 0, x: 0, y: 0 }
}

/// Effect of one player object on the update: the object is read as pairs;
/// a side whose second character is `l` routes the entry to team A, any
/// other side of at least two characters to team B; a shorter side text
/// drops the entry. The stored index is the decoded number minus one.
pub open spec fn apply_live_player(d: Seq<char>, xs: XSpaces, pu: PuModel) -> PuModel {
    if !peelable(d, '{', '}') {
        pu
    } else {
        let kvs = tokens_spec(peeled(d), ',', true, true, live_cfg());
        let st = player_fold(kvs, 0, player_start());
        if st.side.len() < 2 {
            pu
        } else {
            let entry = ((st.num - 1) as i32, norm_x(xs, st.x) as i64, norm_y(xs, st.y) as i64);
            if st.side[1] == 'l' {
                PuModel { ateampositions: pu.ateampositions.push(entry), ..pu }
            } else {
                PuModel { bteampositions: pu.bteampositions.push(entry), ..pu }
            }
        }
    }
}

/// Effect of one top-level token of a frame. A ball token sets the ball from
/// its object's pairs (unset coordinates transform from zero). The token
/// that opens the players array is read from its bracket on; further player
/// objects stand as their own tokens; a trailing array bracket is dropped.
/// Any other token changes nothing.
pub open spec fn apply_live_tok(tok: Seq<char>, xs: XSpaces, pu: PuModel) -> PuModel {
    if has_prefix(tok, "\"ball\""@) {
        if !contains_char(tok, ':') {
            pu
        } else {
            let d = kv_val(tok);
            if !peelable(d, '{', '}') {
                pu
            } else {
                let kvs = tokens_spec(peeled(d), ',', true, true, live_cfg());
                let xy = ball_xy(kvs, 0, (0, 0));
                PuModel { ball: (norm_x(xs, xy.0) as i64, norm_y(xs, xy.1) as i64), ..pu }
            }
        }
    } else if has_prefix(tok, "\"players\""@) {
        if !contains_char(tok, '[') {
            pu
        } else {
            let d = drop_trailing(tok.skip(first_occ(tok, '[') + 1), ']');
            apply_live_player(d, xs, pu)
        }
    } else if has_prefix(tok, "{\"side\""@) {
        apply_live_player(drop_trailing(tok, ']'), xs, pu)
    } else {
        pu
    }
}

/// Effects of the frame tokens from position `k` on, applied in order.
pub open spec fn live_fold(toks: Seq<Seq<char>>, k: int, xs: XSpaces, pu: PuModel) -> PuModel
    decreases toks.len() - k,
{
    if k < 0 || k >= toks.len() {
        pu
    } else {
        live_fold(toks, k + 1, xs, apply_live_tok(toks[k], xs, pu))
    }
}

/// The update decoded from one frame: an unbracketed frame yields an empty
/// update carrying the frame text under `unknown`; otherwise every top-level
/// token is applied in order to an empty update.
pub open spec fn live_frame(s: Seq<char>, xs: XSpaces) -> PuModel {
    let t = trim_spec(s);
    if !peelable(t, '{', '}') {
        PuModel {
            msgs: MsgsModel { unknown: Option::Some(s), ..PositionsUpdate::empty_model().msgs },
            ..PositionsUpdate::empty_model()
        }
    } else {
        let toks = tokens_spec(peeled(t), ',', true, true, live_cfg());
        live_fold(toks, 0, xs, PositionsUpdate::empty_model())
    }
}

/// Decode a player object token into the update.
fn apply_live_player_exec(d: &[char], xs: &XSpaces, pu: &mut PositionsUpdate)
    requires
        xs.wf(),
    ensures
        final(pu).model() == apply_live_player(d@, *xs, old(pu).model()),
{
    let cfg = TokCfg::live_format();
    let inner = match peel_bracket(d, &cfg) {
        Ok(v) => v,
        Err(_) => {
            return ;
        },
    };
    let kvs = tokens_vec(inner.as_slice(), ',', true, true, &cfg);
    let ghost kvd = kvs.deep_view();
    let mut side: Vec<char> = Vec::new();
    let mut num: i64 = 0;
    let mut x: i64 = 0;
    let mut y: i64 = 0;
    let side_pat = str_chars("\"side\"");
    let unum_pat = str_chars("\"unum\"");
    let x_pat = str_chars("\"x\"");
    let y_pat = str_chars("\"y\"");
    let n = kvs.len();
    let mut k: usize = 0;
    while k < n
        invariant
            k <= n,
            n == kvd.len(),
            kvd == kvs.deep_view(),
            n == kvs@.len(),
            side_pat@ == "\"side\""@ && unum_pat@ == "\"unum\""@ && x_pat@ == "\"x\""@
                && y_pat@ == "\"y\""@,
            0 <= num <= 0x7fff_ffff,
            in_lim(x) && in_lim(y),
            player_fold(kvd, k as int, (LivePlayer {
                side: side@,
                num: num as int,
                x: x as int,
                y: y as int,
            })) == player_fold(kvd, 0, player_start()),
        decreases n - k,
    {
        proof {
            lemma_toks_deep_view(&kvs, k as int);
            reveal_strlit("\"side\"");
            reveal_strlit("\"unum\"");
            reveal_strlit("\"x\"");
            reveal_strlit("\"y\"");
            assert("\"side\""@[1] != "\"unum\""@[1]);
            assert("\"x\""@[1] != "\"y\""@[1]);
        }
        let ghost lp0 = (LivePlayer { side: side@, num: num as int, x: x as int, y: y as int });
        match split_once_char(kvs[k].as_slice(), ':') {
            None => {},
            Some((key, v)) => {
                if chars_eq(key.as_slice(), side_pat.as_slice()) {
                    side = v;
                } else if chars_eq(key.as_slice(), unum_pat.as_slice()) {
                    match parse_u64(v.as_slice()) {
                        Ok(u) => {
                            if u <= 0x7fff_ffff {
                                num = u as i64;
                            }
                        },
                        Err(_) => {},
                    }
                } else if chars_eq(key.as_slice(), x_pat.as_slice()) {
                    match parse_coord(v.as_slice()) {
                        Some(c) => {
                            x = c;
                        },
                        None => {},
                    }
                } else if chars_eq(key.as_slice(), y_pat.as_slice()) {
                    match parse_coord(v.as_slice()) {
                        Some(c) => {
                            y = c;
                        },
                        None => {},
                    }
                }
            },
        }
        proof {
            assert((LivePlayer { side: side@, num: num as int, x: x as int, y: y as int })
                == player_step(kvd[k as int], lp0));
        }
        k = k + 1;
    }
    if side.len() < 2 {
        return ;
    }
    let fx = xs.d2ox(x);
    let fy = xs.d2oy(y);
    let idx: i32 = (num - 1) as i32;
    if side[1] == 'l' {
        pu.ateampositions.push((idx, fx, fy));
    } else {
        pu.bteampositions.push((idx, fx, fy));
    }
}

/// Decode a ball object token into the update.
fn apply_ball_tok_exec(d: &[char], xs: &XSpaces, pu: &mut PositionsUpdate)
    requires
        xs.wf(),
    ensures
        final(pu).model() == (if peelable(d@, '{', '}') {
            PuModel {
                ball: (norm_x(*xs, ball_xy(tokens_spec(peeled(d@), ',', true, true, live_cfg()),
                    0, (0, 0)).0) as i64, norm_y(*xs, ball_xy(tokens_spec(peeled(d@), ',', true,
                    true, live_cfg()), 0, (0, 0)).1) as i64),
                ..old(pu).model()
            }
        } else {
            old(pu).model()
        }),
{
    let cfg = TokCfg::live_format();
    let inner = match peel_bracket(d, &cfg) {
        Ok(v) => v,
        Err(_) => {
            return ;
        },
    };
    let kvs = tokens_vec(inner.as_slice(), ',', true, true, &cfg);
    let ghost kvd = kvs.deep_view();
    let mut x: i64 = 0;
    let mut y: i64 = 0;
    let x_pat = str_chars("\"x\"");
    let y_pat = str_chars("\"y\"");
    let n = kvs.len();
    let mut k: usize = 0;
    while k < n
        invariant
            k <= n,
            n == kvd.len(),
            kvd == kvs.deep_view(),
            n == kvs@.len(),
            x_pat@ == "\"x\""@ && y_pat@ == "\"y\""@,
            in_lim(x) && in_lim(y),
            ball_xy(kvd, k as int, (x as int, y as int)) == ball_xy(kvd, 0, (0, 0)),
        decreases n - k,
    {
        proof {
            lemma_toks_deep_view(&kvs, k as int);
            reveal_strlit("\"x\"");
            reveal_strlit("\"y\"");
        }
        match split_once_char(kvs[k].as_slice(), ':') {
            None => {},
            Some((key, v)) => {
                if chars_eq(key.as_slice(), x_pat.as_slice()) {
                    match parse_coord(v.as_slice()) {
                        Some(c) => {
                            x = c;
                        },
                        None => {},
                    }
                }
                if chars_eq(key.as_slice(), y_pat.as_slice()) {
                    match parse_coord(v.as_slice()) {
                        Some(c) => {
                            y = c;
                        },
                        None => {},
                    }
                }
            },
        }
        k = k + 1;
    }
    let fx = xs.d2ox(x);
    let fy = xs.d2oy(y);
    pu.ball = (fx, fy);
}

/// Decode one top-level frame token into the update.
fn apply_live_tok_exec(tok: &[char], xs: &XSpaces, pu: &mut PositionsUpdate)
    requires
        xs.wf(),
    ensures
        final(pu).model() == apply_live_tok(tok@, *xs, old(pu).model()),
{
    let ball_pat = str_chars("\"ball\"");
    let players_pat = str_chars("\"players\"");
    let side_pat = str_chars("{\"side\"");
    if starts_with_chars(tok, ball_pat.as_slice()) {
        match split_once_char(tok, ':') {
            None => {},
            Some((_k, d)) => {
                apply_ball_tok_exec(d.as_slice(), xs, pu);
            },
        }
    } else if starts_with_chars(tok, players_pat.as_slice()) {
        match split_once_char(tok, '[') {
            None => {},
            Some((_k, d)) => {
                let d2 = trim_trailing_char(d.as_slice(), ']');
                apply_live_player_exec(d2.as_slice(), xs, pu);
            },
        }
    } else if starts_with_chars(tok, side_pat.as_slice()) {
        let d2 = trim_trailing_char(tok, ']');
        apply_live_player_exec(d2.as_slice(), xs, pu);
    }
}

/// Live reader core: the remote address it was configured for and the
/// transform into normalized space. The socket work of the session — the
/// handshake send, each receive with its timeout — belongs to the caller,
/// which hands every received frame (or a timeout) to `next_record`.
pub struct RCLive {
    pub srvraddr: String,
    pub r2n: XSpaces,
}

impl RCLive {
    /// Configure a live reader for a remote address.
    pub fn new(addr: &str) -> (r: RCLive)
        ensures
            r.srvraddr@ == addr@,
            r.r2n == pitch_spaces(),
            r.r2n.wf(),
    {
        RCLive {
            srvraddr: addr.to_owned(),
            r2n: XSpaces::new(((PITCH_X0, PITCH_Y0), (PITCH_X1, PITCH_Y1)),
                ((UNIT_0, UNIT_0), (UNIT_1, UNIT_1))),
        }
    }

    /// The datagram that opens a session, to be sent to the remote address.
    pub fn init_request(&self) -> (r: String)
        ensures
            r@ == "(dispinit version 5)\r\n"@,
    {
        "(dispinit version 5)\r\n".to_owned()
    }

    /// The wire protocol's nominal seconds per record.
    pub fn seconds_per_record(&self) -> (r: i64)
        ensures
            r == LIVE_SECONDS_PER_RECORD,
    {
        LIVE_SECONDS_PER_RECORD
    }

    /// The network paces this source, so a frame-rate change needs no
    /// bookkeeping.
    pub fn fps_changed(&mut self, fps_micro: i64)
        ensures
            *final(self) == *old(self),
    {
        let _ = fps_micro;
    }

    /// The network paces this source, so a record is due every frame.
    pub fn next_frame_is_record_ready(&self) -> (r: bool)
        ensures
            r,
    {
        true
    }

    /// A live stream cannot be rewound: seeking changes nothing.
    pub fn seek(&mut self, seekdelta: i64)
        ensures
            *final(self) == *old(self),
    {
        let _ = seekdelta;
    }

    /// A live stream never ends.
    pub fn bdone(&self) -> (r: bool)
        ensures
            !r,
    {
        false
    }

    /// Decode one receive: a timeout (`None`) yields the empty update — all
    /// sequences empty, the ball at the origin, the reader not done — and a
    /// received frame is decoded token by token.
    pub fn next_record(&self, datagram: Option<&str>) -> (pu: PositionsUpdate)
        requires
            self.r2n.wf(),
        ensures
            match datagram {
                Option::Some(s) => pu.model() == live_frame(s@, self.r2n),
                Option::None => pu.model() == PositionsUpdate::empty_model(),
            },
    {
        let s = match datagram {
            Option::None => {
                return PositionsUpdate::new();
            },
            Option::Some(s) => s,
        };
        let mut pu = PositionsUpdate::new();
        let chars = str_chars(s);
        let t = trim_chars(chars.as_slice());
        let cfg = TokCfg::live_format();
        let inner = match peel_bracket(t.as_slice(), &cfg) {
            Err(_) => {
                pu.msgs.unknown = Some(s.to_owned());
                return pu;
            },
            Ok(v) => v,
        };
        let toks = tokens_vec(inner.as_slice(), ',', true, true, &cfg);
        let ghost tks = toks.deep_view();
        let ghost base = pu.model();
        let n = toks.len();
        let mut k: usize = 0;
        while k < n
            invariant
                k <= n,
                n == tks.len(),
                tks == toks.deep_view(),
                n == toks@.len(),
                self.r2n.wf(),
                live_fold(tks, k as int, self.r2n, pu.model()) == live_fold(tks, 0, self.r2n,
                    base),
            decreases n - k,
        {
            proof {
                lemma_toks_deep_view(&toks, k as int);
            }
            apply_live_tok_exec(toks[k].as_slice(), &self.r2n, &mut pu);
            k = k + 1;
        }
        pu
    }
}

} // verus!

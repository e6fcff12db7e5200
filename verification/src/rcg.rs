//! The file log reader: parses the bracketed, line-oriented log format into
//! normalized updates, throttles record consumption against the render rate,
//! and supports coarse seeking over the in-memory line set.
//!
//! Where a line violates the log format (a record line without its closing
//! bracket, a missing field, an oversized number), the offending line or
//! sub-record is recorded under the `unknown` diagnostic category or skipped,
//! and playback continues; a malformed record never stops the reader.

use vstd::prelude::*;
use crate::fx::tdiv;
use crate::fx::div_trunc;
use crate::xspaces::{XSpaces, COORD_LIM, map_axis};
use crate::tokens::{TokCfg, peelable, peeled, tokens_spec, peel_bracket, tokens_vec};
use crate::strutil::{trim_spec, has_prefix, contains_char, first_occ, trim_chars, str_chars,
    starts_with_chars, chars_eq, split_once_char, find_char, slice_range_vec, chars_to_string,
    lemma_toks_deep_view, lemma_lines_deep_view};
use crate::numparse::{dec_grammar, dec_in_range, dec_micro_val, u64_grammar, digits_val,
    hex_grammar, hex_val, parse_fixed, parse_u64, parse_hex_u32};
use crate::playdata::{PositionsUpdate, PuModel, MsgsModel, Msgs, PlayerData, Action, Card,
    spec_handle_state, handle_state, team_model, out_of_square, pos_out_of_square, bump,
    bump_counter};

verus! {

/// Fixed cadence of the log format: seconds per record, in millionths.
pub const SECONDS_PER_RECORD: i64 = 100_000;

/// One second per frame at one frame per second, in millionths of a second
/// per millionth-scaled frame rate.
pub const MICRO_SQUARED: i64 = 1_000_000_000_000;

/// Stamina units per full stamina fraction.
pub const STAMINA_BASE: i64 = 8_000;

/// Source rectangle of the simulation pitch, fixed-point.
pub const PITCH_X0: i64 = -55_000_000;

pub const PITCH_Y0: i64 = -37_000_000;

pub const PITCH_X1: i64 = 55_000_000;

pub const PITCH_Y1: i64 = 37_000_000;

/// The unit square, fixed-point.
pub const UNIT_0: i64 = 0;

pub const UNIT_1: i64 = 1_000_000;

/// One cadence step: the accumulated seconds grow by one frame's seconds;
/// when they reach the seconds per record they reset and the step reports
/// that a record is due.
pub open spec fn cadence_step(acc: int, spf: int, spr: int) -> (bool, int) {
    if acc + spf >= spr {
        (true, 0)
    } else {
        (false, acc + spf)
    }
}

/// When the render frame time equals the record cadence, every frame is a
/// record frame, and the accumulator returns to zero each time.
pub proof fn lemma_cadence_matched_rate(acc: int, spf: int, spr: int)
    requires
        spf == spr,
        spr > 0,
        acc >= 0,
    ensures
        cadence_step(acc, spf, spr).0,
        cadence_step(acc, spf, spr).1 == 0,
{
}

/// When the render runs at twice the record rate, record frames alternate:
/// from a reset accumulator the first step is silent, the second is a record
/// frame that resets the accumulator again.
pub proof fn lemma_cadence_double_rate(spf: int, spr: int)
    requires
        spr == 2 * spf,
        spf > 0,
    ensures
        !cadence_step(0, spf, spr).0,
        cadence_step(0, spf, spr).1 == spf,
        cadence_step(spf, spf, spr).0,
        cadence_step(spf, spf, spr).1 == 0,
{
}

/// Reader over an in-memory line set. The cursor `iline` points at the line
/// last consumed (-1 before the first call); `bdone` is set when the line
/// set is exhausted. All durations are millionths of a second.
pub struct Rcg {
    pub lines: Vec<String>,
    pub iline: i64,
    pub bdone: bool,
    pub secondsper_record: i64,
    pub secondsafter_lastrecord: i64,
    pub secondsperframe: i64,
    pub r2d: XSpaces,
}

impl Rcg {
    pub open spec fn wf(&self) -> bool {
        &&& -1 <= self.iline <= self.lines@.len()
        &&& self.lines@.len() <= 0x7fff_ffff_ffff_fffe
        &&& 0 < self.secondsper_record <= MICRO_SQUARED
        &&& 1 <= self.secondsperframe <= MICRO_SQUARED
        &&& 0 <= self.secondsafter_lastrecord < self.secondsper_record
        &&& self.r2d.wf()
    }

    /// Build a reader over the lines of a log file, for a render rate of
    /// `fps_micro` frames per second in millionths.
    pub fn new(lines: Vec<String>, fps_micro: i64) -> (r: Rcg)
        requires
            1 <= fps_micro <= MICRO_SQUARED,
            lines@.len() <= 0x7fff_ffff_ffff_fffe,
        ensures
            r.wf(),
            r.lines == lines,
            r.iline == -1,
            !r.bdone,
            r.secondsper_record == SECONDS_PER_RECORD,
            r.secondsafter_lastrecord == 0,
            r.secondsperframe == tdiv(MICRO_SQUARED as int, fps_micro as int),
            r.r2d == pitch_spaces(),
    {
        let spf = div_trunc(MICRO_SQUARED, fps_micro);
        proof {
            crate::fx::lemma_tdiv_bound(MICRO_SQUARED as int, fps_micro as int);
            assert(MICRO_SQUARED as int / fps_micro as int >= 1) by (nonlinear_arith)
                requires 1 <= fps_micro as int <= MICRO_SQUARED as int;
        }
        Rcg {
            lines,
            iline: -1,
            bdone: false,
            secondsper_record: SECONDS_PER_RECORD,
            secondsafter_lastrecord: 0,
            secondsperframe: spf,
            r2d: XSpaces::new(((PITCH_X0, PITCH_Y0), (PITCH_X1, PITCH_Y1)),
                ((UNIT_0, UNIT_0), (UNIT_1, UNIT_1))),
        }
    }

    /// Adjust the per-frame seconds after the caller's frame rate changed.
    pub fn fps_changed(&mut self, fps_micro: i64)
        requires
            old(self).wf(),
            1 <= fps_micro <= MICRO_SQUARED,
        ensures
            final(self).wf(),
            final(self).secondsperframe == tdiv(MICRO_SQUARED as int, fps_micro as int),
            *final(self) == (Rcg {
                secondsperframe: final(self).secondsperframe,
                ..*old(self)
            }),
    {
        let spf = div_trunc(MICRO_SQUARED, fps_micro);
        proof {
            crate::fx::lemma_tdiv_bound(MICRO_SQUARED as int, fps_micro as int);
            assert(MICRO_SQUARED as int / fps_micro as int >= 1) by (nonlinear_arith)
                requires 1 <= fps_micro as int <= MICRO_SQUARED as int;
        }
        self.secondsperframe = spf;
    }

    /// The fixed seconds-per-record cadence of the format.
    pub fn seconds_per_record(&self) -> (r: i64)
        ensures
            r == self.secondsper_record,
    {
        self.secondsper_record
    }

    /// Advance the cadence accumulator by one frame and report whether a new
    /// record should be pulled this frame.
    pub fn next_frame_is_record_ready(&mut self) -> (r: bool)
        requires
            old(self).wf(),
        ensures
            final(self).wf(),
            r == cadence_step(old(self).secondsafter_lastrecord as int,
                old(self).secondsperframe as int, old(self).secondsper_record as int).0,
            final(self).secondsafter_lastrecord == cadence_step(
                old(self).secondsafter_lastrecord as int, old(self).secondsperframe as int,
                old(self).secondsper_record as int).1,
            *final(self) == (Rcg {
                secondsafter_lastrecord: final(self).secondsafter_lastrecord,
                ..*old(self)
            }),
    {
        self.secondsafter_lastrecord = self.secondsafter_lastrecord + self.secondsperframe;
        if self.secondsafter_lastrecord >= self.secondsper_record {
            self.secondsafter_lastrecord = 0;
            true
        } else {
            false
        }
    }

    /// Whether the line set is exhausted.
    pub fn bdone(&self) -> (r: bool)
        ensures
            r == self.bdone,
    {
        self.bdone
    }

    /// Advance the cursor until a complete snapshot is assembled (the cursor
    /// then rests on the snapshot line) or the line set is exhausted (the
    /// reader is then done). Comments, framing artifacts and non-snapshot
    /// record lines are consumed within the same call; their messages are
    /// gathered into the returned update.
    #[verifier::rlimit(100)]
    pub fn next_record(&mut self) -> (pu: PositionsUpdate)
        requires
            old(self).wf(),
        ensures
            final(self).wf(),
            ({
                let sr = scan(old(self).lines.deep_view(), old(self).iline as int + 1,
                    old(self).r2d, Msgs::empty_model());
                &&& final(self).iline == sr.cursor
                &&& final(self).bdone == (old(self).bdone || sr.done)
                &&& pu.model() == sr.pu
            }),
            *final(self) == (Rcg {
                iline: final(self).iline,
                bdone: final(self).bdone,
                ..*old(self)
            }),
    {
        let ghost ldv = self.lines.deep_view();
        let ghost xs = self.r2d;
        let ghost target = scan(ldv, self.iline as int + 1, xs, Msgs::empty_model());
        let n = self.lines.len();
        let start: i64 = self.iline + 1;
        let mut i: usize = if start > n as i64 {
            n
        } else {
            start as usize
        };
        let mut pu = PositionsUpdate::new();
        let mut found = false;
        proof {
            assert(scan(ldv, i as int, xs, Msgs::empty_model()) == target);
            assert(pu.msgs.model() == Msgs::empty_model());
        }
        while i < n && !found
            invariant
                i <= n,
                n == ldv.len(),
                ldv == self.lines.deep_view(),
                n == self.lines@.len(),
                *self == *old(self),
                xs == self.r2d,
                xs.wf(),
                target == scan(ldv, old(self).iline as int + 1, xs, Msgs::empty_model()),
                !found ==> pu.model() == msgs_only(pu.msgs.model()),
                !found ==> scan(ldv, i as int, xs, pu.msgs.model()) == target,
                found ==> pu.model() == target.pu && i == target.cursor && !target.done
                    && i < n,
            decreases n - i, (if found { 0int } else { 1int }),
        {
            proof {
                lemma_lines_deep_view(&self.lines, i as int);
            }
            let stop = process_line(&self.lines[i], &self.r2d, &mut pu);
            if stop {
                proof {
                    assert(target == (ScanOutcome {
                        cursor: i as int,
                        done: false,
                        pu: pu.model(),
                    }));
                }
                found = true;
            } else {
                i = i + 1;
            }
        }
        if found {
            self.iline = i as i64;
        } else {
            self.bdone = true;
            self.iline = n as i64;
        }
        pu
    }

    /// Best-effort cursor jump by a signed line delta, clamped to the line
    /// set: a backward seek past the start lands on the first line, a
    /// forward seek past the end lands on the last line. A reader whose new
    /// cursor has lines remaining is reactivated.
    pub fn seek(&mut self, seekdelta: i64)
        requires
            old(self).wf(),
        ensures
            final(self).wf(),
            final(self).iline == seek_target(old(self).iline as int, seekdelta as int,
                old(self).lines@.len() as int),
            final(self).bdone == (if old(self).lines@.len() > final(self).iline {
                false
            } else {
                old(self).bdone
            }),
            *final(self) == (Rcg {
                iline: final(self).iline,
                bdone: final(self).bdone,
                ..*old(self)
            }),
    {
        let n = self.lines.len();
        let ni: i128 = self.iline as i128 + seekdelta as i128;
        let clamped: i64 = if ni < 0 {
            0
        } else if ni >= n as i128 {
            if n == 0 {
                0
            } else {
                (n - 1) as i64
            }
        } else {
            ni as i64
        };
        self.iline = clamped;
        if self.lines.len() > 0 && clamped < self.lines.len() as i64 {
            self.bdone = false;
        }
    }
}

/// Where a seek from cursor `i` by `delta` over `n` lines lands: clamped to
/// the line range, zero below and the last line above (or zero when there
/// are no lines).
pub open spec fn seek_target(i: int, delta: int, n: int) -> int {
    let ni = i + delta;
    if ni < 0 {
        0
    } else if ni >= n {
        if n == 0 {
            0
        } else {
            n - 1
        }
    } else {
        ni
    }
}

/// Tokenizer configuration of the log format.
pub open spec fn log_cfg() -> TokCfg {
    TokCfg { bracket_begin: '(', bracket_end: ')', quote: '"', string_subpart: false }
}

/// A position field that parses and is small enough to transform.
pub open spec fn coord_ok(t: Seq<char>) -> bool {
    &&& dec_grammar(t)
    &&& dec_in_range(t)
    &&& -(COORD_LIM as int) <= dec_micro_val(t) <= COORD_LIM as int
}

/// The x axis of the reader's transform.
pub open spec fn norm_x(xs: XSpaces, v: int) -> int {
    map_axis(v, xs.sx0 as int, xs.sx1 as int, xs.dx0 as int, xs.dx1 as int)
}

/// The y axis of the reader's transform.
pub open spec fn norm_y(xs: XSpaces, v: int) -> int {
    map_axis(v, xs.sy0 as int, xs.sy1 as int, xs.dy0 as int, xs.dy1 as int)
}

/// A raw stamina reading as a fraction of the stamina base, clamped above at
/// one.
pub open spec fn stamina_clamp(v: int) -> int {
    if tdiv(v, STAMINA_BASE as int) > 1_000_000 {
        1_000_000
    } else {
        tdiv(v, STAMINA_BASE as int)
    }
}

/// The stamina attribute contributed by one trailing field of a player
/// sub-record: a field that opens as a stamina group and whose second token
/// parses contributes one clamped reading; any other field contributes
/// nothing.
pub open spec fn stamina_one(t: Seq<char>) -> Seq<PlayerData> {
    if has_prefix(t, "(s "@) && peelable(t, '(', ')') {
        let st = tokens_spec(peeled(t), ' ', true, false, log_cfg());
        if st.len() >= 2 && dec_grammar(st[1]) && dec_in_range(st[1]) {
            seq![PlayerData::Stamina(stamina_clamp(dec_micro_val(st[1])) as i64)]
        } else {
            Seq::empty()
        }
    } else {
        Seq::empty()
    }
}

/// Stamina attributes of the fields from position `k` on.
pub open spec fn stamina_items(vd: Seq<Seq<char>>, k: int) -> Seq<PlayerData>
    decreases vd.len() - k,
{
    if k < 0 || k >= vd.len() {
        Seq::empty()
    } else {
        stamina_one(vd[k]) + stamina_items(vd, k + 1)
    }
}

/// The side tag of a player sub-record: the part of the peeled head field
/// before its first space.
pub open spec fn side_txt(vd: Seq<Seq<char>>) -> Seq<char> {
    let inner = peeled(vd[0]);
    inner.take(first_occ(inner, ' '))
}

/// The in-team number text: the part of the peeled head field after its
/// first space.
pub open spec fn num_txt(vd: Seq<Seq<char>>) -> Seq<char> {
    let inner = peeled(vd[0]);
    inner.skip(first_occ(inner, ' ') + 1)
}

/// The state bitmask text: the third field, with its two-character radix
/// prefix stripped when the field holds an `x`.
pub open spec fn state_txt(vd: Seq<Seq<char>>) -> Seq<char> {
    if contains_char(vd[2], 'x') {
        vd[2].skip(2)
    } else {
        vd[2]
    }
}

/// Every hard precondition of a player sub-record: enough fields, a peelable
/// head with side and number, a hexadecimal state mask, and two
/// transformable positions. A sub-record failing any of these is skipped
/// whole.
pub open spec fn player_fields_ok(vd: Seq<Seq<char>>) -> bool {
    &&& vd.len() >= 5
    &&& peelable(vd[0], '(', ')')
    &&& contains_char(peeled(vd[0]), ' ')
    &&& u64_grammar(num_txt(vd))
    &&& digits_val(num_txt(vd)) <= 0x7fff_ffff
    &&& (contains_char(vd[2], 'x') ==> vd[2].len() >= 2)
    &&& hex_grammar(state_txt(vd))
    &&& hex_val(state_txt(vd)) <= u32::MAX
    &&& coord_ok(vd[3])
    &&& coord_ok(vd[4])
}

/// The ordered attribute list of a well-formed player sub-record: card,
/// action, transformed position, then one stamina entry per parsing stamina
/// field.
pub open spec fn player_items(vd: Seq<Seq<char>>, xs: XSpaces) -> Seq<PlayerData> {
    let ac = spec_handle_state(hex_val(state_txt(vd)) as u32);
    seq![
        PlayerData::Card(ac.1),
        PlayerData::Action(ac.0),
        PlayerData::Pos(norm_x(xs, dec_micro_val(vd[3])) as i64,
            norm_y(xs, dec_micro_val(vd[4])) as i64),
    ] + stamina_items(vd, 5)
}

/// Effect of a player sub-record on the update: a well-formed record appends
/// its entry, zero-based, to the left team exactly when its side tag is `l`,
/// to the other team otherwise; a malformed one changes nothing. A position
/// outside the unit square counts as a boundary violation, a state mask that
/// decodes to neither action nor card as an unrecognized bitmask; both are
/// kept.
pub open spec fn apply_player(vd: Seq<Seq<char>>, xs: XSpaces, pu: PuModel) -> PuModel {
    if player_fields_ok(vd) {
        let pos = (norm_x(xs, dec_micro_val(vd[3])) as i64,
            norm_y(xs, dec_micro_val(vd[4])) as i64);
        let pu1 = PuModel {
            boundary_violations: if out_of_square(pos) {
                bump(pu.boundary_violations)
            } else {
                pu.boundary_violations
            },
            unrecognized_bitmasks: if spec_handle_state(hex_val(state_txt(vd)) as u32)
                == (Action::NoAction, Card::NoCard) {
                bump(pu.unrecognized_bitmasks)
            } else {
                pu.unrecognized_bitmasks
            },
            ..pu
        };
        let entry = ((digits_val(num_txt(vd)) - 1) as i32, player_items(vd, xs));
        if side_txt(vd) == "l"@ {
            PuModel { ateamcoded: pu1.ateamcoded.push(entry), ..pu1 }
        } else {
            PuModel { bteamcoded: pu1.bteamcoded.push(entry), ..pu1 }
        }
    } else {
        pu
    }
}

/// Effect of a ball sub-record: a record with two transformable positions
/// sets the ball; a malformed one changes nothing. An out-of-square result
/// is kept and counted as a boundary violation.
pub open spec fn apply_ball(vd: Seq<Seq<char>>, xs: XSpaces, pu: PuModel) -> PuModel {
    if vd.len() >= 3 && coord_ok(vd[1]) && coord_ok(vd[2]) {
        let pos = (norm_x(xs, dec_micro_val(vd[1])) as i64,
            norm_y(xs, dec_micro_val(vd[2])) as i64);
        PuModel {
            ball: pos,
            boundary_violations: if out_of_square(pos) {
                bump(pu.boundary_violations)
            } else {
                pu.boundary_violations
            },
            ..pu
        }
    } else {
        pu
    }
}

/// Effect of one token of a snapshot line: only tokens opening as a left,
/// right or ball group are considered; the token is peeled and split, then
/// dispatched to the ball or player rule.
pub open spec fn apply_subrec(tok: Seq<char>, xs: XSpaces, pu: PuModel) -> PuModel {
    if !(has_prefix(tok, "((l"@) || has_prefix(tok, "((r"@) || has_prefix(tok, "((b"@)) {
        pu
    } else if !peelable(tok, '(', ')') {
        pu
    } else {
        let vd = tokens_spec(peeled(tok), ' ', true, true, log_cfg());
        if vd.len() == 0 {
            pu
        } else if has_prefix(vd[0], "(b"@) {
            apply_ball(vd, xs, pu)
        } else {
            apply_player(vd, xs, pu)
        }
    }
}

/// Effects of the snapshot tokens from position `k` on, applied in order.
pub open spec fn show_fold(toks: Seq<Seq<char>>, k: int, xs: XSpaces, pu: PuModel) -> PuModel
    decreases toks.len() - k,
{
    if k < 0 || k >= toks.len() {
        pu
    } else {
        show_fold(toks, k + 1, xs, apply_subrec(toks[k], xs, pu))
    }
}

/// A line that carries no record: empty, a comment, or a framing artifact.
pub open spec fn line_is_blank(t: Seq<char>) -> bool {
    t.len() == 0 || t[0] == '#' || has_prefix(t, "ULG"@)
}

/// The top-level tokens of a peelable record line.
pub open spec fn line_toks(t: Seq<char>) -> Seq<Seq<char>> {
    tokens_spec(peeled(t), ' ', true, true, log_cfg())
}

/// An update that carries only diagnostic messages.
pub open spec fn msgs_only(m: MsgsModel) -> PuModel {
    PuModel {
        msgs: m,
        timecounter: 0,
        ball: (0, 0),
        ateampositions: Seq::empty(),
        bteampositions: Seq::empty(),
        ateamcoded: Seq::empty(),
        bteamcoded: Seq::empty(),
        boundary_violations: 0,
        unrecognized_bitmasks: 0,
    }
}

/// Outcome of one "produce next record" call: where the cursor lands,
/// whether the line set was exhausted, and the update produced.
pub struct ScanOutcome {
    pub cursor: int,
    pub done: bool,
    pub pu: PuModel,
}

/// What one line does to the walk: pass on with updated messages, or stop
/// with a finished update.
pub enum LineOutcome {
    Pass(MsgsModel),
    Stop(PuModel),
}

/// Effect of a single line: blank lines pass silently; a malformed line is
/// recorded under `unknown` and passes; game-state, score and unrecognized
/// record lines store their message (and the record time under `stime`) and
/// pass; a snapshot line stops the walk with the update its tokens build.
pub open spec fn line_step(l: Seq<char>, xs: XSpaces, m: MsgsModel) -> LineOutcome {
    let t = trim_spec(l);
    if line_is_blank(t) {
        LineOutcome::Pass(m)
    } else if !peelable(t, '(', ')') {
        LineOutcome::Pass(MsgsModel { unknown: Option::Some(l), ..m })
    } else {
        let toks = line_toks(t);
        if toks.len() < 2 {
            LineOutcome::Pass(MsgsModel { unknown: Option::Some(l), ..m })
        } else if has_prefix(toks[0], "show"@) {
            if u64_grammar(toks[1]) && digits_val(toks[1]) <= u64::MAX {
                LineOutcome::Stop(show_fold(toks, 0, xs, PuModel {
                    msgs: MsgsModel { stime: Option::Some(toks[1]), ..m },
                    timecounter: digits_val(toks[1]) as u64,
                    ball: (0, 0),
                    ateampositions: Seq::empty(),
                    bteampositions: Seq::empty(),
                    ateamcoded: Seq::empty(),
                    bteamcoded: Seq::empty(),
                    boundary_violations: 0,
                    unrecognized_bitmasks: 0,
                }))
            } else {
                LineOutcome::Pass(MsgsModel { unknown: Option::Some(l), ..m })
            }
        } else if has_prefix(toks[0], "playmode"@) {
            LineOutcome::Pass(MsgsModel {
                stime: Option::Some(toks[1]),
                game: Option::Some(l),
                ..m
            })
        } else if has_prefix(toks[0], "team"@) {
            LineOutcome::Pass(MsgsModel {
                stime: Option::Some(toks[1]),
                score: Option::Some(l),
                ..m
            })
        } else {
            LineOutcome::Pass(MsgsModel {
                stime: Option::Some(toks[1]),
                unknown: Option::Some(l),
                ..m
            })
        }
    }
}

/// The reader's walk from line `i`: each line acts as `line_step` says; the
/// walk stops at the first snapshot line or at the end of the line set.
pub open spec fn scan(lines: Seq<Seq<char>>, i: int, xs: XSpaces, m: MsgsModel) -> ScanOutcome
    decreases lines.len() - i,
{
    if i < 0 || i >= lines.len() {
        ScanOutcome { cursor: lines.len() as int, done: true, pu: msgs_only(m) }
    } else {
        match line_step(lines[i], xs, m) {
            LineOutcome::Pass(m2) => scan(lines, i + 1, xs, m2),
            LineOutcome::Stop(pu) => ScanOutcome { cursor: i, done: false, pu },
        }
    }
}

/// The fixed pitch-to-unit-square transform of both readers.
pub open spec fn pitch_spaces() -> XSpaces {
    XSpaces {
        sx0: PITCH_X0,
        sy0: PITCH_Y0,
        sx1: PITCH_X1,
        sy1: PITCH_Y1,
        dx0: UNIT_0,
        dy0: UNIT_0,
        dx1: UNIT_1,
        dy1: UNIT_1,
    }
}

/// Parse a position field, accepting exactly the values the transform can
/// take.
pub fn parse_coord(t: &[char]) -> (r: Option<i64>)
    ensures
        match r {
            Some(x) => coord_ok(t@) && x == dec_micro_val(t@),
            None => !coord_ok(t@),
        },
{
    match parse_fixed(t) {
        Err(_) => None,
        Ok(x) => {
            if -COORD_LIM <= x && x <= COORD_LIM {
                Some(x)
            } else {
                None
            }
        },
    }
}

/// Decode a ball sub-record into the update's ball position.
fn apply_ball_exec(vd: &Vec<Vec<char>>, xs: &XSpaces, pu: &mut PositionsUpdate)
    requires
        xs.wf(),
    ensures
        final(pu).model() == apply_ball(vd.deep_view(), *xs, old(pu).model()),
{
    if vd.len() < 3 {
        return ;
    }
    proof {
        lemma_toks_deep_view(vd, 1);
        lemma_toks_deep_view(vd, 2);
    }
    let x = match parse_coord(vd[1].as_slice()) {
        Some(x) => x,
        None => {
            return ;
        },
    };
    let y = match parse_coord(vd[2].as_slice()) {
        Some(y) => y,
        None => {
            return ;
        },
    };
    let fx = xs.d2ox(x);
    let fy = xs.d2oy(y);
    if pos_out_of_square((fx, fy)) {
        pu.boundary_violations = bump_counter(pu.boundary_violations);
    }
    pu.ball = (fx, fy);
}

/// Decode a player sub-record and append its entry to the proper team.
fn apply_player_exec(vd: &Vec<Vec<char>>, xs: &XSpaces, pu: &mut PositionsUpdate)
    requires
        xs.wf(),
    ensures
        final(pu).model() == apply_player(vd.deep_view(), *xs, old(pu).model()),
{
    let ghost vdd = vd.deep_view();
    if vd.len() < 5 {
        return ;
    }
    proof {
        lemma_toks_deep_view(vd, 0);
        lemma_toks_deep_view(vd, 2);
        lemma_toks_deep_view(vd, 3);
        lemma_toks_deep_view(vd, 4);
    }
    let cfg = TokCfg::log_format();
    let inner0 = match peel_bracket(vd[0].as_slice(), &cfg) {
        Ok(v) => v,
        Err(_) => {
            return ;
        },
    };
    let (side, splayer) = match split_once_char(inner0.as_slice(), ' ') {
        Some(parts) => parts,
        None => {
            return ;
        },
    };
    proof {
        assert(side@ == side_txt(vdd));
        assert(splayer@ == num_txt(vdd));
    }
    let num = match parse_u64(splayer.as_slice()) {
        Ok(x) => x,
        Err(_) => {
            return ;
        },
    };
    if num > 0x7fff_ffff {
        return ;
    }
    let vd2 = &vd[2];
    let st: Vec<char> = match find_char(vd2.as_slice(), 'x') {
        Some(_) => {
            if vd2.len() < 2 {
                return ;
            }
            let s = slice_range_vec(vd2.as_slice(), 2, vd2.len());
            proof {
                assert(s@ =~= state_txt(vdd));
            }
            s
        },
        None => {
            let s = slice_range_vec(vd2.as_slice(), 0, vd2.len());
            proof {
                assert(s@ =~= state_txt(vdd));
            }
            s
        },
    };
    let state = match parse_hex_u32(st.as_slice()) {
        Ok(x) => x,
        Err(_) => {
            return ;
        },
    };
    let (action, card) = handle_state(state);
    let x = match parse_coord(vd[3].as_slice()) {
        Some(x) => x,
        None => {
            return ;
        },
    };
    let y = match parse_coord(vd[4].as_slice()) {
        Some(y) => y,
        None => {
            return ;
        },
    };
    let fx = xs.d2ox(x);
    let fy = xs.d2oy(y);
    if pos_out_of_square((fx, fy)) {
        pu.boundary_violations = bump_counter(pu.boundary_violations);
    }
    if action == Action::NoAction && card == Card::NoCard {
        pu.unrecognized_bitmasks = bump_counter(pu.unrecognized_bitmasks);
    }
    let mut items: Vec<PlayerData> = Vec::new();
    items.push(PlayerData::Card(card));
    items.push(PlayerData::Action(action));
    items.push(PlayerData::Pos(fx, fy));
    let ghost head = items@;
    proof {
        assert(player_fields_ok(vdd));
        assert(head == seq![
            PlayerData::Card(card),
            PlayerData::Action(action),
            PlayerData::Pos(fx, fy),
        ]);
    }
    let n = vd.len();
    let mut k: usize = 5;
    while k < n
        invariant
            5 <= k <= n,
            n == vdd.len(),
            vdd == vd.deep_view(),
            xs.wf(),
            items@ + stamina_items(vdd, k as int) == head + stamina_items(vdd, 5),
        decreases n - k,
    {
        proof {
            lemma_toks_deep_view(vd, k as int);
        }
        let ghost pre = items@;
        let tk = &vd[k];
        let pat = str_chars("(s ");
        if starts_with_chars(tk.as_slice(), pat.as_slice()) {
            match peel_bracket(tk.as_slice(), &cfg) {
                Err(_) => {},
                Ok(sin) => {
                    let stoks = tokens_vec(sin.as_slice(), ' ', true, false, &cfg);
                    if stoks.len() >= 2 {
                        proof {
                            lemma_toks_deep_view(&stoks, 1);
                        }
                        match parse_fixed(stoks[1].as_slice()) {
                            Err(_) => {},
                            Ok(sv) => {
                                let c = div_trunc(sv, STAMINA_BASE);
                                let cl = if c > 1_000_000 {
                                    1_000_000
                                } else {
                                    c
                                };
                                items.push(PlayerData::Stamina(cl));
                            },
                        }
                    }
                },
            }
        }
        proof {
            assert(items@ =~= pre + stamina_one(vdd[k as int]));
            assert((pre + stamina_one(vdd[k as int])) + stamina_items(vdd, k as int + 1)
                =~= pre + (stamina_one(vdd[k as int]) + stamina_items(vdd, k as int + 1)));
        }
        k = k + 1;
    }
    proof {
        assert(items@ + stamina_items(vdd, n as int) =~= items@);
        assert(items@ == player_items(vdd, *xs));
    }
    let idx: i32 = (num as i64 - 1) as i32;
    let lpat = str_chars("l");
    let is_left = chars_eq(side.as_slice(), lpat.as_slice());
    if is_left {
        let ghost pre = team_model(pu.ateamcoded@);
        pu.ateamcoded.push((idx, items));
        proof {
            assert(team_model(pu.ateamcoded@) =~= pre.push((idx,
                player_items(vdd, *xs))));
        }
    } else {
        let ghost pre = team_model(pu.bteamcoded@);
        pu.bteamcoded.push((idx, items));
        proof {
            assert(team_model(pu.bteamcoded@) =~= pre.push((idx,
                player_items(vdd, *xs))));
        }
    }
}

/// Apply every token of a snapshot line to the update, in order.
fn process_show(toks: &Vec<Vec<char>>, xs: &XSpaces, pu: &mut PositionsUpdate)
    requires
        xs.wf(),
    ensures
        final(pu).model() == show_fold(toks.deep_view(), 0, *xs, old(pu).model()),
{
    let ghost tks = toks.deep_view();
    let ghost base = pu.model();
    let m = toks.len();
    let mut k: usize = 0;
    while k < m
        invariant
            k <= m,
            m == tks.len(),
            tks == toks.deep_view(),
            m == toks@.len(),
            xs.wf(),
            show_fold(tks, k as int, *xs, pu.model()) == show_fold(tks, 0, *xs, base),
        decreases m - k,
    {
        proof {
            lemma_toks_deep_view(toks, k as int);
        }
        apply_subrec_exec(toks[k].as_slice(), xs, pu);
        k = k + 1;
    }
}

/// Consume one line: update the messages of `pu` and pass on, or build the
/// snapshot update and stop.
fn process_line(line: &String, xs: &XSpaces, pu: &mut PositionsUpdate) -> (stop: bool)
    requires
        xs.wf(),
        old(pu).model() == msgs_only(old(pu).msgs.model()),
    ensures
        match line_step(line@, *xs, old(pu).msgs.model()) {
            LineOutcome::Pass(m2) => !stop && final(pu).model() == msgs_only(m2)
                && final(pu).msgs.model() == m2,
            LineOutcome::Stop(res) => stop && final(pu).model() == res,
        },
{
    let cfg = TokCfg::log_format();
    let line_chars = str_chars(line.as_str());
    let t = trim_chars(line_chars.as_slice());
    let ghost tv = trim_spec(line@);
    let ulg = str_chars("ULG");
    if t.len() == 0 || t[0] == '#' || starts_with_chars(t.as_slice(), ulg.as_slice()) {
        return false;
    }
    let inner = match peel_bracket(t.as_slice(), &cfg) {
        Err(_) => {
            pu.msgs.unknown = Some(line.clone());
            return false;
        },
        Ok(inner) => inner,
    };
    let toks = tokens_vec(inner.as_slice(), ' ', true, true, &cfg);
    let ghost tks = line_toks(tv);
    proof {
        assert(toks.deep_view() == tks);
    }
    if toks.len() < 2 {
        pu.msgs.unknown = Some(line.clone());
        return false;
    }
    proof {
        lemma_toks_deep_view(&toks, 0);
        lemma_toks_deep_view(&toks, 1);
    }
    let show_pat = str_chars("show");
    if starts_with_chars(toks[0].as_slice(), show_pat.as_slice()) {
        let tc = match parse_u64(toks[1].as_slice()) {
            Err(_) => {
                pu.msgs.unknown = Some(line.clone());
                return false;
            },
            Ok(tc) => tc,
        };
        pu.msgs.stime = Some(chars_to_string(toks[1].as_slice()));
        pu.timecounter = tc;
        process_show(&toks, xs, pu);
        return true;
    }
    let playmode_pat = str_chars("playmode");
    if starts_with_chars(toks[0].as_slice(), playmode_pat.as_slice()) {
        pu.msgs.stime = Some(chars_to_string(toks[1].as_slice()));
        pu.msgs.game = Some(line.clone());
        return false;
    }
    let team_pat = str_chars("team");
    if starts_with_chars(toks[0].as_slice(), team_pat.as_slice()) {
        pu.msgs.stime = Some(chars_to_string(toks[1].as_slice()));
        pu.msgs.score = Some(line.clone());
        return false;
    }
    pu.msgs.stime = Some(chars_to_string(toks[1].as_slice()));
    pu.msgs.unknown = Some(line.clone());
    false
}

/// Decode one token of a snapshot line into the update.
fn apply_subrec_exec(tok: &[char], xs: &XSpaces, pu: &mut PositionsUpdate)
    requires
        xs.wf(),
    ensures
        final(pu).model() == apply_subrec(tok@, *xs, old(pu).model()),
{
    let pl = str_chars("((l");
    let pr = str_chars("((r");
    let pb = str_chars("((b");
    let hit = starts_with_chars(tok, pl.as_slice()) || starts_with_chars(tok, pr.as_slice())
        || starts_with_chars(tok, pb.as_slice());
    if !hit {
        return ;
    }
    let cfg = TokCfg::log_format();
    let inner = match peel_bracket(tok, &cfg) {
        Ok(v) => v,
        Err(_) => {
            return ;
        },
    };
    let vd = tokens_vec(inner.as_slice(), ' ', true, true, &cfg);
    if vd.len() == 0 {
        return ;
    }
    proof {
        lemma_toks_deep_view(&vd, 0);
    }
    let ball_pat = str_chars("(b");
    if starts_with_chars(vd[0].as_slice(), ball_pat.as_slice()) {
        apply_ball_exec(&vd, xs, pu);
    } else {
        apply_player_exec(&vd, xs, pu);
    }
}

} // verus!

//! Interpolated-motion generator: from a list of timestamped waypoint lines
//! it produces, for each queried tick, a position advancing linearly toward
//! the next waypoint, snapping exactly onto any waypoint whose time has been
//! reached or passed, and extrapolating with the last displacement once the
//! data runs out. Repeating a query at the same tick returns the cached
//! position.
//!
//! A malformed waypoint line stops the re-anchoring step just as exhausted
//! data does; the generator keeps extrapolating rather than failing.

use vstd::prelude::*;
use crate::fx::{tdiv, sat_add, div_trunc, add_sat, sub_div_trunc};
use crate::strutil::{trim_spec, contains_char, first_occ, trim_chars, str_chars,
    split_once_char, slice_range_vec, lemma_lines_deep_view};
use crate::numparse::{u64_grammar, digits_val, dec_grammar, dec_in_range, dec_micro_val,
    parse_u64, parse_fixed};

verus! {

/// Largest waypoint time accepted.
pub const TIME_LIM: u64 = 1_000_000_000_000;

/// Largest waypoint coordinate magnitude accepted, in millionths.
pub const POS_LIM: i64 = 1_000_000_000_000_000;

/// First comma-separated part of a waypoint line.
pub open spec fn wp_p1(l: Seq<char>) -> Seq<char> {
    l.take(first_occ(l, ','))
}

/// Rest of a waypoint line after its first comma.
pub open spec fn wp_rest(l: Seq<char>) -> Seq<char> {
    l.skip(first_occ(l, ',') + 1)
}

/// Second comma-separated part.
pub open spec fn wp_p2(l: Seq<char>) -> Seq<char> {
    wp_rest(l).take(first_occ(wp_rest(l), ','))
}

/// Third comma-separated part (up to a fourth comma or the end).
pub open spec fn wp_p3(l: Seq<char>) -> Seq<char> {
    let r2 = wp_rest(l).skip(first_occ(wp_rest(l), ',') + 1);
    r2.take(first_occ(r2, ','))
}

/// A waypoint line that re-anchors the generator: not blank, three
/// comma-separated fields, a bounded time and two bounded coordinates.
pub open spec fn wp_ok(l: Seq<char>) -> bool {
    &&& trim_spec(l).len() > 0
    &&& contains_char(l, ',')
    &&& contains_char(wp_rest(l), ',')
    &&& u64_grammar(wp_p1(l))
    &&& digits_val(wp_p1(l)) <= TIME_LIM
    &&& dec_grammar(wp_p2(l)) && dec_in_range(wp_p2(l))
    &&& -(POS_LIM as int) <= dec_micro_val(wp_p2(l)) <= POS_LIM as int
    &&& dec_grammar(wp_p3(l)) && dec_in_range(wp_p3(l))
    &&& -(POS_LIM as int) <= dec_micro_val(wp_p3(l)) <= POS_LIM as int
}

/// The interpolation state of the generator, without the line list and the
/// query cache.
#[verifier::ext_equal]
pub struct VbState {
    pub vin: int,
    pub ltime: int,
    pub lpos: (int, int),
    pub cpos: (int, int),
    pub mov: (int, int),
    pub stepsize: int,
    pub stepdone: int,
}

/// The catch-up walk of one query at time `t`: while `t` has passed the last
/// known waypoint time, the next line is consumed. A waypoint whose time
/// delta from `t` is zero or negative snaps the position exactly onto it — a
/// strictly past one then continues the walk, one at exactly `t` ends it
/// (the second component is then true). A future waypoint sets the per-step
/// displacement toward it, divided over the remaining ticks plus one.
/// Exhausted or unparsable data ends the walk.
pub open spec fn vb_advance(lines: Seq<Seq<char>>, st: VbState, t: int) -> (VbState, bool)
    decreases lines.len() - st.vin,
{
    if !(t > st.ltime) {
        (st, false)
    } else if st.vin < 0 || st.vin >= lines.len() {
        (st, false)
    } else if !wp_ok(lines[st.vin]) {
        (VbState { vin: st.vin + 1, ..st }, false)
    } else {
        let l = lines[st.vin];
        let nt = digits_val(wp_p1(l));
        let nx = dec_micro_val(wp_p2(l));
        let ny = dec_micro_val(wp_p3(l));
        let st1 = VbState { vin: st.vin + 1, ltime: nt, lpos: (nx, ny), ..st };
        if nt < t {
            vb_advance(lines, VbState { cpos: st1.lpos, ..st1 }, t)
        } else if nt == t {
            (VbState { cpos: st1.lpos, ..st1 }, true)
        } else {
            (VbState {
                stepsize: tdiv(1_000_000, nt - t),
                stepdone: 0,
                mov: (tdiv(nx - st.cpos.0, nt - t + 1), tdiv(ny - st.cpos.1, nt - t + 1)),
                ..st1
            }, false)
        }
    }
}

/// Parse one waypoint line; `Some` exactly for lines that re-anchor.
fn extract_wp(line: &String) -> (r: Option<(u64, i64, i64)>)
    ensures
        match r {
            Some(w) => wp_ok(line@) && w.0 == digits_val(wp_p1(line@))
                && w.1 == dec_micro_val(wp_p2(line@)) && w.2 == dec_micro_val(wp_p3(line@)),
            None => !wp_ok(line@),
        },
{
    let chars = str_chars(line.as_str());
    let trimmed = trim_chars(chars.as_slice());
    if trimmed.len() == 0 {
        return None;
    }
    let (p1, rest) = match split_once_char(chars.as_slice(), ',') {
        Some(parts) => parts,
        None => {
            return None;
        },
    };
    let (p2, r2) = match split_once_char(rest.as_slice(), ',') {
        Some(parts) => parts,
        None => {
            return None;
        },
    };
    let p3 = match split_once_char(r2.as_slice(), ',') {
        Some(parts) => parts.0,
        None => {
            let w = slice_range_vec(r2.as_slice(), 0, r2.len());
            proof {
                crate::strutil::lemma_first_occ(r2@, ',');
                assert(w@ =~= r2@.take(first_occ(r2@, ',')));
            }
            w
        },
    };
    proof {
        assert(p1@ == wp_p1(line@));
        assert(p2@ == wp_p2(line@));
        assert(p3@ == wp_p3(line@));
    }
    let t = match parse_u64(p1.as_slice()) {
        Ok(t) => t,
        Err(_) => {
            return None;
        },
    };
    if t > TIME_LIM {
        return None;
    }
    let x = match parse_fixed(p2.as_slice()) {
        Ok(x) => x,
        Err(_) => {
            return None;
        },
    };
    if x < -POS_LIM || x > POS_LIM {
        return None;
    }
    let y = match parse_fixed(p3.as_slice()) {
        Ok(y) => y,
        Err(_) => {
            return None;
        },
    };
    if y < -POS_LIM || y > POS_LIM {
        return None;
    }
    Some((t, x, y))
}

/// The generator: the waypoint lines, a cursor into them, the last waypoint
/// taken (time and position), the current position, the per-step
/// displacement, the cached query time, and the step-progress bookkeeping.
/// Positions and displacements are fixed-point millionths; position updates
/// saturate at the integer range instead of overflowing.
pub struct VirtBall {
    pub vdata: Vec<String>,
    pub vin: usize,
    pub ltime: u64,
    pub lpos: (i64, i64),
    pub cpos: (i64, i64),
    pub mov: (i64, i64),
    pub lastgentime: u64,
    pub stepsize: i64,
    pub stepdone: i64,
}

impl VirtBall {
    pub open spec fn wf(&self) -> bool {
        &&& self.vin <= self.vdata@.len()
        &&& self.vdata@.len() <= 0x7fff_ffff_ffff_fffe
        &&& self.ltime <= TIME_LIM
    }

    pub open spec fn model(&self) -> VbState {
        VbState {
            vin: self.vin as int,
            ltime: self.ltime as int,
            lpos: (self.lpos.0 as int, self.lpos.1 as int),
            cpos: (self.cpos.0 as int, self.cpos.1 as int),
            mov: (self.mov.0 as int, self.mov.1 as int),
            stepsize: self.stepsize as int,
            stepdone: self.stepdone as int,
        }
    }

    /// Build a generator over the lines of a waypoint file.
    pub fn new(vdata: Vec<String>) -> (r: VirtBall)
        requires
            vdata@.len() <= 0x7fff_ffff_ffff_fffe,
        ensures
            r.wf(),
            r.vdata == vdata,
            r.vin == 0 && r.ltime == 0 && r.lastgentime == 0,
            r.lpos == (0i64, 0i64) && r.cpos == (0i64, 0i64) && r.mov == (0i64, 0i64),
            r.stepsize == 0 && r.stepdone == 0,
    {
        VirtBall {
            vdata,
            vin: 0,
            ltime: 0,
            lpos: (0, 0),
            cpos: (0, 0),
            mov: (0, 0),
            lastgentime: 0,
            stepsize: 0,
            stepdone: 0,
        }
    }

    /// The interpolated position for query time `ctime`. Repeating the last
    /// query returns the cached position unchanged; otherwise the generator
    /// catches up through the waypoint list as `vb_advance` says and, unless
    /// it snapped onto a waypoint, moves one displacement step (saturating).
    #[verifier::loop_isolation(true)]
    pub fn next_record(&mut self, ctime: u64) -> (r: (i64, i64))
        requires
            old(self).wf(),
        ensures
            final(self).wf(),
            final(self).vdata == old(self).vdata,
            r == final(self).cpos,
            ctime == old(self).lastgentime ==> *final(self) == *old(self),
            ctime != old(self).lastgentime ==> final(self).lastgentime == ctime && ({
                let a = vb_advance(old(self).vdata.deep_view(), old(self).model(),
                    ctime as int);
                if a.1 {
                    final(self).model() == a.0
                } else {
                    final(self).model() == (VbState {
                        cpos: (sat_add(a.0.cpos.0, a.0.mov.0), sat_add(a.0.cpos.1, a.0.mov.1)),
                        ..a.0
                    })
                }
            }),
    {
        if ctime == self.lastgentime {
            return self.cpos;
        }
        self.lastgentime = ctime;
        let ghost ldv = self.vdata.deep_view();
        let ghost st0 = self.model();
        let ghost tgt = vb_advance(ldv, st0, ctime as int);
        let n = self.vdata.len();
        let mut snapped = false;
        loop
            invariant_except_break
                !snapped,
                n == self.vdata@.len(),
                ldv == self.vdata.deep_view(),
                self.wf(),
                self.vdata == old(self).vdata,
                self.lastgentime == ctime,
                vb_advance(ldv, self.model(), ctime as int) == tgt,
            invariant
                n == self.vdata@.len(),
                self.vdata == old(self).vdata,
                self.lastgentime == ctime,
                self.wf(),
            ensures
                snapped == tgt.1,
                self.model() == tgt.0,
            decreases n - self.vin, (if ctime > self.ltime { 1int } else { 0int }),
        {
            if !(ctime > self.ltime) {
                proof {
                    assert(tgt == (self.model(), false));
                }
                break;
            }
            if self.vin >= n {
                proof {
                    assert(tgt == (self.model(), false));
                }
                break;
            }
            proof {
                lemma_lines_deep_view(&self.vdata, self.vin as int);
            }
            let parsed = extract_wp(&self.vdata[self.vin]);
            self.vin = self.vin + 1;
            match parsed {
                None => {
                    proof {
                        assert(tgt == (self.model(), false));
                    }
                    break;
                },
                Some((nt, nx, ny)) => {
                    self.ltime = nt;
                    self.lpos = (nx, ny);
                    if nt < ctime {
                        // a waypoint already in the past: snap onto it and
                        // keep walking
                        self.cpos = self.lpos;
                    } else if nt == ctime {
                        self.cpos = self.lpos;
                        snapped = true;
                        proof {
                            assert(tgt == (self.model(), true));
                        }
                        break;
                    } else {
                        let dt: u64 = nt - ctime;
                        let dti: i64 = dt as i64;
                        self.stepsize = div_trunc(1_000_000, dti);
                        self.stepdone = 0;
                        self.mov = (sub_div_trunc(nx, self.cpos.0, dti + 1),
                            sub_div_trunc(ny, self.cpos.1, dti + 1));
                        proof {
                            assert(vb_advance(ldv, self.model(), ctime as int)
                                == (self.model(), false));
                        }
                    }
                },
            }
        }
        if !snapped {
            self.cpos = (add_sat(self.cpos.0, self.mov.0), add_sat(self.cpos.1, self.mov.1));
        }
        self.cpos
    }

    /// Shift the waypoint cursor by a signed delta (clamped to the list) and
    /// re-anchor on the waypoint found there, if it parses. The current
    /// position, displacement and query cache are untouched.
    pub fn seek(&mut self, seekdelta: i64)
        requires
            old(self).wf(),
        ensures
            final(self).wf(),
            final(self).vdata == old(self).vdata,
            final(self).cpos == old(self).cpos && final(self).mov == old(self).mov
                && final(self).lastgentime == old(self).lastgentime
                && final(self).stepsize == old(self).stepsize
                && final(self).stepdone == old(self).stepdone,
            ({
                let n = old(self).vdata@.len() as int;
                let nv = if old(self).vin + seekdelta < 0 {
                    0
                } else if old(self).vin + seekdelta > n {
                    n
                } else {
                    old(self).vin + seekdelta
                };
                if nv < n {
                    &&& final(self).vin == nv + 1
                    &&& if wp_ok(old(self).vdata.deep_view()[nv]) {
                        final(self).ltime == digits_val(wp_p1(old(self).vdata.deep_view()[nv]))
                            && final(self).lpos == (
                            dec_micro_val(wp_p2(old(self).vdata.deep_view()[nv])) as i64,
                            dec_micro_val(wp_p3(old(self).vdata.deep_view()[nv])) as i64,
                        )
                    } else {
                        final(self).ltime == old(self).ltime && final(self).lpos == old(
                            self).lpos
                    }
                } else {
                    final(self).vin == nv && final(self).ltime == old(self).ltime
                        && final(self).lpos == old(self).lpos
                }
            }),
    {
        let n = self.vdata.len();
        let target: i128 = self.vin as i128 + seekdelta as i128;
        let nv: usize = if target < 0 {
            0
        } else if target > n as i128 {
            n
        } else {
            target as usize
        };
        if nv < n {
            proof {
                lemma_lines_deep_view(&self.vdata, nv as int);
            }
            let parsed = extract_wp(&self.vdata[nv]);
            self.vin = nv + 1;
            match parsed {
                None => {},
                Some((nt, nx, ny)) => {
                    self.ltime = nt;
                    self.lpos = (nx, ny);
                },
            }
        } else {
            self.vin = nv;
        }
    }
}

} // verus!

//! Playground entities: the two teams of markers the renderer shows. Each
//! entity either sits at its position or glides toward a target over a fixed
//! number of frames. Drawing is computed here as data — normalized lines and
//! markers — and painted elsewhere.

use vstd::prelude::*;
use crate::fx::{tdiv, sub_div_trunc};
use crate::playdata::PositionsUpdate;

verus! {

/// Frames over which a non-absolute update glides an entity to its target.
pub const INTERP_FRAMES: u32 = 4;

/// Background color of the playground (red, green, blue, alpha).
pub const BG_R: u8 = 20;

pub const BG_G: u8 = 200;

pub const BG_B: u8 = 20;

pub const BG_A: u8 = 255;

/// The background color shifted by a per-channel offset.
pub fn screen_color_bg_rel(r: u8, g: u8, b: u8) -> (c: (u8, u8, u8, u8))
    requires
        r <= 255 - BG_R,
        g <= 255 - BG_G,
        b <= 255 - BG_B,
    ensures
        c == (((BG_R + r) as u8, (BG_G + g) as u8, (BG_B + b) as u8, BG_A)),
{
    (BG_R + r, BG_G + g, BG_B + b, BG_A)
}

/// One team marker: where it stands, where it glides to, and how many frames
/// of the glide are left.
#[derive(Clone, Copy)]
pub struct Entity {
    pub pos: (i64, i64),
    pub target: (i64, i64),
    pub steps_left: u32,
}

/// A drawing primitive in normalized fixed-point coordinates.
#[derive(Clone, Copy, PartialEq, Eq, Structural, Debug)]
pub enum DrawCmd {
    /// A line from one point to another; `mid` marks the center line.
    Line(i64, i64, i64, i64, bool),
    /// A team marker: team A when the flag is set, with its index.
    Marker(i64, i64, bool, i32),
}

/// The two teams of the playground.
pub struct Entities {
    pub ateam: Vec<Entity>,
    pub bteam: Vec<Entity>,
}

/// One glide frame of a single entity: with frames left it moves by the
/// remaining distance divided by the frames left (so it lands exactly on the
/// target at the last frame); otherwise it rests.
pub open spec fn entity_frame(e: Entity) -> Entity {
    if e.steps_left > 0 {
        Entity {
            pos: ((e.pos.0 + tdiv(e.target.0 - e.pos.0, e.steps_left as int)) as i64,
                (e.pos.1 + tdiv(e.target.1 - e.pos.1, e.steps_left as int)) as i64),
            target: e.target,
            steps_left: (e.steps_left - 1) as u32,
        }
    } else {
        e
    }
}

/// Effect of one positions list on one team: each entry whose index is in
/// range either teleports its entity (absolute) or re-targets its glide.
pub open spec fn team_update(team: Seq<Entity>, ps: Seq<(i32, i64, i64)>, babsolute: bool,
    k: int) -> Seq<Entity>
    decreases ps.len() - k,
{
    if k < 0 || k >= ps.len() {
        team
    } else {
        let p = ps[k];
        let t2 = if 0 <= p.0 < team.len() {
            if babsolute {
                team.update(p.0 as int, Entity {
                    pos: (p.1, p.2),
                    target: (p.1, p.2),
                    steps_left: 0,
                })
            } else {
                team.update(p.0 as int, Entity {
                    pos: team[p.0 as int].pos,
                    target: (p.1, p.2),
                    steps_left: INTERP_FRAMES,
                })
            }
        } else {
            team
        };
        team_update(t2, ps, babsolute, k + 1)
    }
}

/// Apply one positions list to one team.
fn team_update_exec(team: &mut Vec<Entity>, ps: &Vec<(i32, i64, i64)>, babsolute: bool)
    ensures
        final(team)@ == team_update(old(team)@, ps@, babsolute, 0),
{
    let n = ps.len();
    let mut k: usize = 0;
    while k < n
        invariant
            k <= n,
            n == ps@.len(),
            team_update(team@, ps@, babsolute, k as int) == team_update(old(team)@, ps@,
                babsolute, 0),
        decreases n - k,
    {
        let p = ps[k];
        if p.0 >= 0 && (p.0 as usize) < team.len() {
            let i = p.0 as usize;
            if babsolute {
                team.set(i, Entity { pos: (p.1, p.2), target: (p.1, p.2), steps_left: 0 });
            } else {
                let cur = team[i].pos;
                team.set(i, Entity { pos: cur, target: (p.1, p.2),
                    steps_left: INTERP_FRAMES });
            }
        }
        k = k + 1;
    }
}

/// One glide frame of a whole team.
fn team_frame_exec(team: &mut Vec<Entity>)
    ensures
        final(team)@.len() == old(team)@.len(),
        forall|i: int| 0 <= i < final(team)@.len() ==> final(team)@[i]
            == entity_frame(old(team)@[i]),
{
    let n = team.len();
    let mut k: usize = 0;
    while k < n
        invariant
            k <= n,
            n == team@.len(),
            forall|i: int| k <= i < n ==> team@[i] == old(team)@[i],
            forall|i: int| 0 <= i < k ==> team@[i] == entity_frame(old(team)@[i]),
        decreases n - k,
    {
        let e = team[k];
        if e.steps_left > 0 {
            let sl = e.steps_left;
            let nx = move_coord(e.pos.0, e.target.0, sl);
            let ny = move_coord(e.pos.1, e.target.1, sl);
            team.set(k, Entity { pos: (nx, ny), target: e.target, steps_left: sl - 1 });
        }
        k = k + 1;
    }
}

/// One axis of a glide frame: the position moves toward the target by the
/// remaining distance divided by the frames left, never overshooting.
fn move_coord(pos: i64, target: i64, sl: u32) -> (r: i64)
    requires
        sl > 0,
    ensures
        r == pos + tdiv(target as int - pos as int, sl as int),
{
    if sl == 1 {
        proof {
            assert(tdiv(target as int - pos as int, 1) == target as int - pos as int);
        }
        target
    } else {
        let d = sub_div_trunc(target, pos, sl as i64);
        proof {
            crate::fx::lemma_tdiv_bound(target as int - pos as int, sl as int);
        }
        pos + d
    }
}

impl Entities {
    /// Two teams of the given sizes, all markers resting at the origin.
    pub fn new(anplayers: usize, bnplayers: usize) -> (r: Entities)
        ensures
            r.ateam@.len() == anplayers,
            r.bteam@.len() == bnplayers,
            forall|i: int| 0 <= i < anplayers ==> r.ateam@[i] == (Entity {
                pos: (0i64, 0i64),
                target: (0i64, 0i64),
                steps_left: 0u32,
            }),
            forall|i: int| 0 <= i < bnplayers ==> r.bteam@[i] == (Entity {
                pos: (0i64, 0i64),
                target: (0i64, 0i64),
                steps_left: 0u32,
            }),
    {
        let rest = Entity { pos: (0, 0), target: (0, 0), steps_left: 0 };
        let mut a: Vec<Entity> = Vec::new();
        let mut i: usize = 0;
        while i < anplayers
            invariant
                i <= anplayers,
                a@.len() == i,
                forall|j: int| 0 <= j < i ==> a@[j] == (Entity {
                    pos: (0i64, 0i64),
                    target: (0i64, 0i64),
                    steps_left: 0u32,
                }),
            decreases anplayers - i,
        {
            a.push(rest);
            i = i + 1;
        }
        let mut b: Vec<Entity> = Vec::new();
        let mut j: usize = 0;
        while j < bnplayers
            invariant
                j <= bnplayers,
                b@.len() == j,
                forall|jj: int| 0 <= jj < j ==> b@[jj] == (Entity {
                    pos: (0i64, 0i64),
                    target: (0i64, 0i64),
                    steps_left: 0u32,
                }),
            decreases bnplayers - j,
        {
            b.push(rest);
            j = j + 1;
        }
        Entities { ateam: a, bteam: b }
    }

    /// Take one update: each listed player position teleports (absolute) or
    /// re-targets its marker's glide.
    pub fn update(&mut self, pu: PositionsUpdate, babsolute: bool)
        ensures
            final(self).ateam@ == team_update(old(self).ateam@, pu.ateampositions@, babsolute,
                0),
            final(self).bteam@ == team_update(old(self).bteam@, pu.bteampositions@, babsolute,
                0),
    {
        team_update_exec(&mut self.ateam, &pu.ateampositions, babsolute);
        team_update_exec(&mut self.bteam, &pu.bteampositions, babsolute);
    }

    /// Advance every marker one glide frame.
    pub fn next_frame(&mut self)
        ensures
            final(self).ateam@.len() == old(self).ateam@.len(),
            final(self).bteam@.len() == old(self).bteam@.len(),
            forall|i: int| 0 <= i < final(self).ateam@.len() ==> final(self).ateam@[i]
                == entity_frame(old(self).ateam@[i]),
            forall|i: int| 0 <= i < final(self).bteam@.len() ==> final(self).bteam@[i]
                == entity_frame(old(self).bteam@[i]),
    {
        team_frame_exec(&mut self.ateam);
        team_frame_exec(&mut self.bteam);
    }

    /// What one team contributes to the drawing: one marker per entity.
    pub open spec fn team_cmds(team: Seq<Entity>, is_a: bool) -> Seq<DrawCmd> {
        Seq::new(team.len(), |i: int| DrawCmd::Marker(team[i].pos.0, team[i].pos.1, is_a,
            i as i32))
    }

    /// The pitch outline: four border lines and the center line.
    pub open spec fn pitch_cmds() -> Seq<DrawCmd> {
        seq![
            DrawCmd::Line(20_000, 20_000, 980_000, 20_000, false),
            DrawCmd::Line(20_000, 20_000, 20_000, 980_000, false),
            DrawCmd::Line(20_000, 980_000, 980_000, 980_000, false),
            DrawCmd::Line(980_000, 20_000, 980_000, 980_000, false),
            DrawCmd::Line(500_000, 20_000, 500_000, 980_000, true),
        ]
    }

    /// The full drawing of one frame: the pitch, then team A's markers, then
    /// team B's, in index order.
    pub fn draw(&self) -> (r: Vec<DrawCmd>)
        requires
            self.ateam@.len() <= 0x7fff_ffff,
            self.bteam@.len() <= 0x7fff_ffff,
        ensures
            r@ == Self::pitch_cmds() + Self::team_cmds(self.ateam@, true)
                + Self::team_cmds(self.bteam@, false),
    {
        let mut r: Vec<DrawCmd> = Vec::new();
        r.push(DrawCmd::Line(20_000, 20_000, 980_000, 20_000, false));
        r.push(DrawCmd::Line(20_000, 20_000, 20_000, 980_000, false));
        r.push(DrawCmd::Line(20_000, 980_000, 980_000, 980_000, false));
        r.push(DrawCmd::Line(980_000, 20_000, 980_000, 980_000, false));
        r.push(DrawCmd::Line(500_000, 20_000, 500_000, 980_000, true));
        proof {
            assert(r@ =~= Self::pitch_cmds());
        }
        let mut i: usize = 0;
        while i < self.ateam.len()
            invariant
                i <= self.ateam@.len(),
                self.ateam@.len() <= 0x7fff_ffff,
                r@ == Self::pitch_cmds() + Self::team_cmds(self.ateam@.take(i as int), true),
            decreases self.ateam@.len() - i,
        {
            let e = &self.ateam[i];
            r.push(DrawCmd::Marker(e.pos.0, e.pos.1, true, i as i32));
            i = i + 1;
            proof {
                assert(r@ =~= Self::pitch_cmds() + Self::team_cmds(self.ateam@.take(i as int),
                    true));
            }
        }
        proof {
            assert(self.ateam@.take(self.ateam@.len() as int) =~= self.ateam@);
        }
        let mut j: usize = 0;
        while j < self.bteam.len()
            invariant
                j <= self.bteam@.len(),
                self.bteam@.len() <= 0x7fff_ffff,
                r@ == Self::pitch_cmds() + Self::team_cmds(self.ateam@, true)
                    + Self::team_cmds(self.bteam@.take(j as int), false),
            decreases self.bteam@.len() - j,
        {
            let e = &self.bteam[j];
            r.push(DrawCmd::Marker(e.pos.0, e.pos.1, false, j as i32));
            j = j + 1;
            proof {
                assert(r@ =~= Self::pitch_cmds() + Self::team_cmds(self.ateam@, true)
                    + Self::team_cmds(self.bteam@.take(j as int), false));
            }
        }
        proof {
            assert(self.bteam@.take(self.bteam@.len() as int) =~= self.bteam@);
        }
        r
    }
}

} // verus!

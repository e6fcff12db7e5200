//! The normalized per-tick output shared by every record source: ball and
//! player positions in the unit square, per-player action/card/stamina data,
//! diagnostic messages keyed by category, and the action/card bitmask decode.

use vstd::prelude::*;
use crate::fx::SCALE;

verus! {

/// Disciplinary card state of a player.
#[derive(Clone, Copy, PartialEq, Eq, Structural, Debug)]
pub enum Card {
    NoCard,
    Yellow,
    Red,
}

/// Current action of a player.
#[derive(Clone, Copy, PartialEq, Eq, Structural, Debug)]
pub enum Action {
    NoAction,
    Kick,
    Dash,
    Catch,
    Tackle,
}

/// Bit of the state mask that marks a kick.
pub const KICK_BIT: u32 = 0x2;

/// Bit of the state mask that marks a dash.
pub const DASH_BIT: u32 = 0x4;

/// Bit of the state mask that marks a catch.
pub const CATCH_BIT: u32 = 0x8;

/// Bit of the state mask that marks a tackle.
pub const TACKLE_BIT: u32 = 0x10;

/// Bit of the state mask that marks a yellow card.
pub const YELLOW_BIT: u32 = 0x20;

/// Bit of the state mask that marks a red card.
pub const RED_BIT: u32 = 0x40;

/// The fixed lookup from a state bitmask to an (action, card) pair: the
/// lowest set action bit wins, a red card outranks a yellow one, and a mask
/// with no recognized bit decodes to no action and no card.
pub open spec fn spec_handle_state(state: u32) -> (Action, Card) {
    let action = if state & KICK_BIT != 0 {
        Action::Kick
    } else if state & DASH_BIT != 0 {
        Action::Dash
    } else if state & CATCH_BIT != 0 {
        Action::Catch
    } else if state & TACKLE_BIT != 0 {
        Action::Tackle
    } else {
        Action::NoAction
    };
    let card = if state & RED_BIT != 0 {
        Card::Red
    } else if state & YELLOW_BIT != 0 {
        Card::Yellow
    } else {
        Card::NoCard
    };
    (action, card)
}

/// Decode a state bitmask into its (action, card) pair.
pub fn handle_state(state: u32) -> (r: (Action, Card))
    ensures
        r == spec_handle_state(state),
{
    let action = if state & KICK_BIT != 0 {
        Action::Kick
    } else if state & DASH_BIT != 0 {
        Action::Dash
    } else if state & CATCH_BIT != 0 {
        Action::Catch
    } else if state & TACKLE_BIT != 0 {
        Action::Tackle
    } else {
        Action::NoAction
    };
    let card = if state & RED_BIT != 0 {
        Card::Red
    } else if state & YELLOW_BIT != 0 {
        Card::Yellow
    } else {
        Card::NoCard
    };
    (action, card)
}

/// A decoded position lies outside the normalized unit square. Such values
/// are boundary violations: they are kept in the update and counted.
pub open spec fn out_of_square(p: (i64, i64)) -> bool {
    p.0 < 0 || p.0 > SCALE || p.1 < 0 || p.1 > SCALE
}

/// Executable twin of `out_of_square`.
pub fn pos_out_of_square(p: (i64, i64)) -> (r: bool)
    ensures
        r == out_of_square(p),
{
    p.0 < 0 || p.0 > SCALE || p.1 < 0 || p.1 > SCALE
}

/// A diagnostic counter grown by one, saturating instead of wrapping.
pub open spec fn bump(c: u64) -> u64 {
    if c < u64::MAX {
        (c + 1) as u64
    } else {
        c
    }
}

/// Executable twin of `bump`.
pub fn bump_counter(c: u64) -> (r: u64)
    ensures
        r == bump(c),
{
    if c < u64::MAX {
        c + 1
    } else {
        c
    }
}

/// One decoded attribute of a player, in the order the source line carried
/// it. Positions and stamina are fixed-point millionths; stamina is the
/// fraction of the stamina base, clamped above at one.
#[derive(Clone, Copy, PartialEq, Eq, Structural, Debug)]
pub enum PlayerData {
    Card(Card),
    Action(Action),
    Pos(i64, i64),
    Stamina(i64),
}

/// Diagnostic messages of the record last read, keyed by category. A later
/// message of the same category replaces the earlier one.
pub struct Msgs {
    /// The record's own time field.
    pub stime: Option<String>,
    /// A game-state line, verbatim.
    pub game: Option<String>,
    /// A score line, verbatim.
    pub score: Option<String>,
    /// An unrecognized or malformed line, verbatim.
    pub unknown: Option<String>,
}

/// Spec-level image of `Msgs`.
#[verifier::ext_equal]
pub struct MsgsModel {
    pub stime: Option<Seq<char>>,
    pub game: Option<Seq<char>>,
    pub score: Option<Seq<char>>,
    pub unknown: Option<Seq<char>>,
}

impl Msgs {
    pub open spec fn model(&self) -> MsgsModel {
        MsgsModel {
            stime: match self.stime {
                Option::Some(ref s) => Option::Some(s@),
                Option::None => Option::None,
            },
            game: match self.game {
                Option::Some(ref s) => Option::Some(s@),
                Option::None => Option::None,
            },
            score: match self.score {
                Option::Some(ref s) => Option::Some(s@),
                Option::None => Option::None,
            },
            unknown: match self.unknown {
                Option::Some(ref s) => Option::Some(s@),
                Option::None => Option::None,
            },
        }
    }

    pub open spec fn empty_model() -> MsgsModel {
        MsgsModel {
            stime: Option::None,
            game: Option::None,
            score: Option::None,
            unknown: Option::None,
        }
    }

    pub fn new() -> (r: Msgs)
        ensures
            r.model() == Msgs::empty_model(),
    {
        Msgs { stime: Option::None, game: Option::None, score: Option::None,
            unknown: Option::None }
    }
}

/// Spec-level image of one team's coded entries: (zero-based player index,
/// ordered attribute list).
pub open spec fn team_model(v: Seq<(i32, Vec<PlayerData>)>) -> Seq<(i32, Seq<PlayerData>)> {
    v.map_values(|p: (i32, Vec<PlayerData>)| (p.0, p.1@))
}

/// The normalized output of one "produce next record" call. Built fresh per
/// record; positions are fixed-point millionths in the unit square (or
/// outside it for boundary violations, which are kept and counted).
pub struct PositionsUpdate {
    /// Diagnostic messages gathered while producing this record.
    pub msgs: Msgs,
    /// The record counter of the last snapshot.
    pub timecounter: u64,
    /// Ball position in normalized space.
    pub ball: (i64, i64),
    /// Team A (left side): (zero-based player index, x, y).
    pub ateampositions: Vec<(i32, i64, i64)>,
    /// Team B: (zero-based player index, x, y).
    pub bteampositions: Vec<(i32, i64, i64)>,
    /// Team A coded per-player attributes, in source order.
    pub ateamcoded: Vec<(i32, Vec<PlayerData>)>,
    /// Team B coded per-player attributes, in source order.
    pub bteamcoded: Vec<(i32, Vec<PlayerData>)>,
    /// How many decoded positions of this record fell outside the unit
    /// square after the transform (the values themselves are kept).
    pub boundary_violations: u64,
    /// How many player state masks of this record decoded to neither an
    /// action nor a card.
    pub unrecognized_bitmasks: u64,
}

/// Spec-level image of a whole update.
#[verifier::ext_equal]
pub struct PuModel {
    pub msgs: MsgsModel,
    pub timecounter: u64,
    pub ball: (i64, i64),
    pub ateampositions: Seq<(i32, i64, i64)>,
    pub bteampositions: Seq<(i32, i64, i64)>,
    pub ateamcoded: Seq<(i32, Seq<PlayerData>)>,
    pub bteamcoded: Seq<(i32, Seq<PlayerData>)>,
    pub boundary_violations: u64,
    pub unrecognized_bitmasks: u64,
}

impl PositionsUpdate {
    pub open spec fn model(&self) -> PuModel {
        PuModel {
            msgs: self.msgs.model(),
            timecounter: self.timecounter,
            ball: self.ball,
            ateampositions: self.ateampositions@,
            bteampositions: self.bteampositions@,
            ateamcoded: team_model(self.ateamcoded@),
            bteamcoded: team_model(self.bteamcoded@),
            boundary_violations: self.boundary_violations,
            unrecognized_bitmasks: self.unrecognized_bitmasks,
        }
    }

    /// The all-empty update: no messages, zero counter, ball at the origin,
    /// no players, no diagnostics.
    pub open spec fn empty_model() -> PuModel {
        PuModel {
            msgs: Msgs::empty_model(),
            timecounter: 0,
            ball: (0, 0),
            ateampositions: Seq::empty(),
            bteampositions: Seq::empty(),
            ateamcoded: Seq::empty(),
            bteamcoded: Seq::empty(),
            boundary_violations: 0,
            unrecognized_bitmasks: 0,
        }
    }

    pub fn new() -> (r: PositionsUpdate)
        ensures
            r.model() == PositionsUpdate::empty_model(),
    {
        let r = PositionsUpdate {
            msgs: Msgs::new(),
            timecounter: 0,
            ball: (0, 0),
            ateampositions: Vec::new(),
            bteampositions: Vec::new(),
            ateamcoded: Vec::new(),
            bteamcoded: Vec::new(),
            boundary_violations: 0,
            unrecognized_bitmasks: 0,
        };
        proof {
            assert(team_model(r.ateamcoded@) =~= Seq::<(i32, Seq<PlayerData>)>::empty());
            assert(team_model(r.bteamcoded@) =~= Seq::<(i32, Seq<PlayerData>)>::empty());
            assert(r.ateampositions@ =~= Seq::<(i32, i64, i64)>::empty());
            assert(r.bteampositions@ =~= Seq::<(i32, i64, i64)>::empty());
        }
        r
    }
}

} // verus!

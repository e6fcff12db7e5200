use playbackpgnd::entities::{screen_color_bg_rel, DrawCmd, Entities};
use playbackpgnd::playdata::PositionsUpdate;

#[test]
fn glide_reaches_target_in_interp_frames() {
    let mut e = Entities::new(1, 0);
    let mut pu = PositionsUpdate::new();
    pu.ateampositions.push((0, 1_000_000, 1_000_000));
    e.update(pu, false);
    let quarters = [250_000, 500_000, 750_000, 1_000_000];
    for q in quarters {
        e.next_frame();
        assert_eq!(e.ateam[0].pos, (q, q));
    }
    // at rest afterwards
    e.next_frame();
    assert_eq!(e.ateam[0].pos, (1_000_000, 1_000_000));
}

#[test]
fn absolute_update_teleports() {
    let mut e = Entities::new(1, 1);
    let mut pu = PositionsUpdate::new();
    pu.bteampositions.push((0, 300_000, 700_000));
    e.update(pu, true);
    assert_eq!(e.bteam[0].pos, (300_000, 700_000));
    assert_eq!(e.ateam[0].pos, (0, 0));
}

#[test]
fn out_of_range_indices_are_ignored() {
    let mut e = Entities::new(1, 0);
    let mut pu = PositionsUpdate::new();
    pu.ateampositions.push((5, 1_000_000, 1_000_000));
    pu.ateampositions.push((-1, 1_000_000, 1_000_000));
    e.update(pu, true);
    assert_eq!(e.ateam[0].pos, (0, 0));
}

#[test]
fn drawing_starts_with_the_pitch() {
    let e = Entities::new(1, 1);
    let cmds = e.draw();
    assert_eq!(cmds.len(), 7);
    assert_eq!(cmds[0], DrawCmd::Line(20_000, 20_000, 980_000, 20_000, false));
    assert_eq!(cmds[4], DrawCmd::Line(500_000, 20_000, 500_000, 980_000, true));
    assert_eq!(cmds[5], DrawCmd::Marker(0, 0, true, 0));
    assert_eq!(cmds[6], DrawCmd::Marker(0, 0, false, 0));
}

#[test]
fn background_color_shifts_by_offset() {
    assert_eq!(screen_color_bg_rel(20, 0, 0), (40, 200, 20, 255));
    assert_eq!(screen_color_bg_rel(0, 0, 0), (20, 200, 20, 255));
}

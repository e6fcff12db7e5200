use playbackpgnd::playdata::{Action, Card, PlayerData};
use playbackpgnd::rcg::Rcg;

fn lines(v: &[&str]) -> Vec<String> {
    v.iter().map(|s| s.to_string()).collect()
}

const FPS_10: i64 = 10_000_000;

#[test]
fn two_ball_snapshots_normalize() {
    let mut r = Rcg::new(
        lines(&["(show 0 ((b) 0.0 0.0))", "(show 100 ((b) 10.0 0.0))"]),
        FPS_10,
    );
    let pu1 = r.next_record();
    assert_eq!(pu1.timecounter, 0);
    assert_eq!(pu1.ball, (500_000, 500_000));
    assert_eq!(pu1.boundary_violations, 0);
    assert!(!r.bdone());
    let pu2 = r.next_record();
    assert_eq!(pu2.timecounter, 100);
    assert_eq!(pu2.ball, (590_909, 500_000));
    assert!(!r.bdone());
    let _ = r.next_record();
    assert!(r.bdone());
}

#[test]
fn player_subrecord_decodes() {
    let mut r = Rcg::new(
        lines(&["(show 7 ((l 1) 0 0x0 0.0 0.0 (s 4000 1 1 130600)) ((r 2) 0 0x2 10.0 0.0))"]),
        FPS_10,
    );
    let pu = r.next_record();
    assert_eq!(pu.ateamcoded.len(), 1);
    let (idx, items) = &pu.ateamcoded[0];
    assert_eq!(*idx, 0);
    assert_eq!(
        items.as_slice(),
        &[
            PlayerData::Card(Card::NoCard),
            PlayerData::Action(Action::NoAction),
            PlayerData::Pos(500_000, 500_000),
            PlayerData::Stamina(500_000),
        ]
    );
    assert_eq!(pu.bteamcoded.len(), 1);
    let (bidx, bitems) = &pu.bteamcoded[0];
    assert_eq!(*bidx, 1);
    assert_eq!(
        bitems.as_slice(),
        &[
            PlayerData::Card(Card::NoCard),
            PlayerData::Action(Action::Kick),
            PlayerData::Pos(590_909, 500_000),
        ]
    );
    // only the first player's mask decodes to neither action nor card
    assert_eq!(pu.unrecognized_bitmasks, 1);
    assert_eq!(pu.boundary_violations, 0);
}

#[test]
fn out_of_square_positions_are_kept_and_counted() {
    let mut r = Rcg::new(
        lines(&["(show 9 ((b) 100.0 0.0) ((l 1) 0 0x2 200.0 0.0))"]),
        FPS_10,
    );
    let pu = r.next_record();
    // (100 + 55) / 110 = 1.409090...: outside the unit square, still stored
    assert_eq!(pu.ball, (1_409_090, 500_000));
    let (_, items) = &pu.ateamcoded[0];
    assert_eq!(items[2], PlayerData::Pos(2_318_181, 500_000));
    assert_eq!(pu.boundary_violations, 2);
    assert_eq!(pu.unrecognized_bitmasks, 0);
}

#[test]
fn stamina_is_clamped_at_one() {
    let mut r = Rcg::new(lines(&["(show 1 ((l 3) 0 0x0 0.0 0.0 (s 9600 1)))"]), FPS_10);
    let pu = r.next_record();
    let (idx, items) = &pu.ateamcoded[0];
    assert_eq!(*idx, 2);
    assert_eq!(items[3], PlayerData::Stamina(1_000_000));
}

#[test]
fn comments_and_messages_are_consumed_in_one_call() {
    let mut r = Rcg::new(
        lines(&[
            "# a comment",
            "ULG5",
            "(playmode 0 before_kick_off)",
            "(team 1 left right 0 0)",
            "(weird 2 stuff)",
            "(show 3 ((b) 0.0 0.0))",
        ]),
        FPS_10,
    );
    let pu = r.next_record();
    assert_eq!(pu.timecounter, 3);
    assert_eq!(pu.msgs.game.as_deref(), Some("(playmode 0 before_kick_off)"));
    assert_eq!(pu.msgs.score.as_deref(), Some("(team 1 left right 0 0)"));
    assert_eq!(pu.msgs.unknown.as_deref(), Some("(weird 2 stuff)"));
    assert_eq!(pu.msgs.stime.as_deref(), Some("3"));
    assert!(!r.bdone());
}

#[test]
fn malformed_line_is_skipped_not_fatal() {
    let mut r = Rcg::new(lines(&["(show 0 ((b) 0.0", "(show 4 ((b) 0.0 0.0))"]), FPS_10);
    let pu = r.next_record();
    assert_eq!(pu.timecounter, 4);
    assert_eq!(pu.msgs.unknown.as_deref(), Some("(show 0 ((b) 0.0"));
    assert!(!r.bdone());
}

#[test]
fn cadence_matches_record_rate() {
    // seconds per record 0.1, fps 10: a record is due every frame
    let mut r = Rcg::new(lines(&[]), FPS_10);
    for _ in 0..5 {
        assert!(r.next_frame_is_record_ready());
    }
}

#[test]
fn cadence_at_double_rate_alternates() {
    // fps 20: seconds per frame 0.05, a record is due every second frame
    let mut r = Rcg::new(lines(&[]), 20_000_000);
    for _ in 0..3 {
        assert!(!r.next_frame_is_record_ready());
        assert!(r.next_frame_is_record_ready());
    }
}

#[test]
fn seek_backward_clamps_to_first_line() {
    let mut r = Rcg::new(lines(&["(show 0 ((b) 0.0 0.0))", "# x", "# y"]), FPS_10);
    r.seek(-50);
    assert_eq!(r.iline, 0);
    let _ = r.next_record();
    let _ = r.next_record();
    assert!(r.bdone());
    r.seek(-50);
    assert_eq!(r.iline, 0);
    assert!(!r.bdone());
}

#[test]
fn seek_forward_past_end_lands_on_last_line() {
    let mut r = Rcg::new(lines(&["# a", "# b", "# c"]), FPS_10);
    r.seek(50);
    assert_eq!(r.iline, 2);
}

#[test]
fn seek_to_exactly_the_line_count_lands_on_last_line() {
    let mut r = Rcg::new(lines(&["# a", "# b", "# c"]), FPS_10);
    // from the initial cursor -1, a delta of 4 targets exactly the line count
    r.seek(4);
    assert_eq!(r.iline, 2);
    // a done reader seeking onto the boundary is reactivated on the last line
    let mut r2 = Rcg::new(lines(&["(show 0 ((b) 0.0 0.0))", "# x"]), FPS_10);
    let _ = r2.next_record();
    let _ = r2.next_record();
    assert!(r2.bdone());
    assert_eq!(r2.iline, 2);
    r2.seek(0);
    assert_eq!(r2.iline, 1);
    assert!(!r2.bdone());
}

#[test]
fn fps_change_rescales_frame_seconds() {
    let mut r = Rcg::new(lines(&[]), FPS_10);
    assert_eq!(r.seconds_per_record(), 100_000);
    r.fps_changed(20_000_000);
    assert!(!r.next_frame_is_record_ready());
    assert!(r.next_frame_is_record_ready());
}

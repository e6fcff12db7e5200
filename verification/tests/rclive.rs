use playbackpgnd::rclive::RCLive;

#[test]
fn timeout_yields_empty_update_and_not_done() {
    let mut rc = RCLive::new("127.0.0.1:6000");
    let pu = rc.next_record(None);
    assert_eq!(pu.ball, (0, 0));
    assert!(pu.ateampositions.is_empty());
    assert!(pu.bteampositions.is_empty());
    assert!(pu.ateamcoded.is_empty());
    assert!(pu.bteamcoded.is_empty());
    assert!(pu.msgs.stime.is_none());
    assert!(pu.msgs.unknown.is_none());
    assert_eq!(pu.boundary_violations, 0);
    assert_eq!(pu.unrecognized_bitmasks, 0);
    assert!(!rc.bdone());
    rc.seek(-50);
    assert!(!rc.bdone());
}

#[test]
fn frame_with_ball_and_players_decodes() {
    let rc = RCLive::new("127.0.0.1:6000");
    let frame = "{\"type\":\"show\",\"time\":64,\"ball\":{\"x\":0,\"y\":0},\
        \"players\":[{\"side\":\"l\",\"unum\":1,\"x\":10.0,\"y\":0},\
        {\"side\":\"r\",\"unum\":2,\"x\":0,\"y\":0}]}";
    let pu = rc.next_record(Some(frame));
    assert_eq!(pu.ball, (500_000, 500_000));
    assert_eq!(pu.ateampositions.as_slice(), &[(0, 590_909, 500_000)]);
    assert_eq!(pu.bteampositions.as_slice(), &[(1, 500_000, 500_000)]);
}

#[test]
fn unbracketed_frame_is_kept_as_diagnostic() {
    let rc = RCLive::new("127.0.0.1:6000");
    let pu = rc.next_record(Some("garbage"));
    assert_eq!(pu.ball, (0, 0));
    assert!(pu.ateampositions.is_empty());
    assert_eq!(pu.msgs.unknown.as_deref(), Some("garbage"));
}

#[test]
fn handshake_and_cadence_are_fixed() {
    let rc = RCLive::new("203.0.113.7:6000");
    assert_eq!(rc.init_request(), "(dispinit version 5)\r\n");
    assert_eq!(rc.srvraddr, "203.0.113.7:6000");
    assert_eq!(rc.seconds_per_record(), 50_000);
    assert!(rc.next_frame_is_record_ready());
}

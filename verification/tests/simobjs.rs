use playbackpgnd::simobjs::VirtBall;

fn lines(v: &[&str]) -> Vec<String> {
    v.iter().map(|s| s.to_string()).collect()
}

#[test]
fn linear_interpolation_reaches_midpoint() {
    // waypoints at t=0 pos (0,0) and t=10 pos (10,0), queried each tick
    let mut vb = VirtBall::new(lines(&["0,0,0", "10,10.0,0"]));
    let mut last = (0, 0);
    for t in 1..=5u64 {
        last = vb.next_record(t);
    }
    assert_eq!(last, (5_000_000, 0));
}

#[test]
fn repeated_query_returns_cached_position() {
    let mut vb = VirtBall::new(lines(&["0,0,0", "10,10.0,0"]));
    for t in 1..=5u64 {
        vb.next_record(t);
    }
    let a = vb.next_record(5);
    let b = vb.next_record(5);
    assert_eq!(a, (5_000_000, 0));
    assert_eq!(a, b);
}

#[test]
fn exhausted_data_keeps_extrapolating() {
    let mut vb = VirtBall::new(lines(&["0,0,0", "10,10.0,0"]));
    for t in 1..=10u64 {
        vb.next_record(t);
    }
    // past the last waypoint: the last per-step displacement keeps applying
    let p15 = vb.next_record(15);
    assert_eq!(p15, (11_000_000, 0));
    let p16 = vb.next_record(16);
    assert_eq!(p16, (12_000_000, 0));
}

#[test]
fn exact_waypoint_time_snaps_to_it() {
    let mut vb = VirtBall::new(lines(&["5,3.0,4.0"]));
    let p = vb.next_record(5);
    assert_eq!(p, (3_000_000, 4_000_000));
}

#[test]
fn past_waypoint_snaps_before_walking_on() {
    // a waypoint already in the past snaps the position onto it; with no
    // displacement yet, the position is exactly the waypoint
    let mut vb = VirtBall::new(lines(&["3,7.0,8.0"]));
    let p = vb.next_record(5);
    assert_eq!(p, (7_000_000, 8_000_000));
    // several stale waypoints: the last one wins
    let mut vb2 = VirtBall::new(lines(&["1,1.0,0", "2,2.0,0"]));
    let p2 = vb2.next_record(5);
    assert_eq!(p2, (2_000_000, 0));
}

#[test]
fn blank_line_stops_reanchoring() {
    let mut vb = VirtBall::new(lines(&["", "10,10.0,0"]));
    let p = vb.next_record(1);
    // the blank first line ends the catch-up; motion stays at rest
    assert_eq!(p, (0, 0));
}

#[test]
fn seek_backward_clamps_to_first_waypoint() {
    let mut vb = VirtBall::new(lines(&["0,0,0", "10,10.0,0", "20,20.0,0"]));
    for t in 1..=5u64 {
        vb.next_record(t);
    }
    vb.seek(-50);
    assert_eq!(vb.vin, 1);
    assert_eq!(vb.ltime, 0);
    assert_eq!(vb.lpos, (0, 0));
}

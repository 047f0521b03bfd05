use icfp::{evaluate, is_blocked, Attendee, Point, Prob, Sol};

fn base_prob(musicians: Vec<usize>, attendees: Vec<Attendee>) -> Prob {
    Prob {
        room_width: 1000,
        room_height: 1000,
        stage_width: 400,
        stage_height: 200,
        stage_bottom_left: (0, 0),
        musicians,
        attendees,
    }
}

fn listener(x: i64, y: i64, tastes: Vec<i64>) -> Attendee {
    Attendee { x, y, tastes }
}

#[test]
fn no_listeners_scores_zero() {
    let prob = base_prob(vec![0], vec![]);
    let sol = Sol { placements: vec![Point { x: 100, y: 100 }] };
    let res = evaluate(&prob, &sol);
    assert_eq!(res.msg, "");
    assert_eq!(res.value, 0);
}

#[test]
fn single_pair_at_distance_100() {
    // One performer, one listener 100 units away, taste 1:
    // ceil(1_000_000 * 1 / 10_000) == 100.
    let prob = base_prob(vec![0], vec![listener(250, 100, vec![1])]);
    let sol = Sol { placements: vec![Point { x: 150, y: 100 }] };
    let res = evaluate(&prob, &sol);
    assert_eq!(res.msg, "");
    assert_eq!(res.value, 100);
}

#[test]
fn midpoint_performer_blocks_silently() {
    // A second performer exactly at the midpoint of the pair blocks the
    // first performer's path; the second plays an instrument nobody
    // cares for.  Occlusion is a silent zero, not a rejection.
    let prob = base_prob(vec![0, 1], vec![listener(250, 100, vec![1, 0])]);
    let sol = Sol {
        placements: vec![Point { x: 150, y: 100 }, Point { x: 200, y: 100 }],
    };
    let res = evaluate(&prob, &sol);
    assert_eq!(res.msg, "");
    assert_eq!(res.value, 0);
}

#[test]
fn out_of_bounds_rejected_with_message() {
    let prob = base_prob(vec![0], vec![listener(300, 100, vec![1])]);
    let sol = Sol { placements: vec![Point { x: 5, y: 5 }] };
    let res = evaluate(&prob, &sol);
    assert_eq!(res.msg, "player 0 out of bounds (5,5)");
    assert_eq!(res.value, 0);
}

#[test]
fn out_of_bounds_names_first_offender() {
    let prob = base_prob(vec![0, 0], vec![]);
    let sol = Sol {
        placements: vec![Point { x: 100, y: 100 }, Point { x: 395, y: 20 }],
    };
    let res = evaluate(&prob, &sol);
    assert_eq!(res.msg, "player 1 out of bounds (395,20)");
    assert_eq!(res.value, 0);
}

#[test]
fn out_of_bounds_message_with_negative_coordinates() {
    let prob = base_prob(vec![0], vec![]);
    let sol = Sol { placements: vec![Point { x: -5, y: -17 }] };
    let res = evaluate(&prob, &sol);
    assert_eq!(res.msg, "player 0 out of bounds (-5,-17)");
    assert_eq!(res.value, 0);
}

#[test]
fn close_pair_rejected_with_message() {
    let prob = base_prob(vec![0, 0], vec![listener(250, 100, vec![1])]);
    let sol = Sol {
        placements: vec![Point { x: 100, y: 100 }, Point { x: 105, y: 100 }],
    };
    let res = evaluate(&prob, &sol);
    assert_eq!(res.msg, "players 0 1 intersect (d2=25)");
    assert_eq!(res.value, 0);
}

#[test]
fn separation_names_first_pair_in_scan_order() {
    // Performer 0 is fine against 1 but too close to 2: the first
    // violation in ascending (k, k2) order is (0, 2).
    let prob = base_prob(vec![0, 0, 0], vec![]);
    let sol = Sol {
        placements: vec![
            Point { x: 100, y: 100 },
            Point { x: 150, y: 100 },
            Point { x: 100, y: 108 },
        ],
    };
    let res = evaluate(&prob, &sol);
    assert_eq!(res.msg, "players 0 2 intersect (d2=64)");
    assert_eq!(res.value, 0);
}

#[test]
fn contribution_rounds_up() {
    // d2 = 9: ceil(1_000_000 / 9) == 111_112.
    let prob = base_prob(vec![0], vec![listener(103, 100, vec![1])]);
    let sol = Sol { placements: vec![Point { x: 100, y: 100 }] };
    let res = evaluate(&prob, &sol);
    assert_eq!(res.msg, "");
    assert_eq!(res.value, 111_112);
}

#[test]
fn negative_taste_rounds_toward_zero() {
    // d2 = 9: ceil(-1_000_000 / 9) == -111_111.
    let prob = base_prob(vec![0], vec![listener(103, 100, vec![-1])]);
    let sol = Sol { placements: vec![Point { x: 100, y: 100 }] };
    let res = evaluate(&prob, &sol);
    assert_eq!(res.msg, "");
    assert_eq!(res.value, -111_111);
}

#[test]
fn taste_increase_changes_total_by_exact_amount() {
    // Raising the taste from 1 to 3 at distance 100 raises the total by
    // exactly ceil(1_000_000 * 2 / 10_000) == 200.
    let sol = Sol { placements: vec![Point { x: 200, y: 100 }] };
    let before = evaluate(&base_prob(vec![0], vec![listener(300, 100, vec![1])]), &sol);
    let after = evaluate(&base_prob(vec![0], vec![listener(300, 100, vec![3])]), &sol);
    assert_eq!(before.msg, "");
    assert_eq!(after.msg, "");
    assert_eq!(after.value - before.value, 200);
    assert!(after.value > before.value);
}

#[test]
fn evaluate_is_deterministic() {
    let prob = base_prob(
        vec![0, 1],
        vec![listener(300, 100, vec![7, -2]), listener(50, 320, vec![3, 4])],
    );
    let sol = Sol {
        placements: vec![Point { x: 200, y: 100 }, Point { x: 40, y: 170 }],
    };
    let first = evaluate(&prob, &sol);
    let second = evaluate(&prob, &sol);
    assert_eq!(first.msg, second.msg);
    assert_eq!(first.value, second.value);
}

#[test]
fn obstacle_on_segment_blocks() {
    assert!(is_blocked((0, 0), (100, 0), (50, 0)));
    assert!(is_blocked((0, 0), (100, 0), (50, 3)));
    assert!(is_blocked((0, 0), (100, 100), (40, 40)));
}

#[test]
fn obstacle_off_or_beyond_segment_does_not_block() {
    // Strictly further than 5 units from the line.
    assert!(!is_blocked((0, 0), (100, 0), (50, 6)));
    // Exactly tangent: a zero discriminant does not block.
    assert!(!is_blocked((0, 0), (100, 0), (50, 5)));
    // On the line but well beyond either endpoint.
    assert!(!is_blocked((0, 0), (100, 0), (200, 0)));
    assert!(!is_blocked((0, 0), (100, 0), (-50, 0)));
    // Just past the target, outside the disc around it.
    assert!(!is_blocked((0, 0), (100, 0), (106, 0)));
}

#[test]
fn obstacle_within_disc_of_endpoint_still_blocks() {
    // The crossing parameters are strict in (0, 1): an obstacle centred
    // just beyond the target still cuts the open segment when its disc
    // reaches back across the endpoint.
    assert!(is_blocked((0, 0), (100, 0), (104, 0)));
}

#[test]
fn random_placement_is_in_bounds() {
    let prob = base_prob(vec![0, 1, 2, 3, 4, 5, 6, 7], vec![]);
    let sol = Sol::new(&prob);
    assert_eq!(sol.placements.len(), prob.musicians.len());
    for p in &sol.placements {
        assert!(10 <= p.x && p.x <= 390);
        assert!(10 <= p.y && p.y <= 190);
    }
}

use pheng::{
    circle_circle_collision, circle_line_collision, Circle, CollisionResult, Fixed, Line,
    Penetration, Vec2,
};

fn fx(raw: i32) -> Fixed {
    Fixed { raw }
}

fn whole(n: i32) -> Fixed {
    Fixed::from_int(n)
}

fn v(x: i32, y: i32) -> Vec2 {
    Vec2::new(fx(x), fx(y))
}

fn at(x: i32, y: i32) -> Vec2 {
    Vec2::new(whole(x), whole(y))
}

fn circle(x: i32, y: i32, r: i32) -> Circle {
    Circle::new(at(x, y), whole(r)).unwrap()
}

fn line(a: i32, b: i32, c: i32) -> Line {
    Line::new(whole(a), whole(b), whole(c)).unwrap()
}

fn pen(pos: Vec2, normal: Vec2, depth: i32) -> CollisionResult {
    CollisionResult::Penetration(Penetration { pos, normal, depth: fx(depth) })
}

#[test]
fn circle_needs_a_radius_above_zero() {
    assert!(Circle::new(at(0, 0), whole(0)).is_none());
    assert!(Circle::new(at(0, 0), whole(-1)).is_none());
    assert!(Circle::new(at(0, 0), fx(1)).is_some());
}

#[test]
fn circle_keeps_its_parts() {
    let c = Circle::new(at(3, -4), whole(20)).unwrap();
    assert_eq!(c.pos(), at(3, -4));
    assert_eq!(c.r(), whole(20));
    let moved = c.at(at(7, 8));
    assert_eq!(moved.pos(), at(7, 8));
    assert_eq!(moved.r(), whole(20));
}

#[test]
fn line_needs_a_direction() {
    assert!(Line::new(whole(0), whole(0), whole(5)).is_none());
    assert!(Line::new(whole(0), whole(0), whole(0)).is_none());
    assert!(Line::new(fx(1), whole(0), whole(0)).is_some());
    assert!(Line::new(whole(0), fx(-1), whole(0)).is_some());
}

#[test]
fn line_keeps_its_parts() {
    let l = Line::new(whole(0), whole(-1), whole(500)).unwrap();
    assert_eq!(l.a(), whole(0));
    assert_eq!(l.b(), whole(-1));
    assert_eq!(l.c(), whole(500));
}

#[test]
fn circles_apart_do_not_collide() {
    assert_eq!(
        circle_circle_collision(&circle(36, 0, 20), &circle(0, 0, 15)),
        CollisionResult::NoCollision
    );
    assert_eq!(
        circle_circle_collision(&circle(-1000, 1000, 1), &circle(600, 400, 150)),
        CollisionResult::NoCollision
    );
}

#[test]
fn circles_apart_by_one_raw_value_do_not_collide() {
    let c1 = Circle::new(v(35 * 65536 + 1, 0), whole(20)).unwrap();
    assert_eq!(circle_circle_collision(&c1, &circle(0, 0, 15)), CollisionResult::NoCollision);
    let c2 = Circle::new(v(35 * 65536, 1), whole(20)).unwrap();
    assert_eq!(circle_circle_collision(&c2, &circle(0, 0, 15)), CollisionResult::NoCollision);
}

#[test]
fn circles_that_overlap_in_part_penetrate() {
    assert_eq!(
        circle_circle_collision(&circle(30, 0, 20), &circle(0, 0, 15)),
        pen(v(655360, 0), v(65536, 0), 327680)
    );
    assert_eq!(
        circle_circle_collision(&circle(10, 10, 8), &circle(0, 0, 9)),
        pen(v(284640, 284640), v(46340, 46340), 187293)
    );
    assert_eq!(
        circle_circle_collision(&circle(-7, 24, 10), &circle(0, 0, 20)),
        pen(v(-275252, 943724), v(-18350, 62914), 327680)
    );
}

#[test]
fn penetration_depth_is_the_sum_of_the_radii_less_the_distance() {
    let res = circle_circle_collision(&circle(0, 25, 20), &circle(0, 0, 15));
    match res {
        CollisionResult::Penetration(p) => {
            assert_eq!(p.depth, whole(10));
            assert_eq!(p.normal, v(0, 65536));
            assert_eq!(p.pos, at(0, 5));
        }
        _ => panic!("the discs overlap in part"),
    }
}

#[test]
fn penetration_normal_has_length_one_up_to_rounding() {
    let centres = [(30, 1), (12, 12), (-7, 24), (16, -3), (-20, -20)];
    for (x, y) in centres {
        match circle_circle_collision(&circle(x, y, 20), &circle(0, 0, 15)) {
            CollisionResult::Penetration(p) => {
                let nx: i64 = (p.normal.x.raw as i64).abs();
                let ny: i64 = (p.normal.y.raw as i64).abs();
                let one: i64 = 65536 * 65536;
                assert!(nx * nx + ny * ny <= one);
                assert!(one < (nx + 1) * (nx + 1) + (ny + 1) * (ny + 1));
                assert_eq!(p.normal.x.raw.signum(), x.signum());
                assert_eq!(p.normal.y.raw.signum(), y.signum());
            }
            _ => panic!("the discs overlap in part"),
        }
    }
}

#[test]
fn circles_that_touch_penetrate_with_depth_zero() {
    assert_eq!(
        circle_circle_collision(&circle(3, 4, 2), &circle(0, 0, 3)),
        pen(v(117966, 157288), v(39321, 52428), 0)
    );
}

#[test]
fn centre_inside_the_other_circle_overlaps_in_full() {
    assert_eq!(
        circle_circle_collision(&circle(1, 1, 20), &circle(0, 0, 15)),
        CollisionResult::FullOverlap
    );
    assert_eq!(
        circle_circle_collision(&circle(0, 0, 20), &circle(0, 0, 15)),
        CollisionResult::FullOverlap
    );
}

#[test]
fn centre_on_the_other_rim_overlaps_in_full() {
    assert_eq!(
        circle_circle_collision(&circle(3, 4, 2), &circle(0, 0, 5)),
        CollisionResult::FullOverlap
    );
    let just_outside = Circle::new(v(3 * 65536, 4 * 65536 + 1), whole(2)).unwrap();
    assert!(matches!(
        circle_circle_collision(&just_outside, &circle(0, 0, 5)),
        CollisionResult::Penetration(_)
    ));
}

#[test]
fn circle_circle_is_not_symmetric() {
    assert_eq!(
        circle_circle_collision(&circle(10, 0, 1), &circle(0, 0, 15)),
        CollisionResult::FullOverlap
    );
    assert!(matches!(
        circle_circle_collision(&circle(0, 0, 15), &circle(10, 0, 1)),
        CollisionResult::Penetration(_)
    ));
}

#[test]
fn circles_at_the_ends_of_the_range() {
    let far = Circle::new(v(i32::MAX, i32::MAX), fx(i32::MAX)).unwrap();
    let near = Circle::new(v(i32::MIN, i32::MIN), fx(1)).unwrap();
    assert_eq!(circle_circle_collision(&far, &near), CollisionResult::NoCollision);
    let big = Circle::new(v(i32::MIN, i32::MIN), fx(i32::MAX)).unwrap();
    assert_eq!(circle_circle_collision(&far, &big), CollisionResult::NoCollision);
    let right = Circle::new(v(i32::MAX, 0), fx(i32::MAX)).unwrap();
    let left = Circle::new(v(i32::MIN + 2, 0), fx(i32::MAX)).unwrap();
    assert_eq!(circle_circle_collision(&right, &left), pen(v(0, 0), v(65536, 0), 1));
}

#[test]
fn circle_clear_of_a_line_on_the_free_side() {
    assert_eq!(
        circle_line_collision(&circle(500, 400, 20), &line(0, -1, 500)),
        CollisionResult::NoCollision
    );
    assert_eq!(
        circle_line_collision(&circle(21, 77, 20), &line(1, 0, 0)),
        CollisionResult::NoCollision
    );
}

#[test]
fn circle_clear_of_a_line_on_the_solid_side_overlaps_in_full() {
    assert_eq!(
        circle_line_collision(&circle(500, 600, 20), &line(0, -1, 500)),
        CollisionResult::FullOverlap
    );
    assert_eq!(
        circle_line_collision(&circle(-21, 77, 20), &line(1, 0, 0)),
        CollisionResult::FullOverlap
    );
}

#[test]
fn circle_across_a_line_from_the_free_side() {
    assert_eq!(
        circle_line_collision(&circle(500, 490, 20), &line(0, -1, 500)),
        pen(v(32768000, 33423360), v(0, -65536), 655360)
    );
    assert_eq!(
        circle_line_collision(&circle(10, 0, 10), &line(3, 4, 0)),
        pen(v(262150, -524280), v(39321, 52428), 262144)
    );
}

#[test]
fn circle_across_a_line_from_the_solid_side_is_deeper() {
    assert_eq!(
        circle_line_collision(&circle(500, 510, 20), &line(0, -1, 500)),
        pen(v(32768000, 32112640), v(0, 65536), 1966080)
    );
    assert_eq!(
        circle_line_collision(&circle(-10, 0, 10), &line(3, 4, 0)),
        pen(v(-262150, 524280), v(-39321, -52428), 1048576)
    );
}

#[test]
fn circle_that_touches_a_line_penetrates() {
    assert_eq!(
        circle_line_collision(&circle(500, 480, 20), &line(0, -1, 500)),
        pen(at(500, 500), v(0, -65536), 0)
    );
    let above = Circle::new(v(500 * 65536, 480 * 65536 - 1), whole(20)).unwrap();
    assert_eq!(circle_line_collision(&above, &line(0, -1, 500)), CollisionResult::NoCollision);
}

#[test]
fn circle_centred_on_a_line() {
    let res = circle_line_collision(&circle(500, 500, 20), &line(0, -1, 500));
    assert_eq!(res, pen(at(500, 500), v(0, 0), 1310720));
    match res {
        CollisionResult::Penetration(p) => {
            assert_eq!(p.depth, whole(20));
            let on_line: i64 = -(p.pos.y.raw as i64) + 500 * 65536;
            assert_eq!(on_line, 0);
        }
        _ => panic!("a disc centred on the line reaches across it"),
    }
    assert_eq!(
        circle_line_collision(&circle(4, -3, 7), &line(3, 4, 0)),
        pen(at(4, -3), v(0, 0), 7 * 65536)
    );
}

#[test]
fn scaling_a_line_does_not_change_the_outcome() {
    let c = circle(500, 490, 20);
    assert_eq!(
        circle_line_collision(&c, &line(0, -7, 3500)),
        circle_line_collision(&c, &line(0, -1, 500))
    );
}

#[test]
fn line_depth_saturates() {
    let c = Circle::new(v(0, i32::MIN), fx(i32::MAX)).unwrap();
    let l = Line::new(fx(0), fx(65536), fx(0)).unwrap();
    match circle_line_collision(&c, &l) {
        CollisionResult::FullOverlap => {}
        other => panic!("expected a full overlap, got {:?}", other),
    }
    let d = Circle::new(v(0, -(i32::MAX - 5)), fx(i32::MAX)).unwrap();
    assert_eq!(
        circle_line_collision(&d, &l),
        pen(v(0, 5), v(0, -65536), i32::MAX)
    );
}

#[test]
fn segment_of_a_level_line() {
    assert_eq!(
        line(0, -1, 500).segment(whole(-10), whole(2000)),
        (v(-655360, 32768000), v(131072000, 32768000))
    );
}

#[test]
fn segment_of_an_upright_line() {
    assert_eq!(
        line(1, 0, 0).segment(whole(-10), whole(2000)),
        (v(0, -655360), v(0, 131072000))
    );
    assert_eq!(
        line(2, 0, -7).segment(whole(-10), whole(2000)),
        (v(229376, -655360), v(229376, 131072000))
    );
}

#[test]
fn segment_of_a_slanted_line() {
    assert_eq!(
        line(1, 2, -3).segment(whole(-10), whole(2000)),
        (v(-655360, 425984), v(131072000, -65437696))
    );
}

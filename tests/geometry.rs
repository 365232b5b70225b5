use breakout::geometry::{clamp, collide, Collision, Vector};
use breakout::steering::{ceil_sqrt_exec, scale_to_speed};

fn v(x: i64, y: i64) -> Vector {
    Vector::new(x, y)
}

#[test]
fn boxes_apart_do_not_collide() {
    assert_eq!(collide(v(0, 0), v(10, 10), v(20, 0), v(10, 10)), None);
}

#[test]
fn touching_edges_do_not_collide() {
    assert_eq!(collide(v(0, 0), v(10, 10), v(10, 0), v(10, 10)), None);
}

#[test]
fn box_on_the_left_hits_left_side() {
    assert_eq!(collide(v(-8, 0), v(10, 10), v(0, 0), v(10, 10)), Some(Collision::Left));
}

#[test]
fn box_on_the_right_hits_right_side() {
    assert_eq!(collide(v(8, 0), v(10, 10), v(0, 0), v(10, 10)), Some(Collision::Right));
}

#[test]
fn box_above_hits_top_side() {
    assert_eq!(collide(v(0, 8), v(10, 10), v(0, 0), v(10, 10)), Some(Collision::Top));
}

#[test]
fn box_below_hits_bottom_side() {
    assert_eq!(collide(v(0, -8), v(10, 10), v(0, 0), v(10, 10)), Some(Collision::Bottom));
}

#[test]
fn shallower_vertical_contact_wins() {
    // overlap of 2 vertically, 6 horizontally
    assert_eq!(collide(v(4, 8), v(10, 10), v(0, 0), v(10, 10)), Some(Collision::Top));
    // overlap of 6 vertically, 2 horizontally
    assert_eq!(collide(v(8, 4), v(10, 10), v(0, 0), v(10, 10)), Some(Collision::Right));
}

#[test]
fn equal_depths_pick_the_horizontal_side() {
    assert_eq!(collide(v(8, 8), v(10, 10), v(0, 0), v(10, 10)), Some(Collision::Right));
}

#[test]
fn enclosing_box_is_inside() {
    assert_eq!(collide(v(0, 0), v(30, 30), v(0, 0), v(10, 10)), Some(Collision::Inside));
}

#[test]
fn tall_wall_hits_side_of_ball() {
    // a wall spanning the whole height only ever hits a side
    assert_eq!(collide(v(-215, 0), v(10, 600), v(-205, 0), v(14, 14)), Some(Collision::Left));
}

#[test]
fn clamp_limits_to_range() {
    assert_eq!(clamp(-5, 0, 10), 0);
    assert_eq!(clamp(15, 0, 10), 10);
    assert_eq!(clamp(7, 0, 10), 7);
}

#[test]
fn ceil_sqrt_values() {
    assert_eq!(ceil_sqrt_exec(0), 0);
    assert_eq!(ceil_sqrt_exec(1), 1);
    assert_eq!(ceil_sqrt_exec(2), 2);
    assert_eq!(ceil_sqrt_exec(16), 4);
    assert_eq!(ceil_sqrt_exec(17), 5);
    assert_eq!(ceil_sqrt_exec(24_200_000_000), 155_564);
}

#[test]
fn straight_up_scales_exactly() {
    assert_eq!(scale_to_speed(v(0, 1), 550), v(0, 550));
    assert_eq!(scale_to_speed(v(-3, 0), 550), v(-550, 0));
}

#[test]
fn diagonal_scales_within_one_unit() {
    // 550 / sqrt(2) = 388.9
    assert_eq!(scale_to_speed(v(200, 200), 550), v(388, 388));
    assert_eq!(scale_to_speed(v(-200, 200), 550), v(-388, 388));
}

#[test]
fn three_four_five_scales_exactly() {
    assert_eq!(scale_to_speed(v(3, 4), 500), v(300, 400));
    assert_eq!(scale_to_speed(v(-30, -40), 500), v(-300, -400));
}

#[test]
fn zero_direction_or_speed_gives_zero() {
    assert_eq!(scale_to_speed(v(0, 0), 550), v(0, 0));
    assert_eq!(scale_to_speed(v(3, 4), 0), v(0, 0));
}

#[test]
fn rescaled_speed_stays_within_rounding() {
    let s: i64 = 55_000;
    for (x, y) in [(1, 0), (1, 1), (7, -3), (-12_345, 678), (55_000, 1), (-2, -99_999)] {
        let r = scale_to_speed(v(x, y), s);
        let len2 = r.x * r.x + r.y * r.y;
        assert!(len2 <= s * s);
        let (ax, ay) = (r.x.abs() + 1, r.y.abs() + 1);
        assert!(ax * ax + ay * ay > (s - 1) * (s - 1));
        if x * x + y * y <= s * s {
            assert_eq!(r.x.signum(), x.signum());
            assert_eq!(r.y.signum(), y.signum());
        }
    }
}

use shot_engine::error::Error;
use shot_engine::geometry::{Point, Region, DEFAULT_TARGET_RADIUS};
use shot_engine::planner::{
    integer_root, parse_command, plan_aim, Command, Playfield, ShotType, DEFAULT_AIM_LENGTH,
    DEFAULT_GAME_HEIGHT, DEFAULT_GAME_WIDTH, FOCUS_MARGIN,
};

fn standard_field() -> Playfield {
    Playfield::new(
        Point { x: 550, y: 609 },
        DEFAULT_GAME_WIDTH,
        DEFAULT_GAME_HEIGHT,
        DEFAULT_TARGET_RADIUS,
    )
    .unwrap()
}

#[test]
fn plan_aim_scales_to_the_desired_length() {
    let origin = Point { x: 0, y: 0 };
    assert_eq!(plan_aim(origin, Point { x: 3, y: 4 }, 125), Ok((75, 100)));
    assert_eq!(plan_aim(origin, Point { x: 300, y: 400 }, 125), Ok((75, 100)));
    assert_eq!(plan_aim(origin, Point { x: 4, y: 3 }, 5), Ok((4, 3)));
    assert_eq!(plan_aim(origin, Point { x: 8, y: 6 }, 5), Ok((4, 3)));
    assert_eq!(DEFAULT_AIM_LENGTH, 125);
}

#[test]
fn plan_aim_keeps_the_direction() {
    let origin = Point { x: 100, y: 200 };
    assert_eq!(plan_aim(origin, Point { x: 103, y: 204 }, 125), Ok((75, 100)));
    assert_eq!(plan_aim(origin, Point { x: 97, y: 204 }, 125), Ok((-75, 100)));
    assert_eq!(plan_aim(origin, Point { x: 103, y: 196 }, 125), Ok((75, -100)));
    assert_eq!(plan_aim(origin, Point { x: 97, y: 196 }, 125), Ok((-75, -100)));
}

#[test]
fn plan_aim_along_an_axis_has_the_full_length() {
    let origin = Point { x: 10, y: 10 };
    assert_eq!(plan_aim(origin, Point { x: 13, y: 10 }, 125), Ok((125, 0)));
    assert_eq!(plan_aim(origin, Point { x: 7, y: 10 }, 125), Ok((-125, 0)));
    assert_eq!(plan_aim(origin, Point { x: 10, y: 11 }, 125), Ok((0, 125)));
    assert_eq!(plan_aim(origin, Point { x: 10, y: -990 }, 125), Ok((0, -125)));
}

#[test]
fn plan_aim_cuts_each_component_toward_zero() {
    let origin = Point { x: 0, y: 0 };
    // 125 / sqrt(2) is 88.38...
    assert_eq!(plan_aim(origin, Point { x: 1, y: 1 }, 125), Ok((88, 88)));
    assert_eq!(plan_aim(origin, Point { x: -1, y: -1 }, 125), Ok((-88, -88)));
    // 125 * 1 / sqrt(5) is 55.90..., 125 * 2 / sqrt(5) is 111.80...
    assert_eq!(plan_aim(origin, Point { x: 1, y: 2 }, 125), Ok((55, 111)));
    assert_eq!(plan_aim(origin, Point { x: -2, y: 1 }, 125), Ok((-111, 55)));
    // 10 * 200 / sqrt(200^2 + 1) is 9.9998...
    assert_eq!(plan_aim(origin, Point { x: 200, y: 1 }, 10), Ok((9, 0)));
}

#[test]
fn plan_aim_fails_on_a_degenerate_vector() {
    assert_eq!(
        plan_aim(Point { x: 0, y: 0 }, Point { x: 0, y: 0 }, 125),
        Err(Error::DegenerateVector)
    );
    assert_eq!(
        plan_aim(Point { x: -7, y: 9 }, Point { x: -7, y: 9 }, 125),
        Err(Error::DegenerateVector)
    );
    assert_eq!(
        plan_aim(Point { x: i32::MIN, y: i32::MAX }, Point { x: i32::MIN, y: i32::MAX }, 0),
        Err(Error::DegenerateVector)
    );
}

#[test]
fn plan_aim_of_length_zero_is_the_zero_vector() {
    assert_eq!(plan_aim(Point { x: 0, y: 0 }, Point { x: 5, y: -5 }, 0), Ok((0, 0)));
}

#[test]
fn plan_aim_is_as_long_as_asked_within_rounding() {
    let origin = Point { x: 37, y: -12 };
    for length in [1u32, 2, 7, 125, 1000] {
        for tx in -25..=25 {
            for ty in -25..=25 {
                let target = Point { x: origin.x + tx, y: origin.y + ty };
                let aim = plan_aim(origin, target, length);
                if tx == 0 && ty == 0 {
                    assert_eq!(aim, Err(Error::DegenerateVector));
                    continue;
                }
                let (dx, dy) = aim.unwrap();
                let l2 = i64::from(length) * i64::from(length);
                assert!(dx * dx + dy * dy <= l2);
                assert!((dx.abs() + 1) * (dx.abs() + 1) + (dy.abs() + 1) * (dy.abs() + 1) > l2);
                assert!(dx == 0 || (dx > 0) == (tx > 0));
                assert!(dy == 0 || (dy > 0) == (ty > 0));
                // Each component is the largest whole number that is not
                // too long.
                let n = i64::from(tx * tx + ty * ty);
                let px = i64::from(tx) * i64::from(length);
                let py = i64::from(ty) * i64::from(length);
                assert!(dx * dx * n <= px * px);
                assert!((dx.abs() + 1) * (dx.abs() + 1) * n > px * px);
                assert!(dy * dy * n <= py * py);
                assert!((dy.abs() + 1) * (dy.abs() + 1) * n > py * py);
            }
        }
    }
}

#[test]
fn plan_aim_stands_the_widest_screen() {
    let low = Point { x: i32::MIN, y: i32::MIN };
    let high = Point { x: i32::MAX, y: i32::MAX };
    // u32::MAX / sqrt(2) is 3037000499.27...
    assert_eq!(plan_aim(low, high, u32::MAX), Ok((3037000499, 3037000499)));
    assert_eq!(plan_aim(high, low, u32::MAX), Ok((-3037000499, -3037000499)));
    assert_eq!(
        plan_aim(low, Point { x: i32::MAX, y: i32::MIN }, u32::MAX),
        Ok((i64::from(u32::MAX), 0))
    );
    assert_eq!(plan_aim(low, high, 125), Ok((88, 88)));
}

#[test]
fn integer_root_is_the_whole_part_of_the_root() {
    assert_eq!(integer_root(0), 0);
    assert_eq!(integer_root(1), 1);
    assert_eq!(integer_root(2), 1);
    assert_eq!(integer_root(3), 1);
    assert_eq!(integer_root(4), 2);
    assert_eq!(integer_root(24), 4);
    assert_eq!(integer_root(25), 5);
    assert_eq!(integer_root(26), 5);
    assert_eq!(integer_root(15_624), 124);
    assert_eq!(integer_root(15_625), 125);
    assert_eq!(integer_root(u128::from(u64::MAX)), u64::from(u32::MAX));
    assert_eq!(integer_root(1 << 64), 1 << 32);
    assert_eq!(integer_root(u128::MAX), u64::MAX);
    let big = u128::from(u64::MAX) * u128::from(u64::MAX);
    assert_eq!(integer_root(big), u64::MAX);
    assert_eq!(integer_root(big - 1), u64::MAX - 1);
    for q in 0..5000u128 {
        let r = u128::from(integer_root(q));
        assert!(r * r <= q && q < (r + 1) * (r + 1));
    }
}

#[test]
fn playfield_gives_the_fixed_shot_points() {
    let field = standard_field();
    assert_eq!(field.center_x(), 750);
    assert_eq!(field.center_shot(), Point { x: 750, y: 609 + 495 });
    assert_eq!(field.lob_shot(), Point { x: 750, y: 609 + 720 - 80 - 1 });
    assert_eq!(field.focus_point(), Point { x: 750, y: 604 });
    assert_eq!(field.region(), Region { x: 550, y: 609, width: 400, height: 720 });
    assert_eq!(FOCUS_MARGIN, 5);
}

#[test]
fn playfield_rounds_the_shot_points_down() {
    let field = Playfield::new(Point { x: -10, y: -10 }, 5, 3, 0).unwrap();
    // Half of 5 is 2, eleven sixteenths of 3 is 2.
    assert_eq!(field.center_x(), -8);
    assert_eq!(field.center_shot(), Point { x: -8, y: -8 });
    assert_eq!(field.lob_shot(), Point { x: -8, y: -8 });
    let field = Playfield::new(Point { x: 0, y: 0 }, 1, 1, 0).unwrap();
    assert_eq!(field.center_shot(), Point { x: 0, y: 0 });
    assert_eq!(field.lob_shot(), Point { x: 0, y: 0 });
    assert_eq!(field.focus_point(), Point { x: 0, y: -5 });
}

#[test]
fn playfield_shot_target_follows_the_kind_of_shot() {
    let field = standard_field();
    let pointer = Point { x: 12, y: 34 };
    assert_eq!(field.shot_target(ShotType::Center, pointer), Point { x: 750, y: 1104 });
    assert_eq!(field.shot_target(ShotType::Lob, pointer), Point { x: 750, y: 1248 });
    assert_eq!(field.shot_target(ShotType::Manual, pointer), pointer);
}

#[test]
fn playfield_stands_the_largest_sizes() {
    let field = Playfield::new(Point { x: i32::MIN, y: i32::MIN + 5 }, u32::MAX, u32::MAX - 5, 0);
    let field = field.unwrap();
    assert_eq!(field.center_x(), i32::MIN + 0x7fff_ffff);
    // Eleven sixteenths of 4294967290 is 2952790011.
    assert_eq!(
        i64::from(field.center_shot().y),
        i64::from(i32::MIN) + 5 + 2_952_790_011
    );
    assert_eq!(field.lob_shot().y, i32::MAX - 1);
    assert_eq!(field.focus_point().y, i32::MIN);
}

#[test]
fn playfield_refuses_what_cannot_be_played() {
    let origin = Point { x: 0, y: 0 };
    assert!(Playfield::new(origin, 0, 720, 80).is_none());
    assert!(Playfield::new(origin, 400, 0, 0).is_none());
    assert!(Playfield::new(origin, 400, 80, 80).is_none());
    assert!(Playfield::new(origin, 400, 81, 80).is_some());
    assert!(Playfield::new(Point { x: i32::MAX, y: 0 }, 2, 720, 80).is_none());
    assert!(Playfield::new(Point { x: i32::MAX, y: 0 }, 1, 720, 80).is_some());
    assert!(Playfield::new(Point { x: 0, y: i32::MAX - 719 }, 400, 721, 80).is_none());
    assert!(Playfield::new(Point { x: 0, y: i32::MAX - 719 }, 400, 720, 80).is_some());
    assert!(Playfield::new(Point { x: 0, y: i32::MIN + 4 }, 400, 720, 80).is_none());
    assert!(Playfield::new(Point { x: 0, y: i32::MIN + 5 }, 400, 720, 80).is_some());
}

#[test]
fn parse_command_reads_single_letters() {
    assert_eq!(parse_command(b"a"), Some(Command::Auto));
    assert_eq!(parse_command(b"c"), Some(Command::Center));
    assert_eq!(parse_command(b"l"), Some(Command::Lob));
    assert_eq!(parse_command(b"m"), Some(Command::Manual));
    assert_eq!(parse_command(b"q"), Some(Command::Quit));
}

#[test]
fn parse_command_refuses_everything_else() {
    assert_eq!(parse_command(b""), None);
    assert_eq!(parse_command(b"A"), None);
    assert_eq!(parse_command(b"x"), None);
    assert_eq!(parse_command(b"aa"), None);
    assert_eq!(parse_command(b"a "), None);
    assert_eq!(parse_command(b" a"), None);
    assert_eq!(parse_command(b"auto"), None);
    assert_eq!(parse_command(b"q\n"), None);
    for byte in 0..=255u8 {
        let expected = match byte {
            b'a' => Some(Command::Auto),
            b'c' => Some(Command::Center),
            b'l' => Some(Command::Lob),
            b'm' => Some(Command::Manual),
            b'q' => Some(Command::Quit),
            _ => None,
        };
        assert_eq!(parse_command(&[byte]), expected);
    }
}

#[test]
fn command_names_its_shot() {
    assert_eq!(Command::Auto.shot(), Some(ShotType::Center));
    assert_eq!(Command::Center.shot(), Some(ShotType::Center));
    assert_eq!(Command::Lob.shot(), Some(ShotType::Lob));
    assert_eq!(Command::Manual.shot(), Some(ShotType::Manual));
    assert_eq!(Command::Quit.shot(), None);
    assert!(Command::Auto.aims_first());
    assert!(!Command::Center.aims_first());
    assert!(!Command::Lob.aims_first());
    assert!(!Command::Manual.aims_first());
    assert!(!Command::Quit.aims_first());
}

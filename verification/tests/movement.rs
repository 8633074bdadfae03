use physics::movement::Movement;

#[test]
fn right_points_along_x() {
    assert_eq!(Movement::Right.components(), (1, 0));
}

#[test]
fn stop_points_nowhere() {
    assert_eq!(Movement::Stop.components(), (0, 0));
}

#[test]
fn straight_directions_have_one_component() {
    assert_eq!(Movement::Up.components(), (0, -1));
    assert_eq!(Movement::Down.components(), (0, 1));
    assert_eq!(Movement::Left.components(), (-1, 0));
}

#[test]
fn diagonals_have_two_components() {
    assert_eq!(Movement::UpRight.components(), (1, -1));
    assert_eq!(Movement::DownRight.components(), (1, 1));
    assert_eq!(Movement::DownLeft.components(), (-1, 1));
    assert_eq!(Movement::UpLeft.components(), (-1, -1));
}

#[test]
fn only_stop_has_no_direction() {
    let all = [
        Movement::Up,
        Movement::UpRight,
        Movement::Right,
        Movement::DownRight,
        Movement::Down,
        Movement::DownLeft,
        Movement::Left,
        Movement::UpLeft,
        Movement::Stop,
    ];
    for movement in all {
        assert_eq!(movement.components() == (0, 0), movement == Movement::Stop);
    }
}

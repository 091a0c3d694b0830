use raytracer::controls::{update, Turn};
use raytracer::input::Input;

#[test]
fn no_arrow_no_turn() {
    let mut input = Input::new();
    input.key_down("KeyW".to_string(), false);
    assert_eq!(update(&input), Vec::<Turn>::new());
}

#[test]
fn left_arrow_turns_left() {
    let mut input = Input::new();
    input.key_down("ArrowLeft".to_string(), false);
    assert_eq!(update(&input), vec![Turn::Left]);
}

#[test]
fn right_arrow_turns_right() {
    let mut input = Input::new();
    input.key_down("ArrowRight".to_string(), false);
    assert_eq!(update(&input), vec![Turn::Right]);
}

#[test]
fn both_arrows_turn_left_then_right() {
    let mut input = Input::new();
    input.key_down("ArrowRight".to_string(), false);
    input.key_down("ArrowLeft".to_string(), false);
    assert_eq!(update(&input), vec![Turn::Left, Turn::Right]);
}

#[test]
fn released_arrow_stops_turning() {
    let mut input = Input::new();
    input.key_down("ArrowLeft".to_string(), false);
    input.key_up("ArrowLeft");
    assert_eq!(update(&input), Vec::<Turn>::new());
}

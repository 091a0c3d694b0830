use raytracer::input::Input;

#[test]
fn new_holds_nothing() {
    let input = Input::new();
    assert!(!input.is_key_down("ArrowLeft"));
    assert!(!input.is_key_down(""));
}

#[test]
fn key_down_then_up() {
    let mut input = Input::new();
    input.key_down("ArrowLeft".to_string(), false);
    assert!(input.is_key_down("ArrowLeft"));
    assert!(!input.is_key_down("ArrowRight"));
    input.key_up("ArrowLeft");
    assert!(!input.is_key_down("ArrowLeft"));
}

#[test]
fn repeated_event_is_ignored() {
    let mut input = Input::new();
    input.key_down("KeyA".to_string(), true);
    assert!(!input.is_key_down("KeyA"));
    input.key_down("KeyA".to_string(), false);
    input.key_down("KeyA".to_string(), true);
    assert!(input.is_key_down("KeyA"));
}

#[test]
fn pressing_twice_then_releasing_once_releases() {
    let mut input = Input::new();
    input.key_down("KeyA".to_string(), false);
    input.key_down("KeyA".to_string(), false);
    input.key_up("KeyA");
    assert!(!input.is_key_down("KeyA"));
}

#[test]
fn release_of_unheld_key_changes_nothing() {
    let mut input = Input::new();
    input.key_down("KeyB".to_string(), false);
    input.key_up("KeyA");
    assert!(input.is_key_down("KeyB"));
    assert!(!input.is_key_down("KeyA"));
}

#[test]
fn keys_are_independent() {
    let mut input = Input::new();
    input.key_down("ArrowLeft".to_string(), false);
    input.key_down("ArrowRight".to_string(), false);
    input.key_down("Space".to_string(), false);
    input.key_up("ArrowRight");
    assert!(input.is_key_down("ArrowLeft"));
    assert!(!input.is_key_down("ArrowRight"));
    assert!(input.is_key_down("Space"));
}

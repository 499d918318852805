use summit::keybindings::{BindingType, InputBinding, InputMode, Key, KeyBindings, PointerButton};

#[test]
fn defaults_and_modes() {
    let b = KeyBindings::default();
    assert_eq!(b.pan, InputBinding::MouseButton(PointerButton::Middle));
    assert_eq!(b.get_input_mode(BindingType::Pan), InputMode::Mouse);
    assert_eq!(b.get_input_mode(BindingType::ZoomIn), InputMode::Keyboard);
    assert_eq!(b.get_current_key(BindingType::Save), Some(Key::S));
    assert_eq!(b.get_current_key(BindingType::PlaceBlock), None);
    assert_eq!(b.get_current_button(BindingType::RemoveBlock), Some(PointerButton::Secondary));
    assert_eq!(b.get_current_button(BindingType::Open), None);
}

#[test]
fn rebinding_changes_one_action() {
    let mut b = KeyBindings::default();
    b.update_binding(BindingType::Open, InputBinding::MouseButton(PointerButton::Primary));
    assert_eq!(b.get_input_mode(BindingType::Open), InputMode::Mouse);
    assert_eq!(b.save, InputBinding::Key(Key::S));
}

#[test]
fn bindings_are_saved_as_text() {
    assert_eq!(KeyBindings::binding_to_string(&InputBinding::Key(Key::Space)), "Key:Space");
    assert_eq!(KeyBindings::binding_to_string(&InputBinding::MouseButton(PointerButton::Middle)), "Mouse:Middle");
    let saved = KeyBindings::default().to_serializable();
    assert_eq!(saved, vec!["Mouse:Middle", "Mouse:Primary", "Mouse:Secondary", "Key:E", "Key:Q", "Key:S", "Key:O"]);
}

#[test]
fn saved_bindings_read_back() {
    let d = InputBinding::Key(Key::E);
    assert_eq!(KeyBindings::parse_binding("Key:W", d), InputBinding::Key(Key::W));
    assert_eq!(KeyBindings::parse_binding("Key:Key:D", d), InputBinding::Key(Key::D));
    assert_eq!(KeyBindings::parse_binding("Key:B", d), d);
    assert_eq!(KeyBindings::parse_binding("Mouse:Secondary", d), InputBinding::MouseButton(PointerButton::Secondary));
    assert_eq!(KeyBindings::parse_binding("Mouse:Back", d), d);
    assert_eq!(KeyBindings::parse_binding("Pad:A", d), d);
    let mut b = KeyBindings::default();
    b.update_binding(BindingType::ZoomIn, InputBinding::Key(Key::Z));
    let back = KeyBindings::from_serializable(&b.to_serializable());
    assert_eq!(back, b);
    assert_eq!(KeyBindings::from_serializable(&vec!["Key:A".to_string()]), KeyBindings::default());
}

#[test]
fn available_inputs() {
    let keys = KeyBindings::get_all_available_keys();
    assert_eq!(keys.len(), 27);
    assert_eq!(keys[0], Key::Space);
    assert_eq!(keys[26], Key::Z);
    assert_eq!(KeyBindings::get_all_available_mouse_buttons().len(), 3);
}

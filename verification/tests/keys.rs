use schemaui::keys::{
    AppCommand, CommandDispatch, FormCommand, InputRouter, KeyAction, KeyBindingMap, KeyCode, KeyEvent,
    KeyModifiers,
};

fn key(code: KeyCode) -> KeyEvent {
    KeyEvent::new(code, KeyModifiers::none())
}

fn with(code: KeyCode, shift: bool, control: bool, alt: bool) -> KeyEvent {
    KeyEvent::new(code, KeyModifiers { shift, control, alt })
}

#[test]
fn control_chords_classify_as_commands() {
    let router = InputRouter::new();
    assert_eq!(router.classify(&with(KeyCode::Char('s'), false, true, false)), KeyAction::Save);
    assert_eq!(router.classify(&with(KeyCode::Char('Q'), false, true, false)), KeyAction::Quit);
    assert_eq!(router.classify(&with(KeyCode::Char('c'), false, true, false)), KeyAction::Quit);
    assert_eq!(router.classify(&with(KeyCode::Char('e'), false, true, false)), KeyAction::EditComposite);
    assert_eq!(router.classify(&with(KeyCode::Char('n'), false, true, false)), KeyAction::ListAddEntry);
    assert_eq!(router.classify(&with(KeyCode::Char('d'), false, true, false)), KeyAction::ListRemoveEntry);
    assert_eq!(router.classify(&with(KeyCode::Left, false, true, false)), KeyAction::ListSelect(-1));
    assert_eq!(router.classify(&with(KeyCode::Down, false, true, false)), KeyAction::ListMove(1));
    assert_eq!(router.classify(&with(KeyCode::Tab, true, true, false)), KeyAction::SectionStep(-1));
    assert_eq!(router.classify(&with(KeyCode::Tab, false, true, false)), KeyAction::SectionStep(1));
    assert_eq!(router.classify(&with(KeyCode::Char('z'), false, true, false)), KeyAction::NoAction);
}

#[test]
fn plain_keys_move_focus_or_go_to_the_field() {
    let router = InputRouter::new();
    assert_eq!(router.classify(&key(KeyCode::Tab)), KeyAction::FieldStep(1));
    assert_eq!(router.classify(&key(KeyCode::Up)), KeyAction::FieldStep(-1));
    assert_eq!(router.classify(&key(KeyCode::BackTab)), KeyAction::FieldStep(-1));
    assert_eq!(router.classify(&key(KeyCode::Esc)), KeyAction::ResetStatus);
    assert_eq!(router.classify(&key(KeyCode::Enter)), KeyAction::TogglePopup);
    let typed = key(KeyCode::Char('x'));
    assert_eq!(router.classify(&typed), KeyAction::Input(typed));
}

#[test]
fn alt_shift_brackets_step_between_roots() {
    let router = InputRouter::new();
    assert_eq!(router.classify(&with(KeyCode::Char('['), true, false, true)), KeyAction::RootStep(-1));
    assert_eq!(router.classify(&with(KeyCode::Esc, true, false, true)), KeyAction::RootStep(-1));
    assert_eq!(router.classify(&with(KeyCode::Right, true, false, true)), KeyAction::RootStep(1));
    assert_eq!(router.classify(&with(KeyCode::Right, false, false, true)), KeyAction::Input(with(KeyCode::Right, false, false, true)));
}

#[test]
fn builtin_bindings_resolve_every_action() {
    let map = KeyBindingMap::default();
    assert_eq!(map.resolve(KeyAction::Save), CommandDispatch::App(AppCommand::Save));
    assert_eq!(map.resolve(KeyAction::Quit), CommandDispatch::App(AppCommand::Quit));
    assert_eq!(map.resolve(KeyAction::FieldStep(3)), CommandDispatch::Form(FormCommand::FocusNextField));
    assert_eq!(map.resolve(KeyAction::FieldStep(-3)), CommandDispatch::Form(FormCommand::FocusPrevField));
    assert_eq!(map.resolve(KeyAction::SectionStep(5)), CommandDispatch::Form(FormCommand::FocusNextSection(1)));
    assert_eq!(map.resolve(KeyAction::SectionStep(-5)), CommandDispatch::Form(FormCommand::FocusNextSection(-1)));
    assert_eq!(map.resolve(KeyAction::RootStep(2)), CommandDispatch::Form(FormCommand::FocusNextRoot(1)));
    assert_eq!(map.resolve(KeyAction::ListMove(-4)), CommandDispatch::App(AppCommand::ListMove(-1)));
    assert_eq!(map.resolve(KeyAction::ListSelect(9)), CommandDispatch::App(AppCommand::ListSelect(1)));
    assert_eq!(map.resolve(KeyAction::NoAction), CommandDispatch::NoCommand);
    let typed = key(KeyCode::Char('a'));
    assert_eq!(map.resolve(KeyAction::Input(typed)), CommandDispatch::Input(typed));
}

#[test]
fn control_j_and_l_step_between_roots() {
    let router = InputRouter::new();
    assert_eq!(router.classify(&with(KeyCode::Char('j'), false, true, false)), KeyAction::RootStep(-1));
    assert_eq!(router.classify(&with(KeyCode::Char('l'), false, true, false)), KeyAction::RootStep(1));
    assert_eq!(router.classify(&with(KeyCode::Char('J'), false, true, false)), KeyAction::RootStep(-1));
    assert_eq!(router.classify(&with(KeyCode::Char('L'), false, true, false)), KeyAction::RootStep(1));
}

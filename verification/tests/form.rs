use schemaui::field::{FieldState, FieldValue, KeyHandling};
use schemaui::form::{apply_command, insert_path, FormState};
use schemaui::json::{JsonNumber, JsonValue};
use schemaui::keys::{FormCommand, KeyCode, KeyEvent, KeyModifiers};
use schemaui::popup::{apply_selection_to_field, PopupState};
use schemaui::schema::{parse_form_schema, FieldKind, SchemaError};
use schemaui::session::{App, AppStep, UiOptions};

fn s(text: &str) -> JsonValue {
    JsonValue::Str(text.to_string())
}

fn obj(entries: Vec<(&str, JsonValue)>) -> JsonValue {
    JsonValue::Object(entries.into_iter().map(|(k, v)| (k.to_string(), v)).collect())
}

fn key(code: KeyCode) -> KeyEvent {
    KeyEvent::new(code, KeyModifiers::none())
}

fn ctrl(c: char) -> KeyEvent {
    KeyEvent::new(KeyCode::Char(c), KeyModifiers { shift: false, control: true, alt: false })
}

fn schema() -> JsonValue {
    obj(vec![
        ("type", s("object")),
        ("title", s("Service")),
        (
            "properties",
            obj(vec![
                ("name", obj(vec![("type", s("string")), ("default", s("dev"))])),
                ("port", obj(vec![("type", s("integer"))])),
                ("enabled", obj(vec![("type", s("boolean"))])),
                ("mode", obj(vec![("enum", JsonValue::Array(vec![s("fast"), s("safe")]))])),
                (
                    "tags",
                    obj(vec![
                        ("type", s("array")),
                        ("items", obj(vec![("enum", JsonValue::Array(vec![s("x"), s("y")]))])),
                    ]),
                ),
                (
                    "server",
                    obj(vec![
                        ("type", s("object")),
                        ("properties", obj(vec![("host", obj(vec![("type", s("string"))]))])),
                    ]),
                ),
            ]),
        ),
        ("required", JsonValue::Array(vec![s("name")])),
    ])
}

fn form() -> FormState {
    let parsed = parse_form_schema(&schema()).expect("schema parses");
    FormState::from_schema(&parsed)
}

#[test]
fn schema_fields_are_grouped_into_sections() {
    let parsed = parse_form_schema(&schema()).unwrap();
    assert_eq!(parsed.title.as_deref(), Some("Service"));
    assert_eq!(parsed.sections.len(), 2);
    assert_eq!(parsed.sections[0].id, "general");
    assert_eq!(parsed.sections[0].title, "General");
    assert_eq!(parsed.sections[0].fields.len(), 5);
    assert_eq!(parsed.sections[1].id, "server");
    assert_eq!(parsed.sections[1].title, "Server");
    let host = &parsed.sections[1].fields[0];
    assert_eq!(host.pointer, "/server/host");
    assert_eq!(host.title, "Host");
    let name = &parsed.sections[0].fields[0];
    assert!(name.required);
    assert_eq!(name.kind, FieldKind::String);
    assert_eq!(parsed.sections[0].fields[3].kind, FieldKind::Enum(vec!["fast".to_string(), "safe".to_string()]));
}

#[test]
fn schema_errors_are_reported() {
    assert_eq!(parse_form_schema(&s("x")).unwrap_err(), SchemaError::NotAnObject);
    assert_eq!(
        parse_form_schema(&obj(vec![("type", s("array"))])).unwrap_err(),
        SchemaError::RootNotObject("array".to_string())
    );
    assert_eq!(parse_form_schema(&obj(vec![("type", s("object"))])).unwrap_err(), SchemaError::MissingProperties);
    let nested = obj(vec![(
        "properties",
        obj(vec![(
            "grid",
            obj(vec![("type", s("array")), ("items", obj(vec![("type", s("array")), ("items", obj(vec![]))]))]),
        )]),
    )]);
    match parse_form_schema(&nested).unwrap_err() {
        SchemaError::UnsupportedField { name, .. } => assert_eq!(name, "grid"),
        other => panic!("unexpected error {other:?}"),
    }
}

#[test]
fn the_built_document_follows_field_pointers() {
    let state = form();
    let value = state.try_build_value().expect("builds");
    assert_eq!(value.get("name"), Some(&s("dev")));
    assert_eq!(value.get("enabled"), Some(&JsonValue::Bool(false)));
    assert_eq!(value.get("mode"), Some(&s("fast")));
    assert!(value.get("port").is_none());
    assert!(value.get("server").is_none());
}

#[test]
fn a_bad_integer_names_its_field() {
    let mut state = form();
    state.focus_next_field();
    assert_eq!(state.focused_field().unwrap().schema.name, "port");
    state.handle_key_focused(&key(KeyCode::Char('x')));
    let err = state.try_build_value().unwrap_err();
    assert_eq!(err.pointer, "/port");
    assert_eq!(err.message, "expected integer");
    assert_eq!(err.to_text(), "/port: expected integer");
}

#[test]
fn focus_wraps_across_sections_and_back() {
    let mut state = form();
    for _ in 0..5 {
        state.focus_next_field();
    }
    assert_eq!((state.section_index, state.field_index), (1, 0));
    state.focus_next_field();
    assert_eq!((state.section_index, state.field_index), (0, 0));
    state.focus_prev_field();
    assert_eq!((state.section_index, state.field_index), (1, 0));
    state.focus_next_field();
    assert_eq!((state.section_index, state.field_index), (0, 0));
    state.focus_next_section(-1);
    assert_eq!(state.section_index, 1);
}

#[test]
fn errors_land_on_the_field_at_their_pointer() {
    let mut state = form();
    assert!(state.set_error("/server/host", "required".to_string()));
    assert_eq!(state.sections[1].fields[0].error.as_deref(), Some("required"));
    assert!(!state.set_error("/nowhere", "lost".to_string()));
    state.clear_errors();
    assert!(state.sections[1].fields[0].error.is_none());
}

#[test]
fn integer_fields_step_with_arrow_keys() {
    let mut state = form();
    state.focus_next_field();
    assert_eq!(state.handle_key_focused(&key(KeyCode::Right)), Some(KeyHandling::Handled));
    assert_eq!(state.handle_key_focused(&key(KeyCode::Right)), Some(KeyHandling::Handled));
    assert_eq!(state.focused_field().unwrap().display_value(), "2");
    assert!(state.is_dirty());
    let value = state.try_build_value().unwrap();
    assert_eq!(value.get("port"), Some(&JsonValue::Number(JsonNumber::PosInt(2))));
}

#[test]
fn insert_path_creates_intermediate_objects() {
    let mut root = obj(vec![]);
    let path = vec!["a".to_string(), "b".to_string()];
    insert_path(&mut root, &path, 0, s("leaf"));
    assert_eq!(root, obj(vec![("a", obj(vec![("b", s("leaf"))]))]));
}

#[test]
fn popups_offer_booleans_enums_and_multi_selects() {
    let state = form();
    let enabled = &state.sections[0].fields[2];
    let popup = PopupState::from_field(enabled).expect("boolean popup");
    assert_eq!(popup.as_render().options, &["true".to_string(), "false".to_string()][..]);
    assert_eq!(popup.selection(), 1);
    let mode = &state.sections[0].fields[3];
    let mut popup = PopupState::from_field(mode).expect("enum popup");
    popup.select_previous();
    assert_eq!(popup.selection(), 1);
    popup.select_next();
    assert_eq!(popup.selection(), 0);
    assert!(!popup.is_multi());
    assert!(popup.active().is_none());
    let tags = &state.sections[0].fields[4];
    let mut popup = PopupState::from_field(tags).expect("multi popup");
    assert!(popup.is_multi());
    popup.toggle_current();
    assert_eq!(popup.active(), Some(&[true, false][..]));
    popup.toggle_current();
    assert_eq!(popup.active(), Some(&[false, false][..]));
    let name = &state.sections[0].fields[0];
    assert!(PopupState::from_field(name).is_none());
}

#[test]
fn a_popup_choice_is_applied_to_its_field() {
    let mut state = form();
    let enabled = &mut state.sections[0].fields[2];
    apply_selection_to_field(enabled, 0, None);
    assert!(matches!(enabled.value, FieldValue::Bool(true)));
    assert!(enabled.dirty);
    let tags = &mut state.sections[0].fields[4];
    apply_selection_to_field(tags, 0, Some(vec![false, true]));
    assert_eq!(tags.display_value(), "[y]");
    let mode = &mut state.sections[0].fields[3];
    apply_selection_to_field(mode, 7, None);
    assert!(matches!(mode.value, FieldValue::Enum { selected: 1, .. }));
}

#[test]
fn seeding_shows_a_document_value_as_unedited() {
    let mut state = form();
    let mode: &mut FieldState = &mut state.sections[0].fields[3];
    mode.seed_value(&s("safe"));
    assert!(matches!(mode.value, FieldValue::Enum { selected: 1, .. }));
    assert!(!mode.dirty);
    let tags = &mut state.sections[0].fields[4];
    tags.seed_value(&JsonValue::Array(vec![s("y"), s("zz")]));
    assert_eq!(tags.multi_states(), Some(&[false, true][..]));
}

#[test]
fn saving_a_valid_form_ends_the_session_with_its_document() {
    let mut app = App::new(form(), UiOptions::default());
    assert_eq!(app.status_message(), "Ready. Press Ctrl+S to validate and save.");
    let step = app.handle_key(&ctrl('s'));
    let value = match step {
        AppStep::Validate { value, announce, save } => {
            assert!(announce && save);
            value
        }
        other => panic!("expected validation, got {other:?}"),
    };
    app.complete_validation(value, Vec::new(), true, true);
    assert!(app.should_quit());
    assert_eq!(app.status_message(), "Configuration saved");
    let result = app.take_result().expect("a result");
    assert_eq!(result.get("name"), Some(&s("dev")));
}

#[test]
fn validation_errors_are_counted_and_placed() {
    let mut app = App::new(form(), UiOptions::default());
    let value = app.form_state().try_build_value().unwrap();
    app.complete_validation(
        value,
        vec![
            ("/server/host".to_string(), "is required".to_string()),
            ("".to_string(), "bad root".to_string()),
        ],
        true,
        false,
    );
    assert_eq!(app.validation_errors(), 2);
    assert_eq!(app.status_message(), "2 issue(s) remaining");
    assert_eq!(app.global_errors(), &["<root>: bad root".to_string()][..]);
    assert_eq!(app.form_state().sections[1].fields[0].error.as_deref(), Some("is required"));
    assert!(!app.should_quit());
}

#[test]
fn quitting_with_unsaved_changes_asks_first() {
    let mut app = App::new(form(), UiOptions::default().with_auto_validate(false));
    let step = app.handle_key(&key(KeyCode::Char('!')));
    assert!(matches!(step, AppStep::Idle));
    assert_eq!(app.status_message(), "Editing Name");
    app.handle_key(&ctrl('q'));
    assert!(!app.should_quit());
    assert_eq!(app.status_message(), "Unsaved changes. Press Ctrl+Q again to quit without saving.");
    app.handle_key(&ctrl('q'));
    assert!(app.should_quit());
    assert!(app.take_result().is_none());
}

#[test]
fn edits_are_validated_automatically_without_being_announced() {
    let mut app = App::new(form(), UiOptions::default());
    match app.handle_key(&key(KeyCode::Char('x'))) {
        AppStep::Validate { value, announce, save } => {
            assert!(!announce && !save);
            assert_eq!(value.get("name"), Some(&s("devx")));
        }
        other => panic!("expected validation, got {other:?}"),
    }
}

#[test]
fn a_document_that_cannot_be_built_is_reported_on_save() {
    let mut app = App::new(form(), UiOptions::default().with_auto_validate(false));
    app.handle_key(&key(KeyCode::Tab));
    app.handle_key(&key(KeyCode::Char('z')));
    let step = app.handle_key(&ctrl('s'));
    assert!(matches!(step, AppStep::Idle));
    assert_eq!(app.status_message(), "1 issue(s) remaining");
    assert_eq!(app.global_errors(), &["expected integer".to_string()][..]);
    assert_eq!(app.form_state().sections[0].fields[1].error.as_deref(), Some("expected integer"));
}

#[test]
fn help_follows_the_option() {
    let app = App::new(form(), UiOptions::default());
    assert_eq!(app.help(), Some("Tab/Shift+Tab navigate • Ctrl+Tab switch section • Ctrl+J / Ctrl+L switch root • Enter choose • Ctrl+S save • Ctrl+Q quit"));
    let quiet = App::new(form(), UiOptions::default().with_help(false));
    assert_eq!(quiet.help(), None);
}

#[test]
fn confirming_an_untouched_popup_changes_nothing() {
    let mut state = form();
    for index in [2usize, 3, 4] {
        let field = &mut state.sections[0].fields[index];
        let popup = PopupState::from_field(field).expect("popup");
        let flags = popup.active().map(|f| f.to_vec());
        apply_selection_to_field(field, popup.selection(), flags);
        assert!(!field.dirty);
    }
}

#[test]
fn seeded_values_read_back() {
    let mut state = form();
    let name = &mut state.sections[0].fields[0];
    name.seed_value(&s("prod"));
    assert_eq!(name.current_value().unwrap(), Some(s("prod")));
    let enabled = &mut state.sections[0].fields[2];
    enabled.seed_value(&JsonValue::Bool(true));
    assert_eq!(enabled.current_value().unwrap(), Some(JsonValue::Bool(true)));
    let mode = &mut state.sections[0].fields[3];
    mode.seed_value(&s("safe"));
    assert_eq!(mode.current_value().unwrap(), Some(s("safe")));
}

#[test]
fn focus_commands_move_like_the_focus_methods() {
    let mut state = form();
    apply_command(&mut state, FormCommand::FocusNextField);
    assert_eq!((state.section_index, state.field_index), (0, 1));
    apply_command(&mut state, FormCommand::FocusNextSection(1));
    assert_eq!((state.section_index, state.field_index), (1, 0));
    apply_command(&mut state, FormCommand::FocusNextRoot(1));
    assert_eq!((state.section_index, state.field_index), (0, 0));
    apply_command(&mut state, FormCommand::FocusNextRoot(1));
    assert_eq!((state.section_index, state.field_index), (1, 0));
    apply_command(&mut state, FormCommand::FocusPrevField);
    assert_eq!((state.section_index, state.field_index), (0, 4));
}

#[test]
fn stepping_an_integer_up_and_down_shows_its_number_again() {
    let mut state = form();
    let port = &mut state.sections[0].fields[1];
    port.seed_value(&s("007"));
    port.handle_key(&key(KeyCode::Right));
    assert_eq!(port.display_value(), "8");
    port.handle_key(&key(KeyCode::Left));
    assert_eq!(port.display_value(), "7");
    port.seed_value(&s(" -3 "));
    port.handle_key(&key(KeyCode::Left));
    port.handle_key(&key(KeyCode::Right));
    assert_eq!(port.display_value(), "-3");
}

#[test]
fn a_document_seeds_the_fields_at_its_paths() {
    let mut state = form();
    let data = obj(vec![
        ("name", s("prod")),
        ("port", JsonValue::Number(JsonNumber::PosInt(8080))),
        ("server", obj(vec![("host", s("example.org"))])),
        ("unknown", s("ignored")),
    ]);
    state.seed_from(&data);
    assert_eq!(state.sections[0].fields[0].display_value(), "prod");
    assert_eq!(state.sections[0].fields[1].display_value(), "8080");
    assert_eq!(state.sections[0].fields[2].display_value(), "false");
    assert_eq!(state.sections[1].fields[0].display_value(), "example.org");
    assert!(!state.sections[1].fields[0].dirty);
    assert_eq!(state.section_index, 0);
    assert_eq!(state.field_index, 0);
}

#[test]
fn value_at_follows_a_path_of_member_names() {
    let data = obj(vec![("server", obj(vec![("host", s("example.org"))]))]);
    let path = vec!["server".to_string(), "host".to_string()];
    assert_eq!(schemaui::form::value_at(&data, &path), Some(&s("example.org")));
    let missing = vec!["server".to_string(), "port".to_string()];
    assert_eq!(schemaui::form::value_at(&data, &missing), None);
    assert_eq!(schemaui::form::value_at(&data, &Vec::new()), Some(&data));
}

#[test]
fn sections_know_their_root_tab_and_path() {
    let parsed = parse_form_schema(&schema()).unwrap();
    assert_eq!(parsed.sections[0].root, "general");
    assert!(parsed.sections[0].path.is_empty());
    assert_eq!(parsed.sections[1].root, "server");
    assert_eq!(parsed.sections[1].path, vec!["server".to_string()]);
}

#[test]
fn a_scalar_only_schema_has_one_general_root() {
    let schema = obj(vec![
        ("type", s("object")),
        ("required", JsonValue::Array(vec![s("host")])),
        (
            "properties",
            obj(vec![
                ("host", obj(vec![("type", s("string"))])),
                ("port", obj(vec![("type", s("integer")), ("title", s("Port Number"))])),
            ]),
        ),
    ]);
    let parsed = parse_form_schema(&schema).unwrap();
    let state = FormState::from_schema(&parsed);
    let roots = state.root_tabs();
    assert_eq!(roots.len(), 1);
    assert_eq!(roots[0].id, "general");
    assert_eq!(roots[0].title, "General");
    let fields = &parsed.sections[0].fields;
    assert_eq!(fields[0].name, "host");
    assert_eq!(fields[0].pointer, "/host");
    assert_eq!(fields[0].title, "Host");
    assert_eq!(fields[0].kind, FieldKind::String);
    assert!(fields[0].required);
    assert_eq!(fields[1].pointer, "/port");
    assert_eq!(fields[1].title, "Port Number");
    assert_eq!(fields[1].kind, FieldKind::Integer);
    assert!(!fields[1].required);
}

#[test]
fn a_root_object_becomes_a_tab_with_nested_sections() {
    let port = obj(vec![("type", s("integer"))]);
    let http = obj(vec![("type", s("object")), ("properties", obj(vec![("port", port)]))]);
    let runtime = obj(vec![("type", s("object")), ("properties", obj(vec![("http", http)]))]);
    let schema = obj(vec![("type", s("object")), ("properties", obj(vec![("runtime", runtime)]))]);
    let parsed = parse_form_schema(&schema).unwrap();
    let state = FormState::from_schema(&parsed);
    let roots = state.root_tabs();
    assert_eq!(roots.len(), 1);
    assert_eq!(roots[0].id, "runtime");
    assert_eq!(roots[0].title, "Runtime");
    assert_eq!(parsed.sections.len(), 2);
    assert_eq!(parsed.sections[1].root, "runtime");
    assert_eq!(parsed.sections[1].path, vec!["runtime".to_string(), "http".to_string()]);
    assert_eq!(parsed.sections[1].fields.len(), 1);
    assert_eq!(parsed.sections[1].fields[0].pointer, "/runtime/http/port");
    assert_eq!(parsed.sections[1].fields[0].kind, FieldKind::Integer);
}

#[test]
fn root_focus_steps_between_tabs_and_wraps() {
    let mut state = form();
    state.field_index = 2;
    state.focus_next_root(1);
    assert_eq!((state.section_index, state.field_index), (1, 0));
    state.focus_next_root(1);
    assert_eq!((state.section_index, state.field_index), (0, 0));
    state.focus_next_root(-1);
    assert_eq!(state.section_index, 1);
    apply_command(&mut state, FormCommand::FocusNextRoot(1));
    assert_eq!(state.section_index, 0);
}

#[test]
fn control_l_and_j_switch_root_tabs_in_a_session() {
    let mut app = App::new(form(), UiOptions::default());
    assert!(matches!(app.handle_key(&ctrl('l')), AppStep::Idle));
    assert_eq!(app.form_state().section_index, 1);
    app.handle_key(&ctrl('j'));
    assert_eq!(app.form_state().section_index, 0);
}

#[test]
fn enter_opens_a_popup_whose_choice_is_applied() {
    let mut app = App::new(form(), UiOptions::default().with_auto_validate(false));
    for _ in 0..3 {
        app.handle_key(&key(KeyCode::Tab));
    }
    assert_eq!(app.form_state().field_index, 3);
    app.handle_key(&key(KeyCode::Enter));
    assert!(app.popup().is_some());
    assert_eq!(app.status_message(), "Use Up/Down and Enter to choose");
    app.handle_key(&key(KeyCode::Down));
    assert_eq!(app.popup().unwrap().selection(), 1);
    let step = app.handle_key(&key(KeyCode::Enter));
    assert!(matches!(step, AppStep::Idle));
    assert!(app.popup().is_none());
    assert_eq!(app.status_message(), "Value updated");
    let mode = &app.form_state().sections[0].fields[3];
    assert!(matches!(mode.value, FieldValue::Enum { selected: 1, .. }));
    assert!(mode.dirty);
}

#[test]
fn escape_closes_a_popup_without_a_change() {
    let mut app = App::new(form(), UiOptions::default());
    for _ in 0..4 {
        app.handle_key(&key(KeyCode::Tab));
    }
    app.handle_key(&key(KeyCode::Enter));
    assert!(app.popup().unwrap().is_multi());
    app.handle_key(&key(KeyCode::Char(' ')));
    assert_eq!(app.popup().unwrap().active(), Some(&[true, false][..]));
    app.handle_key(&key(KeyCode::Esc));
    assert!(app.popup().is_none());
    assert_eq!(app.status_message(), "Ready. Press Ctrl+S to validate and save.");
    assert_eq!(app.form_state().sections[0].fields[4].multi_states(), Some(&[false, false][..]));
}

#[test]
fn the_focused_field_is_scrolled_into_view() {
    let mut state = form();
    state.field_index = 4;
    state.scroll_to_focus(6);
    assert_eq!(state.sections[0].scroll_offset, 3);
    state.field_index = 1;
    state.scroll_to_focus(6);
    assert_eq!(state.sections[0].scroll_offset, 1);
    let mut app = App::new(form(), UiOptions::default());
    for _ in 0..4 {
        app.handle_key(&key(KeyCode::Tab));
    }
    app.keep_focus_in_view(5);
    assert_eq!(app.form_state().sections[0].scroll_offset, 4);
}

fn array_form() -> FormState {
    let schema = obj(vec![
        ("type", s("object")),
        (
            "properties",
            obj(vec![
                ("ports", obj(vec![("type", s("array")), ("items", obj(vec![("type", s("integer"))]))])),
                ("name", obj(vec![("type", s("string"))])),
            ]),
        ),
    ]);
    FormState::from_schema(&parse_form_schema(&schema).unwrap())
}

#[test]
fn control_e_opens_the_entry_editor_of_a_scalar_array() {
    let mut app = App::new(array_form(), UiOptions::default().with_auto_validate(false));
    app.handle_key(&key(KeyCode::Char('1')));
    app.handle_key(&key(KeyCode::Char(',')));
    app.handle_key(&key(KeyCode::Char(' ')));
    app.handle_key(&key(KeyCode::Char('2')));
    app.handle_key(&ctrl('e'));
    let editor = app.editor().expect("an editor");
    assert_eq!(editor.entries(), &["1".to_string(), "2".to_string()][..]);
    assert_eq!(editor.selected(), 0);
    assert_eq!(app.status_message(), "Array editor: Ctrl+S save • Esc cancel");
    app.handle_key(&ctrl('n'));
    app.handle_key(&key(KeyCode::Char('3')));
    app.handle_key(&KeyEvent::new(KeyCode::Up, KeyModifiers { shift: false, control: true, alt: false }));
    assert_eq!(app.editor().unwrap().entries(), &["1".to_string(), "3".to_string(), "2".to_string()][..]);
    app.handle_key(&KeyEvent::new(KeyCode::Left, KeyModifiers { shift: false, control: true, alt: false }));
    app.handle_key(&ctrl('d'));
    assert_eq!(app.editor().unwrap().entries(), &["3".to_string(), "2".to_string()][..]);
    let step = app.handle_key(&ctrl('s'));
    assert!(matches!(step, AppStep::Idle));
    assert!(app.editor().is_none());
    assert_eq!(app.status_message(), "Value updated");
    let ports = &app.form_state().sections[0].fields[0];
    assert_eq!(ports.display_value(), "[3, 2]");
    let value = app.form_state().try_build_value().unwrap();
    assert_eq!(
        value.get("ports"),
        Some(&JsonValue::Array(vec![JsonValue::Number(JsonNumber::PosInt(3)), JsonValue::Number(JsonNumber::PosInt(2))]))
    );
}

#[test]
fn escape_twice_discards_entry_editor_changes() {
    let mut app = App::new(array_form(), UiOptions::default().with_auto_validate(false));
    app.handle_key(&key(KeyCode::Char('7')));
    app.handle_key(&ctrl('e'));
    app.handle_key(&key(KeyCode::Backspace));
    assert_eq!(app.editor().unwrap().entries(), &["".to_string()][..]);
    app.handle_key(&key(KeyCode::Esc));
    assert!(app.editor().is_some());
    assert_eq!(app.status_message(), "Overlay dirty. Press Esc again to discard changes.");
    app.handle_key(&key(KeyCode::Esc));
    assert!(app.editor().is_none());
    assert_eq!(app.status_message(), "Ready. Press Ctrl+S to validate and save.");
    assert_eq!(app.form_state().sections[0].fields[0].display_value(), "[7]");
    app.handle_key(&ctrl('e'));
    app.handle_key(&key(KeyCode::Esc));
    assert!(app.editor().is_none());
}

#[test]
fn control_e_elsewhere_explains_what_it_edits() {
    let mut app = App::new(array_form(), UiOptions::default());
    app.handle_key(&key(KeyCode::Tab));
    app.handle_key(&ctrl('e'));
    assert!(app.editor().is_none());
    assert_eq!(app.status_message(), "Focus a composite or composite list field before editing");
}

fn composite_form() -> FormState {
    let basic = obj(vec![
        ("title", s("Basic")),
        ("type", s("object")),
        ("properties", obj(vec![("user", obj(vec![("type", s("string"))]))])),
    ]);
    let token = obj(vec![
        ("title", s("Token")),
        ("type", s("object")),
        ("properties", obj(vec![("token", obj(vec![("type", s("string"))]))])),
    ]);
    let schema = obj(vec![
        ("type", s("object")),
        (
            "properties",
            obj(vec![
                ("auth", obj(vec![("oneOf", JsonValue::Array(vec![basic, token]))])),
                (
                    "extras",
                    obj(vec![(
                        "anyOf",
                        JsonValue::Array(vec![obj(vec![("type", s("object")), ("properties", obj(vec![]))])]),
                    )]),
                ),
            ]),
        ),
    ]);
    FormState::from_schema(&parse_form_schema(&schema).unwrap())
}

#[test]
fn one_of_and_any_of_become_composite_fields() {
    let state = composite_form();
    let auth = &state.sections[0].fields[0];
    assert!(matches!(auth.schema.kind, FieldKind::Composite(_)));
    assert_eq!(auth.display_value(), "Variant: Basic (Enter to choose)");
    let extras = &state.sections[0].fields[1];
    assert_eq!(extras.display_value(), "Variants: [] (Enter to toggle)");
    let value = state.try_build_value().unwrap();
    assert_eq!(value.get("auth"), Some(&obj(vec![])));
    assert!(value.get("extras").is_none());
}

#[test]
fn enter_chooses_a_variant_of_a_composite_field() {
    let mut app = App::new(composite_form(), UiOptions::default().with_auto_validate(false));
    app.handle_key(&key(KeyCode::Enter));
    assert_eq!(app.popup().unwrap().selection(), 0);
    app.handle_key(&key(KeyCode::Down));
    app.handle_key(&key(KeyCode::Enter));
    assert_eq!(app.form_state().sections[0].fields[0].display_value(), "Variant: Token (Enter to choose)");
    app.handle_key(&key(KeyCode::Tab));
    app.handle_key(&key(KeyCode::Enter));
    assert!(app.popup().unwrap().is_multi());
    app.handle_key(&key(KeyCode::Char(' ')));
    app.handle_key(&key(KeyCode::Enter));
    assert_eq!(app.form_state().sections[0].fields[1].display_value(), "Variants: Variant 1 (Enter to toggle)");
    let value = app.form_state().try_build_value().unwrap();
    assert_eq!(value.get("extras"), Some(&JsonValue::Array(vec![obj(vec![])])));
}

#[test]
fn control_e_edits_the_active_variant_in_its_own_form() {
    let mut app = App::new(composite_form(), UiOptions::default().with_auto_validate(false));
    app.handle_key(&ctrl('e'));
    assert_eq!(app.status_message(), "Composite editor: Ctrl+S save • Esc cancel");
    let overlay = app.overlay().expect("a variant editor");
    assert_eq!(overlay.variant, 0);
    assert_eq!(overlay.form.sections[0].fields[0].schema.name, "user");
    app.handle_key(&key(KeyCode::Char('a')));
    app.handle_key(&key(KeyCode::Char('l')));
    let step = app.handle_key(&ctrl('s'));
    assert!(matches!(step, AppStep::Idle));
    assert!(app.overlay().is_none());
    assert_eq!(app.status_message(), "Value updated");
    let value = app.form_state().try_build_value().unwrap();
    assert_eq!(value.get("auth"), Some(&obj(vec![("user", s("al"))])));
    app.handle_key(&ctrl('e'));
    assert_eq!(app.overlay().unwrap().form.sections[0].fields[0].display_value(), "al");
    app.handle_key(&key(KeyCode::Esc));
    assert!(app.overlay().is_none());
}

#[test]
fn control_e_on_an_any_of_without_a_variant_asks_for_one() {
    let mut app = App::new(composite_form(), UiOptions::default());
    app.handle_key(&key(KeyCode::Tab));
    app.handle_key(&ctrl('e'));
    assert!(app.overlay().is_none());
    assert_eq!(app.status_message(), "Select a variant via Enter before editing (oneOf/anyOf)");
}

#[test]
fn a_document_seeds_the_chosen_variant() {
    let mut state = composite_form();
    state.seed_from(&obj(vec![("auth", obj(vec![("user", s("root"))]))]));
    let value = state.try_build_value().unwrap();
    assert_eq!(value.get("auth"), Some(&obj(vec![("user", s("root"))])));
}

#[test]
fn ctrl_e_opens_scalar_array_overlay() {
    let schema = schemaui::schema::FieldSchema {
        name: "allowed_methods".to_string(),
        path: vec!["allowed_methods".to_string()],
        pointer: "/allowed_methods".to_string(),
        title: "Allowed Methods".to_string(),
        description: None,
        section_id: "app".to_string(),
        kind: FieldKind::Array(Box::new(FieldKind::String)),
        required: false,
        default: Some(JsonValue::Array(vec![s("GET")])),
        metadata: Vec::new(),
    };
    let section = schemaui::form::SectionState {
        id: "section".to_string(),
        title: "Section".to_string(),
        description: None,
        root: "app".to_string(),
        path: vec!["app".to_string()],
        fields: vec![schemaui::field::FieldState::from_schema(schema)],
        scroll_offset: 0,
    };
    let form_state = FormState { sections: vec![section], section_index: 0, field_index: 0 };
    let mut app = App::new(form_state, UiOptions::default());
    app.handle_key(&ctrl('e'));
    assert!(app.editor().is_some(), "scalar arrays should open overlay via Ctrl+E");
    assert_eq!(app.editor().unwrap().entries(), &["GET".to_string()][..]);
}

#[test]
fn a_changed_variant_editor_needs_a_second_escape() {
    let mut app = App::new(composite_form(), UiOptions::default().with_auto_validate(false));
    app.handle_key(&ctrl('e'));
    app.handle_key(&key(KeyCode::Char('x')));
    app.handle_key(&key(KeyCode::Esc));
    assert!(app.overlay().is_some());
    app.handle_key(&key(KeyCode::Char('y')));
    app.handle_key(&key(KeyCode::Esc));
    assert!(app.overlay().is_some());
    app.handle_key(&key(KeyCode::Esc));
    assert!(app.overlay().is_none());
    assert_eq!(app.form_state().try_build_value().unwrap().get("auth"), Some(&obj(vec![])));
}

#[test]
fn references_are_resolved_before_layout() {
    let schema = obj(vec![
        ("type", s("object")),
        (
            "definitions",
            obj(vec![
                ("port", obj(vec![("type", s("integer")), ("title", s("Port"))])),
                (
                    "server",
                    obj(vec![
                        ("type", s("object")),
                        ("properties", obj(vec![("port", obj(vec![("$ref", s("#/definitions/port"))]))])),
                    ]),
                ),
            ]),
        ),
        ("$defs", obj(vec![("mode", obj(vec![("enum", JsonValue::Array(vec![s("a"), s("b")]))]))])),
        (
            "properties",
            obj(vec![
                ("main", obj(vec![("$ref", s("#/definitions/server"))])),
                ("mode", obj(vec![("$ref", s("#/%24defs/mode"))])),
            ]),
        ),
    ]);
    let parsed = parse_form_schema(&schema).expect("references resolve");
    let mode = &parsed.sections[1].fields[0];
    assert_eq!(mode.pointer, "/mode");
    assert_eq!(mode.kind, FieldKind::Enum(vec!["a".to_string(), "b".to_string()]));
    let port = &parsed.sections[0].fields[0];
    assert_eq!(port.pointer, "/main/port");
    assert_eq!(port.kind, FieldKind::Integer);
    assert_eq!(port.title, "Port");
}

#[test]
fn references_that_cannot_be_followed_are_reported() {
    let missing = obj(vec![
        ("type", s("object")),
        ("properties", obj(vec![("a", obj(vec![("$ref", s("#/definitions/nope"))]))])),
    ]);
    assert_eq!(
        parse_form_schema(&missing).unwrap_err(),
        SchemaError::Reference("definition 'nope' not found".to_string())
    );
    let remote = obj(vec![
        ("type", s("object")),
        ("properties", obj(vec![("a", obj(vec![("$ref", s("http://example.com/s.json"))]))])),
    ]);
    assert_eq!(
        parse_form_schema(&remote).unwrap_err().message(),
        "unsupported reference http://example.com/s.json"
    );
    let looping = obj(vec![
        ("type", s("object")),
        ("definitions", obj(vec![("a", obj(vec![("$ref", s("#/definitions/a"))]))])),
        ("properties", obj(vec![("x", obj(vec![("$ref", s("#/definitions/a"))]))])),
    ]);
    assert_eq!(
        parse_form_schema(&looping).unwrap_err(),
        SchemaError::Reference("reference '#/definitions/a' nests too deeply".to_string())
    );
}

fn map_form() -> FormState {
    let schema = obj(vec![
        ("type", s("object")),
        (
            "properties",
            obj(vec![(
                "labels",
                obj(vec![("type", s("object")), ("additionalProperties", obj(vec![("type", s("string"))]))]),
            )]),
        ),
    ]);
    FormState::from_schema(&parse_form_schema(&schema).unwrap())
}

#[test]
fn additional_properties_become_a_map_field() {
    let mut state = map_form();
    let labels = &state.sections[0].fields[0];
    assert!(matches!(labels.schema.kind, FieldKind::KeyValue(_, _)));
    assert_eq!(labels.display_value(), "Map: empty (Ctrl+N add)");
    assert!(state.try_build_value().unwrap().get("labels").is_none());
    state.seed_from(&obj(vec![("labels", obj(vec![("a", s("1"))]))]));
    assert_eq!(
        state.sections[0].fields[0].display_value(),
        "Map[1] • a (Ctrl+Left/Right select, Ctrl+E edit)"
    );
    assert_eq!(state.try_build_value().unwrap().get("labels"), Some(&obj(vec![("a", s("1"))])));
}

#[test]
fn map_entries_are_added_edited_and_removed() {
    let mut app = App::new(map_form(), UiOptions::default().with_auto_validate(false));
    app.handle_key(&ctrl('n'));
    app.handle_key(&ctrl('e'));
    assert_eq!(app.status_message(), "Key/Value editor: Ctrl+S save • Esc cancel");
    assert!(app.overlay().unwrap().entry);
    app.handle_key(&key(KeyCode::Char('k')));
    app.handle_key(&key(KeyCode::Tab));
    app.handle_key(&key(KeyCode::Char('v')));
    app.handle_key(&ctrl('s'));
    assert!(app.overlay().is_none());
    assert_eq!(app.form_state().try_build_value().unwrap().get("labels"), Some(&obj(vec![("k", s("v"))])));
    app.handle_key(&ctrl('d'));
    assert_eq!(app.form_state().sections[0].fields[0].display_value(), "Map: empty (Ctrl+N add)");
}

#[test]
fn a_variant_that_is_not_chosen_stays_out_of_the_document() {
    let mut app = App::new(composite_form(), UiOptions::default().with_auto_validate(false));
    app.handle_key(&ctrl('e'));
    app.handle_key(&key(KeyCode::Char('a')));
    app.handle_key(&ctrl('s'));
    assert_eq!(app.form_state().try_build_value().unwrap().get("auth"), Some(&obj(vec![("user", s("a"))])));
    app.handle_key(&key(KeyCode::Enter));
    app.handle_key(&key(KeyCode::Down));
    app.handle_key(&key(KeyCode::Enter));
    assert_eq!(app.form_state().try_build_value().unwrap().get("auth"), Some(&obj(vec![])));
}

#[test]
fn an_object_typed_choice_is_a_field_not_a_section() {
    let schema = obj(vec![
        ("type", s("object")),
        (
            "properties",
            obj(vec![(
                "target",
                obj(vec![
                    ("type", s("object")),
                    (
                        "oneOf",
                        JsonValue::Array(vec![obj(vec![("title", s("File")), ("type", s("object")), ("properties", obj(vec![]))])]),
                    ),
                ]),
            )]),
        ),
    ]);
    let parsed = parse_form_schema(&schema).unwrap();
    assert_eq!(parsed.sections.len(), 1);
    assert_eq!(parsed.sections[0].fields[0].pointer, "/target");
    assert!(matches!(parsed.sections[0].fields[0].kind, FieldKind::Composite(_)));
}

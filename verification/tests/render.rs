use schemaui::composite::{CompositeField, CompositeState, CompositeVariant};
use schemaui::form::FormState;
use schemaui::json::JsonValue;
use schemaui::render::{composite_selector_lines, field_render_lines, RenderLine, TextStyle};
use schemaui::schema::{parse_form_schema, CompositeMode};

fn s(text: &str) -> JsonValue {
    JsonValue::Str(text.to_string())
}

fn obj(entries: Vec<(&str, JsonValue)>) -> JsonValue {
    JsonValue::Object(entries.into_iter().map(|(k, v)| (k.to_string(), v)).collect())
}

fn plain(lines: &[RenderLine]) -> Vec<Vec<(String, TextStyle)>> {
    lines.iter().map(|l| l.spans.iter().map(|sp| (sp.text.clone(), sp.style)).collect()).collect()
}

fn piece(text: &str, style: TextStyle) -> (String, TextStyle) {
    (text.to_string(), style)
}

fn form() -> FormState {
    let schema = obj(vec![
        ("type", s("object")),
        ("required", JsonValue::Array(vec![s("name")])),
        (
            "properties",
            obj(vec![(
                "name",
                obj(vec![("type", s("string")), ("default", s("service-name")), ("description", s("Shown in logs"))]),
            )]),
        ),
    ]);
    FormState::from_schema(&parse_form_schema(&schema).unwrap())
}

#[test]
fn an_unselected_field_is_indented_with_its_type_and_description() {
    let state = form();
    let field = &state.sections[0].fields[0];
    assert_eq!(
        plain(&field_render_lines(field, false, 40)),
        vec![
            vec![piece("Name *", TextStyle::Label)],
            vec![piece("  ", TextStyle::Plain), piece("service-name", TextStyle::Value)],
            vec![piece("  ", TextStyle::Plain), piece("string | Shown in logs", TextStyle::Meta)],
        ]
    );
}

#[test]
fn a_selected_field_is_boxed_and_cut_to_the_width() {
    let mut state = form();
    state.sections[0].fields[0].error = Some("too long".to_string());
    let field = &state.sections[0].fields[0];
    assert_eq!(
        plain(&field_render_lines(field, true, 2)),
        vec![
            vec![piece("Name *", TextStyle::FocusedLabel)],
            vec![piece("┌──────┐", TextStyle::Border)],
            vec![
                piece("│ ", TextStyle::Border),
                piece("ser…", TextStyle::FocusedValue),
                piece(" │", TextStyle::Border),
            ],
            vec![piece("└──────┘", TextStyle::Border)],
            vec![piece("  ", TextStyle::Plain), piece("string | Shown in logs", TextStyle::Meta)],
            vec![piece("  ⚠ too long", TextStyle::Error)],
        ]
    );
}

fn variant(id: &str, title: &str) -> CompositeVariant {
    CompositeVariant {
        id: id.to_string(),
        title: title.to_string(),
        description: None,
        schema: obj(vec![("type", s("object")), ("properties", obj(vec![]))]),
    }
}

#[test]
fn a_one_of_selector_lists_its_variants_with_the_choice_highlighted() {
    let field = CompositeField { mode: CompositeMode::OneOf, variants: vec![variant("a", "Basic"), variant("b", "Advanced")] };
    let state = CompositeState::new("/auth", &field);
    assert_eq!(
        plain(&composite_selector_lines(&state)),
        vec![vec![
            piece("  OneOf: ", TextStyle::Heading),
            piece("Basic", TextStyle::Active),
            piece(" | ", TextStyle::Muted),
            piece("Advanced", TextStyle::Muted),
            piece("  (Enter to choose variant, Ctrl+E edits)", TextStyle::Hint),
        ]]
    );
}

#[test]
fn an_any_of_selector_adds_checkboxes_and_the_active_list() {
    let field = CompositeField { mode: CompositeMode::AnyOf, variants: vec![variant("a", "A"), variant("b", "B")] };
    let mut state = CompositeState::new("/extras", &field);
    let lines = plain(&composite_selector_lines(&state));
    assert_eq!(
        lines[1],
        vec![piece("    Active variants: <none>", TextStyle::Muted), piece("  + Add variant (Enter)", TextStyle::Hint)]
    );
    assert!(state.apply_multi(&[true, true]));
    assert_eq!(
        plain(&composite_selector_lines(&state)),
        vec![
            vec![
                piece("  AnyOf: ", TextStyle::Heading),
                piece(" [x] ", TextStyle::Muted),
                piece("A", TextStyle::Active),
                piece("  ", TextStyle::Muted),
                piece(" [x] ", TextStyle::Muted),
                piece("B", TextStyle::Active),
                piece("  (Enter toggles, Ctrl+E opens editor)", TextStyle::Hint),
            ],
            vec![
                piece("    Active variants: ", TextStyle::Muted),
                piece("A, B", TextStyle::Value),
                piece("  + Add variant (Enter)", TextStyle::Hint),
            ],
        ]
    );
}

#[test]
fn a_selector_without_variants_says_so() {
    let field = CompositeField { mode: CompositeMode::OneOf, variants: Vec::new() };
    let state = CompositeState::new("/none", &field);
    assert_eq!(
        plain(&composite_selector_lines(&state)),
        vec![vec![piece("  No variants available in this schema.", TextStyle::Muted)]]
    );
}

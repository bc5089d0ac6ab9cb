use schemaui::frontend::SessionOutcome;
use schemaui::display::adjust_scroll_offset;
use schemaui::form::SectionState;
use schemaui::format::resolve_format;
use schemaui::output::build_output_options;
use schemaui::schema::general_section_info;
use schemaui::session::UiOptions;
use std::time::Duration;
use schemaui::composite::{CompositeField, CompositeState, CompositeVariant};
use schemaui::draft::{state_dir_in, DraftStore, StateDirLayout};
use schemaui::format::DocumentFormat;
use schemaui::json::{JsonNumber, JsonValue};
use schemaui::keymap_spec::validate_unique_ids;
use schemaui::model::{empty_vec_to_none, is_false, option_vec_is_none_or_empty, InstanceType};
use schemaui::output::{OutputDestination, OutputOptions};
use schemaui::rich::{render_diagram, render_markdown, DiagramTheme, RichContent, RichContentId};
use schemaui::schema::CompositeMode;
use schemaui::schema_ui::SchemaUI;
use schemaui::svg::{SvgSanitizer, XmlEvent};
use schemaui::toml_prep::prepare_toml_value;

fn s(text: &str) -> JsonValue {
    JsonValue::Str(text.to_string())
}

fn obj(entries: Vec<(&str, JsonValue)>) -> JsonValue {
    JsonValue::Object(entries.into_iter().map(|(k, v)| (k.to_string(), v)).collect())
}

fn start(name: &str, attrs: &[(&str, &str)]) -> XmlEvent {
    XmlEvent::Start {
        name: name.to_string(),
        attrs: attrs.iter().map(|(k, v)| (k.to_string(), v.to_string())).collect(),
    }
}

fn run(events: Vec<XmlEvent>) -> Result<(String, Vec<(String, String)>), String> {
    let mut sanitizer = SvgSanitizer::new();
    for event in &events {
        if sanitizer.feed(event)? {
            break;
        }
    }
    sanitizer.finish()
}

#[test]
fn formats_are_read_from_keywords_and_extensions() {
    assert_eq!(DocumentFormat::from_keyword("JSON"), Ok(DocumentFormat::Json));
    assert_eq!(DocumentFormat::from_keyword("yml"), Ok(DocumentFormat::Yaml));
    assert_eq!(DocumentFormat::from_keyword("toml"), Ok(DocumentFormat::Toml));
    assert_eq!(
        DocumentFormat::from_keyword("XML"),
        Err("unsupported format 'xml', available: json, yaml, toml".to_string())
    );
    assert_eq!(DocumentFormat::from_extension("conf/app.YAML"), Some(DocumentFormat::Yaml));
    assert_eq!(DocumentFormat::from_extension("app.toml"), Some(DocumentFormat::Toml));
    assert_eq!(DocumentFormat::from_extension("Makefile"), None);
    assert_eq!(DocumentFormat::from_extension("notes.txt"), None);
    assert_eq!(DocumentFormat::keyword_list(), vec!["json", "yaml", "toml"]);
    assert_eq!(DocumentFormat::default().keyword(), "json");
}

#[test]
fn output_options_default_to_pretty_stdout() {
    let options = OutputOptions::new(DocumentFormat::Yaml);
    assert!(options.pretty);
    assert_eq!(options.destinations, vec![OutputDestination::Stdout]);
    let options = options.with_pretty(false).add_destination(OutputDestination::file("out.json"));
    assert!(!options.pretty);
    assert_eq!(options.destinations.len(), 2);
    let cleared = options.with_destinations(Vec::new());
    assert!(!cleared.has_destinations());
}

#[test]
fn toml_preparation_drops_null_members_and_refuses_other_nulls() {
    let value = obj(vec![("a", JsonValue::Null), ("b", JsonValue::Number(JsonNumber::PosInt(1)))]);
    assert_eq!(prepare_toml_value(&value, ""), Ok(obj(vec![("b", JsonValue::Number(JsonNumber::PosInt(1)))])));
    assert_eq!(
        prepare_toml_value(&JsonValue::Null, ""),
        Err("TOML cannot represent null at /".to_string())
    );
    let nested = obj(vec![("list", JsonValue::Array(vec![s("x"), JsonValue::Null]))]);
    assert_eq!(
        prepare_toml_value(&nested, ""),
        Err("TOML cannot represent null at /list/1".to_string())
    );
    let escaped = obj(vec![("a/b", JsonValue::Array(vec![JsonValue::Null]))]);
    assert_eq!(
        prepare_toml_value(&escaped, ""),
        Err("TOML cannot represent null at /a~1b/0".to_string())
    );
}

#[test]
fn keymap_ids_must_be_unique() {
    let ids = vec!["save".to_string(), "quit".to_string()];
    assert_eq!(validate_unique_ids(&ids), Ok(()));
    let ids = vec!["a".to_string(), "b".to_string(), "a".to_string(), "b".to_string()];
    assert_eq!(validate_unique_ids(&ids), Err("duplicate keymap entry id a".to_string()));
}

#[test]
fn rich_content_ids_are_fnv_hashes_of_kind_and_source() {
    let mermaid = RichContent::Mermaid { source: "graph TD".to_string() };
    assert_eq!(RichContentId::of(&mermaid).0, "e55fc3cd2bc3e8e4");
    let markdown = RichContent::Markdown { source: "# hi".to_string() };
    assert_eq!(RichContentId::of(&markdown).0, "ae1b2b51e60236b4");
    let empty = RichContent::Mermaid { source: String::new() };
    assert_eq!(RichContentId::of(&empty).0, "efa7fccdb8623200");
    assert_eq!(RichContentId::of(&mermaid), RichContentId::of(&mermaid.clone()));
}

#[test]
fn state_directories_follow_the_platform_layout() {
    assert_eq!(state_dir_in(StateDirLayout::Xdg, Some("/home/u"), Some("/state"), None), Some("/state/schemaui".to_string()));
    assert_eq!(
        state_dir_in(StateDirLayout::Xdg, Some("/home/u"), None, None),
        Some("/home/u/.local/state/schemaui".to_string())
    );
    assert_eq!(
        state_dir_in(StateDirLayout::MacOs, Some("/Users/u"), None, None),
        Some("/Users/u/Library/Application Support/schemaui".to_string())
    );
    assert_eq!(state_dir_in(StateDirLayout::Windows, Some("/home/u"), None, None), None);
    assert_eq!(state_dir_in(StateDirLayout::Xdg, None, None, None), None);
    let store = DraftStore::at("/tmp/draft.json".to_string());
    assert_eq!(store.path(), "/tmp/draft.json");
}

#[test]
fn svg_sanitizer_keeps_whitelisted_markup_only() {
    let events = vec![
        start("svg", &[("xmlns", "http://www.w3.org/2000/svg"), ("viewBox", "0 0 10 20"), ("onload", "x()")]),
        start("script", &[]),
        XmlEvent::Text("alert(1)".to_string()),
        XmlEvent::End,
        XmlEvent::Empty {
            name: "rect".to_string(),
            attrs: vec![("width".to_string(), "5".to_string()), ("href".to_string(), "http://evil".to_string())],
        },
        start("text", &[]),
        XmlEvent::Text(" Hello ".to_string()),
        XmlEvent::Reference("amp".to_string()),
        XmlEvent::Text(" welcome ".to_string()),
        XmlEvent::Reference("#x41".to_string()),
        XmlEvent::End,
        XmlEvent::End,
        XmlEvent::Eof,
    ];
    let (body, root) = run(events).expect("sanitizes");
    assert_eq!(
        body,
        "<svg xmlns=\"http://www.w3.org/2000/svg\" viewBox=\"0 0 10 20\"><rect width=\"5\"/><text>Hello &amp; welcome A</text></svg>"
    );
    assert_eq!(root.len(), 3);
}

#[test]
fn svg_sanitizer_refuses_broken_documents() {
    assert_eq!(run(vec![start("g", &[]), XmlEvent::End, XmlEvent::Eof]), Err("expected an <svg> document".to_string()));
    assert_eq!(
        run(vec![start("svg", &[]), XmlEvent::Eof]),
        Err("SVG is not well-formed: unclosed elements".to_string())
    );
    assert_eq!(
        run(vec![XmlEvent::End]),
        Err("SVG is not well-formed: unmatched closing tag".to_string())
    );
    assert_eq!(run(vec![XmlEvent::Eof]), Err("expected an <svg> document".to_string()));
}

#[test]
fn schema_model_helpers() {
    assert!(is_false(&false));
    assert!(!is_false(&true));
    assert!(option_vec_is_none_or_empty::<u8>(&None));
    assert!(option_vec_is_none_or_empty::<u8>(&Some(vec![])));
    assert!(!option_vec_is_none_or_empty(&Some(vec![1u8])));
    assert_eq!(empty_vec_to_none::<u8>(Some(vec![])), None);
    assert_eq!(empty_vec_to_none(Some(vec![2u8])), Some(vec![2u8]));
    assert_eq!(InstanceType::Object.keyword(), "object");
}

fn variant(id: &str, title: &str) -> CompositeVariant {
    CompositeVariant {
        id: id.to_string(),
        title: title.to_string(),
        description: None,
        schema: obj(vec![("type", s("object")), ("properties", obj(vec![]))]),
    }
}

#[test]
fn one_of_composites_keep_exactly_one_choice() {
    let field = CompositeField { mode: CompositeMode::OneOf, variants: vec![variant("a", "A"), variant("b", "B")] };
    let mut state = CompositeState::new("/choice", &field);
    assert_eq!(state.active_flags(), vec![true, false]);
    assert_eq!(state.selected_index(), Some(0));
    assert!(state.apply_single(1));
    assert_eq!(state.active_flags(), vec![false, true]);
    assert!(!state.apply_single(1));
    assert_eq!(state.option_titles(), vec!["A".to_string(), "B".to_string()]);
    assert_eq!(state.pointer(), "/choice");
    assert!(!state.is_multi());
    assert_eq!(state.variant_count(), 2);
}

#[test]
fn any_of_composites_take_the_given_flags() {
    let field = CompositeField { mode: CompositeMode::AnyOf, variants: vec![variant("a", "A"), variant("b", "B")] };
    let mut state = CompositeState::new("/choice", &field);
    assert_eq!(state.active_indices(), Vec::<usize>::new());
    assert!(state.apply_multi(&[true, true]));
    assert_eq!(state.active_indices(), vec![0, 1]);
    let popup = state.composite_popup().expect("popup data");
    assert!(popup.multi);
    assert_eq!(popup.active, vec![true, true]);
}

#[test]
fn schema_ui_builders_keep_their_settings() {
    let ui = SchemaUI::from_data_value(obj(vec![("port", JsonValue::Number(JsonNumber::PosInt(1)))]))
        .with_title("Config".to_string())
        .with_auto_validate(false)
        .with_help(false);
    let (schema, title, options, output) = ui.into_parts();
    assert_eq!(schema.get("type"), Some(&s("object")));
    assert_eq!(title.as_deref(), Some("Config"));
    assert!(!options.auto_validate);
    assert!(!options.show_help);
    assert!(options.confirm_exit);
    assert!(output.is_none());
}

#[test]
fn input_formats_come_from_the_keyword_then_the_extension() {
    assert_eq!(resolve_format(Some("TOML"), Some("a.json")), Ok(DocumentFormat::Toml));
    assert_eq!(
        resolve_format(Some("ini"), None),
        Err("unsupported format 'ini', available: json, yaml, toml".to_string())
    );
    assert_eq!(resolve_format(None, Some("config.yml")), Ok(DocumentFormat::Yaml));
    assert_eq!(resolve_format(None, Some("-")), Ok(DocumentFormat::Json));
    assert_eq!(resolve_format(None, Some("config.txt")), Ok(DocumentFormat::Json));
    assert_eq!(resolve_format(None, None), Ok(DocumentFormat::Json));
}

#[test]
fn output_flags_decide_format_and_destinations() {
    let none: Vec<String> = Vec::new();
    let options = build_output_options(None, false, &none, None, false, false).unwrap().unwrap();
    assert_eq!(options.format, DocumentFormat::Json);
    assert!(options.pretty);
    assert_eq!(options.destinations, vec![OutputDestination::File("/tmp/schemaui.yaml".to_string())]);
    assert!(build_output_options(None, false, &none, None, true, false).unwrap().is_none());
    let files = vec!["a.toml".to_string()];
    let options = build_output_options(Some("toml"), true, &files, Some("/x"), false, true).unwrap().unwrap();
    assert_eq!(options.format, DocumentFormat::Toml);
    assert!(!options.pretty);
    assert_eq!(
        options.destinations,
        vec![OutputDestination::Stdout, OutputDestination::File("a.toml".to_string())]
    );
    let custom = build_output_options(None, false, &none, Some("/x"), false, false).unwrap().unwrap();
    assert_eq!(custom.destinations, vec![OutputDestination::File("/x".to_string())]);
    assert_eq!(
        build_output_options(Some("csv"), true, &none, None, false, false).unwrap_err(),
        "unsupported format 'csv', available: json, yaml, toml"
    );
}

#[test]
fn fields_without_a_section_go_to_general() {
    let general = general_section_info();
    assert_eq!(general.id, "general");
    assert_eq!(general.title, "General");
    assert!(general.description.is_none());
}

#[test]
fn scrolling_keeps_the_selected_row_in_view() {
    let mut section = SectionState {
        id: "s".to_string(),
        title: "S".to_string(),
        description: None,
        root: "s".to_string(),
        path: vec!["s".to_string()],
        fields: Vec::new(),
        scroll_offset: 0,
    };
    adjust_scroll_offset(&mut section, 10, 8);
    assert_eq!(section.scroll_offset, 7);
    adjust_scroll_offset(&mut section, 8, 8);
    assert_eq!(section.scroll_offset, 7);
    adjust_scroll_offset(&mut section, 2, 8);
    assert_eq!(section.scroll_offset, 2);
    adjust_scroll_offset(&mut section, 5, 4);
    assert_eq!(section.scroll_offset, 0);
}

#[test]
fn ui_options_builders_change_one_setting_each() {
    let options = UiOptions::default();
    assert_eq!(options.tick_rate, Duration::from_millis(250));
    assert!(options.auto_validate && options.confirm_exit && options.show_help);
    let changed = options.with_tick_rate(Duration::from_secs(1)).with_confirm_exit(false);
    assert_eq!(changed.tick_rate, Duration::from_secs(1));
    assert!(!changed.confirm_exit);
    assert!(changed.auto_validate);
}

fn property_variant(id: &str, key: &str, schema: JsonValue) -> CompositeVariant {
    CompositeVariant {
        id: id.to_string(),
        title: id.to_uppercase(),
        description: None,
        schema: obj(vec![("type", s("object")), ("properties", obj(vec![(key, schema)]))]),
    }
}

#[test]
fn only_active_variants_reach_the_document() {
    let a = property_variant("a", "name", obj(vec![("type", s("string")), ("default", s("x"))]));
    let b = property_variant("b", "size", obj(vec![("type", s("integer")), ("default", JsonValue::Number(JsonNumber::PosInt(5)))]));
    let field = CompositeField { mode: CompositeMode::OneOf, variants: vec![a, b] };
    let mut state = CompositeState::new("/choice", &field);
    assert_eq!(state.build_value(true).unwrap(), Some(obj(vec![("name", s("x"))])));
    state.apply_single(1);
    assert_eq!(
        state.build_value(true).unwrap(),
        Some(obj(vec![("size", JsonValue::Number(JsonNumber::PosInt(5)))]))
    );
}

#[test]
fn any_of_without_an_active_variant_is_required_or_absent() {
    let a = property_variant("a", "name", obj(vec![("type", s("string"))]));
    let field = CompositeField { mode: CompositeMode::AnyOf, variants: vec![a] };
    let state = CompositeState::new("/choice", &field);
    assert_eq!(state.build_value(false).unwrap(), None);
    let err = state.build_value(true).unwrap_err();
    assert_eq!(err.pointer, "/choice");
    assert_eq!(err.message, "anyOf requires at least one active variant");
}

#[test]
fn every_format_keyword_reads_back_as_its_format() {
    for format in [DocumentFormat::Json, DocumentFormat::Yaml, DocumentFormat::Toml] {
        assert_eq!(DocumentFormat::from_keyword(format.keyword()), Ok(format));
        assert_eq!(DocumentFormat::from_keyword(&format.keyword().to_uppercase()), Ok(format));
    }
}

#[test]
fn a_timed_out_session_carries_no_value() {
    let done = SessionOutcome::Completed(s("answer"));
    assert_eq!(done.value(), Some(&s("answer")));
    assert!(!done.is_timed_out());
    assert_eq!(done.into_value(), Some(s("answer")));
    let late = SessionOutcome::TimedOut;
    assert!(late.is_timed_out());
    assert_eq!(late.value(), None);
    assert_eq!(late.into_value(), None);
}

#[test]
fn markdown_renders_to_cleaned_html() {
    let html = render_markdown("# Title\n\n~~old~~ <script>alert(1)</script>\n\n| a | b |\n|---|---|\n| 1 | 2 |\n");
    assert!(html.contains("<h1>Title</h1>"));
    assert!(html.contains("<del>old</del>"));
    assert!(html.contains("<table>"));
    assert!(!html.contains("<script>"));
}

#[test]
fn oversized_diagram_sources_are_refused() {
    let source = "a".repeat(262_145);
    assert_eq!(
        render_diagram(&source, DiagramTheme::Light),
        Err("diagram source is 262145 bytes; the limit is 262144".to_string())
    );
}

#[test]
fn a_small_diagram_renders_to_svg() {
    let svg = render_diagram("graph TD\n  A --> B\n", DiagramTheme::Dark).expect("renders");
    assert!(svg.contains("<svg"));
}

#[test]
fn composite_values_show_their_choice_and_how_to_change_it() {
    let one = CompositeField { mode: CompositeMode::OneOf, variants: vec![variant("basic", "Basic"), variant("adv", "Advanced")] };
    assert_eq!(CompositeState::new("/auth", &one).display_value(), "Variant: Basic (Enter to choose)");
    let any = CompositeField { mode: CompositeMode::AnyOf, variants: vec![variant("a", "A"), variant("b", "B")] };
    let mut state = CompositeState::new("/extras", &any);
    assert_eq!(state.display_value(), "Variants: [] (Enter to toggle)");
    assert!(state.apply_multi(&[true, true]));
    assert_eq!(state.display_value(), "Variants: A, B (Enter to toggle)");
}

#[test]
fn a_source_that_does_not_parse_is_refused_with_the_parser_message() {
    let outcome = render_diagram("@@@ not a diagram @@@", DiagramTheme::Light);
    match outcome {
        Err(message) => assert!(!message.is_empty()),
        Ok(svg) => panic!("expected a parse error, got {} bytes of SVG", svg.len()),
    }
}

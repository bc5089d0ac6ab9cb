//! The interactive session's decisions: what each key press does to the
//! form and the status line, when the document is validated, and when the
//! session ends. Validation itself and drawing are done by the caller, which
//! hands the results back.

use vstd::prelude::*;
use crate::coerce::CoercionErrorView;
use crate::field::{map_command_effect, edited, key_effect, FieldStateView, KeyHandling, ValueView};
use crate::form::{
    all_fields, build_fields, cleared, first_match, focused, form_seeded_from, has_focus, initial_sections,
    after_command, apply_command, lemma_root_step_round_trip, root_moved, root_position, with_error, with_focused, FormState, FormStateView, SectionStateView,
};
use crate::display::{scrolled, window_rows};
use crate::json::{entries_view, get_spec, items_view, lemma_entries_view, lemma_items_view, JsonValue, JsonView};
use crate::keyvalue::{MapState, MapView};
use crate::schema::{
    parse_resolved_schema, parse_spec, schema_error_text, variant_desc, variant_descs, FieldKind, FormView, KindView,
    VariantDesc,
};
use crate::choice::{first_true, ChoiceView, CompositeChoice};
use crate::composite::CompositeField;
use crate::keys::{
    builtin_dispatch, classify_spec, resolve_spec, AppCommand, CommandDispatch, FormCommand, InputRouter, KeyBindingMap, KeyCode,
    KeyEvent, SLOT_COUNT,
};
use crate::entries::{
    entries_of, entries_text, same_strings, entry_added, entry_moved, entry_removed, entry_selected, entry_typed, EntryEditor,
    EntryEditorView,
};
use crate::popup::{field_after_selection, next_index, popup_for, prev_index, toggled, PopupState, PopupView};
use crate::lifecycle::{duration_from_millis, millis_duration};
use std::time::Duration;
use crate::label::label_of;
use crate::text::{chars_of, decimal, push_decimal, push_str, string_from_chars, string_views};

verus! {

/// How the session behaves.
#[derive(Debug, Clone)]
pub struct UiOptions {
    /// How long the event loop waits for a key before redrawing.
    pub tick_rate: Duration,
    pub auto_validate: bool,
    pub confirm_exit: bool,
    pub show_help: bool,
    pub keymap: KeyBindingMap,
}

impl Default for UiOptions {
    /// A quarter-second tick, automatic validation, exit confirmation, the
    /// help line and the built-in key bindings.
    fn default() -> (r: Self)
        ensures
            r.tick_rate == millis_duration(250),
            r.auto_validate && r.confirm_exit && r.show_help,
            r.keymap.wf(),
            forall|slot: int| 0 <= slot < SLOT_COUNT ==> r.keymap@[slot] == Some(builtin_dispatch(slot)),
    {
        UiOptions {
            tick_rate: duration_from_millis(250),
            auto_validate: true,
            confirm_exit: true,
            show_help: true,
            keymap: KeyBindingMap::default(),
        }
    }
}

impl UiOptions {
    /// The options with other key bindings.
    pub fn with_keymap(self, keymap: KeyBindingMap) -> (r: Self)
        ensures
            r == (UiOptions { keymap, ..self }),
    {
        UiOptions { keymap, ..self }
    }

    /// The options with automatic validation switched on or off.
    pub fn with_auto_validate(self, enabled: bool) -> (r: Self)
        ensures
            r == (UiOptions { auto_validate: enabled, ..self }),
    {
        UiOptions { auto_validate: enabled, ..self }
    }

    /// The options with the help line shown or hidden.
    pub fn with_help(self, show: bool) -> (r: Self)
        ensures
            r == (UiOptions { show_help: show, ..self }),
    {
        UiOptions { show_help: show, ..self }
    }

    /// The options with exit confirmation switched on or off.
    pub fn with_confirm_exit(self, confirm: bool) -> (r: Self)
        ensures
            r == (UiOptions { confirm_exit: confirm, ..self }),
    {
        UiOptions { confirm_exit: confirm, ..self }
    }

    /// The options with another tick rate.
    pub fn with_tick_rate(self, tick_rate: Duration) -> (r: Self)
        ensures
            r == (UiOptions { tick_rate, ..self }),
    {
        UiOptions { tick_rate, ..self }
    }
}

/// The status line of a session that is ready for input.
pub open spec fn ready_status() -> Seq<char> {
    "Ready. Press Ctrl+S to validate and save."@
}

/// The status line after a first quit request with unsaved changes.
pub open spec fn unsaved_status() -> Seq<char> {
    "Unsaved changes. Press Ctrl+Q again to quit without saving."@
}

/// `{count} issue(s) remaining`.
pub open spec fn issues_status(count: nat) -> Seq<char> {
    decimal(count) + " issue(s) remaining"@
}

/// The help line.
pub open spec fn help_text() -> Seq<char> {
    "Tab/Shift+Tab navigate • Ctrl+Tab switch section • Ctrl+J / Ctrl+L switch root • Enter choose • Ctrl+S save • Ctrl+Q quit"@
}

/// What the caller does next.
#[derive(Debug)]
pub enum AppStep {
    /// Nothing; wait for the next key.
    Idle,
    /// Validate the built document against the schema and report back with
    /// `complete_validation`, passing `announce` and `save` on.
    Validate { value: JsonValue, announce: bool, save: bool },
    /// Step the focused floating-point field by the delta and report back
    /// with `finish_number_step`.
    StepNumber(i64),
}

/// The session.
#[derive(Debug)]
pub struct App {
    form_state: FormState,
    options: UiOptions,
    status_message: String,
    global_errors: Vec<String>,
    validation_errors: usize,
    exit_armed: bool,
    should_quit: bool,
    result: Option<JsonValue>,
    popup: Option<PopupState>,
    editor: Option<EntryEditor>,
    overlay: Option<VariantOverlay>,
    discard_armed: bool,
}

/// The form a composite field's active variant is edited in.
#[derive(Debug)]
pub struct VariantOverlay {
    /// The variant, or the map entry, being edited.
    pub variant: usize,
    /// Whether a map entry is edited rather than a variant.
    pub entry: bool,
    pub form: FormState,
}

/// The view of a variant editor.
pub struct OverlayView {
    pub variant: nat,
    pub entry: bool,
    pub form: FormStateView,
}

/// The session as plain values.
pub struct AppView {
    pub form: FormStateView,
    pub options: UiOptions,
    pub status: Seq<char>,
    pub global_errors: Seq<Seq<char>>,
    pub validation_errors: int,
    pub exit_armed: bool,
    pub should_quit: bool,
    pub result: Option<JsonView>,
    /// The popup open over the focused field, if any.
    pub popup: Option<PopupView>,
    /// The entry editor open over the focused array field, if any.
    pub editor: Option<EntryEditorView>,
    /// The variant editor open over the focused composite field, if any.
    pub overlay: Option<OverlayView>,
    /// Whether Esc was pressed once on an editor with changes, so that the
    /// next Esc discards them.
    pub discard_armed: bool,
}

impl View for App {
    type V = AppView;

    closed spec fn view(&self) -> AppView {
        AppView {
            form: self.form_state@,
            options: self.options,
            status: self.status_message@,
            global_errors: string_views(self.global_errors@),
            validation_errors: self.validation_errors as int,
            exit_armed: self.exit_armed,
            should_quit: self.should_quit,
            result: match self.result {
                Some(v) => Some(v@),
                None => None,
            },
            popup: match self.popup {
                Some(p) => Some(p@),
                None => None,
            },
            editor: match self.editor {
                Some(e) => Some(e@),
                None => None,
            },
            overlay: match self.overlay {
                Some(o) => Some(OverlayView { variant: o.variant as nat, entry: o.entry, form: o.form@ }),
                None => None,
            },
            discard_armed: self.discard_armed,
        }
    }
}

/// The form with an error recorded on the first field at `pointer`, if any.
pub open spec fn form_with_error(f: FormStateView, pointer: Seq<char>, message: Seq<char>) -> FormStateView {
    match first_match(f.sections, pointer) {
        Some((a, b)) => FormStateView { sections: f.sections.update(a, with_error(f.sections[a], b, message)), ..f },
        None => f,
    }
}

/// The form with every field's error cleared.
pub open spec fn cleared_form(f: FormStateView) -> FormStateView {
    FormStateView {
        sections: f.sections.map_values(|s: SectionStateView| SectionStateView { fields: cleared(s.fields), ..s }),
        ..f
    }
}

/// Whether any field of the form has been edited.
pub open spec fn form_dirty(f: FormStateView) -> bool {
    exists|i: int, j: int| 0 <= i < f.sections.len() && 0 <= j < f.sections[i].fields.len() && #[trigger] f.sections[i].fields[j].dirty
}

/// The session after the document could not be built: the error is shown
/// on its field, as the one global error and in the status line.
pub open spec fn build_failed(st: AppView, e: CoercionErrorView) -> AppView {
    AppView {
        form: form_with_error(st.form, e.pointer, e.message),
        global_errors: seq![e.message],
        validation_errors: 1,
        status: e.message,
        ..st
    }
}

/// Validation errors applied in order: each lands on the first field at
/// its pointer, or becomes a global error (`<root>` for the empty pointer).
pub open spec fn apply_errors(f: FormStateView, errors: Seq<(Seq<char>, Seq<char>)>) -> (FormStateView, Seq<Seq<char>>)
    decreases errors.len(),
{
    if errors.len() == 0 {
        (f, Seq::empty())
    } else {
        let (f1, g1) = apply_errors(f, errors.drop_last());
        let (p, m) = errors.last();
        match first_match(f1.sections, p) {
            Some(_) => (form_with_error(f1, p, m), g1),
            None => (f1, g1.push((if p.len() == 0 { "<root>"@ } else { p }) + ": "@ + m)),
        }
    }
}

/// The session after a quit request: with unsaved changes and confirmation
/// on, the first request only arms the exit and warns; otherwise the
/// session ends without a result.
pub open spec fn after_quit_request(st: AppView) -> AppView {
    if st.options.confirm_exit && form_dirty(st.form) && !st.exit_armed {
        AppView { exit_armed: true, status: unsaved_status(), ..st }
    } else {
        AppView { should_quit: true, result: None, ..st }
    }
}

/// Asking to quit twice in a row always ends the session, without a
/// result, whatever was unsaved.
pub proof fn lemma_second_quit_request_quits(st: AppView)
    ensures
        after_quit_request(after_quit_request(st)).should_quit,
        after_quit_request(after_quit_request(st)).result is None,
{
}

/// With nothing edited, or with confirmation off, one quit request ends
/// the session.
pub proof fn lemma_clean_session_quits_at_once(st: AppView)
    requires
        !form_dirty(st.form) || !st.options.confirm_exit,
    ensures
        after_quit_request(st).should_quit,
{
}

/// The label a field is announced by while it is edited.
pub open spec fn editing_status(f: FieldStateView) -> Seq<char> {
    "Editing "@ + label_of(f.schema.title, f.schema.name)
}

/// What follows an edit of the form in `st`: nothing more without
/// automatic validation; otherwise a request to validate the built
/// document, or, when it cannot be built, the error shown.
pub open spec fn validate_outcome(st: AppView, new: AppView, r: AppStep) -> bool {
    if !st.options.auto_validate {
        r matches AppStep::Idle && new == st
    } else {
        match build_fields(all_fields(st.form.sections)) {
            Ok(v) => r matches AppStep::Validate { value, announce, save } && value@ == v && !announce && !save
                && new == st,
            Err(e) => r matches AppStep::Idle && new == build_failed(st, e),
        }
    }
}

/// Saving: quitting is disarmed and the built document is sent for
/// validation; when it cannot be built, the error is shown and counted.
pub open spec fn save_outcome(st: AppView, new: AppView, r: AppStep) -> bool {
    match build_fields(all_fields(st.form.sections)) {
        Ok(v) => r matches AppStep::Validate { value, announce, save } && value@ == v && announce && save
            && new == (AppView { exit_armed: false, ..st }),
        Err(e) => r matches AppStep::Idle && new == (AppView {
            status: issues_status(1),
            ..build_failed(AppView { exit_armed: false, ..st }, e)
        }),
    }
}

/// A key handed to the focused field: what the field makes of it, and
/// after an edit the editing status and, maybe, validation.
pub open spec fn input_outcome(st: AppView, key: KeyEvent, new: AppView, r: AppStep) -> bool {
    if !has_focus(st.form) {
        r matches AppStep::Idle && new == st
    } else {
        let (f2, h) = key_effect(focused(st.form), key);
        match h {
            KeyHandling::Ignored => r matches AppStep::Idle && new == (AppView { form: with_focused(st.form, f2), ..st }),
            KeyHandling::NumberStep(d) => r matches AppStep::StepNumber(x) && x == d && new == (AppView {
                form: with_focused(st.form, f2),
                ..st
            }),
            KeyHandling::Handled => validate_outcome(
                AppView { form: with_focused(st.form, f2), exit_armed: false, status: editing_status(f2), ..st },
                new,
                r,
            ),
        }
    }
}

/// The session after asking for the focused field's popup: opened, with a
/// hint in the status line, when the field has one; unchanged otherwise.
pub open spec fn popup_opened(st: AppView) -> AppView {
    if has_focus(st.form) && popup_for(focused(st.form)) is Some {
        let p = popup_for(focused(st.form)).unwrap();
        AppView {
            popup: Some(p),
            status: if p.multi {
                "Use Up/Down to move, Space to toggle, Enter to apply"@
            } else {
                "Use Up/Down and Enter to choose"@
            },
            ..st
        }
    } else {
        st
    }
}

/// The session after confirming a popup: the choice is applied to the
/// focused field, the popup is closed and the status says so.
pub open spec fn popup_confirmed(st: AppView, p: PopupView) -> AppView {
    AppView {
        form: if has_focus(st.form) {
            with_focused(
                st.form,
                field_after_selection(focused(st.form), p.selected, if p.multi { Some(p.toggles) } else { None }),
            )
        } else {
            st.form
        },
        status: "Value updated"@,
        popup: None,
        ..st
    }
}

/// A key while the popup `p` is open over the session `st`.
pub open spec fn popup_key_outcome(st: AppView, p: PopupView, key: KeyEvent, new: AppView, r: AppStep) -> bool {
    match key.code {
        KeyCode::Esc => r matches AppStep::Idle && new == (AppView { popup: None, status: ready_status(), ..st }),
        KeyCode::Up => r matches AppStep::Idle && new == (AppView {
            popup: Some(PopupView { selected: prev_index(p.selected, p.options.len() as int), ..p }),
            ..st
        }),
        KeyCode::Down => r matches AppStep::Idle && new == (AppView {
            popup: Some(PopupView { selected: next_index(p.selected, p.options.len() as int), ..p }),
            ..st
        }),
        KeyCode::Char(c) => if c == ' ' {
            r matches AppStep::Idle && new == (AppView {
                popup: Some(PopupView { toggles: toggled(p.toggles, p.selected, p.multi), ..p }),
                ..st
            })
        } else {
            r matches AppStep::Idle && new == (AppView { popup: Some(p), ..st })
        },
        KeyCode::Enter => validate_outcome(popup_confirmed(st, p), new, r),
        _ => r matches AppStep::Idle && new == (AppView { popup: Some(p), ..st }),
    }
}

/// Opening the focused field's popup and confirming it without moving the
/// cursor or toggling anything leaves the form as it was.
pub proof fn lemma_untouched_popup_keeps_form(st: AppView)
    requires
        has_focus(st.form),
        popup_for(focused(st.form)) is Some,
        crate::popup::value_fits_kind(focused(st.form)),
    ensures
        ({
            let opened = popup_opened(st);
            &&& opened.popup == popup_for(focused(st.form))
            &&& popup_confirmed(opened, opened.popup.unwrap()).form == st.form
        }),
{
    let f = focused(st.form);
    crate::popup::lemma_confirm_unchanged_popup(f);
    let opened = popup_opened(st);
    assert(opened.form == st.form);
    let si = st.form.section_index;
    let fi = st.form.field_index;
    let s = st.form.sections[si];
    assert(s.fields.update(fi, f) =~= s.fields);
    assert(SectionStateView { fields: s.fields.update(fi, f), ..s } == s);
    assert(st.form.sections.update(si, s) =~= st.form.sections);
    assert(with_focused(st.form, f) == st.form);
}

/// Esc on an open popup closes it and leaves the form as it was.
pub proof fn lemma_escape_closes_popup(st: AppView, p: PopupView, key: KeyEvent, new: AppView, r: AppStep)
    requires
        key.code == KeyCode::Esc,
        popup_key_outcome(st, p, key, new, r),
    ensures
        new.popup is None,
        new.form == st.form,
        r is Idle,
{
}

/// With the built-in bindings and no popup open, Ctrl+L followed by Ctrl+J
/// brings the focus back to the root tab it started on.
pub proof fn lemma_ctrl_l_then_ctrl_j_returns(
    st: AppView,
    next_key: KeyEvent,
    back_key: KeyEvent,
    s1: AppView,
    r1: AppStep,
    s2: AppView,
    r2: AppStep,
)
    requires
        0 <= st.form.section_index < st.form.sections.len(),
        st.options.keymap@.len() == SLOT_COUNT,
        forall|slot: int| 0 <= slot < SLOT_COUNT ==> st.options.keymap@[slot] == Some(builtin_dispatch(slot)),
        next_key.code == KeyCode::Char('l') && next_key.modifiers.control && !next_key.modifiers.alt,
        back_key.code == KeyCode::Char('j') && back_key.modifiers.control && !back_key.modifiers.alt,
        command_outcome(st, resolve_spec(st.options.keymap@, classify_spec(next_key)), s1, r1),
        command_outcome(s1, resolve_spec(s1.options.keymap@, classify_spec(back_key)), s2, r2),
    ensures
        root_position(s2.form) == root_position(st.form),
{
    assert(resolve_spec(st.options.keymap@, classify_spec(next_key)) == CommandDispatch::Form(FormCommand::FocusNextRoot(1)));
    assert(s1.form == root_moved(st.form, 1));
    assert(resolve_spec(s1.options.keymap@, classify_spec(back_key)) == CommandDispatch::Form(FormCommand::FocusNextRoot(-1i32)));
    assert(s2.form == root_moved(s1.form, -1));
    lemma_root_step_round_trip(st.form);
}

/// Whether arrays of this kind open in the entry editor.
pub open spec fn scalar_kind(k: KindView) -> bool {
    k is String || k is Integer || k is Number || k is Boolean
}

/// The session after Ctrl+E: the entry editor opens over a focused array
/// of scalars; otherwise the status says why nothing opened.
pub open spec fn editor_opened(st: AppView) -> AppView {
    if !has_focus(st.form) {
        AppView { status: "No field selected"@, ..st }
    } else {
        let f = focused(st.form);
        match f.schema.kind {
            KindView::Array(inner) => match f.value {
                ValueView::Array(t) => if scalar_kind(*inner) {
                    AppView {
                        editor: Some(EntryEditorView { entries: entries_of(t), selected: 0 }),
                        status: "Array editor: Ctrl+S save • Esc cancel"@,
                        ..st
                    }
                } else {
                    AppView { status: "Focus a composite or composite list field before editing"@, ..st }
                },
                _ => AppView { status: "Focus a composite or composite list field before editing"@, ..st },
            },
            KindView::Composite(_, vs) => match f.value {
                ValueView::Composite(c) => composite_opened(st, vs, c),
                _ => AppView { status: "Focus a composite or composite list field before editing"@, ..st },
            },
            KindView::KeyValue(ks, xs) => match f.value {
                ValueView::KeyValue(m) => {
                    let (o, status) = entry_opening(ks, xs, m);
                    AppView { overlay: o, status, ..st }
                },
                _ => AppView { status: "Focus a composite or composite list field before editing"@, ..st },
            },
            _ => AppView { status: "Focus a composite or composite list field before editing"@, ..st },
        }
    }
}

/// The form a variant is edited in: its schema's form, showing the
/// document the variant last saved, if any.
pub open spec fn variant_form(fv: FormView, doc: Option<JsonView>) -> FormStateView {
    let fresh = FormStateView { sections: initial_sections(fv), section_index: 0, field_index: 0 };
    match doc {
        Some(d) => form_seeded_from(fresh, d),
        None => fresh,
    }
}

/// Ctrl+E on a composite field: the first active variant opens in its own
/// form; without an active variant, or with a variant schema that is not a
/// form, only the status says why.
pub open spec fn composite_opening(vs: Seq<VariantDesc>, c: ChoiceView) -> (Option<OverlayView>, Seq<char>) {
    let i = first_true(c.active);
    if !(0 <= i && i < vs.len() && i < c.documents.len()) {
        (None, "Select a variant via Enter before editing (oneOf/anyOf)"@)
    } else {
        match parse_spec(vs[i].schema) {
            Err(e) => (None, "failed to parse composite variant '"@ + vs[i].title + "': "@ + schema_error_text(e)),
            Ok(fv) => (
                Some(OverlayView { variant: i as nat, entry: false, form: variant_form(fv, c.documents[i]) }),
                "Composite editor: Ctrl+S save • Esc cancel"@,
            ),
        }
    }
}

/// The key of an edited map entry: the `key` member, when it is a string.
pub open spec fn entry_key(v: JsonView) -> Option<Seq<char>> {
    match get_spec(v, "key"@) {
        Some(JsonView::Str(k)) => Some(k),
        _ => None,
    }
}

/// The value of an edited map entry: the `value` member, `null` without
/// one.
pub open spec fn entry_value(v: JsonView) -> JsonView {
    match get_spec(v, "value"@) {
        Some(x) => x,
        None => JsonView::Null,
    }
}

/// The schema one map entry is edited with: a required `key` and a
/// required `value`, each with its schema.
pub open spec fn entry_schema(k: JsonView, x: JsonView) -> JsonView {
    JsonView::Object(
        seq![
            ("type"@, JsonView::Str("object"@)),
            ("required"@, JsonView::Array(seq![JsonView::Str("key"@), JsonView::Str("value"@)])),
            ("properties"@, JsonView::Object(seq![("key"@, k), ("value"@, x)])),
        ],
    )
}

/// An entry as the document its form shows.
pub open spec fn entry_document(e: (Seq<char>, JsonView)) -> JsonView {
    JsonView::Object(seq![("key"@, JsonView::Str(e.0)), ("value"@, e.1)])
}

/// Ctrl+E on a map field: the selected entry opens in a form of its own;
/// without a selected entry, or when the entry schema is not a form, only
/// the status says why.
pub open spec fn entry_opening(k: JsonView, x: JsonView, m: MapView) -> (Option<OverlayView>, Seq<char>) {
    if !(0 <= m.selected < m.entries.len()) {
        (None, "Add an entry with Ctrl+N before editing"@)
    } else {
        match parse_spec(entry_schema(k, x)) {
            Err(e) => (None, "failed to parse map entry: "@ + schema_error_text(e)),
            Ok(fv) => (
                Some(
                    OverlayView {
                        variant: m.selected as nat,
                        entry: true,
                        form: variant_form(fv, Some(entry_document(m.entries[m.selected]))),
                    },
                ),
                "Key/Value editor: Ctrl+S save • Esc cancel"@,
            ),
        }
    }
}

/// The session after Ctrl+E on a composite field.
pub open spec fn composite_opened(st: AppView, vs: Seq<VariantDesc>, c: ChoiceView) -> AppView {
    let (o, status) = composite_opening(vs, c);
    AppView { overlay: o, status, ..st }
}

/// The session after a variant editor is saved with the document `v`: the
/// focused field stores it for the variant, the editor closes and the
/// status says so.
pub open spec fn overlay_committed(st: AppView, o: OverlayView, v: JsonView) -> AppView {
    AppView {
        form: if has_focus(st.form) {
            with_focused(
                st.form,
                match focused(st.form).value {
                    ValueView::KeyValue(m) => if o.entry && o.variant < m.entries.len() && entry_key(v) is Some {
                        edited(focused(st.form), ValueView::KeyValue(MapView {
                            entries: m.entries.update(o.variant as int, (entry_key(v).unwrap(), entry_value(v))),
                            ..m
                        }))
                    } else {
                        focused(st.form)
                    },
                    ValueView::Composite(c) => if !o.entry && o.variant < c.documents.len() {
                        edited(focused(st.form), ValueView::Composite(ChoiceView { documents: c.documents.update(o.variant as int, Some(v)), ..c }))
                    } else {
                        focused(st.form)
                    },
                    _ => focused(st.form),
                },
            )
        } else {
            st.form
        },
        overlay: None,
        exit_armed: false,
        status: "Value updated"@,
        ..st
    }
}

/// A resolved command while the variant editor `o` is open over `st`: Save
/// (or Ctrl+E again) builds the variant's document and stores it, or shows
/// why it cannot be built; Quit and Esc close the editor without a change;
/// focus commands and typed keys act on the variant's form; anything else
/// is ignored.
pub open spec fn overlay_key_outcome(st: AppView, o: OverlayView, d: CommandDispatch, new: AppView, r: AppStep) -> bool {
    let keep = |o2: OverlayView| r matches AppStep::Idle && new == (AppView { overlay: Some(o2), ..st });
    let save = match build_fields(all_fields(o.form.sections)) {
        Ok(v) => if o.entry && entry_key(v) is None {
            r matches AppStep::Idle && new == (AppView { overlay: Some(o), status: "entry key must be a string"@, ..st })
        } else {
            validate_outcome(overlay_committed(st, o, v), new, r)
        },
        Err(e) => r matches AppStep::Idle && new == (AppView { overlay: Some(o), status: e.message, ..st }),
    };
    match d {
        CommandDispatch::App(c) => match c {
            AppCommand::Save => save,
            AppCommand::EditComposite => save,
            AppCommand::Quit => r matches AppStep::Idle && new == (AppView { status: ready_status(), ..st }),
            AppCommand::ResetStatus => r matches AppStep::Idle && new == (AppView { status: ready_status(), ..st }),
            _ => keep(o),
        },
        CommandDispatch::Form(cmd) => keep(OverlayView { form: after_command(o.form, cmd), ..o }),
        CommandDispatch::Input(k) => keep(
            OverlayView {
                form: if has_focus(o.form) {
                    with_focused(o.form, key_effect(focused(o.form), k).0)
                } else {
                    o.form
                },
                ..o
            },
        ),
        CommandDispatch::NoCommand => keep(o),
    }
}

/// The session after the entry editor is saved: the focused field takes
/// the entries' text, the editor closes and the status says so.
pub open spec fn editor_committed(st: AppView, e: EntryEditorView) -> AppView {
    AppView {
        form: if has_focus(st.form) {
            with_focused(st.form, edited(focused(st.form), ValueView::Array(entries_text(e))))
        } else {
            st.form
        },
        editor: None,
        exit_armed: false,
        status: "Value updated"@,
        ..st
    }
}

/// A resolved command while the entry editor `e` is open over `st`: Save
/// (or Ctrl+E again) writes the entries back, Quit and Esc close it
/// without a change, the list commands add, remove, select and move
/// entries, and typed keys edit the selected entry; anything else is
/// ignored.
pub open spec fn editor_key_outcome(st: AppView, e: EntryEditorView, d: CommandDispatch, new: AppView, r: AppStep) -> bool {
    let keep = |e2: EntryEditorView| r matches AppStep::Idle && new == (AppView { editor: Some(e2), ..st });
    match d {
        CommandDispatch::App(c) => match c {
            AppCommand::Save => validate_outcome(editor_committed(st, e), new, r),
            AppCommand::EditComposite => validate_outcome(editor_committed(st, e), new, r),
            AppCommand::Quit => r matches AppStep::Idle && new == (AppView { status: ready_status(), ..st }),
            AppCommand::ResetStatus => r matches AppStep::Idle && new == (AppView { status: ready_status(), ..st }),
            AppCommand::ListAddEntry => keep(entry_added(e)),
            AppCommand::ListRemoveEntry => keep(entry_removed(e)),
            AppCommand::ListSelect(delta) => keep(entry_selected(e, delta as int)),
            AppCommand::ListMove(delta) => keep(entry_moved(e, delta as int)),
            AppCommand::TogglePopup => keep(e),
        },
        CommandDispatch::Input(k) => keep(entry_typed(e, k)),
        _ => keep(e),
    }
}

/// Whether the entry editor's entries differ from those the focused field
/// holds.
pub open spec fn entries_changed(st: AppView, e: EntryEditorView) -> bool {
    !(has_focus(st.form) && (focused(st.form).value matches ValueView::Array(t) && entries_of(t) == e.entries))
}

/// Esc on an open editor: with changes and not yet warned, the editor stays
/// open (`kept`) and the status warns that another Esc discards them;
/// otherwise the editor closes (`closed`) and the ready status shows.
pub open spec fn escape_outcome(closed: AppView, kept: AppView, changed: bool, new: AppView, r: AppStep) -> bool {
    r matches AppStep::Idle && if changed && !kept.discard_armed {
        new == (AppView { discard_armed: true, status: "Overlay dirty. Press Esc again to discard changes."@, ..kept })
    } else {
        new == (AppView { discard_armed: false, status: ready_status(), ..closed })
    }
}

/// What a resolved command does to a session without an open popup:
/// focus commands move the focus (and disarm quitting), Save and Quit
/// save and quit, ResetStatus shows the ready status, TogglePopup opens
/// the focused field's popup, and raw input goes to the focused field.
/// EditComposite opens the editor of the focused field; the list commands
/// act on a focused map field (and inside the entry editor), and do
/// nothing elsewhere, as does a key bound to nothing.
pub open spec fn command_outcome(st: AppView, d: CommandDispatch, new: AppView, r: AppStep) -> bool {
    match d {
        CommandDispatch::Form(c) => r matches AppStep::Idle && new == (AppView {
            exit_armed: false,
            form: after_command(st.form, c),
            ..st
        }),
        CommandDispatch::App(c) => match c {
            AppCommand::Save => save_outcome(st, new, r),
            AppCommand::Quit => r matches AppStep::Idle && new == after_quit_request(st),
            AppCommand::ResetStatus => r matches AppStep::Idle && new == (AppView {
                exit_armed: false,
                status: ready_status(),
                ..st
            }),
            AppCommand::TogglePopup => r matches AppStep::Idle && new == popup_opened(st),
            AppCommand::EditComposite => r matches AppStep::Idle && new == editor_opened(st),
            _ => r matches AppStep::Idle && new == (AppView {
                form: if has_focus(st.form) {
                    with_focused(st.form, map_command_effect(focused(st.form), c))
                } else {
                    st.form
                },
                ..st
            }),
        },
        CommandDispatch::Input(e) => input_outcome(st, e, new, r),
        CommandDispatch::NoCommand => r matches AppStep::Idle && new == st,
    }
}

/// The session after the document `value` was validated with `errors`:
/// no errors clears them and, for a save, ends the session with the value;
/// errors are placed on their fields (or listed globally) and counted.
pub open spec fn validation_applied(
    st: AppView,
    value: JsonView,
    errors: Seq<(Seq<char>, Seq<char>)>,
    announce: bool,
    save: bool,
) -> AppView {
    if errors.len() == 0 {
        AppView {
            form: cleared_form(st.form),
            global_errors: Seq::empty(),
            validation_errors: 0,
            status: if save { "Configuration saved"@ } else if announce { "Validation passed"@ } else { st.status },
            result: if save { Some(value) } else { st.result },
            should_quit: save || st.should_quit,
            ..st
        }
    } else {
        let (f, g) = apply_errors(cleared_form(st.form), errors);
        AppView {
            form: f,
            global_errors: g,
            validation_errors: errors.len() as int,
            status: if announce || save { issues_status(errors.len()) } else { st.status },
            ..st
        }
    }
}

impl App {
    pub closed spec fn wf(&self) -> bool {
        &&& self.form_state.wf()
        &&& self.form_state.sections@.len() <= i32::MAX
        &&& self.options.keymap.wf()
        &&& (self.editor matches Some(e) ==> e.wf())
        &&& (self.overlay matches Some(o) ==> o.form.wf())
    }

    /// A session over a form, ready for input.
    pub fn new(form_state: FormState, options: UiOptions) -> (r: Self)
        requires
            form_state.wf(),
            form_state.sections@.len() <= i32::MAX,
            options.keymap.wf(),
        ensures
            r.wf(),
            r@ == (AppView {
                form: form_state@,
                options,
                status: ready_status(),
                global_errors: Seq::empty(),
                validation_errors: 0,
                exit_armed: false,
                should_quit: false,
                result: None,
                popup: None,
                editor: None,
                overlay: None,
                discard_armed: false,
            }),
    {
        let r = App {
            form_state,
            options,
            status_message: "Ready. Press Ctrl+S to validate and save.".to_string(),
            global_errors: Vec::new(),
            validation_errors: 0,
            exit_armed: false,
            should_quit: false,
            result: None,
            popup: None,
            editor: None,
            overlay: None,
            discard_armed: false,
        };
        assert(string_views(r.global_errors@) =~= Seq::<Seq<char>>::empty());
        r
    }

    pub fn form_state(&self) -> (r: &FormState)
        ensures
            r@ == self@.form,
    {
        &self.form_state
    }

    /// The popup open over the focused field, if any.
    pub fn popup(&self) -> (r: Option<&PopupState>)
        ensures
            match r {
                Some(p) => self@.popup == Some(p@),
                None => self@.popup is None,
            },
    {
        match &self.popup {
            Some(p) => Some(p),
            None => None,
        }
    }

    /// The variant editor open over the focused composite field, if any.
    pub fn overlay(&self) -> (r: Option<&VariantOverlay>)
        ensures
            match r {
                Some(o) => self@.overlay == Some(OverlayView { variant: o.variant as nat, entry: o.entry, form: o.form@ }),
                None => self@.overlay is None,
            },
    {
        match &self.overlay {
            Some(o) => Some(o),
            None => None,
        }
    }

    /// The entry editor open over the focused array field, if any.
    pub fn editor(&self) -> (r: Option<&EntryEditor>)
        ensures
            match r {
                Some(e) => self@.editor == Some(e@),
                None => self@.editor is None,
            },
    {
        match &self.editor {
            Some(e) => Some(e),
            None => None,
        }
    }

    pub fn status_message(&self) -> (r: &str)
        ensures
            r@ == self@.status,
    {
        self.status_message.as_str()
    }

    pub fn global_errors(&self) -> (r: &[String])
        ensures
            string_views(r@) == self@.global_errors,
    {
        self.global_errors.as_slice()
    }

    pub fn validation_errors(&self) -> (r: usize)
        ensures
            r == self@.validation_errors,
    {
        self.validation_errors
    }

    pub fn should_quit(&self) -> (r: bool)
        ensures
            r == self@.should_quit,
    {
        self.should_quit
    }

    pub fn is_dirty(&self) -> (r: bool)
        ensures
            r == form_dirty(self@.form),
    {
        self.form_state.is_dirty()
    }

    /// The saved document, once the session has one; taking it leaves none.
    pub fn take_result(&mut self) -> (r: Option<JsonValue>)
        ensures
            match r {
                Some(v) => old(self)@.result == Some(v@),
                None => old(self)@.result is None,
            },
            final(self)@ == (AppView { result: None, ..old(self)@ }),
            final(self).wf() == old(self).wf(),
    {
        let r = self.result.take();
        r
    }

    /// The help line, when help is shown.
    pub fn help(&self) -> (r: Option<&'static str>)
        ensures
            self@.options.show_help ==> (r matches Some(h) && h@ == help_text()),
            !self@.options.show_help ==> r is None,
    {
        if self.options.show_help {
            Some("Tab/Shift+Tab navigate • Ctrl+Tab switch section • Ctrl+J / Ctrl+L switch root • Enter choose • Ctrl+S save • Ctrl+Q quit")
        } else {
            None
        }
    }

    fn set_status(&mut self, text: String)
        ensures
            final(self)@ == (AppView { status: text@, ..old(self)@ }),
            final(self).wf() == old(self).wf(),
    {
        self.status_message = text;
    }

    fn record_build_error(&mut self, e: crate::coerce::FieldCoercionError)
        ensures
            final(self)@ == build_failed(old(self)@, e@),
            final(self).wf() == old(self).wf(),
    {
        let ghost f0 = self@.form;
        let ghost n0 = self.form_state.sections@.len();
        let _ = self.form_state.set_error(e.pointer.as_str(), e.message.clone());
        proof {
            assert(self@.form.sections.len() == f0.sections.len());
            assert(self.form_state.sections@.len() == n0);
            assert(self@.form =~= form_with_error(f0, e@.pointer, e@.message));
        }
        let mut g: Vec<String> = Vec::new();
        g.push(e.message.clone());
        assert(string_views(g@) =~= seq![e@.message]);
        self.global_errors = g;
        self.validation_errors = 1;
        self.status_message = e.message;
    }

    /// Builds the document for validation; on failure the error is
    /// recorded and `None` comes back.
    fn build_for_validation(&mut self) -> (r: Option<JsonValue>)
        ensures
            match build_fields(all_fields(old(self)@.form.sections)) {
                Ok(v) => r matches Some(x) && x@ == v && final(self)@ == old(self)@,
                Err(e) => r is None && final(self)@ == build_failed(old(self)@, e),
            },
            final(self).wf() == old(self).wf(),
    {
        match self.form_state.try_build_value() {
            Ok(v) => Some(v),
            Err(e) => {
                self.record_build_error(e);
                None
            },
        }
    }

    fn issues_text(count: usize) -> (r: String)
        ensures
            r@ == issues_status(count as nat),
    {
        let mut out: Vec<char> = Vec::new();
        push_decimal(&mut out, count as u64);
        push_str(&mut out, " issue(s) remaining");
        string_from_chars(&out)
    }

    /// Ctrl+S: disarms quitting and asks for validation of the built
    /// document, or reports why it could not be built.
    fn on_save(&mut self) -> (r: AppStep)
        requires
            old(self).wf(),
        ensures
            final(self).wf(),
            match build_fields(all_fields(old(self)@.form.sections)) {
                Ok(v) => r matches AppStep::Validate { value, announce, save } && value@ == v && announce && save
                    && final(self)@ == (AppView { exit_armed: false, ..old(self)@ }),
                Err(e) => r matches AppStep::Idle && final(self)@ == (AppView {
                    status: issues_status(1),
                    ..build_failed(AppView { exit_armed: false, ..old(self)@ }, e)
                }),
            },
    {
        self.exit_armed = false;
        match self.build_for_validation() {
            Some(value) => AppStep::Validate { value, announce: true, save: true },
            None => {
                let t = Self::issues_text(1);
                self.set_status(t);
                AppStep::Idle
            },
        }
    }

    /// Ctrl+Q: with unsaved changes and confirmation on, the first request
    /// only warns; otherwise the session ends without a result.
    fn on_exit(&mut self)
        requires
            old(self).wf(),
        ensures
            final(self).wf(),
            final(self)@ == after_quit_request(old(self)@),
    {
        if self.options.confirm_exit && self.form_state.is_dirty() && !self.exit_armed {
            self.exit_armed = true;
            self.status_message = "Unsaved changes. Press Ctrl+Q again to quit without saving.".to_string();
            return;
        }
        self.should_quit = true;
        self.result = None;
    }

    /// After an edit: disarms quitting, names the edited field in the
    /// status line, and validates when validation is automatic.
    fn after_field_edit(&mut self) -> (r: AppStep)
        requires
            old(self).wf(),
            has_focus(old(self)@.form),
        ensures
            final(self).wf(),
            ({
                let s1 = AppView {
                    exit_armed: false,
                    status: editing_status(focused(old(self)@.form)),
                    ..old(self)@
                };
                if !old(self)@.options.auto_validate {
                    r matches AppStep::Idle && final(self)@ == s1
                } else {
                    match build_fields(all_fields(s1.form.sections)) {
                        Ok(v) => r matches AppStep::Validate { value, announce, save } && value@ == v && !announce && !save
                            && final(self)@ == s1,
                        Err(e) => r matches AppStep::Idle && final(self)@ == build_failed(s1, e),
                    }
                }
            }),
    {
        self.exit_armed = false;
        let label = match self.form_state.focused_field() {
            Some(f) => f.schema.display_label(),
            None => String::new(),
        };
        let mut text = chars_of("Editing ");
        push_str(&mut text, label.as_str());
        let t = string_from_chars(&text);
        self.set_status(t);
        if self.options.auto_validate {
            match self.build_for_validation() {
                Some(value) => AppStep::Validate { value, announce: false, save: false },
                None => AppStep::Idle,
            }
        } else {
            AppStep::Idle
        }
    }

    /// Opens the popup of the focused field, when it has one, with a hint
    /// on how to use it in the status line.
    fn open_popup(&mut self)
        requires
            old(self).wf(),
        ensures
            final(self).wf(),
            final(self)@ == popup_opened(old(self)@),
    {
        let popup = match self.form_state.focused_field() {
            Some(f) => PopupState::from_field(f),
            None => None,
        };
        match popup {
            Some(p) => {
                self.status_message = if p.is_multi() {
                    "Use Up/Down to move, Space to toggle, Enter to apply".to_string()
                } else {
                    "Use Up/Down and Enter to choose".to_string()
                };
                self.popup = Some(p);
            },
            None => {},
        }
    }

    /// Applies the popup's choice to the focused field and closes it.
    fn confirm_popup(&mut self, popup: PopupState) -> (r: AppStep)
        requires
            old(self).wf(),
            old(self).popup is None,
        ensures
            final(self).wf(),
            validate_outcome(popup_confirmed(old(self)@, popup@), final(self)@, r),
    {
        let selection = popup.selection();
        let multi = popup.active_copy();
        self.form_state.apply_selection_focused(selection, multi);
        self.status_message = "Value updated".to_string();
        if self.options.auto_validate {
            match self.build_for_validation() {
                Some(value) => AppStep::Validate { value, announce: false, save: false },
                None => AppStep::Idle,
            }
        } else {
            AppStep::Idle
        }
    }

    /// A key while a popup is open: Up and Down move its cursor, Space
    /// toggles the option under it in a multi-select, Enter applies the
    /// choice and Esc closes the popup; other keys do nothing.
    fn handle_popup_key(&mut self, popup: PopupState, key: &KeyEvent) -> (r: AppStep)
        requires
            old(self).wf(),
            old(self).popup is None,
        ensures
            final(self).wf(),
            popup_key_outcome(old(self)@, popup@, *key, final(self)@, r),
    {
        let mut popup = popup;
        match key.code {
            KeyCode::Esc => {
                self.status_message = "Ready. Press Ctrl+S to validate and save.".to_string();
                AppStep::Idle
            },
            KeyCode::Up => {
                popup.select_previous();
                self.popup = Some(popup);
                AppStep::Idle
            },
            KeyCode::Down => {
                popup.select_next();
                self.popup = Some(popup);
                AppStep::Idle
            },
            KeyCode::Char(' ') => {
                if popup.is_multi() {
                    popup.toggle_current();
                }
                self.popup = Some(popup);
                AppStep::Idle
            },
            KeyCode::Enter => self.confirm_popup(popup),
            _ => {
                self.popup = Some(popup);
                AppStep::Idle
            },
        }
    }

    /// Ctrl+E: opens the entry editor over a focused array of scalars, or
    /// says why nothing opened.
    fn open_editor(&mut self)
        requires
            old(self).wf(),
            old(self).editor is None,
            old(self).overlay is None,
        ensures
            final(self).wf(),
            final(self)@ == editor_opened(old(self)@),
    {
        let opened = match self.form_state.focused_field() {
            None => {
                self.status_message = "No field selected".to_string();
                return;
            },
            Some(f) => {
                proof {
                    reveal_with_fuel(crate::schema::kind_view, 2);
                }
                let opening = match (&f.schema.kind, &f.value) {
                    (FieldKind::Composite(cf), crate::field::FieldValue::Composite(c)) => Some(Self::variant_opening(cf, c)),
                    (FieldKind::KeyValue(k, x), crate::field::FieldValue::KeyValue(m)) => Some(Self::entry_opening_exec(k, x, m)),
                    _ => None,
                };
                match opening {
                    Some((o, status)) => {
                        self.overlay = o;
                        self.status_message = status;
                        return;
                    },
                    None => {},
                }
                let scalar_array = match &f.schema.kind {
                    FieldKind::Array(inner) => match &**inner {
                        FieldKind::String | FieldKind::Integer | FieldKind::Number | FieldKind::Boolean => true,
                        _ => false,
                    },
                    _ => false,
                };
                assert(scalar_array == (f@.schema.kind matches KindView::Array(inner) && scalar_kind(*inner)));
                match &f.value {
                    crate::field::FieldValue::Array(t) => if scalar_array {
                        Some(EntryEditor::open(t.as_str()))
                    } else {
                        None
                    },
                    _ => None,
                }
            },
        };
        match opened {
            Some(e) => {
                self.editor = Some(e);
                self.status_message = "Array editor: Ctrl+S save • Esc cancel".to_string();
            },
            None => {
                self.status_message = "Focus a composite or composite list field before editing".to_string();
            },
        }
    }

    /// The editor the first active variant of a composite field opens
    /// in, or the status saying why none opens.
    fn variant_opening(cf: &CompositeField, c: &CompositeChoice) -> (r: (Option<VariantOverlay>, String))
        ensures
            (match r.0 {
                Some(o) => Some(OverlayView { variant: o.variant as nat, entry: o.entry, form: o.form@ }),
                None => None,
            }, r.1@) == composite_opening(variant_descs(cf.variants@), c@),
            r.0 matches Some(o) ==> o.form.wf(),
    {
        let ghost vs = variant_descs(cf.variants@);
        let i = match c.active_index() {
            Some(i) => i,
            None => {
                return (None, "Select a variant via Enter before editing (oneOf/anyOf)".to_string());
            },
        };
        if i >= cf.variants.len() || i >= c.documents.len() {
            return (None, "Select a variant via Enter before editing (oneOf/anyOf)".to_string());
        }
        assert(vs[i as int] == variant_desc(cf.variants@[i as int]));
        let variant = &cf.variants[i];
        match parse_resolved_schema(&variant.schema) {
            Err(e) => {
                let mut t = chars_of("failed to parse composite variant '");
                push_str(&mut t, variant.title.as_str());
                push_str(&mut t, "': ");
                push_str(&mut t, e.message().as_str());
                (None, string_from_chars(&t))
            },
            Ok(schema) => {
                let mut form = FormState::from_schema(&schema);
                match c.document(i) {
                    Some(d) => form.seed_from(d),
                    None => {},
                }
                (Some(VariantOverlay { variant: i, entry: false, form }), "Composite editor: Ctrl+S save • Esc cancel".to_string())
            },
        }
    }

    /// The editor the selected entry of a map field opens in, or the
    /// status saying why none opens.
    fn entry_opening_exec(k: &JsonValue, x: &JsonValue, m: &MapState) -> (r: (Option<VariantOverlay>, String))
        ensures
            (match r.0 {
                Some(o) => Some(OverlayView { variant: o.variant as nat, entry: o.entry, form: o.form@ }),
                None => None,
            }, r.1@) == entry_opening(k@, x@, m@),
            r.0 matches Some(o) ==> o.form.wf(),
    {
        proof {
            lemma_entries_view(m.entries@);
        }
        if m.selected >= m.entries.len() {
            return (None, "Add an entry with Ctrl+N before editing".to_string());
        }
        let mut required: Vec<JsonValue> = Vec::new();
        required.push(JsonValue::Str("key".to_string()));
        required.push(JsonValue::Str("value".to_string()));
        let mut props: Vec<(String, JsonValue)> = Vec::new();
        props.push(("key".to_string(), crate::json::copy_value(k)));
        props.push(("value".to_string(), crate::json::copy_value(x)));
        let mut top: Vec<(String, JsonValue)> = Vec::new();
        top.push(("type".to_string(), JsonValue::Str("object".to_string())));
        let ghost rv = required@;
        let ghost pv = props@;
        top.push(("required".to_string(), JsonValue::Array(required)));
        top.push(("properties".to_string(), JsonValue::Object(props)));
        let schema = JsonValue::Object(top);
        proof {
            lemma_items_view(rv);
            assert(items_view(rv) =~= seq![JsonView::Str("key"@), JsonView::Str("value"@)]);
            lemma_entries_view(pv);
            assert(entries_view(pv) =~= seq![("key"@, k@), ("value"@, x@)]);
            lemma_entries_view(top@);
            assert(entries_view(top@) =~= entry_schema(k@, x@)->Object_0);
        }
        let (ek, ev) = (&m.entries[m.selected].0, &m.entries[m.selected].1);
        let mut doc_entries: Vec<(String, JsonValue)> = Vec::new();
        doc_entries.push(("key".to_string(), JsonValue::Str(ek.clone())));
        doc_entries.push(("value".to_string(), crate::json::copy_value(ev)));
        proof {
            lemma_entries_view(doc_entries@);
            assert(entries_view(doc_entries@) =~= entry_document(m@.entries[m@.selected])->Object_0);
        }
        let doc = JsonValue::Object(doc_entries);
        match parse_resolved_schema(&schema) {
            Err(e) => {
                let mut t = chars_of("failed to parse map entry: ");
                push_str(&mut t, e.message().as_str());
                (None, string_from_chars(&t))
            },
            Ok(fs) => {
                let mut form = FormState::from_schema(&fs);
                form.seed_from(&doc);
                (
                    Some(VariantOverlay { variant: m.selected, entry: true, form }),
                    "Key/Value editor: Ctrl+S save • Esc cancel".to_string(),
                )
            },
        }
    }

    /// A resolved command while a variant editor is open.
    fn handle_overlay_command(&mut self, overlay: VariantOverlay, dispatch: CommandDispatch) -> (r: AppStep)
        requires
            old(self).wf(),
            old(self).overlay is None,
            overlay.form.wf(),
        ensures
            final(self).wf(),
            overlay_key_outcome(
                old(self)@,
                OverlayView { variant: overlay.variant as nat, entry: overlay.entry, form: overlay.form@ },
                dispatch,
                final(self)@,
                r,
            ),
    {
        let mut overlay = overlay;
        let save = match dispatch {
            CommandDispatch::App(AppCommand::Save) => true,
            CommandDispatch::App(AppCommand::EditComposite) => true,
            _ => false,
        };
        if save {
            match overlay.form.try_build_value() {
                Ok(v) => {
                    if overlay.entry {
                        let key = match v.get("key") {
                            Some(JsonValue::Str(k)) => k.clone(),
                            _ => {
                                self.status_message = "entry key must be a string".to_string();
                                self.overlay = Some(overlay);
                                return AppStep::Idle;
                            },
                        };
                        let value = match v.get("value") {
                            Some(x) => crate::json::copy_value(x),
                            None => JsonValue::Null,
                        };
                        self.form_state.set_focused_map_entry(overlay.variant, key, value);
                    } else {
                        self.form_state.set_focused_variant_document(overlay.variant, v);
                    }
                    self.exit_armed = false;
                    self.status_message = "Value updated".to_string();
                    if self.options.auto_validate {
                        return match self.build_for_validation() {
                            Some(value) => AppStep::Validate { value, announce: false, save: false },
                            None => AppStep::Idle,
                        };
                    } else {
                        return AppStep::Idle;
                    }
                },
                Err(e) => {
                    self.status_message = e.message;
                    self.overlay = Some(overlay);
                    return AppStep::Idle;
                },
            }
        }
        match dispatch {
            CommandDispatch::App(command) => match command {
                AppCommand::Quit | AppCommand::ResetStatus => {
                    self.status_message = "Ready. Press Ctrl+S to validate and save.".to_string();
                    return AppStep::Idle;
                },
                _ => {},
            },
            CommandDispatch::Form(command) => apply_command(&mut overlay.form, command),
            CommandDispatch::Input(event) => {
                let _ = overlay.form.handle_key_focused(&event);
            },
            CommandDispatch::NoCommand => {},
        }
        self.overlay = Some(overlay);
        AppStep::Idle
    }

    /// Writes the editor's entries back into the focused field.
    fn commit_editor(&mut self, editor: EntryEditor) -> (r: AppStep)
        requires
            old(self).wf(),
            old(self).editor is None,
        ensures
            final(self).wf(),
            validate_outcome(editor_committed(old(self)@, editor@), final(self)@, r),
    {
        let text = editor.to_text();
        self.form_state.set_focused_array_text(text);
        self.exit_armed = false;
        self.status_message = "Value updated".to_string();
        if self.options.auto_validate {
            match self.build_for_validation() {
                Some(value) => AppStep::Validate { value, announce: false, save: false },
                None => AppStep::Idle,
            }
        } else {
            AppStep::Idle
        }
    }

    /// Esc on the entry editor: with changes, the first press only warns;
    /// otherwise the editor closes without writing anything back.
    fn escape_editor(&mut self)
        requires
            old(self).wf(),
            old(self)@.editor is Some,
        ensures
            final(self).wf(),
            escape_outcome(
                AppView { editor: None, ..old(self)@ },
                old(self)@,
                entries_changed(old(self)@, old(self)@.editor.unwrap()),
                final(self)@,
                AppStep::Idle,
            ),
    {
        let changed = match &self.editor {
            Some(e) => {
                match self.form_state.focused_field() {
                    Some(f) => match &f.value {
                        crate::field::FieldValue::Array(t) => {
                            let fresh = EntryEditor::open(t.as_str());
                            !same_strings(fresh.entries(), e.entries())
                        },
                        _ => true,
                    },
                    None => true,
                }
            },
            None => true,
        };
        if changed && !self.discard_armed {
            self.discard_armed = true;
            self.status_message = "Overlay dirty. Press Esc again to discard changes.".to_string();
        } else {
            self.editor = None;
            self.discard_armed = false;
            self.status_message = "Ready. Press Ctrl+S to validate and save.".to_string();
        }
    }

    /// Esc on the variant editor: with changes, the first press only warns;
    /// otherwise the editor closes without storing anything.
    fn escape_overlay(&mut self)
        requires
            old(self).wf(),
            old(self)@.overlay is Some,
        ensures
            final(self).wf(),
            escape_outcome(
                AppView { overlay: None, ..old(self)@ },
                old(self)@,
                form_dirty(old(self)@.overlay.unwrap().form),
                final(self)@,
                AppStep::Idle,
            ),
    {
        let changed = match &self.overlay {
            Some(o) => o.form.is_dirty(),
            None => true,
        };
        if changed && !self.discard_armed {
            self.discard_armed = true;
            self.status_message = "Overlay dirty. Press Esc again to discard changes.".to_string();
        } else {
            self.overlay = None;
            self.discard_armed = false;
            self.status_message = "Ready. Press Ctrl+S to validate and save.".to_string();
        }
    }

    /// A resolved command while the entry editor is open.
    fn handle_editor_command(&mut self, editor: EntryEditor, dispatch: CommandDispatch) -> (r: AppStep)
        requires
            old(self).wf(),
            old(self).editor is None,
            editor.wf(),
        ensures
            final(self).wf(),
            editor_key_outcome(old(self)@, editor@, dispatch, final(self)@, r),
    {
        let mut editor = editor;
        match dispatch {
            CommandDispatch::App(command) => match command {
                AppCommand::Save | AppCommand::EditComposite => {
                    return self.commit_editor(editor);
                },
                AppCommand::Quit | AppCommand::ResetStatus => {
                    self.status_message = "Ready. Press Ctrl+S to validate and save.".to_string();
                    return AppStep::Idle;
                },
                AppCommand::ListAddEntry => editor.add_entry(),
                AppCommand::ListRemoveEntry => editor.remove_entry(),
                AppCommand::ListSelect(delta) => editor.select_entry(delta),
                AppCommand::ListMove(delta) => editor.move_entry(delta),
                AppCommand::TogglePopup => {},
            },
            CommandDispatch::Input(event) => editor.type_key(&event),
            _ => {},
        }
        self.editor = Some(editor);
        AppStep::Idle
    }

    /// Handles one key press. With a popup open the key goes to it;
    /// otherwise the key is classified, resolved through the session's key
    /// bindings, and the resulting command is carried out.
    pub fn handle_key(&mut self, key: &KeyEvent) -> (r: AppStep)
        requires
            old(self).wf(),
        ensures
            final(self).wf(),
            final(self)@.options == old(self)@.options,
            match old(self)@.popup {
                Some(p) => popup_key_outcome(AppView { popup: None, ..old(self)@ }, p, *key, final(self)@, r),
                None => match old(self)@.editor {
                    Some(e) => if key.code == KeyCode::Esc {
                        escape_outcome(
                            AppView { editor: None, ..old(self)@ },
                            old(self)@,
                            entries_changed(old(self)@, e),
                            final(self)@,
                            r,
                        )
                    } else {
                        editor_key_outcome(
                            AppView { editor: None, discard_armed: false, ..old(self)@ },
                            e,
                            resolve_spec(old(self)@.options.keymap@, classify_spec(*key)),
                            final(self)@,
                            r,
                        )
                    },
                    None => match old(self)@.overlay {
                        Some(o) => if key.code == KeyCode::Esc {
                            escape_outcome(
                                AppView { overlay: None, ..old(self)@ },
                                old(self)@,
                                form_dirty(o.form),
                                final(self)@,
                                r,
                            )
                        } else {
                            overlay_key_outcome(
                                AppView { overlay: None, discard_armed: false, ..old(self)@ },
                                o,
                                resolve_spec(old(self)@.options.keymap@, classify_spec(*key)),
                                final(self)@,
                                r,
                            )
                        },
                        None => command_outcome(
                            old(self)@,
                            resolve_spec(old(self)@.options.keymap@, classify_spec(*key)),
                            final(self)@,
                            r,
                        ),
                    },
                },
            },
    {
        match self.popup.take() {
            Some(p) => {
                return self.handle_popup_key(p, key);
            },
            None => {},
        }
        let router = InputRouter::new();
        let action = router.classify(key);
        let dispatch = self.options.keymap.resolve(action);
        let esc = match key.code {
            KeyCode::Esc => true,
            _ => false,
        };
        if self.editor.is_some() {
            if esc {
                self.escape_editor();
                return AppStep::Idle;
            }
            match self.editor.take() {
                Some(e) => {
                    self.discard_armed = false;
                    return self.handle_editor_command(e, dispatch);
                },
                None => {},
            }
        }
        if self.overlay.is_some() {
            if esc {
                self.escape_overlay();
                return AppStep::Idle;
            }
            match self.overlay.take() {
                Some(o) => {
                    self.discard_armed = false;
                    return self.handle_overlay_command(o, dispatch);
                },
                None => {},
            }
        }
        match dispatch {
            CommandDispatch::Form(command) => {
                apply_command(&mut self.form_state, command);
                self.exit_armed = false;
                AppStep::Idle
            },
            CommandDispatch::App(command) => match command {
                AppCommand::Save => self.on_save(),
                AppCommand::Quit => {
                    self.on_exit();
                    AppStep::Idle
                },
                AppCommand::ResetStatus => {
                    self.exit_armed = false;
                    self.status_message = "Ready. Press Ctrl+S to validate and save.".to_string();
                    AppStep::Idle
                },
                AppCommand::TogglePopup => {
                    self.open_popup();
                    AppStep::Idle
                },
                AppCommand::EditComposite => {
                    self.open_editor();
                    AppStep::Idle
                },
                _ => {
                    self.form_state.map_command_focused(command);
                    AppStep::Idle
                },
            },
            CommandDispatch::Input(event) => {
                match self.form_state.handle_key_focused(&event) {
                    None => AppStep::Idle,
                    Some(KeyHandling::Ignored) => AppStep::Idle,
                    Some(KeyHandling::NumberStep(d)) => AppStep::StepNumber(d),
                    Some(KeyHandling::Handled) => self.after_field_edit(),
                }
            },
            CommandDispatch::NoCommand => AppStep::Idle,
        }
    }

    /// Scrolls the focused section so that the focused field shows in a
    /// window of the given height.
    pub fn keep_focus_in_view(&mut self, height: u16)
        requires
            old(self).wf(),
        ensures
            final(self).wf(),
            !(old(self)@.form.section_index < old(self)@.form.sections.len()) ==> final(self)@ == old(self)@,
            old(self)@.form.section_index < old(self)@.form.sections.len() ==> final(self)@ == (AppView {
                form: FormStateView {
                    sections: old(self)@.form.sections.update(
                        old(self)@.form.section_index,
                        SectionStateView {
                            scroll_offset: scrolled(
                                old(self)@.form.sections[old(self)@.form.section_index].scroll_offset,
                                old(self)@.form.field_index,
                                window_rows(height as int),
                            ),
                            ..old(self)@.form.sections[old(self)@.form.section_index]
                        },
                    ),
                    ..old(self)@.form
                },
                ..old(self)@
            }),
    {
        self.form_state.scroll_to_focus(height);
    }

    /// Gives the focused field the text of its stepped number and carries
    /// on as after any edit.
    pub fn finish_number_step(&mut self, text: String) -> (r: AppStep)
        requires
            old(self).wf(),
        ensures
            final(self).wf(),
            !has_focus(old(self)@.form) ==> (r matches AppStep::Idle && final(self)@ == old(self)@),
            has_focus(old(self)@.form) ==> ({
                let f2 = edited(focused(old(self)@.form), ValueView::Text(text@));
                let s1 = AppView {
                    form: with_focused(old(self)@.form, f2),
                    exit_armed: false,
                    status: editing_status(f2),
                    ..old(self)@
                };
                if !old(self)@.options.auto_validate {
                    r matches AppStep::Idle && final(self)@ == s1
                } else {
                    match build_fields(all_fields(s1.form.sections)) {
                        Ok(v) => r matches AppStep::Validate { value, announce, save } && value@ == v && !announce && !save && final(self)@ == s1,
                        Err(e) => r matches AppStep::Idle && final(self)@ == build_failed(s1, e),
                    }
                }
            }),
    {
        if self.form_state.finish_number_step(text) {
            self.after_field_edit()
        } else {
            AppStep::Idle
        }
    }

    /// Applies the result of validating `value`: no errors clears them and,
    /// for a save, ends the session with the value; errors are placed on
    /// their fields (or listed globally) and counted.
    pub fn complete_validation(&mut self, value: JsonValue, errors: Vec<(String, String)>, announce: bool, save: bool)
        requires
            old(self).wf(),
        ensures
            final(self).wf(),
            final(self)@ == validation_applied(old(self)@, value@, errors_view(errors@), announce, save),
    {
        let ghost f0 = self@.form;
        let ghost n0 = self.form_state.sections@.len();
        self.form_state.clear_errors();
        proof {
            assert(self@.form.sections =~= cleared_form(f0).sections);
            assert(self@.form == cleared_form(f0));
            assert(self@.form.sections.len() == f0.sections.len());
            assert(self.form_state.sections@.len() == n0);
        }
        self.global_errors = Vec::new();
        if errors.len() == 0 {
            assert(string_views(self.global_errors@) =~= Seq::<Seq<char>>::empty());
            self.validation_errors = 0;
            if save {
                self.status_message = "Configuration saved".to_string();
                self.result = Some(value);
                self.should_quit = true;
            } else if announce {
                self.status_message = "Validation passed".to_string();
            }
            return;
        }
        let ghost ev = errors_view(errors@);
        let ghost start = self@.form;
        let mut i: usize = 0;
        assert(ev.subrange(0, 0) =~= Seq::<(Seq<char>, Seq<char>)>::empty());
        assert(string_views(self.global_errors@) =~= Seq::<Seq<char>>::empty());
        while i < errors.len()
            invariant
                i <= errors.len(),
                ev == errors_view(errors@),
                ev.len() == errors@.len(),
                self.form_state.wf() == old(self).form_state.wf(),
                self.form_state.sections@.len() == old(self).form_state.sections@.len(),
                self@.form.section_index == start.section_index,
                self@.form.field_index == start.field_index,
                (self@.form, self@.global_errors) == apply_errors(start, ev.subrange(0, i as int)),
                self@.options == old(self)@.options,
                self@.status == old(self)@.status,
                self@.exit_armed == old(self)@.exit_armed,
                self@.should_quit == old(self)@.should_quit,
                self@.result == old(self)@.result,
                self@.validation_errors == old(self)@.validation_errors,
                self@.popup == old(self)@.popup,
                self.popup == old(self).popup,
                self@.editor == old(self)@.editor,
                self.editor == old(self).editor,
                self@.overlay == old(self)@.overlay,
                self.overlay == old(self).overlay,
                self@.discard_armed == old(self)@.discard_armed,
            decreases errors.len() - i,
        {
            let ghost pre = ev.subrange(0, i as int);
            let ghost post = ev.subrange(0, i + 1);
            assert(post.drop_last() =~= pre);
            assert(post.last() == (errors@[i as int].0@, errors@[i as int].1@));
            let ghost fbefore = self@.form;
            let pointer = &errors[i].0;
            let message = &errors[i].1;
            let ghost nb = self.form_state.sections@.len();
            let placed = self.form_state.set_error(pointer.as_str(), message.clone());
            assert(self@.form.sections.len() == fbefore.sections.len());
            assert(self.form_state.sections@.len() == nb);
            if !placed {
                let mut line: Vec<char> = Vec::new();
                if pointer.as_str().is_empty() {
                    push_str(&mut line, "<root>");
                } else {
                    push_str(&mut line, pointer.as_str());
                }
                push_str(&mut line, ": ");
                push_str(&mut line, message.as_str());
                let ghost gb = self.global_errors@;
                self.global_errors.push(string_from_chars(&line));
                assert(string_views(self.global_errors@) =~= string_views(gb).push(line@));
            }
            proof {
                assert(self@.form =~= form_with_error(fbefore, pointer@, message@)) by {
                    match first_match(fbefore.sections, pointer@) {
                        Some((a, b)) => {},
                        None => {},
                    }
                }
            }
            i = i + 1;
        }
        assert(ev.subrange(0, errors.len() as int) =~= ev);
        self.validation_errors = errors.len();
        if announce || save {
            let t = Self::issues_text(errors.len());
            self.status_message = t;
        }
    }
}

/// The errors as plain values.
pub open spec fn errors_view(e: Seq<(String, String)>) -> Seq<(Seq<char>, Seq<char>)> {
    e.map_values(|x: (String, String)| (x.0@, x.1@))
}

} // verus!

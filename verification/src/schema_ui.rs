//! The entry point a program configures: a schema, an optional title, the
//! session options and where the result is written. Running it is the
//! caller's part.

use vstd::prelude::*;
use crate::infer::{schema_from_data_spec, schema_from_data_value};
use crate::json::{JsonValue, JsonView};
use crate::keys::{builtin_dispatch, KeyBindingMap, SLOT_COUNT};
use crate::lifecycle::millis_duration;
use crate::output::OutputOptions;
use crate::session::UiOptions;
use crate::text::opt_view;
use std::time::Duration;

verus! {

/// A form to be shown for a schema.
#[derive(Debug)]
pub struct SchemaUI {
    schema: JsonValue,
    title: Option<String>,
    options: UiOptions,
    output: Option<OutputOptions>,
}

/// A configured form as plain values.
pub struct SchemaUIView {
    pub schema: JsonView,
    pub title: Option<Seq<char>>,
    pub options: UiOptions,
    pub output: Option<OutputOptions>,
}

impl View for SchemaUI {
    type V = SchemaUIView;

    closed spec fn view(&self) -> SchemaUIView {
        SchemaUIView {
            schema: self.schema@,
            title: opt_view(self.title),
            options: self.options,
            output: self.output,
        }
    }
}

impl SchemaUI {
    /// A form for a schema, untitled, with the default options and no
    /// output.
    pub fn new(schema: JsonValue) -> (r: Self)
        ensures
            r@.schema == schema@,
            r@.title is None,
            r@.output is None,
            r@.options.auto_validate && r@.options.confirm_exit && r@.options.show_help,
            r@.options.tick_rate == millis_duration(250),
            r@.options.keymap.wf(),
            forall|slot: int| 0 <= slot < SLOT_COUNT ==> r@.options.keymap@[slot] == Some(builtin_dispatch(slot)),
    {
        SchemaUI { schema, title: None, options: UiOptions::default(), output: None }
    }

    /// A form for the schema inferred from example data, which become its
    /// defaults.
    pub fn from_data_value(value: JsonValue) -> (r: Self)
        ensures
            r@.schema == schema_from_data_spec(value@),
            r@.title is None,
            r@.output is None,
            r@.options.auto_validate && r@.options.confirm_exit && r@.options.show_help,
            r@.options.tick_rate == millis_duration(250),
            r@.options.keymap.wf(),
            forall|slot: int| 0 <= slot < SLOT_COUNT ==> r@.options.keymap@[slot] == Some(builtin_dispatch(slot)),
    {
        let schema = schema_from_data_value(&value);
        Self::new(schema)
    }

    /// The form with a title.
    pub fn with_title(self, title: String) -> (r: Self)
        ensures
            r@ == (SchemaUIView { title: Some(title@), ..self@ }),
    {
        SchemaUI { title: Some(title), ..self }
    }

    /// The form with other options.
    pub fn with_options(self, options: UiOptions) -> (r: Self)
        ensures
            r@ == (SchemaUIView { options, ..self@ }),
    {
        SchemaUI { options, ..self }
    }

    /// The form with its result written as the output options say.
    pub fn with_output(self, output: OutputOptions) -> (r: Self)
        ensures
            r@ == (SchemaUIView { output: Some(output), ..self@ }),
    {
        SchemaUI { output: Some(output), ..self }
    }

    /// The form with other key bindings.
    pub fn with_keymap(self, keymap: KeyBindingMap) -> (r: Self)
        ensures
            r@ == (SchemaUIView { options: UiOptions { keymap, ..self@.options }, ..self@ }),
    {
        let SchemaUI { schema, title, options, output } = self;
        SchemaUI { schema, title, options: options.with_keymap(keymap), output }
    }

    /// The form with automatic validation switched on or off.
    pub fn with_auto_validate(self, enabled: bool) -> (r: Self)
        ensures
            r@ == (SchemaUIView { options: UiOptions { auto_validate: enabled, ..self@.options }, ..self@ }),
    {
        let SchemaUI { schema, title, options, output } = self;
        SchemaUI { schema, title, options: options.with_auto_validate(enabled), output }
    }

    /// The form with the help line shown or hidden.
    pub fn with_help(self, show: bool) -> (r: Self)
        ensures
            r@ == (SchemaUIView { options: UiOptions { show_help: show, ..self@.options }, ..self@ }),
    {
        let SchemaUI { schema, title, options, output } = self;
        SchemaUI { schema, title, options: options.with_help(show), output }
    }

    /// The form with exit confirmation switched on or off.
    pub fn with_confirm_exit(self, confirm: bool) -> (r: Self)
        ensures
            r@ == (SchemaUIView { options: UiOptions { confirm_exit: confirm, ..self@.options }, ..self@ }),
    {
        let SchemaUI { schema, title, options, output } = self;
        SchemaUI { schema, title, options: options.with_confirm_exit(confirm), output }
    }

    /// The form with another tick rate.
    pub fn with_tick_rate(self, tick_rate: Duration) -> (r: Self)
        ensures
            r@ == (SchemaUIView { options: UiOptions { tick_rate, ..self@.options }, ..self@ }),
    {
        let SchemaUI { schema, title, options, output } = self;
        SchemaUI { schema, title, options: options.with_tick_rate(tick_rate), output }
    }

    /// The schema, title, options and output, for running the form.
    pub fn into_parts(self) -> (r: (JsonValue, Option<String>, UiOptions, Option<OutputOptions>))
        ensures
            r.0@ == self@.schema,
            opt_view(r.1) == self@.title,
            r.2 == self@.options,
            r.3 == self@.output,
    {
        (self.schema, self.title, self.options, self.output)
    }
}

} // verus!

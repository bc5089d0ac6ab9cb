//! Keyboard input: the key events the session receives, how a key press is
//! classified into an action, and how actions resolve to commands through a
//! binding table.

use vstd::prelude::*;

verus! {

/// A key on the keyboard, as far as the session tells keys apart.
#[derive(Debug, Clone, Copy, PartialEq, Eq, Structural)]
pub enum KeyCode {
    Char(char),
    Left,
    Right,
    Up,
    Down,
    Tab,
    BackTab,
    Esc,
    Enter,
    Backspace,
    Delete,
    Home,
    End,
    PageUp,
    PageDown,
    Insert,
    F(u8),
    Other,
}

/// The modifier keys held during a key press.
#[derive(Debug, Clone, Copy, PartialEq, Eq, Structural)]
pub struct KeyModifiers {
    pub shift: bool,
    pub control: bool,
    pub alt: bool,
}

impl KeyModifiers {
    /// No modifier held.
    pub fn none() -> (r: Self)
        ensures
            !r.shift && !r.control && !r.alt,
    {
        KeyModifiers { shift: false, control: false, alt: false }
    }
}

/// One key press: the key and the modifiers held with it.
#[derive(Debug, Clone, Copy, PartialEq, Eq, Structural)]
pub struct KeyEvent {
    pub code: KeyCode,
    pub modifiers: KeyModifiers,
}

impl KeyEvent {
    /// A key press with the given modifiers.
    pub fn new(code: KeyCode, modifiers: KeyModifiers) -> (r: Self)
        ensures
            r.code == code,
            r.modifiers == modifiers,
    {
        KeyEvent { code, modifiers }
    }
}

/// What a key press asks for, before key bindings are consulted.
#[derive(Debug, Clone, Copy, PartialEq, Eq, Structural)]
pub enum KeyAction {
    Save,
    Quit,
    ResetStatus,
    TogglePopup,
    EditComposite,
    FieldStep(i32),
    SectionStep(i32),
    RootStep(i32),
    ListAddEntry,
    ListRemoveEntry,
    ListMove(i32),
    ListSelect(i32),
    Input(KeyEvent),
    NoAction,
}

/// Commands handled by the application shell.
#[derive(Debug, Clone, Copy, PartialEq, Eq, Structural)]
pub enum AppCommand {
    Save,
    Quit,
    ResetStatus,
    TogglePopup,
    EditComposite,
    ListAddEntry,
    ListRemoveEntry,
    ListMove(i32),
    ListSelect(i32),
}

/// Commands that move the focus within the form.
#[derive(Debug, Clone, Copy, PartialEq, Eq, Structural)]
pub enum FormCommand {
    FocusNextField,
    FocusPrevField,
    FocusNextSection(i32),
    FocusNextRoot(i32),
}

/// Where a resolved key action goes.
#[derive(Debug, Clone, Copy, PartialEq, Eq, Structural)]
pub enum CommandDispatch {
    Form(FormCommand),
    App(AppCommand),
    Input(KeyEvent),
    NoCommand,
}

/// The number of bindable action slots.
pub const SLOT_COUNT: usize = 17;

/// Slots of the binding table: bindable actions, with steps split by the
/// sign of their delta.
pub open spec fn slot_save() -> int { 0 }
pub open spec fn slot_quit() -> int { 1 }
pub open spec fn slot_reset_status() -> int { 2 }
pub open spec fn slot_toggle_popup() -> int { 3 }
pub open spec fn slot_edit_composite() -> int { 4 }
pub open spec fn slot_field_step(delta: i32) -> int { if delta >= 0 { 5 } else { 6 } }
pub open spec fn slot_section_step(delta: i32) -> int { if delta >= 0 { 7 } else { 8 } }
pub open spec fn slot_root_step(delta: i32) -> int { if delta >= 0 { 9 } else { 10 } }
pub open spec fn slot_list_add() -> int { 11 }
pub open spec fn slot_list_remove() -> int { 12 }
pub open spec fn slot_list_move(delta: i32) -> int { if delta >= 0 { 14 } else { 13 } }
pub open spec fn slot_list_select(delta: i32) -> int { if delta >= 0 { 16 } else { 15 } }

/// The command the built-in table binds to each slot.
pub open spec fn builtin_dispatch(slot: int) -> CommandDispatch {
    if slot == 0 {
        CommandDispatch::App(AppCommand::Save)
    } else if slot == 1 {
        CommandDispatch::App(AppCommand::Quit)
    } else if slot == 2 {
        CommandDispatch::App(AppCommand::ResetStatus)
    } else if slot == 3 {
        CommandDispatch::App(AppCommand::TogglePopup)
    } else if slot == 4 {
        CommandDispatch::App(AppCommand::EditComposite)
    } else if slot == 5 {
        CommandDispatch::Form(FormCommand::FocusNextField)
    } else if slot == 6 {
        CommandDispatch::Form(FormCommand::FocusPrevField)
    } else if slot == 7 {
        CommandDispatch::Form(FormCommand::FocusNextSection(1))
    } else if slot == 8 {
        CommandDispatch::Form(FormCommand::FocusNextSection(-1i32))
    } else if slot == 9 {
        CommandDispatch::Form(FormCommand::FocusNextRoot(1))
    } else if slot == 10 {
        CommandDispatch::Form(FormCommand::FocusNextRoot(-1i32))
    } else if slot == 11 {
        CommandDispatch::App(AppCommand::ListAddEntry)
    } else if slot == 12 {
        CommandDispatch::App(AppCommand::ListRemoveEntry)
    } else if slot == 13 {
        CommandDispatch::App(AppCommand::ListMove(-1i32))
    } else if slot == 14 {
        CommandDispatch::App(AppCommand::ListMove(1))
    } else if slot == 15 {
        CommandDispatch::App(AppCommand::ListSelect(-1i32))
    } else {
        CommandDispatch::App(AppCommand::ListSelect(1))
    }
}

/// The command bound to `slot` in `table`, or `fallback` when the slot is
/// unbound.
pub open spec fn bound_or(
    table: Seq<Option<CommandDispatch>>,
    slot: int,
    fallback: CommandDispatch,
) -> CommandDispatch {
    match table[slot] {
        Some(d) => d,
        None => fallback,
    }
}

/// How an action resolves against a binding table: a bound slot wins,
/// otherwise the action's own command; raw input and "nothing" pass through.
pub open spec fn resolve_spec(table: Seq<Option<CommandDispatch>>, action: KeyAction) -> CommandDispatch {
    match action {
        KeyAction::Save => bound_or(table, slot_save(), CommandDispatch::App(AppCommand::Save)),
        KeyAction::Quit => bound_or(table, slot_quit(), CommandDispatch::App(AppCommand::Quit)),
        KeyAction::ResetStatus => bound_or(
            table,
            slot_reset_status(),
            CommandDispatch::App(AppCommand::ResetStatus),
        ),
        KeyAction::TogglePopup => bound_or(
            table,
            slot_toggle_popup(),
            CommandDispatch::App(AppCommand::TogglePopup),
        ),
        KeyAction::EditComposite => bound_or(
            table,
            slot_edit_composite(),
            CommandDispatch::App(AppCommand::EditComposite),
        ),
        KeyAction::FieldStep(d) => bound_or(
            table,
            slot_field_step(d),
            if d >= 0 {
                CommandDispatch::Form(FormCommand::FocusNextField)
            } else {
                CommandDispatch::Form(FormCommand::FocusPrevField)
            },
        ),
        KeyAction::SectionStep(d) => bound_or(
            table,
            slot_section_step(d),
            CommandDispatch::Form(FormCommand::FocusNextSection(d)),
        ),
        KeyAction::RootStep(d) => bound_or(
            table,
            slot_root_step(d),
            CommandDispatch::Form(FormCommand::FocusNextRoot(d)),
        ),
        KeyAction::ListAddEntry => bound_or(
            table,
            slot_list_add(),
            CommandDispatch::App(AppCommand::ListAddEntry),
        ),
        KeyAction::ListRemoveEntry => bound_or(
            table,
            slot_list_remove(),
            CommandDispatch::App(AppCommand::ListRemoveEntry),
        ),
        KeyAction::ListMove(d) => bound_or(
            table,
            slot_list_move(d),
            CommandDispatch::App(AppCommand::ListMove(d)),
        ),
        KeyAction::ListSelect(d) => bound_or(
            table,
            slot_list_select(d),
            CommandDispatch::App(AppCommand::ListSelect(d)),
        ),
        KeyAction::Input(e) => CommandDispatch::Input(e),
        KeyAction::NoAction => CommandDispatch::NoCommand,
    }
}

/// A table from bindable actions to the commands they trigger.
#[derive(Debug, Clone)]
pub struct KeyBindingMap {
    bindings: Vec<Option<CommandDispatch>>,
}

impl View for KeyBindingMap {
    type V = Seq<Option<CommandDispatch>>;

    closed spec fn view(&self) -> Seq<Option<CommandDispatch>> {
        self.bindings@
    }
}

impl KeyBindingMap {
    /// One entry per slot.
    pub closed spec fn wf(&self) -> bool {
        self.bindings@.len() == SLOT_COUNT
    }

    /// Whether every action slot is present, as in every table this
    /// library builds.
    pub fn is_complete(&self) -> (r: bool)
        ensures
            r == self.wf(),
    {
        self.bindings.len() == SLOT_COUNT
    }

    /// The built-in bindings: every slot bound to its default command.
    pub fn builtin() -> (r: Self)
        ensures
            r.wf(),
            r@.len() == SLOT_COUNT,
            forall|slot: int| 0 <= slot < SLOT_COUNT ==> r@[slot] == Some(builtin_dispatch(slot)),
    {
        let mut bindings: Vec<Option<CommandDispatch>> = Vec::new();
        bindings.push(Some(CommandDispatch::App(AppCommand::Save)));
        bindings.push(Some(CommandDispatch::App(AppCommand::Quit)));
        bindings.push(Some(CommandDispatch::App(AppCommand::ResetStatus)));
        bindings.push(Some(CommandDispatch::App(AppCommand::TogglePopup)));
        bindings.push(Some(CommandDispatch::App(AppCommand::EditComposite)));
        bindings.push(Some(CommandDispatch::Form(FormCommand::FocusNextField)));
        bindings.push(Some(CommandDispatch::Form(FormCommand::FocusPrevField)));
        bindings.push(Some(CommandDispatch::Form(FormCommand::FocusNextSection(1))));
        bindings.push(Some(CommandDispatch::Form(FormCommand::FocusNextSection(-1i32))));
        bindings.push(Some(CommandDispatch::Form(FormCommand::FocusNextRoot(1))));
        bindings.push(Some(CommandDispatch::Form(FormCommand::FocusNextRoot(-1i32))));
        bindings.push(Some(CommandDispatch::App(AppCommand::ListAddEntry)));
        bindings.push(Some(CommandDispatch::App(AppCommand::ListRemoveEntry)));
        bindings.push(Some(CommandDispatch::App(AppCommand::ListMove(-1i32))));
        bindings.push(Some(CommandDispatch::App(AppCommand::ListMove(1))));
        bindings.push(Some(CommandDispatch::App(AppCommand::ListSelect(-1i32))));
        bindings.push(Some(CommandDispatch::App(AppCommand::ListSelect(1))));
        let r = KeyBindingMap { bindings };
        assert forall|slot: int| 0 <= slot < SLOT_COUNT implies r@[slot] == Some(builtin_dispatch(slot)) by {
        }
        r
    }

    fn lookup(&self, slot: usize, fallback: CommandDispatch) -> (r: CommandDispatch)
        requires
            self.wf(),
            slot < SLOT_COUNT,
        ensures
            r == bound_or(self@, slot as int, fallback),
    {
        match self.bindings[slot] {
            Some(d) => d,
            None => fallback,
        }
    }

    /// Resolves an action to its command: the bound command when its slot is
    /// bound, otherwise the command named by the action itself.
    pub fn resolve(&self, action: KeyAction) -> (r: CommandDispatch)
        requires
            self.wf(),
        ensures
            r == resolve_spec(self@, action),
    {
        match action {
            KeyAction::Save => self.lookup(0, CommandDispatch::App(AppCommand::Save)),
            KeyAction::Quit => self.lookup(1, CommandDispatch::App(AppCommand::Quit)),
            KeyAction::ResetStatus => self.lookup(2, CommandDispatch::App(AppCommand::ResetStatus)),
            KeyAction::TogglePopup => self.lookup(3, CommandDispatch::App(AppCommand::TogglePopup)),
            KeyAction::EditComposite => self.lookup(
                4,
                CommandDispatch::App(AppCommand::EditComposite),
            ),
            KeyAction::FieldStep(delta) => {
                if delta >= 0 {
                    self.lookup(5, CommandDispatch::Form(FormCommand::FocusNextField))
                } else {
                    self.lookup(6, CommandDispatch::Form(FormCommand::FocusPrevField))
                }
            },
            KeyAction::SectionStep(delta) => {
                let slot: usize = if delta >= 0 { 7 } else { 8 };
                self.lookup(slot, CommandDispatch::Form(FormCommand::FocusNextSection(delta)))
            },
            KeyAction::RootStep(delta) => {
                let slot: usize = if delta >= 0 { 9 } else { 10 };
                self.lookup(slot, CommandDispatch::Form(FormCommand::FocusNextRoot(delta)))
            },
            KeyAction::ListAddEntry => self.lookup(11, CommandDispatch::App(AppCommand::ListAddEntry)),
            KeyAction::ListRemoveEntry => self.lookup(
                12,
                CommandDispatch::App(AppCommand::ListRemoveEntry),
            ),
            KeyAction::ListMove(delta) => {
                let slot: usize = if delta >= 0 { 14 } else { 13 };
                self.lookup(slot, CommandDispatch::App(AppCommand::ListMove(delta)))
            },
            KeyAction::ListSelect(delta) => {
                let slot: usize = if delta >= 0 { 16 } else { 15 };
                self.lookup(slot, CommandDispatch::App(AppCommand::ListSelect(delta)))
            },
            KeyAction::Input(event) => CommandDispatch::Input(event),
            KeyAction::NoAction => CommandDispatch::NoCommand,
        }
    }
}

impl Default for KeyBindingMap {
    fn default() -> (r: Self)
        ensures
            r.wf(),
            forall|slot: int| 0 <= slot < SLOT_COUNT ==> r@[slot] == Some(builtin_dispatch(slot)),
    {
        Self::builtin()
    }
}

/// Under the built-in bindings, a forward step always moves to the next
/// field, section or root by exactly one and a backward step by minus one,
/// whatever the size of the step.
pub proof fn lemma_builtin_steps_are_unit(table: Seq<Option<CommandDispatch>>, delta: i32)
    requires
        table.len() == SLOT_COUNT,
        forall|slot: int| 0 <= slot < SLOT_COUNT ==> table[slot] == Some(builtin_dispatch(slot)),
    ensures
        resolve_spec(table, KeyAction::FieldStep(delta)) == (if delta >= 0 {
            CommandDispatch::Form(FormCommand::FocusNextField)
        } else {
            CommandDispatch::Form(FormCommand::FocusPrevField)
        }),
        resolve_spec(table, KeyAction::SectionStep(delta)) == CommandDispatch::Form(
            FormCommand::FocusNextSection(if delta >= 0 { 1i32 } else { -1i32 }),
        ),
        resolve_spec(table, KeyAction::RootStep(delta)) == CommandDispatch::Form(
            FormCommand::FocusNextRoot(if delta >= 0 { 1i32 } else { -1i32 }),
        ),
        resolve_spec(table, KeyAction::ListMove(delta)) == CommandDispatch::App(
            AppCommand::ListMove(if delta >= 0 { 1i32 } else { -1i32 }),
        ),
        resolve_spec(table, KeyAction::ListSelect(delta)) == CommandDispatch::App(
            AppCommand::ListSelect(if delta >= 0 { 1i32 } else { -1i32 }),
        ),
{
    assert(table[slot_field_step(delta)] == Some(builtin_dispatch(slot_field_step(delta))));
    assert(table[slot_section_step(delta)] == Some(builtin_dispatch(slot_section_step(delta))));
    assert(table[slot_root_step(delta)] == Some(builtin_dispatch(slot_root_step(delta))));
    assert(table[slot_list_move(delta)] == Some(builtin_dispatch(slot_list_move(delta))));
    assert(table[slot_list_select(delta)] == Some(builtin_dispatch(slot_list_select(delta))));
}

/// Whether the key is one of the "previous root" combinations:
/// Alt+Shift with Left, `[` or Esc.
pub open spec fn prev_root_combo(key: KeyEvent) -> bool {
    &&& key.modifiers.alt
    &&& key.modifiers.shift
    &&& (key.code == KeyCode::Left || key.code == KeyCode::Char('[') || key.code == KeyCode::Esc)
}

/// Whether the key is one of the "next root" combinations: Alt+Shift with
/// Right or `]`.
pub open spec fn next_root_combo(key: KeyEvent) -> bool {
    &&& key.modifiers.alt
    &&& key.modifiers.shift
    &&& (key.code == KeyCode::Right || key.code == KeyCode::Char(']'))
}

/// The action a Control-held key asks for.
pub open spec fn control_action(key: KeyEvent) -> KeyAction {
    match key.code {
        KeyCode::Char(c) => {
            if c == 's' || c == 'S' {
                KeyAction::Save
            } else if c == 'q' || c == 'Q' || c == 'c' || c == 'C' {
                KeyAction::Quit
            } else if c == 'e' || c == 'E' {
                KeyAction::EditComposite
            } else if c == 'n' || c == 'N' {
                KeyAction::ListAddEntry
            } else if c == 'd' || c == 'D' {
                KeyAction::ListRemoveEntry
            } else if c == 'j' || c == 'J' {
                KeyAction::RootStep(-1i32)
            } else if c == 'l' || c == 'L' {
                KeyAction::RootStep(1)
            } else {
                KeyAction::NoAction
            }
        },
        KeyCode::Left => KeyAction::ListSelect(-1i32),
        KeyCode::Right => KeyAction::ListSelect(1),
        KeyCode::Up => KeyAction::ListMove(-1i32),
        KeyCode::Down => KeyAction::ListMove(1),
        KeyCode::Tab => if key.modifiers.shift {
            KeyAction::SectionStep(-1i32)
        } else {
            KeyAction::SectionStep(1)
        },
        _ => KeyAction::NoAction,
    }
}

/// How a key press is classified: root switching first, then Control
/// shortcuts, then navigation keys; any other key is input for the field.
pub open spec fn classify_spec(key: KeyEvent) -> KeyAction {
    if prev_root_combo(key) {
        KeyAction::RootStep(-1i32)
    } else if next_root_combo(key) {
        KeyAction::RootStep(1)
    } else if key.modifiers.control {
        control_action(key)
    } else {
        match key.code {
            KeyCode::Tab | KeyCode::Down => KeyAction::FieldStep(1),
            KeyCode::BackTab | KeyCode::Up => KeyAction::FieldStep(-1i32),
            KeyCode::Esc => KeyAction::ResetStatus,
            KeyCode::Enter => KeyAction::TogglePopup,
            _ => KeyAction::Input(key),
        }
    }
}

fn is_prev_root_combo(key: &KeyEvent) -> (r: bool)
    ensures
        r == prev_root_combo(*key),
{
    if key.modifiers.alt && key.modifiers.shift {
        match key.code {
            KeyCode::Left | KeyCode::Char('[') => return true,
            KeyCode::Esc => return true,
            _ => {},
        }
    }
    false
}

fn is_next_root_combo(key: &KeyEvent) -> (r: bool)
    ensures
        r == next_root_combo(*key),
{
    if key.modifiers.alt && key.modifiers.shift {
        match key.code {
            KeyCode::Right | KeyCode::Char(']') => return true,
            _ => {},
        }
    }
    false
}

/// Turns key presses into actions.
#[derive(Debug, Clone, Copy, Default)]
pub struct InputRouter;

impl InputRouter {
    /// A router; it holds no state.
    pub fn new() -> (r: Self)
        ensures
            r == InputRouter,
    {
        InputRouter
    }

    /// Classifies a key press into the action it asks for.
    pub fn classify(&self, key: &KeyEvent) -> (r: KeyAction)
        ensures
            r == classify_spec(*key),
    {
        if is_prev_root_combo(key) {
            return KeyAction::RootStep(-1i32);
        }
        if is_next_root_combo(key) {
            return KeyAction::RootStep(1);
        }
        if key.modifiers.control {
            return match key.code {
                KeyCode::Char('s') | KeyCode::Char('S') => KeyAction::Save,
                KeyCode::Char('q') | KeyCode::Char('Q') => KeyAction::Quit,
                KeyCode::Char('c') | KeyCode::Char('C') => KeyAction::Quit,
                KeyCode::Char('e') | KeyCode::Char('E') => KeyAction::EditComposite,
                KeyCode::Char('n') | KeyCode::Char('N') => KeyAction::ListAddEntry,
                KeyCode::Char('d') | KeyCode::Char('D') => KeyAction::ListRemoveEntry,
                KeyCode::Char('j') | KeyCode::Char('J') => KeyAction::RootStep(-1i32),
                KeyCode::Char('l') | KeyCode::Char('L') => KeyAction::RootStep(1),
                KeyCode::Left => KeyAction::ListSelect(-1i32),
                KeyCode::Right => KeyAction::ListSelect(1),
                KeyCode::Up => KeyAction::ListMove(-1i32),
                KeyCode::Down => KeyAction::ListMove(1),
                KeyCode::Tab => {
                    if key.modifiers.shift {
                        KeyAction::SectionStep(-1i32)
                    } else {
                        KeyAction::SectionStep(1)
                    }
                },
                _ => KeyAction::NoAction,
            };
        }
        match key.code {
            KeyCode::Tab | KeyCode::Down => KeyAction::FieldStep(1),
            KeyCode::BackTab | KeyCode::Up => KeyAction::FieldStep(-1i32),
            KeyCode::Esc => KeyAction::ResetStatus,
            KeyCode::Enter => KeyAction::TogglePopup,
            _ => KeyAction::Input(*key),
        }
    }
}

} // verus!

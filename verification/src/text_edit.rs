//! What a focused text field does with the frame's events.
//!
//! Keyboard, text, clipboard and IME events become editing commands for the
//! field's text buffer; pointer presses, drags and releases place the caret,
//! select words or lines on double and triple clicks, and extend the
//! selection while dragging.
use vstd::prelude::*;
use crate::input::{KeyCode, KeyPress, Modifiers};
use crate::text_lines::{grapheme_count, grapheme_count_of};
use vstd::string::StringExecFns;

verus! {

/// Non-pointer events a focused text field consumes.
#[derive(Clone, Debug)]
pub enum TextEvent {
    /// Committed text from the keyboard.
    TextInput(String),
    KeyDown(KeyPress),
    CompositionStart,
    CompositionUpdate(String),
    CompositionEnd(String),
    /// Text pasted from the host clipboard.
    Paste(String),
}

/// One operation on a text buffer.  `bool` fields tell whether the movement
/// extends the selection (Shift held).
#[derive(Clone, Debug)]
pub enum EditCommand {
    InsertText(String),
    /// Insert a line break (`"\n"`).
    InsertNewline,
    DeleteBackward,
    DeleteForward,
    DeleteWordBackward,
    DeleteWordForward,
    MoveLeft(bool),
    MoveRight(bool),
    MoveWordLeft(bool),
    MoveWordRight(bool),
    /// Collapse a non-empty selection to its start.
    CollapseToSelectionStart,
    /// Collapse a non-empty selection to its end.
    CollapseToSelectionEnd,
    /// Move to the first grapheme of the text.
    MoveToStart(bool),
    /// Move past the last grapheme of the text.
    MoveToEnd(bool),
    MoveToLineStart(bool),
    MoveToLineEnd(bool),
    SelectAll,
    /// Put the selected text on the clipboard, if there is a selection.
    CopySelection,
    /// Put the selected text on the clipboard and remove it, as one undo step.
    CutSelection,
    Undo,
    Redo,
    BeginComposition,
    UpdateComposition(String),
    EndComposition(String),
}

/// An [`EditCommand`] with its text taken by value.
pub enum EditCommandView {
    InsertText(Seq<char>),
    InsertNewline,
    DeleteBackward,
    DeleteForward,
    DeleteWordBackward,
    DeleteWordForward,
    MoveLeft(bool),
    MoveRight(bool),
    MoveWordLeft(bool),
    MoveWordRight(bool),
    CollapseToSelectionStart,
    CollapseToSelectionEnd,
    MoveToStart(bool),
    MoveToEnd(bool),
    MoveToLineStart(bool),
    MoveToLineEnd(bool),
    SelectAll,
    CopySelection,
    CutSelection,
    Undo,
    Redo,
    BeginComposition,
    UpdateComposition(Seq<char>),
    EndComposition(Seq<char>),
}

impl View for EditCommand {
    type V = EditCommandView;

    open spec fn view(&self) -> EditCommandView {
        match *self {
            EditCommand::InsertText(t) => EditCommandView::InsertText(t@),
            EditCommand::InsertNewline => EditCommandView::InsertNewline,
            EditCommand::DeleteBackward => EditCommandView::DeleteBackward,
            EditCommand::DeleteForward => EditCommandView::DeleteForward,
            EditCommand::DeleteWordBackward => EditCommandView::DeleteWordBackward,
            EditCommand::DeleteWordForward => EditCommandView::DeleteWordForward,
            EditCommand::MoveLeft(b) => EditCommandView::MoveLeft(b),
            EditCommand::MoveRight(b) => EditCommandView::MoveRight(b),
            EditCommand::MoveWordLeft(b) => EditCommandView::MoveWordLeft(b),
            EditCommand::MoveWordRight(b) => EditCommandView::MoveWordRight(b),
            EditCommand::CollapseToSelectionStart => EditCommandView::CollapseToSelectionStart,
            EditCommand::CollapseToSelectionEnd => EditCommandView::CollapseToSelectionEnd,
            EditCommand::MoveToStart(b) => EditCommandView::MoveToStart(b),
            EditCommand::MoveToEnd(b) => EditCommandView::MoveToEnd(b),
            EditCommand::MoveToLineStart(b) => EditCommandView::MoveToLineStart(b),
            EditCommand::MoveToLineEnd(b) => EditCommandView::MoveToLineEnd(b),
            EditCommand::SelectAll => EditCommandView::SelectAll,
            EditCommand::CopySelection => EditCommandView::CopySelection,
            EditCommand::CutSelection => EditCommandView::CutSelection,
            EditCommand::Undo => EditCommandView::Undo,
            EditCommand::Redo => EditCommandView::Redo,
            EditCommand::BeginComposition => EditCommandView::BeginComposition,
            EditCommand::UpdateComposition(t) => EditCommandView::UpdateComposition(t@),
            EditCommand::EndComposition(t) => EditCommandView::EndComposition(t@),
        }
    }
}

/// The commands for one event, and whether it toggles overwrite mode.
pub struct EditStep {
    pub commands: Vec<EditCommand>,
    pub toggle_overwrite: bool,
}

/// The selection state of the buffer at the moment an event arrives.
#[derive(Clone, Copy, Debug)]
pub struct SelectionState {
    /// The buffer has a selection (possibly empty).
    pub has_selection: bool,
    /// The buffer has a selection that covers at least one grapheme.
    pub non_empty: bool,
}

/// Ctrl or Alt is held: word-wise deletion and movement.
pub open spec fn word_mod(k: KeyPress) -> bool {
    k.modifiers.ctrl || k.modifiers.alt
}

/// Ctrl or Meta is held: clipboard and undo shortcuts.
pub open spec fn shortcut_mod(k: KeyPress) -> bool {
    k.modifiers.ctrl || k.modifiers.meta
}

/// The commands a key press stands for, and whether it toggles overwrite
/// mode.
pub open spec fn key_commands(k: KeyPress, allow_newline: bool, sel: SelectionState) -> (Seq<EditCommandView>, bool) {
    let shift = k.modifiers.shift;
    match k.code {
        KeyCode::Backspace => if word_mod(k) {
            (seq![EditCommandView::DeleteWordBackward], false)
        } else {
            (seq![EditCommandView::DeleteBackward], false)
        },
        KeyCode::Delete => if word_mod(k) {
            (seq![EditCommandView::DeleteWordForward], false)
        } else {
            (seq![EditCommandView::DeleteForward], false)
        },
        KeyCode::ArrowLeft => if word_mod(k) {
            (seq![EditCommandView::MoveWordLeft(shift)], false)
        } else if sel.non_empty && !shift {
            (seq![EditCommandView::CollapseToSelectionStart], false)
        } else {
            (seq![EditCommandView::MoveLeft(shift)], false)
        },
        KeyCode::ArrowRight => if word_mod(k) {
            (seq![EditCommandView::MoveWordRight(shift)], false)
        } else if sel.non_empty && !shift {
            (seq![EditCommandView::CollapseToSelectionEnd], false)
        } else {
            (seq![EditCommandView::MoveRight(shift)], false)
        },
        KeyCode::ArrowUp => (seq![EditCommandView::MoveToStart(shift)], false),
        KeyCode::ArrowDown => (seq![EditCommandView::MoveToEnd(shift)], false),
        KeyCode::Home => if k.modifiers.ctrl {
            (seq![EditCommandView::MoveToStart(shift)], false)
        } else {
            (seq![EditCommandView::MoveToLineStart(shift)], false)
        },
        KeyCode::End => if k.modifiers.ctrl {
            (seq![EditCommandView::MoveToEnd(shift)], false)
        } else {
            (seq![EditCommandView::MoveToLineEnd(shift)], false)
        },
        KeyCode::Enter => if allow_newline {
            (seq![EditCommandView::InsertNewline], false)
        } else {
            (Seq::empty(), false)
        },
        KeyCode::Insert => (Seq::empty(), true),
        KeyCode::A => if shortcut_mod(k) { (seq![EditCommandView::SelectAll], false) } else { (Seq::empty(), false) },
        KeyCode::C => if shortcut_mod(k) { (seq![EditCommandView::CopySelection], false) } else { (Seq::empty(), false) },
        KeyCode::X => if shortcut_mod(k) { (seq![EditCommandView::CutSelection], false) } else { (Seq::empty(), false) },
        KeyCode::Z => if shortcut_mod(k) {
            if shift { (seq![EditCommandView::Redo], false) } else { (seq![EditCommandView::Undo], false) }
        } else {
            (Seq::empty(), false)
        },
        KeyCode::Y => if shortcut_mod(k) { (seq![EditCommandView::Redo], false) } else { (Seq::empty(), false) },
        _ => (Seq::empty(), false),
    }
}

/// The commands for an event arriving at a focused field.
///
/// Typed text is inserted unless it holds a line break and the field is
/// single-line; in overwrite mode, with no selection, the grapheme after the
/// caret is deleted first.  Pasted text is inserted; in a single-line field
/// its line breaks are removed first, and nothing happens when no character
/// is left.  Composition events drive the IME composition, with line breaks
/// removed from the composed text in a single-line field.
pub open spec fn event_commands(
    event: TextEvent,
    allow_newline: bool,
    overwrite_mode: bool,
    sel: SelectionState,
) -> (Seq<EditCommandView>, bool) {
    match event {
        TextEvent::TextInput(text) => if allow_newline || !text@.contains('\n') {
            if overwrite_mode && !sel.has_selection {
                (seq![EditCommandView::DeleteForward, EditCommandView::InsertText(text@)], false)
            } else {
                (seq![EditCommandView::InsertText(text@)], false)
            }
        } else {
            (Seq::empty(), false)
        },
        TextEvent::KeyDown(k) => key_commands(k, allow_newline, sel),
        TextEvent::CompositionStart => (seq![EditCommandView::BeginComposition], false),
        TextEvent::CompositionUpdate(text) => (
            seq![EditCommandView::UpdateComposition(single_line_text(text@, allow_newline))],
            false,
        ),
        TextEvent::CompositionEnd(text) => (
            seq![EditCommandView::EndComposition(single_line_text(text@, allow_newline))],
            false,
        ),
        TextEvent::Paste(text) => if allow_newline {
            (seq![EditCommandView::InsertText(text@)], false)
        } else if without_newlines(text@).len() == 0 {
            (Seq::empty(), false)
        } else {
            (seq![EditCommandView::InsertText(without_newlines(text@))], false)
        },
    }
}

/// `s` with every line break (`'\n'`) removed.
pub open spec fn without_newlines(s: Seq<char>) -> Seq<char> {
    s.filter(|c: char| c != '\n')
}

/// The text a field takes in: `text` itself in a multi-line field, `text`
/// without its line breaks in a single-line one.
pub open spec fn single_line_text(text: Seq<char>, allow_newline: bool) -> Seq<char> {
    if allow_newline {
        text
    } else {
        without_newlines(text)
    }
}

/// The command puts a line break into the buffer.
pub open spec fn inserts_newline(c: EditCommandView) -> bool {
    match c {
        EditCommandView::InsertNewline => true,
        EditCommandView::InsertText(t) => t.contains('\n'),
        EditCommandView::UpdateComposition(t) => t.contains('\n'),
        EditCommandView::EndComposition(t) => t.contains('\n'),
        _ => false,
    }
}

/// `text` with every line break removed.
pub fn strip_newlines(text: &str) -> (res: String)
    ensures
        res@ == without_newlines(text@),
{
    let n: usize = text.unicode_len();
    let mut res = String::new();
    let mut start: usize = 0;
    let mut i: usize = 0;
    for ch in it: text.chars()
        invariant
            it.seq() == text@,
            n == text@.len(),
            i == it.index(),
            start <= i <= n,
            res@ + text@.subrange(start as int, i as int) == without_newlines(text@.subrange(0, i as int)),
    {
        proof {
            let pre = text@.subrange(0, i as int);
            assert(text@.subrange(0, i + 1).drop_last() =~= pre);
            assert(text@.subrange(0, i + 1).last() == ch);
            reveal(Seq::filter);
            assert(without_newlines(text@.subrange(0, i + 1)) == if ch != '\n' {
                without_newlines(pre).push(ch)
            } else {
                without_newlines(pre)
            });
        }
        if ch == '\n' {
            let seg = text.substring_char(start, i);
            let ghost before = res@;
            res.append(seg);
            assert(res@ == before + text@.subrange(start as int, i as int));
            start = i + 1;
            assert(text@.subrange(start as int, start as int) =~= Seq::<char>::empty());
            assert(res@ + text@.subrange(start as int, start as int) =~= res@);
        } else {
            assert(text@.subrange(start as int, i + 1) =~= text@.subrange(start as int, i as int).push(ch));
            assert(res@ + text@.subrange(start as int, i + 1) =~= (res@ + text@.subrange(start as int, i as int)).push(ch));
        }
        i = i + 1;
    }
    let rest = text.substring_char(start, n);
    res.append(rest);
    assert(text@.subrange(0, n as int) =~= text@);
    res
}

/// No character of `without_newlines(s)` is a line break.
pub proof fn lemma_without_newlines_has_none(s: Seq<char>)
    ensures
        !without_newlines(s).contains('\n'),
{
    if without_newlines(s).contains('\n') {
        let k = choose|k: int| 0 <= k < without_newlines(s).len() && without_newlines(s)[k] == '\n';
        s.lemma_filter_pred(|c: char| c != '\n', k);
    }
}

/// Whether `text` holds a line break.
pub fn contains_newline(text: &str) -> (res: bool)
    ensures
        res == text@.contains('\n'),
{
    for ch in it: text.chars()
        invariant
            it.seq() == text@,
            forall|j: int| 0 <= j < it.index() ==> text@[j] != '\n',
    {
        if ch == '\n' {
            assert(text@[it.index()] == '\n');
            return true;
        }
    }
    false
}

/// The editing commands for one event at a focused text field.
///
/// A single-line field never takes a line break, whichever way text arrives:
/// typed text holding one is refused, Enter does nothing, and pasted or
/// composed text has its line breaks removed (a paste with nothing left
/// does nothing).
pub fn text_event_commands(event: TextEvent, allow_newline: bool, overwrite_mode: bool, sel: SelectionState) -> (res: EditStep)
    ensures
        (res.commands@.map_values(|c: EditCommand| c@), res.toggle_overwrite) == event_commands(
            event,
            allow_newline,
            overwrite_mode,
            sel,
        ),
        !allow_newline ==> forall|i: int|
            0 <= i < res.commands@.len() ==> !inserts_newline(#[trigger] res.commands@[i]@),
{
    let ghost ev = event;
    let mut commands: Vec<EditCommand> = Vec::new();
    let mut toggle = false;
    match event {
        TextEvent::TextInput(text) => {
            if allow_newline || !contains_newline(text.as_str()) {
                if overwrite_mode && !sel.has_selection {
                    commands.push(EditCommand::DeleteForward);
                }
                commands.push(EditCommand::InsertText(text));
            }
        },
        TextEvent::KeyDown(k) => {
            let shift = k.modifiers.shift;
            let word = k.modifiers.ctrl || k.modifiers.alt;
            let shortcut = k.modifiers.ctrl || k.modifiers.meta;
            match k.code {
                KeyCode::Backspace => {
                    commands.push(if word { EditCommand::DeleteWordBackward } else { EditCommand::DeleteBackward });
                },
                KeyCode::Delete => {
                    commands.push(if word { EditCommand::DeleteWordForward } else { EditCommand::DeleteForward });
                },
                KeyCode::ArrowLeft => {
                    commands.push(
                        if word {
                            EditCommand::MoveWordLeft(shift)
                        } else if sel.non_empty && !shift {
                            EditCommand::CollapseToSelectionStart
                        } else {
                            EditCommand::MoveLeft(shift)
                        },
                    );
                },
                KeyCode::ArrowRight => {
                    commands.push(
                        if word {
                            EditCommand::MoveWordRight(shift)
                        } else if sel.non_empty && !shift {
                            EditCommand::CollapseToSelectionEnd
                        } else {
                            EditCommand::MoveRight(shift)
                        },
                    );
                },
                KeyCode::ArrowUp => {
                    commands.push(EditCommand::MoveToStart(shift));
                },
                KeyCode::ArrowDown => {
                    commands.push(EditCommand::MoveToEnd(shift));
                },
                KeyCode::Home => {
                    commands.push(
                        if k.modifiers.ctrl { EditCommand::MoveToStart(shift) } else { EditCommand::MoveToLineStart(shift) },
                    );
                },
                KeyCode::End => {
                    commands.push(
                        if k.modifiers.ctrl { EditCommand::MoveToEnd(shift) } else { EditCommand::MoveToLineEnd(shift) },
                    );
                },
                KeyCode::Enter => {
                    if allow_newline {
                        commands.push(EditCommand::InsertNewline);
                    }
                },
                KeyCode::Insert => {
                    toggle = true;
                },
                KeyCode::A => {
                    if shortcut {
                        commands.push(EditCommand::SelectAll);
                    }
                },
                KeyCode::C => {
                    if shortcut {
                        commands.push(EditCommand::CopySelection);
                    }
                },
                KeyCode::X => {
                    if shortcut {
                        commands.push(EditCommand::CutSelection);
                    }
                },
                KeyCode::Z => {
                    if shortcut {
                        commands.push(if shift { EditCommand::Redo } else { EditCommand::Undo });
                    }
                },
                KeyCode::Y => {
                    if shortcut {
                        commands.push(EditCommand::Redo);
                    }
                },
                _ => {},
            }
        },
        TextEvent::CompositionStart => {
            commands.push(EditCommand::BeginComposition);
        },
        TextEvent::CompositionUpdate(text) => {
            let text = if allow_newline { text } else { strip_newlines(text.as_str()) };
            commands.push(EditCommand::UpdateComposition(text));
        },
        TextEvent::CompositionEnd(text) => {
            let text = if allow_newline { text } else { strip_newlines(text.as_str()) };
            commands.push(EditCommand::EndComposition(text));
        },
        TextEvent::Paste(text) => {
            if allow_newline {
                commands.push(EditCommand::InsertText(text));
            } else {
                let kept = strip_newlines(text.as_str());
                if !kept.as_str().is_empty() {
                    commands.push(EditCommand::InsertText(kept));
                }
            }
        },
    }
    proof {
        assert(commands@.map_values(|c: EditCommand| c@) =~= event_commands(event, allow_newline, overwrite_mode, sel).0);
        match ev {
            TextEvent::CompositionUpdate(text) => lemma_without_newlines_has_none(text@),
            TextEvent::CompositionEnd(text) => lemma_without_newlines_has_none(text@),
            TextEvent::Paste(text) => lemma_without_newlines_has_none(text@),
            _ => {},
        }
        assert(forall|i: int| 0 <= i < commands@.len() ==> #[trigger] commands@[i]@ == commands@.map_values(|c: EditCommand| c@)[i]);
    }
    EditStep { commands, toggle_overwrite: toggle }
}

// ---------------------------------------------------------------------------
// Displayed content
// ---------------------------------------------------------------------------

/// What a text field shows: the placeholder while the text is empty, one
/// bullet (U+2022) per grapheme in a password field, the text otherwise.
pub open spec fn spec_display_text(text: Seq<char>, placeholder: Seq<char>, masked: bool) -> Seq<char> {
    if text.len() == 0 {
        placeholder
    } else if masked {
        Seq::new(grapheme_count_of(text), |i: int| '\u{2022}')
    } else {
        text
    }
}

/// The content a text field draws for its current text.
pub fn display_text(text: &str, placeholder: &str, masked: bool) -> (res: String)
    ensures
        res@ == spec_display_text(text@, placeholder@, masked),
{
    if text.is_empty() {
        return placeholder.to_owned();
    }
    if !masked {
        return text.to_owned();
    }
    let n = grapheme_count(text);
    let mut out = String::new();
    let mut i: usize = 0;
    while i < n
        invariant
            i <= n,
            out@ =~= Seq::new(i as nat, |j: int| '\u{2022}'),
        decreases n - i,
    {
        out.append("\u{2022}");
        proof {
            reveal_strlit("\u{2022}");
        }
        i = i + 1;
    }
    out
}

// ---------------------------------------------------------------------------
// Pointer selection
// ---------------------------------------------------------------------------

/// Click tracking of the UI: how many rapid clicks landed on the same field,
/// which field was clicked last, which field is being drag-selected, and
/// where the drag started.
#[derive(Clone, Copy, Debug, PartialEq, Eq, Structural)]
pub struct ClickState {
    /// 1 = single, 2 = double (select word), 3 or more = triple (select line).
    pub click_count: u8,
    pub last_click_id: Option<u64>,
    pub dragging: Option<u64>,
    pub selection_anchor: Option<usize>,
}

/// What a pointer event does to the field's buffer.
#[derive(Clone, Copy, Debug, PartialEq, Eq, Structural)]
pub enum SelectionAction {
    /// Place the caret at the grapheme index.
    SetCaret(usize),
    /// Select the word around the grapheme index.
    SelectWordAt(usize),
    /// Select the logical line around the grapheme index.
    SelectLineAt(usize),
    /// Select from the first index to the second.
    SetSelection(usize, usize),
}

/// The click count after a left press on field `id`: one more than before
/// (saturating) when the press follows the previous one on the same field
/// quickly enough, otherwise 1.
pub open spec fn next_click_count(state: ClickState, id: u64, within_time: bool) -> u8 {
    if state.last_click_id == Some(id) && within_time {
        if state.click_count < 255 { (state.click_count + 1) as u8 } else { 255u8 }
    } else {
        1u8
    }
}

/// A left press inside field `id`, over grapheme index `idx`.
///
/// `within_time` tells whether it came within the double-click interval of
/// the previous press.  A single click places the caret and starts a drag
/// anchored there; a double click selects the word, a triple (or longer)
/// click the line, and neither starts a drag.
pub fn pointer_down(state: &mut ClickState, id: u64, idx: usize, within_time: bool) -> (res: SelectionAction)
    ensures
        final(state).click_count == next_click_count(*old(state), id, within_time),
        final(state).last_click_id == Some(id),
        final(state).click_count == 1 ==> res == SelectionAction::SetCaret(idx) && final(state).dragging == Some(id)
            && final(state).selection_anchor == Some(idx),
        final(state).click_count == 2 ==> res == SelectionAction::SelectWordAt(idx) && final(state).dragging is None
            && final(state).selection_anchor is None,
        final(state).click_count >= 3 ==> res == SelectionAction::SelectLineAt(idx) && final(state).dragging is None
            && final(state).selection_anchor is None,
{
    let same_target = state.last_click_id == Some(id);
    if same_target && within_time {
        state.click_count = if state.click_count < 255 { state.click_count + 1 } else { 255 };
    } else {
        state.click_count = 1;
    }
    state.last_click_id = Some(id);
    if state.click_count == 1 {
        state.dragging = Some(id);
        state.selection_anchor = Some(idx);
        SelectionAction::SetCaret(idx)
    } else if state.click_count == 2 {
        state.dragging = None;
        state.selection_anchor = None;
        SelectionAction::SelectWordAt(idx)
    } else {
        state.dragging = None;
        state.selection_anchor = None;
        SelectionAction::SelectLineAt(idx)
    }
}

/// The pointer moved over grapheme index `idx` of field `id`, whose caret is
/// at `caret`: while the field is being dragged, the selection runs from the
/// drag anchor (or the caret, without one) to `idx`.
pub fn pointer_move(state: &ClickState, id: u64, idx: usize, caret: usize) -> (res: Option<SelectionAction>)
    ensures
        res == if state.dragging == Some(id) {
            Some(
                SelectionAction::SetSelection(
                    match state.selection_anchor {
                        Some(a) => a,
                        None => caret,
                    },
                    idx,
                ),
            )
        } else {
            None
        },
{
    if state.dragging == Some(id) {
        let start = match state.selection_anchor {
            Some(a) => a,
            None => caret,
        };
        Some(SelectionAction::SetSelection(start, idx))
    } else {
        None
    }
}

/// A button was released: releasing the left button ends a drag of field
/// `id`.
pub fn pointer_up(state: &mut ClickState, id: u64, left_button: bool)
    ensures
        (old(state).dragging == Some(id) && left_button) ==> final(state).dragging is None
            && final(state).selection_anchor is None && final(state).click_count == old(state).click_count
            && final(state).last_click_id == old(state).last_click_id,
        !(old(state).dragging == Some(id) && left_button) ==> *final(state) == *old(state),
{
    if state.dragging == Some(id) && left_button {
        state.dragging = None;
        state.selection_anchor = None;
    }
}

/// Three quick presses on the same field select its line: after a first
/// press (or any press on another field, or a slow one) the count is 1, and
/// each quick press on the same field adds one.
pub proof fn lemma_triple_click_selects_line(s0: ClickState, id: u64, other: Option<u64>)
    requires
        other != Some(id),
        s0.last_click_id == other,
    ensures
        ({
            let c1 = next_click_count(s0, id, true);
            let s1 = ClickState { click_count: c1, last_click_id: Some(id), ..s0 };
            let c2 = next_click_count(s1, id, true);
            let s2 = ClickState { click_count: c2, last_click_id: Some(id), ..s1 };
            let c3 = next_click_count(s2, id, true);
            c1 == 1 && c2 == 2 && c3 == 3
        }),
{
}

/// Backspace and Delete delete a whole word exactly when Ctrl or Alt is
/// held, and a single grapheme otherwise, whatever the field and the
/// selection; neither toggles overwrite mode.
pub proof fn lemma_deletion_keys(
    mods: Modifiers,
    allow_newline: bool,
    overwrite_mode: bool,
    sel: SelectionState,
)
    ensures
        event_commands(
            TextEvent::KeyDown(KeyPress { code: KeyCode::Delete, modifiers: mods }),
            allow_newline,
            overwrite_mode,
            sel,
        ) == if mods.ctrl || mods.alt {
            (seq![EditCommandView::DeleteWordForward], false)
        } else {
            (seq![EditCommandView::DeleteForward], false)
        },
        event_commands(
            TextEvent::KeyDown(KeyPress { code: KeyCode::Backspace, modifiers: mods }),
            allow_newline,
            overwrite_mode,
            sel,
        ) == if mods.ctrl || mods.alt {
            (seq![EditCommandView::DeleteWordBackward], false)
        } else {
            (seq![EditCommandView::DeleteBackward], false)
        },
{
}

/// A press that does not come within the double-click interval, or that
/// lands on another field than the previous press, always starts over at a
/// single click; a quick press on the same field adds one to the count
/// (stopping at 255).
pub proof fn lemma_slow_or_new_press_is_single_click(state: ClickState, id: u64, within_time: bool)
    ensures
        !within_time ==> next_click_count(state, id, within_time) == 1,
        state.last_click_id != Some(id) ==> next_click_count(state, id, within_time) == 1,
        (within_time && state.last_click_id == Some(id)) ==> next_click_count(state, id, within_time) as int == if state.click_count
            < 255 {
            state.click_count as int + 1
        } else {
            255
        },
{
}

} // verus!

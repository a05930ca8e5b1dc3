//! Decision logic of the immediate-mode widgets: accessibility roles, keyboard
//! focus cycling, the cycling select, radio groups and the dropdown.
//!
//! Hit testing (which rectangle a pointer event landed in) happens in the
//! host's geometry layer; these functions take its answers as booleans and
//! indices and decide what the widgets do.
use vstd::prelude::*;
use crate::input::{KeyCode, KeyPress};
use vstd::arithmetic::div_mod::{lemma_mod_self_0, lemma_small_mod};

verus! {

/// The kinds of widget the immediate-mode UI emits.
#[derive(Clone, Copy, Debug, PartialEq, Eq, Structural)]
pub enum WidgetKind {
    Label,
    Button,
    Checkbox,
    Radio,
    TextInput,
    Select,
    Group,
}

/// Accessibility roles of the nodes of the accessibility tree.
#[derive(Clone, Copy, Debug, PartialEq, Eq, Structural)]
pub enum A11yRole {
    Form,
    Label,
    Button,
    CheckBox,
    RadioButton,
    TextBox,
    ComboBox,
    Group,
}

/// The accessibility role that a widget of the given kind exposes.
pub fn widget_role(kind: WidgetKind) -> (res: A11yRole)
    ensures
        res == match kind {
            WidgetKind::Label => A11yRole::Label,
            WidgetKind::Button => A11yRole::Button,
            WidgetKind::Checkbox => A11yRole::CheckBox,
            WidgetKind::Radio => A11yRole::RadioButton,
            WidgetKind::TextInput => A11yRole::TextBox,
            WidgetKind::Select => A11yRole::ComboBox,
            WidgetKind::Group => A11yRole::Group,
        },
{
    match kind {
        WidgetKind::Label => A11yRole::Label,
        WidgetKind::Button => A11yRole::Button,
        WidgetKind::Checkbox => A11yRole::CheckBox,
        WidgetKind::Radio => A11yRole::RadioButton,
        WidgetKind::TextInput => A11yRole::TextBox,
        WidgetKind::Select => A11yRole::ComboBox,
        WidgetKind::Group => A11yRole::Group,
    }
}

/// The lower-case name the host uses for a widget kind.
pub fn widget_kind_str(kind: WidgetKind) -> (res: &'static str)
    ensures
        kind == WidgetKind::Label ==> res@ == "label"@,
        kind == WidgetKind::Button ==> res@ == "button"@,
        kind == WidgetKind::Checkbox ==> res@ == "checkbox"@,
        kind == WidgetKind::Radio ==> res@ == "radio"@,
        kind == WidgetKind::TextInput ==> res@ == "textinput"@,
        kind == WidgetKind::Select ==> res@ == "select"@,
        kind == WidgetKind::Group ==> res@ == "group"@,
{
    match kind {
        WidgetKind::Label => "label",
        WidgetKind::Button => "button",
        WidgetKind::Checkbox => "checkbox",
        WidgetKind::Radio => "radio",
        WidgetKind::TextInput => "textinput",
        WidgetKind::Select => "select",
        WidgetKind::Group => "group",
    }
}

// ---------------------------------------------------------------------------
// Pointer clicks
// ---------------------------------------------------------------------------

/// Which widget has keyboard focus, and which one a left press is holding.
#[derive(Clone, Copy, Debug, PartialEq, Eq, Structural)]
pub struct InteractionState {
    pub focused: Option<u64>,
    pub active: Option<u64>,
}

/// A clickable widget `id` during one frame.  `pressed` and `released` tell
/// whether a left press, and a left release, landed on it.
///
/// A press makes the widget active; a release that follows ends the press
/// (the widget is then no longer active) and completes a click, which
/// focuses the widget.  Returns whether the widget was clicked.
pub fn widget_click(state: &mut InteractionState, id: u64, pressed: bool, released: bool) -> (clicked: bool)
    ensures
        clicked == (pressed && released),
        final(state).active == if pressed && released {
            None
        } else if pressed {
            Some(id)
        } else {
            old(state).active
        },
        final(state).focused == if clicked { Some(id) } else { old(state).focused },
{
    if !pressed {
        return false;
    }
    state.active = Some(id);
    if !released {
        return false;
    }
    state.active = None;
    state.focused = Some(id);
    true
}

/// A checkbox `id` during one frame: a click flips its value and focuses it.
/// Returns whether the value changed.
pub fn checkbox_click(state: &mut InteractionState, id: u64, pressed: bool, released: bool, value: &mut bool) -> (changed: bool)
    ensures
        changed == (pressed && released),
        *final(value) == if changed { !*old(value) } else { *old(value) },
        final(state).focused == if changed { Some(id) } else { old(state).focused },
        final(state).active == if pressed && released {
            None
        } else if pressed {
            Some(id)
        } else {
            old(state).active
        },
{
    let clicked = widget_click(state, id, pressed, released);
    if clicked {
        *value = !*value;
    }
    clicked
}

// ---------------------------------------------------------------------------
// Keyboard focus
// ---------------------------------------------------------------------------

/// The first index at or after `i` whose id is the focused one, or the
/// length of `ids` when there is none.
pub open spec fn first_match_from(ids: Seq<u64>, focused: Option<u64>, i: int) -> int
    decreases ids.len() - i,
{
    if i >= ids.len() || i < 0 {
        ids.len() as int
    } else if Some(ids[i]) == focused {
        i
    } else {
        first_match_from(ids, focused, i + 1)
    }
}

/// The index focus moves from: the first widget with the focused id, or the
/// first widget when none has it.
pub open spec fn focus_start(ids: Seq<u64>, focused: Option<u64>) -> int {
    let p = first_match_from(ids, focused, 0);
    if p < ids.len() { p } else { 0 }
}

/// The index one step forward (Tab) or backward (Shift+Tab) from `idx`,
/// wrapping around at both ends.
pub open spec fn focus_step(idx: int, len: int, backward: bool) -> int {
    if backward {
        if idx == 0 { len - 1 } else { idx - 1 }
    } else {
        (idx + 1) % len
    }
}

/// The shift state of the last Tab press among `keys`, if any.
pub open spec fn last_tab(keys: Seq<KeyPress>) -> Option<bool>
    decreases keys.len(),
{
    if keys.len() == 0 {
        None
    } else if keys.last().code == KeyCode::Tab {
        Some(keys.last().modifiers.shift)
    } else {
        last_tab(keys.drop_last())
    }
}

/// Focus after a Tab (`backward == false`) or Shift+Tab press among widgets
/// `ids` laid out in that order.
pub open spec fn spec_focus_after_tab(ids: Seq<u64>, focused: Option<u64>, backward: bool) -> Option<u64> {
    if ids.len() == 0 {
        focused
    } else {
        Some(ids[focus_step(focus_start(ids, focused), ids.len() as int, backward)])
    }
}

/// Moves keyboard focus for the frame's key presses.
///
/// Only the last Tab press of the frame counts: with Shift it moves focus to
/// the previous widget, otherwise to the next one, wrapping around.  When no
/// widget has focus, the first widget counts as the starting point.  Without
/// a Tab press, or without widgets, focus stays where it is.
pub fn handle_keyboard_navigation(widget_ids: &[u64], focused: Option<u64>, keys: &[KeyPress]) -> (res: Option<u64>)
    ensures
        res == match last_tab(keys@) {
            None => focused,
            Some(backward) => spec_focus_after_tab(widget_ids@, focused, backward),
        },
{
    let mut tab_pressed: Option<bool> = None;
    let mut k: usize = 0;
    while k < keys.len()
        invariant
            k <= keys@.len(),
            tab_pressed == last_tab(keys@.take(k as int)),
        decreases keys@.len() - k,
    {
        proof {
            assert(keys@.take(k + 1).drop_last() =~= keys@.take(k as int));
        }
        if keys[k].code == KeyCode::Tab {
            tab_pressed = Some(keys[k].modifiers.shift);
        }
        k = k + 1;
    }
    proof {
        assert(keys@.take(keys@.len() as int) =~= keys@);
    }
    let shift = match tab_pressed {
        Some(value) => value,
        None => return focused,
    };
    focus_after_tab(widget_ids, focused, shift)
}

/// The index focus moves from (see [`focus_start`]).
fn focus_start_index(widget_ids: &[u64], focused: Option<u64>) -> (res: usize)
    requires
        widget_ids@.len() > 0,
    ensures
        res as int == focus_start(widget_ids@, focused),
        res < widget_ids@.len(),
{
    let n = widget_ids.len();
    let mut i: usize = 0;
    while i < n
        invariant
            n == widget_ids@.len(),
            i <= n,
            first_match_from(widget_ids@, focused, 0) == first_match_from(widget_ids@, focused, i as int),
        decreases n - i,
    {
        if Some(widget_ids[i]) == focused {
            return i;
        }
        i = i + 1;
    }
    0
}

/// Focus after one Tab (`shift == false`) or Shift+Tab press.
pub fn focus_after_tab(widget_ids: &[u64], focused: Option<u64>, shift: bool) -> (res: Option<u64>)
    ensures
        res == spec_focus_after_tab(widget_ids@, focused, shift),
{
    let n = widget_ids.len();
    if n == 0 {
        return focused;
    }
    let idx = focus_start_index(widget_ids, focused);
    let next = if shift {
        if idx == 0 { n - 1 } else { idx - 1 }
    } else {
        (idx + 1) % n
    };
    Some(widget_ids[next])
}

/// The widgets' ids are pairwise distinct.
pub open spec fn distinct_ids(ids: Seq<u64>) -> bool {
    forall|i: int, j: int| 0 <= i < ids.len() && 0 <= j < ids.len() && i != j ==> ids[i] != ids[j]
}

proof fn lemma_first_match_is(ids: Seq<u64>, k: int, i: int)
    requires
        distinct_ids(ids),
        0 <= i <= k < ids.len(),
    ensures
        first_match_from(ids, Some(ids[k]), i) == k,
    decreases k - i,
{
    if i < k {
        lemma_first_match_is(ids, k, i + 1);
    }
}

/// Tab then Shift+Tab (or Shift+Tab then Tab) gives focus back to the widget
/// that had it, when the widget ids are distinct.
pub proof fn lemma_tab_round_trip(ids: Seq<u64>, k: int, backward: bool)
    requires
        distinct_ids(ids),
        0 <= k < ids.len(),
    ensures
        spec_focus_after_tab(ids, spec_focus_after_tab(ids, Some(ids[k]), backward), !backward) == Some(ids[k]),
{
    let n = ids.len() as int;
    lemma_first_match_is(ids, k, 0);
    let k2 = focus_step(k, n, backward);
    assert(0 <= k2 < n);
    lemma_first_match_is(ids, k2, 0);
    if !backward {
        if k + 1 < n {
            lemma_small_mod((k + 1) as nat, n as nat);
        } else {
            lemma_mod_self_0(n);
        }
    } else {
        if k == 0 {
            lemma_mod_self_0(n);
        } else {
            lemma_small_mod(k as nat, n as nat);
        }
    }
}

/// With at least one widget, a Tab press always leaves focus on a widget.
pub proof fn lemma_tab_focuses_a_widget(ids: Seq<u64>, focused: Option<u64>, backward: bool)
    requires
        ids.len() > 0,
    ensures
        spec_focus_after_tab(ids, focused, backward) matches Some(id) && ids.contains(id),
{
    let n = ids.len() as int;
    let s = focus_start(ids, focused);
    assert(0 <= first_match_from(ids, focused, 0) <= n) by {
        lemma_first_match_range(ids, focused, 0);
    }
    let t = focus_step(s, n, backward);
    assert(0 <= t < n);
    assert(ids.contains(ids[t]));
}

proof fn lemma_first_match_range(ids: Seq<u64>, focused: Option<u64>, i: int)
    requires
        0 <= i,
    ensures
        0 <= first_match_from(ids, focused, i) <= ids.len(),
    decreases ids.len() - i,
{
    if i < ids.len() {
        lemma_first_match_range(ids, focused, i + 1);
    }
}

// ---------------------------------------------------------------------------
// Select (cycling) and radio groups
// ---------------------------------------------------------------------------

/// The index of the first option equal to `value`, if any.
pub open spec fn first_option(options: Seq<Seq<char>>, value: Seq<char>) -> Option<int> {
    if exists|i: int| 0 <= i < options.len() && options[i] == value {
        Some(choose|i: int| 0 <= i < options.len() && options[i] == value && forall|j: int| 0 <= j < i ==> options[j] != value)
    } else {
        None
    }
}

/// The views of a slice of strings.
pub open spec fn option_views(options: Seq<String>) -> Seq<Seq<char>> {
    options.map_values(|s: String| s@)
}

/// Finds the first option equal to `value`.
pub fn position_of(options: &[String], value: &String) -> (res: Option<usize>)
    ensures
        match res {
            Some(i) => i < options@.len() && options@[i as int]@ == value@ && forall|j: int|
                0 <= j < i ==> options@[j]@ != value@,
            None => forall|j: int| 0 <= j < options@.len() ==> options@[j]@ != value@,
        },
{
    let mut i: usize = 0;
    while i < options.len()
        invariant
            i <= options@.len(),
            forall|j: int| 0 <= j < i ==> options@[j]@ != value@,
        decreases options@.len() - i,
    {
        if options[i] == *value {
            return Some(i);
        }
        i = i + 1;
    }
    None
}

/// A click on the cycling select: the value moves to the option after the
/// first one equal to it, wrapping to the first option; a value that is not
/// among the options stays as it is.
pub fn select_on_click(options: &[String], value: &mut String)
    ensures
        match first_option(option_views(options@), old(value)@) {
            Some(p) => final(value)@ == options@[(p + 1) % (options@.len() as int)]@,
            None => final(value)@ == old(value)@,
        },
{
    let n = options.len();
    let found = position_of(options, value);
    proof {
        lemma_first_option(options@, old(value)@, found);
    }
    if let Some(pos) = found {
        let next = (pos + 1) % n;
        *value = options[next].clone();
    }
}

/// `position_of` finds exactly `first_option`.
proof fn lemma_first_option(options: Seq<String>, value: Seq<char>, found: Option<usize>)
    requires
        match found {
            Some(i) => i < options.len() && options[i as int]@ == value && forall|j: int|
                0 <= j < i ==> options[j]@ != value,
            None => forall|j: int| 0 <= j < options.len() ==> options[j]@ != value,
        },
    ensures
        first_option(option_views(options), value) == match found {
            Some(i) => Some(i as int),
            None => None::<int>,
        },
{
    let views = option_views(options);
    assert(views.len() == options.len());
    match found {
        Some(i) => {
            assert(views[i as int] == value);
            let c = choose|c: int| 0 <= c < views.len() && views[c] == value && forall|j: int| 0 <= j < c ==> views[j] != value;
            assert(0 <= c < views.len() && views[c] == value && forall|j: int| 0 <= j < c ==> views[j] != value);
            if c < i {
                assert(options[c]@ != value);
            }
            if c > i {
                assert(views[i as int] != value);
            }
        },
        None => {
            assert(forall|j: int| 0 <= j < views.len() ==> views[j] != value);
        },
    }
}

/// Radio group: the option clicked last in the frame becomes the selected one.
/// `clicked[i]` tells whether option `i` was pressed and released.  Returns
/// whether any option was clicked.
pub fn radio_group_select(clicked: &[bool], selected: &mut usize) -> (changed: bool)
    ensures
        changed == exists|i: int| 0 <= i < clicked@.len() && clicked@[i],
        changed ==> {
            &&& final(selected) < clicked@.len()
            &&& clicked@[*final(selected) as int]
            &&& forall|j: int| *final(selected) < j < clicked@.len() ==> !clicked@[j]
        },
        !changed ==> *final(selected) == *old(selected),
{
    let mut changed = false;
    let mut idx: usize = 0;
    while idx < clicked.len()
        invariant
            idx <= clicked@.len(),
            changed == exists|i: int| 0 <= i < idx && clicked@[i],
            changed ==> *selected < idx && clicked@[*selected as int] && forall|j: int|
                *selected < j < idx ==> !clicked@[j],
            !changed ==> *selected == *old(selected),
        decreases clicked@.len() - idx,
    {
        if clicked[idx] {
            *selected = idx;
            changed = true;
        }
        idx = idx + 1;
    }
    changed
}

// ---------------------------------------------------------------------------
// Dropdown
// ---------------------------------------------------------------------------

/// State of the UI's one dropdown: which dropdown is open, and which option is
/// highlighted in its list.
#[derive(Clone, Copy, Debug, PartialEq, Eq, Structural)]
pub struct DropdownState {
    pub open: Option<u64>,
    pub selected: usize,
}

/// What happened to a dropdown during one frame, as the hit tests saw it.
pub struct DropdownInput {
    /// The dropdown's face was pressed and released.
    pub clicked: bool,
    /// Keys pressed during the frame, in order.
    pub keys: Vec<KeyCode>,
    /// A left button went down outside both the face and the option list.
    pub pressed_outside: bool,
    /// The last option of the list that was pressed and released, if any.
    pub clicked_option: Option<usize>,
}

/// The highlighted option after one key press in an open list of `len`
/// options.
pub open spec fn key_move(selected: int, len: int, key: KeyCode) -> int {
    match key {
        KeyCode::ArrowDown => if selected + 1 < len { selected + 1 } else { selected },
        KeyCode::ArrowUp => if selected > 0 { selected - 1 } else { selected },
        _ => selected,
    }
}

/// The highlighted option after the keys.
pub open spec fn keys_selected(keys: Seq<KeyCode>, selected: int, len: int) -> int
    decreases keys.len(),
{
    if keys.len() == 0 {
        selected
    } else {
        key_move(keys_selected(keys.drop_last(), selected, len), len, keys.last())
    }
}

/// Every Enter among the keys finds the highlight on an existing option.
pub open spec fn keys_commit_safe(keys: Seq<KeyCode>, selected: int, len: int) -> bool
    decreases keys.len(),
{
    if keys.len() == 0 {
        true
    } else {
        keys_commit_safe(keys.drop_last(), selected, len) && (keys.last() == KeyCode::Enter ==> 0
            <= keys_selected(keys.drop_last(), selected, len) < len)
    }
}

/// The option committed by the last Enter among the keys, if any.
pub open spec fn keys_commit(keys: Seq<KeyCode>, selected: int, len: int) -> Option<int>
    decreases keys.len(),
{
    if keys.len() == 0 {
        None
    } else if keys.last() == KeyCode::Enter {
        Some(keys_selected(keys.drop_last(), selected, len))
    } else {
        keys_commit(keys.drop_last(), selected, len)
    }
}

/// Some key among `keys` closes the list (Enter or Escape).
pub open spec fn keys_close(keys: Seq<KeyCode>) -> bool {
    exists|i: int| 0 <= i < keys.len() && (keys[i] == KeyCode::Enter || keys[i] == KeyCode::Escape)
}

/// The dropdown was open when the frame began.
pub open spec fn was_open(state: DropdownState, id: u64) -> bool {
    state.open == Some(id)
}

/// The keyboard is handled: the list was open at the start of the frame and
/// the dropdown has focus once clicks are accounted for.
pub open spec fn keys_handled(state: DropdownState, focused: Option<u64>, id: u64, clicked: bool) -> bool {
    was_open(state, id) && (clicked || focused == Some(id))
}

/// The highlight after a click: opening the list highlights the current
/// value's option (or the first option); closing it leaves the highlight.
pub open spec fn selected_after_click(
    state: DropdownState,
    id: u64,
    clicked: bool,
    options: Seq<Seq<char>>,
    value: Seq<char>,
) -> int {
    if clicked && !was_open(state, id) {
        match first_option(options, value) {
            Some(p) => p,
            None => 0,
        }
    } else {
        state.selected as int
    }
}

/// One frame of a dropdown widget.
///
/// In this order: a click on the face toggles the list (opening it highlights
/// the option equal to the current value, or the first one) and focuses the
/// dropdown; if the list was open when the frame began and the dropdown has
/// focus, ArrowDown/ArrowUp move the highlight within the options, Enter
/// commits the highlighted option and closes the list, Escape closes it; if
/// the list was open, a left press outside the face and the list closes it;
/// finally, if the list is still open, a clicked option becomes the value and
/// closes the list.  Returns `true` when the value changed.
pub fn dropdown_frame(
    state: &mut DropdownState,
    focused: &mut Option<u64>,
    id: u64,
    options: &[String],
    value: &mut String,
    input: &DropdownInput,
) -> (changed: bool)
    requires
        keys_handled(*old(state), *old(focused), id, input.clicked) ==> keys_commit_safe(
            input.keys@,
            selected_after_click(*old(state), id, input.clicked, option_views(options@), old(value)@),
            options@.len() as int,
        ),
        input.clicked_option matches Some(i) ==> i < options@.len(),
    ensures
        ({
            let opts = option_views(options@);
            let len = options@.len() as int;
            let sel0 = selected_after_click(*old(state), id, input.clicked, opts, old(value)@);
            let handled = keys_handled(*old(state), *old(focused), id, input.clicked);
            let sel = if handled { keys_selected(input.keys@, sel0, len) } else { sel0 };
            let commit = if handled { keys_commit(input.keys@, sel0, len) } else { None };
            let open1 = if input.clicked {
                if was_open(*old(state), id) { None } else { Some(id) }
            } else {
                old(state).open
            };
            let open2 = if handled && keys_close(input.keys@) { None } else { open1 };
            let open3 = if was_open(*old(state), id) && input.pressed_outside { None } else { open2 };
            let picked = if open3 == Some(id) { input.clicked_option } else { None };
            &&& final(state).selected == sel
            &&& *final(focused) == if input.clicked { Some(id) } else { *old(focused) }
            &&& changed == (final(value)@ != old(value)@)
            &&& final(value)@ == match picked {
                Some(i) => options@[i as int]@,
                None => match commit {
                    Some(c) => options@[c]@,
                    None => old(value)@,
                },
            }
            &&& final(state).open == if picked is Some { None } else { open3 }
        }),
{
    let ghost len = options@.len() as int;
    let initial = value.clone();
    let is_open = state.open == Some(id);
    if input.clicked {
        if is_open {
            state.open = None;
        } else {
            state.open = Some(id);
            let found = position_of(options, value);
            proof {
                lemma_first_option(options@, value@, found);
            }
            state.selected = match found {
                Some(p) => p,
                None => 0,
            };
        }
        *focused = Some(id);
    }
    let ghost sel0 = state.selected as int;
    let ghost open1 = state.open;
    let ghost value0 = value@;
    let handled = is_open && *focused == Some(id);
    if handled {
        let keys = &input.keys;
        let mut k: usize = 0;
        while k < keys.len()
            invariant
                k <= keys@.len(),
                keys@ == input.keys@,
                0 <= sel0,
                keys_commit_safe(keys@, sel0, len),
                len == options@.len(),
                state.selected as int == keys_selected(keys@.take(k as int), sel0, len),
                value@ == match keys_commit(keys@.take(k as int), sel0, len) {
                    Some(c) => options@[c]@,
                    None => value0,
                },
                state.open == if keys_close(keys@.take(k as int)) { None } else { open1 },
            decreases keys@.len() - k,
        {
            proof {
                assert(keys@.take(k + 1).drop_last() =~= keys@.take(k as int));
                assert(keys@.take(k + 1).last() == keys@[k as int]);
                lemma_commit_safe_prefix(keys@, sel0, len, k + 1);
                lemma_keys_selected_nonneg(keys@.take(k as int), sel0, len);
            }
            match keys[k] {
                KeyCode::ArrowDown => {
                    if state.selected < options.len() && state.selected + 1 < options.len() {
                        state.selected = state.selected + 1;
                    }
                },
                KeyCode::ArrowUp => {
                    if state.selected > 0 {
                        state.selected = state.selected - 1;
                    }
                },
                KeyCode::Enter => {
                    *value = options[state.selected].clone();
                    state.open = None;
                },
                KeyCode::Escape => {
                    state.open = None;
                },
                _ => {},
            }
            proof {
                lemma_keys_close_push(keys@.take(k as int), keys@[k as int]);
                assert(keys@.take(k + 1) =~= keys@.take(k as int).push(keys@[k as int]));
            }
            k = k + 1;
        }
        proof {
            assert(keys@.take(keys@.len() as int) =~= keys@);
        }
    }
    if is_open && input.pressed_outside {
        state.open = None;
    }
    if state.open == Some(id) {
        if let Some(i) = input.clicked_option {
            *value = options[i].clone();
            state.open = None;
        }
    }
    !(*value == initial)
}

proof fn lemma_keys_selected_nonneg(keys: Seq<KeyCode>, selected: int, len: int)
    requires
        0 <= selected,
    ensures
        0 <= keys_selected(keys, selected, len),
    decreases keys.len(),
{
    if keys.len() > 0 {
        lemma_keys_selected_nonneg(keys.drop_last(), selected, len);
    }
}

proof fn lemma_commit_safe_prefix(keys: Seq<KeyCode>, selected: int, len: int, n: int)
    requires
        keys_commit_safe(keys, selected, len),
        0 <= n <= keys.len(),
    ensures
        keys_commit_safe(keys.take(n), selected, len),
    decreases keys.len() - n,
{
    if n < keys.len() {
        lemma_commit_safe_prefix(keys, selected, len, n + 1);
        assert(keys.take(n + 1).drop_last() =~= keys.take(n));
    } else {
        assert(keys.take(n) =~= keys);
    }
}

proof fn lemma_keys_close_push(keys: Seq<KeyCode>, k: KeyCode)
    ensures
        keys_close(keys.push(k)) == (keys_close(keys) || k == KeyCode::Enter || k == KeyCode::Escape),
{
    let p = keys.push(k);
    if keys_close(keys) {
        let i = choose|i: int| 0 <= i < keys.len() && (keys[i] == KeyCode::Enter || keys[i] == KeyCode::Escape);
        assert(p[i] == keys[i]);
    }
    if k == KeyCode::Enter || k == KeyCode::Escape {
        assert(p[keys.len() as int] == k);
    }
    if keys_close(p) {
        let i = choose|i: int| 0 <= i < p.len() && (p[i] == KeyCode::Enter || p[i] == KeyCode::Escape);
        if i < keys.len() {
            assert(keys[i] == p[i]);
        }
    }
}

/// In an open list of `len` options, ArrowUp moves the highlight from any
/// option but the first to the one above it, ArrowDown from any option but
/// the last to the one below it, and at the ends the highlight stays put;
/// other keys leave it alone.  So the keyboard reaches every option, and the
/// highlight never leaves the list.
pub proof fn lemma_arrow_keys_step_the_highlight(s: int, len: int, key: KeyCode)
    requires
        0 <= s < len,
    ensures
        s > 0 ==> key_move(s, len, KeyCode::ArrowUp) == s - 1,
        s == 0 ==> key_move(s, len, KeyCode::ArrowUp) == 0,
        s + 1 < len ==> key_move(s, len, KeyCode::ArrowDown) == s + 1,
        s + 1 == len ==> key_move(s, len, KeyCode::ArrowDown) == s,
        key != KeyCode::ArrowUp && key != KeyCode::ArrowDown ==> key_move(s, len, key) == s,
        0 <= key_move(s, len, key) < len,
        keys_selected(seq![KeyCode::ArrowUp], s, len) == if s > 0 { s - 1 } else { s },
        keys_selected(seq![KeyCode::ArrowDown], s, len) == if s + 1 < len { s + 1 } else { s },
{
    let up = seq![KeyCode::ArrowUp];
    let down = seq![KeyCode::ArrowDown];
    assert(up.drop_last() =~= Seq::<KeyCode>::empty());
    assert(down.drop_last() =~= Seq::<KeyCode>::empty());
    assert(keys_selected(Seq::<KeyCode>::empty(), s, len) == s);
    assert(up.last() == KeyCode::ArrowUp);
    assert(down.last() == KeyCode::ArrowDown);
    assert(keys_selected(up, s, len) == key_move(s, len, KeyCode::ArrowUp));
    assert(keys_selected(down, s, len) == key_move(s, len, KeyCode::ArrowDown));
}

/// From any option, `t` presses of ArrowUp (or ArrowDown) reach the option
/// `t` places above (or below) it, as long as that option exists.
pub proof fn lemma_arrow_presses_reach(s: int, len: int, t: nat)
    requires
        0 <= s < len,
    ensures
        s - t >= 0 ==> keys_selected(Seq::new(t, |i: int| KeyCode::ArrowUp), s, len) == s - t,
        s + t < len ==> keys_selected(Seq::new(t, |i: int| KeyCode::ArrowDown), s, len) == s + t,
    decreases t,
{
    if t > 0 {
        lemma_arrow_presses_reach(s, len, (t - 1) as nat);
        assert(Seq::new(t, |i: int| KeyCode::ArrowUp).drop_last() =~= Seq::new((t - 1) as nat, |i: int| KeyCode::ArrowUp));
        assert(Seq::new(t, |i: int| KeyCode::ArrowDown).drop_last() =~= Seq::new((t - 1) as nat, |i: int| KeyCode::ArrowDown));
    }
}

/// With distinct ids and widget `k` focused, Tab moves focus to the next
/// widget (from the last, back to the first) and Shift+Tab to the previous
/// one (from the first, on to the last).
pub proof fn lemma_tab_moves_to_neighbour(ids: Seq<u64>, k: int)
    requires
        distinct_ids(ids),
        0 <= k < ids.len(),
    ensures
        spec_focus_after_tab(ids, Some(ids[k]), false) == Some(
            ids[if k + 1 < ids.len() { k + 1 } else { 0 }],
        ),
        spec_focus_after_tab(ids, Some(ids[k]), true) == Some(ids[if k > 0 { k - 1 } else { ids.len() - 1 }]),
{
    let n = ids.len() as int;
    lemma_first_match_is(ids, k, 0);
    if k + 1 < n {
        lemma_small_mod((k + 1) as nat, n as nat);
    } else {
        lemma_mod_self_0(n);
    }
}

/// In an open list, Enter commits the highlighted option, and Enter or
/// Escape closes the list while the arrow keys leave it open.
pub proof fn lemma_enter_and_escape(s: int, len: int)
    ensures
        keys_commit(seq![KeyCode::Enter], s, len) == Some(s),
        keys_commit(seq![KeyCode::Escape], s, len) is None,
        keys_commit(seq![KeyCode::ArrowUp], s, len) is None,
        keys_close(seq![KeyCode::Enter]),
        keys_close(seq![KeyCode::Escape]),
        !keys_close(seq![KeyCode::ArrowUp]),
        !keys_close(seq![KeyCode::ArrowDown]),
{
    let e = seq![KeyCode::Enter];
    let x = seq![KeyCode::Escape];
    let u = seq![KeyCode::ArrowUp];
    let d = seq![KeyCode::ArrowDown];
    assert(e.drop_last() =~= Seq::<KeyCode>::empty());
    assert(x.drop_last() =~= Seq::<KeyCode>::empty());
    assert(u.drop_last() =~= Seq::<KeyCode>::empty());
    assert(keys_selected(Seq::<KeyCode>::empty(), s, len) == s);
    assert(keys_commit(Seq::<KeyCode>::empty(), s, len) is None);
    assert(e[0] == KeyCode::Enter);
    assert(x[0] == KeyCode::Escape);
    assert(u[0] == KeyCode::ArrowUp);
    assert(d[0] == KeyCode::ArrowDown);
}

/// Among distinct options, the option equal to the value is the one found,
/// so a click on the cycling select moves the value from option `p` to
/// option `p + 1`, wrapping from the last to the first.
pub proof fn lemma_select_finds_the_value(options: Seq<Seq<char>>, p: int)
    requires
        0 <= p < options.len(),
        forall|i: int, j: int| 0 <= i < options.len() && 0 <= j < options.len() && i != j ==> options[i] != options[j],
    ensures
        first_option(options, options[p]) == Some(p),
{
    let c = choose|c: int|
        0 <= c < options.len() && options[c] == options[p] && forall|j: int| 0 <= j < c ==> options[j] != options[p];
    assert(0 <= c < options.len() && options[c] == options[p] && forall|j: int| 0 <= j < c ==> options[j] != options[p]);
    assert(c == p);
}

} // verus!

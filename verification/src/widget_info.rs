//! The records that widgets leave for the accessibility tree.
//!
//! Each frame, every widget reports its id, kind, label, value text and
//! state flags; the host adds the widget's rectangle and builds the
//! accessibility tree from the records in order.  The functions here run a
//! widget's frame step and produce its record, at the point of the step at
//! which the widget reads its state.
use vstd::prelude::*;
use crate::widgets::{
    checkbox_click, first_option, option_views, select_on_click, widget_click, DropdownState,
    InteractionState, WidgetKind,
};

verus! {

/// Accessibility state flags of a widget.
#[derive(Clone, Copy, Debug, PartialEq, Eq, Structural)]
pub struct A11yState {
    pub focused: bool,
    pub disabled: bool,
    pub invalid: bool,
    pub required: bool,
    pub expanded: bool,
    pub selected: bool,
}

/// The flags of an enabled, valid, optional widget.
pub open spec fn plain_state(focused: bool, expanded: bool, selected: bool) -> A11yState {
    A11yState { focused, disabled: false, invalid: false, required: false, expanded, selected }
}

fn make_state(focused: bool, expanded: bool, selected: bool) -> (res: A11yState)
    ensures
        res == plain_state(focused, expanded, selected),
{
    A11yState { focused, disabled: false, invalid: false, required: false, expanded, selected }
}

/// What a widget reports for the accessibility tree (its rectangle is the
/// host's).
#[derive(Clone, Debug)]
pub struct WidgetInfo {
    pub id: u64,
    pub kind: WidgetKind,
    pub label: String,
    pub value: Option<String>,
    pub state: A11yState,
}

/// A record by value: (id, kind, label, value, state).
pub open spec fn info_view(w: WidgetInfo) -> (u64, WidgetKind, Seq<char>, Option<Seq<char>>, A11yState) {
    (
        w.id,
        w.kind,
        w.label@,
        match w.value {
            Some(v) => Some(v@),
            None => None,
        },
        w.state,
    )
}

/// The record of a non-interactive text label.
pub fn label_info(id: u64, text: &str) -> (res: WidgetInfo)
    ensures
        info_view(res) == (id, WidgetKind::Label, text@, None::<Seq<char>>, plain_state(false, false, false)),
{
    WidgetInfo { id, kind: WidgetKind::Label, label: text.to_owned(), value: None, state: make_state(false, false, false) }
}

/// One frame of a button: the click as `widget_click` decides it, and the
/// button's record, whose focus flag is read before the click moves focus.
pub fn button_widget(state: &mut InteractionState, id: u64, label: &str, pressed: bool, released: bool) -> (res: (
    bool,
    WidgetInfo,
))
    ensures
        res.0 == (pressed && released),
        final(state).active == if pressed && released {
            None
        } else if pressed {
            Some(id)
        } else {
            old(state).active
        },
        final(state).focused == if res.0 { Some(id) } else { old(state).focused },
        info_view(res.1) == (
            id,
            WidgetKind::Button,
            label@,
            None::<Seq<char>>,
            plain_state(old(state).focused == Some(id), false, false),
        ),
{
    let focused = state.focused == Some(id);
    let info = WidgetInfo {
        id,
        kind: WidgetKind::Button,
        label: label.to_owned(),
        value: None,
        state: make_state(focused, false, false),
    };
    let clicked = widget_click(state, id, pressed, released);
    (clicked, info)
}

/// The value text of a checkbox.
pub open spec fn bool_text(b: bool) -> Seq<char> {
    if b {
        "true"@
    } else {
        "false"@
    }
}

/// One frame of a checkbox: a click flips the value and focuses it; the
/// record, made after the click, holds the value as `"true"` or `"false"`
/// and is selected exactly when the value is `true`.
pub fn checkbox_widget(
    state: &mut InteractionState,
    id: u64,
    label: &str,
    pressed: bool,
    released: bool,
    value: &mut bool,
) -> (res: (bool, WidgetInfo))
    ensures
        res.0 == (pressed && released),
        *final(value) == if res.0 { !*old(value) } else { *old(value) },
        final(state).focused == if res.0 { Some(id) } else { old(state).focused },
        final(state).active == if pressed && released {
            None
        } else if pressed {
            Some(id)
        } else {
            old(state).active
        },
        info_view(res.1) == (
            id,
            WidgetKind::Checkbox,
            label@,
            Some(bool_text(*final(value))),
            plain_state(final(state).focused == Some(id), false, *final(value)),
        ),
{
    let changed = checkbox_click(state, id, pressed, released, value);
    let text = if *value { "true".to_owned() } else { "false".to_owned() };
    let info = WidgetInfo {
        id,
        kind: WidgetKind::Checkbox,
        label: label.to_owned(),
        value: Some(text),
        state: make_state(state.focused == Some(id), false, *value),
    };
    (changed, info)
}

/// One frame of the cycling select: a click moves the value to the next
/// option (see `select_on_click`) and focuses the select; the record holds
/// the value after the click.
pub fn select_widget(
    state: &mut InteractionState,
    id: u64,
    label: &str,
    options: &[String],
    value: &mut String,
    pressed: bool,
    released: bool,
) -> (res: (bool, WidgetInfo))
    ensures
        res.0 == (pressed && released),
        final(state).focused == if res.0 { Some(id) } else { old(state).focused },
        final(state).active == if pressed && released {
            None
        } else if pressed {
            Some(id)
        } else {
            old(state).active
        },
        final(value)@ == if res.0 {
            match first_option(option_views(options@), old(value)@) {
                Some(p) => options@[(p + 1) % (options@.len() as int)]@,
                None => old(value)@,
            }
        } else {
            old(value)@
        },
        info_view(res.1) == (
            id,
            WidgetKind::Select,
            label@,
            Some(final(value)@),
            plain_state(final(state).focused == Some(id), false, true),
        ),
{
    let clicked = widget_click(state, id, pressed, released);
    if clicked {
        select_on_click(options, value);
    }
    let info = WidgetInfo {
        id,
        kind: WidgetKind::Select,
        label: label.to_owned(),
        value: Some(value.clone()),
        state: make_state(state.focused == Some(id), false, true),
    };
    (clicked, info)
}

/// The record of a dropdown once its frame (`dropdown_frame`) has run: the
/// current value, focused and expanded as the frame left them.
pub fn dropdown_info(dropdown: &DropdownState, focused: Option<u64>, id: u64, label: &str, value: &String) -> (res:
    WidgetInfo)
    ensures
        info_view(res) == (
            id,
            WidgetKind::Select,
            label@,
            Some(value@),
            plain_state(focused == Some(id), dropdown.open == Some(id), true),
        ),
{
    WidgetInfo {
        id,
        kind: WidgetKind::Select,
        label: label.to_owned(),
        value: Some(value.clone()),
        state: make_state(focused == Some(id), dropdown.open == Some(id), true),
    }
}

/// The record of a text field once its events are applied: the text it
/// holds, focused as the frame left it.
pub fn text_input_info(state: &InteractionState, id: u64, label: &str, text: &str) -> (res: WidgetInfo)
    ensures
        info_view(res) == (
            id,
            WidgetKind::TextInput,
            label@,
            Some(text@),
            plain_state(state.focused == Some(id), false, false),
        ),
{
    WidgetInfo {
        id,
        kind: WidgetKind::TextInput,
        label: label.to_owned(),
        value: Some(text.to_owned()),
        state: make_state(state.focused == Some(id), false, false),
    }
}

// ---------------------------------------------------------------------------
// Radio groups
// ---------------------------------------------------------------------------

/// The last of the first `n` options that was pressed and released.
pub open spec fn last_click(pressed: Seq<bool>, released: Seq<bool>, n: int) -> Option<int>
    decreases n,
{
    if n <= 0 {
        None
    } else if pressed[n - 1] && released[n - 1] {
        Some(n - 1)
    } else {
        last_click(pressed, released, n - 1)
    }
}

/// The last of the first `n` options that was pressed.
pub open spec fn last_press(pressed: Seq<bool>, n: int) -> Option<int>
    decreases n,
{
    if n <= 0 {
        None
    } else if pressed[n - 1] {
        Some(n - 1)
    } else {
        last_press(pressed, n - 1)
    }
}

/// The selected option once the first `n` options have been handled.
pub open spec fn radio_selected(pressed: Seq<bool>, released: Seq<bool>, n: int, selected: int) -> int {
    match last_click(pressed, released, n) {
        Some(j) => j,
        None => selected,
    }
}

/// The focused widget once the first `n` options have been handled.
pub open spec fn radio_focused(
    ids: Seq<u64>,
    pressed: Seq<bool>,
    released: Seq<bool>,
    n: int,
    focused: Option<u64>,
) -> Option<u64> {
    match last_click(pressed, released, n) {
        Some(j) => Some(ids[j]),
        None => focused,
    }
}

/// The active widget once the first `n` options have been handled.
pub open spec fn radio_active(
    ids: Seq<u64>,
    pressed: Seq<bool>,
    released: Seq<bool>,
    n: int,
    active: Option<u64>,
) -> Option<u64> {
    match last_press(pressed, n) {
        Some(j) => if released[j] { None } else { Some(ids[j]) },
        None => active,
    }
}

/// One frame of a radio group, option by option: option `i` (widget
/// `ids[i]`) is clicked when `pressed[i]` and `released[i]`; a click selects
/// it and focuses it.  Each option leaves a record, made right after its own
/// click is handled, labelled and valued with the option's text, selected
/// when it is the selected option at that point.  Returns whether any option
/// was clicked, and the records in order.
pub fn radio_group_widgets(
    state: &mut InteractionState,
    ids: &[u64],
    options: &[String],
    pressed: &[bool],
    released: &[bool],
    selected: &mut usize,
) -> (res: (bool, Vec<WidgetInfo>))
    requires
        ids@.len() == options@.len(),
        pressed@.len() == options@.len(),
        released@.len() == options@.len(),
    ensures
        ({
            let n = options@.len() as int;
            &&& res.0 == last_click(pressed@, released@, n) is Some
            &&& *final(selected) as int == radio_selected(pressed@, released@, n, *old(selected) as int)
            &&& final(state).focused == radio_focused(ids@, pressed@, released@, n, old(state).focused)
            &&& final(state).active == radio_active(ids@, pressed@, released@, n, old(state).active)
            &&& res.1@.len() == n
        }),
        forall|i: int|
            0 <= i < options@.len() ==> #[trigger] info_view(res.1@[i]) == (
                ids@[i],
                WidgetKind::Radio,
                options@[i]@,
                Some(options@[i]@),
                plain_state(
                    radio_focused(ids@, pressed@, released@, i + 1, old(state).focused) == Some(ids@[i]),
                    false,
                    radio_selected(pressed@, released@, i + 1, *old(selected) as int) == i,
                ),
            ),
{
    let ghost s0 = *old(state);
    let ghost sel0 = *old(selected) as int;
    let mut changed = false;
    let mut records: Vec<WidgetInfo> = Vec::new();
    let mut i: usize = 0;
    while i < options.len()
        invariant
            i <= options@.len(),
            ids@.len() == options@.len(),
            pressed@.len() == options@.len(),
            released@.len() == options@.len(),
            changed == last_click(pressed@, released@, i as int) is Some,
            *selected as int == radio_selected(pressed@, released@, i as int, sel0),
            state.focused == radio_focused(ids@, pressed@, released@, i as int, s0.focused),
            state.active == radio_active(ids@, pressed@, released@, i as int, s0.active),
            records@.len() == i,
            forall|k: int|
                0 <= k < i ==> #[trigger] info_view(records@[k]) == (
                    ids@[k],
                    WidgetKind::Radio,
                    options@[k]@,
                    Some(options@[k]@),
                    plain_state(
                        radio_focused(ids@, pressed@, released@, k + 1, s0.focused) == Some(ids@[k]),
                        false,
                        radio_selected(pressed@, released@, k + 1, sel0) == k,
                    ),
                ),
        decreases options@.len() - i,
    {
        let id = ids[i];
        let clicked = widget_click(state, id, pressed[i], released[i]);
        if clicked {
            *selected = i;
            changed = true;
        }
        let info = WidgetInfo {
            id,
            kind: WidgetKind::Radio,
            label: options[i].clone(),
            value: Some(options[i].clone()),
            state: make_state(state.focused == Some(id), false, *selected == i),
        };
        let ghost before = records@;
        records.push(info);
        proof {
            assert forall|k: int| 0 <= k < i + 1 implies #[trigger] info_view(records@[k]) == (
                ids@[k],
                WidgetKind::Radio,
                options@[k]@,
                Some(options@[k]@),
                plain_state(
                    radio_focused(ids@, pressed@, released@, k + 1, s0.focused) == Some(ids@[k]),
                    false,
                    radio_selected(pressed@, released@, k + 1, sel0) == k,
                ),
            ) by {
                if k < i {
                    assert(records@[k] == before[k]);
                }
            }
        }
        i = i + 1;
    }
    (changed, records)
}

/// The option a radio group ends on is the last one clicked: it was
/// pressed and released, no later option was; and when no option was
/// clicked there is none.
pub proof fn lemma_last_click_is_last_clicked(pressed: Seq<bool>, released: Seq<bool>, n: int)
    requires
        0 <= n <= pressed.len(),
        n <= released.len(),
    ensures
        last_click(pressed, released, n) matches Some(j) ==> {
            &&& 0 <= j < n
            &&& pressed[j] && released[j]
            &&& forall|k: int| j < k < n ==> !(pressed[k] && released[k])
        },
        last_click(pressed, released, n) is None <==> forall|k: int| 0 <= k < n ==> !(pressed[k] && released[k]),
    decreases n,
{
    if n > 0 {
        lemma_last_click_is_last_clicked(pressed, released, n - 1);
    }
}

} // verus!

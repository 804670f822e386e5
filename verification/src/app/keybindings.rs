//! Keyboard shortcuts that can be changed in the configuration.

use vstd::prelude::*;
use vstd::string::*;
use crate::text::{
    all_ascii, chars_of, clone_texts, decimal, lower_ascii, split, split_at_char, text_eq, texts,
    to_lowercase, trim, trimmed, unicode_lower,
};

verus! {

/// What a key can do.
#[derive(Debug, Clone, Copy, PartialEq, Eq, Hash, Structural)]
pub enum KeyAction {
    MoveUp,
    MoveDown,
    MoveToTop,
    MoveToBottom,
    PageUp,
    PageDown,
    FocusNextPane,
    FocusPrevPane,
    FocusLeft,
    FocusRight,
    SelectItem,
    ToggleSelection,
    SelectAll,
    DeselectAll,
    AddDownload,
    DeleteDownload,
    ToggleDownload,
    RetryDownload,
    ResumeAll,
    PauseAll,
    OpenContextMenu,
    EditItem,
    ToggleDetails,
    OpenSearch,
    OpenHelp,
    OpenSettings,
    SwitchFolder,
    Quit,
    Undo,
    Refresh,
}

/// All actions.
pub open spec fn all_actions() -> Seq<KeyAction> {
    seq![
        KeyAction::MoveUp,
        KeyAction::MoveDown,
        KeyAction::MoveToTop,
        KeyAction::MoveToBottom,
        KeyAction::PageUp,
        KeyAction::PageDown,
        KeyAction::FocusNextPane,
        KeyAction::FocusPrevPane,
        KeyAction::FocusLeft,
        KeyAction::FocusRight,
        KeyAction::SelectItem,
        KeyAction::ToggleSelection,
        KeyAction::SelectAll,
        KeyAction::DeselectAll,
        KeyAction::AddDownload,
        KeyAction::DeleteDownload,
        KeyAction::ToggleDownload,
        KeyAction::RetryDownload,
        KeyAction::ResumeAll,
        KeyAction::PauseAll,
        KeyAction::OpenContextMenu,
        KeyAction::EditItem,
        KeyAction::ToggleDetails,
        KeyAction::OpenSearch,
        KeyAction::OpenHelp,
        KeyAction::OpenSettings,
        KeyAction::SwitchFolder,
        KeyAction::Quit,
        KeyAction::Undo,
        KeyAction::Refresh,
    ]
}

/// `all_actions` lists every action exactly once.
pub proof fn law_all_actions(a: KeyAction)
    ensures
        all_actions().contains(a),
        all_actions().no_duplicates(),
        all_actions().len() == 30,
{
    let s = all_actions();
    match a {
        KeyAction::MoveUp => assert(s[0] == a),
        KeyAction::MoveDown => assert(s[1] == a),
        KeyAction::MoveToTop => assert(s[2] == a),
        KeyAction::MoveToBottom => assert(s[3] == a),
        KeyAction::PageUp => assert(s[4] == a),
        KeyAction::PageDown => assert(s[5] == a),
        KeyAction::FocusNextPane => assert(s[6] == a),
        KeyAction::FocusPrevPane => assert(s[7] == a),
        KeyAction::FocusLeft => assert(s[8] == a),
        KeyAction::FocusRight => assert(s[9] == a),
        KeyAction::SelectItem => assert(s[10] == a),
        KeyAction::ToggleSelection => assert(s[11] == a),
        KeyAction::SelectAll => assert(s[12] == a),
        KeyAction::DeselectAll => assert(s[13] == a),
        KeyAction::AddDownload => assert(s[14] == a),
        KeyAction::DeleteDownload => assert(s[15] == a),
        KeyAction::ToggleDownload => assert(s[16] == a),
        KeyAction::RetryDownload => assert(s[17] == a),
        KeyAction::ResumeAll => assert(s[18] == a),
        KeyAction::PauseAll => assert(s[19] == a),
        KeyAction::OpenContextMenu => assert(s[20] == a),
        KeyAction::EditItem => assert(s[21] == a),
        KeyAction::ToggleDetails => assert(s[22] == a),
        KeyAction::OpenSearch => assert(s[23] == a),
        KeyAction::OpenHelp => assert(s[24] == a),
        KeyAction::OpenSettings => assert(s[25] == a),
        KeyAction::SwitchFolder => assert(s[26] == a),
        KeyAction::Quit => assert(s[27] == a),
        KeyAction::Undo => assert(s[28] == a),
        KeyAction::Refresh => assert(s[29] == a),
    }
}

impl KeyAction {
    /// All actions.
    pub fn all() -> (r: Vec<KeyAction>)
        ensures
            r@ == all_actions(),
    {
        let r: Vec<KeyAction> = vec![
            KeyAction::MoveUp,
            KeyAction::MoveDown,
            KeyAction::MoveToTop,
            KeyAction::MoveToBottom,
            KeyAction::PageUp,
            KeyAction::PageDown,
            KeyAction::FocusNextPane,
            KeyAction::FocusPrevPane,
            KeyAction::FocusLeft,
            KeyAction::FocusRight,
            KeyAction::SelectItem,
            KeyAction::ToggleSelection,
            KeyAction::SelectAll,
            KeyAction::DeselectAll,
            KeyAction::AddDownload,
            KeyAction::DeleteDownload,
            KeyAction::ToggleDownload,
            KeyAction::RetryDownload,
            KeyAction::ResumeAll,
            KeyAction::PauseAll,
            KeyAction::OpenContextMenu,
            KeyAction::EditItem,
            KeyAction::ToggleDetails,
            KeyAction::OpenSearch,
            KeyAction::OpenHelp,
            KeyAction::OpenSettings,
            KeyAction::SwitchFolder,
            KeyAction::Quit,
            KeyAction::Undo,
            KeyAction::Refresh,
        ];
        assert(r@ =~= all_actions());
        r
    }
}

/// A key of the keyboard.
#[derive(Debug, Clone, Copy, PartialEq, Eq, Hash, Structural)]
pub enum KeyCode {
    Backspace,
    Enter,
    Left,
    Right,
    Up,
    Down,
    Home,
    End,
    PageUp,
    PageDown,
    Tab,
    BackTab,
    Delete,
    Insert,
    Esc,
    F(u8),
    Char(char),
    /// Any key that no shortcut can name.
    Other,
}

/// The modifier keys that are held down.
#[derive(Debug, Clone, Copy, PartialEq, Eq, Hash, Structural)]
pub struct KeyModifiers {
    pub shift: bool,
    pub control: bool,
    pub alt: bool,
    pub super_key: bool,
    pub hyper: bool,
    pub meta: bool,
}

/// No modifier key.
pub open spec fn no_modifiers() -> KeyModifiers {
    KeyModifiers {
        shift: false,
        control: false,
        alt: false,
        super_key: false,
        hyper: false,
        meta: false,
    }
}

impl KeyModifiers {
    /// No modifier key.
    pub fn empty() -> (r: KeyModifiers)
        ensures
            r == no_modifiers(),
    {
        KeyModifiers {
            shift: false,
            control: false,
            alt: false,
            super_key: false,
            hyper: false,
            meta: false,
        }
    }

    /// Whether no modifier key is held down.
    pub fn is_empty(&self) -> (r: bool)
        ensures
            r == (*self == no_modifiers()),
    {
        *self == Self::empty()
    }
}

/// The keys of one shortcut, as they stand in the configuration.
#[derive(Debug, PartialEq, Eq)]
pub enum KeyBindingSpec {
    /// One key, such as `j` or `Ctrl+z`.
    Single(String),
    /// Several keys.
    Multiple(Vec<String>),
}

/// The keys of one shortcut as texts.
pub enum SpecView {
    Single(Seq<char>),
    Multiple(Seq<Seq<char>>),
}

impl View for KeyBindingSpec {
    type V = SpecView;

    open spec fn view(&self) -> SpecView {
        match self {
            KeyBindingSpec::Single(s) => SpecView::Single(s@),
            KeyBindingSpec::Multiple(v) => SpecView::Multiple(texts(v@)),
        }
    }
}

/// The keys of a shortcut.
pub open spec fn spec_keys(v: SpecView) -> Seq<Seq<char>> {
    match v {
        SpecView::Single(s) => seq![s],
        SpecView::Multiple(ss) => ss,
    }
}

impl Default for KeyBindingSpec {
    fn default() -> (r: KeyBindingSpec)
        ensures
            r@ == SpecView::Single(Seq::empty()),
    {
        KeyBindingSpec::Single(String::new())
    }
}

impl Clone for KeyBindingSpec {
    fn clone(&self) -> (r: KeyBindingSpec)
        ensures
            r@ == self@,
    {
        match self {
            KeyBindingSpec::Single(s) => KeyBindingSpec::Single(s.clone()),
            KeyBindingSpec::Multiple(v) => KeyBindingSpec::Multiple(clone_texts(v)),
        }
    }
}

impl KeyBindingSpec {
    /// The keys of the shortcut.
    pub fn keys(&self) -> (r: Vec<String>)
        ensures
            texts(r@) == spec_keys(self@),
    {
        match self {
            KeyBindingSpec::Single(s) => {
                let mut v: Vec<String> = Vec::new();
                v.push(s.clone());
                assert(texts(v@) =~= seq![s@]);
                v
            },
            KeyBindingSpec::Multiple(v) => clone_texts(v),
        }
    }
}

/// A key with the modifiers held down with it.
#[derive(Debug, Clone, Copy, PartialEq, Eq, Hash, Structural)]
pub struct KeyCombo {
    pub code: KeyCode,
    pub modifiers: KeyModifiers,
}

// ---------------------------------------------------------------------------
// Reading the name of a key
// ---------------------------------------------------------------------------

/// Lower case under Unicode's rules.
pub open spec fn by_unicode() -> spec_fn(Seq<char>) -> Seq<char> {
    |s: Seq<char>| unicode_lower(s)
}

/// Lower case of ASCII letters.
pub open spec fn by_ascii() -> spec_fn(Seq<char>) -> Seq<char> {
    |s: Seq<char>| lower_ascii(s)
}

/// The key that has a name of its own, given in lower case.
pub open spec fn special_key(lower: Seq<char>) -> Option<KeyCode> {
    if lower == "enter"@ {
        Some(KeyCode::Enter)
    } else if lower == "return"@ {
        Some(KeyCode::Enter)
    } else if lower == "space"@ {
        Some(KeyCode::Char(' '))
    } else if lower == "tab"@ {
        Some(KeyCode::Tab)
    } else if lower == "backtab"@ {
        Some(KeyCode::BackTab)
    } else if lower == "backspace"@ {
        Some(KeyCode::Backspace)
    } else if lower == "esc"@ {
        Some(KeyCode::Esc)
    } else if lower == "escape"@ {
        Some(KeyCode::Esc)
    } else if lower == "up"@ {
        Some(KeyCode::Up)
    } else if lower == "down"@ {
        Some(KeyCode::Down)
    } else if lower == "left"@ {
        Some(KeyCode::Left)
    } else if lower == "right"@ {
        Some(KeyCode::Right)
    } else if lower == "home"@ {
        Some(KeyCode::Home)
    } else if lower == "end"@ {
        Some(KeyCode::End)
    } else if lower == "pageup"@ {
        Some(KeyCode::PageUp)
    } else if lower == "pagedown"@ {
        Some(KeyCode::PageDown)
    } else if lower == "delete"@ {
        Some(KeyCode::Delete)
    } else if lower == "del"@ {
        Some(KeyCode::Delete)
    } else if lower == "insert"@ {
        Some(KeyCode::Insert)
    } else if lower == "ins"@ {
        Some(KeyCode::Insert)
    } else if lower == "f1"@ {
        Some(KeyCode::F(1))
    } else if lower == "f2"@ {
        Some(KeyCode::F(2))
    } else if lower == "f3"@ {
        Some(KeyCode::F(3))
    } else if lower == "f4"@ {
        Some(KeyCode::F(4))
    } else if lower == "f5"@ {
        Some(KeyCode::F(5))
    } else if lower == "f6"@ {
        Some(KeyCode::F(6))
    } else if lower == "f7"@ {
        Some(KeyCode::F(7))
    } else if lower == "f8"@ {
        Some(KeyCode::F(8))
    } else if lower == "f9"@ {
        Some(KeyCode::F(9))
    } else if lower == "f10"@ {
        Some(KeyCode::F(10))
    } else if lower == "f11"@ {
        Some(KeyCode::F(11))
    } else if lower == "f12"@ {
        Some(KeyCode::F(12))
    } else {
        None
    }
}

/// The key with the given name: one with a name of its own, or a single
/// character.
pub open spec fn key_code(
    name: Seq<char>,
    lower: spec_fn(Seq<char>) -> Seq<char>,
) -> Option<KeyCode> {
    let t = trimmed(name);
    match special_key(lower(t)) {
        Some(k) => Some(k),
        None => if t.len() == 1 {
            Some(KeyCode::Char(t[0]))
        } else {
            None
        },
    }
}

/// The modifiers with one more held down, given its name in lower case.
pub open spec fn with_modifier(m: KeyModifiers, lower: Seq<char>) -> Option<KeyModifiers> {
    if lower == "ctrl"@ || lower == "control"@ {
        Some(KeyModifiers { control: true, ..m })
    } else if lower == "alt"@ {
        Some(KeyModifiers { alt: true, ..m })
    } else if lower == "shift"@ {
        Some(KeyModifiers { shift: true, ..m })
    } else {
        None
    }
}

/// The modifiers with the given names, if each is the name of one.
pub open spec fn modifiers_named(
    names: Seq<Seq<char>>,
    lower: spec_fn(Seq<char>) -> Seq<char>,
) -> Option<KeyModifiers>
    decreases names.len(),
{
    if names.len() == 0 {
        Some(no_modifiers())
    } else {
        match modifiers_named(names.drop_last(), lower) {
            Some(m) => with_modifier(m, lower(names.last())),
            None => None,
        }
    }
}

/// The combination that a text such as `Ctrl+j` names: modifiers with a plus
/// sign behind each, and then a key.
pub open spec fn combo_named(
    s: Seq<char>,
    lower: spec_fn(Seq<char>) -> Seq<char>,
) -> Option<KeyCombo> {
    let parts = split(trimmed(s), '+');
    match modifiers_named(parts.drop_last(), lower) {
        Some(modifiers) => match key_code(parts.last(), lower) {
            Some(code) => Some(KeyCombo { code, modifiers }),
            None => None,
        },
        None => None,
    }
}

/// The function keys are named by their numbers, and each other key that has a name
/// has these names and no others.
pub proof fn law_named_keys(s: Seq<char>, n: u8)
    ensures
        special_key(s) == Some(KeyCode::Enter) <==> s == "enter"@ || s == "return"@,
        special_key(s) == Some(KeyCode::Char(' ')) <==> s == "space"@,
        special_key(s) == Some(KeyCode::Tab) <==> s == "tab"@,
        special_key(s) == Some(KeyCode::BackTab) <==> s == "backtab"@,
        special_key(s) == Some(KeyCode::Backspace) <==> s == "backspace"@,
        special_key(s) == Some(KeyCode::Esc) <==> s == "esc"@ || s == "escape"@,
        special_key(s) == Some(KeyCode::Up) <==> s == "up"@,
        special_key(s) == Some(KeyCode::Down) <==> s == "down"@,
        special_key(s) == Some(KeyCode::Left) <==> s == "left"@,
        special_key(s) == Some(KeyCode::Right) <==> s == "right"@,
        special_key(s) == Some(KeyCode::Home) <==> s == "home"@,
        special_key(s) == Some(KeyCode::End) <==> s == "end"@,
        special_key(s) == Some(KeyCode::PageUp) <==> s == "pageup"@,
        special_key(s) == Some(KeyCode::PageDown) <==> s == "pagedown"@,
        special_key(s) == Some(KeyCode::Delete) <==> s == "delete"@ || s == "del"@,
        special_key(s) == Some(KeyCode::Insert) <==> s == "insert"@ || s == "ins"@,
        special_key(s) == Some(KeyCode::F(n)) <==> 1 <= n <= 12 && s == "f"@ + decimal(n as nat),
        special_key(s) is Some ==> s.len() >= 2,
{
    reveal_strlit("enter");
    reveal_strlit("return");
    reveal_strlit("space");
    reveal_strlit("tab");
    reveal_strlit("backtab");
    reveal_strlit("backspace");
    reveal_strlit("esc");
    reveal_strlit("escape");
    reveal_strlit("up");
    reveal_strlit("down");
    reveal_strlit("left");
    reveal_strlit("right");
    reveal_strlit("home");
    reveal_strlit("end");
    reveal_strlit("pageup");
    reveal_strlit("pagedown");
    reveal_strlit("delete");
    reveal_strlit("del");
    reveal_strlit("insert");
    reveal_strlit("ins");
    reveal_strlit("f1");
    reveal_strlit("f2");
    reveal_strlit("f3");
    reveal_strlit("f4");
    reveal_strlit("f5");
    reveal_strlit("f6");
    reveal_strlit("f7");
    reveal_strlit("f8");
    reveal_strlit("f9");
    reveal_strlit("f10");
    reveal_strlit("f11");
    reveal_strlit("f12");
    reveal_strlit("f");
    reveal_with_fuel(decimal, 3);
    assert("f"@ + decimal(1) =~= "f1"@);
    assert("f"@ + decimal(2) =~= "f2"@);
    assert("f"@ + decimal(3) =~= "f3"@);
    assert("f"@ + decimal(4) =~= "f4"@);
    assert("f"@ + decimal(5) =~= "f5"@);
    assert("f"@ + decimal(6) =~= "f6"@);
    assert("f"@ + decimal(7) =~= "f7"@);
    assert("f"@ + decimal(8) =~= "f8"@);
    assert("f"@ + decimal(9) =~= "f9"@);
    assert("f"@ + decimal(10) =~= "f10"@);
    assert("f"@ + decimal(11) =~= "f11"@);
    assert("f"@ + decimal(12) =~= "f12"@);
    assert("enter"@.len() == 5 && "enter"@[0] == 'e');
    assert("return"@.len() == 6 && "return"@[0] == 'r');
    assert("space"@.len() == 5 && "space"@[0] == 's');
    assert("tab"@.len() == 3 && "tab"@[0] == 't');
    assert("backtab"@.len() == 7);
    assert("backspace"@.len() == 9);
    assert("esc"@.len() == 3 && "esc"@[0] == 'e' && "esc"@[1] == 's');
    assert("escape"@.len() == 6 && "escape"@[0] == 'e');
    assert("up"@.len() == 2 && "up"@[0] == 'u');
    assert("down"@.len() == 4 && "down"@[0] == 'd');
    assert("left"@.len() == 4 && "left"@[0] == 'l');
    assert("right"@.len() == 5 && "right"@[0] == 'r');
    assert("home"@.len() == 4 && "home"@[0] == 'h');
    assert("end"@.len() == 3 && "end"@[0] == 'e' && "end"@[1] == 'n');
    assert("pageup"@.len() == 6 && "pageup"@[0] == 'p');
    assert("pagedown"@.len() == 8);
    assert("delete"@.len() == 6 && "delete"@[0] == 'd');
    assert("del"@.len() == 3 && "del"@[0] == 'd');
    assert("insert"@.len() == 6 && "insert"@[0] == 'i');
    assert("ins"@.len() == 3 && "ins"@[0] == 'i');
    assert("f1"@.len() == 2 && "f1"@[0] == 'f' && "f1"@[1] == '1');
    assert("f2"@.len() == 2 && "f2"@[0] == 'f' && "f2"@[1] == '2');
    assert("f3"@.len() == 2 && "f3"@[0] == 'f' && "f3"@[1] == '3');
    assert("f4"@.len() == 2 && "f4"@[0] == 'f' && "f4"@[1] == '4');
    assert("f5"@.len() == 2 && "f5"@[0] == 'f' && "f5"@[1] == '5');
    assert("f6"@.len() == 2 && "f6"@[0] == 'f' && "f6"@[1] == '6');
    assert("f7"@.len() == 2 && "f7"@[0] == 'f' && "f7"@[1] == '7');
    assert("f8"@.len() == 2 && "f8"@[0] == 'f' && "f8"@[1] == '8');
    assert("f9"@.len() == 2 && "f9"@[0] == 'f' && "f9"@[1] == '9');
    assert("f10"@.len() == 3 && "f10"@[0] == 'f' && "f10"@[2] == '0');
    assert("f11"@.len() == 3 && "f11"@[0] == 'f' && "f11"@[2] == '1');
    assert("f12"@.len() == 3 && "f12"@[0] == 'f' && "f12"@[2] == '2');
}

/// A character names its key, whatever the case of letters; the name may have white
/// space around it.
pub proof fn law_characters_name_keys(c: char)
    requires
        !crate::text::is_space(c),
    ensures
        key_code(seq![c], by_ascii()) == Some(KeyCode::Char(c)),
{
    let none = Seq::<char>::empty();
    crate::text::law_trimmed_of_white_space(none, seq![c], none);
    assert(none + seq![c] + none =~= seq![c]);
    let lower = lower_ascii(seq![c]);
    assert(lower.len() == 1);
    law_named_keys(lower, 1);
}

/// Modifiers are named by `ctrl` or `control`, `alt` and `shift`, in any order; one
/// other name is enough for there to be none. No other modifier is ever held down.
pub proof fn law_modifiers_by_name(
    names: Seq<Seq<char>>,
    lower: spec_fn(Seq<char>) -> Seq<char>,
    i: int,
)
    requires
        0 <= i < names.len(),
    ensures
        ({
            let m = modifiers_named(names, lower);
            let name = lower(names[i]);
            &&& m is Some && (name == "ctrl"@ || name == "control"@) ==> m->0.control
            &&& m is Some && name == "alt"@ ==> m->0.alt
            &&& m is Some && name == "shift"@ ==> m->0.shift
            &&& name != "ctrl"@ && name != "control"@ && name != "alt"@ && name != "shift"@
                ==> m is None
            &&& m is Some ==> !m->0.super_key && !m->0.hyper && !m->0.meta
        }),
    decreases names.len(),
{
    reveal_strlit("ctrl");
    reveal_strlit("control");
    reveal_strlit("alt");
    reveal_strlit("shift");
    assert("ctrl"@.len() == 4 && "control"@.len() == 7 && "alt"@.len() == 3 && "shift"@.len()
        == 5);
    let before = names.drop_last();
    if i < before.len() {
        assert(before[i] == names[i]);
        law_modifiers_by_name(before, lower, i);
    } else if before.len() > 0 {
        law_modifiers_by_name(before, lower, 0);
    }
}

/// A modifier is held down only if it is named.
pub proof fn law_only_named_modifiers(
    names: Seq<Seq<char>>,
    lower: spec_fn(Seq<char>) -> Seq<char>,
)
    requires
        modifiers_named(names, lower) is Some,
    ensures
        ({
            let m = modifiers_named(names, lower)->0;
            &&& m.control ==> exists|i: int|
                0 <= i < names.len() && (lower(#[trigger] names[i]) == "ctrl"@ || lower(names[i])
                    == "control"@)
            &&& m.alt ==> exists|i: int|
                0 <= i < names.len() && lower(#[trigger] names[i]) == "alt"@
            &&& m.shift ==> exists|i: int|
                0 <= i < names.len() && lower(#[trigger] names[i]) == "shift"@
        }),
    decreases names.len(),
{
    if names.len() > 0 {
        let before = names.drop_last();
        law_only_named_modifiers(before, lower);
        assert(forall|i: int| 0 <= i < before.len() ==> #[trigger] before[i] == names[i]);
        assert(names[names.len() - 1] == names.last());
        let m = modifiers_named(before, lower)->0;
        if m.control {
            let i = choose|i: int|
                0 <= i < before.len() && (lower(#[trigger] before[i]) == "ctrl"@ || lower(before[i])
                    == "control"@);
            assert(names[i] == before[i]);
        }
        if m.alt {
            let i = choose|i: int| 0 <= i < before.len() && lower(#[trigger] before[i]) == "alt"@;
            assert(names[i] == before[i]);
        }
        if m.shift {
            let i = choose|i: int| 0 <= i < before.len() && lower(#[trigger] before[i]) == "shift"@;
            assert(names[i] == before[i]);
        }
    }
}

/// A combination is a key alone, or modifiers and then a key, with a plus sign
/// between any two.
pub proof fn law_combinations(
    s: Seq<char>,
    modifier: Seq<char>,
    key: Seq<char>,
    lower: spec_fn(Seq<char>) -> Seq<char>,
)
    requires
        !modifier.contains('+'),
        !key.contains('+'),
    ensures
        trimmed(s) == key ==> combo_named(s, lower) == (match key_code(key, lower) {
            Some(code) => Some(KeyCombo { code, modifiers: no_modifiers() }),
            None => None,
        }),
        trimmed(s) == modifier + seq!['+'] + key ==> combo_named(s, lower) == (match (
            modifiers_named(seq![modifier], lower),
            key_code(key, lower),
        ) {
            (Some(modifiers), Some(code)) => Some(KeyCombo { code, modifiers }),
            _ => None,
        }),
{
    crate::text::law_cut_at_the_first(modifier, '+', key);
    crate::text::law_cut_at_the_first(key, '+', key);
    assert(seq![key].drop_last() =~= Seq::empty());
    assert((seq![modifier] + seq![key]).drop_last() =~= seq![modifier]);
}

/// The key that has a name of its own, given in lower case.
pub fn find_special_key(lower: &str) -> (r: Option<KeyCode>)
    ensures
        r == special_key(lower@),
{
    if text_eq(lower, "enter") {
        Some(KeyCode::Enter)
    } else if text_eq(lower, "return") {
        Some(KeyCode::Enter)
    } else if text_eq(lower, "space") {
        Some(KeyCode::Char(' '))
    } else if text_eq(lower, "tab") {
        Some(KeyCode::Tab)
    } else if text_eq(lower, "backtab") {
        Some(KeyCode::BackTab)
    } else if text_eq(lower, "backspace") {
        Some(KeyCode::Backspace)
    } else if text_eq(lower, "esc") {
        Some(KeyCode::Esc)
    } else if text_eq(lower, "escape") {
        Some(KeyCode::Esc)
    } else if text_eq(lower, "up") {
        Some(KeyCode::Up)
    } else if text_eq(lower, "down") {
        Some(KeyCode::Down)
    } else if text_eq(lower, "left") {
        Some(KeyCode::Left)
    } else if text_eq(lower, "right") {
        Some(KeyCode::Right)
    } else if text_eq(lower, "home") {
        Some(KeyCode::Home)
    } else if text_eq(lower, "end") {
        Some(KeyCode::End)
    } else if text_eq(lower, "pageup") {
        Some(KeyCode::PageUp)
    } else if text_eq(lower, "pagedown") {
        Some(KeyCode::PageDown)
    } else if text_eq(lower, "delete") {
        Some(KeyCode::Delete)
    } else if text_eq(lower, "del") {
        Some(KeyCode::Delete)
    } else if text_eq(lower, "insert") {
        Some(KeyCode::Insert)
    } else if text_eq(lower, "ins") {
        Some(KeyCode::Insert)
    } else if text_eq(lower, "f1") {
        Some(KeyCode::F(1))
    } else if text_eq(lower, "f2") {
        Some(KeyCode::F(2))
    } else if text_eq(lower, "f3") {
        Some(KeyCode::F(3))
    } else if text_eq(lower, "f4") {
        Some(KeyCode::F(4))
    } else if text_eq(lower, "f5") {
        Some(KeyCode::F(5))
    } else if text_eq(lower, "f6") {
        Some(KeyCode::F(6))
    } else if text_eq(lower, "f7") {
        Some(KeyCode::F(7))
    } else if text_eq(lower, "f8") {
        Some(KeyCode::F(8))
    } else if text_eq(lower, "f9") {
        Some(KeyCode::F(9))
    } else if text_eq(lower, "f10") {
        Some(KeyCode::F(10))
    } else if text_eq(lower, "f11") {
        Some(KeyCode::F(11))
    } else if text_eq(lower, "f12") {
        Some(KeyCode::F(12))
    } else {
        None
    }
}

/// Adds the modifier with the given name, in lower case.
pub fn add_modifier(m: KeyModifiers, lower: &str) -> (r: Option<KeyModifiers>)
    ensures
        r == with_modifier(m, lower@),
{
    if text_eq(lower, "ctrl") || text_eq(lower, "control") {
        Some(KeyModifiers { control: true, ..m })
    } else if text_eq(lower, "alt") {
        Some(KeyModifiers { alt: true, ..m })
    } else if text_eq(lower, "shift") {
        Some(KeyModifiers { shift: true, ..m })
    } else {
        None
    }
}

/// The key with the given name.
pub fn parse_key_code(s: &str) -> (r: Option<KeyCode>)
    ensures
        r == key_code(s@, by_unicode()),
        all_ascii(trimmed(s@)) ==> r == key_code(s@, by_ascii()),
{
    let t = trim(s);
    let lower = to_lowercase(t.as_str());
    match find_special_key(lower.as_str()) {
        Some(k) => Some(k),
        None => {
            let v = chars_of(t.as_str());
            if v.len() == 1 {
                Some(KeyCode::Char(v[0]))
            } else {
                None
            }
        },
    }
}

/// ASCII text stays ASCII when it is trimmed and split.
proof fn lemma_ascii_parts(s: Seq<char>, c: char)
    requires
        all_ascii(s),
    ensures
        forall|i: int| 0 <= i < split(s, c).len() ==> all_ascii(#[trigger] split(s, c)[i]),
    decreases s.len(),
{
    let n = crate::text::leading(s, crate::text::other_than(c)) as int;
    crate::text::lemma_leading_bound(s, crate::text::other_than(c));
    if n < s.len() {
        let rest = s.skip(n + 1);
        assert(all_ascii(rest)) by {
            assert forall|i: int| 0 <= i < rest.len() implies (#[trigger] rest[i] as int) < 128 by {
                assert(rest[i] == s[i + n + 1]);
            }
        }
        lemma_ascii_parts(rest, c);
        let parts = split(s, c);
        assert(parts == seq![s.take(n)] + split(rest, c));
        assert forall|i: int| 0 <= i < parts.len() implies all_ascii(#[trigger] parts[i]) by {
            if i == 0 {
                let h = s.take(n);
                assert(parts[0] == h);
                assert forall|j: int| 0 <= j < h.len() implies (#[trigger] h[j] as int) < 128 by {
                    assert(h[j] == s[j]);
                }
            } else {
                assert(parts[i] == split(rest, c)[i - 1]);
            }
        }
    } else {
        assert(split(s, c) == seq![s]);
    }
}

/// ASCII text stays ASCII when it is trimmed.
proof fn lemma_ascii_trimmed(s: Seq<char>)
    requires
        all_ascii(s),
    ensures
        all_ascii(trimmed(s)),
{
    crate::text::lemma_leading_bound(s, crate::text::spaces());
    let n = crate::text::leading(s, crate::text::spaces()) as int;
    let a = s.skip(n);
    crate::text::lemma_trailing_bound(a, crate::text::spaces());
    let t = trimmed(s);
    assert forall|i: int| 0 <= i < t.len() implies (#[trigger] t[i] as int) < 128 by {
        assert(t[i] == a[i]);
        assert(a[i] == s[i + n]);
    }
}

impl KeyCombo {
    /// A key with modifiers.
    pub fn new(code: KeyCode, modifiers: KeyModifiers) -> (r: KeyCombo)
        ensures
            r == (KeyCombo { code, modifiers }),
    {
        KeyCombo { code, modifiers }
    }

    /// The combination that a text such as `Ctrl+j`, `Shift+Enter` or `a` names.
    pub fn parse(s: &str) -> (r: Option<KeyCombo>)
        ensures
            r == combo_named(s@, by_unicode()),
            all_ascii(s@) ==> r == combo_named(s@, by_ascii()),
    {
        let t = trim(s);
        let parts = split_at_char(t.as_str(), '+');
        let last: usize = parts.len() - 1;
        let ghost ps = split(t@, '+');
        proof {
            if all_ascii(s@) {
                lemma_ascii_trimmed(s@);
                lemma_ascii_parts(t@, '+');
            }
            assert(ps.drop_last().take(0) =~= Seq::<Seq<char>>::empty());
        }
        let mut modifiers = KeyModifiers::empty();
        for i in 0..last
            invariant
                ps == split(trimmed(s@), '+'),
                texts(parts@) == ps,
                last + 1 == ps.len(),
                modifiers_named(ps.drop_last().take(i as int), by_unicode()) == Some(modifiers),
                all_ascii(s@) ==> modifiers_named(ps.drop_last().take(i as int), by_ascii())
                    == Some(modifiers),
                all_ascii(s@) ==> forall|k: int| 0 <= k < ps.len() ==> all_ascii(#[trigger] ps[k]),
        {
            let ghost names = ps.drop_last();
            let lower = to_lowercase(parts[i].as_str());
            proof {
                assert(ps[i as int] == parts@[i as int]@);
                assert(names.take(i + 1).drop_last() =~= names.take(i as int));
                assert(names.take(i + 1).last() == ps[i as int]);
            }
            match add_modifier(modifiers, lower.as_str()) {
                Some(m) => {
                    modifiers = m;
                },
                None => {
                    proof {
                        lemma_unknown_modifier(names, i + 1, by_unicode());
                        if all_ascii(s@) {
                            lemma_unknown_modifier(names, i + 1, by_ascii());
                        }
                    }
                    return None;
                },
            }
        }
        proof {
            assert(ps.drop_last().take(last as int) =~= ps.drop_last());
            assert(ps.last() == parts@[last as int]@);
            if all_ascii(s@) {
                assert(all_ascii(ps[last as int]));
                lemma_ascii_trimmed(ps[last as int]);
            }
        }
        match parse_key_code(parts[last].as_str()) {
            Some(code) => Some(KeyCombo { code, modifiers }),
            None => None,
        }
    }

    /// Whether a key event is this combination.
    pub fn matches(&self, code: KeyCode, modifiers: KeyModifiers) -> (r: bool)
        ensures
            r == (*self == (KeyCombo { code, modifiers })),
    {
        self.code == code && self.modifiers == modifiers
    }
}

/// One unknown modifier makes the whole list unknown.
proof fn lemma_unknown_modifier(
    names: Seq<Seq<char>>,
    n: int,
    lower: spec_fn(Seq<char>) -> Seq<char>,
)
    requires
        0 <= n <= names.len(),
        modifiers_named(names.take(n), lower) is None,
    ensures
        modifiers_named(names, lower) is None,
    decreases names.len() - n,
{
    if n == names.len() {
        assert(names.take(n) =~= names);
    } else {
        assert(names.take(n + 1).drop_last() =~= names.take(n));
        lemma_unknown_modifier(names, n + 1, lower);
    }
}

// ---------------------------------------------------------------------------
// The configuration
// ---------------------------------------------------------------------------

/// The shortcuts of the configuration, an action with its keys each.
pub struct KeybindingsConfig {
    pub bindings: Vec<(KeyAction, KeyBindingSpec)>,
}

impl View for KeybindingsConfig {
    type V = Seq<(KeyAction, SpecView)>;

    open spec fn view(&self) -> Seq<(KeyAction, SpecView)> {
        self.bindings@.map_values(|b: (KeyAction, KeyBindingSpec)| (b.0, b.1@))
    }
}

/// Whether no action has two entries.
pub open spec fn actions_distinct(bs: Seq<(KeyAction, SpecView)>) -> bool {
    forall|i: int, j: int| 0 <= i < j < bs.len() ==> (#[trigger] bs[i]).0 != (#[trigger] bs[j]).0
}

/// The keys that an action has unless the configuration says otherwise.
pub open spec fn default_keys(action: KeyAction) -> SpecView {
    match action {
        KeyAction::MoveUp => SpecView::Multiple(seq!["k"@, "Up"@]),
        KeyAction::MoveDown => SpecView::Multiple(seq!["j"@, "Down"@]),
        KeyAction::MoveToTop => SpecView::Multiple(seq!["g"@, "Home"@]),
        KeyAction::MoveToBottom => SpecView::Multiple(seq!["G"@, "End"@]),
        KeyAction::PageUp => SpecView::Single("Ctrl+u"@),
        KeyAction::PageDown => SpecView::Single("Ctrl+d"@),
        KeyAction::FocusNextPane => SpecView::Single("Tab"@),
        KeyAction::FocusPrevPane => SpecView::Single("BackTab"@),
        KeyAction::FocusLeft => SpecView::Multiple(seq!["h"@, "Left"@]),
        KeyAction::FocusRight => SpecView::Multiple(seq!["l"@, "Right"@]),
        KeyAction::SelectItem => SpecView::Single("Enter"@),
        KeyAction::ToggleSelection => SpecView::Single("v"@),
        KeyAction::SelectAll => SpecView::Single("V"@),
        KeyAction::DeselectAll => SpecView::Single("Escape"@),
        KeyAction::AddDownload => SpecView::Single("a"@),
        KeyAction::DeleteDownload => SpecView::Single("d"@),
        KeyAction::ToggleDownload => SpecView::Single("Space"@),
        KeyAction::RetryDownload => SpecView::Single("r"@),
        KeyAction::ResumeAll => SpecView::Single("S"@),
        KeyAction::PauseAll => SpecView::Single("P"@),
        KeyAction::OpenContextMenu => SpecView::Single("m"@),
        KeyAction::EditItem => SpecView::Single("e"@),
        KeyAction::ToggleDetails => SpecView::Single("i"@),
        KeyAction::OpenSearch => SpecView::Single("/"@),
        KeyAction::OpenHelp => SpecView::Single("?"@),
        KeyAction::OpenSettings => SpecView::Single("x"@),
        KeyAction::SwitchFolder => SpecView::Single("F"@),
        KeyAction::Quit => SpecView::Multiple(seq!["q"@, "Ctrl+c"@]),
        KeyAction::Undo => SpecView::Single("Ctrl+z"@),
        KeyAction::Refresh => SpecView::Single("R"@),
    }
}

fn one(key: &str) -> (r: KeyBindingSpec)
    ensures
        r@ == SpecView::Single(key@),
{
    KeyBindingSpec::Single(key.to_owned())
}

fn two(a: &str, b: &str) -> (r: KeyBindingSpec)
    ensures
        r@ == SpecView::Multiple(seq![a@, b@]),
{
    let mut v: Vec<String> = Vec::new();
    v.push(a.to_owned());
    v.push(b.to_owned());
    assert(texts(v@) =~= seq![a@, b@]);
    KeyBindingSpec::Multiple(v)
}

/// The keys that an action has unless the configuration says otherwise.
pub fn default_binding(action: KeyAction) -> (r: KeyBindingSpec)
    ensures
        r@ == default_keys(action),
{
    match action {
        KeyAction::MoveUp => two("k", "Up"),
        KeyAction::MoveDown => two("j", "Down"),
        KeyAction::MoveToTop => two("g", "Home"),
        KeyAction::MoveToBottom => two("G", "End"),
        KeyAction::PageUp => one("Ctrl+u"),
        KeyAction::PageDown => one("Ctrl+d"),
        KeyAction::FocusNextPane => one("Tab"),
        KeyAction::FocusPrevPane => one("BackTab"),
        KeyAction::FocusLeft => two("h", "Left"),
        KeyAction::FocusRight => two("l", "Right"),
        KeyAction::SelectItem => one("Enter"),
        KeyAction::ToggleSelection => one("v"),
        KeyAction::SelectAll => one("V"),
        KeyAction::DeselectAll => one("Escape"),
        KeyAction::AddDownload => one("a"),
        KeyAction::DeleteDownload => one("d"),
        KeyAction::ToggleDownload => one("Space"),
        KeyAction::RetryDownload => one("r"),
        KeyAction::ResumeAll => one("S"),
        KeyAction::PauseAll => one("P"),
        KeyAction::OpenContextMenu => one("m"),
        KeyAction::EditItem => one("e"),
        KeyAction::ToggleDetails => one("i"),
        KeyAction::OpenSearch => one("/"),
        KeyAction::OpenHelp => one("?"),
        KeyAction::OpenSettings => one("x"),
        KeyAction::SwitchFolder => one("F"),
        KeyAction::Quit => two("q", "Ctrl+c"),
        KeyAction::Undo => one("Ctrl+z"),
        KeyAction::Refresh => one("R"),
    }
}

impl Default for KeybindingsConfig {
    fn default() -> (r: KeybindingsConfig)
        ensures
            r@ == all_actions().map_values(|a: KeyAction| (a, default_keys(a))),
            actions_distinct(r@),
    {
        let actions = KeyAction::all();
        let mut bindings: Vec<(KeyAction, KeyBindingSpec)> = Vec::new();
        for i in 0..actions.len()
            invariant
                actions@ == all_actions(),
                bindings@.len() == i,
                forall|j: int|
                    0 <= j < i ==> (#[trigger] bindings@[j]).0 == actions@[j] && bindings@[j].1@
                        == default_keys(actions@[j]),
        {
            let action = actions[i];
            let spec = default_binding(action);
            bindings.push((action, spec));
        }
        let r = KeybindingsConfig { bindings };
        assert(r@ =~= all_actions().map_values(|a: KeyAction| (a, default_keys(a))));
        proof {
            law_all_actions(KeyAction::MoveUp);
            assert forall|i: int, j: int| 0 <= i < j < r@.len() implies (#[trigger] r@[i]).0 != (
            #[trigger] r@[j]).0 by {
                assert(r@[i].0 == all_actions()[i]);
                assert(r@[j].0 == all_actions()[j]);
            }
        }
        r
    }
}

impl KeybindingsConfig {
    /// Gives an action the keys of `spec` in the place of those that it had.
    pub fn bind(&mut self, action: KeyAction, spec: KeyBindingSpec)
        ensures
            final(self)@ == bound_to(old(self)@, action, spec@, 0),
            actions_distinct(old(self)@) ==> actions_distinct(final(self)@),
    {
        proof {
            if actions_distinct(self@) {
                law_bound_once(self@, action, spec@, 0);
            }
        }
        let n: usize = self.bindings.len();
        for i in 0..n
            invariant
                *self == *old(self),
                n == self@.len(),
                bound_to(self@, action, spec@, 0) == bound_to(self@, action, spec@, i as int),
        {
            assert(self@[i as int].0 == self.bindings@[i as int].0);
            if self.bindings[i].0 == action {
                self.bindings.set(i, (action, spec));
                assert(self@ =~= old(self)@.update(i as int, (action, spec@)));
                return;
            }
        }
        self.bindings.push((action, spec));
        assert(self@ =~= old(self)@.push((action, spec@)));
    }
}

/// The shortcuts with one action bound to other keys: the first entry of the
/// action from place `i` on is replaced, or a new entry added.
pub open spec fn bound_to(
    bs: Seq<(KeyAction, SpecView)>,
    action: KeyAction,
    keys: SpecView,
    i: int,
) -> Seq<(KeyAction, SpecView)>
    decreases bs.len() - i,
{
    if i >= bs.len() {
        bs.push((action, keys))
    } else if bs[i].0 == action {
        bs.update(i, (action, keys))
    } else {
        bound_to(bs, action, keys, i + 1)
    }
}

/// Where no action has two entries, none has after one is bound to other keys,
/// and the one has those keys.
pub proof fn law_bound_once(
    bs: Seq<(KeyAction, SpecView)>,
    action: KeyAction,
    keys: SpecView,
    i: int,
)
    requires
        actions_distinct(bs),
        0 <= i <= bs.len(),
        forall|k: int| 0 <= k < i ==> (#[trigger] bs[k]).0 != action,
    ensures
        actions_distinct(bound_to(bs, action, keys, i)),
        bound_to(bs, action, keys, i).contains((action, keys)),
        forall|b: (KeyAction, SpecView)|
            b.0 != action ==> bound_to(bs, action, keys, i).contains(b) == #[trigger] bs.contains(b),
    decreases bs.len() - i,
{
    if i < bs.len() && bs[i].0 != action {
        law_bound_once(bs, action, keys, i + 1);
    } else {
        let next = bound_to(bs, action, keys, i);
        let at = if i < bs.len() {
            i
        } else {
            bs.len() as int
        };
        assert(next[at] == (action, keys));
        assert forall|b: (KeyAction, SpecView)| b.0 != action implies next.contains(b)
            == #[trigger] bs.contains(b) by {
            if next.contains(b) {
                let k = choose|k: int| 0 <= k < next.len() && next[k] == b;
                assert(bs[k] == b);
            }
            if bs.contains(b) {
                let k = choose|k: int| 0 <= k < bs.len() && bs[k] == b;
                assert(next[k] == b);
            }
        }
    }
}

// ---------------------------------------------------------------------------
// From a key event to an action
// ---------------------------------------------------------------------------

/// The shortcuts of one action: those of its keys that name a combination.
pub open spec fn action_combos(
    action: KeyAction,
    keys: Seq<Seq<char>>,
) -> Seq<(KeyCombo, KeyAction)>
    decreases keys.len(),
{
    if keys.len() == 0 {
        Seq::empty()
    } else {
        let before = action_combos(action, keys.drop_last());
        match combo_named(keys.last(), by_unicode()) {
            Some(combo) => before.push((combo, action)),
            None => before,
        }
    }
}

/// The shortcuts of all actions.
pub open spec fn all_combos(bs: Seq<(KeyAction, SpecView)>) -> Seq<(KeyCombo, KeyAction)>
    decreases bs.len(),
{
    if bs.len() == 0 {
        Seq::empty()
    } else {
        all_combos(bs.drop_last()) + action_combos(bs.last().0, spec_keys(bs.last().1))
    }
}

/// The action that a combination is bound to: of several, the last.
pub open spec fn bound_action(es: Seq<(KeyCombo, KeyAction)>, combo: KeyCombo) -> Option<KeyAction>
    decreases es.len(),
{
    if es.len() == 0 {
        None
    } else if es.last().0 == combo {
        Some(es.last().1)
    } else {
        bound_action(es.drop_last(), combo)
    }
}

/// A key event as it is looked up: Shift does not count with a character that
/// is not a lower case letter, since the character shows it already.
pub open spec fn normalized(code: KeyCode, modifiers: KeyModifiers) -> KeyCombo {
    match code {
        KeyCode::Char(c) => if 'a' <= c && c <= 'z' {
            KeyCombo { code, modifiers }
        } else {
            KeyCombo { code, modifiers: KeyModifiers { shift: false, ..modifiers } }
        },
        _ => KeyCombo { code, modifiers },
    }
}

/// A key event with Shift and the same one without it are one event for every
/// character but a lower case letter.
pub proof fn law_shift_is_redundant(c: char, modifiers: KeyModifiers)
    requires
        !('a' <= c && c <= 'z'),
    ensures
        normalized(KeyCode::Char(c), KeyModifiers { shift: true, ..modifiers }) == normalized(
            KeyCode::Char(c),
            KeyModifiers { shift: false, ..modifiers },
        ),
{
}

/// A combination that is bound last is bound to that action.
pub proof fn law_last_binding_wins(
    es: Seq<(KeyCombo, KeyAction)>,
    combo: KeyCombo,
    action: KeyAction,
)
    ensures
        bound_action(es.push((combo, action)), combo) == Some(action),
{
}

/// A combination is bound to the action of the last entry that has it, and to none if
/// no entry has it.
pub proof fn law_last_entry_counts(es: Seq<(KeyCombo, KeyAction)>, combo: KeyCombo, k: int)
    requires
        -1 <= k < es.len(),
        k >= 0 ==> es[k].0 == combo,
        forall|j: int| k < j < es.len() ==> (#[trigger] es[j]).0 != combo,
    ensures
        k >= 0 ==> bound_action(es, combo) == Some(es[k].1),
        k < 0 ==> bound_action(es, combo) is None,
    decreases es.len(),
{
    if es.len() > 0 {
        let before = es.drop_last();
        if k < es.len() - 1 {
            assert(es[es.len() - 1].0 != combo);
            assert forall|j: int| k < j < before.len() implies (#[trigger] before[j]).0 != combo by {
                assert(before[j] == es[j]);
            }
            law_last_entry_counts(before, combo, k);
        }
    }
}

/// The entries are the combinations that keys of an action name, for every action
/// that has keys, and nothing else.
pub proof fn law_every_key_is_bound(
    bs: Seq<(KeyAction, SpecView)>,
    combo: KeyCombo,
    action: KeyAction,
)
    ensures
        all_combos(bs).contains((combo, action)) <==> exists|i: int, j: int|
            0 <= i < bs.len() && 0 <= j < spec_keys(bs[i].1).len() && bs[i].0 == action
                && combo_named(#[trigger] spec_keys(bs[i].1)[j], by_unicode()) == Some(combo),
    decreases bs.len(),
{
    if bs.len() > 0 {
        let before = bs.drop_last();
        let last = bs.len() - 1;
        law_every_key_is_bound(before, combo, action);
        let a = all_combos(before);
        let b = action_combos(bs.last().0, spec_keys(bs.last().1));
        lemma_action_combos(bs.last().0, spec_keys(bs.last().1), combo, action);
        assert(bs[last] == bs.last());
        if all_combos(bs).contains((combo, action)) {
            let n = choose|n: int|
                0 <= n < all_combos(bs).len() && all_combos(bs)[n] == (combo, action);
            if n < a.len() {
                assert(a[n] == (combo, action));
                let (i, j) = choose|i: int, j: int|
                    0 <= i < before.len() && 0 <= j < spec_keys(before[i].1).len() && before[i].0
                        == action && combo_named(
                        #[trigger] spec_keys(before[i].1)[j],
                        by_unicode(),
                    ) == Some(combo);
                assert(combo_named(spec_keys(bs[i].1)[j], by_unicode()) == Some(combo));
            } else {
                assert(b[n - a.len()] == (combo, action));
                assert(b.contains((combo, action)));
                let j = choose|j: int|
                    0 <= j < spec_keys(bs.last().1).len() && combo_named(
                        #[trigger] spec_keys(bs.last().1)[j],
                        by_unicode(),
                    ) == Some(combo);
                assert(combo_named(spec_keys(bs[last].1)[j], by_unicode()) == Some(combo));
            }
        }
        if exists|i: int, j: int|
            0 <= i < bs.len() && 0 <= j < spec_keys(bs[i].1).len() && bs[i].0 == action
                && combo_named(#[trigger] spec_keys(bs[i].1)[j], by_unicode()) == Some(combo) {
            let (i, j) = choose|i: int, j: int|
                0 <= i < bs.len() && 0 <= j < spec_keys(bs[i].1).len() && bs[i].0 == action
                    && combo_named(#[trigger] spec_keys(bs[i].1)[j], by_unicode()) == Some(combo);
            if i < last {
                assert(before[i] == bs[i]);
                assert(combo_named(spec_keys(before[i].1)[j], by_unicode()) == Some(combo));
                let n = choose|n: int| 0 <= n < a.len() && a[n] == (combo, action);
                assert(all_combos(bs)[n] == (combo, action));
            } else {
                assert(b.contains((combo, action)));
                let n = choose|n: int| 0 <= n < b.len() && b[n] == (combo, action);
                assert(all_combos(bs)[a.len() + n] == (combo, action));
            }
        }
    }
}

proof fn lemma_action_combos(
    owner: KeyAction,
    keys: Seq<Seq<char>>,
    combo: KeyCombo,
    action: KeyAction,
)
    ensures
        action_combos(owner, keys).contains((combo, action)) <==> owner == action && exists|j: int|
            0 <= j < keys.len() && combo_named(#[trigger] keys[j], by_unicode()) == Some(combo),
    decreases keys.len(),
{
    if keys.len() > 0 {
        let before = keys.drop_last();
        let last = keys.len() - 1;
        lemma_action_combos(owner, before, combo, action);
        let a = action_combos(owner, before);
        let all = action_combos(owner, keys);
        assert(keys[last] == keys.last());
        if all.contains((combo, action)) {
            let n = choose|n: int| 0 <= n < all.len() && all[n] == (combo, action);
            if n < a.len() {
                assert(a[n] == (combo, action));
                let j = choose|j: int|
                    0 <= j < before.len() && combo_named(#[trigger] before[j], by_unicode())
                        == Some(combo);
                assert(keys[j] == before[j]);
            }
        }
        if owner == action && exists|j: int|
            0 <= j < keys.len() && combo_named(#[trigger] keys[j], by_unicode()) == Some(combo) {
            let j = choose|j: int|
                0 <= j < keys.len() && combo_named(#[trigger] keys[j], by_unicode()) == Some(combo);
            if j < last {
                assert(before[j] == keys[j]);
                let n = choose|n: int| 0 <= n < a.len() && a[n] == (combo, action);
                assert(all[n] == (combo, action));
            } else {
                assert(all[a.len() as int] == (combo, action));
            }
        }
    }
}

/// An event is looked up as it is, but for Shift with a character that is no lower
/// case letter.
pub proof fn law_events_are_looked_up(code: KeyCode, modifiers: KeyModifiers)
    ensures
        ({
            let r = normalized(code, modifiers);
            let shown = code is Char && !('a' <= code->Char_0 && code->Char_0 <= 'z');
            &&& r.code == code
            &&& r.modifiers.control == modifiers.control
            &&& r.modifiers.alt == modifiers.alt
            &&& r.modifiers.super_key == modifiers.super_key
            &&& r.modifiers.hyper == modifiers.hyper
            &&& r.modifiers.meta == modifiers.meta
            &&& r.modifiers.shift == (modifiers.shift && !shown)
        }),
{
}

/// The keys of a configuration that nobody has changed.
pub proof fn law_default_keys(action: KeyAction)
    ensures
        action == KeyAction::MoveUp ==> default_keys(action)
            == SpecView::Multiple(seq!["k"@, "Up"@]),
        action == KeyAction::MoveDown ==> default_keys(action)
            == SpecView::Multiple(seq!["j"@, "Down"@]),
        action == KeyAction::MoveToTop ==> default_keys(action)
            == SpecView::Multiple(seq!["g"@, "Home"@]),
        action == KeyAction::MoveToBottom ==> default_keys(action)
            == SpecView::Multiple(seq!["G"@, "End"@]),
        action == KeyAction::PageUp ==> default_keys(action) == SpecView::Single("Ctrl+u"@),
        action == KeyAction::PageDown ==> default_keys(action) == SpecView::Single("Ctrl+d"@),
        action == KeyAction::FocusNextPane ==> default_keys(action) == SpecView::Single("Tab"@),
        action == KeyAction::FocusPrevPane ==> default_keys(action) == SpecView::Single("BackTab"@),
        action == KeyAction::FocusLeft ==> default_keys(action)
            == SpecView::Multiple(seq!["h"@, "Left"@]),
        action == KeyAction::FocusRight ==> default_keys(action)
            == SpecView::Multiple(seq!["l"@, "Right"@]),
        action == KeyAction::SelectItem ==> default_keys(action) == SpecView::Single("Enter"@),
        action == KeyAction::ToggleSelection ==> default_keys(action) == SpecView::Single("v"@),
        action == KeyAction::SelectAll ==> default_keys(action) == SpecView::Single("V"@),
        action == KeyAction::DeselectAll ==> default_keys(action) == SpecView::Single("Escape"@),
        action == KeyAction::AddDownload ==> default_keys(action) == SpecView::Single("a"@),
        action == KeyAction::DeleteDownload ==> default_keys(action) == SpecView::Single("d"@),
        action == KeyAction::ToggleDownload ==> default_keys(action) == SpecView::Single("Space"@),
        action == KeyAction::RetryDownload ==> default_keys(action) == SpecView::Single("r"@),
        action == KeyAction::ResumeAll ==> default_keys(action) == SpecView::Single("S"@),
        action == KeyAction::PauseAll ==> default_keys(action) == SpecView::Single("P"@),
        action == KeyAction::OpenContextMenu ==> default_keys(action) == SpecView::Single("m"@),
        action == KeyAction::EditItem ==> default_keys(action) == SpecView::Single("e"@),
        action == KeyAction::ToggleDetails ==> default_keys(action) == SpecView::Single("i"@),
        action == KeyAction::OpenSearch ==> default_keys(action) == SpecView::Single("/"@),
        action == KeyAction::OpenHelp ==> default_keys(action) == SpecView::Single("?"@),
        action == KeyAction::OpenSettings ==> default_keys(action) == SpecView::Single("x"@),
        action == KeyAction::SwitchFolder ==> default_keys(action) == SpecView::Single("F"@),
        action == KeyAction::Quit ==> default_keys(action)
            == SpecView::Multiple(seq!["q"@, "Ctrl+c"@]),
        action == KeyAction::Undo ==> default_keys(action) == SpecView::Single("Ctrl+z"@),
        action == KeyAction::Refresh ==> default_keys(action) == SpecView::Single("R"@),
{
}

/// An action that gets other keys has those and no others; every other action keeps
/// the keys that it had.
pub proof fn law_bound_to_other_keys(
    bs: Seq<(KeyAction, SpecView)>,
    action: KeyAction,
    keys: SpecView,
    k: int,
)
    requires
        0 <= k <= bs.len(),
        k < bs.len() ==> bs[k].0 == action,
        forall|j: int| 0 <= j < k ==> (#[trigger] bs[j]).0 != action,
    ensures
        k < bs.len() ==> bound_to(bs, action, keys, 0) == bs.update(k, (action, keys)),
        k == bs.len() ==> bound_to(bs, action, keys, 0) == bs + seq![(action, keys)],
{
    lemma_bound_to(bs, action, keys, 0, k);
    assert(bs.push((action, keys)) =~= bs + seq![(action, keys)]);
}

proof fn lemma_bound_to(
    bs: Seq<(KeyAction, SpecView)>,
    action: KeyAction,
    keys: SpecView,
    i: int,
    k: int,
)
    requires
        0 <= i <= k <= bs.len(),
        k < bs.len() ==> bs[k].0 == action,
        forall|j: int| i <= j < k ==> (#[trigger] bs[j]).0 != action,
    ensures
        bound_to(bs, action, keys, i) == (if k < bs.len() {
            bs.update(k, (action, keys))
        } else {
            bs.push((action, keys))
        }),
    decreases k - i,
{
    if i < k {
        assert(bs[i].0 != action);
        lemma_bound_to(bs, action, keys, i + 1, k);
    }
}

/// Whether no combination has two entries.
pub open spec fn combos_distinct(es: Seq<(KeyCombo, KeyAction)>) -> bool {
    forall|i: int, j: int| 0 <= i < j < es.len() ==> (#[trigger] es[i]).0 != (#[trigger] es[j]).0
}

/// Whether two lists bind every combination alike.
pub open spec fn bound_alike(
    es: Seq<(KeyCombo, KeyAction)>,
    fs: Seq<(KeyCombo, KeyAction)>,
) -> bool {
    forall|c: KeyCombo| #[trigger] bound_action(es, c) == bound_action(fs, c)
}

/// Where no combination has two entries, the one that it has is the one that
/// counts.
pub proof fn law_distinct_combos(es: Seq<(KeyCombo, KeyAction)>, combo: KeyCombo)
    requires
        combos_distinct(es),
    ensures
        forall|i: int|
            0 <= i < es.len() && (#[trigger] es[i]).0 == combo ==> bound_action(es, combo) == Some(
                es[i].1,
            ),
        (forall|i: int| 0 <= i < es.len() ==> (#[trigger] es[i]).0 != combo) ==> bound_action(
            es,
            combo,
        ) is None,
    decreases es.len(),
{
    if es.len() > 0 {
        let before = es.drop_last();
        law_distinct_combos(before, combo);
        assert forall|i: int| 0 <= i < es.len() && (#[trigger] es[i]).0 == combo implies bound_action(
            es,
            combo,
        ) == Some(es[i].1) by {
            if i < es.len() - 1 {
                assert(before[i] == es[i]);
            }
        }
        if forall|i: int| 0 <= i < es.len() ==> (#[trigger] es[i]).0 != combo {
            assert(es[es.len() - 1].0 != combo);
            assert forall|i: int| 0 <= i < before.len() implies (#[trigger] before[i]).0 != combo by {
                assert(before[i] == es[i]);
            }
        }
    }
}

/// Binds a combination to an action, in the place of the one it was bound to.
fn bind_combo(entries: &mut Vec<(KeyCombo, KeyAction)>, combo: KeyCombo, action: KeyAction)
    requires
        combos_distinct(old(entries)@),
    ensures
        combos_distinct(final(entries)@),
        bound_alike(final(entries)@, old(entries)@.push((combo, action))),
{
    let ghost es = entries@;
    let n: usize = entries.len();
    let mut at: usize = n;
    for i in 0..n
        invariant
            entries@ == es,
            n == es.len(),
            at == n || (at < n && es[at as int].0 == combo),
            at == n ==> forall|k: int| 0 <= k < i ==> (#[trigger] es[k]).0 != combo,
    {
        if entries[i].0 == combo {
            at = i;
        }
    }
    if at < n {
        entries.set(at, (combo, action));
    } else {
        entries.push((combo, action));
    }
    proof {
        let next = entries@;
        let long = es.push((combo, action));
        assert(long.drop_last() =~= es);
        assert(next[at as int] == (combo, action));
        assert forall|c: KeyCombo| #[trigger] bound_action(next, c) == bound_action(long, c) by {
            law_distinct_combos(es, c);
            law_distinct_combos(next, c);
            if c != combo {
                if exists|k: int| 0 <= k < es.len() && (#[trigger] es[k]).0 == c {
                    let k = choose|k: int| 0 <= k < es.len() && (#[trigger] es[k]).0 == c;
                    assert(next[k] == es[k]);
                } else {
                    assert forall|k: int| 0 <= k < next.len() implies (#[trigger] next[k]).0 != c by {
                        if k != at {
                            assert(next[k] == es[k]);
                        }
                    }
                }
            }
        }
    }
}

/// Finds the action of a key event.
pub struct KeybindingResolver {
    pub entries: Vec<(KeyCombo, KeyAction)>,
}

impl KeybindingResolver {
    /// A resolver for the shortcuts of a configuration.
    pub fn from_config(config: &KeybindingsConfig) -> (r: KeybindingResolver)
        ensures
            combos_distinct(r.entries@),
            bound_alike(r.entries@, all_combos(config@)),
    {
        let mut entries: Vec<(KeyCombo, KeyAction)> = Vec::new();
        let ghost bs = config@;
        for i in 0..config.bindings.len()
            invariant
                bs == config@,
                combos_distinct(entries@),
                bound_alike(entries@, all_combos(bs.take(i as int))),
        {
            let action = config.bindings[i].0;
            let keys = config.bindings[i].1.keys();
            let ghost before = all_combos(bs.take(i as int));
            let ghost ks = texts(keys@);
            proof {
                assert(bs[i as int].0 == action && spec_keys(bs[i as int].1) == ks);
                assert(bs.take(i + 1).drop_last() =~= bs.take(i as int));
                assert(bs.take(i + 1).last() == bs[i as int]);
                assert(before + action_combos(action, ks.take(0)) =~= before);
            }
            for j in 0..keys.len()
                invariant
                    ks == texts(keys@),
                    combos_distinct(entries@),
                    bound_alike(entries@, before + action_combos(action, ks.take(j as int))),
            {
                let ghost done = before + action_combos(action, ks.take(j as int));
                proof {
                    assert(ks.take(j + 1).drop_last() =~= ks.take(j as int));
                    assert(ks.take(j + 1).last() == keys@[j as int]@);
                }
                if let Some(combo) = KeyCombo::parse(keys[j].as_str()) {
                    let ghost es = entries@;
                    bind_combo(&mut entries, combo, action);
                    proof {
                        let next = done.push((combo, action));
                        assert(before + action_combos(action, ks.take(j + 1)) =~= next);
                        assert(next.drop_last() =~= done);
                        assert(es.push((combo, action)).drop_last() =~= es);
                        assert forall|c: KeyCombo| #[trigger] bound_action(entries@, c)
                            == bound_action(next, c) by {
                            assert(bound_action(es, c) == bound_action(done, c));
                        }
                    }
                }
            }
            assert(ks.take(ks.len() as int) =~= ks);
        }
        assert(bs.take(bs.len() as int) =~= bs);
        KeybindingResolver { entries }
    }

    /// The action of a key event.
    pub fn resolve(&self, code: KeyCode, modifiers: KeyModifiers) -> (r: Option<KeyAction>)
        ensures
            r == bound_action(self.entries@, normalized(code, modifiers)),
    {
        let combo = normalize_key_event(code, modifiers);
        let mut n: usize = self.entries.len();
        assert(self.entries@.take(n as int) =~= self.entries@);
        while n > 0
            invariant
                combo == normalized(code, modifiers),
                n <= self.entries@.len(),
                bound_action(self.entries@, combo) == bound_action(
                    self.entries@.take(n as int),
                    combo,
                ),
            decreases n,
        {
            let e = self.entries[n - 1];
            assert(self.entries@.take(n as int).last() == e);
            assert(self.entries@.take(n as int).drop_last() =~= self.entries@.take(n - 1));
            if e.0 == combo {
                return Some(e.1);
            }
            n = n - 1;
        }
        None
    }
}

/// A key event as it is looked up.
pub fn normalize_key_event(code: KeyCode, modifiers: KeyModifiers) -> (r: KeyCombo)
    ensures
        r == normalized(code, modifiers),
{
    match code {
        KeyCode::Char(c) => {
            if 'a' <= c && c <= 'z' {
                KeyCombo { code, modifiers }
            } else {
                KeyCombo { code, modifiers: KeyModifiers { shift: false, ..modifiers } }
            }
        },
        _ => KeyCombo { code, modifiers },
    }
}

impl Default for KeybindingResolver {
    fn default() -> (r: KeybindingResolver)
        ensures
            combos_distinct(r.entries@),
            bound_alike(
                r.entries@,
                all_combos(all_actions().map_values(|a: KeyAction| (a, default_keys(a)))),
            ),
    {
        let config: KeybindingsConfig = KeybindingsConfig::default();
        Self::from_config(&config)
    }
}

/// A key event leads to the action of the last shortcut that names it; Shift does not
/// count with a character that is no lower case letter.
pub proof fn law_resolve(
    config: &KeybindingsConfig,
    resolver: KeybindingResolver,
    code: KeyCode,
    modifiers: KeyModifiers,
    r: Option<KeyAction>,
    k: int,
)
    requires
        call_ensures(KeybindingResolver::from_config, (config,), resolver),
        call_ensures(KeybindingResolver::resolve, (&resolver, code, modifiers), r),
        ({
            let shown = code is Char && !('a' <= code->Char_0 && code->Char_0 <= 'z');
            let combo = KeyCombo {
                code,
                modifiers: KeyModifiers { shift: modifiers.shift && !shown, ..modifiers },
            };
            let es = all_combos(config@);
            &&& -1 <= k < es.len()
            &&& k >= 0 ==> es[k].0 == combo
            &&& forall|j: int| k < j < es.len() ==> (#[trigger] es[j]).0 != combo
        }),
    ensures
        k >= 0 ==> r == Some(all_combos(config@)[k].1),
        k < 0 ==> r is None,
{
    let shown = code is Char && !('a' <= code->Char_0 && code->Char_0 <= 'z');
    let combo = KeyCombo {
        code,
        modifiers: KeyModifiers { shift: modifiers.shift && !shown, ..modifiers },
    };
    law_events_are_looked_up(code, modifiers);
    assert(normalized(code, modifiers) == combo);
    law_last_entry_counts(all_combos(config@), combo, k);
    assert(bound_action(resolver.entries@, combo) == bound_action(all_combos(config@), combo));
}

} // verus!

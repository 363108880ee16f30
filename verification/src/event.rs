use vstd::prelude::*;

use crate::geometry::{Point, Size};

verus! {

/// A normalized keyboard key.
#[derive(Clone, Copy, Debug, PartialEq, Eq, Structural, Hash)]
pub enum KeyCode {
    Backspace,
    Enter,
    Left,
    Right,
    Up,
    Down,
    Home,
    End,
    PageUp,
    PageDown,
    Tab,
    BackTab,
    Delete,
    Insert,
    /// Function key.
    Function(u8),
    /// Unicode character.
    Character(char),
    /// Null key code.
    Null,
    Escape,
    CapsLock,
    ScrollLock,
    NumLock,
    PrintScreen,
    Pause,
    Menu,
    KeypadBegin,
    /// A backend key without a portable representation.
    Unknown,
}

/// Modifier keys active for a keyboard or mouse event, as a set of bits.
#[derive(Clone, Copy, Debug, Default, PartialEq, Eq, Structural, Hash)]
pub struct KeyModifiers(pub u8);

impl KeyModifiers {
    /// No modifiers.
    pub fn none() -> (r: Self)
        ensures
            r.0 == 0,
    {
        KeyModifiers(0)
    }

    /// Shift modifier.
    pub fn shift() -> (r: Self)
        ensures
            r.0 == 1,
    {
        KeyModifiers(1)
    }

    /// Control modifier.
    pub fn control() -> (r: Self)
        ensures
            r.0 == 2,
    {
        KeyModifiers(2)
    }

    /// Alt modifier.
    pub fn alt() -> (r: Self)
        ensures
            r.0 == 4,
    {
        KeyModifiers(4)
    }

    /// Super modifier.
    pub fn super_key() -> (r: Self)
        ensures
            r.0 == 8,
    {
        KeyModifiers(8)
    }

    /// Hyper modifier.
    pub fn hyper() -> (r: Self)
        ensures
            r.0 == 16,
    {
        KeyModifiers(16)
    }

    /// Meta modifier.
    pub fn meta() -> (r: Self)
        ensures
            r.0 == 32,
    {
        KeyModifiers(32)
    }

    /// Whether every modifier bit of `other` is set in `self`.
    pub open spec fn contains_spec(self, other: Self) -> bool {
        self.0 & other.0 == other.0
    }

    /// Union of two modifier sets.
    pub open spec fn union(self, other: Self) -> Self {
        KeyModifiers(self.0 | other.0)
    }

    /// Returns whether every modifier in `other` is present.
    pub fn contains(self, other: Self) -> (r: bool)
        ensures
            r == self.contains_spec(other),
    {
        self.0 & other.0 == other.0
    }

    /// Returns whether no modifiers are set.
    pub fn is_empty(self) -> (r: bool)
        ensures
            r == (self.0 == 0),
    {
        self.0 == 0
    }

    /// Adds every modifier of `other` to `self`.
    pub fn insert(&mut self, other: Self)
        ensures
            *final(self) == old(self).union(other),
    {
        self.0 = self.0 | other.0;
    }
}

impl core::ops::BitOr for KeyModifiers {
    type Output = Self;

    fn bitor(self, rhs: Self) -> (r: Self)
        ensures
            r == self.union(rhs),
    {
        KeyModifiers(self.0 | rhs.0)
    }
}

impl vstd::std_specs::ops::BitOrSpecImpl for KeyModifiers {
    open spec fn obeys_bitor_spec() -> bool {
        true
    }

    open spec fn bitor_req(self, rhs: Self) -> bool {
        true
    }

    open spec fn bitor_spec(self, rhs: Self) -> Self {
        self.union(rhs)
    }
}

/// A union contains both of its operands.
pub proof fn lemma_union_contains_operands(a: KeyModifiers, b: KeyModifiers)
    ensures
        a.union(b).contains_spec(a),
        a.union(b).contains_spec(b),
{
    let (x, y) = (a.0, b.0);
    assert((x | y) & x == x && (x | y) & y == y) by (bit_vector);
}

/// A modifier set contains another exactly when adding the other changes nothing.
pub proof fn lemma_contains_iff_union_absorbs(a: KeyModifiers, b: KeyModifiers)
    ensures
        a.contains_spec(b) <==> a.union(b) == a,
{
    let (x, y) = (a.0, b.0);
    assert((x & y == y) <==> ((x | y) == x)) by (bit_vector);
}

/// Every set contains the empty set, and the empty set contains only itself.
pub proof fn lemma_empty_modifiers(a: KeyModifiers)
    ensures
        a.contains_spec(KeyModifiers(0)),
        KeyModifiers(0).contains_spec(a) <==> a.0 == 0,
{
    let x = a.0;
    assert(x & 0 == 0 && ((0u8 & x == x) <==> x == 0)) by (bit_vector);
}

/// Union is commutative and associative.
pub proof fn lemma_union_algebra(a: KeyModifiers, b: KeyModifiers, c: KeyModifiers)
    ensures
        a.union(b) == b.union(a),
        a.union(b).union(c) == a.union(b.union(c)),
{
    let (x, y, z) = (a.0, b.0, c.0);
    assert((x | y) == (y | x) && ((x | y) | z) == (x | (y | z))) by (bit_vector);
}

/// Keyboard event phase.
#[derive(Clone, Copy, Debug, Default, PartialEq, Eq, Structural, Hash)]
pub enum KeyEventKind {
    /// Initial key press.
    #[default]
    Press,
    /// Automatic or protocol-reported repeat.
    Repeat,
    /// Key release.
    Release,
}

/// Additional keyboard state reported by enhanced protocols.
#[derive(Clone, Copy, Debug, Default, PartialEq, Eq, Structural, Hash)]
pub struct KeyEventState {
    pub keypad: bool,
    pub caps_lock: bool,
    pub num_lock: bool,
}

/// A normalized keyboard event.
#[derive(Clone, Copy, Debug, PartialEq, Eq, Structural, Hash)]
pub struct KeyEvent {
    pub code: KeyCode,
    pub modifiers: KeyModifiers,
    pub kind: KeyEventKind,
    pub state: KeyEventState,
}

/// A normalized mouse button.
#[derive(Clone, Copy, Debug, PartialEq, Eq, Structural, Hash)]
pub enum MouseButton {
    Left,
    Right,
    Middle,
}

/// A normalized mouse action.
#[derive(Clone, Copy, Debug, PartialEq, Eq, Structural, Hash)]
pub enum MouseEventKind {
    Down(MouseButton),
    Up(MouseButton),
    Drag(MouseButton),
    Moved,
    ScrollUp,
    ScrollDown,
    ScrollLeft,
    ScrollRight,
}

/// A normalized mouse event.
#[derive(Clone, Copy, Debug, PartialEq, Eq, Structural, Hash)]
pub struct MouseEvent {
    pub kind: MouseEventKind,
    /// Pointer position in viewport coordinates.
    pub position: Point,
    pub modifiers: KeyModifiers,
}

/// Input or lifecycle event emitted by a terminal backend.
#[derive(Clone, Debug, PartialEq, Eq)]
pub enum TerminalEvent {
    Key(KeyEvent),
    Mouse(MouseEvent),
    /// Complete bracketed-paste payload.
    Paste(String),
    /// Viewport resize.
    Resize(Size),
    FocusGained,
    FocusLost,
}

} // verus!

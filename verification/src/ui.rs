use vstd::prelude::*;
use vstd::string::StringExecFns;

verus! {

// ---------------------------------------------------------------------------
// Identities of retained user-interface nodes.
// ---------------------------------------------------------------------------

/// Explicit stable identity for a child in a dynamic collection.
#[derive(Clone, Debug, PartialEq, Eq, Hash)]
pub enum Key {
    /// Numeric application identity.
    Integer(u64),
    /// Owned string application identity.
    String(String),
}

impl From<u64> for Key {
    fn from(value: u64) -> (r: Self) {
        Key::Integer(value)
    }
}

impl vstd::std_specs::convert::FromSpecImpl<u64> for Key {
    open spec fn obeys_from_spec() -> bool {
        true
    }

    open spec fn from_spec(value: u64) -> Self {
        Key::Integer(value)
    }
}

impl From<u32> for Key {
    fn from(value: u32) -> (r: Self) {
        Key::Integer(value as u64)
    }
}

impl vstd::std_specs::convert::FromSpecImpl<u32> for Key {
    open spec fn obeys_from_spec() -> bool {
        true
    }

    open spec fn from_spec(value: u32) -> Self {
        Key::Integer(value as u64)
    }
}

impl From<usize> for Key {
    fn from(value: usize) -> (r: Self) {
        Key::Integer(value as u64)
    }
}

impl vstd::std_specs::convert::FromSpecImpl<usize> for Key {
    open spec fn obeys_from_spec() -> bool {
        true
    }

    open spec fn from_spec(value: usize) -> Self {
        Key::Integer(value as u64)
    }
}

impl From<String> for Key {
    fn from(value: String) -> (r: Self) {
        Key::String(value)
    }
}

impl vstd::std_specs::convert::FromSpecImpl<String> for Key {
    open spec fn obeys_from_spec() -> bool {
        true
    }

    open spec fn from_spec(value: String) -> Self {
        Key::String(value)
    }
}

impl Key {
    /// A string identity holding `value`.
    pub fn text(value: &str) -> (r: Self)
        ensures
            r matches Key::String(s) && s@ == value@,
    {
        Key::String(String::from_str(value))
    }
}

/// Stable category used to determine whether retained state is compatible.
#[derive(Clone, Copy, Debug, PartialEq, Eq, Hash)]
pub enum WidgetKind {
    /// A flex container with no intrinsic visual content.
    Container,
    /// Borrowed text content.
    Text,
    /// A third-party widget category.
    Custom(&'static str),
}

/// Stable identity for a retained UI node.
#[derive(Clone, Copy, Debug, PartialEq, Eq, Structural, Hash)]
pub struct NodeId(pub u64);

// ---------------------------------------------------------------------------
// Layout sizes and measurement constraints.
// ---------------------------------------------------------------------------

/// A size along one layout axis.
#[derive(Clone, Copy, Debug, PartialEq, Eq, Structural, Hash)]
pub enum Dimension {
    /// Let content and the layout algorithm determine the size.
    Auto,
    /// An exact number of terminal cells.
    Cells(u16),
    /// A percentage of the containing block, where `100` is the full size.
    Percent(u16),
}

impl Dimension {
    /// Creates an exact cell dimension.
    pub fn cells(value: u16) -> (r: Self)
        ensures
            r == Dimension::Cells(value),
    {
        Dimension::Cells(value)
    }

    /// Creates a percentage dimension.
    pub fn percent(value: u16) -> (r: Self)
        ensures
            r == Dimension::Percent(value),
    {
        Dimension::Percent(value)
    }
}

impl Default for Dimension {
    fn default() -> (r: Self)
        ensures
            r == Dimension::Auto,
    {
        Dimension::Auto
    }
}

/// Space available to a measured leaf along one axis.
#[derive(Clone, Copy, Debug, PartialEq, Eq, Structural, Hash)]
pub enum AvailableSpace {
    /// An exact upper bound in terminal cells.
    Definite(u16),
    /// The minimum size that does not overflow avoidably.
    MinContent,
    /// The preferred unconstrained size.
    MaxContent,
}

/// Constraints passed to a leaf measurement callback.
#[derive(Clone, Copy, Debug, PartialEq, Eq, Structural, Hash)]
pub struct MeasureInput {
    /// Content-width constraint for this measurement pass, when known.
    pub known_width: Option<u16>,
    /// Height fixed by layout, when known.
    pub known_height: Option<u16>,
    /// Content width available to the leaf.
    pub available_width: AvailableSpace,
    /// Height available to the leaf.
    pub available_height: AvailableSpace,
}

// ---------------------------------------------------------------------------
// Saturating conversions and text input caret geometry.
// ---------------------------------------------------------------------------

/// Converts a count to `u16`, saturating at `u16::MAX`.
pub fn saturating_u16(value: usize) -> (r: u16)
    ensures
        r == if value <= u16::MAX {
            value as int
        } else {
            u16::MAX as int
        },
{
    if value <= u16::MAX as usize {
        value as u16
    } else {
        u16::MAX
    }
}

/// Converts a count to `i32`, saturating at `i32::MAX`.
pub fn saturating_i32(value: usize) -> (r: i32)
    ensures
        r == if value <= i32::MAX {
            value as int
        } else {
            i32::MAX as int
        },
{
    if value <= i32::MAX as usize {
        value as i32
    } else {
        i32::MAX
    }
}

/// The last cell of an input `width` cells wide (0 when it has none).
pub open spec fn last_cell(width: u16) -> int {
    if width == 0 {
        0
    } else {
        width - 1
    }
}

/// Computes the caret column and span scroll offset of a single-line input
/// `width` cells wide, whose text before the caret is `cursor_width` cells
/// wide. The caret stays in place while it fits in the input, also at the
/// exact edge when no visible text follows it; otherwise the spans scroll
/// left so that the caret sits in the last cell. `suffix_has_width` tells
/// whether visible text follows the caret; it is asked only when the caret
/// sits exactly at the edge.
pub fn input_text_geometry<F: Fn() -> bool>(cursor_width: usize, width: u16, suffix_has_width: F) -> (r:
    (i32, i32))
    requires
        suffix_has_width.requires(()),
    ensures
        ({
            let cursor = if cursor_width <= i32::MAX {
                cursor_width as int
            } else {
                i32::MAX as int
            };
            let last = last_cell(width);
            &&& cursor <= last ==> r == (cursor as i32, 0i32)
            &&& cursor > last && cursor != width ==> r == (last as i32, (last - cursor) as i32)
            &&& cursor > last && cursor == width ==> exists|visible: bool|
                #[trigger] suffix_has_width.ensures((), visible) && r == if visible {
                    (last as i32, (last - cursor) as i32)
                } else {
                    (cursor as i32, 0i32)
                }
        }),
{
    let cursor = saturating_i32(cursor_width);
    let last: i32 = if width == 0 {
        0
    } else {
        (width - 1) as i32
    };
    if cursor <= last {
        return (cursor, 0);
    }
    if cursor == width as i32 {
        let visible = suffix_has_width();
        if !visible {
            assert(suffix_has_width.ensures((), visible));
            return (cursor, 0);
        }
        assert(suffix_has_width.ensures((), visible));
        return (last, last - cursor);
    }
    (last, last - cursor)
}

} // verus!

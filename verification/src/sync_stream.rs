use vstd::prelude::*;

verus! {

/// Whether `pattern` occurs in `bytes` at `offset`.
pub open spec fn occurs_at(bytes: Seq<u8>, offset: int, pattern: Seq<u8>) -> bool {
    0 <= offset && offset + pattern.len() <= bytes.len() && bytes.subrange(
        offset,
        offset + pattern.len(),
    ) == pattern
}

/// `ESC [ ? 2026 h`: begin synchronized update.
pub open spec fn begin_sync() -> Seq<u8> {
    seq![0x1bu8, 0x5b, 0x3f, 0x32, 0x30, 0x32, 0x36, 0x68]
}

/// `ESC [ ? 2026 l`: end synchronized update.
pub open spec fn end_sync() -> Seq<u8> {
    seq![0x1bu8, 0x5b, 0x3f, 0x32, 0x30, 0x32, 0x36, 0x6c]
}

/// `ESC \`: string terminator.
pub open spec fn string_terminator() -> Seq<u8> {
    seq![0x1bu8, 0x5c]
}

/// Position just past the terminator of a control string whose body starts
/// at `offset`: an ST ends any string, a BEL ends an OSC string, and an
/// unterminated string runs to the end of the stream.
pub open spec fn control_string_end(bytes: Seq<u8>, offset: int, osc: bool) -> int
    decreases bytes.len() - offset,
{
    if offset >= bytes.len() {
        bytes.len() as int
    } else if occurs_at(bytes, offset, string_terminator()) {
        offset + 2
    } else if osc && bytes[offset] == 7 {
        offset + 1
    } else {
        control_string_end(bytes, offset + 1, osc)
    }
}

/// Scanning a control string from a position inside the stream never moves
/// backwards and never leaves the stream.
pub proof fn lemma_control_string_end_advances(bytes: Seq<u8>, offset: int, osc: bool)
    ensures
        offset <= bytes.len() ==> offset <= control_string_end(bytes, offset, osc) <= bytes.len(),
    decreases bytes.len() - offset,
{
    if offset < bytes.len() && !occurs_at(bytes, offset, string_terminator()) && !(osc
        && bytes[offset] == 7) {
        lemma_control_string_end_advances(bytes, offset + 1, osc);
    }
}

/// Whether an OSC (`ESC ]`) or APC (`ESC _`) control string starts at `offset`.
pub open spec fn control_string_at(bytes: Seq<u8>, offset: int) -> bool {
    0 <= offset && offset + 1 < bytes.len() && bytes[offset] == 0x1b && (bytes[offset + 1] == 0x5d
        || bytes[offset + 1] == 0x5f)
}

/// Whether a synchronized update is open after reading `bytes` from
/// `offset`, given the state `open` before it. Begin and end sequences
/// inside OSC and APC strings are payload, not commands.
pub open spec fn sync_open_from(bytes: Seq<u8>, offset: int, open: bool) -> bool
    decreases bytes.len() - offset,
{
    if offset < 0 || offset >= bytes.len() {
        open
    } else if control_string_at(bytes, offset) {
        let end = control_string_end(bytes, offset + 2, bytes[offset + 1] == 0x5d);
        proof {
            lemma_control_string_end_advances(bytes, offset + 2, bytes[offset + 1] == 0x5d);
        }
        sync_open_from(bytes, end, open)
    } else if occurs_at(bytes, offset, begin_sync()) {
        sync_open_from(bytes, offset + 1, true)
    } else if occurs_at(bytes, offset, end_sync()) {
        sync_open_from(bytes, offset + 1, false)
    } else {
        sync_open_from(bytes, offset + 1, open)
    }
}

/// Whether `bytes[offset..]` begins with `pattern`.
fn bytes_at(bytes: &[u8], offset: usize, pattern: &[u8]) -> (r: bool)
    requires
        offset <= bytes@.len(),
    ensures
        r == occurs_at(bytes@, offset as int, pattern@),
{
    if pattern.len() > bytes.len() - offset {
        return false;
    }
    let mut j: usize = 0;
    while j < pattern.len()
        invariant
            offset + pattern@.len() <= bytes@.len(),
            bytes@.len() == bytes.len(),
            j <= pattern@.len(),
            forall|k: int| 0 <= k < j ==> bytes@[offset + k] == pattern@[k],
        decreases pattern@.len() - j,
    {
        if bytes[offset + j] != pattern[j] {
            assert(bytes@.subrange(offset as int, offset + pattern@.len())[j as int]
                != pattern@[j as int]);
            return false;
        }
        j = j + 1;
    }
    assert(bytes@.subrange(offset as int, offset + pattern@.len()) =~= pattern@);
    true
}

/// Finds the end of a control string whose body starts at `offset`.
fn control_string_end_exec(bytes: &[u8], offset: usize, osc: bool) -> (r: usize)
    requires
        offset <= bytes@.len(),
    ensures
        r == control_string_end(bytes@, offset as int, osc),
{
    let st: [u8; 2] = [0x1b, 0x5c];
    assert(st@ =~= string_terminator());
    let mut at = offset;
    while at < bytes.len()
        invariant
            offset <= at <= bytes@.len(),
            st@ == string_terminator(),
            control_string_end(bytes@, at as int, osc) == control_string_end(
                bytes@,
                offset as int,
                osc,
            ),
        decreases bytes@.len() - at,
    {
        if bytes_at(bytes, at, &st) {
            return at + 2;
        }
        if osc && bytes[at] == 7 {
            return at + 1;
        }
        at = at + 1;
    }
    at
}

/// Returns whether a terminal output stream leaves a synchronized update
/// open, ignoring begin and end sequences inside OSC and APC strings.
pub fn synchronized(bytes: &[u8]) -> (r: bool)
    ensures
        r == sync_open_from(bytes@, 0, false),
{
    let begin: [u8; 8] = [0x1b, 0x5b, 0x3f, 0x32, 0x30, 0x32, 0x36, 0x68];
    let end: [u8; 8] = [0x1b, 0x5b, 0x3f, 0x32, 0x30, 0x32, 0x36, 0x6c];
    assert(begin@ =~= begin_sync());
    assert(end@ =~= end_sync());
    let mut enabled = false;
    let mut offset: usize = 0;
    while offset < bytes.len()
        invariant
            offset <= bytes@.len(),
            begin@ == begin_sync(),
            end@ == end_sync(),
            sync_open_from(bytes@, offset as int, enabled) == sync_open_from(bytes@, 0, false),
        decreases bytes@.len() - offset,
    {
        if offset + 1 < bytes.len() && bytes[offset] == 0x1b && (bytes[offset + 1] == 0x5d
            || bytes[offset + 1] == 0x5f) {
            let osc = bytes[offset + 1] == 0x5d;
            proof {
                lemma_control_string_end_advances(bytes@, offset + 2, osc);
            }
            offset = control_string_end_exec(bytes, offset + 2, osc);
        } else {
            if bytes_at(bytes, offset, &begin) {
                enabled = true;
            } else if bytes_at(bytes, offset, &end) {
                enabled = false;
            }
            offset = offset + 1;
        }
    }
    enabled
}

} // verus!

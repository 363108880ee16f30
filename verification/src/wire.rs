use vstd::prelude::*;

verus! {

/// ASCII bytes of a character literal sequence.
pub open spec fn ascii(s: Seq<char>) -> Seq<u8> {
    s.map_values(|c: char| c as u8)
}

/// Decimal digits of a natural number, most significant first.
pub open spec fn decimal(n: nat) -> Seq<u8>
    decreases n,
{
    if n < 10 {
        seq![(48 + n) as u8]
    } else {
        decimal(n / 10).push((48 + n % 10) as u8)
    }
}

/// Appends the decimal digits of `n`.
pub fn push_decimal(out: &mut Vec<u8>, n: u64)
    ensures
        final(out)@ == old(out)@ + decimal(n as nat),
    decreases n,
{
    if n < 10 {
        out.push(48 + n as u8);
        assert(final(out)@ =~= old(out)@ + decimal(n as nat));
    } else {
        push_decimal(out, n / 10);
        out.push(48 + (n % 10) as u8);
        assert(final(out)@ =~= old(out)@ + decimal(n as nat));
    }
}

/// Appends the bytes of an ASCII literal.
pub fn push_literal(out: &mut Vec<u8>, s: &str)
    requires
        s.is_ascii(),
    ensures
        final(out)@ == old(out)@ + ascii(s@),
{
    proof {
        vstd::string::is_ascii_spec_bytes(s);
    }
    let b = s.as_bytes();
    let ghost start = out@;
    let mut i: usize = 0;
    while i < b.len()
        invariant
            b@ == Seq::new(s@.len(), |j: int| s@[j] as u8),
            i <= b@.len(),
            out@ == start + b@.subrange(0, i as int),
        decreases b@.len() - i,
    {
        out.push(b[i]);
        i = i + 1;
        assert(out@ =~= start + b@.subrange(0, i as int));
    }
    assert(out@ =~= start + ascii(s@));
}

/// Appends all bytes of `s`.
pub fn push_bytes(out: &mut Vec<u8>, s: &[u8])
    ensures
        final(out)@ == old(out)@ + s@,
{
    let ghost start = out@;
    let mut i: usize = 0;
    while i < s.len()
        invariant
            i <= s@.len(),
            out@ == start + s@.subrange(0, i as int),
        decreases s@.len() - i,
    {
        out.push(s[i]);
        i = i + 1;
        assert(out@ =~= start + s@.subrange(0, i as int));
    }
    assert(out@ =~= start + s@);
}

/// `ESC [ {row} ; {column} H`: moves the cursor to the zero-based cell `(x, y)`.
pub open spec fn move_to(x: u16, y: u16) -> Seq<u8> {
    ascii("\x1b["@) + decimal((y + 1) as nat) + ascii(";"@) + decimal((x + 1) as nat) + ascii("H"@)
}

/// Appends the cursor movement to the zero-based cell `(x, y)`.
pub fn push_move_to(out: &mut Vec<u8>, x: u16, y: u16)
    ensures
        final(out)@ == old(out)@ + move_to(x, y),
{
    proof {
        reveal_strlit("\x1b[");
        reveal_strlit(";");
        reveal_strlit("H");
    }
    push_literal(out, "\x1b[");
    push_decimal(out, y as u64 + 1);
    push_literal(out, ";");
    push_decimal(out, x as u64 + 1);
    push_literal(out, "H");
    assert(final(out)@ =~= old(out)@ + move_to(x, y));
}

/// A cell coordinate addressable by a one-based cursor movement.
pub open spec fn addressable(value: int) -> bool {
    0 <= value < 65535
}

/// A cell coordinate whose one-based form does not fit a cursor movement.
#[derive(Clone, Copy, Debug, PartialEq, Eq, Structural)]
pub struct CoordinateOutOfRange;

/// Converts the cell coordinate `base + offset` to a cursor-movement
/// argument, rejecting coordinates whose one-based form does not fit in
/// `u16`.
pub fn coordinate(base: i32, offset: usize) -> (r: Result<u16, CoordinateOutOfRange>)
    ensures
        addressable(base + offset) ==> r == Ok::<u16, CoordinateOutOfRange>((base + offset) as u16),
        !addressable(base + offset) ==> r is Err,
{
    let value = base as i128 + offset as i128;
    if 0 <= value && value < 65535 {
        Ok(value as u16)
    } else {
        Err(CoordinateOutOfRange)
    }
}

} // verus!

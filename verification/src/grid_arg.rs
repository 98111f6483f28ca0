use crate::metrics::count_byte;
use vstd::prelude::*;
use vstd::string::StringSliceAdditionalSpecFns;

verus! {

/// Why a decimal integer could not be read (the kinds of std's
/// `ParseIntError` that an unsigned parse can give).
#[derive(Clone, Copy, Debug, PartialEq, Eq, Structural)]
pub enum IntErrorKind {
    /// The text is empty.
    Empty,
    /// A character is not a decimal digit.
    InvalidDigit,
    /// The value does not fit in a `usize`.
    PosOverflow,
}

/// Why a grid specification was refused.
#[derive(Clone, Copy, Debug, PartialEq, Eq, Structural)]
pub enum GridError {
    /// The text does not hold exactly one `x`.
    Format,
    /// The width is not a `usize`.
    Width(IntErrorKind),
    /// The height is not a `usize`.
    Height(IntErrorKind),
    /// The width or the height is zero.
    NotPositive,
}

/// The byte of `x`, which separates the width from the height.
pub const SEPARATOR: u8 = 0x78;

/// The byte of `+`, which may stand before the digits.
pub const PLUS: u8 = 0x2b;

/// The decimal digits of `t`, read from the left onto `acc`: the first
/// byte that is no digit gives `InvalidDigit`, the first digit that takes
/// the value past `usize::MAX` gives `PosOverflow`.
pub open spec fn digits_value(t: Seq<u8>, acc: nat) -> Result<nat, IntErrorKind>
    decreases t.len(),
{
    if t.len() == 0 {
        Ok(acc)
    } else if !(0x30 <= t[0] <= 0x39) {
        Err(IntErrorKind::InvalidDigit)
    } else {
        let v = acc * 10 + (t[0] - 0x30);
        if v > usize::MAX {
            Err(IntErrorKind::PosOverflow)
        } else {
            digits_value(t.drop_first(), v as nat)
        }
    }
}

/// A `usize` written in decimal, as std's `str::parse::<usize>` reads it: an
/// optional `+` and then at least one digit.
pub open spec fn parse_usize(t: Seq<u8>) -> Result<nat, IntErrorKind> {
    if t.len() == 0 {
        Err(IntErrorKind::Empty)
    } else if t[0] == PLUS {
        if t.len() == 1 {
            Err(IntErrorKind::InvalidDigit)
        } else {
            digits_value(t.drop_first(), 0)
        }
    } else {
        digits_value(t, 0)
    }
}

/// Where the separator stands in `b`, when it stands there once.
pub open spec fn separator_at(b: Seq<u8>) -> int {
    choose|i: int| 0 <= i < b.len() && b[i] == SEPARATOR
}

/// The grid `b` describes: "WxH" with two positive decimal integers.
pub open spec fn grid_dims_of(b: Seq<u8>) -> Result<(nat, nat), GridError> {
    if count_byte(b, SEPARATOR) != 1 {
        Err(GridError::Format)
    } else {
        let i = separator_at(b);
        match parse_usize(b.subrange(0, i)) {
            Err(e) => Err(GridError::Width(e)),
            Ok(w) => match parse_usize(b.subrange(i + 1, b.len() as int)) {
                Err(e) => Err(GridError::Height(e)),
                Ok(h) => if w == 0 || h == 0 {
                    Err(GridError::NotPositive)
                } else {
                    Ok((w, h))
                },
            },
        }
    }
}

/// The text of std's `ParseIntError` of each kind.
pub open spec fn int_error_text(e: IntErrorKind) -> Seq<char> {
    match e {
        IntErrorKind::Empty => "cannot parse integer from empty string"@,
        IntErrorKind::InvalidDigit => "invalid digit found in string"@,
        IntErrorKind::PosOverflow => "number too large to fit in target type"@,
    }
}

/// The message for a refused grid specification `s`.
pub open spec fn grid_error_text(e: GridError, s: Seq<char>) -> Seq<char> {
    match e {
        GridError::Format => "Invalid grid format '"@ + s + "', expected WxH (e.g. 240x135)"@,
        GridError::Width(k) => "Invalid grid width: "@ + int_error_text(k),
        GridError::Height(k) => "Invalid grid height: "@ + int_error_text(k),
        GridError::NotPositive => "Grid dimensions must be positive"@,
    }
}

proof fn lemma_count_byte_split(p: Seq<u8>, q: Seq<u8>, b: u8)
    ensures
        count_byte(p + q, b) == count_byte(p, b) + count_byte(q, b),
    decreases q.len(),
{
    if q.len() == 0 {
        assert(p + q =~= p);
    } else {
        assert((p + q).drop_last() =~= p + q.drop_last());
        lemma_count_byte_split(p, q.drop_last(), b);
    }
}

proof fn lemma_digits_value_bound(t: Seq<u8>, acc: nat)
    requires
        acc <= usize::MAX,
    ensures
        digits_value(t, acc) matches Ok(v) ==> v <= usize::MAX,
    decreases t.len(),
{
    if t.len() > 0 && 0x30 <= t[0] <= 0x39 {
        let v = acc * 10 + (t[0] - 0x30);
        if v <= usize::MAX {
            lemma_digits_value_bound(t.drop_first(), v as nat);
        }
    }
}

proof fn lemma_separator_at(b: Seq<u8>, pos: int)
    requires
        0 <= pos < b.len(),
        b[pos] == SEPARATOR,
        forall|j: int| 0 <= j < b.len() && j != pos ==> b[j] != SEPARATOR,
    ensures
        separator_at(b) == pos,
{
}

/// Read the decimal digits of `b[start..end]` onto zero.
fn read_digits(b: &[u8], start: usize, end: usize) -> (r: Result<usize, IntErrorKind>)
    requires
        start <= end <= b@.len(),
    ensures
        match digits_value(b@.subrange(start as int, end as int), 0) {
            Ok(v) => v <= usize::MAX && r == Ok::<usize, IntErrorKind>(v as usize),
            Err(e) => r == Err::<usize, IntErrorKind>(e),
        },
{
    proof {
        lemma_digits_value_bound(b@.subrange(start as int, end as int), 0);
    }
    let ghost t = b@.subrange(start as int, end as int);
    let mut acc: usize = 0;
    let mut i: usize = start;
    while i < end
        invariant
            start <= i <= end <= b@.len(),
            t == b@.subrange(start as int, end as int),
            digits_value(t, 0) == digits_value(b@.subrange(i as int, end as int), acc as nat),
        decreases end - i,
    {
        let c = b[i];
        let ghost rest = b@.subrange(i as int, end as int);
        assert(rest[0] == c);
        assert(rest.drop_first() =~= b@.subrange(i + 1, end as int));
        if c < 0x30 || c > 0x39 {
            return Err(IntErrorKind::InvalidDigit);
        }
        let d = (c - 0x30) as usize;
        match acc.checked_mul(10) {
            None => {
                return Err(IntErrorKind::PosOverflow);
            },
            Some(m) => match m.checked_add(d) {
                None => {
                    return Err(IntErrorKind::PosOverflow);
                },
                Some(v) => {
                    acc = v;
                },
            },
        }
        i = i + 1;
    }
    assert(b@.subrange(i as int, end as int).len() == 0);
    Ok(acc)
}

/// Read a `usize` in decimal from `b[start..end]`, as std's
/// `str::parse::<usize>` does.
pub(crate) fn read_usize(b: &[u8], start: usize, end: usize) -> (r: Result<usize, IntErrorKind>)
    requires
        start <= end <= b@.len(),
    ensures
        match parse_usize(b@.subrange(start as int, end as int)) {
            Ok(v) => v <= usize::MAX && r == Ok::<usize, IntErrorKind>(v as usize),
            Err(e) => r == Err::<usize, IntErrorKind>(e),
        },
{
    let ghost t = b@.subrange(start as int, end as int);
    if start == end {
        return Err(IntErrorKind::Empty);
    }
    if b[start] == PLUS {
        if end - start == 1 {
            return Err(IntErrorKind::InvalidDigit);
        }
        assert(t.drop_first() =~= b@.subrange(start + 1, end as int));
        read_digits(b, start + 1, end)
    } else {
        read_digits(b, start, end)
    }
}

/// Read a `usize` in decimal from `s`, as std's `str::parse::<usize>` does.
pub fn parse_usize_str(s: &str) -> (r: Result<usize, IntErrorKind>)
    ensures
        match parse_usize(s.spec_bytes()) {
            Ok(v) => v <= usize::MAX && r == Ok::<usize, IntErrorKind>(v as usize),
            Err(e) => r == Err::<usize, IntErrorKind>(e),
        },
{
    let b = s.as_bytes();
    let n = b.len();
    assert(b@.subrange(0, n as int) =~= b@);
    read_usize(b, 0, n)
}

/// Where the only separator of `b` stands, if it stands there once.
fn find_separator(b: &[u8]) -> (r: Option<usize>)
    ensures
        count_byte(b@, SEPARATOR) == 1 <==> r is Some,
        r matches Some(pos) ==> pos < b@.len() && separator_at(b@) == pos as int,
{
    let ghost bs = b@;
    let mut count: usize = 0;
    let mut pos: usize = 0;
    let mut i: usize = 0;
    while i < b.len()
        invariant
            bs == b@,
            i <= b@.len(),
            count == count_byte(bs.take(i as int), SEPARATOR),
            count <= i,
            count >= 1 ==> pos < i && bs[pos as int] == SEPARATOR,
            count == 0 ==> forall|j: int| 0 <= j < i ==> bs[j] != SEPARATOR,
            count == 1 ==> forall|j: int| 0 <= j < i && j != pos ==> bs[j] != SEPARATOR,
        decreases b@.len() - i,
    {
        assert(bs.take(i + 1).drop_last() =~= bs.take(i as int));
        if b[i] == SEPARATOR {
            if count == 0 {
                pos = i;
            }
            count = count + 1;
        }
        i = i + 1;
    }
    assert(bs.take(i as int) =~= bs);
    if count != 1 {
        return None;
    }
    proof {
        lemma_separator_at(bs, pos as int);
    }
    Some(pos)
}

/// The width and height that a "WxH" grid specification describes, read
/// from its UTF-8 bytes.
pub fn grid_dims(s: &str) -> (r: Result<(usize, usize), GridError>)
    ensures
        match grid_dims_of(s.spec_bytes()) {
            Ok((w, h)) => w <= usize::MAX && h <= usize::MAX && r == Ok::<(usize, usize), GridError>(
                (w as usize, h as usize),
            ),
            Err(e) => r == Err::<(usize, usize), GridError>(e),
        },
{
    let b = s.as_bytes();
    let n = b.len();
    let pos = match find_separator(b) {
        None => {
            return Err(GridError::Format);
        },
        Some(pos) => pos,
    };
    let w = match read_usize(b, 0, pos) {
        Err(e) => {
            return Err(GridError::Width(e));
        },
        Ok(w) => w,
    };
    let h = match read_usize(b, pos + 1, n) {
        Err(e) => {
            return Err(GridError::Height(e));
        },
        Ok(h) => h,
    };
    if w == 0 || h == 0 {
        return Err(GridError::NotPositive);
    }
    Ok((w, h))
}

/// The text of std's `ParseIntError` of kind `e`.
pub fn int_error_str(e: IntErrorKind) -> (s: &'static str)
    ensures
        s@ == int_error_text(e),
{
    match e {
        IntErrorKind::Empty => "cannot parse integer from empty string",
        IntErrorKind::InvalidDigit => "invalid digit found in string",
        IntErrorKind::PosOverflow => "number too large to fit in target type",
    }
}

/// Append the text of std's `ParseIntError` of kind `e`.
fn push_int_error(out: &mut String, e: IntErrorKind)
    ensures
        final(out)@ == old(out)@ + int_error_text(e),
{
    match e {
        IntErrorKind::Empty => {
            out.append("cannot parse integer from empty string");
        },
        IntErrorKind::InvalidDigit => {
            out.append("invalid digit found in string");
        },
        IntErrorKind::PosOverflow => {
            out.append("number too large to fit in target type");
        },
    }
}

impl GridError {
    /// The message for this refusal of the grid specification `s`.
    pub fn message(&self, s: &str) -> (m: String)
        ensures
            m@ == grid_error_text(*self, s@),
    {
        let mut m = String::new();
        match self {
            GridError::Format => {
                m.append("Invalid grid format '");
                m.append(s);
                m.append("', expected WxH (e.g. 240x135)");
            },
            GridError::Width(k) => {
                m.append("Invalid grid width: ");
                push_int_error(&mut m, *k);
            },
            GridError::Height(k) => {
                m.append("Invalid grid height: ");
                push_int_error(&mut m, *k);
            },
            GridError::NotPositive => {
                m.append("Grid dimensions must be positive");
            },
        }
        m
    }
}

/// Parse a "WxH" grid specification string.
pub fn parse_grid(s: &str) -> (r: Result<(usize, usize), String>)
    ensures
        match grid_dims_of(s.spec_bytes()) {
            Ok((w, h)) => r == Ok::<(usize, usize), String>((w as usize, h as usize)),
            Err(e) => r matches Err(m) && m@ == grid_error_text(e, s@),
        },
{
    match grid_dims(s) {
        Ok(dims) => Ok(dims),
        Err(e) => Err(e.message(s)),
    }
}

} // verus!

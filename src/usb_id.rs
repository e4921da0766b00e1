use vstd::prelude::*;
use vstd::slice::slice_subrange;
use vstd::string::StringSliceAdditionalSpecFns;

verus! {

/// Why a hexadecimal number did not parse.
#[derive(Clone, Copy, Debug, PartialEq, Eq, Structural)]
pub enum HexError {
    Empty,
    InvalidDigit,
    PosOverflow,
}

/// Why a `VID:PID` pair did not parse.
#[derive(Clone, Copy, Debug, PartialEq, Eq, Structural)]
pub enum UsbIdError {
    /// Not exactly two parts around one `:`.
    Format,
    Vid(HexError),
    Pid(HexError),
}

/// A USB vendor and product id; zero matches any.
#[derive(Clone, Copy, Debug, PartialEq, Eq, Structural)]
pub struct UsbId {
    pub vid: u16,
    pub pid: u16,
}

pub open spec fn hex_digit(c: u8) -> Option<nat> {
    if 48 <= c <= 57 {
        Some((c - 48) as nat)
    } else if 97 <= c <= 102 {
        Some((c - 87) as nat)
    } else if 65 <= c <= 70 {
        Some((c - 55) as nat)
    } else {
        None
    }
}

/// Digits read left to right; the first bad digit or the first overflow ends it.
pub open spec fn hex_digits(d: Seq<u8>) -> Result<nat, HexError>
    decreases d.len(),
{
    if d.len() == 0 {
        Ok(0)
    } else {
        match hex_digits(d.drop_last()) {
            Err(e) => Err(e),
            Ok(v) => match hex_digit(d.last()) {
                None => Err(HexError::InvalidDigit),
                Some(x) => if v * 16 + x > 0xFFFF {
                    Err(HexError::PosOverflow)
                } else {
                    Ok(v * 16 + x)
                },
            },
        }
    }
}

/// A `u16` in base 16, with an optional leading `+`.
pub open spec fn parse_hex_u16(b: Seq<u8>) -> Result<u16, HexError> {
    if b.len() == 0 {
        Err(HexError::Empty)
    } else if b[0] == 43 && b.len() == 1 {
        Err(HexError::InvalidDigit)
    } else {
        let d = if b[0] == 43 { b.drop_first() } else { b };
        match hex_digits(d) {
            Ok(v) => Ok(v as u16),
            Err(e) => Err(e),
        }
    }
}

pub open spec fn colon_count(b: Seq<u8>) -> nat
    decreases b.len(),
{
    if b.len() == 0 {
        0
    } else {
        colon_count(b.drop_last()) + if b.last() == 58 { 1nat } else { 0nat }
    }
}

/// `VID:PID` with both parts in base 16.
pub open spec fn parse_usb_id(b: Seq<u8>) -> Result<UsbId, UsbIdError> {
    if colon_count(b) != 1 {
        Err(UsbIdError::Format)
    } else {
        let k = choose|k: int| 0 <= k < b.len() && b[k] == 58;
        match (parse_hex_u16(b.subrange(0, k)), parse_hex_u16(b.subrange(k + 1, b.len() as int))) {
            (Err(e), _) => Err(UsbIdError::Vid(e)),
            (Ok(_), Err(e)) => Err(UsbIdError::Pid(e)),
            (Ok(vid), Ok(pid)) => Ok(UsbId { vid, pid }),
        }
    }
}

fn parse_hex(b: &[u8]) -> (r: Result<u16, HexError>)
    ensures
        r == parse_hex_u16(b@),
{
    if b.len() == 0 {
        return Err(HexError::Empty);
    }
    if b[0] == 43 && b.len() == 1 {
        return Err(HexError::InvalidDigit);
    }
    let start: usize = if b[0] == 43 { 1 } else { 0 };
    let ghost d = if b@[0] == 43 { b@.drop_first() } else { b@ };
    assert(d =~= b@.subrange(start as int, b@.len() as int));
    let mut v: u32 = 0;
    let mut i: usize = start;
    assert(d.subrange(0, 0) =~= seq![]);
    while i < b.len()
        invariant
            start <= i <= b@.len(),
            b@.len() > 0,
            !(b@[0] == 43 && b@.len() == 1),
            d == (if b@[0] == 43 { b@.drop_first() } else { b@ }),
            d == b@.subrange(start as int, b@.len() as int),
            hex_digits(d.subrange(0, i - start)) == Ok::<nat, HexError>(v as nat),
            v <= 0xFFFF,
        decreases b@.len() - i,
    {
        let c = b[i];
        assert(d[i - start] == c);
        assert(d.subrange(0, i + 1 - start).drop_last() =~= d.subrange(0, i - start));
        assert(d.subrange(0, i + 1 - start).last() == c);
        let x: u32 = if 48 <= c && c <= 57 {
            (c - 48) as u32
        } else if 97 <= c && c <= 102 {
            (c - 87) as u32
        } else if 65 <= c && c <= 70 {
            (c - 55) as u32
        } else {
            proof {
                assert(hex_digit(c) is None);
                assert(hex_digits(d.subrange(0, i + 1 - start)) == Err::<nat, HexError>(HexError::InvalidDigit));
                lemma_hex_prefix_err(d, (i + 1 - start) as int);
                assert(hex_digits(d) == Err::<nat, HexError>(HexError::InvalidDigit));
                assert(!(b@[0] == 43 && b@.len() == 1));
            }
            return Err(HexError::InvalidDigit);
        };
        assert(hex_digit(c) == Some(x as nat));
        if v * 16 + x > 0xFFFF {
            proof {
                assert(hex_digits(d.subrange(0, i + 1 - start)) == Err::<nat, HexError>(HexError::PosOverflow));
                lemma_hex_prefix_err(d, (i + 1 - start) as int);
                assert(hex_digits(d) == Err::<nat, HexError>(HexError::PosOverflow));
                assert(!(b@[0] == 43 && b@.len() == 1));
            }
            return Err(HexError::PosOverflow);
        }
        v = v * 16 + x;
        i = i + 1;
    }
    assert(d.subrange(0, d.len() as int) =~= d);
    Ok(v as u16)
}

proof fn lemma_hex_prefix_err(d: Seq<u8>, j: int)
    requires
        0 <= j <= d.len(),
        hex_digits(d.subrange(0, j)) is Err,
    ensures
        hex_digits(d) == hex_digits(d.subrange(0, j)),
    decreases d.len(),
{
    if j == d.len() {
        assert(d.subrange(0, j) =~= d);
    } else {
        assert(d.drop_last().subrange(0, j) =~= d.subrange(0, j));
        lemma_hex_prefix_err(d.drop_last(), j);
    }
}

/// The position of the only colon, if there is exactly one.
fn single_colon(b: &[u8]) -> (r: Option<usize>)
    ensures
        r is Some <==> colon_count(b@) == 1,
        r matches Some(k) ==> k < b@.len(),
        r matches Some(k) ==> b@[k as int] == 58,
        r matches Some(k) ==> forall|j: int| 0 <= j < b@.len() && b@[j] == 58 ==> j == k,
{
    let mut colons: usize = 0;
    let mut at: usize = 0;
    let mut i: usize = 0;
    assert(b@.subrange(0, 0) =~= seq![]);
    while i < b.len()
        invariant
            i <= b@.len(),
            colons == colon_count(b@.subrange(0, i as int)),
            colons <= i,
            colons >= 1 ==> at < i && b@[at as int] == 58,
            colons == 0 ==> forall|k: int| 0 <= k < i ==> b@[k] != 58,
            colons == 1 ==> forall|k: int| 0 <= k < i && b@[k] == 58 ==> k == at,
        decreases b@.len() - i,
    {
        assert(b@.subrange(0, i + 1).drop_last() =~= b@.subrange(0, i as int));
        if b[i] == 58 {
            if colons == 0 {
                at = i;
            }
            colons = colons + 1;
        }
        i = i + 1;
    }
    assert(b@.subrange(0, b@.len() as int) =~= b@);
    if colons == 1 {
        Some(at)
    } else {
        None
    }
}

impl UsbId {
    /// Parses `VID:PID`, two hexadecimal numbers around a single colon.
    pub fn parse(s: &str) -> (r: Result<UsbId, UsbIdError>)
        ensures
            r == parse_usb_id(s.spec_bytes()),
    {
        let b = s.as_bytes();
        let at = match single_colon(b) {
            Some(k) => k,
            None => {
                return Err(UsbIdError::Format);
            },
        };
        let n = b.len();
        assert(at < n);
        let ghost k = choose|k: int| 0 <= k < b@.len() && b@[k] == 58;
        assert(k == at);
        let vid = match parse_hex(slice_subrange(b, 0, at)) {
            Ok(v) => v,
            Err(e) => {
                return Err(UsbIdError::Vid(e));
            },
        };
        let pid = match parse_hex(slice_subrange(b, at + 1, n)) {
            Ok(v) => v,
            Err(e) => {
                return Err(UsbIdError::Pid(e));
            },
        };
        Ok(UsbId { vid, pid })
    }
}

} // verus!

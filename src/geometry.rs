//! Geometry and format resolution: width, height and bytes per pixel read
//! from a configuration.
use crate::config::ConfigMap;
use vstd::prelude::*;

verus! {

/// Why a pixel buffer could not be produced.
#[derive(Clone, Copy, Debug, PartialEq, Eq, Structural)]
pub enum RenderError {
    /// No configuration pairs were given.
    NullOrEmptyInput,
    /// `texW` or `texH` is absent or not an unsigned integer.
    MissingOrUnparsableDimension,
    /// `texFormat` names neither `RGB` nor `RGBA`.
    UnsupportedFormat,
    /// The buffer size does not fit in memory.
    AllocationFailure,
}

/// The layout of an image: its size in pixels and the bytes of each pixel.
#[derive(Clone, Copy, Debug, PartialEq, Eq, Structural)]
pub struct ImageGeometry {
    pub width: usize,
    pub height: usize,
    pub channels: usize,
}

impl ImageGeometry {
    /// The number of bytes of a buffer with this layout.
    pub open spec fn size(&self) -> nat {
        self.width as nat * self.height as nat * self.channels as nat
    }

    /// The buffer size in bytes, or `None` where it does not fit in `usize`.
    pub fn total_size(&self) -> (r: Option<usize>)
        ensures
            match r {
                Some(n) => n == self.size(),
                None => self.size() > usize::MAX,
            },
    {
        if self.width == 0 || self.height == 0 || self.channels == 0 {
            proof {
                assert(self.size() == 0) by (nonlinear_arith)
                    requires
                        self.width == 0 || self.height == 0 || self.channels == 0,
                ;
            }
            return Some(0);
        }
        match self.width.checked_mul(self.height) {
            Some(area) => match area.checked_mul(self.channels) {
                Some(n) => Some(n),
                None => None,
            },
            None => {
                proof {
                    assert(self.width as nat * self.height as nat * self.channels as nat
                        >= self.width as nat * self.height as nat) by (nonlinear_arith)
                        requires
                            self.channels >= 1,
                    ;
                }
                None
            },
        }
    }
}

/// The key that holds the width.
pub open spec fn width_key() -> Seq<char> {
    seq!['t', 'e', 'x', 'W']
}

/// The key that holds the height.
pub open spec fn height_key() -> Seq<char> {
    seq!['t', 'e', 'x', 'H']
}

/// The key that holds the pixel format.
pub open spec fn format_key() -> Seq<char> {
    seq!['t', 'e', 'x', 'F', 'o', 'r', 'm', 'a', 't']
}

/// The format assumed where none is given.
pub open spec fn default_format() -> Seq<char> {
    seq!['R', 'G', 'B', 'A']
}

/// Whether `c` is an ASCII decimal digit.
pub open spec fn is_digit(c: char) -> bool {
    '0' <= c <= '9'
}

/// The value of a sequence of decimal digits, most significant first.
pub open spec fn digits_value(d: Seq<char>) -> nat
    decreases d.len(),
{
    if d.len() == 0 {
        0
    } else {
        digits_value(d.drop_last()) * 10 + (d.last() as nat - '0' as nat) as nat
    }
}

/// The digits of an unsigned number: the text without one leading `+`.
pub open spec fn unsigned_digits(s: Seq<char>) -> Seq<char> {
    if s.len() > 0 && s[0] == '+' {
        s.drop_first()
    } else {
        s
    }
}

/// The unsigned integer that a text denotes: an optional `+` followed by one
/// or more decimal digits, with a value that fits in `usize`. Anything else,
/// whitespace included, denotes none.
pub open spec fn unsigned_value(s: Seq<char>) -> Option<usize> {
    let d = unsigned_digits(s);
    if d.len() > 0 && (forall|i: int| 0 <= i < d.len() ==> is_digit(#[trigger] d[i]))
        && digits_value(d) <= usize::MAX {
        Some(digits_value(d) as usize)
    } else {
        None
    }
}

/// A prefix of a digit sequence is worth no more than the whole of it.
proof fn lemma_digits_value_grows(d: Seq<char>, n: int)
    requires
        0 <= n <= d.len(),
        forall|i: int| 0 <= i < d.len() ==> is_digit(#[trigger] d[i]),
    ensures
        digits_value(d.take(n)) <= digits_value(d),
    decreases d.len() - n,
{
    if n < d.len() {
        lemma_digits_value_grows(d, n + 1);
        assert(d.take(n + 1).drop_last() =~= d.take(n));
    } else {
        assert(d.take(n) =~= d);
    }
}

/// Parses an unsigned integer in base ten.
pub fn parse_dimension(s: &str) -> (r: Option<usize>)
    ensures
        r == unsigned_value(s@),
{
    let len = s.unicode_len();
    let start: usize = if len > 0 && s.get_char(0) == '+' {
        1
    } else {
        0
    };
    let ghost d = unsigned_digits(s@);
    assert(d =~= s@.subrange(start as int, len as int));
    if start == len {
        return None;
    }
    let mut acc: usize = 0;
    let mut i: usize = start;
    while i < len
        invariant
            start <= i <= len,
            len == s@.len(),
            d == s@.subrange(start as int, len as int),
            d == unsigned_digits(s@),
            forall|j: int| 0 <= j < i - start ==> is_digit(#[trigger] d[j]),
            acc == digits_value(d.take(i - start)),
        decreases len - i,
    {
        let ch = s.get_char(i);
        if !('0' <= ch && ch <= '9') {
            assert(!is_digit(d[i - start]));
            return None;
        }
        let digit: usize = (ch as u32 - '0' as u32) as usize;
        assert(d.take(i - start + 1).drop_last() =~= d.take(i - start));
        match acc.checked_mul(10) {
            Some(t) => match t.checked_add(digit) {
                Some(n) => {
                    acc = n;
                },
                None => {
                    proof {
                        if forall|j: int| 0 <= j < d.len() ==> is_digit(#[trigger] d[j]) {
                            lemma_digits_value_grows(d, i - start + 1);
                        }
                    }
                    return None;
                },
            },
            None => {
                proof {
                    if forall|j: int| 0 <= j < d.len() ==> is_digit(#[trigger] d[j]) {
                        lemma_digits_value_grows(d, i - start + 1);
                    }
                }
                return None;
            },
        }
        i = i + 1;
    }
    assert(d.take(i - start) =~= d);
    Some(acc)
}

/// The text that upper-casing makes of a text.
pub uninterp spec fn upper_text(s: Seq<char>) -> Seq<char>;

/// Relies on `str::to_uppercase`: the upper-case form of the text, which
/// depends on the characters alone.
#[verifier::external_body]
fn to_upper(s: &str) -> (r: String)
    ensures
        r@ == upper_text(s@),
{
    s.to_uppercase()
}

/// Bytes per pixel of an upper-cased format name: three for `RGB`, four for
/// `RGBA`, none for anything else.
pub open spec fn channels_of(format: Seq<char>) -> Option<usize> {
    if format == seq!['R', 'G', 'B'] {
        Some(3)
    } else if format == default_format() {
        Some(4)
    } else {
        None
    }
}

/// Bytes per pixel of an upper-cased format name.
pub fn channels_for_format(format: &str) -> (r: Option<usize>)
    ensures
        r == channels_of(format@),
{
    let len = format.unicode_len();
    if len != 3 && len != 4 {
        return None;
    }
    if format.get_char(0) != 'R' || format.get_char(1) != 'G' || format.get_char(2) != 'B' {
        return None;
    }
    if len == 3 {
        assert(format@ =~= seq!['R', 'G', 'B']);
        Some(3)
    } else if format.get_char(3) == 'A' {
        assert(format@ =~= default_format());
        Some(4)
    } else {
        None
    }
}

/// The dimension stored under `key`, where it is there and parses.
pub open spec fn dimension_of(m: Map<Seq<char>, Seq<char>>, key: Seq<char>) -> Option<usize> {
    if m.contains_key(key) {
        unsigned_value(m[key])
    } else {
        None
    }
}

/// The upper-cased format of a configuration, `RGBA` where none is given.
pub open spec fn format_of(m: Map<Seq<char>, Seq<char>>) -> Seq<char> {
    if m.contains_key(format_key()) {
        upper_text(m[format_key()])
    } else {
        default_format()
    }
}

/// The geometry that a configuration describes, or the first thing wrong with
/// it, looked at in the order width, height, format.
pub open spec fn geometry_of(m: Map<Seq<char>, Seq<char>>) -> Result<ImageGeometry, RenderError> {
    match dimension_of(m, width_key()) {
        None => Err(RenderError::MissingOrUnparsableDimension),
        Some(w) => match dimension_of(m, height_key()) {
            None => Err(RenderError::MissingOrUnparsableDimension),
            Some(h) => match channels_of(format_of(m)) {
                None => Err(RenderError::UnsupportedFormat),
                Some(c) => Ok(ImageGeometry { width: w, height: h, channels: c }),
            },
        },
    }
}

/// Reads width, height and format from a configuration.
pub fn resolve_geometry(config: &ConfigMap) -> (r: Result<ImageGeometry, RenderError>)
    requires
        config.wf(),
    ensures
        r == geometry_of(config@),
{
    let width_name = "texW".to_string();
    let height_name = "texH".to_string();
    let format_name = "texFormat".to_string();
    proof {
        reveal_strlit("texW");
        reveal_strlit("texH");
        reveal_strlit("texFormat");
        assert(width_name@ =~= width_key());
        assert(height_name@ =~= height_key());
        assert(format_name@ =~= format_key());
    }
    let width = match config.get(&width_name) {
        Some(v) => match parse_dimension(v.as_str()) {
            Some(w) => w,
            None => return Err(RenderError::MissingOrUnparsableDimension),
        },
        None => return Err(RenderError::MissingOrUnparsableDimension),
    };
    let height = match config.get(&height_name) {
        Some(v) => match parse_dimension(v.as_str()) {
            Some(h) => h,
            None => return Err(RenderError::MissingOrUnparsableDimension),
        },
        None => return Err(RenderError::MissingOrUnparsableDimension),
    };
    let channels = match config.get(&format_name) {
        Some(v) => {
            let upper = to_upper(v.as_str());
            channels_for_format(upper.as_str())
        },
        None => {
            assert(default_format().len() == 4);
            assert(channels_of(default_format()) == Some(4usize));
            Some(4)
        },
    };
    match channels {
        Some(c) => Ok(ImageGeometry { width, height, channels: c }),
        None => Err(RenderError::UnsupportedFormat),
    }
}

} // verus!

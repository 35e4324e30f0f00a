//! Per-app personalization: custom logos and colors, with the validation
//! rules they must pass before being stored.

use crate::text::{is_ascii_ws, is_digit, is_hex_digit, spec_is_ascii_ws, spec_is_digit, spec_is_hex_digit};
use vstd::prelude::*;

verus! {

/// Longest accepted SVG path datum.
pub const MAX_PATH_LENGTH: usize = 10_000;

/// Most paths accepted in one logo.
pub const MAX_PATHS_PER_LOGO: usize = 1_000;

/// Largest accepted serialized logo, in bytes.
pub const MAX_LOGO_JSON_SIZE: usize = 100_000;

/// Stored per-app configuration; timestamps are ISO 8601 text as stored.
#[derive(Debug, Clone, PartialEq)]
pub struct AppConfig {
    pub id: Option<String>,
    pub bundle_id: String,
    pub app_name: Option<String>,
    pub logo_data: Option<String>,
    pub color: Option<String>,
    pub created_at: String,
    pub updated_at: String,
}

/// A custom vector logo.
#[derive(Debug, Clone, PartialEq)]
pub struct LogoData {
    pub view_box: String,
    pub paths: Vec<SvgPath>,
}

/// One stroke of a custom logo; `stroke_width` holds thousandths of a
/// pixel (1000..=64000 is valid).
#[derive(Debug, Clone, PartialEq)]
pub struct SvgPath {
    pub d: String,
    pub stroke: String,
    pub stroke_width: u32,
    pub fill: Option<String>,
}

/// An app seen by the capture loop; `last_seen` holds Unix milliseconds.
#[derive(Debug, Clone, PartialEq)]
pub struct DetectedApp {
    pub bundle_id: String,
    pub app_name: Option<String>,
    pub last_seen: i64,
    pub total_readings: i64,
}

/// Rejection of invalid personalization data.
#[derive(Debug, Clone, Copy, PartialEq, Eq, Structural)]
pub enum ValidationError {
    InvalidColor,
    StrokeWidthOutOfRange,
    InvalidPathData,
    InvalidViewBox,
    TooManyPaths,
    LogoTooLarge,
}

/// A hex color: `#` then exactly six or eight hex digits.
pub open spec fn spec_valid_color(s: Seq<char>) -> bool {
    &&& (s.len() == 7 || s.len() == 9)
    &&& s[0] == '#'
    &&& forall|i: int| 1 <= i < s.len() ==> spec_is_hex_digit(#[trigger] s[i])
}

/// Accepts `#RRGGBB` or `#RRGGBBAA` colors and nothing else.
pub fn validate_color(color: &str) -> (r: Result<(), ValidationError>)
    ensures
        r is Ok <==> spec_valid_color(color@),
        r is Err ==> r == Err::<(), ValidationError>(ValidationError::InvalidColor),
{
    let len = color.unicode_len();
    if len != 7 && len != 9 {
        return Err(ValidationError::InvalidColor);
    }
    if color.get_char(0) != '#' {
        return Err(ValidationError::InvalidColor);
    }
    let mut i: usize = 1;
    while i < len
        invariant
            1 <= i <= len,
            len == color@.len(),
            forall|k: int| 1 <= k < i ==> spec_is_hex_digit(#[trigger] color@[k]),
        decreases len - i,
    {
        if !is_hex_digit(color.get_char(i)) {
            return Err(ValidationError::InvalidColor);
        }
        i += 1;
    }
    Ok(())
}

/// A stroke width in thousandths lies between one and sixty-four pixels.
pub fn validate_stroke_width(stroke_width_milli: u32) -> (r: Result<(), ValidationError>)
    ensures
        r is Ok <==> 1000 <= stroke_width_milli <= 64_000,
        r is Err ==> r == Err::<(), ValidationError>(ValidationError::StrokeWidthOutOfRange),
{
    if stroke_width_milli < 1000 || stroke_width_milli > 64_000 {
        Err(ValidationError::StrokeWidthOutOfRange)
    } else {
        Ok(())
    }
}

/// True for the SVG path commands a path datum must contain one of.
pub open spec fn spec_is_path_command(c: char) -> bool {
    c == 'M' || c == 'm' || c == 'L' || c == 'l' || c == 'C' || c == 'c' || c == 'Q' || c == 'q'
        || c == 'Z' || c == 'z'
}

/// A path datum: bounded in length and holding at least one path command.
pub open spec fn spec_valid_path_data(s: Seq<char>) -> bool {
    &&& s.len() <= MAX_PATH_LENGTH
    &&& exists|i: int| 0 <= i < s.len() && spec_is_path_command(#[trigger] s[i])
}

/// Accepts a path datum of bounded length holding a basic SVG path
/// command.
pub fn validate_path_data(path_d: &str) -> (r: Result<(), ValidationError>)
    ensures
        r is Ok <==> spec_valid_path_data(path_d@),
        r is Err ==> r == Err::<(), ValidationError>(ValidationError::InvalidPathData),
{
    let len = path_d.unicode_len();
    if len > MAX_PATH_LENGTH {
        return Err(ValidationError::InvalidPathData);
    }
    let mut i: usize = 0;
    while i < len
        invariant
            i <= len,
            len == path_d@.len(),
            len <= MAX_PATH_LENGTH,
            forall|k: int| 0 <= k < i ==> !spec_is_path_command(#[trigger] path_d@[k]),
        decreases len - i,
    {
        let c = path_d.get_char(i);
        if c == 'M' || c == 'm' || c == 'L' || c == 'l' || c == 'C' || c == 'c' || c == 'Q' || c
            == 'q' || c == 'Z' || c == 'z' {
            proof {
                assert(spec_is_path_command(path_d@[i as int]));
            }
            return Ok(());
        }
        i += 1;
    }
    Err(ValidationError::InvalidPathData)
}

/// The numeric value of a digit string.
pub open spec fn spec_digits_value(t: Seq<char>) -> int
    decreases t.len(),
{
    if t.len() == 0 {
        0
    } else {
        spec_digits_value(t.drop_last()) * 10 + (t.last() as u32 - '0' as u32)
    }
}

/// Some digit of `t` is not zero.
pub open spec fn spec_has_nonzero_digit(t: Seq<char>) -> bool {
    exists|i: int| 0 <= i < t.len() && #[trigger] t[i] != '0'
}

/// A dimension token: digits with at most one dot, which may lead or
/// trail, describing a value strictly above zero and at most 512.
/// Exponent notation and signed forms, which a float parser would accept,
/// are deliberately not part of this grammar.
pub open spec fn spec_valid_dim(t: Seq<char>) -> bool {
    ||| {
        &&& t.len() > 0
        &&& forall|i: int| 0 <= i < t.len() ==> spec_is_digit(#[trigger] t[i])
        &&& 0 < spec_digits_value(t) <= 512
    }
    ||| (exists|d: int|
        {
            &&& 0 <= d < t.len()
            &&& t.len() >= 2
            &&& t[d] == '.'
            &&& forall|i: int| 0 <= i < t.len() && i != d ==> spec_is_digit(#[trigger] t[i])
            &&& (spec_digits_value(t.subrange(0, d)) > 0 || spec_has_nonzero_digit(
                t.subrange(d + 1, t.len() as int),
            ))
            &&& (spec_digits_value(t.subrange(0, d)) < 512 || (spec_digits_value(t.subrange(0, d))
                == 512 && !spec_has_nonzero_digit(t.subrange(d + 1, t.len() as int))))
        })
}

/// Whitespace normalization from position `i` on: leading and trailing
/// whitespace dropped, every interior run collapsed to a single space.
pub open spec fn spec_squeeze_from(s: Seq<char>, i: int, out: Seq<char>, pending: bool) -> Seq<
    char,
>
    decreases s.len() - i,
{
    if i < 0 || i >= s.len() {
        out
    } else if spec_is_ascii_ws(s[i]) {
        spec_squeeze_from(s, i + 1, out, true)
    } else if pending && out.len() > 0 {
        spec_squeeze_from(s, i + 1, out.push(' ').push(s[i]), false)
    } else {
        spec_squeeze_from(s, i + 1, out.push(s[i]), false)
    }
}

/// The whitespace-normalized form of `s`.
pub open spec fn spec_squeezed(s: Seq<char>) -> Seq<char> {
    spec_squeeze_from(s, 0, Seq::empty(), false)
}

/// The characters of a string slice, in order.
fn chars_of(s: &str) -> (r: Vec<char>)
    ensures
        r@ == s@,
{
    let len = s.unicode_len();
    let mut out: Vec<char> = Vec::new();
    let mut i: usize = 0;
    while i < len
        invariant
            i <= len,
            len == s@.len(),
            out@ =~= s@.take(i as int),
        decreases len - i,
    {
        out.push(s.get_char(i));
        i += 1;
    }
    proof {
        assert(s@.take(len as int) =~= s@);
    }
    out
}

/// Normalizes whitespace: trims the ends and collapses interior runs to
/// single spaces.
fn squeeze_chars(s: &Vec<char>) -> (r: Vec<char>)
    ensures
        r@ == spec_squeezed(s@),
{
    let len = s.len();
    let mut out: Vec<char> = Vec::new();
    let mut pending = false;
    let mut i: usize = 0;
    while i < len
        invariant
            i <= len,
            len == s@.len(),
            spec_squeezed(s@) == spec_squeeze_from(s@, i as int, out@, pending),
        decreases len - i,
    {
        let c = s[i];
        if is_ascii_ws(c) {
            pending = true;
        } else if pending && out.len() > 0 {
            out.push(' ');
            out.push(c);
            pending = false;
        } else {
            out.push(c);
            pending = false;
        }
        i += 1;
    }
    out
}

/// A valid view box as written: after whitespace normalization, four
/// tokens whose third and fourth are valid dimensions.
pub open spec fn spec_valid_view_box_text(s: Seq<char>) -> bool {
    spec_valid_view_box(spec_squeezed(s))
}

/// A view box: four space-separated non-empty tokens, the third and
/// fourth being valid dimensions.
pub open spec fn spec_valid_view_box(s: Seq<char>) -> bool {
    exists|p1: int, p2: int, p3: int|
        {
            &&& 1 <= p1
            &&& p1 + 2 <= p2
            &&& p2 + 2 <= p3
            &&& p3 + 2 <= s.len()
            &&& s[p1] == ' '
            &&& s[p2] == ' '
            &&& #[trigger] spec_are_separators(s, p1, p2, p3)
            &&& spec_valid_dim(s.subrange(p2 + 1, p3))
            &&& spec_valid_dim(s.subrange(p3 + 1, s.len() as int))
        }
}

/// The three positions are exactly the spaces of `s`.
pub open spec fn spec_are_separators(s: Seq<char>, p1: int, p2: int, p3: int) -> bool {
    &&& 0 <= p1 < p2 < p3 < s.len()
    &&& s[p1] == ' '
    &&& s[p2] == ' '
    &&& s[p3] == ' '
    &&& forall|i: int| 0 <= i < s.len() && i != p1 && i != p2 && i != p3 ==> #[trigger] s[i] != ' '
}

/// Checks a dimension token at `s[lo..hi]`.
#[verifier::rlimit(60)]
fn check_dim(s: &Vec<char>, lo: usize, hi: usize) -> (r: bool)
    requires
        lo <= hi <= s@.len(),
    ensures
        r == spec_valid_dim(s@.subrange(lo as int, hi as int)),
{
    let ghost t = s@.subrange(lo as int, hi as int);
    let width = hi - lo;
    if width == 0 {
        return false;
    }
    // locate the dot, reject a second one, check every other character is
    // a digit
    let mut dot: Option<usize> = None;
    let mut k: usize = 0;
    while k < width
        invariant
            k <= width,
            width == t.len(),
            width == hi - lo,
            lo <= hi <= s@.len(),
            t == s@.subrange(lo as int, hi as int),
            forall|i: int|
                0 <= i < k && (dot matches Some(dd) ==> i != dd) ==> spec_is_digit(#[trigger] t[i]),
            dot matches Some(dd) ==> 0 <= dd < k && t[dd as int] == '.',
            dot is None ==> forall|i: int| 0 <= i < k ==> #[trigger] t[i] != '.',
        decreases width - k,
    {
        let c = s[lo + k];
        proof {
            assert(t[k as int] == s@[lo + k]);
        }
        if c == '.' {
            if dot.is_some() {
                proof {
                    let dd = dot->0;
                    assert(!spec_is_digit(t[dd as int]));
                    assert(!spec_is_digit(t[k as int]));
                }
                return false;
            }
            dot = Some(k);
        } else if !is_digit(c) {
            proof {
                assert(!spec_is_digit(t[k as int]) && t[k as int] != '.');
            }
            return false;
        }
        k += 1;
    }
    match dot {
        None => {
            // plain digits: value in (0, 512]
            proof {
                assert forall|i: int| lo <= i < hi implies spec_is_digit(#[trigger] s@[i]) by {
                    assert(t[i - lo] == s@[i]);
                    assert(spec_is_digit(t[i - lo]));
                }
            }
            let value = digits_value_capped(s, lo, hi);
            proof {
                assert(t =~= s@.subrange(lo as int, hi as int));
            }
            0 < value && value <= 512
        },
        Some(d) => {
            if width < 2 {
                proof {
                    assert(!spec_is_digit(t[d as int]));
                }
                return false;
            }
            proof {
                assert forall|i: int| lo <= i < lo + d implies spec_is_digit(
                    #[trigger] s@[i],
                ) by {
                    assert(t[i - lo] == s@[i]);
                    assert(spec_is_digit(t[i - lo]));
                }
            }
            let int_value = digits_value_capped(s, lo, lo + d);
            let mut frac_nonzero = false;
            let mut k2: usize = d + 1;
            while k2 < width
                invariant
                    d + 1 <= k2 <= width,
                    width == t.len(),
                    width == hi - lo,
                    lo <= hi <= s@.len(),
                    t == s@.subrange(lo as int, hi as int),
                    frac_nonzero <==> exists|i: int|
                        d < i < k2 && #[trigger] t[i] != '0',
                decreases width - k2,
            {
                let c = s[lo + k2];
                proof {
                    assert(t[k2 as int] == s@[lo + k2]);
                }
                if c != '0' {
                    frac_nonzero = true;
                }
                k2 += 1;
            }
            proof {
                let frac = t.subrange(d + 1, t.len() as int);
                assert(forall|i: int|
                    0 <= i < frac.len() ==> #[trigger] frac[i] == t[i + d + 1]);
                assert(frac_nonzero == spec_has_nonzero_digit(frac)) by {
                    if frac_nonzero {
                        let w = choose|i: int| d < i < width && #[trigger] t[i] != '0';
                        assert(frac[w - d - 1] != '0');
                    } else {
                        if spec_has_nonzero_digit(frac) {
                            let w = choose|i: int|
                                0 <= i < frac.len() && #[trigger] frac[i] != '0';
                            assert(t[w + d + 1] != '0');
                            assert(false);
                        }
                    }
                }
                assert(s@.subrange(lo as int, lo + d as int) =~= t.subrange(0, d as int));
            }
            let positive = int_value > 0 || frac_nonzero;
            let small = int_value < 512 || (int_value == 512 && !frac_nonzero);
            let ok = positive && small;
            proof {
                if ok {
                    assert(spec_valid_dim(t)) by {
                        assert({
                            &&& 0 <= d < t.len()
                            &&& t.len() >= 2
                            &&& t[d as int] == '.'
                            &&& forall|i: int|
                                0 <= i < t.len() && i != d ==> spec_is_digit(#[trigger] t[i])
                            &&& (spec_digits_value(t.subrange(0, d as int)) > 0
                                || spec_has_nonzero_digit(t.subrange(d + 1, t.len() as int)))
                            &&& (spec_digits_value(t.subrange(0, d as int)) < 512 || (
                            spec_digits_value(t.subrange(0, d as int)) == 512
                                && !spec_has_nonzero_digit(t.subrange(d + 1, t.len() as int))))
                        });
                    }
                } else {
                    if spec_valid_dim(t) {
                        assert(t[d as int] == '.');
                        assert(!(forall|i: int|
                            0 <= i < t.len() ==> spec_is_digit(#[trigger] t[i])));
                        let dd = choose|dd: int|
                            {
                                &&& 0 <= dd < t.len()
                                &&& t.len() >= 2
                                &&& t[dd] == '.'
                                &&& forall|i: int|
                                    0 <= i < t.len() && i != dd ==> spec_is_digit(
                                        #[trigger] t[i],
                                    )
                                &&& (spec_digits_value(t.subrange(0, dd)) > 0
                                    || spec_has_nonzero_digit(t.subrange(dd + 1, t.len() as int)))
                                &&& (spec_digits_value(t.subrange(0, dd)) < 512 || (
                                spec_digits_value(t.subrange(0, dd)) == 512
                                    && !spec_has_nonzero_digit(
                                    t.subrange(dd + 1, t.len() as int),
                                )))
                            };
                        assert(dd == d) by {
                            if dd != d {
                                assert(spec_is_digit(t[d as int]));
                            }
                        }
                        assert(false);
                    }
                }
            }
            ok
        },
    }
}

/// Computes the value of the digit run `s[lo..hi]`, saturating at 513.
fn digits_value_capped(s: &Vec<char>, lo: usize, hi: usize) -> (r: u32)
    requires
        lo <= hi <= s@.len(),
        forall|i: int|
            lo <= i < hi ==> spec_is_digit(#[trigger] s@[i]),
    ensures
        r == if spec_digits_value(s@.subrange(lo as int, hi as int)) > 513 {
            513int
        } else {
            spec_digits_value(s@.subrange(lo as int, hi as int))
        },
{
    let ghost t = s@.subrange(lo as int, hi as int);
    let mut value: u32 = 0;
    let mut k: usize = 0;
    let width = hi - lo;
    while k < width
        invariant
            k <= width,
            width == t.len(),
            width == hi - lo,
            lo <= hi <= s@.len(),
            t == s@.subrange(lo as int, hi as int),
            forall|i: int| lo <= i < hi ==> spec_is_digit(#[trigger] s@[i]),
            value == (if spec_digits_value(t.take(k as int)) > 513 {
                513int
            } else {
                spec_digits_value(t.take(k as int))
            }),
            value <= 513,
        decreases width - k,
    {
        let c = s[lo + k];
        proof {
            assert(t[k as int] == s@[lo + k]);
            assert(spec_is_digit(t[k as int]));
            assert(t.take(k + 1).drop_last() =~= t.take(k as int));
            assert(t.take(k + 1).last() == t[k as int]);
        }
        let digit = c as u32 - '0' as u32;
        let next = value * 10 + digit;
        value = if next > 513 {
            513
        } else {
            next
        };
        k += 1;
    }
    proof {
        assert(t.take(width as int) =~= t);
    }
    value
}

/// Checks the normalized form: exactly four single-space-separated
/// tokens whose third and fourth are dimensions in (0, 512].
#[verifier::rlimit(100)]
fn check_view_box_tokens(sq: &Vec<char>) -> (r: bool)
    ensures
        r == spec_valid_view_box(sq@),
{
    let len = sq.len();
    // collect the positions of all spaces; more than three means failure
    let mut spaces: Vec<usize> = Vec::new();
    let mut i: usize = 0;
    while i < len
        invariant
            i <= len,
            len == sq@.len(),
            forall|k: int|
                0 <= k < spaces@.len() ==> 0 <= #[trigger] spaces@[k] < i && sq@[spaces@[k] as int]
                    == ' ',
            forall|k1: int, k2: int| 0 <= k1 < k2 < spaces@.len() ==> spaces@[k1] < spaces@[k2],
            forall|j: int|
                0 <= j < i && #[trigger] sq@[j] == ' ' ==> exists|k: int|
                    0 <= k < spaces@.len() && #[trigger] spaces@[k] == j,
        decreases len - i,
    {
        let ghost spaces_prev = spaces@;
        if sq[i] == ' ' {
            spaces.push(i);
            proof {
                assert(spaces@.last() == i);
                assert(forall|k: int|
                    0 <= k < spaces@.len() - 1 ==> #[trigger] spaces@[k] == spaces_prev[k]);
            }
        }
        proof {
            assert forall|j: int|
                0 <= j < i + 1 && #[trigger] sq@[j] == ' ' implies exists|k: int|
                0 <= k < spaces@.len() && #[trigger] spaces@[k] == j by {
                if j < i {
                    let k = choose|k: int|
                        0 <= k < spaces_prev.len() && #[trigger] spaces_prev[k] == j;
                    assert(spaces@[k] == j);
                } else {
                    assert(spaces@[spaces@.len() - 1] == j);
                }
            }
        }
        i += 1;
    }
    if spaces.len() != 3 {
        proof {
            if spec_valid_view_box(sq@) {
                let (p1, p2, p3) = choose|p1: int, p2: int, p3: int|
                    {
                        &&& 1 <= p1
                        &&& p1 + 2 <= p2
                        &&& p2 + 2 <= p3
                        &&& p3 + 2 <= sq@.len()
                        &&& sq@[p1] == ' '
                        &&& sq@[p2] == ' '
                        &&& #[trigger] spec_are_separators(sq@, p1, p2, p3)
                        &&& spec_valid_dim(sq@.subrange(p2 + 1, p3))
                        &&& spec_valid_dim(sq@.subrange(p3 + 1, sq@.len() as int))
                    };
                assert(exists|k: int| 0 <= k < spaces@.len() && #[trigger] spaces@[k] == p1);
                assert(exists|k: int| 0 <= k < spaces@.len() && #[trigger] spaces@[k] == p2);
                assert(exists|k: int| 0 <= k < spaces@.len() && #[trigger] spaces@[k] == p3);
                assert(forall|k: int|
                    0 <= k < spaces@.len() ==> #[trigger] spaces@[k] == p1 || spaces@[k] == p2
                        || spaces@[k] == p3);
                if spaces@.len() > 3 {
                    assert(spaces@[0] < spaces@[1] < spaces@[2] < spaces@[3]);
                    assert(false);
                } else {
                    assert(spaces@.len() < 3);
                    let k1 = choose|k: int| 0 <= k < spaces@.len() && #[trigger] spaces@[k] == p1;
                    let k2 = choose|k: int| 0 <= k < spaces@.len() && #[trigger] spaces@[k] == p2;
                    let k3 = choose|k: int| 0 <= k < spaces@.len() && #[trigger] spaces@[k] == p3;
                    assert(k1 != k2 && k2 != k3 && k1 != k3);
                    assert(false);
                }
            }
        }
        return false;
    }
    let p1 = spaces[0];
    let p2 = spaces[1];
    let p3 = spaces[2];
    proof {
        assert(spec_are_separators(sq@, p1 as int, p2 as int, p3 as int)) by {
            assert(forall|j: int|
                0 <= j < sq@.len() && j != p1 && j != p2 && j != p3 ==> #[trigger] sq@[j]
                    != ' ') by {
                assert forall|j: int|
                    0 <= j < sq@.len() && j != p1 && j != p2 && j != p3 implies #[trigger] sq@[j]
                    != ' ' by {
                    if sq@[j] == ' ' {
                        let k = choose|k: int|
                            0 <= k < spaces@.len() && #[trigger] spaces@[k] == j;
                        assert(k == 0 || k == 1 || k == 2);
                        assert(false);
                    }
                }
            }
        }
    }
    proof {
        assert(p1 < p2 < p3 < len);
    }
    let shape_ok = p1 >= 1 && p2 - p1 >= 2 && p3 - p2 >= 2 && len - p3 >= 2;
    if !shape_ok {
        proof {
            if spec_valid_view_box(sq@) {
                let (q1, q2, q3) = choose|q1: int, q2: int, q3: int|
                    {
                        &&& 1 <= q1
                        &&& q1 + 2 <= q2
                        &&& q2 + 2 <= q3
                        &&& q3 + 2 <= sq@.len()
                        &&& sq@[q1] == ' '
                        &&& sq@[q2] == ' '
                        &&& #[trigger] spec_are_separators(sq@, q1, q2, q3)
                        &&& spec_valid_dim(sq@.subrange(q2 + 1, q3))
                        &&& spec_valid_dim(sq@.subrange(q3 + 1, sq@.len() as int))
                    };
                lemma_separators_unique(sq@, q1, q2, q3, p1 as int, p2 as int, p3 as int);
                assert(false);
            }
        }
        return false;
    }
    let width_ok = check_dim(sq, p2 + 1, p3);
    let height_ok = check_dim(sq, p3 + 1, len);
    if width_ok && height_ok {
        proof {
            assert(spec_valid_view_box(sq@));
        }
        true
    } else {
        proof {
            if spec_valid_view_box(sq@) {
                let (q1, q2, q3) = choose|q1: int, q2: int, q3: int|
                    {
                        &&& 1 <= q1
                        &&& q1 + 2 <= q2
                        &&& q2 + 2 <= q3
                        &&& q3 + 2 <= sq@.len()
                        &&& sq@[q1] == ' '
                        &&& sq@[q2] == ' '
                        &&& #[trigger] spec_are_separators(sq@, q1, q2, q3)
                        &&& spec_valid_dim(sq@.subrange(q2 + 1, q3))
                        &&& spec_valid_dim(sq@.subrange(q3 + 1, sq@.len() as int))
                    };
                lemma_separators_unique(sq@, q1, q2, q3, p1 as int, p2 as int, p3 as int);
                assert(false);
            }
        }
        false
    }
}

/// Accepts a view box of four whitespace-separated tokens whose width and
/// height are dimensions in (0, 512]; runs of whitespace separate, and
/// leading or trailing whitespace is ignored.
pub fn validate_view_box(view_box: &str) -> (r: Result<(), ValidationError>)
    ensures
        r is Ok <==> spec_valid_view_box_text(view_box@),
        r is Err ==> r == Err::<(), ValidationError>(ValidationError::InvalidViewBox),
{
    let raw = chars_of(view_box);
    let squeezed = squeeze_chars(&raw);
    if check_view_box_tokens(&squeezed) {
        Ok(())
    } else {
        Err(ValidationError::InvalidViewBox)
    }
}

/// Two triples of separator positions of one string coincide.
proof fn lemma_separators_unique(s: Seq<char>, q1: int, q2: int, q3: int, p1: int, p2: int, p3: int)
    requires
        spec_are_separators(s, q1, q2, q3),
        spec_are_separators(s, p1, p2, p3),
    ensures
        q1 == p1 && q2 == p2 && q3 == p3,
{
    assert(q1 == p1 || q1 == p2 || q1 == p3);
    assert(q2 == p1 || q2 == p2 || q2 == p3);
    assert(q3 == p1 || q3 == p2 || q3 == p3);
    assert(p1 == q1 || p1 == q2 || p1 == q3);
    assert(p2 == q1 || p2 == q2 || p2 == q3);
    assert(p3 == q1 || p3 == q2 || p3 == q3);
}

/// A logo is valid when its serialized form is small enough, its view box
/// is valid, and each of its at most 1000 paths carries valid path data,
/// colors and stroke width.
pub open spec fn spec_valid_logo(logo: LogoData, json_len: int) -> bool {
    &&& json_len <= MAX_LOGO_JSON_SIZE
    &&& spec_valid_view_box_text(logo.view_box@)
    &&& logo.paths@.len() <= MAX_PATHS_PER_LOGO
    &&& forall|i: int| 0 <= i < logo.paths@.len() ==> spec_valid_svg_path(#[trigger] logo.paths@[i])
}

/// One stroke is valid: path data, stroke color, width, and the fill
/// color when present.
pub open spec fn spec_valid_svg_path(p: SvgPath) -> bool {
    &&& spec_valid_path_data(p.d@)
    &&& spec_valid_color(p.stroke@)
    &&& 1000 <= p.stroke_width <= 64_000
    &&& (p.fill matches Some(f) ==> spec_valid_color(f@))
}

/// Validates a parsed logo against every rule; `json_len` is the length
/// of its serialized form.
pub fn validate_logo_data(logo: &LogoData, json_len: usize) -> (r: Result<(), ValidationError>)
    ensures
        r is Ok <==> spec_valid_logo(*logo, json_len as int),
        json_len > MAX_LOGO_JSON_SIZE ==> r == Err::<(), ValidationError>(
            ValidationError::LogoTooLarge,
        ),
{
    if json_len > MAX_LOGO_JSON_SIZE {
        return Err(ValidationError::LogoTooLarge);
    }
    if let Err(e) = validate_view_box(logo.view_box.as_str()) {
        return Err(e);
    }
    let count = logo.paths.len();
    if count > MAX_PATHS_PER_LOGO {
        return Err(ValidationError::TooManyPaths);
    }
    let mut i: usize = 0;
    while i < count
        invariant
            i <= count,
            count == logo.paths@.len(),
            count <= MAX_PATHS_PER_LOGO,
            json_len <= MAX_LOGO_JSON_SIZE,
            spec_valid_view_box_text(logo.view_box@),
            forall|k: int| 0 <= k < i ==> spec_valid_svg_path(#[trigger] logo.paths@[k]),
        decreases count - i,
    {
        let path = &logo.paths[i];
        if let Err(e) = validate_path_data(path.d.as_str()) {
            return Err(e);
        }
        if let Err(e) = validate_color(path.stroke.as_str()) {
            return Err(e);
        }
        if let Err(e) = validate_stroke_width(path.stroke_width) {
            return Err(e);
        }
        match &path.fill {
            Some(fill) => {
                if let Err(e) = validate_color(fill.as_str()) {
                    return Err(e);
                }
            },
            None => {},
        }
        i += 1;
    }
    Ok(())
}

} // verus!

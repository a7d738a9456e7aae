use vstd::prelude::*;
use vstd::string::*;

verus! {

/// The resolved command line: which encoder to drive, how wide the image
/// is, and where it goes. `Unknown` stands for a format name that is
/// neither `png` nor `ppm`.
#[derive(Debug)]
pub enum ImageFormat {
    PNG { width: usize, filename: String },
    PPM { width: usize, filename: String },
    Unknown,
}

/// A character between `'0'` and `'9'`.
pub open spec fn is_decimal_digit(c: char) -> bool {
    '0' as u32 <= c as u32 && c as u32 <= '9' as u32
}

/// The numeric value of one decimal digit.
pub open spec fn digit_value(c: char) -> nat {
    (c as u32 - '0' as u32) as nat
}

/// Every character of the sequence is a decimal digit.
pub open spec fn all_digits(s: Seq<char>) -> bool {
    forall|i: int| 0 <= i < s.len() ==> is_decimal_digit(#[trigger] s[i])
}

/// The number that a digit string denotes, most significant digit first.
pub open spec fn decimal_value(s: Seq<char>) -> nat
    decreases s.len(),
{
    if s.len() == 0 {
        0
    } else {
        decimal_value(s.drop_last()) * 10 + digit_value(s.last())
    }
}

/// The digit portion of a number: everything after an optional leading
/// `'+'` sign.
pub open spec fn digit_part(s: Seq<char>) -> Seq<char> {
    if s.len() > 0 && s[0] == '+' {
        s.skip(1)
    } else {
        s
    }
}

/// What `usize::from_str` accepts: an optional leading `'+'` and at
/// least one digit, denoting a value that fits in `usize`.
pub open spec fn spec_parse_usize(s: Seq<char>) -> Option<usize> {
    let digits = digit_part(s);
    if digits.len() > 0 && all_digits(digits) && decimal_value(digits) <= usize::MAX {
        Some(decimal_value(digits) as usize)
    } else {
        None
    }
}

/// A longer digit string never denotes a smaller number.
proof fn lemma_decimal_value_prefix(s: Seq<char>, i: int)
    requires
        0 <= i <= s.len(),
    ensures
        decimal_value(s) >= decimal_value(s.take(i)),
    decreases s.len() - i,
{
    if i == s.len() {
        assert(s.take(i) =~= s);
    } else {
        assert(s.take(i + 1).drop_last() =~= s.take(i));
        assert(decimal_value(s.take(i + 1)) == decimal_value(s.take(i)) * 10 + digit_value(
            s.take(i + 1).last(),
        ));
        lemma_decimal_value_prefix(s, i + 1);
    }
}

/// Read a `usize` from a string, accepting exactly what
/// `usize::from_str` accepts; anything else is `None`.
pub fn parse_usize(s: &str) -> (r: Option<usize>)
    ensures
        r == spec_parse_usize(s@),
{
    let n: usize = s.unicode_len();
    let start: usize = if n > 0 && s.get_char(0) == '+' {
        1
    } else {
        0
    };
    let ghost digits = digit_part(s@);
    proof {
        assert(digits =~= s@.skip(start as int));
    }
    if n == start {
        return None;
    }
    let mut val: usize = 0;
    let mut i: usize = start;
    while i < n
        invariant
            start <= i <= n,
            n == s@.len(),
            digits == digit_part(s@),
            digits == s@.skip(start as int),
            digits.len() == n - start,
            all_digits(digits.take(i - start)),
            val == decimal_value(digits.take(i - start)),
        decreases n - i,
    {
        let c = s.get_char(i);
        let u: u32 = c as u32;
        proof {
            assert(digits[i - start] == s@[i as int]);
        }
        if u < '0' as u32 || u > '9' as u32 {
            proof {
                assert(!is_decimal_digit(digits[i - start]));
                assert(!all_digits(digits));
                assert(spec_parse_usize(s@) is None);
            }
            return None;
        }
        let d: usize = (u - '0' as u32) as usize;
        let ghost next = digits.take(i + 1 - start);
        proof {
            assert(next.drop_last() =~= digits.take(i - start));
            assert(next.last() == digits[i - start]);
            assert(decimal_value(next) == val * 10 + d);
        }
        let v10: usize = match val.checked_mul(10) {
            Some(v) => v,
            None => {
                proof {
                    lemma_decimal_value_prefix(digits, i + 1 - start);
                }
                return None;
            },
        };
        val = match v10.checked_add(d) {
            Some(v) => v,
            None => {
                proof {
                    lemma_decimal_value_prefix(digits, i + 1 - start);
                }
                return None;
            },
        };
        i = i + 1;
    }
    proof {
        assert(digits.take(i - start) =~= digits);
    }
    Some(val)
}

/// What `parse_pair` returns: the text split at the first separator, a
/// number read from each half, `None` unless both halves parse.
pub open spec fn spec_parse_pair(s: Seq<char>, sep: char) -> Option<(usize, usize)> {
    match s.index_of_first(sep) {
        None => None,
        Some(i) => match (spec_parse_usize(s.take(i)), spec_parse_usize(s.skip(i + 1))) {
            (Some(l), Some(r)) => Some((l, r)),
            _ => None,
        },
    }
}

/// Split a string at the first occurrence of `separator` and read a
/// `usize` from each side, as an image's `WIDTHxHEIGHT` argument is read.
pub fn parse_pair(s: &str, separator: char) -> (r: Option<(usize, usize)>)
    ensures
        r == spec_parse_pair(s@, separator),
{
    proof {
        s@.index_of_first_ensures(separator);
    }
    let n: usize = s.unicode_len();
    let mut i: usize = 0;
    while i < n
        invariant
            0 <= i <= n,
            n == s@.len(),
            forall|j: int| 0 <= j < i ==> s@[j] != separator,
        decreases n - i,
    {
        if s.get_char(i) == separator {
            proof {
                s@.index_of_first_ensures(separator);
                assert(s@.index_of_first(separator) == Some(i as int));
            }
            let left = s.substring_char(0, i);
            let right = s.substring_char(i + 1, n);
            proof {
                assert(left@ =~= s@.take(i as int));
                assert(right@ =~= s@.skip(i + 1));
            }
            return match (parse_usize(left), parse_usize(right)) {
                (Some(l), Some(r)) => Some((l, r)),
                _ => None,
            };
        }
        i = i + 1;
    }
    proof {
        assert(!s@.contains(separator));
    }
    None
}

/// Character-for-character string comparison, so that format names can be
/// matched with a proved meaning.
pub fn str_eq(a: &str, b: &str) -> (r: bool)
    ensures
        r == (a@ == b@),
{
    let na: usize = a.unicode_len();
    let nb: usize = b.unicode_len();
    if na != nb {
        return false;
    }
    let mut i: usize = 0;
    while i < na
        invariant
            0 <= i <= na,
            na == a@.len(),
            na == b@.len(),
            forall|j: int| 0 <= j < i ==> a@[j] == b@[j],
        decreases na - i,
    {
        if a.get_char(i) != b.get_char(i) {
            return false;
        }
        i = i + 1;
    }
    proof {
        assert(a@ =~= b@);
    }
    true
}

/// Decide the output format as the command line parser does: `png` and
/// `ppm` select their encoders, anything else is `Unknown`.
pub fn image_format_of(format: &str, width: usize, filename: &str) -> (r: ImageFormat)
    ensures
        format@ == "png"@ ==> (r matches ImageFormat::PNG { width: w, filename: f } && w == width
            && f@ == filename@),
        format@ == "ppm"@ ==> (r matches ImageFormat::PPM { width: w, filename: f } && w == width
            && f@ == filename@),
        format@ != "png"@ && format@ != "ppm"@ ==> r is Unknown,
{
    proof {
        reveal_strlit("png");
        reveal_strlit("ppm");
        assert("png"@[1] != "ppm"@[1]);
        assert("png"@ != "ppm"@);
    }
    if str_eq(format, "png") {
        ImageFormat::PNG { width, filename: String::from_str(filename) }
    } else if str_eq(format, "ppm") {
        ImageFormat::PPM { width, filename: String::from_str(filename) }
    } else {
        ImageFormat::Unknown
    }
}

} // verus!

use crate::color::Rgb;
use vstd::prelude::*;
use vstd::string::*;

verus! {

/// The character for one decimal digit.
pub open spec fn digit_char(d: nat) -> char {
    if d == 0 {
        '0'
    } else if d == 1 {
        '1'
    } else if d == 2 {
        '2'
    } else if d == 3 {
        '3'
    } else if d == 4 {
        '4'
    } else if d == 5 {
        '5'
    } else if d == 6 {
        '6'
    } else if d == 7 {
        '7'
    } else if d == 8 {
        '8'
    } else {
        '9'
    }
}

/// The decimal notation of a number, most significant digit first, with
/// no sign and no leading zero except for the number zero itself.
pub open spec fn spec_decimal(n: nat) -> Seq<char>
    decreases n,
{
    if n < 10 {
        seq![digit_char(n)]
    } else {
        spec_decimal(n / 10).push(digit_char(n % 10))
    }
}

/// One digit as borrowed text.
fn digit_str(d: usize) -> (s: &'static str)
    requires
        d < 10,
    ensures
        s@ == seq![digit_char(d as nat)],
{
    let s: &'static str = match d {
        0 => "0",
        1 => "1",
        2 => "2",
        3 => "3",
        4 => "4",
        5 => "5",
        6 => "6",
        7 => "7",
        8 => "8",
        _ => "9",
    };
    proof {
        reveal_strlit("0");
        reveal_strlit("1");
        reveal_strlit("2");
        reveal_strlit("3");
        reveal_strlit("4");
        reveal_strlit("5");
        reveal_strlit("6");
        reveal_strlit("7");
        reveal_strlit("8");
        reveal_strlit("9");
        assert(s@ =~= seq![digit_char(d as nat)]);
    }
    s
}

/// Write a number in decimal, exactly as the PPM header and pixel lines
/// need it.
pub fn decimal_string(n: usize) -> (s: String)
    ensures
        s@ == spec_decimal(n as nat),
    decreases n,
{
    if n < 10 {
        String::from_str(digit_str(n))
    } else {
        let mut s = decimal_string(n / 10);
        s.append(digit_str(n % 10));
        proof {
            assert(s@ =~= spec_decimal(n as nat));
        }
        s
    }
}

/// Each digit character carries the digit's value.
proof fn lemma_digit_char_value(d: nat)
    requires
        d < 10,
    ensures
        crate::utility::is_decimal_digit(digit_char(d)),
        crate::utility::digit_value(digit_char(d)) == d,
{
    if d == 0 {
    } else if d == 1 {
    } else if d == 2 {
    } else if d == 3 {
    } else if d == 4 {
    } else if d == 5 {
    } else if d == 6 {
    } else if d == 7 {
    } else if d == 8 {
    } else {
    }
}

/// Decimal notation is made of digits and reads back as the number it was
/// written from.
pub proof fn lemma_decimal_value_of_spec_decimal(n: nat)
    ensures
        spec_decimal(n).len() >= 1,
        crate::utility::all_digits(spec_decimal(n)),
        crate::utility::decimal_value(spec_decimal(n)) == n,
    decreases n,
{
    if n < 10 {
        lemma_digit_char_value(n);
        let s = spec_decimal(n);
        assert(s.drop_last() =~= Seq::<char>::empty());
        assert(s.last() == digit_char(n));
        assert(crate::utility::decimal_value(s) == crate::utility::decimal_value(s.drop_last()) * 10
            + crate::utility::digit_value(s.last()));
        assert(crate::utility::decimal_value(Seq::<char>::empty()) == 0);
    } else {
        lemma_decimal_value_of_spec_decimal(n / 10);
        lemma_digit_char_value(n % 10);
        let s = spec_decimal(n);
        assert(s.drop_last() =~= spec_decimal(n / 10));
        assert(s.last() == digit_char(n % 10));
        assert(crate::utility::decimal_value(s) == crate::utility::decimal_value(s.drop_last()) * 10
            + crate::utility::digit_value(s.last()));
        assert((n / 10) * 10 + (n % 10) == n);
        assert forall|i: int| 0 <= i < spec_decimal(n).len() implies crate::utility::is_decimal_digit(
            #[trigger] spec_decimal(n)[i],
        ) by {
            if i < spec_decimal(n).len() - 1 {
                assert(spec_decimal(n)[i] == spec_decimal(n / 10)[i]);
            }
        }
    }
}

/// Round trip: a number written in decimal is exactly what the number
/// parser reads back.
pub proof fn lemma_decimal_string_parses_back(n: usize)
    ensures
        crate::utility::spec_parse_usize(spec_decimal(n as nat)) == Some(n),
{
    lemma_decimal_value_of_spec_decimal(n as nat);
    let s = spec_decimal(n as nat);
    assert(crate::utility::is_decimal_digit(s[0]));
    assert(s[0] != '+');
    assert(crate::utility::digit_part(s) == s);
}

/// One PPM pixel line: the three channels in decimal, separated by single
/// spaces, closed by a newline.
pub open spec fn spec_color_line(c: Rgb) -> Seq<char> {
    spec_decimal(c.r as nat) + " "@ + spec_decimal(c.g as nat) + " "@ + spec_decimal(c.b as nat)
        + "\n"@
}

/// Format one pixel as its PPM line, `"R G B\n"`.
pub fn color_line(c: &Rgb) -> (s: String)
    ensures
        s@ == spec_color_line(*c),
{
    let mut s = decimal_string(c.r as usize);
    s.append(" ");
    let g = decimal_string(c.g as usize);
    s.append(g.as_str());
    s.append(" ");
    let b = decimal_string(c.b as usize);
    s.append(b.as_str());
    s.append("\n");
    proof {
        assert(s@ =~= spec_color_line(*c));
    }
    s
}

/// The PPM plain-text header: magic number `P3`, the image dimensions,
/// and the maximum channel value 255.
pub open spec fn spec_ppm_header(width: nat, height: nat) -> Seq<char> {
    "P3\n"@ + spec_decimal(width) + " "@ + spec_decimal(height) + "\n255\n"@
}

/// Format the PPM header for an image of the given dimensions.
pub fn ppm_header(width: usize, height: usize) -> (s: String)
    ensures
        s@ == spec_ppm_header(width as nat, height as nat),
{
    let mut s = String::from_str("P3\n");
    let w = decimal_string(width);
    s.append(w.as_str());
    s.append(" ");
    let h = decimal_string(height);
    s.append(h.as_str());
    s.append("\n255\n");
    proof {
        assert(s@ =~= spec_ppm_header(width as nat, height as nat));
    }
    s
}

/// The pixel lines of a PPM body, in buffer order.
pub open spec fn spec_ppm_lines(pixels: Seq<Rgb>) -> Seq<char>
    decreases pixels.len(),
{
    if pixels.len() == 0 {
        Seq::empty()
    } else {
        spec_ppm_lines(pixels.drop_last()) + spec_color_line(pixels.last())
    }
}

/// The whole PPM document for a row-major pixel buffer: header first,
/// followed by one line per pixel, top row first.
pub fn ppm_document(width: usize, height: usize, pixels: &Vec<Rgb>) -> (s: String)
    requires
        pixels@.len() == width * height,
    ensures
        s@ == spec_ppm_header(width as nat, height as nat) + spec_ppm_lines(pixels@),
{
    let mut s = ppm_header(width, height);
    let mut i: usize = 0;
    while i < pixels.len()
        invariant
            0 <= i <= pixels@.len(),
            s@ == spec_ppm_header(width as nat, height as nat) + spec_ppm_lines(pixels@.take(i as int)),
        decreases pixels@.len() - i,
    {
        let line = color_line(&pixels[i]);
        s.append(line.as_str());
        proof {
            assert(pixels@.take(i + 1).drop_last() =~= pixels@.take(i as int));
            assert(pixels@.take(i + 1).last() == pixels@[i as int]);
            assert(s@ =~= spec_ppm_header(width as nat, height as nat) + spec_ppm_lines(
                pixels@.take(i + 1),
            ));
        }
        i = i + 1;
    }
    proof {
        assert(pixels@.take(i as int) =~= pixels@);
    }
    s
}

} // verus!

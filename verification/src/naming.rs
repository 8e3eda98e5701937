//! Names of the files that the cutter reads and writes: which extensions
//! mark an image, and what the file of a frame is called.

use vstd::prelude::*;

verus! {

/// The lower-case form of an ASCII capital letter; any other character
/// itself.
pub open spec fn lower_char(c: char) -> char {
    if 'A' <= c && c <= 'Z' {
        ((c as u8) + 32) as char
    } else {
        c
    }
}

/// A sequence of characters with its ASCII capital letters in lower case.
pub open spec fn lowered(s: Seq<char>) -> Seq<char> {
    Seq::new(s.len(), |i: int| lower_char(s[i]))
}

/// Whether a file extension, given without its dot, marks an image that the
/// cutter reads. Case does not matter.
pub open spec fn is_image_extension(ext: Seq<char>) -> bool {
    let l = lowered(ext);
    l == "png"@ || l == "jpg"@ || l == "jpeg"@ || l == "bmp"@ || l == "gif"@ || l == "tiff"@ || l
        == "webp"@
}

/// The ten decimal digits.
pub open spec fn digits() -> Seq<char> {
    seq!['0', '1', '2', '3', '4', '5', '6', '7', '8', '9']
}

/// The decimal notation of a number.
pub open spec fn decimal(n: nat) -> Seq<char>
    decreases n,
{
    if n < 10 {
        seq![digits()[n as int]]
    } else {
        decimal(n / 10).push(digits()[(n % 10) as int])
    }
}

/// The decimal notation of a number, with zeros in front of it where it has
/// fewer than three digits.
pub open spec fn three_digits(n: nat) -> Seq<char> {
    if n < 10 {
        seq!['0', '0'] + decimal(n)
    } else if n < 100 {
        seq!['0'] + decimal(n)
    } else {
        decimal(n)
    }
}

/// The name of the file of frame number `number` of the sheet with the given
/// stem: the stem, `_frame_`, the number in at least three digits, and
/// `.png`.
pub open spec fn frame_name(stem: Seq<char>, number: nat) -> Seq<char> {
    stem + "_frame_"@ + three_digits(number) + ".png"@
}

/// Turns ASCII capital letters into lower case.
pub fn to_lower_char(c: char) -> (l: char)
    ensures
        l == lower_char(c),
{
    if 'A' <= c && c <= 'Z' {
        ((c as u8) + 32) as char
    } else {
        c
    }
}

/// Compares an extension with a name, ASCII capital letters of the extension
/// taken as lower case.
pub fn extension_is(ext: &str, name: &str) -> (same: bool)
    ensures
        same == (lowered(ext@) == name@),
{
    let len = ext.unicode_len();
    if len != name.unicode_len() {
        return false;
    }
    let mut i: usize = 0;
    while i < len
        invariant
            len == ext@.len(),
            len == name@.len(),
            i <= len,
            forall|k: int| 0 <= k < i ==> lower_char(ext@[k]) == name@[k],
        decreases len - i,
    {
        if to_lower_char(ext.get_char(i)) != name.get_char(i) {
            assert(lowered(ext@)[i as int] != name@[i as int]);
            return false;
        }
        i = i + 1;
    }
    assert(lowered(ext@) =~= name@);
    true
}

/// Tells whether a file extension, given without its dot, marks an image that
/// the cutter reads: png, jpg, jpeg, bmp, gif, tiff or webp, in any case.
pub fn is_supported_extension(ext: &str) -> (supported: bool)
    ensures
        supported == is_image_extension(ext@),
{
    extension_is(ext, "png") || extension_is(ext, "jpg") || extension_is(ext, "jpeg")
        || extension_is(ext, "bmp") || extension_is(ext, "gif") || extension_is(ext, "tiff")
        || extension_is(ext, "webp")
}

/// The digit `d` as a string.
fn digit_str(d: usize) -> (s: &'static str)
    requires
        d < 10,
    ensures
        s@ == seq![digits()[d as int]],
{
    proof {
        reveal_strlit("0");
        reveal_strlit("1");
        reveal_strlit("2");
        reveal_strlit("3");
        reveal_strlit("4");
        reveal_strlit("5");
        reveal_strlit("6");
        reveal_strlit("7");
        reveal_strlit("8");
        reveal_strlit("9");
    }
    let s = if d == 0 {
        "0"
    } else if d == 1 {
        "1"
    } else if d == 2 {
        "2"
    } else if d == 3 {
        "3"
    } else if d == 4 {
        "4"
    } else if d == 5 {
        "5"
    } else if d == 6 {
        "6"
    } else if d == 7 {
        "7"
    } else if d == 8 {
        "8"
    } else {
        "9"
    };
    assert(s@ =~= seq![digits()[d as int]]);
    s
}

/// Appends the decimal notation of a number to a string.
fn append_decimal(out: &mut String, n: usize)
    ensures
        final(out)@ == old(out)@ + decimal(n as nat),
    decreases n,
{
    if n >= 10 {
        append_decimal(out, n / 10);
    }
    out.append(digit_str(n % 10));
    assert(out@ =~= old(out)@ + decimal(n as nat));
}

/// Names the file of frame number `number` of the sheet with the given stem.
/// Frames are numbered from 1.
pub fn frame_file_name(stem: &str, number: usize) -> (name: String)
    ensures
        name@ == frame_name(stem@, number as nat),
{
    proof {
        reveal_strlit("00");
        reveal_strlit("0");
    }
    let mut name = String::new();
    name.append(stem);
    name.append("_frame_");
    if number < 10 {
        name.append("00");
    } else if number < 100 {
        name.append("0");
    }
    append_decimal(&mut name, number);
    name.append(".png");
    assert(name@ =~= frame_name(stem@, number as nat));
    name
}

} // verus!

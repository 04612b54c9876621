//! Latin-1 text utilities: the case table used to canonicalize basic
//! identifiers, the character-set rules for basic and extended identifiers,
//! and a printable (UTF-8) rendering of Latin-1 byte strings.

use vstd::prelude::*;

verus! {

/// Lower-cases one Latin-1 byte: ASCII letters and the accented letters
/// `0xC0..=0xD6` and `0xD8..=0xDE` move down by `0x20`; everything else
/// (including the multiplication sign `0xD7`) is unchanged.
pub open spec fn latin1_lcase(c: u8) -> u8 {
    if (0x41 <= c && c <= 0x5a) || (0xc0 <= c && c <= 0xd6) || (0xd8 <= c && c <= 0xde) {
        (c + 0x20) as u8
    } else {
        c
    }
}

/// Executable Latin-1 lower-casing; see [`latin1_lcase`].
pub fn latin1_to_lower(c: u8) -> (r: u8)
    ensures
        r == latin1_lcase(c),
{
    if (0x41 <= c && c <= 0x5a) || (0xc0 <= c && c <= 0xd6) || (0xd8 <= c && c <= 0xde) {
        c + 0x20
    } else {
        c
    }
}

/// Whether one Latin-1 byte may appear in a basic identifier:
/// letters (ASCII and accented, excluding `0xD7` and `0xF7`), digits,
/// and underscore.
pub open spec fn char_basic_ok(c: u8) -> bool {
    (0x41 <= c && c <= 0x5a)  // upper-case ASCII letters
    || (0xc0 <= c && c <= 0xd6)  // upper-case accented letters
    || (0xd8 <= c && c <= 0xde)
    || (0x61 <= c && c <= 0x7a)  // lower-case ASCII letters
    || (0xdf <= c && c <= 0xf6)  // lower-case accented letters
    || (0xf8 <= c)
    || c == 0x5f  // underscore
    || (0x30 <= c && c <= 0x39)  // digits
}

/// Executable form of [`char_basic_ok`].
pub fn char_valid_for_basic_id(c: u8) -> (r: bool)
    ensures
        r == char_basic_ok(c),
{
    (0x41 <= c && c <= 0x5a) || (0xc0 <= c && c <= 0xd6) || (0xd8 <= c && c <= 0xde) || (0x61 <= c
        && c <= 0x7a) || (0xdf <= c && c <= 0xf6) || 0xf8 <= c || c == 0x5f || (0x30 <= c && c
        <= 0x39)
}

/// Whether one Latin-1 byte may appear in an extended identifier: anything
/// but the C0 controls, delete, and the C1 controls.
pub open spec fn char_ext_ok(c: u8) -> bool {
    !(c <= 0x1f || c == 0x7f || (0x80 <= c && c <= 0x9f))
}

/// Executable form of [`char_ext_ok`].
pub fn char_valid_for_ext_id(c: u8) -> (r: bool)
    ensures
        r == char_ext_ok(c),
{
    !(c <= 0x1f || c == 0x7f || (0x80 <= c && c <= 0x9f))
}

/// The shape rules for a basic identifier: non-empty, drawn from
/// [`char_basic_ok`], not starting with a digit or underscore, no two
/// consecutive underscores, not ending with an underscore.
pub open spec fn basic_id_ok(s: Seq<u8>) -> bool {
    &&& s.len() >= 1
    &&& forall|i: int| 0 <= i < s.len() ==> char_basic_ok(#[trigger] s[i])
    &&& !(0x30 <= s[0] && s[0] <= 0x39)
    &&& s[0] != 0x5f
    &&& forall|i: int| 1 <= i < s.len() ==> !(#[trigger] s[i] == 0x5f && s[i - 1] == 0x5f)
    &&& s[s.len() - 1] != 0x5f
}

/// The shape rules for an extended identifier: non-empty and drawn from
/// [`char_ext_ok`].
pub open spec fn ext_id_ok(s: Seq<u8>) -> bool {
    &&& s.len() >= 1
    &&& forall|i: int| 0 <= i < s.len() ==> char_ext_ok(#[trigger] s[i])
}

/// The Unicode "control picture" that stands for one C0 control byte in
/// printable output.
pub open spec fn control_picture(c: u8) -> char {
    if c == 0x00 {
        '\u{2400}'
    } else if c == 0x01 {
        '\u{2401}'
    } else if c == 0x02 {
        '\u{2402}'
    } else if c == 0x03 {
        '\u{2403}'
    } else if c == 0x04 {
        '\u{2404}'
    } else if c == 0x05 {
        '\u{2405}'
    } else if c == 0x06 {
        '\u{2406}'
    } else if c == 0x07 {
        '\u{2407}'
    } else if c == 0x08 {
        '\u{2408}'
    } else if c == 0x09 {
        '\u{2409}'
    } else if c == 0x0a {
        '\u{240a}'
    } else if c == 0x0b {
        '\u{240b}'
    } else if c == 0x0c {
        '\u{240c}'
    } else if c == 0x0d {
        '\u{240d}'
    } else if c == 0x0e {
        '\u{240e}'
    } else if c == 0x0f {
        '\u{240f}'
    } else if c == 0x10 {
        '\u{2410}'
    } else if c == 0x11 {
        '\u{2411}'
    } else if c == 0x12 {
        '\u{2412}'
    } else if c == 0x13 {
        '\u{2413}'
    } else if c == 0x14 {
        '\u{2414}'
    } else if c == 0x15 {
        '\u{2415}'
    } else if c == 0x16 {
        '\u{2416}'
    } else if c == 0x17 {
        '\u{2417}'
    } else if c == 0x18 {
        '\u{2418}'
    } else if c == 0x19 {
        '\u{2419}'
    } else if c == 0x1a {
        '\u{241a}'
    } else if c == 0x1b {
        '\u{241b}'
    } else if c == 0x1c {
        '\u{241c}'
    } else if c == 0x1d {
        '\u{241d}'
    } else if c == 0x1e {
        '\u{241e}'
    } else {
        '\u{241f}'
    }
}

/// Executable form of [`control_picture`], for `c <= 0x1F`.
fn control_picture_char(c: u8) -> (r: char)
    requires
        c <= 0x1f,
    ensures
        r == control_picture(c),
{
    if c == 0x00 {
        '\u{2400}'
    } else if c == 0x01 {
        '\u{2401}'
    } else if c == 0x02 {
        '\u{2402}'
    } else if c == 0x03 {
        '\u{2403}'
    } else if c == 0x04 {
        '\u{2404}'
    } else if c == 0x05 {
        '\u{2405}'
    } else if c == 0x06 {
        '\u{2406}'
    } else if c == 0x07 {
        '\u{2407}'
    } else if c == 0x08 {
        '\u{2408}'
    } else if c == 0x09 {
        '\u{2409}'
    } else if c == 0x0a {
        '\u{240a}'
    } else if c == 0x0b {
        '\u{240b}'
    } else if c == 0x0c {
        '\u{240c}'
    } else if c == 0x0d {
        '\u{240d}'
    } else if c == 0x0e {
        '\u{240e}'
    } else if c == 0x0f {
        '\u{240f}'
    } else if c == 0x10 {
        '\u{2410}'
    } else if c == 0x11 {
        '\u{2411}'
    } else if c == 0x12 {
        '\u{2412}'
    } else if c == 0x13 {
        '\u{2413}'
    } else if c == 0x14 {
        '\u{2414}'
    } else if c == 0x15 {
        '\u{2415}'
    } else if c == 0x16 {
        '\u{2416}'
    } else if c == 0x17 {
        '\u{2417}'
    } else if c == 0x18 {
        '\u{2418}'
    } else if c == 0x19 {
        '\u{2419}'
    } else if c == 0x1a {
        '\u{241a}'
    } else if c == 0x1b {
        '\u{241b}'
    } else if c == 0x1c {
        '\u{241c}'
    } else if c == 0x1d {
        '\u{241d}'
    } else if c == 0x1e {
        '\u{241e}'
    } else {
        '\u{241f}'
    }
}

/// One lower-case hexadecimal digit, for `d <= 15`.
pub open spec fn hex_digit(d: u8) -> char {
    if d < 10 {
        ((0x30 + d) as u8) as char
    } else {
        ((0x57 + d) as u8) as char
    }
}

/// Whether a Latin-1 byte is rendered as a `\xNN` escape: the C1 controls,
/// no-break space, and soft hyphen have no useful printable glyph.
pub open spec fn pretty_escaped(c: u8) -> bool {
    (0x80 <= c && c <= 0x9f) || c == 0xa0 || c == 0xad
}

/// The printable rendering of one Latin-1 byte: control pictures for the C0
/// controls and delete, a `\xNN` escape for [`pretty_escaped`] bytes, and the
/// Unicode character of the same code point for everything else.
pub open spec fn latin1_pretty(c: u8) -> Seq<char> {
    if c <= 0x1f {
        seq![control_picture(c)]
    } else if c == 0x7f {
        seq!['\u{2421}']
    } else if pretty_escaped(c) {
        seq!['\\', 'x', hex_digit(c / 16), hex_digit(c % 16)]
    } else {
        seq![c as char]
    }
}

/// The printable rendering of a whole Latin-1 byte string.
pub open spec fn latin1_pretty_seq(s: Seq<u8>) -> Seq<char>
    decreases s.len(),
{
    if s.len() == 0 {
        Seq::empty()
    } else {
        latin1_pretty_seq(s.drop_last()) + latin1_pretty(s.last())
    }
}

/// Executable form of [`hex_digit`].
fn hex_digit_char(d: u8) -> (r: char)
    requires
        d <= 15,
    ensures
        r == hex_digit(d),
{
    if d < 10 {
        (0x30 + d) as char
    } else {
        (0x57 + d) as char
    }
}

/// Collects characters into a `String`.
///
/// Relies on `String: FromIterator<char>`: collecting from a character
/// iterator builds the string of exactly those characters in order.
#[verifier::external_body]
fn chars_to_string(chars: &Vec<char>) -> (r: String)
    ensures
        r@ == chars@,
{
    chars.iter().collect()
}

/// A Latin-1 byte string (one byte per character, not UTF-8).
pub struct Latin1Str {
    pub bytes: Vec<u8>,
}

impl Latin1Str {
    /// The raw bytes of the string.
    pub fn raw_name(&self) -> (r: &Vec<u8>)
        ensures
            r@ == self.bytes@,
    {
        &self.bytes
    }

    /// A printable UTF-8 rendering of the bytes; see [`latin1_pretty`].
    pub fn pretty_name(&self) -> (r: String)
        ensures
            r@ == latin1_pretty_seq(self.bytes@),
    {
        let mut chars: Vec<char> = Vec::new();
        let n = self.bytes.len();
        for i in 0..n
            invariant
                n == self.bytes@.len(),
                chars@ == latin1_pretty_seq(self.bytes@.take(i as int)),
        {
            let c = self.bytes[i];
            if c <= 0x1f {
                chars.push(control_picture_char(c));
            } else if c == 0x7f {
                chars.push('\u{2421}');
            } else if (0x80 <= c && c <= 0x9f) || c == 0xa0 || c == 0xad {
                chars.push('\\');
                chars.push('x');
                chars.push(hex_digit_char(c / 16));
                chars.push(hex_digit_char(c % 16));
            } else {
                chars.push(c as char);
            }
            proof {
                assert(self.bytes@.take(i + 1).drop_last() =~= self.bytes@.take(i as int));
                assert(self.bytes@.take(i + 1).last() == self.bytes@[i as int]);
            }
        }
        proof {
            assert(self.bytes@.take(n as int) =~= self.bytes@);
        }
        chars_to_string(&chars)
    }

    /// Whether the bytes form a valid basic identifier.
    pub fn valid_for_basic_id(&self) -> (r: bool)
        ensures
            r == basic_id_ok(self.bytes@),
    {
        let n = self.bytes.len();
        if n == 0 {
            return false;
        }
        for i in 0..n
            invariant
                n == self.bytes@.len(),
                forall|j: int| 0 <= j < i ==> char_basic_ok(#[trigger] self.bytes@[j]),
        {
            if !char_valid_for_basic_id(self.bytes[i]) {
                return false;
            }
        }
        let first = self.bytes[0];
        if (0x30 <= first && first <= 0x39) || first == 0x5f {
            return false;
        }
        for i in 1..n
            invariant
                n == self.bytes@.len(),
                1 <= i,
                forall|j: int|
                    1 <= j < i ==> !(#[trigger] self.bytes@[j] == 0x5f && self.bytes@[j - 1]
                        == 0x5f),
        {
            if self.bytes[i - 1] == 0x5f && self.bytes[i] == 0x5f {
                return false;
            }
        }
        if self.bytes[n - 1] == 0x5f {
            return false;
        }
        true
    }

    /// Whether the bytes form a valid extended identifier.
    pub fn valid_for_ext_id(&self) -> (r: bool)
        ensures
            r == ext_id_ok(self.bytes@),
    {
        let n = self.bytes.len();
        if n == 0 {
            return false;
        }
        for i in 0..n
            invariant
                n == self.bytes@.len(),
                forall|j: int| 0 <= j < i ==> char_ext_ok(#[trigger] self.bytes@[j]),
        {
            if !char_valid_for_ext_id(self.bytes[i]) {
                return false;
            }
        }
        true
    }
}

} // verus!

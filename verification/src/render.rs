//! The line renderer: one line of text for each entry, the bare name or the
//! name behind a mode column and a size column.

use crate::mode::{format_mode, mode_chars, MODE_WIDTH};
use vstd::prelude::*;

verus! {

/// The width of the size column.
pub const SIZE_WIDTH: usize = 8;

/// What is known of an entry besides its name.
#[derive(Clone, Copy, Debug, PartialEq, Eq, Structural)]
pub struct FileMeta {
    /// The type and permission bits.
    pub mode_bits: u32,
    /// The length in bytes.
    pub size_bytes: u64,
    /// The time of the last change, in seconds since the epoch. It is kept
    /// for a time column that no line shows yet.
    pub modified_secs: u64,
}

/// How a listing is made.
#[derive(Clone, Copy, Debug, PartialEq, Eq, Structural)]
pub struct Config {
    /// List hidden names, and `.` and `..` with them.
    pub show_hidden: bool,
    /// Show the mode and the size before each name.
    pub long_format: bool,
    /// Reserved for sizes in scaled units. Sizes are shown in bytes whether
    /// it is set or not.
    pub human_readable: bool,
}

/// The character for the decimal digit `d`.
pub open spec fn digit_char(d: nat) -> char {
    if d == 0 {
        '0'
    } else if d == 1 {
        '1'
    } else if d == 2 {
        '2'
    } else if d == 3 {
        '3'
    } else if d == 4 {
        '4'
    } else if d == 5 {
        '5'
    } else if d == 6 {
        '6'
    } else if d == 7 {
        '7'
    } else if d == 8 {
        '8'
    } else {
        '9'
    }
}

/// The decimal digits of `n`, the most significant first, with no leading
/// zero but for `n == 0`.
pub open spec fn decimal_digits(n: nat) -> Seq<char>
    decreases n,
{
    if n < 10 {
        seq![digit_char(n)]
    } else {
        decimal_digits(n / 10).push(digit_char(n % 10))
    }
}

/// `text` behind as many spaces as bring it to `width` characters; `text`
/// itself where it is that long or longer.
pub open spec fn right_aligned(text: Seq<char>, width: nat) -> Seq<char> {
    if text.len() < width {
        Seq::new((width - text.len()) as nat, |i: int| ' ') + text
    } else {
        text
    }
}

/// The mode column of an entry of which nothing is known.
pub open spec fn unknown_mode() -> Seq<char> {
    Seq::new(MODE_WIDTH as nat, |i: int| '?')
}

/// The size column of an entry of which nothing is known.
pub open spec fn unknown_size() -> Seq<char> {
    Seq::new(SIZE_WIDTH as nat, |i: int| '?')
}

/// The mode column, a space, the size column, a space and the name.
pub open spec fn columns(mode: Seq<char>, size: Seq<char>, name: Seq<char>) -> Seq<char> {
    mode + seq![' '] + size + seq![' '] + name
}

/// The line that shows an entry called `name`: the name alone in the short
/// format; in the long format the mode and the size, right-aligned, before
/// it, or question marks in both columns where nothing is known.
pub open spec fn line_of(name: Seq<char>, long_format: bool, meta: Option<FileMeta>) -> Seq<char> {
    if !long_format {
        name
    } else {
        match meta {
            Some(m) => columns(
                mode_chars(m.mode_bits),
                right_aligned(decimal_digits(m.size_bytes as nat), SIZE_WIDTH as nat),
                name,
            ),
            None => columns(unknown_mode(), unknown_size(), name),
        }
    }
}

/// The character for the decimal digit `d`.
fn digit(d: u64) -> (c: char)
    requires
        d < 10,
    ensures
        c == digit_char(d as nat),
{
    match d {
        0 => '0',
        1 => '1',
        2 => '2',
        3 => '3',
        4 => '4',
        5 => '5',
        6 => '6',
        7 => '7',
        8 => '8',
        _ => '9',
    }
}

/// The decimal digits of `n`.
pub fn decimal(n: u64) -> (digits: Vec<char>)
    ensures
        digits@ == decimal_digits(n as nat),
{
    let mut low: Vec<char> = Vec::new();
    let mut rest: u64 = n;
    while rest >= 10
        invariant
            decimal_digits(n as nat) == decimal_digits(rest as nat) + low@.reverse(),
        decreases rest,
    {
        let ghost before = low@;
        low.push(digit(rest % 10));
        proof {
            assert(low@.reverse() =~= seq![digit_char((rest % 10) as nat)] + before.reverse());
            assert(decimal_digits(rest as nat) == decimal_digits((rest / 10) as nat).push(
                digit_char((rest % 10) as nat),
            ));
            assert(decimal_digits(n as nat) =~= decimal_digits((rest / 10) as nat) + low@.reverse());
        }
        rest = rest / 10;
    }
    let ghost before = low@;
    low.push(digit(rest));
    assert(low@.reverse() =~= decimal_digits(rest as nat) + before.reverse());
    let mut digits: Vec<char> = Vec::new();
    let mut k: usize = low.len();
    while k > 0
        invariant
            k <= low.len(),
            digits@ == low@.reverse().take(low.len() - k),
        decreases k,
    {
        k -= 1;
        digits.push(low[k]);
        assert(digits@ =~= low@.reverse().take(low.len() - k));
    }
    assert(digits@ =~= low@.reverse());
    digits
}

/// Appends `count` times the character `c` to `line`.
fn push_repeated(line: &mut String, c: char, count: usize)
    ensures
        final(line)@ == old(line)@ + Seq::new(count as nat, |i: int| c),
{
    let mut k: usize = 0;
    while k < count
        invariant
            k <= count,
            line@ == old(line)@ + Seq::new(k as nat, |i: int| c),
        decreases count - k,
    {
        line.push(c);
        k += 1;
        assert(line@ =~= old(line)@ + Seq::new(k as nat, |i: int| c));
    }
}

/// Appends the characters of `chars` to `line`.
fn push_all(line: &mut String, chars: &Vec<char>)
    ensures
        final(line)@ == old(line)@ + chars@,
{
    let mut k: usize = 0;
    while k < chars.len()
        invariant
            k <= chars.len(),
            line@ == old(line)@ + chars@.take(k as int),
        decreases chars.len() - k,
    {
        line.push(chars[k]);
        k += 1;
        assert(line@ =~= old(line)@ + chars@.take(k as int));
    }
    assert(chars@.take(k as int) =~= chars@);
}

/// Appends `chars` to `line`, behind as many spaces as bring them to
/// `width` characters.
fn push_right_aligned(line: &mut String, chars: &Vec<char>, width: usize)
    ensures
        final(line)@ == old(line)@ + right_aligned(chars@, width as nat),
{
    if chars.len() < width {
        push_repeated(line, ' ', width - chars.len());
    }
    push_all(line, chars);
    assert(line@ =~= old(line)@ + right_aligned(chars@, width as nat));
}

/// The size column for a length of `size` bytes: its decimal digits,
/// right-aligned to eight characters, and all of them where there are more.
pub fn size_field(size: u64) -> (field: String)
    ensures
        field@ == right_aligned(decimal_digits(size as nat), SIZE_WIDTH as nat),
{
    let mut field = String::new();
    let digits = decimal(size);
    push_right_aligned(&mut field, &digits, SIZE_WIDTH);
    assert(field@ =~= right_aligned(decimal_digits(size as nat), SIZE_WIDTH as nat));
    field
}

/// Whether the lines of a listing show more than names, so that the
/// metadata of each entry is to be read: in the long format only.
pub fn needs_metadata(config: &Config) -> (needed: bool)
    ensures
        needed == config.long_format,
{
    config.long_format
}

/// The line that shows an entry called `display_name`.
///
/// In the short format it is the name alone. In the long format it is the
/// mode, the size in bytes right-aligned to eight characters, and the name,
/// with one space between them; where `meta` is `None`, question marks fill
/// the two columns. Neither the time of the last change nor
/// `config.human_readable` changes the line.
pub fn render_line(display_name: &str, config: &Config, meta: Option<FileMeta>) -> (line: String)
    ensures
        line@ == line_of(display_name@, config.long_format, meta),
{
    if !config.long_format {
        return String::from_str(display_name);
    }
    let mut line = String::new();
    match meta {
        Some(m) => {
            line.append(format_mode(m.mode_bits).as_str());
            line.push(' ');
            line.append(size_field(m.size_bytes).as_str());
            line.push(' ');
        },
        None => {
            proof {
                reveal_strlit("?????????? ???????? ");
            }
            line.append("?????????? ???????? ");
            assert(line@ =~= unknown_mode() + seq![' '] + unknown_size() + seq![' ']);
        },
    }
    line.append(display_name);
    assert(line@ =~= line_of(display_name@, config.long_format, meta));
    line
}

} // verus!

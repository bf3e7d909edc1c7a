//! Names of terminal colors.

use vstd::prelude::*;

use crate::text::chars_of;

verus! {

/// The sixteen ANSI colors, and the terminal's default.
#[derive(Clone, Copy, Debug, PartialEq, Eq, Structural)]
pub enum Color {
    Black,
    Red,
    Green,
    Yellow,
    Blue,
    Magenta,
    Cyan,
    White,
    BrightBlack,
    BrightRed,
    BrightGreen,
    BrightYellow,
    BrightBlue,
    BrightMagenta,
    BrightCyan,
    BrightWhite,
    Default,
}

/// `c` with ASCII upper case letters made lower case.
pub open spec fn ascii_lower(c: char) -> char {
    if 'A' <= c <= 'Z' {
        (((c as u32) + 32) as u8) as char
    } else {
        c
    }
}

/// `s` with ASCII upper case letters made lower case.
pub open spec fn lower_ascii(s: Seq<char>) -> Seq<char> {
    s.map_values(|c: char| ascii_lower(c))
}

/// The color names, lower case, each with its color.
pub open spec fn color_names() -> Seq<(Seq<char>, Color)> {
    seq![
        ("black"@, Color::Black),
        ("red"@, Color::Red),
        ("green"@, Color::Green),
        ("yellow"@, Color::Yellow),
        ("blue"@, Color::Blue),
        ("magenta"@, Color::Magenta),
        ("cyan"@, Color::Cyan),
        ("white"@, Color::White),
        ("bright_black"@, Color::BrightBlack),
        ("bright_red"@, Color::BrightRed),
        ("bright_green"@, Color::BrightGreen),
        ("bright_yellow"@, Color::BrightYellow),
        ("bright_blue"@, Color::BrightBlue),
        ("bright_magenta"@, Color::BrightMagenta),
        ("bright_cyan"@, Color::BrightCyan),
        ("bright_white"@, Color::BrightWhite),
    ]
}

/// The color that `name` names, ignoring ASCII case; `Default` for any
/// other text.
pub open spec fn color_of(name: Seq<char>) -> Color {
    if exists|i: int| 0 <= i < color_names().len() && #[trigger] color_names()[i].0 == lower_ascii(name) {
        color_names()[choose|i: int|
            0 <= i < color_names().len() && #[trigger] color_names()[i].0 == lower_ascii(name)
                && forall|j: int| 0 <= j < i ==> #[trigger] color_names()[j].0 != lower_ascii(name)].1
    } else {
        Color::Default
    }
}

fn lower_chars(s: &str) -> (r: Vec<char>)
    ensures
        r@ == lower_ascii(s@),
{
    let chars = chars_of(s);
    let mut out: Vec<char> = Vec::new();
    let mut i: usize = 0;
    while i < chars.len()
        invariant
            i <= chars@.len(),
            chars@ == s@,
            out@ == lower_ascii(chars@.take(i as int)),
        decreases chars@.len() - i,
    {
        let c = chars[i];
        let l = if 'A' <= c && c <= 'Z' {
            ((c as u32 + 32) as u8) as char
        } else {
            c
        };
        out.push(l);
        i += 1;
        proof {
            assert(lower_ascii(chars@.take(i as int)) =~= lower_ascii(chars@.take(i - 1)).push(
                ascii_lower(c),
            ));
        }
    }
    proof {
        assert(chars@.take(i as int) =~= chars@);
    }
    out
}

fn chars_eq(a: &Vec<char>, b: &str) -> (r: bool)
    ensures
        r == (a@ == b@),
{
    let bc = chars_of(b);
    if a.len() != bc.len() {
        return false;
    }
    let mut i: usize = 0;
    while i < a.len()
        invariant
            i <= a@.len(),
            a@.len() == bc@.len(),
            bc@ == b@,
            forall|j: int| 0 <= j < i ==> a@[j] == bc@[j],
        decreases a@.len() - i,
    {
        if a[i] != bc[i] {
            return false;
        }
        i += 1;
    }
    assert(a@ =~= bc@);
    true
}

/// The color that `name` names, ignoring ASCII case, such as `red` or
/// `Bright_Blue`; `Default` for any other text.
pub fn color_from_name(name: &str) -> (r: Color)
    ensures
        r == color_of(name@),
{
    let lower = lower_chars(name);
    let names: [(&str, Color); 16] = [
        ("black", Color::Black),
        ("red", Color::Red),
        ("green", Color::Green),
        ("yellow", Color::Yellow),
        ("blue", Color::Blue),
        ("magenta", Color::Magenta),
        ("cyan", Color::Cyan),
        ("white", Color::White),
        ("bright_black", Color::BrightBlack),
        ("bright_red", Color::BrightRed),
        ("bright_green", Color::BrightGreen),
        ("bright_yellow", Color::BrightYellow),
        ("bright_blue", Color::BrightBlue),
        ("bright_magenta", Color::BrightMagenta),
        ("bright_cyan", Color::BrightCyan),
        ("bright_white", Color::BrightWhite),
    ];
    assert(names@.map_values(|p: (&str, Color)| (p.0@, p.1)) =~= color_names());
    let mut i: usize = 0;
    while i < 16
        invariant
            i <= 16,
            lower@ == lower_ascii(name@),
            names@.map_values(|p: (&str, Color)| (p.0@, p.1)) == color_names(),
            forall|j: int| 0 <= j < i ==> color_names()[j].0 != lower_ascii(name@),
        decreases 16 - i,
    {
        let (n, c) = names[i];
        assert(color_names()[i as int] == (n@, c));
        if chars_eq(&lower, n) {
            proof {
                assert(color_names()[i as int].0 == lower_ascii(name@));
                let k = choose|k: int|
                    0 <= k < color_names().len() && #[trigger] color_names()[k].0 == lower_ascii(
                        name@,
                    ) && forall|j: int|
                        0 <= j < k ==> #[trigger] color_names()[j].0 != lower_ascii(name@);
                assert(k == i) by {
                    if k < i {
                        assert(color_names()[k].0 != lower_ascii(name@));
                    }
                    if k > i {
                        assert(color_names()[i as int].0 != lower_ascii(name@));
                    }
                }
            }
            return c;
        }
        i += 1;
    }
    Color::Default
}

} // verus!

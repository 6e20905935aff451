//! The styles that `LS_COLORS` gives, and the ANSI escape sequences that
//! start them.
use crate::args::number::lemma_decimal_value;
use crate::text::{decimal, push_decimal, push_text, to_decimal};
use vstd::prelude::*;

verus! {

/// One of the pre-defined ANSI colors, an 8-bit ANSI color or a 24-bit color.
#[derive(Debug, Clone, Copy, PartialEq, Eq)]
pub enum Color {
    Black,
    Red,
    Green,
    Yellow,
    Blue,
    Magenta,
    Cyan,
    White,
    BrightBlack,
    BrightRed,
    BrightGreen,
    BrightYellow,
    BrightBlue,
    BrightMagenta,
    BrightCyan,
    BrightWhite,
    Fixed(u8),
    RGB(u8, u8, u8),
}

/// Font attributes of a style.
#[derive(Debug, Clone, Copy, PartialEq, Eq)]
pub struct FontStyle {
    pub bold: bool,
    pub dimmed: bool,
    pub italic: bool,
    pub underline: bool,
    pub slow_blink: bool,
    pub rapid_blink: bool,
    pub reverse: bool,
    pub hidden: bool,
    pub strikethrough: bool,
}

/// A text style: colors and font attributes.
#[derive(Debug, Clone, Copy, PartialEq, Eq)]
pub struct Style {
    pub foreground: Option<Color>,
    pub background: Option<Color>,
    pub font_style: FontStyle,
    pub underline: Option<Color>,
}

/// The SGR code of `color`, where `base` is the code of black: 30 for the
/// foreground and 40 for the background.
pub open spec fn color_code(color: Color, base: nat) -> Seq<char> {
    match color {
        Color::Black => decimal(base),
        Color::Red => decimal(base + 1),
        Color::Green => decimal(base + 2),
        Color::Yellow => decimal(base + 3),
        Color::Blue => decimal(base + 4),
        Color::Magenta => decimal(base + 5),
        Color::Cyan => decimal(base + 6),
        Color::White => decimal(base + 7),
        Color::BrightBlack => decimal(base + 60),
        Color::BrightRed => decimal(base + 61),
        Color::BrightGreen => decimal(base + 62),
        Color::BrightYellow => decimal(base + 63),
        Color::BrightBlue => decimal(base + 64),
        Color::BrightMagenta => decimal(base + 65),
        Color::BrightCyan => decimal(base + 66),
        Color::BrightWhite => decimal(base + 67),
        Color::Fixed(n) => decimal(base + 8) + ";5;"@ + decimal(n as nat),
        Color::RGB(r, g, b) => decimal(base + 8) + ";2;"@ + decimal(r as nat) + ";"@ + decimal(
            g as nat,
        ) + ";"@ + decimal(b as nat),
    }
}

/// The sixteen named colors in the order of their SGR codes: the eight
/// standard ones, then their bright versions.
pub open spec fn named_colors() -> Seq<Color> {
    seq![
        Color::Black,
        Color::Red,
        Color::Green,
        Color::Yellow,
        Color::Blue,
        Color::Magenta,
        Color::Cyan,
        Color::White,
        Color::BrightBlack,
        Color::BrightRed,
        Color::BrightGreen,
        Color::BrightYellow,
        Color::BrightBlue,
        Color::BrightMagenta,
        Color::BrightCyan,
        Color::BrightWhite,
    ]
}

/// The code of the `i`-th named color is its offset from the code of black:
/// `i` for the eight standard colors, and 60 more for the bright ones.
pub proof fn lemma_named_color_codes(base: nat)
    ensures
        forall|i: int|
            0 <= i < 16 ==> #[trigger] color_code(named_colors()[i], base) == decimal(
                (base + if i < 8 {
                    i
                } else {
                    i + 52
                }) as nat,
            ),
{
    let colors = named_colors();
    assert forall|i: int| 0 <= i < 16 implies #[trigger] color_code(colors[i], base) == decimal(
        (base + if i < 8 {
            i
        } else {
            i + 52
        }) as nat,
    ) by {
        if i == 0 {
        } else if i == 1 {
        } else if i == 2 {
        } else if i == 3 {
        } else if i == 4 {
        } else if i == 5 {
        } else if i == 6 {
        } else if i == 7 {
        } else if i == 8 {
        } else if i == 9 {
        } else if i == 10 {
        } else if i == 11 {
        } else if i == 12 {
        } else if i == 13 {
        } else if i == 14 {
        } else {
        }
    }
}

/// Distinct named colors have distinct codes.
pub proof fn lemma_named_color_codes_distinct(base: nat)
    ensures
        forall|i: int, j: int|
            0 <= i < 16 && 0 <= j < 16 && i != j ==> #[trigger] color_code(named_colors()[i], base)
                != #[trigger] color_code(named_colors()[j], base),
{
    lemma_named_color_codes(base);
    assert forall|i: int, j: int|
        0 <= i < 16 && 0 <= j < 16 && i != j implies #[trigger] color_code(named_colors()[i], base)
            != #[trigger] color_code(named_colors()[j], base) by {
        let a = (base + if i < 8 {
            i
        } else {
            i + 52
        }) as nat;
        let b = (base + if j < 8 {
            j
        } else {
            j + 52
        }) as nat;
        lemma_decimal_value(a);
        lemma_decimal_value(b);
        assert(a != b);
    }
}

/// The codes of the font attributes that are set, in order from bold (1)
/// to strikethrough (9).
pub open spec fn font_codes(font: FontStyle) -> Seq<Seq<char>> {
    let flags = seq![
        font.bold,
        font.dimmed,
        font.italic,
        font.underline,
        font.slow_blink,
        font.rapid_blink,
        font.reverse,
        font.hidden,
        font.strikethrough,
    ];
    flag_codes(flags, 9)
}

/// The codes `1` to `count` of the flags among the first `count` that are set.
pub open spec fn flag_codes(flags: Seq<bool>, count: nat) -> Seq<Seq<char>>
    decreases count,
{
    if count == 0 {
        seq![]
    } else {
        let before = flag_codes(flags, (count - 1) as nat);
        if flags[count - 1] {
            before.push(decimal(count))
        } else {
            before
        }
    }
}

/// The code of an underline color: only 8-bit and 24-bit colors have one.
pub open spec fn underline_codes(color: Option<Color>) -> Seq<Seq<char>> {
    match color {
        Some(Color::Fixed(n)) => seq!["58;5;"@ + decimal(n as nat)],
        Some(Color::RGB(r, g, b)) => seq![
            "58;2;"@ + decimal(r as nat) + ";"@ + decimal(g as nat) + ";"@ + decimal(b as nat),
        ],
        _ => seq![],
    }
}

/// The code of an optional color on the given base.
pub open spec fn optional_color_codes(color: Option<Color>, base: nat) -> Seq<Seq<char>> {
    match color {
        Some(c) => seq![color_code(c, base)],
        None => seq![],
    }
}

/// All the SGR codes of `style`, in the order in which they are written.
pub open spec fn style_codes(style: Style) -> Seq<Seq<char>> {
    font_codes(style.font_style) + optional_color_codes(style.foreground, 30)
        + optional_color_codes(style.background, 40) + underline_codes(style.underline)
}

/// `codes` with `;` between each two.
pub open spec fn joined(codes: Seq<Seq<char>>) -> Seq<char>
    decreases codes.len(),
{
    if codes.len() == 0 {
        seq![]
    } else if codes.len() == 1 {
        codes[0]
    } else {
        joined(codes.drop_last()) + ";"@ + codes.last()
    }
}

/// The ANSI escape sequence that starts `style`: empty where it sets
/// nothing.
pub open spec fn ansi_prefix(style: Style) -> Seq<char> {
    let codes = style_codes(style);
    if codes.len() == 0 {
        seq![]
    } else {
        "\x1b["@ + joined(codes) + "m"@
    }
}

/// The views of a sequence of strings.
pub open spec fn string_views(strings: Seq<String>) -> Seq<Seq<char>> {
    strings.map_values(|s: String| s@)
}

/// Appends the SGR code of `color` to `codes`, where `base` is the code of
/// black: 30 for the foreground and 40 for the background.
pub fn color_to_ansi_codes(color: &Color, base: u8, codes: &mut Vec<String>)
    requires
        base <= 188,
    ensures
        string_views(final(codes)@) == string_views(old(codes)@).push(color_code(*color, base as nat)),
{
    let base = base as u64;
    let code = match color {
        Color::Black => to_decimal(base),
        Color::Red => to_decimal(base + 1),
        Color::Green => to_decimal(base + 2),
        Color::Yellow => to_decimal(base + 3),
        Color::Blue => to_decimal(base + 4),
        Color::Magenta => to_decimal(base + 5),
        Color::Cyan => to_decimal(base + 6),
        Color::White => to_decimal(base + 7),
        Color::BrightBlack => to_decimal(base + 60),
        Color::BrightRed => to_decimal(base + 61),
        Color::BrightGreen => to_decimal(base + 62),
        Color::BrightYellow => to_decimal(base + 63),
        Color::BrightBlue => to_decimal(base + 64),
        Color::BrightMagenta => to_decimal(base + 65),
        Color::BrightCyan => to_decimal(base + 66),
        Color::BrightWhite => to_decimal(base + 67),
        Color::Fixed(n) => {
            let mut code = to_decimal(base + 8);
            push_text(&mut code, ";5;");
            push_decimal(&mut code, *n as u64);
            code
        },
        Color::RGB(r, g, b) => {
            let mut code = to_decimal(base + 8);
            push_text(&mut code, ";2;");
            push_decimal(&mut code, *r as u64);
            push_text(&mut code, ";");
            push_decimal(&mut code, *g as u64);
            push_text(&mut code, ";");
            push_decimal(&mut code, *b as u64);
            code
        },
    };
    let ghost before = codes@;
    codes.push(code);
    proof {
        assert(string_views(codes@) =~= string_views(before).push(color_code(*color, base as nat)));
    }
}

/// Appends the underline color's code to `codes`, where it has one.
fn underline_to_ansi_codes(color: &Option<Color>, codes: &mut Vec<String>)
    ensures
        string_views(final(codes)@) == string_views(old(codes)@) + underline_codes(*color),
{
    let ghost before = codes@;
    match color {
        Some(Color::Fixed(n)) => {
            let mut code = String::new();
            push_text(&mut code, "58;5;");
            push_decimal(&mut code, *n as u64);
            codes.push(code);
        },
        Some(Color::RGB(r, g, b)) => {
            let mut code = String::new();
            push_text(&mut code, "58;2;");
            push_decimal(&mut code, *r as u64);
            push_text(&mut code, ";");
            push_decimal(&mut code, *g as u64);
            push_text(&mut code, ";");
            push_decimal(&mut code, *b as u64);
            codes.push(code);
        },
        _ => {},
    }
    proof {
        assert(string_views(codes@) =~= string_views(before) + underline_codes(*color));
    }
}

/// Convert a [`Style`] to the ANSI escape sequence that starts it.
pub fn style_to_ansi_prefix(style: &Style) -> (prefix: String)
    ensures
        prefix@ == ansi_prefix(*style),
{
    let mut codes: Vec<String> = Vec::new();
    let font = &style.font_style;
    let flags: [bool; 9] = [
        font.bold,
        font.dimmed,
        font.italic,
        font.underline,
        font.slow_blink,
        font.rapid_blink,
        font.reverse,
        font.hidden,
        font.strikethrough,
    ];
    let ghost flag_seq = seq![
        font.bold,
        font.dimmed,
        font.italic,
        font.underline,
        font.slow_blink,
        font.rapid_blink,
        font.reverse,
        font.hidden,
        font.strikethrough,
    ];
    assert(flags@ =~= flag_seq);
    for i in 0..9usize
        invariant
            flags@ == flag_seq,
            flag_seq.len() == 9,
            string_views(codes@) == flag_codes(flag_seq, i as nat),
    {
        if flags[i] {
            let ghost before = codes@;
            codes.push(to_decimal((i + 1) as u64));
            proof {
                assert(string_views(codes@) =~= string_views(before).push(decimal((i + 1) as nat)));
            }
        }
    }
    proof {
        assert(string_views(codes@) == font_codes(style.font_style));
    }
    if let Some(color) = &style.foreground {
        color_to_ansi_codes(color, 30, &mut codes);
    }
    proof {
        assert(string_views(codes@) =~= font_codes(style.font_style) + optional_color_codes(
            style.foreground,
            30,
        ));
    }
    if let Some(color) = &style.background {
        color_to_ansi_codes(color, 40, &mut codes);
    }
    proof {
        assert(string_views(codes@) =~= font_codes(style.font_style) + optional_color_codes(
            style.foreground,
            30,
        ) + optional_color_codes(style.background, 40));
    }
    underline_to_ansi_codes(&style.underline, &mut codes);
    let ghost views = string_views(codes@);
    assert(views == style_codes(*style));
    let len = codes.len();
    if len == 0 {
        return String::new();
    }
    let mut prefix = String::new();
    push_text(&mut prefix, "\x1b[");
    for i in 0..len
        invariant
            len == codes@.len(),
            len > 0,
            views == string_views(codes@),
            prefix@ == "\x1b["@ + joined(views.take(i as int)),
    {
        let ghost before = prefix@;
        if i > 0 {
            push_text(&mut prefix, ";");
        }
        push_text(&mut prefix, codes[i].as_str());
        proof {
            let taken = views.take(i + 1);
            assert(taken.drop_last() =~= views.take(i as int));
            assert(views[i as int] == codes@[i as int]@);
            if i == 0 {
                assert(joined(taken) == taken[0]);
                assert(prefix@ =~= "\x1b["@ + joined(taken));
            } else {
                assert(prefix@ =~= "\x1b["@ + joined(taken));
            }
        }
    }
    push_text(&mut prefix, "m");
    proof {
        assert(views.take(len as int) =~= views);
        assert(prefix@ =~= ansi_prefix(*style));
    }
    prefix
}

} // verus!

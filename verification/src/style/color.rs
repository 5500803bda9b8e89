use vstd::prelude::*;

verus! {

/// One of the sixteen colours every terminal has had since before it was a terminal.
#[derive(Debug, Clone, Copy, PartialEq, Eq, Hash, Structural)]
pub enum Ansi16 {
    /// Colour 0.
    Black,
    /// Colour 1.
    Red,
    /// Colour 2.
    Green,
    /// Colour 3.
    Yellow,
    /// Colour 4.
    Blue,
    /// Colour 5.
    Magenta,
    /// Colour 6.
    Cyan,
    /// Colour 7.
    White,
    /// Colour 8.
    BrightBlack,
    /// Colour 9.
    BrightRed,
    /// Colour 10.
    BrightGreen,
    /// Colour 11.
    BrightYellow,
    /// Colour 12.
    BrightBlue,
    /// Colour 13.
    BrightMagenta,
    /// Colour 14.
    BrightCyan,
    /// Colour 15.
    BrightWhite,
}

impl Ansi16 {
    /// The colour's index, `0` to `15`.
    pub open spec fn index_spec(self) -> u8 {
        match self {
            Ansi16::Black => 0,
            Ansi16::Red => 1,
            Ansi16::Green => 2,
            Ansi16::Yellow => 3,
            Ansi16::Blue => 4,
            Ansi16::Magenta => 5,
            Ansi16::Cyan => 6,
            Ansi16::White => 7,
            Ansi16::BrightBlack => 8,
            Ansi16::BrightRed => 9,
            Ansi16::BrightGreen => 10,
            Ansi16::BrightYellow => 11,
            Ansi16::BrightBlue => 12,
            Ansi16::BrightMagenta => 13,
            Ansi16::BrightCyan => 14,
            Ansi16::BrightWhite => 15,
        }
    }

    /// The colour's nominal sRGB value, as terminals conventionally render it.
    pub open spec fn rgb_spec(self) -> (u8, u8, u8) {
        match self {
            Ansi16::Black => (0, 0, 0),
            Ansi16::Red => (128, 0, 0),
            Ansi16::Green => (0, 128, 0),
            Ansi16::Yellow => (128, 128, 0),
            Ansi16::Blue => (0, 0, 128),
            Ansi16::Magenta => (128, 0, 128),
            Ansi16::Cyan => (0, 128, 128),
            Ansi16::White => (192, 192, 192),
            Ansi16::BrightBlack => (128, 128, 128),
            Ansi16::BrightRed => (255, 0, 0),
            Ansi16::BrightGreen => (0, 255, 0),
            Ansi16::BrightYellow => (255, 255, 0),
            Ansi16::BrightBlue => (0, 0, 255),
            Ansi16::BrightMagenta => (255, 0, 255),
            Ansi16::BrightCyan => (0, 255, 255),
            Ansi16::BrightWhite => (255, 255, 255),
        }
    }

    /// Returns the colour's index, `0` to `15`.
    pub fn index(&self) -> (index: u8)
        ensures
            index == self.index_spec(),
            index < 16,
    {
        match self {
            Ansi16::Black => 0,
            Ansi16::Red => 1,
            Ansi16::Green => 2,
            Ansi16::Yellow => 3,
            Ansi16::Blue => 4,
            Ansi16::Magenta => 5,
            Ansi16::Cyan => 6,
            Ansi16::White => 7,
            Ansi16::BrightBlack => 8,
            Ansi16::BrightRed => 9,
            Ansi16::BrightGreen => 10,
            Ansi16::BrightYellow => 11,
            Ansi16::BrightBlue => 12,
            Ansi16::BrightMagenta => 13,
            Ansi16::BrightCyan => 14,
            Ansi16::BrightWhite => 15,
        }
    }

    /// The colour at `index`, or `None` past fifteen.
    pub fn from_index(index: u8) -> (colour: Option<Self>)
        ensures
            colour.is_some() == (index < 16),
            colour matches Some(colour) ==> colour.index_spec() == index,
    {
        match index {
            0 => Some(Ansi16::Black),
            1 => Some(Ansi16::Red),
            2 => Some(Ansi16::Green),
            3 => Some(Ansi16::Yellow),
            4 => Some(Ansi16::Blue),
            5 => Some(Ansi16::Magenta),
            6 => Some(Ansi16::Cyan),
            7 => Some(Ansi16::White),
            8 => Some(Ansi16::BrightBlack),
            9 => Some(Ansi16::BrightRed),
            10 => Some(Ansi16::BrightGreen),
            11 => Some(Ansi16::BrightYellow),
            12 => Some(Ansi16::BrightBlue),
            13 => Some(Ansi16::BrightMagenta),
            14 => Some(Ansi16::BrightCyan),
            15 => Some(Ansi16::BrightWhite),
            _ => None,
        }
    }

    /// Returns the colour's nominal sRGB value, as `(red, green, blue)`.
    pub fn to_rgb(&self) -> (rgb: (u8, u8, u8))
        ensures
            rgb == self.rgb_spec(),
    {
        match self {
            Ansi16::Black => (0, 0, 0),
            Ansi16::Red => (128, 0, 0),
            Ansi16::Green => (0, 128, 0),
            Ansi16::Yellow => (128, 128, 0),
            Ansi16::Blue => (0, 0, 128),
            Ansi16::Magenta => (128, 0, 128),
            Ansi16::Cyan => (0, 128, 128),
            Ansi16::White => (192, 192, 192),
            Ansi16::BrightBlack => (128, 128, 128),
            Ansi16::BrightRed => (255, 0, 0),
            Ansi16::BrightGreen => (0, 255, 0),
            Ansi16::BrightYellow => (255, 255, 0),
            Ansi16::BrightBlue => (0, 0, 255),
            Ansi16::BrightMagenta => (255, 0, 255),
            Ansi16::BrightCyan => (0, 255, 255),
            Ansi16::BrightWhite => (255, 255, 255),
        }
    }
}

/// A colour, in whichever of the three terminal representations a theme chose.
///
/// A concrete enum rather than a trait, because downgrading `Rgb → 256 → 16` needs to see inside.
#[derive(Debug, Clone, Copy, PartialEq, Eq, Hash, Structural)]
#[non_exhaustive]
pub enum Color {
    /// One of the sixteen the terminal has always had.
    Ansi16(Ansi16),
    /// An index into the terminal's 256-colour palette.
    Ansi256(u8),
    /// A 24-bit colour, as `(red, green, blue)`.
    Rgb(u8, u8, u8),
}

/// The 6×6×6 cube's level for one channel. The levels are 0, 95, 135, 175, 215, 255, so the
/// midpoints between them are spelled out.
pub open spec fn cube_level_spec(channel: u8) -> u8 {
    if channel < 48 {
        0
    } else if channel < 115 {
        1
    } else if channel < 155 {
        2
    } else if channel < 195 {
        3
    } else if channel < 235 {
        4
    } else {
        5
    }
}

/// The 256-colour entry for an RGB colour: the grey ramp (24 steps of 10 from 8 to 238) where the
/// channels agree, the cube everywhere else.
pub open spec fn rgb_to_ansi256_spec(red: u8, green: u8, blue: u8) -> u8 {
    if red == green && green == blue {
        if red < 8 {
            16
        } else if red > 238 {
            231
        } else {
            (232 + (red - 8) / 10) as u8
        }
    } else {
        (16 + 36 * cube_level_spec(red) + 6 * cube_level_spec(green) + cube_level_spec(blue)) as u8
    }
}

/// The sixteen-colour entry nearest a 256-colour one: itself below sixteen, one of the four greys
/// for the grey ramp, and otherwise by which of the cube's channels are lit, and how brightly.
pub open spec fn ansi256_to_ansi16_spec(index: u8) -> Ansi16 {
    if index < 16 {
        ansi16_at(index)
    } else if index >= 232 {
        let step = index - 232;
        if step < 6 {
            Ansi16::Black
        } else if step < 13 {
            Ansi16::BrightBlack
        } else if step < 19 {
            Ansi16::White
        } else {
            Ansi16::BrightWhite
        }
    } else {
        let cube = index - 16;
        let red = cube / 36;
        let green = (cube % 36) / 6;
        let blue = cube % 6;
        let bright = red > 3 || green > 3 || blue > 3;
        lit(red >= 3, green >= 3, blue >= 3, bright)
    }
}

/// The colour below sixteen with this index.
pub open spec fn ansi16_at(index: u8) -> Ansi16 {
    choose|colour: Ansi16| colour.index_spec() == index
}

/// The sixteen-colour entry with these channels lit, normal or bright.
pub open spec fn lit(red: bool, green: bool, blue: bool, bright: bool) -> Ansi16 {
    match (red, green, blue) {
        (false, false, false) => if bright { Ansi16::BrightBlack } else { Ansi16::Black },
        (true, false, false) => if bright { Ansi16::BrightRed } else { Ansi16::Red },
        (false, true, false) => if bright { Ansi16::BrightGreen } else { Ansi16::Green },
        (false, false, true) => if bright { Ansi16::BrightBlue } else { Ansi16::Blue },
        (true, true, false) => if bright { Ansi16::BrightYellow } else { Ansi16::Yellow },
        (true, false, true) => if bright { Ansi16::BrightMagenta } else { Ansi16::Magenta },
        (false, true, true) => if bright { Ansi16::BrightCyan } else { Ansi16::Cyan },
        (true, true, true) => if bright { Ansi16::BrightWhite } else { Ansi16::White },
    }
}

impl Color {
    /// The colour narrowed to the 256-colour palette; anything already at or below it is kept.
    pub open spec fn to_ansi256_spec(self) -> Color {
        match self {
            Color::Rgb(red, green, blue) => Color::Ansi256(rgb_to_ansi256_spec(red, green, blue)),
            other => other,
        }
    }

    /// The colour narrowed all the way to the sixteen.
    pub open spec fn to_ansi16_spec(self) -> Color {
        match self {
            Color::Ansi16(_) => self,
            Color::Ansi256(index) => Color::Ansi16(ansi256_to_ansi16_spec(index)),
            Color::Rgb(red, green, blue) => Color::Ansi16(
                ansi256_to_ansi16_spec(rgb_to_ansi256_spec(red, green, blue)),
            ),
        }
    }

    /// Narrows to the 256-colour palette, leaving anything already at or below it alone.
    pub fn to_ansi256(self) -> (narrowed: Self)
        ensures
            narrowed == self.to_ansi256_spec(),
    {
        match self {
            Color::Rgb(red, green, blue) => Color::Ansi256(rgb_to_ansi256(red, green, blue)),
            other => other,
        }
    }

    /// Narrows all the way to the sixteen, whatever the starting representation.
    pub fn to_ansi16(self) -> (narrowed: Self)
        ensures
            narrowed == self.to_ansi16_spec(),
    {
        match self {
            Color::Ansi16(_) => self,
            Color::Ansi256(index) => Color::Ansi16(ansi256_to_ansi16(index)),
            Color::Rgb(red, green, blue) => Color::Ansi16(
                ansi256_to_ansi16(rgb_to_ansi256(red, green, blue)),
            ),
        }
    }
}

/// The 6×6×6 cube's level for one channel.
fn cube_level(channel: u8) -> (level: u8)
    ensures
        level == cube_level_spec(channel),
        level <= 5,
{
    if channel < 48 {
        0
    } else if channel < 115 {
        1
    } else if channel < 155 {
        2
    } else if channel < 195 {
        3
    } else if channel < 235 {
        4
    } else {
        5
    }
}

fn rgb_to_ansi256(red: u8, green: u8, blue: u8) -> (index: u8)
    ensures
        index == rgb_to_ansi256_spec(red, green, blue),
{
    if red == green && green == blue {
        if red < 8 {
            return 16;
        }
        if red > 238 {
            return 231;
        }
        return 232 + (red - 8) / 10;
    }
    16 + 36 * cube_level(red) + 6 * cube_level(green) + cube_level(blue)
}

fn ansi256_to_ansi16(index: u8) -> (colour: Ansi16)
    ensures
        colour == ansi256_to_ansi16_spec(index),
{
    if index < 16 {
        return match Ansi16::from_index(index) {
            Some(colour) => colour,
            None => Ansi16::Black,
        };
    }
    if index >= 232 {
        let step = index - 232;
        return if step < 6 {
            Ansi16::Black
        } else if step < 13 {
            Ansi16::BrightBlack
        } else if step < 19 {
            Ansi16::White
        } else {
            Ansi16::BrightWhite
        };
    }
    let cube = index - 16;
    let red = cube / 36;
    let green = (cube % 36) / 6;
    let blue = cube % 6;
    let bright = red > 3 || green > 3 || blue > 3;
    match (red >= 3, green >= 3, blue >= 3) {
        (false, false, false) => if bright { Ansi16::BrightBlack } else { Ansi16::Black },
        (true, false, false) => if bright { Ansi16::BrightRed } else { Ansi16::Red },
        (false, true, false) => if bright { Ansi16::BrightGreen } else { Ansi16::Green },
        (false, false, true) => if bright { Ansi16::BrightBlue } else { Ansi16::Blue },
        (true, true, false) => if bright { Ansi16::BrightYellow } else { Ansi16::Yellow },
        (true, false, true) => if bright { Ansi16::BrightMagenta } else { Ansi16::Magenta },
        (false, true, true) => if bright { Ansi16::BrightCyan } else { Ansi16::Cyan },
        (true, true, true) => if bright { Ansi16::BrightWhite } else { Ansi16::White },
    }
}

/// An index names exactly one of the sixteen, and that one names it back.
pub proof fn law_an_index_round_trips(colour: Ansi16)
    ensures
        colour.index_spec() < 16,
        ansi16_at(colour.index_spec()) == colour,
{
    let other = ansi16_at(colour.index_spec());
    assert(other.index_spec() == colour.index_spec());
}

/// Narrowing is idempotent, and what it produces is one of the sixteen: a narrowed colour
/// narrows to itself.
pub proof fn law_narrowing_to_sixteen_is_idempotent(colour: Color)
    ensures
        colour.to_ansi16_spec() is Ansi16,
        colour.to_ansi16_spec().to_ansi16_spec() == colour.to_ansi16_spec(),
        colour.to_ansi256_spec().to_ansi256_spec() == colour.to_ansi256_spec(),
        colour.to_ansi256_spec().to_ansi16_spec() == colour.to_ansi16_spec(),
{
}

/// Narrowing a colour of the 6×6×6 cube to the sixteen keeps its hue: a channel of the result
/// (as its nominal sRGB value) is lit exactly where the cube's channel is at level 3 or above, and
/// the result is one of the bright eight exactly where some channel is above level 3.
pub proof fn law_narrowing_a_cube_colour_keeps_its_hue(red: u8, green: u8, blue: u8)
    requires
        red < 6,
        green < 6,
        blue < 6,
    ensures
        ({
            let narrowed = Color::Ansi256((16 + 36 * red + 6 * green + blue) as u8).to_ansi16_spec();
            &&& narrowed is Ansi16
            &&& (narrowed->Ansi16_0.rgb_spec().0 != 0 <==> red >= 3)
            &&& (narrowed->Ansi16_0.rgb_spec().1 != 0 <==> green >= 3)
            &&& (narrowed->Ansi16_0.rgb_spec().2 != 0 <==> blue >= 3)
            &&& (narrowed->Ansi16_0.index_spec() >= 8 <==> (red > 3 || green > 3 || blue > 3))
        }),
{
    let cube: int = 36 * red + 6 * green + blue;
    assert(cube / 36 == red && (cube % 36) / 6 == green && cube % 6 == blue) by (nonlinear_arith)
        requires
            cube == 36 * red + 6 * green + blue,
            red < 6,
            green < 6,
            blue < 6,
    ;
    let index = (16 + cube) as u8;
    assert(index - 16 == cube);
}

/// Narrowing a 24-bit colour to the sixteen keeps its hue: unless its channels are all equal (a
/// grey), a channel of the result is lit exactly where the colour's is at least 155 of 255, and
/// the result is one of the bright eight exactly where some channel is at least 195.
pub proof fn law_narrowing_a_true_colour_keeps_its_hue(red: u8, green: u8, blue: u8)
    requires
        !(red == green && green == blue),
    ensures
        ({
            let narrowed = Color::Rgb(red, green, blue).to_ansi16_spec();
            &&& narrowed is Ansi16
            &&& (narrowed->Ansi16_0.rgb_spec().0 != 0 <==> red >= 155)
            &&& (narrowed->Ansi16_0.rgb_spec().1 != 0 <==> green >= 155)
            &&& (narrowed->Ansi16_0.rgb_spec().2 != 0 <==> blue >= 155)
            &&& (narrowed->Ansi16_0.index_spec() >= 8 <==> (red >= 195 || green >= 195 || blue >= 195))
        }),
{
    law_narrowing_a_cube_colour_keeps_its_hue(
        cube_level_spec(red),
        cube_level_spec(green),
        cube_level_spec(blue),
    );
}

/// The value of a level of the 6×6×6 cube, as xterm's palette gives it.
pub open spec fn cube_value(level: int) -> int {
    if level <= 0 {
        0
    } else {
        55 + 40 * level
    }
}

/// How far apart two channel values are.
pub open spec fn distance(a: int, b: int) -> int {
    if a < b {
        b - a
    } else {
        a - b
    }
}

/// Narrowing a 24-bit colour to the 256 picks, for a colour that is not a grey, the cube entry
/// whose every channel is the cube's level nearest the colour's; and for a grey, the step of the
/// grey ramp at or just below it, or the cube's black or white past either end of the ramp.
pub proof fn law_narrowing_to_the_palette_picks_the_nearest_entry(red: u8, green: u8, blue: u8)
    ensures
        ({
            let narrowed = Color::Rgb(red, green, blue).to_ansi256_spec();
            let index = narrowed->Ansi256_0 as int;
            &&& narrowed is Ansi256
            &&& !(red == green && green == blue) ==> {
                &&& 16 <= index < 232
                &&& forall|level: int|
                    #![trigger cube_value(level)]
                    0 <= level < 6 ==> {
                        &&& distance(cube_value((index - 16) / 36), red as int) <= distance(
                            cube_value(level),
                            red as int,
                        )
                        &&& distance(cube_value(((index - 16) % 36) / 6), green as int) <= distance(
                            cube_value(level),
                            green as int,
                        )
                        &&& distance(cube_value((index - 16) % 6), blue as int) <= distance(
                            cube_value(level),
                            blue as int,
                        )
                    }
            }
            &&& (red == green && green == blue && 8 <= red <= 238) ==> {
                &&& 232 <= index
                &&& 8 + 10 * (index - 232) <= red < 18 + 10 * (index - 232)
            }
            &&& (red == green && green == blue && red < 8) ==> index == 16
            &&& (red == green && green == blue && red > 238) ==> index == 231
        }),
{
    if !(red == green && green == blue) {
        let r = cube_level_spec(red) as int;
        let g = cube_level_spec(green) as int;
        let b = cube_level_spec(blue) as int;
        let cube: int = 36 * r + 6 * g + b;
        assert(cube / 36 == r && (cube % 36) / 6 == g && cube % 6 == b) by (nonlinear_arith)
            requires
                cube == 36 * r + 6 * g + b,
                0 <= r < 6,
                0 <= g < 6,
                0 <= b < 6,
        ;
        assert((16 + cube) as u8 as int == 16 + cube);
    }
}

/// Narrowing a colour already among the sixteen, or an entry of the 256 naming one of them, keeps
/// that colour.
pub proof fn law_narrowing_keeps_the_sixteen(colour: Ansi16)
    ensures
        Color::Ansi16(colour).to_ansi16_spec() == Color::Ansi16(colour),
        Color::Ansi256(colour.index_spec()).to_ansi16_spec() == Color::Ansi16(colour),
{
    law_an_index_round_trips(colour);
}

/// Narrowing a grey to the sixteen gives a grey, and never a darker one for a lighter grey: along
/// the grey ramp, and for 24-bit greys.
pub proof fn law_narrowing_a_grey_keeps_it_grey_and_in_order(lighter: u8, darker: u8)
    requires
        darker <= lighter,
    ensures
        ({
            let light = Color::Rgb(lighter, lighter, lighter).to_ansi16_spec()->Ansi16_0.rgb_spec();
            let dark = Color::Rgb(darker, darker, darker).to_ansi16_spec()->Ansi16_0.rgb_spec();
            &&& light.0 == light.1 == light.2
            &&& dark.0 <= light.0
        }),
        232 <= darker ==> ({
            let light = Color::Ansi256(lighter).to_ansi16_spec()->Ansi16_0.rgb_spec();
            let dark = Color::Ansi256(darker).to_ansi16_spec()->Ansi16_0.rgb_spec();
            &&& light.0 == light.1 == light.2
            &&& dark.0 <= light.0
        }),
{
}

} // verus!

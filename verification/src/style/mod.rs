//! The medium-independent half of appearance: what a piece of text *is*, and what a theme wants
//! done with it.

pub mod color;

pub use color::{Ansi16, Color};

use vstd::prelude::*;

use anstyle::{Ansi256Color, Effects, RgbColor};

use crate::diagnostic::Severity;

verus! {

/// What a piece of rendered text **is**, rather than how it should look.
///
/// A theme maps roles, not escape codes, so one theme can drive a terminal, an HTML page and a
/// native widget alike.
#[derive(Debug, Clone, Copy, PartialEq, Eq, Hash, Structural)]
#[non_exhaustive]
pub enum Role {
    /// The header's severity word, and the underline that agrees with it.
    Severity(Severity),
    /// The phrase attached to the primary position.
    PrimaryLabel,
    /// The phrase attached to a secondary position.
    SecondaryLabel,
    /// The bars and brackets down the left of an excerpt.
    Gutter,
    /// A line number in the gutter.
    LineNumber,
    /// The source text itself.
    SourceText,
    /// The line saying what the reader can do about it.
    Help,
    /// The stable machine identifier.
    Code,
}

/// What a theme wants done with a [`Role`], in terms every medium can interpret.
#[derive(Debug, Clone, Copy, PartialEq, Eq, Hash, Structural)]
pub struct Style {
    foreground: Option<Color>,
    background: Option<Color>,
    bold: bool,
    italic: bool,
    underline: bool,
}

impl Style {
    /// The foreground colour, if the theme asked for one.
    pub closed spec fn foreground_spec(self) -> Option<Color> {
        self.foreground
    }

    /// The background colour, if the theme asked for one.
    pub closed spec fn background_spec(self) -> Option<Color> {
        self.background
    }

    /// Whether the theme asked for bold.
    pub closed spec fn bold_spec(self) -> bool {
        self.bold
    }

    /// Whether the theme asked for italic.
    pub closed spec fn italic_spec(self) -> bool {
        self.italic
    }

    /// Whether the theme asked for an underline.
    pub closed spec fn underline_spec(self) -> bool {
        self.underline
    }

    /// The style with these five attributes.
    pub closed spec fn of(
        foreground: Option<Color>,
        background: Option<Color>,
        bold: bool,
        italic: bool,
        underline: bool,
    ) -> Style {
        Style { foreground, background, bold, italic, underline }
    }

    /// Asks for nothing at all.
    pub open spec fn is_plain_spec(self) -> bool {
        &&& self.foreground_spec().is_none()
        &&& self.background_spec().is_none()
        &&& !self.bold_spec()
        &&& !self.italic_spec()
        &&& !self.underline_spec()
    }

    /// A colour narrowed by `narrow`, if there is one.
    pub open spec fn narrowed(colour: Option<Color>, to_sixteen: bool) -> Option<Color> {
        match colour {
            Some(colour) => Some(
                if to_sixteen {
                    colour.to_ansi16_spec()
                } else {
                    colour.to_ansi256_spec()
                },
            ),
            None => None,
        }
    }

    /// The style a `Style` built from these five values is.
    pub proof fn lemma_of(
        foreground: Option<Color>,
        background: Option<Color>,
        bold: bool,
        italic: bool,
        underline: bool,
    )
        ensures
            ({
                let style = Style::of(foreground, background, bold, italic, underline);
                &&& style.foreground_spec() == foreground
                &&& style.background_spec() == background
                &&& style.bold_spec() == bold
                &&& style.italic_spec() == italic
                &&& style.underline_spec() == underline
            }),
    {
    }

    /// A style that asks for nothing.
    pub fn plain() -> (style: Self)
        ensures
            style == Style::of(None, None, false, false, false),
            style.is_plain_spec(),
    {
        Self { foreground: None, background: None, bold: false, italic: false, underline: false }
    }

    /// Sets the foreground colour.
    pub fn with_foreground(self, colour: Color) -> (style: Self)
        ensures
            style == Style::of(
                Some(colour),
                self.background_spec(),
                self.bold_spec(),
                self.italic_spec(),
                self.underline_spec(),
            ),
    {
        Self { foreground: Some(colour), ..self }
    }

    /// Sets the background colour.
    pub fn with_background(self, colour: Color) -> (style: Self)
        ensures
            style == Style::of(
                self.foreground_spec(),
                Some(colour),
                self.bold_spec(),
                self.italic_spec(),
                self.underline_spec(),
            ),
    {
        Self { background: Some(colour), ..self }
    }

    /// Asks for bold.
    pub fn with_bold(self) -> (style: Self)
        ensures
            style == Style::of(
                self.foreground_spec(),
                self.background_spec(),
                true,
                self.italic_spec(),
                self.underline_spec(),
            ),
    {
        Self { bold: true, ..self }
    }

    /// Asks for italic.
    pub fn with_italic(self) -> (style: Self)
        ensures
            style == Style::of(
                self.foreground_spec(),
                self.background_spec(),
                self.bold_spec(),
                true,
                self.underline_spec(),
            ),
    {
        Self { italic: true, ..self }
    }

    /// Asks for an underline.
    pub fn with_underline(self) -> (style: Self)
        ensures
            style == Style::of(
                self.foreground_spec(),
                self.background_spec(),
                self.bold_spec(),
                self.italic_spec(),
                true,
            ),
    {
        Self { underline: true, ..self }
    }

    /// Returns the foreground colour, if the theme asked for one.
    pub fn foreground(&self) -> (colour: Option<Color>)
        ensures
            colour == self.foreground_spec(),
    {
        self.foreground
    }

    /// Returns the background colour, if the theme asked for one.
    pub fn background(&self) -> (colour: Option<Color>)
        ensures
            colour == self.background_spec(),
    {
        self.background
    }

    /// Returns whether the theme asked for bold.
    pub fn bold(&self) -> (bold: bool)
        ensures
            bold == self.bold_spec(),
    {
        self.bold
    }

    /// Returns whether the theme asked for italic.
    pub fn italic(&self) -> (italic: bool)
        ensures
            italic == self.italic_spec(),
    {
        self.italic
    }

    /// Returns whether the theme asked for an underline.
    pub fn underline(&self) -> (underline: bool)
        ensures
            underline == self.underline_spec(),
    {
        self.underline
    }

    /// Returns whether the style asks for nothing at all.
    pub fn is_plain(&self) -> (plain: bool)
        ensures
            plain == self.is_plain_spec(),
    {
        self.foreground.is_none() && self.background.is_none() && !self.bold && !self.italic
            && !self.underline
    }

    /// Narrows every colour in the style to the sixteen, keeping the attributes.
    pub fn to_ansi16(self) -> (style: Self)
        ensures
            style == Style::of(
                Style::narrowed(self.foreground_spec(), true),
                Style::narrowed(self.background_spec(), true),
                self.bold_spec(),
                self.italic_spec(),
                self.underline_spec(),
            ),
    {
        let foreground = match self.foreground {
            Some(colour) => Some(colour.to_ansi16()),
            None => None,
        };
        let background = match self.background {
            Some(colour) => Some(colour.to_ansi16()),
            None => None,
        };
        Self { foreground, background, ..self }
    }

    /// Narrows every colour in the style to the 256-colour palette, keeping the attributes.
    pub fn to_ansi256(self) -> (style: Self)
        ensures
            style == Style::of(
                Style::narrowed(self.foreground_spec(), false),
                Style::narrowed(self.background_spec(), false),
                self.bold_spec(),
                self.italic_spec(),
                self.underline_spec(),
            ),
    {
        let foreground = match self.foreground {
            Some(colour) => Some(colour.to_ansi256()),
            None => None,
        };
        let background = match self.background {
            Some(colour) => Some(colour.to_ansi256()),
            None => None,
        };
        Self { foreground, background, ..self }
    }

    /// Drops every colour, keeping the attributes — what a two-colour terminal gets.
    pub fn without_color(self) -> (style: Self)
        ensures
            style == Style::of(
                None,
                None,
                self.bold_spec(),
                self.italic_spec(),
                self.underline_spec(),
            ),
    {
        Self { foreground: None, background: None, ..self }
    }
}

/// The escape sequence `anstyle` writes to switch a terminal into `style`.
pub uninterp spec fn sgr_opening(style: Style) -> Seq<char>;

/// The escape sequence `anstyle` writes to switch `style` off again: its reset, `ESC [ 0 m`,
/// unless the style asks for nothing, when there is nothing to switch off and nothing is written.
pub closed spec fn sgr_closing(style: Style) -> Seq<char> {
    if style.is_plain_spec() {
        Seq::empty()
    } else {
        seq!['\u{1b}', '[', '0', 'm']
    }
}

/// The escape sequences that open and close `style`, by `anstyle::Style::render` and
/// `anstyle::Style::render_reset`.
///
/// The style is carried over field for field: each colour into the `anstyle` colour of the same
/// family (one of the sixteen stays one of the sixteen), and the three attributes into `anstyle`'s
/// effects. What the first call writes is named rather than restated: the contract claims only
/// that it is a function of the style. The second writes the reset exactly when the carried-over
/// style differs from `anstyle::Style::new()`, which is when this one is not plain: no colour is
/// carried as `None`, and an attribute switched off leaves its effect unset.
#[verifier::external_body]
pub(crate) fn sgr(style: Style) -> (codes: (String, String))
    ensures
        codes.0@ == sgr_opening(style),
        codes.1@ == sgr_closing(style),
{
    let outside = |colour: Color| match colour {
        Color::Ansi16(sixteen) => anstyle::Color::Ansi(Ansi256Color(sixteen as u8).into_ansi().unwrap()),
        Color::Ansi256(index) => anstyle::Color::Ansi256(Ansi256Color(index)),
        Color::Rgb(red, green, blue) => anstyle::Color::Rgb(RgbColor(red, green, blue)),
    };
    let effects = Effects::new().set(Effects::BOLD, style.bold).set(Effects::ITALIC, style.italic);
    let rendered = anstyle::Style::new().fg_color(style.foreground.map(outside)).bg_color(
        style.background.map(outside),
    ).effects(effects.set(Effects::UNDERLINE, style.underline));
    (format!("{}", rendered.render()), format!("{}", rendered.render_reset()))
}

/// Asked for a role's style; how it decides is its business.
///
/// The open half of appearance: a consumer can compute styles however it likes, and [`Theme`] is
/// simply the built-in implementor.
pub trait Palette {
    /// The style this palette gives `role`.
    spec fn palette_style(&self, role: Role) -> Style;

    /// Returns how this palette wants `role` rendered.
    fn style(&self, role: Role) -> (style: Style)
        ensures
            style == self.palette_style(role),
    ;
}

/// painty's built-in palette.
#[derive(Debug, Clone, Copy, PartialEq, Eq, Hash, Structural)]
pub struct Theme {
    error: Style,
    warning: Style,
    advice: Style,
    primary_label: Style,
    secondary_label: Style,
    gutter: Style,
    line_number: Style,
    source_text: Style,
    help: Style,
    code: Style,
}

impl Theme {
    /// The style the theme gives `role`.
    pub closed spec fn style_spec(self, role: Role) -> Style {
        match role {
            Role::Severity(Severity::Error) => self.error,
            Role::Severity(Severity::Warning) => self.warning,
            Role::Severity(Severity::Advice) => self.advice,
            Role::PrimaryLabel => self.primary_label,
            Role::SecondaryLabel => self.secondary_label,
            Role::Gutter => self.gutter,
            Role::LineNumber => self.line_number,
            Role::SourceText => self.source_text,
            Role::Help => self.help,
            Role::Code => self.code,
        }
    }

    /// The colours painty renders with unless told otherwise: foreground only, so the question of
    /// a light or dark background never arises.
    pub fn new() -> (theme: Self)
        ensures
            theme == Theme::new_spec(),
            theme.style_spec(Role::Severity(Severity::Error)) == Style::of(
                Some(Color::Ansi16(Ansi16::BrightRed)),
                None,
                true,
                false,
                false,
            ),
            theme.style_spec(Role::Severity(Severity::Warning)) == Style::of(
                Some(Color::Ansi16(Ansi16::BrightYellow)),
                None,
                true,
                false,
                false,
            ),
            theme.style_spec(Role::Severity(Severity::Advice)) == Style::of(
                Some(Color::Ansi16(Ansi16::BrightCyan)),
                None,
                true,
                false,
                false,
            ),
            theme.style_spec(Role::PrimaryLabel) == Style::of(
                Some(Color::Ansi16(Ansi16::BrightRed)),
                None,
                false,
                false,
                false,
            ),
            theme.style_spec(Role::SecondaryLabel) == Style::of(
                Some(Color::Ansi16(Ansi16::BrightBlue)),
                None,
                false,
                false,
                false,
            ),
            theme.style_spec(Role::Gutter) == Style::of(
                Some(Color::Ansi16(Ansi16::BrightBlack)),
                None,
                false,
                false,
                false,
            ),
            theme.style_spec(Role::LineNumber) == Style::of(
                Some(Color::Ansi16(Ansi16::BrightBlack)),
                None,
                false,
                false,
                false,
            ),
            theme.style_spec(Role::SourceText) == Style::of(None, None, false, false, false),
            theme.style_spec(Role::Help) == Style::of(
                Some(Color::Ansi16(Ansi16::BrightGreen)),
                None,
                false,
                false,
                false,
            ),
            theme.style_spec(Role::Code) == Style::of(
                Some(Color::Ansi16(Ansi16::BrightBlack)),
                None,
                false,
                false,
                false,
            ),
    {
        Self {
            error: Style::plain().with_foreground(Color::Ansi16(Ansi16::BrightRed)).with_bold(),
            warning: Style::plain().with_foreground(Color::Ansi16(Ansi16::BrightYellow)).with_bold(),
            advice: Style::plain().with_foreground(Color::Ansi16(Ansi16::BrightCyan)).with_bold(),
            primary_label: Style::plain().with_foreground(Color::Ansi16(Ansi16::BrightRed)),
            secondary_label: Style::plain().with_foreground(Color::Ansi16(Ansi16::BrightBlue)),
            gutter: Style::plain().with_foreground(Color::Ansi16(Ansi16::BrightBlack)),
            line_number: Style::plain().with_foreground(Color::Ansi16(Ansi16::BrightBlack)),
            source_text: Style::plain(),
            help: Style::plain().with_foreground(Color::Ansi16(Ansi16::BrightGreen)),
            code: Style::plain().with_foreground(Color::Ansi16(Ansi16::BrightBlack)),
        }
    }

    /// Heavier weights and the brightest colours: the default theme with every non-severity role
    /// made bold, and the gutter, line numbers and code in bright white.
    pub fn high_contrast() -> (theme: Self)
        ensures
            theme.style_spec(Role::Severity(Severity::Error)) == Theme::new_spec().style_spec(
                Role::Severity(Severity::Error),
            ),
            theme.style_spec(Role::Severity(Severity::Warning)) == Theme::new_spec().style_spec(
                Role::Severity(Severity::Warning),
            ),
            theme.style_spec(Role::Severity(Severity::Advice)) == Theme::new_spec().style_spec(
                Role::Severity(Severity::Advice),
            ),
            theme.style_spec(Role::PrimaryLabel) == Style::of(
                Some(Color::Ansi16(Ansi16::BrightRed)),
                None,
                true,
                false,
                false,
            ),
            theme.style_spec(Role::SecondaryLabel) == Style::of(
                Some(Color::Ansi16(Ansi16::BrightBlue)),
                None,
                true,
                false,
                false,
            ),
            theme.style_spec(Role::Gutter) == Style::of(
                Some(Color::Ansi16(Ansi16::BrightWhite)),
                None,
                true,
                false,
                false,
            ),
            theme.style_spec(Role::LineNumber) == Style::of(
                Some(Color::Ansi16(Ansi16::BrightWhite)),
                None,
                true,
                false,
                false,
            ),
            theme.style_spec(Role::SourceText) == Style::of(None, None, true, false, false),
            theme.style_spec(Role::Help) == Style::of(
                Some(Color::Ansi16(Ansi16::BrightGreen)),
                None,
                true,
                false,
                false,
            ),
            theme.style_spec(Role::Code) == Style::of(
                Some(Color::Ansi16(Ansi16::BrightWhite)),
                None,
                true,
                false,
                false,
            ),
    {
        let base = Self::new();
        Self {
            primary_label: base.primary_label.with_bold(),
            secondary_label: base.secondary_label.with_bold(),
            gutter: Style::plain().with_foreground(Color::Ansi16(Ansi16::BrightWhite)).with_bold(),
            line_number: Style::plain().with_foreground(
                Color::Ansi16(Ansi16::BrightWhite),
            ).with_bold(),
            source_text: Style::plain().with_bold(),
            help: base.help.with_bold(),
            code: Style::plain().with_foreground(Color::Ansi16(Ansi16::BrightWhite)).with_bold(),
            ..base
        }
    }

    /// The theme [`new`](Self::new) builds, as a value.
    pub closed spec fn new_spec() -> Theme {
        Theme {
            error: Style::of(Some(Color::Ansi16(Ansi16::BrightRed)), None, true, false, false),
            warning: Style::of(Some(Color::Ansi16(Ansi16::BrightYellow)), None, true, false, false),
            advice: Style::of(Some(Color::Ansi16(Ansi16::BrightCyan)), None, true, false, false),
            primary_label: Style::of(Some(Color::Ansi16(Ansi16::BrightRed)), None, false, false, false),
            secondary_label: Style::of(Some(Color::Ansi16(Ansi16::BrightBlue)), None, false, false, false),
            gutter: Style::of(Some(Color::Ansi16(Ansi16::BrightBlack)), None, false, false, false),
            line_number: Style::of(Some(Color::Ansi16(Ansi16::BrightBlack)), None, false, false, false),
            source_text: Style::of(None, None, false, false, false),
            help: Style::of(Some(Color::Ansi16(Ansi16::BrightGreen)), None, false, false, false),
            code: Style::of(Some(Color::Ansi16(Ansi16::BrightBlack)), None, false, false, false),
        }
    }

    /// Attributes only, no colour at all: bold for the three severities, and nothing for the rest.
    pub fn monochrome() -> (theme: Self)
        ensures
            forall|role: Role| #[trigger]
                theme.style_spec(role) == if role is Severity {
                    Style::of(None, None, true, false, false)
                } else {
                    Style::of(None, None, false, false, false)
                },
    {
        Self {
            error: Style::plain().with_bold(),
            warning: Style::plain().with_bold(),
            advice: Style::plain().with_bold(),
            primary_label: Style::plain(),
            secondary_label: Style::plain(),
            gutter: Style::plain(),
            line_number: Style::plain(),
            source_text: Style::plain(),
            help: Style::plain(),
            code: Style::plain(),
        }
    }

    /// Replaces the style for one role, and leaves every other role's alone.
    pub fn with(self, role: Role, style: Style) -> (theme: Self)
        ensures
            theme.style_spec(role) == style,
            forall|other: Role| other != role ==> #[trigger] theme.style_spec(other) == self.style_spec(other),
    {
        let mut theme = self;
        match role {
            Role::Severity(Severity::Error) => theme.error = style,
            Role::Severity(Severity::Warning) => theme.warning = style,
            Role::Severity(Severity::Advice) => theme.advice = style,
            Role::PrimaryLabel => theme.primary_label = style,
            Role::SecondaryLabel => theme.secondary_label = style,
            Role::Gutter => theme.gutter = style,
            Role::LineNumber => theme.line_number = style,
            Role::SourceText => theme.source_text = style,
            Role::Help => theme.help = style,
            Role::Code => theme.code = style,
        }
        theme
    }

    /// Returns how this theme wants `role` rendered.
    pub fn style(&self, role: Role) -> (style: Style)
        ensures
            style == self.style_spec(role),
    {
        match role {
            Role::Severity(Severity::Error) => self.error,
            Role::Severity(Severity::Warning) => self.warning,
            Role::Severity(Severity::Advice) => self.advice,
            Role::PrimaryLabel => self.primary_label,
            Role::SecondaryLabel => self.secondary_label,
            Role::Gutter => self.gutter,
            Role::LineNumber => self.line_number,
            Role::SourceText => self.source_text,
            Role::Help => self.help,
            Role::Code => self.code,
        }
    }
}

impl Palette for Theme {
    /// The theme's own style for the role.
    open spec fn palette_style(&self, role: Role) -> Style {
        self.style_spec(role)
    }

    fn style(&self, role: Role) -> (style: Style) {
        Theme::style(self, role)
    }
}

impl<'p, P: Palette + ?Sized> Palette for &'p P {
    /// The style of the palette this refers to.
    open spec fn palette_style(&self, role: Role) -> Style {
        (**self).palette_style(role)
    }

    fn style(&self, role: Role) -> (style: Style) {
        (**self).style(role)
    }
}

impl Default for Theme {
    fn default() -> (theme: Self)
        ensures
            theme == Theme::new_spec(),
    {
        Theme::new()
    }
}

} // verus!

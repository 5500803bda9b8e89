//! Whether to colour, and how much: a pure decision over a captured environment.
//!
//! Reading the real process is a separate, logic-free step at the edge of the program; everything
//! decided from what was read is here, where it is stated and proved.

use vstd::prelude::*;
use vstd::string::StringSliceAdditionalSpecFns;

verus! {

broadcast use vstd::utf8::group_utf8_lib;

/// What a caller wants, before the environment gets a say.
///
/// The three-state shape every command-line tool already speaks, so a `--color` flag maps onto it
/// without a conversion layer.
#[derive(Debug, Clone, Copy, PartialEq, Eq, Hash, Structural)]
pub enum ColorChoice {
    /// Let the environment decide. See [`ColorChoice::resolve`] for the order it is asked in.
    Auto,
    /// Colour, whatever the environment says.
    Always,
    /// No colour, whatever the environment says.
    Never,
}

impl Default for ColorChoice {
    fn default() -> (choice: Self)
        ensures
            choice == ColorChoice::Auto,
    {
        ColorChoice::Auto
    }
}

/// How much colour the output can actually carry, ordered from none upwards.
#[derive(Debug, Clone, Copy, PartialEq, Eq, Hash, PartialOrd, Ord, Structural)]
pub enum ColorCapability {
    /// No colour at all. Attributes still work; see
    /// [`Style::without_color`](crate::Style::without_color).
    NoColor,
    /// The sixteen.
    Ansi16,
    /// The 256-colour palette.
    Ansi256,
    /// Twenty-four bits.
    TrueColor,
}

/// Everything the decision reads, captured: four variables and whether the stream is a terminal.
///
/// A borrowed view, so capturing it allocates nothing.
#[derive(Debug, Clone, Copy, PartialEq, Eq, Hash)]
pub struct Environment<'a> {
    no_color: Option<&'a str>,
    clicolor_force: Option<&'a str>,
    clicolor: Option<&'a str>,
    term: Option<&'a str>,
    colorterm: Option<&'a str>,
    is_terminal: bool,
}

/// Whether `needle` occurs in `haystack` as a run of consecutive bytes.
pub open spec fn occurs_in(needle: Seq<u8>, haystack: Seq<u8>) -> bool {
    exists|at: int|
        0 <= at && at + needle.len() <= haystack.len() && #[trigger] haystack.subrange(
            at,
            at + needle.len(),
        ) == needle
}

/// Whether a variable is set to something other than the empty string.
pub open spec fn is_non_empty(value: Option<&str>) -> bool {
    value matches Some(text) && text@.len() > 0
}

/// Whether a variable is set to exactly `expected`.
pub open spec fn is_exactly(value: Option<&str>, expected: Seq<char>) -> bool {
    value matches Some(text) && text@ == expected
}

impl<'a> Environment<'a> {
    /// `NO_COLOR`.
    pub closed spec fn no_color_spec(self) -> Option<&'a str> {
        self.no_color
    }

    /// `CLICOLOR_FORCE`.
    pub closed spec fn clicolor_force_spec(self) -> Option<&'a str> {
        self.clicolor_force
    }

    /// `CLICOLOR`.
    pub closed spec fn clicolor_spec(self) -> Option<&'a str> {
        self.clicolor
    }

    /// `TERM`.
    pub closed spec fn term_spec(self) -> Option<&'a str> {
        self.term
    }

    /// `COLORTERM`.
    pub closed spec fn colorterm_spec(self) -> Option<&'a str> {
        self.colorterm
    }

    /// Whether the stream written to is a terminal.
    pub closed spec fn is_terminal_spec(self) -> bool {
        self.is_terminal
    }

    /// The colour level the environment can carry, whether or not colour is wanted:
    /// `COLORTERM=truecolor` or `24bit` is twenty-four bits, otherwise a `TERM` containing
    /// `256color` is the palette, otherwise the sixteen.
    pub open spec fn level_spec(self) -> ColorCapability {
        if is_exactly(self.colorterm_spec(), "truecolor"@) || is_exactly(
            self.colorterm_spec(),
            "24bit"@,
        ) {
            ColorCapability::TrueColor
        } else if self.term_spec() matches Some(term) && occurs_in(
            "256color".spec_bytes(),
            term.spec_bytes(),
        ) {
            ColorCapability::Ansi256
        } else {
            ColorCapability::Ansi16
        }
    }

    /// Whether colour is wanted, asked in this order, each step reached only because every step
    /// above it declined to answer: `NO_COLOR` non-empty turns it off (presence, not
    /// truthiness); `CLICOLOR_FORCE` non-empty and not `0` turns it on even for a non-terminal;
    /// a stream that is not a terminal gets none; `CLICOLOR=0` or `TERM=dumb` turns it off;
    /// otherwise colour.
    pub open spec fn wanted_spec(self) -> bool {
        if is_non_empty(self.no_color_spec()) {
            false
        } else if is_non_empty(self.clicolor_force_spec()) && !is_exactly(
            self.clicolor_force_spec(),
            "0"@,
        ) {
            true
        } else if !self.is_terminal_spec() {
            false
        } else if is_exactly(self.clicolor_spec(), "0"@) || is_exactly(
            self.term_spec(),
            "dumb"@,
        ) {
            false
        } else {
            true
        }
    }

    /// An environment with nothing set and no terminal attached.
    pub fn new() -> (environment: Self)
        ensures
            environment.no_color_spec() == None::<&str>,
            environment.clicolor_force_spec() == None::<&str>,
            environment.clicolor_spec() == None::<&str>,
            environment.term_spec() == None::<&str>,
            environment.colorterm_spec() == None::<&str>,
            !environment.is_terminal_spec(),
    {
        Self {
            no_color: None,
            clicolor_force: None,
            clicolor: None,
            term: None,
            colorterm: None,
            is_terminal: false,
        }
    }

    /// Sets `NO_COLOR`, and nothing else.
    pub fn with_no_color(self, value: Option<&'a str>) -> (environment: Self)
        ensures
            environment.no_color_spec() == value,
            environment.clicolor_force_spec() == self.clicolor_force_spec(),
            environment.clicolor_spec() == self.clicolor_spec(),
            environment.term_spec() == self.term_spec(),
            environment.colorterm_spec() == self.colorterm_spec(),
            environment.is_terminal_spec() == self.is_terminal_spec(),
    {
        Self { no_color: value, ..self }
    }

    /// Sets `CLICOLOR_FORCE`, and nothing else.
    pub fn with_clicolor_force(self, value: Option<&'a str>) -> (environment: Self)
        ensures
            environment.no_color_spec() == self.no_color_spec(),
            environment.clicolor_force_spec() == value,
            environment.clicolor_spec() == self.clicolor_spec(),
            environment.term_spec() == self.term_spec(),
            environment.colorterm_spec() == self.colorterm_spec(),
            environment.is_terminal_spec() == self.is_terminal_spec(),
    {
        Self { clicolor_force: value, ..self }
    }

    /// Sets `CLICOLOR`, and nothing else.
    pub fn with_clicolor(self, value: Option<&'a str>) -> (environment: Self)
        ensures
            environment.no_color_spec() == self.no_color_spec(),
            environment.clicolor_force_spec() == self.clicolor_force_spec(),
            environment.clicolor_spec() == value,
            environment.term_spec() == self.term_spec(),
            environment.colorterm_spec() == self.colorterm_spec(),
            environment.is_terminal_spec() == self.is_terminal_spec(),
    {
        Self { clicolor: value, ..self }
    }

    /// Sets `TERM`, and nothing else.
    pub fn with_term(self, value: Option<&'a str>) -> (environment: Self)
        ensures
            environment.no_color_spec() == self.no_color_spec(),
            environment.clicolor_force_spec() == self.clicolor_force_spec(),
            environment.clicolor_spec() == self.clicolor_spec(),
            environment.term_spec() == value,
            environment.colorterm_spec() == self.colorterm_spec(),
            environment.is_terminal_spec() == self.is_terminal_spec(),
    {
        Self { term: value, ..self }
    }

    /// Sets `COLORTERM`, and nothing else.
    pub fn with_colorterm(self, value: Option<&'a str>) -> (environment: Self)
        ensures
            environment.no_color_spec() == self.no_color_spec(),
            environment.clicolor_force_spec() == self.clicolor_force_spec(),
            environment.clicolor_spec() == self.clicolor_spec(),
            environment.term_spec() == self.term_spec(),
            environment.colorterm_spec() == value,
            environment.is_terminal_spec() == self.is_terminal_spec(),
    {
        Self { colorterm: value, ..self }
    }

    /// Sets whether the stream being written to is a terminal, and nothing else.
    pub fn with_terminal(self, is_terminal: bool) -> (environment: Self)
        ensures
            environment.no_color_spec() == self.no_color_spec(),
            environment.clicolor_force_spec() == self.clicolor_force_spec(),
            environment.clicolor_spec() == self.clicolor_spec(),
            environment.term_spec() == self.term_spec(),
            environment.colorterm_spec() == self.colorterm_spec(),
            environment.is_terminal_spec() == is_terminal,
    {
        Self { is_terminal, ..self }
    }

    /// The colour level this environment can carry, ignoring whether colour is wanted at all.
    fn level(&self) -> (level: ColorCapability)
        ensures
            level == self.level_spec(),
    {
        if is_set_to(self.colorterm, "truecolor") || is_set_to(self.colorterm, "24bit") {
            return ColorCapability::TrueColor;
        }
        match self.term {
            Some(term) => {
                if contains_text(term, "256color") {
                    ColorCapability::Ansi256
                } else {
                    ColorCapability::Ansi16
                }
            },
            None => ColorCapability::Ansi16,
        }
    }

    /// Whether colour is wanted at all, under [`ColorChoice::Auto`].
    fn wanted(&self) -> (wanted: bool)
        ensures
            wanted == self.wanted_spec(),
    {
        if let Some(value) = self.no_color {
            if !value.is_empty() {
                return false;
            }
        }
        if let Some(value) = self.clicolor_force {
            if !value.is_empty() && !same_text(value, "0") {
                return true;
            }
        }
        if !self.is_terminal {
            return false;
        }
        if is_set_to(self.clicolor, "0") || is_set_to(self.term, "dumb") {
            return false;
        }
        true
    }
}

impl<'a> Default for Environment<'a> {
    fn default() -> (environment: Self)
        ensures
            environment.no_color_spec() == None::<&str>,
            environment.clicolor_force_spec() == None::<&str>,
            environment.clicolor_spec() == None::<&str>,
            environment.term_spec() == None::<&str>,
            environment.colorterm_spec() == None::<&str>,
            !environment.is_terminal_spec(),
    {
        Self::new()
    }
}

/// Whether two strings hold the same characters.
fn same_text(first: &str, second: &str) -> (same: bool)
    ensures
        same == (first@ == second@),
{
    let a = first.as_bytes();
    let b = second.as_bytes();
    if a.len() != b.len() {
        return false;
    }
    let mut index: usize = 0;
    while index < a.len()
        invariant
            a@ == first.spec_bytes(),
            b@ == second.spec_bytes(),
            a.len() == b.len(),
            index <= a.len(),
            forall|k: int| 0 <= k < index ==> a@[k] == b@[k],
        decreases a.len() - index,
    {
        if a[index] != b[index] {
            return false;
        }
        index += 1;
    }
    proof {
        assert(first.spec_bytes() =~= second.spec_bytes());
        vstd::utf8::encode_utf8_decode_utf8(first@);
        vstd::utf8::encode_utf8_decode_utf8(second@);
    }
    true
}

/// Whether a variable is set to exactly `expected`.
fn is_set_to(value: Option<&str>, expected: &str) -> (set: bool)
    ensures
        set == is_exactly(value, expected@),
{
    match value {
        Some(text) => same_text(text, expected),
        None => false,
    }
}

/// Whether `needle` occurs in `haystack`, byte for byte.
fn contains_text(haystack: &str, needle: &str) -> (found: bool)
    ensures
        found == occurs_in(needle.spec_bytes(), haystack.spec_bytes()),
{
    let h = haystack.as_bytes();
    let n = needle.as_bytes();
    if n.len() > h.len() {
        return false;
    }
    let last = h.len() - n.len();
    let mut at: usize = 0;
    while at <= last
        invariant
            h@ == haystack.spec_bytes(),
            n@ == needle.spec_bytes(),
            n.len() <= h.len(),
            last == h.len() - n.len(),
            at <= last + 1,
            forall|earlier: int|
                0 <= earlier < at ==> #[trigger] h@.subrange(earlier, earlier + n@.len()) != n@,
        decreases last + 1 - at,
    {
        let mut k: usize = 0;
        let mut matched = true;
        while k < n.len()
            invariant
                h@ == haystack.spec_bytes(),
                n@ == needle.spec_bytes(),
                at <= last,
                last == h.len() - n.len(),
                k <= n.len(),
                matched == forall|j: int| 0 <= j < k ==> h@[at + j] == n@[j],
            decreases n.len() - k,
        {
            if h[at + k] != n[k] {
                matched = false;
            }
            k += 1;
        }
        if matched {
            proof {
                assert(h@.subrange(at as int, at + n@.len()) =~= n@);
            }
            return true;
        }
        proof {
            let j = choose|j: int| 0 <= j < n@.len() && h@[at + j] != n@[j];
            assert(h@.subrange(at as int, at + n@.len())[j] != n@[j]);
        }
        at += 1;
    }
    proof {
        assert forall|at: int|
            0 <= at && at + n@.len() <= h@.len() implies #[trigger] h@.subrange(
            at,
            at + n@.len(),
        ) != n@ by {}
    }
    false
}

impl ColorChoice {
    /// What the choice resolves to in `environment`.
    pub open spec fn resolve_spec(self, environment: Environment) -> ColorCapability {
        match self {
            ColorChoice::Never => ColorCapability::NoColor,
            ColorChoice::Always => environment.level_spec(),
            ColorChoice::Auto => if environment.wanted_spec() {
                environment.level_spec()
            } else {
                ColorCapability::NoColor
            },
        }
    }

    /// What to actually emit.
    ///
    /// The caller first: `Never` is none and `Always` is colour, and neither consults the
    /// environment about *whether*, only about *how much*. Under `Auto` the environment decides
    /// whether, in the order [`Environment::wanted_spec`] states. The level is read in every case
    /// where colour is emitted at all, including when it was forced.
    pub fn resolve(self, environment: &Environment<'_>) -> (capability: ColorCapability)
        ensures
            capability == self.resolve_spec(*environment),
    {
        match self {
            ColorChoice::Never => ColorCapability::NoColor,
            ColorChoice::Always => environment.level(),
            ColorChoice::Auto => {
                if environment.wanted() {
                    environment.level()
                } else {
                    ColorCapability::NoColor
                }
            },
        }
    }
}

/// A caller's explicit choice is never overruled by the environment: `Never` emits no colour in
/// any environment, and `Always` emits some in every one.
pub proof fn law_an_explicit_choice_is_never_overruled(environment: Environment)
    ensures
        ColorChoice::Never.resolve_spec(environment) == ColorCapability::NoColor,
        ColorChoice::Always.resolve_spec(environment) != ColorCapability::NoColor,
{
}

/// Whether colour is emitted and how much are separate questions: wherever the environment lets
/// colour through, it is emitted at the same level a caller forcing it would get, never below
/// the sixteen.
pub proof fn law_the_level_is_the_same_however_colour_was_decided(environment: Environment)
    ensures
        ColorChoice::Auto.resolve_spec(environment) != ColorCapability::NoColor ==> ColorChoice::Auto.resolve_spec(
            environment,
        ) == ColorChoice::Always.resolve_spec(environment),
        ColorChoice::Always.resolve_spec(environment) != ColorCapability::NoColor,
{
}

/// The precedence, top to bottom: `NO_COLOR` set to anything non-empty (even `0`) turns colour
/// off whatever else is set; failing that, a forcing `CLICOLOR_FORCE` turns it on even for a
/// stream that is not a terminal; failing that, a stream that is not a terminal gets none.
pub proof fn law_the_precedence_of_the_environment(environment: Environment)
    ensures
        is_non_empty(environment.no_color_spec()) ==> ColorChoice::Auto.resolve_spec(environment)
            == ColorCapability::NoColor,
        !is_non_empty(environment.no_color_spec()) && is_non_empty(
            environment.clicolor_force_spec(),
        ) && !is_exactly(environment.clicolor_force_spec(), "0"@)
            ==> ColorChoice::Auto.resolve_spec(environment) == environment.level_spec(),
        !is_non_empty(environment.no_color_spec()) && !(is_non_empty(
            environment.clicolor_force_spec(),
        ) && !is_exactly(environment.clicolor_force_spec(), "0"@))
            && !environment.is_terminal_spec() ==> ColorChoice::Auto.resolve_spec(environment)
            == ColorCapability::NoColor,
{
}

} // verus!

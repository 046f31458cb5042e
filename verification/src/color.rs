//! Colored terminal output.
use vstd::prelude::*;
use vstd::string::StringExecFns;

verus! {

/// When to color the output.
#[derive(Clone, Copy, Debug, PartialEq, Eq, Structural)]
pub enum ColorMode {
    /// When standard output is a terminal.
    Auto,
    Always,
    Never,
}

impl ColorMode {
    /// Whether colors are on, given whether standard output is a terminal.
    pub fn enabled_for(self, stdout_is_terminal: bool) -> (r: bool)
        ensures
            r == match self {
                ColorMode::Auto => stdout_is_terminal,
                ColorMode::Always => true,
                ColorMode::Never => false,
            },
    {
        match self {
            ColorMode::Auto => stdout_is_terminal,
            ColorMode::Always => true,
            ColorMode::Never => false,
        }
    }
}

/// `text` in the style of an SGR code, when colors are on.
pub open spec fn paint_text(enabled: bool, code: Seq<char>, text: Seq<char>) -> Seq<char> {
    if enabled {
        "\x1b["@ + code + "m"@ + text + "\x1b[0m"@
    } else {
        text
    }
}

/// The styles of the parts of the output.
#[derive(Clone, Copy, Debug, PartialEq, Eq, Structural)]
pub struct Palette {
    pub enabled: bool,
}

impl Palette {
    /// The palette of a color mode, given whether standard output is a terminal.
    pub fn new(mode: ColorMode, stdout_is_terminal: bool) -> (r: Self)
        ensures
            r.enabled == match mode {
                ColorMode::Auto => stdout_is_terminal,
                ColorMode::Always => true,
                ColorMode::Never => false,
            },
    {
        Palette { enabled: mode.enabled_for(stdout_is_terminal) }
    }

    /// `text` in the style of SGR `code`, when colors are on.
    pub fn paint(&self, code: &str, text: &str) -> (r: String)
        ensures
            r@ == paint_text(self.enabled, code@, text@),
    {
        if self.enabled {
            let mut out = String::from_str("\x1b[");
            out.append(code);
            out.append("m");
            out.append(text);
            out.append("\x1b[0m");
            out
        } else {
            String::from_str(text)
        }
    }

    /// Device addresses: bold cyan.
    pub fn address(&self, text: &str) -> (r: String)
        ensures
            r@ == paint_text(self.enabled, "1;36"@, text@),
    {
        self.paint("1;36", text)
    }

    /// Labels, IDs, offsets and disabled markers: dim.
    pub fn dim(&self, text: &str) -> (r: String)
        ensures
            r@ == paint_text(self.enabled, "2"@, text@),
    {
        self.paint("2", text)
    }

    /// Values that are unavailable or failed: red.
    pub fn unavailable(&self, text: &str) -> (r: String)
        ensures
            r@ == paint_text(self.enabled, "31"@, text@),
    {
        self.paint("31", text)
    }

    /// Capability names: green.
    pub fn capability(&self, text: &str) -> (r: String)
        ensures
            r@ == paint_text(self.enabled, "32"@, text@),
    {
        self.paint("32", text)
    }
}

} // verus!

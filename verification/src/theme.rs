//! Colour themes for a consumer of the library's data.

use vstd::prelude::*;

verus! {

/// Which of the two built-in palettes is active.
#[derive(Debug, Clone, PartialEq, Eq, Structural)]
pub enum Theme {
    Dark,
    Light,
}

/// A named set of interface colours, each an HTML colour string.
#[derive(Debug, Clone)]
pub struct ThemePalette {
    pub background: String,
    pub foreground: String,
    pub primary: String,
    pub secondary: String,
    pub accent: String,
    pub chart_bullish: String,
    pub chart_bearish: String,
}

impl ThemePalette {
    /// The palette used when the dark theme is active.
    pub fn default_dark() -> (r: Self)
        ensures
            r.background@ == "#1e1e1e"@,
            r.foreground@ == "#d1d4dc"@,
            r.primary@ == "#007acc"@,
            r.secondary@ == "#565656"@,
            r.accent@ == "#26a69a"@,
            r.chart_bullish@ == "#26a69a"@,
            r.chart_bearish@ == "#ef5350"@,
    {
        ThemePalette {
            background: String::from_str("#1e1e1e"),
            foreground: String::from_str("#d1d4dc"),
            primary: String::from_str("#007acc"),
            secondary: String::from_str("#565656"),
            accent: String::from_str("#26a69a"),
            chart_bullish: String::from_str("#26a69a"),
            chart_bearish: String::from_str("#ef5350"),
        }
    }

    /// The palette used when the light theme is active.
    pub fn default_light() -> (r: Self)
        ensures
            r.background@ == "#ffffff"@,
            r.foreground@ == "#000000"@,
            r.primary@ == "#007acc"@,
            r.secondary@ == "#e0e0e0"@,
            r.accent@ == "#009688"@,
            r.chart_bullish@ == "#4caf50"@,
            r.chart_bearish@ == "#f44336"@,
    {
        ThemePalette {
            background: String::from_str("#ffffff"),
            foreground: String::from_str("#000000"),
            primary: String::from_str("#007acc"),
            secondary: String::from_str("#e0e0e0"),
            accent: String::from_str("#009688"),
            chart_bullish: String::from_str("#4caf50"),
            chart_bearish: String::from_str("#f44336"),
        }
    }
}

} // verus!

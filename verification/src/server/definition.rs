//! The UI-facing indicator lamp definitions.

use vstd::prelude::*;
use vstd::string::StringExecFns;

verus! {

#[derive(Debug, Clone)]
pub struct IndicatorUi {
    pub off_label: String,
    pub on_label: String,
    pub off_bg: String,
    pub off_fg: String,
    pub on_bg: String,
    pub on_fg: String,
}

/// The `i`th listed colour, or the fallback when the INI lists fewer.
pub open spec fn color_or(colors: Seq<String>, i: int, fallback: Seq<char>) -> Seq<char> {
    if i < colors.len() {
        colors[i]@
    } else {
        fallback
    }
}

fn color(colors: &Vec<String>, i: usize, fallback: &str) -> (c: String)
    ensures
        c@ == color_or(colors@, i as int, fallback@),
{
    if i < colors.len() {
        colors[i].clone()
    } else {
        String::from_str(fallback)
    }
}

/// A lamp from its labels and colours (off-bg, off-fg, on-bg, on-fg);
/// missing colours are white on black when off, green on black when on.
pub fn indicator_ui(off_label: &str, on_label: &str, colors: &Vec<String>) -> (u: IndicatorUi)
    ensures
        u.off_label@ == off_label@,
        u.on_label@ == on_label@,
        u.off_bg@ == color_or(colors@, 0, "white"@),
        u.off_fg@ == color_or(colors@, 1, "black"@),
        u.on_bg@ == color_or(colors@, 2, "green"@),
        u.on_fg@ == color_or(colors@, 3, "black"@),
{
    IndicatorUi {
        off_label: String::from_str(off_label),
        on_label: String::from_str(on_label),
        off_bg: color(colors, 0, "white"),
        off_fg: color(colors, 1, "black"),
        on_bg: color(colors, 2, "green"),
        on_fg: color(colors, 3, "black"),
    }
}

} // verus!

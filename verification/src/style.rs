use vstd::prelude::*;

verus! {

/// The colors that the window's text, panels and borders take on a
/// background.
#[derive(Clone, Copy, Debug)]
pub struct ThemeColors {
    pub text: &'static str,
    pub panel: &'static str,
    pub border: &'static str,
}

/// Dark text and light panels on a light background; light text and dark
/// panels on a dark one.
pub fn theme_colors(light_background: bool) -> (colors: ThemeColors)
    ensures
        light_background ==> colors.text@ == "#111111"@ && colors.panel@
            == "rgba(255,255,255,0.42)"@ && colors.border@ == "rgba(0,0,0,0.18)"@,
        !light_background ==> colors.text@ == "#F5F5F5"@ && colors.panel@ == "rgba(0,0,0,0.28)"@
            && colors.border@ == "rgba(255,255,255,0.20)"@,
{
    if light_background {
        ThemeColors {
            text: "#111111",
            panel: "rgba(255,255,255,0.42)",
            border: "rgba(0,0,0,0.18)",
        }
    } else {
        ThemeColors {
            text: "#F5F5F5",
            panel: "rgba(0,0,0,0.28)",
            border: "rgba(255,255,255,0.20)",
        }
    }
}

} // verus!

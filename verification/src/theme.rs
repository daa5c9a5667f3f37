//! The colours of a site, and the style sheet that sets them.

use crate::text::{chars_of, copy_str, push_str, string_of};
use vstd::prelude::*;

verus! {

/// The colours of one mode.
#[derive(Debug)]
pub struct ColorPalette {
    pub background: String,
    pub foreground: String,
    pub primary: String,
    pub secondary: String,
    pub accent: String,
    pub border: String,
    pub muted: String,
}

/// A `ColorPalette` with its colours as sequences of characters.
pub struct PaletteModel {
    pub background: Seq<char>,
    pub foreground: Seq<char>,
    pub primary: Seq<char>,
    pub secondary: Seq<char>,
    pub accent: Seq<char>,
    pub border: Seq<char>,
    pub muted: Seq<char>,
}

impl View for ColorPalette {
    type V = PaletteModel;

    open spec fn view(&self) -> PaletteModel {
        PaletteModel {
            background: self.background@,
            foreground: self.foreground@,
            primary: self.primary@,
            secondary: self.secondary@,
            accent: self.accent@,
            border: self.border@,
            muted: self.muted@,
        }
    }
}

/// A theme: a name, and the colours of the light and of the dark mode.
#[derive(Debug)]
pub struct Theme {
    pub name: String,
    pub light_mode: ColorPalette,
    pub dark_mode: ColorPalette,
}

/// A `Theme` with its texts as sequences of characters.
pub struct ThemeModel {
    pub name: Seq<char>,
    pub light_mode: PaletteModel,
    pub dark_mode: PaletteModel,
}

impl View for Theme {
    type V = ThemeModel;

    open spec fn view(&self) -> ThemeModel {
        ThemeModel { name: self.name@, light_mode: self.light_mode@, dark_mode: self.dark_mode@ }
    }
}

/// The theme of a site that sets none.
pub open spec fn default_theme() -> ThemeModel {
    ThemeModel {
        name: "default"@,
        light_mode: PaletteModel {
            background: "#ffffff"@,
            foreground: "#333333"@,
            primary: "#3498db"@,
            secondary: "#2c3e50"@,
            accent: "#e74c3c"@,
            border: "#e0e0e0"@,
            muted: "#666666"@,
        },
        dark_mode: PaletteModel {
            background: "#1a1a1a"@,
            foreground: "#e0e0e0"@,
            primary: "#5dade2"@,
            secondary: "#34495e"@,
            accent: "#ec7063"@,
            border: "#333333"@,
            muted: "#999999"@,
        },
    }
}

impl Default for Theme {
    fn default() -> (t: Self)
        ensures
            t@ == default_theme(),
    {
        Theme {
            name: copy_str("default"),
            light_mode: ColorPalette {
                background: copy_str("#ffffff"),
                foreground: copy_str("#333333"),
                primary: copy_str("#3498db"),
                secondary: copy_str("#2c3e50"),
                accent: copy_str("#e74c3c"),
                border: copy_str("#e0e0e0"),
                muted: copy_str("#666666"),
            },
            dark_mode: ColorPalette {
                background: copy_str("#1a1a1a"),
                foreground: copy_str("#e0e0e0"),
                primary: copy_str("#5dade2"),
                secondary: copy_str("#34495e"),
                accent: copy_str("#ec7063"),
                border: copy_str("#333333"),
                muted: copy_str("#999999"),
            },
        }
    }
}

/// One declaration of a custom property: the indent, the name with its
/// colon, the value, a semicolon and a line feed.
pub open spec fn declaration(indent: Seq<char>, name: Seq<char>, value: Seq<char>) -> Seq<char> {
    indent + name + value + ";\n"@
}

/// The seven declarations of a palette, each on a line of its own.
pub open spec fn palette_css(p: PaletteModel, indent: Seq<char>) -> Seq<char> {
    declaration(indent, "--bg-color: "@, p.background) + declaration(
        indent,
        "--fg-color: "@,
        p.foreground,
    ) + declaration(indent, "--primary-color: "@, p.primary) + declaration(
        indent,
        "--secondary-color: "@,
        p.secondary,
    ) + declaration(indent, "--accent-color: "@, p.accent) + declaration(
        indent,
        "--border-color: "@,
        p.border,
    ) + declaration(indent, "--muted-color: "@, p.muted)
}

/// The style sheet of a theme: the colours of the light mode as custom
/// properties of the root, those of the dark mode for those who prefer it,
/// and a body that uses the first two.
pub open spec fn css_of(t: ThemeModel) -> Seq<char> {
    "\n:root {\n"@ + palette_css(t.light_mode, "    "@)
        + "}\n\n@media (prefers-color-scheme: dark) {\n    :root {\n"@ + palette_css(
        t.dark_mode,
        "        "@,
    )
        + "    }\n}\n\nbody {\n    background-color: var(--bg-color);\n    color: var(--fg-color);\n}\n"@
}

/// Appends one declaration to `out`.
fn push_declaration(out: &mut Vec<char>, indent: &str, name: &str, value: &str)
    ensures
        final(out)@ == old(out)@ + declaration(indent@, name@, value@),
{
    let mut line = chars_of(indent);
    push_str(&mut line, name);
    push_str(&mut line, value);
    push_str(&mut line, ";\n");
    crate::text::push_all(out, &line);
}

/// Appends the declarations of a palette to `out`.
fn push_palette(out: &mut Vec<char>, p: &ColorPalette, indent: &str)
    ensures
        final(out)@ == old(out)@ + palette_css(p@, indent@),
{
    let mut lines: Vec<char> = Vec::new();
    push_declaration(&mut lines, indent, "--bg-color: ", p.background.as_str());
    assert(lines@ =~= declaration(indent@, "--bg-color: "@, p@.background));
    push_declaration(&mut lines, indent, "--fg-color: ", p.foreground.as_str());
    push_declaration(&mut lines, indent, "--primary-color: ", p.primary.as_str());
    push_declaration(&mut lines, indent, "--secondary-color: ", p.secondary.as_str());
    push_declaration(&mut lines, indent, "--accent-color: ", p.accent.as_str());
    push_declaration(&mut lines, indent, "--border-color: ", p.border.as_str());
    push_declaration(&mut lines, indent, "--muted-color: ", p.muted.as_str());
    crate::text::push_all(out, &lines);
}

impl Theme {
    /// The style sheet of this theme.
    pub fn to_css(&self) -> (css: String)
        ensures
            css@ == css_of(self@),
    {
        let mut out = chars_of("\n:root {\n");
        push_palette(&mut out, &self.light_mode, "    ");
        push_str(&mut out, "}\n\n@media (prefers-color-scheme: dark) {\n    :root {\n");
        push_palette(&mut out, &self.dark_mode, "        ");
        push_str(
            &mut out,
            "    }\n}\n\nbody {\n    background-color: var(--bg-color);\n    color: var(--fg-color);\n}\n",
        );
        string_of(&out)
    }
}

} // verus!

//! Format settings: font family, style and size preferences.

use vstd::prelude::*;

verus! {

/// Font family options: fixed-width or variable-width rendering.
#[derive(Clone, Copy, PartialEq, Eq, Structural, Debug)]
pub enum FontFamily {
    /// Monospace (fixed-width) font family.
    Monospace,
    /// Proportional (variable-width) font family.
    Proportional,
}

impl Default for FontFamily {
    /// The default family is monospace.
    fn default() -> (r: Self)
        ensures
            r == FontFamily::Monospace,
    {
        FontFamily::Monospace
    }
}

impl FontFamily {
    /// Human-readable name of the font family.
    pub fn display_name(self) -> (r: &'static str)
        ensures
            self == FontFamily::Monospace ==> r@ == "Monospace"@,
            self == FontFamily::Proportional ==> r@ == "Proportional"@,
    {
        match self {
            FontFamily::Monospace => "Monospace",
            FontFamily::Proportional => "Proportional",
        }
    }

    /// All font family variants, in display order.
    pub fn all() -> (r: Vec<FontFamily>)
        ensures
            r@ == seq![FontFamily::Monospace, FontFamily::Proportional],
    {
        let mut r: Vec<FontFamily> = Vec::new();
        r.push(FontFamily::Monospace);
        r.push(FontFamily::Proportional);
        proof {
            assert(r@ =~= seq![FontFamily::Monospace, FontFamily::Proportional]);
        }
        r
    }
}

/// Font style options. Only the regular style renders distinctly; the others
/// are kept for configuration compatibility.
#[derive(Clone, Copy, PartialEq, Eq, Structural, Debug)]
pub enum FontStyle {
    /// Regular/normal font style.
    Regular,
    /// Bold font style.
    Bold,
    /// Italic font style.
    Italic,
    /// Bold italic font style.
    BoldItalic,
}

impl Default for FontStyle {
    /// The default style is regular.
    fn default() -> (r: Self)
        ensures
            r == FontStyle::Regular,
    {
        FontStyle::Regular
    }
}

impl FontStyle {
    /// Human-readable name of the font style.
    pub fn display_name(self) -> (r: &'static str)
        ensures
            self == FontStyle::Regular ==> r@ == "Regular"@,
            self == FontStyle::Bold ==> r@ == "Bold"@,
            self == FontStyle::Italic ==> r@ == "Italic"@,
            self == FontStyle::BoldItalic ==> r@ == "Bold Italic"@,
    {
        match self {
            FontStyle::Regular => "Regular",
            FontStyle::Bold => "Bold",
            FontStyle::Italic => "Italic",
            FontStyle::BoldItalic => "Bold Italic",
        }
    }

    /// All font style variants, in display order.
    pub fn all() -> (r: Vec<FontStyle>)
        ensures
            r@ == seq![FontStyle::Regular, FontStyle::Bold, FontStyle::Italic, FontStyle::BoldItalic],
    {
        let mut r: Vec<FontStyle> = Vec::new();
        r.push(FontStyle::Regular);
        r.push(FontStyle::Bold);
        r.push(FontStyle::Italic);
        r.push(FontStyle::BoldItalic);
        proof {
            assert(r@ =~= seq![
                FontStyle::Regular,
                FontStyle::Bold,
                FontStyle::Italic,
                FontStyle::BoldItalic,
            ]);
        }
        r
    }
}

/// Format settings: font preferences carried by the session and persisted by
/// the configuration. The size is in whole points.
pub struct FormatSettings {
    /// Font family name, kept for configuration compatibility.
    pub font_family: String,
    /// Font family selection.
    pub font_family_type: FontFamily,
    /// Font style selection.
    pub font_style: FontStyle,
    /// Font size in points.
    pub font_size: u32,
}

impl Default for FormatSettings {
    /// Fresh settings, as [`FormatSettings::new`] gives.
    fn default() -> (r: FormatSettings)
        ensures
            r.font_family@ == Seq::<char>::empty(),
            r.font_family_type == FontFamily::Monospace,
            r.font_style == FontStyle::Regular,
            r.font_size == 0,
    {
        FormatSettings::new()
    }
}

impl FormatSettings {
    /// Fresh settings: an empty family name, defaults otherwise.
    pub fn new() -> (r: FormatSettings)
        ensures
            r.font_family@ == Seq::<char>::empty(),
            r.font_family_type == FontFamily::Monospace,
            r.font_style == FontStyle::Regular,
            r.font_size == 0,
    {
        FormatSettings {
            font_family: String::new(),
            font_family_type: FontFamily::Monospace,
            font_style: FontStyle::Regular,
            font_size: 0,
        }
    }
}

} // verus!

//! Configuration state: the recent-files list and display preferences.
//!
//! Reading and writing the configuration file is presentation-layer work;
//! this module owns the rules on the values themselves, above all the
//! recent-files list: at most ten entries, most recent first, duplicates
//! removed on re-add.

use vstd::prelude::*;
use crate::format::FontFamily;
use crate::format::FontStyle;
use crate::format::FormatSettings;

verus! {

/// Most entries the recent-files list keeps.
pub const RECENT_FILES_LIMIT: usize = 10;

/// Persisted preferences. Sizes are whole numbers: points for the font,
/// pixels for the window.
pub struct Config {
    /// Recently opened files, most recent first.
    pub recent_files: Vec<String>,
    /// Font family name, kept for configuration compatibility.
    pub font_family: String,
    /// Font family selection.
    pub font_family_type: FontFamily,
    /// Font style selection.
    pub font_style: FontStyle,
    /// Font size in points.
    pub font_size: u32,
    /// Whether the status bar is shown.
    pub show_status_bar: bool,
    /// Whether dark mode is enabled.
    pub dark_mode: bool,
    /// Window width in pixels.
    pub window_width: u32,
    /// Window height in pixels.
    pub window_height: u32,
}

/// The list with every entry equal to `p` removed, order otherwise kept.
pub open spec fn without(l: Seq<Seq<char>>, p: Seq<char>) -> Seq<Seq<char>>
    decreases l.len(),
{
    if l.len() == 0 {
        seq![]
    } else if l[0] == p {
        without(l.drop_first(), p)
    } else {
        seq![l[0]] + without(l.drop_first(), p)
    }
}

/// The recent-files list after `p` is added: any earlier entry for `p` is
/// removed, `p` moves to the front, and the list is cut to
/// [`RECENT_FILES_LIMIT`] entries.
pub open spec fn recent_after(l: Seq<Seq<char>>, p: Seq<char>) -> Seq<Seq<char>> {
    let combined = seq![p] + without(l, p);
    if combined.len() <= RECENT_FILES_LIMIT {
        combined
    } else {
        combined.subrange(0, RECENT_FILES_LIMIT as int)
    }
}

/// True when two configurations agree on everything but the recent-files
/// list.
pub open spec fn same_prefs(a: Config, b: Config) -> bool {
    &&& a.font_family@ == b.font_family@
    &&& a.font_family_type == b.font_family_type
    &&& a.font_style == b.font_style
    &&& a.font_size == b.font_size
    &&& a.show_status_bar == b.show_status_bar
    &&& a.dark_mode == b.dark_mode
    &&& a.window_width == b.window_width
    &&& a.window_height == b.window_height
}

impl Config {
    /// The default configuration for a fresh start.
    pub fn create_default() -> (r: Config)
        ensures
            r.recent_files@.len() == 0,
            r.font_family@ == "Courier New"@,
            r.font_family_type == FontFamily::Monospace,
            r.font_style == FontStyle::Regular,
            r.font_size == 10,
            r.show_status_bar == false,
            r.dark_mode == true,
            r.window_width == 640,
            r.window_height == 480,
    {
        Config {
            recent_files: Vec::new(),
            font_family: "Courier New".to_owned(),
            font_family_type: FontFamily::Monospace,
            font_style: FontStyle::Regular,
            font_size: 10,
            show_status_bar: false,
            dark_mode: true,
            window_width: 640,
            window_height: 480,
        }
    }

    /// Moves a path to the front of the recent-files list, removing any
    /// earlier entry for it and keeping at most [`RECENT_FILES_LIMIT`]
    /// entries.
    pub fn add_recent_file(&mut self, file_path: &str)
        ensures
            final (self).recent_files.deep_view() == recent_after(
                old(self).recent_files.deep_view(),
                file_path@,
            ),
            same_prefs(*final (self), *old(self)),
    {
        let ghost l = self.recent_files.deep_view();
        let p = file_path.to_owned();
        let mut kept: Vec<String> = Vec::new();
        let mut i: usize = 0;
        proof {
            assert(l.skip(0) =~= l);
            assert(Seq::<Seq<char>>::empty() + without(l, file_path@) =~= without(l, file_path@));
        }
        while i < self.recent_files.len()
            invariant
                i <= self.recent_files@.len(),
                l == self.recent_files.deep_view(),
                p@ == file_path@,
                without(l, file_path@) == kept.deep_view() + without(l.skip(i as int), file_path@),
            decreases self.recent_files@.len() - i,
        {
            let ghost kept0 = kept.deep_view();
            proof {
                assert(l.skip(i as int)[0] == l[i as int]);
                assert(l.skip(i as int).drop_first() =~= l.skip(i + 1));
            }
            if !(self.recent_files[i] == p) {
                kept.push(self.recent_files[i].clone());
            }
            i = i + 1;
            proof {
                assert(kept0 + without(l.skip(i - 1), file_path@) =~~= kept.deep_view() + without(
                    l.skip(i as int),
                    file_path@,
                ));
            }
        }
        proof {
            assert(l.skip(l.len() as int) =~= Seq::<Seq<char>>::empty());
            assert(kept.deep_view() + without(l.skip(l.len() as int), file_path@)
                =~= kept.deep_view());
        }
        kept.insert(0, p);
        if kept.len() > RECENT_FILES_LIMIT {
            kept.truncate(RECENT_FILES_LIMIT);
        }
        self.recent_files = kept;
        proof {
            assert(final (self).recent_files.deep_view() =~~= recent_after(l, file_path@));
        }
    }

    /// Copies the persisted font preferences into the format settings.
    pub fn apply_to_format(&self, format_settings: &mut FormatSettings)
        ensures
            final (format_settings).font_family@ == self.font_family@,
            final (format_settings).font_family_type == self.font_family_type,
            final (format_settings).font_style == self.font_style,
            final (format_settings).font_size == self.font_size,
    {
        format_settings.font_family = self.font_family.clone();
        format_settings.font_family_type = self.font_family_type;
        format_settings.font_style = self.font_style;
        format_settings.font_size = self.font_size;
    }

    /// Records the current format settings in the configuration.
    pub fn update_from_format(&mut self, format_settings: &FormatSettings)
        ensures
            final (self).font_family@ == format_settings.font_family@,
            final (self).font_family_type == format_settings.font_family_type,
            final (self).font_style == format_settings.font_style,
            final (self).font_size == format_settings.font_size,
            final (self).recent_files == old(self).recent_files,
            final (self).show_status_bar == old(self).show_status_bar,
            final (self).dark_mode == old(self).dark_mode,
            final (self).window_width == old(self).window_width,
            final (self).window_height == old(self).window_height,
    {
        self.font_family = format_settings.font_family.clone();
        self.font_family_type = format_settings.font_family_type;
        self.font_style = format_settings.font_style;
        self.font_size = format_settings.font_size;
    }
}

} // verus!

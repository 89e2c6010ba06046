//! Which installable components a theme provides, judged only by the names
//! of its files and directories. A theme may provide none, some or all of
//! them; each question is answered independently of the others.

use vstd::prelude::*;
use vstd::string::*;
use crate::collect::listing_view;

verus! {

/// A top-level directory that marks a GTK or window-manager theme.
pub open spec fn is_wm_dir(s: Seq<char>) -> bool {
    ||| s == "gtk-2.0"@
    ||| s == "gtk-3.0"@
    ||| s == "gtk-4.0"@
    ||| s == "metacity-1"@
    ||| s == "xfwm4"@
    ||| s == "openbox-3"@
    ||| s == "gnome-shell"@
    ||| s == "cinnamon"@
}

/// `s` ends with `suffix`.
pub open spec fn ends_with(s: Seq<char>, suffix: Seq<char>) -> bool {
    s.len() >= suffix.len() && s.subrange(s.len() - suffix.len(), s.len() as int) == suffix
}

/// A file name of a font.
pub open spec fn is_font_file(s: Seq<char>) -> bool {
    ends_with(s, ".ttf"@) || ends_with(s, ".otf"@)
}

/// The file `e` (its path segments) lies in a top-level directory `dir`.
pub open spec fn under_top_dir(e: Seq<Seq<char>>, dir: Seq<char>) -> bool {
    e.len() >= 2 && e[0] == dir
}

/// Some file lies in a GTK or window-manager theme directory.
pub open spec fn has_wm_theme(l: Seq<Seq<Seq<char>>>) -> bool {
    exists|i: int| 0 <= i < l.len() && #[trigger] l[i].len() >= 2 && is_wm_dir(l[i][0])
}

/// Some file lies in the top-level `icons` directory.
pub open spec fn has_icon_set(l: Seq<Seq<Seq<char>>>) -> bool {
    exists|i: int| 0 <= i < l.len() && under_top_dir(#[trigger] l[i], "icons"@)
}

/// Some file lies in the top-level `cursors` directory.
pub open spec fn has_cursor_set(l: Seq<Seq<Seq<char>>>) -> bool {
    exists|i: int| 0 <= i < l.len() && under_top_dir(#[trigger] l[i], "cursors"@)
}

/// Some file, at any depth, is a font.
pub open spec fn has_font_files(l: Seq<Seq<Seq<char>>>) -> bool {
    exists|i: int| 0 <= i < l.len() && #[trigger] l[i].len() >= 1 && is_font_file(l[i].last())
}

/// The components a theme provides.
#[derive(Clone, Copy, Debug, PartialEq, Eq, Structural)]
pub struct Components {
    pub gtk: bool,
    pub icons: bool,
    pub cursors: bool,
    pub fonts: bool,
}

/// What the classifier answers for a listing.
pub open spec fn classification(l: Seq<Seq<Seq<char>>>) -> Components {
    Components {
        gtk: has_wm_theme(l),
        icons: has_icon_set(l),
        cursors: has_cursor_set(l),
        fonts: has_font_files(l),
    }
}

/// Whether `s` is exactly `lit`.
fn text_is(s: &str, lit: &str) -> (r: bool)
    ensures
        r == (s@ == lit@),
{
    String::from_str(s) == String::from_str(lit)
}

/// Whether `s` ends with `suffix`.
fn text_ends_with(s: &str, suffix: &str) -> (r: bool)
    ensures
        r == ends_with(s@, suffix@),
{
    let n = s.unicode_len();
    let m = suffix.unicode_len();
    if m > n {
        return false;
    }
    text_is(s.substring_char(n - m, n), suffix)
}

/// Whether a directory name marks a GTK or window-manager theme.
pub fn wm_dir_name(s: &str) -> (r: bool)
    ensures
        r == is_wm_dir(s@),
{
    text_is(s, "gtk-2.0") || text_is(s, "gtk-3.0") || text_is(s, "gtk-4.0") || text_is(
        s,
        "metacity-1",
    ) || text_is(s, "xfwm4") || text_is(s, "openbox-3") || text_is(s, "gnome-shell") || text_is(
        s,
        "cinnamon",
    )
}

/// Whether a file name is a font's.
pub fn font_file_name(s: &str) -> (r: bool)
    ensures
        r == is_font_file(s@),
{
    text_ends_with(s, ".ttf") || text_ends_with(s, ".otf")
}

/// Classifies a theme from the listing of its files, each given as its path
/// segments relative to the theme's root.
pub fn classify(listing: &Vec<Vec<String>>) -> (r: Components)
    ensures
        r == classification(listing_view(listing@)),
{
    let ghost l = listing_view(listing@);
    let mut c = Components { gtk: false, icons: false, cursors: false, fonts: false };
    let mut i: usize = 0;
    while i < listing.len()
        invariant
            i <= listing@.len(),
            l == listing_view(listing@),
            c.gtk == exists|j: int| 0 <= j < i && #[trigger] l[j].len() >= 2 && is_wm_dir(l[j][0]),
            c.icons == exists|j: int| 0 <= j < i && under_top_dir(#[trigger] l[j], "icons"@),
            c.cursors == exists|j: int| 0 <= j < i && under_top_dir(#[trigger] l[j], "cursors"@),
            c.fonts == exists|j: int|
                0 <= j < i && #[trigger] l[j].len() >= 1 && is_font_file(l[j].last()),
        decreases listing@.len() - i,
    {
        let e = &listing[i];
        let ghost v = l[i as int];
        assert(v == e@.map_values(|s: String| s@));
        if e.len() >= 2 {
            let top = e[0].as_str();
            if wm_dir_name(top) {
                c.gtk = true;
            }
            if text_is(top, "icons") {
                c.icons = true;
            }
            if text_is(top, "cursors") {
                c.cursors = true;
            }
        }
        if e.len() >= 1 && font_file_name(e[e.len() - 1].as_str()) {
            c.fonts = true;
        }
        proof {
            if v.len() >= 1 {
                assert(v.last() == e@[e@.len() - 1]@);
            }
            assert(c.gtk == exists|j: int|
                0 <= j < i + 1 && #[trigger] l[j].len() >= 2 && is_wm_dir(l[j][0])) by {
                if c.gtk && !(v.len() >= 2 && is_wm_dir(v[0])) {
                    let j = choose|j: int|
                        0 <= j < i && #[trigger] l[j].len() >= 2 && is_wm_dir(l[j][0]);
                }
            }
            assert(c.icons == exists|j: int|
                0 <= j < i + 1 && under_top_dir(#[trigger] l[j], "icons"@)) by {
                if c.icons && !under_top_dir(v, "icons"@) {
                    let j = choose|j: int| 0 <= j < i && under_top_dir(#[trigger] l[j], "icons"@);
                }
            }
            assert(c.cursors == exists|j: int|
                0 <= j < i + 1 && under_top_dir(#[trigger] l[j], "cursors"@)) by {
                if c.cursors && !under_top_dir(v, "cursors"@) {
                    let j = choose|j: int|
                        0 <= j < i && under_top_dir(#[trigger] l[j], "cursors"@);
                }
            }
            assert(c.fonts == exists|j: int|
                0 <= j < i + 1 && #[trigger] l[j].len() >= 1 && is_font_file(l[j].last())) by {
                if c.fonts && !(v.len() >= 1 && is_font_file(v.last())) {
                    let j = choose|j: int|
                        0 <= j < i && #[trigger] l[j].len() >= 1 && is_font_file(l[j].last());
                }
            }
        }
        i = i + 1;
    }
    c
}

/// A theme whose files are all font files at its root provides fonts and
/// nothing else.
pub proof fn lemma_fonts_only(l: Seq<Seq<Seq<char>>>)
    requires
        l.len() > 0,
        forall|i: int| 0 <= i < l.len() ==> #[trigger] l[i].len() == 1 && is_font_file(l[i][0]),
    ensures
        classification(l) == (Components { gtk: false, icons: false, cursors: false, fonts: true }),
{
    assert(l[0].len() >= 1 && is_font_file(l[0].last()));
}

} // verus!

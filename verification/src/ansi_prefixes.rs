//! The ANSI escape sequences that start each kind of name in the chart.
use vstd::prelude::*;

verus! {

/// The kinds of names that have a prefix of their own.
#[derive(Debug, Clone, Copy, PartialEq, Eq, Structural)]
pub enum NameKind {
    /// `di`: a directory.
    Directory,
    /// `fi`: a regular file.
    RegularFile,
    /// `ex`: an executable file.
    ExecutableFile,
    /// `ln`: a symbolic link.
    SymbolicLink,
}

/// What `lscolors` makes of the `LS_COLORS` text `ls_colors` for names of
/// kind `kind`: the ANSI prefix (by `nu_ansi_term`) of the style that it
/// gives that indicator, or the empty text where it gives none.
pub uninterp spec fn ls_colors_prefix(ls_colors: Seq<char>, kind: NameKind) -> Seq<char>;

/// The prefix of names of kind `kind` under the `LS_COLORS` text
/// `ls_colors`, by [`lscolors::LsColors::from_string`],
/// [`lscolors::LsColors::style_for_indicator`],
/// [`lscolors::style::Style::to_nu_ansi_term_style`] and the `prefix` of the
/// resulting style; empty where no style applies.
///
/// The result is named by `ls_colors_prefix`: the parse of the text and the
/// lookup of an indicator depend on the text and the indicator alone.
#[verifier::external_body]
fn indicator_prefix(ls_colors: &str, kind: NameKind) -> (prefix: String)
    ensures
        prefix@ == ls_colors_prefix(ls_colors@, kind),
{
    let indicator = match kind {
        NameKind::Directory => lscolors::Indicator::Directory,
        NameKind::RegularFile => lscolors::Indicator::RegularFile,
        NameKind::ExecutableFile => lscolors::Indicator::ExecutableFile,
        NameKind::SymbolicLink => lscolors::Indicator::SymbolicLink,
    };
    match lscolors::LsColors::from_string(ls_colors).style_for_indicator(indicator) {
        Some(style) => style.to_nu_ansi_term_style().prefix().to_string(),
        None => String::new(),
    }
}

/// ANSI prefix strings for each color variant, read from `LS_COLORS`.
#[derive(Debug, Clone)]
pub struct AnsiPrefixes {
    /// The prefix of directories.
    pub directory: String,
    /// The prefix of regular files.
    pub normal: String,
    /// The prefix of executable files.
    pub executable: String,
    /// The prefix of symbolic links.
    pub symlink: String,
}

impl AnsiPrefixes {
    /// The prefixes that the `LS_COLORS` text `ls_colors` gives; an empty
    /// text gives those of the default styles.
    pub fn from_ls_colors(ls_colors: &str) -> (prefixes: Self)
        ensures
            prefixes.directory@ == ls_colors_prefix(ls_colors@, NameKind::Directory),
            prefixes.normal@ == ls_colors_prefix(ls_colors@, NameKind::RegularFile),
            prefixes.executable@ == ls_colors_prefix(ls_colors@, NameKind::ExecutableFile),
            prefixes.symlink@ == ls_colors_prefix(ls_colors@, NameKind::SymbolicLink),
    {
        AnsiPrefixes {
            directory: indicator_prefix(ls_colors, NameKind::Directory),
            normal: indicator_prefix(ls_colors, NameKind::RegularFile),
            executable: indicator_prefix(ls_colors, NameKind::ExecutableFile),
            symlink: indicator_prefix(ls_colors, NameKind::SymbolicLink),
        }
    }
}

} // verus!

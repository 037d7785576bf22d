use vstd::prelude::*;
use vstd::string::*;

verus! {

/// Whether output is coloured by syntax highlighting.
#[derive(PartialEq, Eq, Structural, Clone, Copy, Debug)]
pub enum SyntaxHighlight {
    On,
    Off,
}

/// Whether output goes through a pager.
#[derive(PartialEq, Eq, Structural, Clone, Copy, Debug)]
pub enum Pager {
    On,
    Off,
}

/// How a document is shown: colour, paging and the highlighting theme. It is resolved
/// once, before anything is fetched, and handed to whatever shows the document.
#[derive(Debug, PartialEq, Eq)]
pub struct Config {
    pub syntax: SyntaxHighlight,
    pub pager: Pager,
    pub theme: String,
}

impl View for Config {
    /// Colour on, paging on, theme name.
    type V = (bool, bool, Seq<char>);

    open spec fn view(&self) -> (bool, bool, Seq<char>) {
        (self.syntax == SyntaxHighlight::On, self.pager == Pager::On, self.theme@)
    }
}

/// The theme used when none is asked for.
pub open spec fn default_theme() -> Seq<char> {
    "OneHalfDark"@
}

/// The settings that flags and environment resolve to: colour is on unless the flag or
/// the environment turns it off, paging is on unless the flag turns it off, and the
/// theme is the one asked for, or the default one.
pub open spec fn resolved(
    no_color_flag: bool,
    no_paging_flag: bool,
    theme: Option<String>,
    no_color_env: bool,
) -> (bool, bool, Seq<char>) {
    (
        !no_color_flag && !no_color_env,
        !no_paging_flag,
        match theme {
            Some(t) => t@,
            None => default_theme(),
        },
    )
}

impl Config {
    /// Resolves the settings from the command line flags and from whether the
    /// environment asks for no colour.
    pub fn resolve(
        no_color_flag: bool,
        no_paging_flag: bool,
        theme: &Option<String>,
        no_color_env: bool,
    ) -> (r: Config)
        ensures
            r@ == resolved(no_color_flag, no_paging_flag, *theme, no_color_env),
    {
        let syntax = if no_color_flag || no_color_env {
            SyntaxHighlight::Off
        } else {
            SyntaxHighlight::On
        };
        let pager = if no_paging_flag {
            Pager::Off
        } else {
            Pager::On
        };
        let theme = match theme {
            Some(t) => t.clone(),
            None => String::from_str("OneHalfDark"),
        };
        Config { syntax, pager, theme }
    }

    /// Whether syntax highlighting is on.
    pub fn color_enabled(&self) -> (r: bool)
        ensures
            r == self@.0,
    {
        self.syntax == SyntaxHighlight::On
    }

    /// Whether the pager is on.
    pub fn paging_enabled(&self) -> (r: bool)
        ensures
            r == self@.1,
    {
        self.pager == Pager::On
    }
}

/// With no flag and no environment signal, resolution always gives the defaults:
/// colour on, paging on, the default theme. Being a function of its inputs alone, it
/// gives them however often and in whatever order it is asked.
pub proof fn lemma_resolve_defaults()
    ensures
        resolved(false, false, None, false) == (true, true, default_theme()),
{
}

/// Either signal alone turns colour off, and neither turns it back on over the other.
pub proof fn lemma_no_color_wins(no_paging_flag: bool, theme: Option<String>, env: bool, flag: bool)
    ensures
        resolved(true, no_paging_flag, theme, env).0 == false,
        resolved(flag, no_paging_flag, theme, true).0 == false,
{
}

} // verus!

//! The configuration of a site: its name, its colors, and its additions.

use vstd::prelude::*;
use crate::custom::opt_text;
use crate::resolve_model::or_empty;
use crate::text::{push_text, string_of};

verus! {

/// What the configuration says of the site itself.
#[derive(Debug, PartialEq)]
pub struct WebsiteConfig {
    pub name: String,
    pub std: bool,
}

/// The colors of a site.
#[derive(Debug, PartialEq)]
pub struct Theme {
    pub background_1: Option<String>,
    pub background_2: Option<String>,
    pub background_3: Option<String>,
    pub text_1: Option<String>,
    pub text_2: Option<String>,
    pub link: Option<String>,
    pub link_hover: Option<String>,
}

/// The colors of a site as plain values.
pub struct ThemeModel {
    pub background_1: Option<Seq<char>>,
    pub background_2: Option<Seq<char>>,
    pub background_3: Option<Seq<char>>,
    pub text_1: Option<Seq<char>>,
    pub text_2: Option<Seq<char>>,
    pub link: Option<Seq<char>>,
    pub link_hover: Option<Seq<char>>,
}

/// The colors of a theme that names no color.
pub open spec fn no_colors() -> ThemeModel {
    ThemeModel {
        background_1: None,
        background_2: None,
        background_3: None,
        text_1: None,
        text_2: None,
        link: None,
        link_hover: None,
    }
}

/// The color `o`, or the color `d` where `o` names none.
pub open spec fn or_default(o: Option<Seq<char>>, d: Seq<char>) -> Option<Seq<char>> {
    match o {
        Some(c) => Some(c),
        None => Some(d),
    }
}

/// The colors with the default for each color that is not named.
pub open spec fn filled(t: ThemeModel) -> ThemeModel {
    ThemeModel {
        background_1: or_default(t.background_1, "#282828"@),
        background_2: or_default(t.background_2, "#3c3836"@),
        background_3: or_default(t.background_3, "#1d2021"@),
        text_1: or_default(t.text_1, "#ebdbb2"@),
        text_2: or_default(t.text_2, "#a89984"@),
        link: or_default(t.link, "#fe8018"@),
        link_hover: or_default(t.link_hover, "#d65d0e"@),
    }
}

/// The style sheet that defines the colors.
pub open spec fn colors_css(t: ThemeModel) -> Seq<char> {
    ":root {\n    --background-1: "@ + or_empty(t.background_1) + ";\n    --background-2: "@
        + or_empty(t.background_2) + ";\n    --background-3: "@ + or_empty(t.background_3)
        + ";\n    --text-1: "@ + or_empty(t.text_1) + ";\n    --text-2: "@ + or_empty(t.text_2)
        + ";\n    --link: "@ + or_empty(t.link) + ";\n    --link-hover: "@ + or_empty(
        t.link_hover,
    ) + ";\n}"@
}

fn color_or(o: Option<String>, d: &str) -> (r: Option<String>)
    ensures
        opt_text(r) == or_default(opt_text(o), d@),
{
    match o {
        Some(c) => Some(c),
        None => Some(string_of(d)),
    }
}

fn push_color(s: &mut String, o: &Option<String>)
    ensures
        final(s)@ == old(s)@ + or_empty(opt_text(*o)),
{
    match o {
        Some(c) => {
            push_text(s, c.as_str());
        },
        None => {
            proof {
                assert(s@ + Seq::<char>::empty() =~= s@);
            }
        },
    }
}

impl Theme {
    /// The colors as plain values.
    pub open spec fn model(&self) -> ThemeModel {
        ThemeModel {
            background_1: opt_text(self.background_1),
            background_2: opt_text(self.background_2),
            background_3: opt_text(self.background_3),
            text_1: opt_text(self.text_1),
            text_2: opt_text(self.text_2),
            link: opt_text(self.link),
            link_hover: opt_text(self.link_hover),
        }
    }

    /// A theme that names no color.
    pub fn empty() -> (t: Self)
        ensures
            t.model() == no_colors(),
    {
        Theme {
            background_1: None,
            background_2: None,
            background_3: None,
            text_1: None,
            text_2: None,
            link: None,
            link_hover: None,
        }
    }

    /// The theme with the default for each color that it does not name.
    pub fn fill_default(self) -> (t: Self)
        ensures
            t.model() == filled(self.model()),
    {
        Theme {
            background_1: color_or(self.background_1, "#282828"),
            background_2: color_or(self.background_2, "#3c3836"),
            background_3: color_or(self.background_3, "#1d2021"),
            text_1: color_or(self.text_1, "#ebdbb2"),
            text_2: color_or(self.text_2, "#a89984"),
            link: color_or(self.link, "#fe8018"),
            link_hover: color_or(self.link_hover, "#d65d0e"),
        }
    }
}

/// Where the additions of a site are kept.
#[derive(Debug, PartialEq)]
pub struct Addons {
    pub templates: Option<String>,
    pub plugins: Option<String>,
}

/// The configuration as it is written in its file.
#[derive(Debug, PartialEq)]
pub struct TomlConfig {
    pub website: WebsiteConfig,
    pub theme: Option<Theme>,
    pub addons: Option<Addons>,
}

impl TomlConfig {
    /// The configuration with a theme in which every color is named.
    pub fn with_defaults(self) -> (c: Self)
        ensures
            c.website == self.website,
            c.addons == self.addons,
            c.theme matches Some(t) && t.model() == filled(
                match self.theme {
                    Some(given) => given.model(),
                    None => no_colors(),
                },
            ),
    {
        let theme = match self.theme {
            Some(t) => t,
            None => Theme::empty(),
        };
        TomlConfig { website: self.website, theme: Some(theme.fill_default()), addons: self.addons }
    }
}

/// The configuration of the site in the directory `directory`.
#[derive(Debug)]
pub struct Config {
    pub name: String,
    pub theme: Theme,
    pub addons: Addons,
    pub directory: String,
    pub bstd: bool,
}

impl Config {
    /// The configuration of the site in `dir`, from what its file says.
    pub fn new(dir: &str, toml_config: TomlConfig) -> (c: Self)
        ensures
            c.directory@ == dir@,
            c.name == toml_config.website.name,
            c.bstd == toml_config.website.std,
            c.theme.model() == (match toml_config.theme {
                Some(t) => t.model(),
                None => no_colors(),
            }),
            c.addons == (match toml_config.addons {
                Some(a) => a,
                None => Addons { templates: None, plugins: None },
            }),
    {
        Config {
            directory: string_of(dir),
            name: toml_config.website.name,
            addons: match toml_config.addons {
                Some(a) => a,
                None => Addons { templates: None, plugins: None },
            },
            theme: match toml_config.theme {
                Some(t) => t,
                None => Theme::empty(),
            },
            bstd: toml_config.website.std,
        }
    }

    /// The style sheet that defines the colors of the theme. A color that
    /// the theme does not name is left empty.
    pub fn gen_colors(&self) -> (css: String)
        ensures
            css@ == colors_css(self.theme.model()),
    {
        let mut css = string_of(":root {\n    --background-1: ");
        push_color(&mut css, &self.theme.background_1);
        push_text(&mut css, ";\n    --background-2: ");
        push_color(&mut css, &self.theme.background_2);
        push_text(&mut css, ";\n    --background-3: ");
        push_color(&mut css, &self.theme.background_3);
        push_text(&mut css, ";\n    --text-1: ");
        push_color(&mut css, &self.theme.text_1);
        push_text(&mut css, ";\n    --text-2: ");
        push_color(&mut css, &self.theme.text_2);
        push_text(&mut css, ";\n    --link: ");
        push_color(&mut css, &self.theme.link);
        push_text(&mut css, ";\n    --link-hover: ");
        push_color(&mut css, &self.theme.link_hover);
        push_text(&mut css, ";\n}");
        css
    }
}

} // verus!

//! How the control panel looks.
use vstd::prelude::*;

use crate::text::{
    join, joined, list_contains, lower, same, texts, to_lower, trim, trimmed, Text,
};

verus! {

broadcast use vstd::string::group_string_axioms;

/// The colours of the control panel.
#[derive(Clone, Copy, Debug, PartialEq, Eq, Structural)]
pub enum UiTheme {
    Dark,
    Light,
    System,
}

/// The size of its letters.
#[derive(Clone, Copy, Debug, PartialEq, Eq, Structural)]
pub enum UiFontScale {
    Compact,
    Default,
    Large,
}

/// The word for a theme.
pub open spec fn theme_word(t: UiTheme) -> Text {
    match t {
        UiTheme::Dark => "dark"@,
        UiTheme::Light => "light"@,
        UiTheme::System => "system"@,
    }
}

/// The word for a size of letters.
pub open spec fn scale_word(s: UiFontScale) -> Text {
    match s {
        UiFontScale::Compact => "compact"@,
        UiFontScale::Default => "default"@,
        UiFontScale::Large => "large"@,
    }
}

impl UiTheme {
    /// The word for the theme.
    pub fn as_str(self) -> (r: &'static str)
        ensures
            r@ == theme_word(self),
    {
        match self {
            UiTheme::Dark => "dark",
            UiTheme::Light => "light",
            UiTheme::System => "system",
        }
    }

    /// The theme that a word names.
    pub fn parse(value: &str) -> (r: Option<UiTheme>)
        ensures
            r matches Some(t) ==> lower(trimmed(value@)) == theme_word(t),
            r is None ==> forall|t: UiTheme| lower(trimmed(value@)) != #[trigger] theme_word(t),
    {
        let t = to_lower(trim(value).as_str());
        if same(t.as_str(), "dark") {
            Some(UiTheme::Dark)
        } else if same(t.as_str(), "light") {
            Some(UiTheme::Light)
        } else if same(t.as_str(), "system") {
            Some(UiTheme::System)
        } else {
            None
        }
    }
}

impl UiFontScale {
    /// The word for the size.
    pub fn as_str(self) -> (r: &'static str)
        ensures
            r@ == scale_word(self),
    {
        match self {
            UiFontScale::Compact => "compact",
            UiFontScale::Default => "default",
            UiFontScale::Large => "large",
        }
    }

    /// The size that a word names.
    pub fn parse(value: &str) -> (r: Option<UiFontScale>)
        ensures
            r matches Some(s) ==> lower(trimmed(value@)) == scale_word(s),
            r is None ==> forall|s: UiFontScale| lower(trimmed(value@)) != #[trigger] scale_word(s),
    {
        let t = to_lower(trim(value).as_str());
        if same(t.as_str(), "compact") {
            Some(UiFontScale::Compact)
        } else if same(t.as_str(), "default") {
            Some(UiFontScale::Default)
        } else if same(t.as_str(), "large") {
            Some(UiFontScale::Large)
        } else {
            None
        }
    }
}

/// How the control panel looks.
#[derive(Debug)]
pub struct Appearance {
    pub theme: UiTheme,
    pub font_body: String,
    pub font_display: String,
    pub font_mono: String,
    pub font_scale: UiFontScale,
}

/// The view of [`Appearance`].
pub struct AppearanceView {
    pub theme: UiTheme,
    pub font_body: Text,
    pub font_display: Text,
    pub font_mono: Text,
    pub font_scale: UiFontScale,
}

impl View for Appearance {
    type V = AppearanceView;

    open spec fn view(&self) -> AppearanceView {
        AppearanceView {
            theme: self.theme,
            font_body: self.font_body@,
            font_display: self.font_display@,
            font_mono: self.font_mono@,
            font_scale: self.font_scale,
        }
    }
}

impl Clone for Appearance {
    fn clone(&self) -> (r: Self)
        ensures
            r@ == self@,
    {
        Appearance {
            theme: self.theme,
            font_body: self.font_body.clone(),
            font_display: self.font_display.clone(),
            font_mono: self.font_mono.clone(),
            font_scale: self.font_scale,
        }
    }
}

impl Appearance {
    /// Whether two look the same.
    pub fn same(&self, other: &Appearance) -> (r: bool)
        ensures
            r == (self@ == other@),
    {
        self.theme == other.theme && self.font_scale == other.font_scale && same(
            self.font_body.as_str(),
            other.font_body.as_str(),
        ) && same(self.font_display.as_str(), other.font_display.as_str()) && same(
            self.font_mono.as_str(),
            other.font_mono.as_str(),
        )
    }
}

/// The fonts that there are for each use.
#[derive(Debug)]
pub struct Fonts {
    pub body: Vec<String>,
    pub display: Vec<String>,
    pub mono: Vec<String>,
}

/// The view of [`Fonts`].
pub struct FontsView {
    pub body: Seq<Text>,
    pub display: Seq<Text>,
    pub mono: Seq<Text>,
}

impl View for Fonts {
    type V = FontsView;

    open spec fn view(&self) -> FontsView {
        FontsView {
            body: texts(self.body@),
            display: texts(self.display@),
            mono: texts(self.mono@),
        }
    }
}

/// What is asked of the look; what is missing stays.
#[derive(Debug)]
pub struct AppearanceUpdate {
    pub theme: Option<UiTheme>,
    pub font_body: Option<String>,
    pub font_display: Option<String>,
    pub font_mono: Option<String>,
    pub font_scale: Option<UiFontScale>,
}

/// The font that a field is left with, or why it is refused.
pub open spec fn font_chosen(
    field: Text,
    asked: Option<Text>,
    known: Seq<Text>,
    now: Text,
) -> Result<Text, Text> {
    match asked {
        None => Ok(now),
        Some(f) => if known.contains(lower(trimmed(f))) {
            Ok(lower(trimmed(f)))
        } else {
            Err(field + " must be one of: "@ + joined(known, ", "@))
        },
    }
}

/// The look after each part of an update in turn, and the first refusal, with
/// which the rest is left as it was.
pub open spec fn restyled(
    a: AppearanceView,
    u: AppearanceUpdate,
    k: FontsView,
) -> (AppearanceView, Result<(), Text>) {
    let a1 = AppearanceView {
        theme: match u.theme {
            Some(t) => t,
            None => a.theme,
        },
        ..a
    };
    match font_chosen("font_body"@, crate::text::opt_text(u.font_body), k.body, a.font_body) {
        Err(e) => (a1, Err(e)),
        Ok(body) => {
            let a2 = AppearanceView { font_body: body, ..a1 };
            match font_chosen(
                "font_display"@,
                crate::text::opt_text(u.font_display),
                k.display,
                a.font_display,
            ) {
                Err(e) => (a2, Err(e)),
                Ok(display) => {
                    let a3 = AppearanceView { font_display: display, ..a2 };
                    match font_chosen(
                        "font_mono"@,
                        crate::text::opt_text(u.font_mono),
                        k.mono,
                        a.font_mono,
                    ) {
                        Err(e) => (a3, Err(e)),
                        Ok(mono) => (
                            AppearanceView {
                                font_mono: mono,
                                font_scale: match u.font_scale {
                                    Some(s) => s,
                                    None => a.font_scale,
                                },
                                ..a3
                            },
                            Ok(()),
                        ),
                    }
                },
            }
        },
    }
}

fn choose_font(field: &str, asked: &Option<String>, known: &Vec<String>, now: &mut String) -> (r:
    Result<(), String>)
    ensures
        match font_chosen(field@, crate::text::opt_text(*asked), texts(known@), old(now)@) {
            Ok(f) => r is Ok && final(now)@ == f,
            Err(m) => r matches Err(e) && e@ == m && final(now)@ == old(now)@,
        },
{
    match asked {
        None => Ok(()),
        Some(f) => {
            let id = to_lower(trim(f.as_str()).as_str());
            if list_contains(known, id.as_str()) {
                *now = id;
                Ok(())
            } else {
                let mut e = field.to_owned();
                e.append(" must be one of: ");
                e.append(join(known, ", ").as_str());
                Err(e)
            }
        },
    }
}

impl Appearance {
    /// Takes in each part of an update in turn, up to the first that is
    /// refused.
    pub fn restyle(&mut self, u: &AppearanceUpdate, known: &Fonts) -> (r: Result<(), String>)
        ensures
            final(self)@ == restyled(old(self)@, *u, known@).0,
            crate::settings::outcome(r) == restyled(old(self)@, *u, known@).1,
    {
        match u.theme {
            Some(t) => {
                self.theme = t;
            },
            None => {},
        }
        match choose_font("font_body", &u.font_body, &known.body, &mut self.font_body) {
            Err(e) => {
                return Err(e);
            },
            Ok(()) => {},
        }
        match choose_font(
            "font_display",
            &u.font_display,
            &known.display,
            &mut self.font_display,
        ) {
            Err(e) => {
                return Err(e);
            },
            Ok(()) => {},
        }
        match choose_font("font_mono", &u.font_mono, &known.mono, &mut self.font_mono) {
            Err(e) => {
                return Err(e);
            },
            Ok(()) => {},
        }
        match u.font_scale {
            Some(s) => {
                self.font_scale = s;
            },
            None => {},
        }
        Ok(())
    }
}

/// A change of the looks sets what it names and leaves the rest; a font that is
/// not known is refused.
pub proof fn law_restyling_sets_what_it_names(
    a: AppearanceView,
    u: AppearanceUpdate,
    k: FontsView,
)
    ensures
        restyled(a, u, k).1 is Ok ==> {
            let n = restyled(a, u, k).0;
            &&& n.theme == (match u.theme {
                Some(t) => t,
                None => a.theme,
            })
            &&& n.font_scale == (match u.font_scale {
                Some(s) => s,
                None => a.font_scale,
            })
            &&& u.font_body is None ==> n.font_body == a.font_body
            &&& u.font_body matches Some(f) ==> n.font_body == lower(trimmed(f@))
                && k.body.contains(n.font_body)
            &&& u.font_display is None ==> n.font_display == a.font_display
            &&& u.font_display matches Some(f) ==> n.font_display == lower(trimmed(f@))
                && k.display.contains(n.font_display)
            &&& u.font_mono is None ==> n.font_mono == a.font_mono
            &&& u.font_mono matches Some(f) ==> n.font_mono == lower(trimmed(f@))
                && k.mono.contains(n.font_mono)
        },
        (u.font_mono matches Some(f) && !k.mono.contains(lower(trimmed(f@)))) ==> restyled(
            a,
            u,
            k,
        ).1 is Err,
{
}

} // verus!

//! Progress-bar styles: the template and the characters that bars, spinners
//! and bouncers are drawn with.
use vstd::prelude::*;
use itertools::Itertools;
use crate::external::measure_text_width;
use crate::external::text_width;
use crate::format::parser::TemplateError;
use crate::template::FmtItem;
use crate::template::ItemView;
use crate::template::TemplateOutcome;
use crate::template::items_view;
use crate::template::template_outcome;
use crate::template::try_parse_template;

verus! {

/// A progress-bar style.
pub struct Style {
    pub(crate) template: Vec<FmtItem>,
    pub(crate) spinner_chars: Vec<String>,
    pub(crate) spinner_char_width: usize,
    pub(crate) progress_bar_chars: Vec<String>,
    pub(crate) bouncer_chars: String,
    pub(crate) bouncer_char_width: usize,
}

/// A style as plain values.
pub struct StyleView {
    pub template: Seq<ItemView>,
    pub spinner_chars: Seq<Seq<char>>,
    pub spinner_char_width: nat,
    pub progress_bar_chars: Seq<Seq<char>>,
    pub bouncer_chars: Seq<char>,
    pub bouncer_char_width: nat,
}

/// The texts of a sequence of strings.
pub open spec fn strings_view(v: Seq<String>) -> Seq<Seq<char>> {
    v.map_values(|s: String| s@)
}

impl View for Style {
    type V = StyleView;

    closed spec fn view(&self) -> StyleView {
        StyleView {
            template: items_view(self.template@),
            spinner_chars: strings_view(self.spinner_chars@),
            spinner_char_width: self.spinner_char_width as nat,
            progress_bar_chars: strings_view(self.progress_bar_chars@),
            bouncer_chars: self.bouncer_chars@,
            bouncer_char_width: self.bouncer_char_width as nat,
        }
    }
}

/// What every style keeps: at least one spinner frame, and at least a filled
/// and an empty bar character.
pub open spec fn style_ok(s: StyleView) -> bool {
    &&& s.spinner_chars.len() > 0
    &&& s.progress_bar_chars.len() >= 2
}

/// The default spinner frames.
pub open spec fn default_spinner_view() -> Seq<Seq<char>> {
    seq![
        "⢿⣿"@, "⣻⣿"@, "⣽⣿"@, "⣾⣿"@, "⣷⣿"@, "⣿⣾"@,
        "⣿⣷"@, "⣿⣯"@, "⣿⣟"@, "⣿⡿"@, "⣿⢿"@, "⡿⣿"@,
    ]
}

/// The default bar characters: filled, partial, empty.
pub open spec fn default_bar_view() -> Seq<Seq<char>> {
    seq!["━"@, "╸"@, " "@]
}

/// The default bouncer.
pub open spec fn default_bouncer_view() -> Seq<char> {
    "━━━━━"@
}

/// A style with the given template and the default characters.
pub open spec fn default_style_with(template: Seq<ItemView>) -> StyleView {
    StyleView {
        template,
        spinner_chars: default_spinner_view(),
        spinner_char_width: text_width("⣿⣿"@),
        progress_bar_chars: default_bar_view(),
        bouncer_chars: default_bouncer_view(),
        bouncer_char_width: text_width(default_bouncer_view()),
    }
}

/// Whether every text of `v` is `w` columns wide.
pub open spec fn all_width(v: Seq<Seq<char>>, w: nat) -> bool {
    forall|i: int| 0 <= i < v.len() ==> text_width(#[trigger] v[i]) == w
}

/// Whether all texts of `v` are equally wide.
pub open spec fn same_width(v: Seq<Seq<char>>) -> bool {
    v.len() > 0 && all_width(v, text_width(v[0]))
}

/// The first element of the widths when they are all equal
/// (`Itertools::all_equal_value`, with the error dropped).
#[verifier::external_body]
fn all_equal_width(widths: &Vec<usize>) -> (r: Option<usize>)
    ensures
        widths@.len() > 0 && (forall|i: int| 0 <= i < widths@.len() ==> #[trigger] widths@[i] == widths@[0])
            ==> r == Some(widths@[0]),
        !(widths@.len() > 0 && (forall|i: int| 0 <= i < widths@.len() ==> #[trigger] widths@[i] == widths@[0]))
            ==> r is None,
{
    widths.iter().all_equal_value().ok().copied()
}

/// Copies of the strings of a slice.
fn owned_strings(chars: &[&str]) -> (v: Vec<String>)
    ensures
        v@.len() == chars@.len(),
        forall|i: int| 0 <= i < chars@.len() ==> #[trigger] v@[i]@ == chars@[i]@,
{
    let mut v: Vec<String> = Vec::new();
    let mut i: usize = 0;
    while i < chars.len()
        invariant
            i <= chars@.len(),
            v@.len() == i,
            forall|j: int| 0 <= j < i ==> #[trigger] v@[j]@ == chars@[j]@,
        decreases chars@.len() - i,
    {
        v.push(chars[i].to_owned());
        i = i + 1;
    }
    v
}

/// The display widths of the strings.
fn widths_of(v: &Vec<String>) -> (w: Vec<usize>)
    ensures
        w@.len() == v@.len(),
        forall|i: int| 0 <= i < v@.len() ==> #[trigger] w@[i] as nat == text_width(v@[i]@),
{
    let mut w: Vec<usize> = Vec::new();
    let mut i: usize = 0;
    while i < v.len()
        invariant
            i <= v@.len(),
            w@.len() == i,
            forall|j: int| 0 <= j < i ==> #[trigger] w@[j] as nat == text_width(v@[j]@),
        decreases v@.len() - i,
    {
        w.push(measure_text_width(v[i].as_str()));
        i = i + 1;
    }
    w
}

/// The common width of the strings, if they are nonempty and all equally
/// wide.
fn common_width(v: &Vec<String>) -> (r: Option<usize>)
    ensures
        same_width(strings_view(v@)) ==> (r matches Some(w) && all_width(strings_view(v@), w as nat)),
        !same_width(strings_view(v@)) ==> r is None,
{
    let widths = widths_of(v);
    let r = all_equal_width(&widths);
    proof {
        let sv = strings_view(v@);
        assert forall|i: int| 0 <= i < v@.len() implies #[trigger] sv[i] == v@[i]@ by {}
        if same_width(sv) {
            assert forall|i: int| 0 <= i < widths@.len() implies #[trigger] widths@[i] == widths@[0] by {
                assert(text_width(sv[i]) == text_width(sv[0]));
            }
        } else if widths@.len() > 0 {
            if forall|i: int| 0 <= i < widths@.len() ==> #[trigger] widths@[i] == widths@[0] {
                assert forall|i: int| 0 <= i < sv.len() implies text_width(#[trigger] sv[i]) == text_width(sv[0]) by {
                    assert(widths@[i] == widths@[0]);
                }
            }
        }
    }
    r
}

/// The default spinner frames and their width.
fn default_spinner_chars() -> (r: (Vec<String>, usize))
    ensures
        strings_view(r.0@) == default_spinner_view(),
        r.1 as nat == text_width("⣿⣿"@),
{
    let v = owned_strings(&["⢿⣿", "⣻⣿", "⣽⣿", "⣾⣿", "⣷⣿", "⣿⣾", "⣿⣷", "⣿⣯", "⣿⣟", "⣿⡿", "⣿⢿", "⡿⣿"]);
    assert(strings_view(v@) =~= default_spinner_view());
    (v, measure_text_width("⣿⣿"))
}

/// The default bouncer and its width.
fn default_bouncer_chars() -> (r: (String, usize))
    ensures
        r.0@ == default_bouncer_view(),
        r.1 as nat == text_width(default_bouncer_view()),
{
    let bouncer = "━━━━━";
    (bouncer.to_owned(), measure_text_width(bouncer))
}

/// The default bar characters: filled, partial and empty.
pub fn default_progress_bar_chars() -> (v: Vec<String>)
    ensures
        strings_view(v@) == default_bar_view(),
{
    let v = owned_strings(&["━", "╸", " "]);
    assert(strings_view(v@) =~= default_bar_view());
    v
}

impl Style {
    #[verifier::type_invariant]
    closed spec fn keeps_frames(self) -> bool {
        &&& self.spinner_chars@.len() > 0
        &&& self.progress_bar_chars@.len() >= 2
    }

    /// The number of spinner frames and of bar characters; every style has
    /// at least one frame and two bar characters.
    pub fn frame_counts(&self) -> (r: (usize, usize))
        ensures
            r.0 == self@.spinner_chars.len(),
            r.1 == self@.progress_bar_chars.len(),
            style_ok(self@),
    {
        proof {
            use_type_invariant(self);
        }
        (self.spinner_chars.len(), self.progress_bar_chars.len())
    }

    /// The template items themselves.
    pub closed spec fn items(&self) -> Seq<FmtItem> {
        self.template@
    }

    /// The template items.
    pub fn template(&self) -> (r: &Vec<FmtItem>)
        ensures
            items_view(r@) == self@.template,
            r@ == self.items(),
    {
        &self.template
    }

    /// The spinner frame at index `i`.
    pub fn spinner_frame(&self, i: usize) -> (r: &String)
        requires
            i < self@.spinner_chars.len(),
        ensures
            r@ == self@.spinner_chars[i as int],
    {
        &self.spinner_chars[i]
    }

    /// The bar character at index `i`.
    pub fn bar_char(&self, i: usize) -> (r: &String)
        requires
            i < self@.progress_bar_chars.len(),
        ensures
            r@ == self@.progress_bar_chars[i as int],
    {
        &self.progress_bar_chars[i]
    }

    /// The bouncer and its width.
    pub fn bouncer(&self) -> (r: (&String, usize))
        ensures
            r.0@ == self@.bouncer_chars,
            r.1 as nat == self@.bouncer_char_width,
    {
        (&self.bouncer_chars, self.bouncer_char_width)
    }

    fn with_template_items(template: Vec<FmtItem>) -> (s: Self)
        ensures
            s@ == default_style_with(items_view(template@)),
    {
        let (spinner_chars, spinner_char_width) = default_spinner_chars();
        let (bouncer_chars, bouncer_char_width) = default_bouncer_chars();
        let progress_bar_chars = default_progress_bar_chars();
        assert(strings_view(spinner_chars@).len() == spinner_chars@.len());
        assert(strings_view(progress_bar_chars@).len() == progress_bar_chars@.len());
        assert(default_spinner_view().len() == 12);
        assert(default_bar_view().len() == 3);
        Style {
            template,
            spinner_chars,
            spinner_char_width,
            progress_bar_chars,
            bouncer_chars,
            bouncer_char_width,
        }
    }

    /// A style with the parsed template and the default characters, the
    /// parse error, or `None` where the parser gives up on an overlong
    /// number.
    pub fn try_from_template(format: &str) -> (r: Option<Result<Self, TemplateError>>)
        ensures
            match template_outcome(format@) {
                TemplateOutcome::Parsed(items) => r matches Some(Ok(s)) && s@ == default_style_with(items),
                TemplateOutcome::Failed(i, m) => r matches Some(Err(e)) && e.char_index == i && e.message@ == m,
                TemplateOutcome::Aborted => r is None,
            },
    {
        match try_parse_template(format) {
            None => None,
            Some(Err(e)) => Some(Err(e)),
            Some(Ok(items)) => Some(Ok(Self::with_template_items(items))),
        }
    }

    /// A style with the parsed template and the default characters, or the
    /// parse error.
    pub fn from_template(format: &str) -> (r: Result<Self, TemplateError>)
        requires
            !(template_outcome(format@) is Aborted),
        ensures
            match template_outcome(format@) {
                TemplateOutcome::Parsed(items) => r matches Ok(s) && s@ == default_style_with(items),
                TemplateOutcome::Failed(i, m) => r matches Err(e) && e.char_index == i && e.message@ == m,
                TemplateOutcome::Aborted => false,
            },
    {
        match Self::try_from_template(format) {
            Some(r) => r,
            None => {
                assert(false);
                Err(TemplateError { char_index: 0, message: String::new() })
            },
        }
    }

    /// A style with no template items and the default characters.
    pub fn dummy() -> (s: Self)
        ensures
            s@ == default_style_with(Seq::empty()),
    {
        let empty: Vec<FmtItem> = Vec::new();
        assert(items_view(empty@) =~= Seq::<ItemView>::empty());
        Self::with_template_items(empty)
    }

    /// Replaces the template with the parsed one, or returns the parse error
    /// (or `None` where the parser gives up) and leaves the style as it was.
    pub fn try_set_template(&mut self, template: &str) -> (r: Option<Result<(), TemplateError>>)
        ensures
            match template_outcome(template@) {
                TemplateOutcome::Parsed(items) => r matches Some(Ok(_))
                    && final(self)@ == (StyleView { template: items, ..old(self)@ }),
                TemplateOutcome::Failed(i, m) => r matches Some(Err(e)) && e.char_index == i
                    && e.message@ == m && final(self)@ == old(self)@,
                TemplateOutcome::Aborted => r is None && final(self)@ == old(self)@,
            },
    {
        proof {
            use_type_invariant(&*self);
        }
        match try_parse_template(template) {
            None => None,
            Some(Err(e)) => Some(Err(e)),
            Some(Ok(items)) => {
                self.template = items;
                Some(Ok(()))
            },
        }
    }

    /// Replaces the template with the parsed one.
    pub fn set_template(&mut self, template: &str)
        requires
            template_outcome(template@) is Parsed,
        ensures
            final(self)@ == (StyleView { template: template_outcome(template@)->Parsed_0, ..old(self)@ }),
    {
        let _ = self.try_set_template(template);
    }

    /// Sets the spinner frames, which must be nonempty and equally wide.
    pub fn set_spinner_chars(&mut self, chars: &[&str])
        requires
            same_width(chars@.map_values(|s: &str| s@)),
        ensures
            final(self)@ == (StyleView {
                spinner_chars: chars@.map_values(|s: &str| s@),
                spinner_char_width: text_width(chars@[0]@),
                ..old(self)@
            }),
    {
        proof {
            use_type_invariant(&*self);
        }
        let v = owned_strings(chars);
        assert(strings_view(v@) =~= chars@.map_values(|s: &str| s@));
        match common_width(&v) {
            Some(w) => {
                proof {
                    assert(text_width(strings_view(v@)[0]) == w as nat);
                    assert(strings_view(v@).len() == v@.len());
                }
                self.spinner_chars = v;
                self.spinner_char_width = w;
            },
            None => {
                assert(false);
            },
        }
    }

    /// Sets the spinner frames and their common width, or returns `false`
    /// and leaves the style as it was when there are none or they differ in
    /// width.
    pub fn try_set_spinner_chars(&mut self, chars: &[&str]) -> (r: bool)
        ensures
            r == same_width(chars@.map_values(|s: &str| s@)),
            r ==> final(self)@ == (StyleView {
                spinner_chars: chars@.map_values(|s: &str| s@),
                spinner_char_width: text_width(chars@[0]@),
                ..old(self)@
            }),
            !r ==> final(self)@ == old(self)@,
    {
        let v = owned_strings(chars);
        assert(strings_view(v@) =~= chars@.map_values(|s: &str| s@));
        if common_width(&v).is_some() {
            self.set_spinner_chars(chars);
            true
        } else {
            false
        }
    }

    /// Sets the bar characters: at least two, each one column wide.
    pub fn set_progress_bar_chars(&mut self, chars: &[&str])
        requires
            chars@.len() >= 2,
            all_width(chars@.map_values(|s: &str| s@), 1),
        ensures
            final(self)@ == (StyleView { progress_bar_chars: chars@.map_values(|s: &str| s@), ..old(self)@ }),
    {
        proof {
            use_type_invariant(&*self);
        }
        let v = owned_strings(chars);
        assert(strings_view(v@) =~= chars@.map_values(|s: &str| s@));
        self.progress_bar_chars = v;
    }

    /// Sets the bar characters (filled, partials, empty), or returns `false`
    /// and leaves the style as it was when there are fewer than two or any is
    /// not one column wide.
    pub fn try_set_progress_bar_chars(&mut self, chars: &[&str]) -> (r: bool)
        ensures
            r == (chars@.len() >= 2 && all_width(chars@.map_values(|s: &str| s@), 1)),
            r ==> final(self)@ == (StyleView { progress_bar_chars: chars@.map_values(|s: &str| s@), ..old(self)@ }),
            !r ==> final(self)@ == old(self)@,
    {
        if chars.len() < 2 {
            return false;
        }
        let v = owned_strings(chars);
        let ghost sv = chars@.map_values(|s: &str| s@);
        assert(strings_view(v@) =~= sv);
        match common_width(&v) {
            Some(w) => {
                if w == 1 {
                    self.set_progress_bar_chars(chars);
                    true
                } else {
                    assert(text_width(sv[0]) == w as nat);
                    false
                }
            },
            None => {
                proof {
                    if all_width(sv, 1) {
                        assert(same_width(sv));
                    }
                }
                false
            },
        }
    }

    /// The default style of a bar: `{msg} [{bar:40!}] {pos}/{len}`.
    pub fn default_bar() -> (s: Self)
        ensures
            template_outcome("{msg} [{bar:40!}] {pos}/{len}"@) is Parsed,
            s@ == default_style_with(template_outcome("{msg} [{bar:40!}] {pos}/{len}"@)->Parsed_0),
    {
        proof {
            reveal_strlit("{msg} [{bar:40!}] {pos}/{len}");
            reveal_with_fuel(crate::format::parser::run, 40);
            assert(template_outcome("{msg} [{bar:40!}] {pos}/{len}"@) is Parsed);
        }
        match Self::from_template("{msg} [{bar:40!}] {pos}/{len}") {
            Ok(s) => s,
            Err(_) => {
                assert(false);
                Self::dummy()
            },
        }
    }

    /// The default style of a spinner: ` {spinner}  {msg}`.
    pub fn default_spinner() -> (s: Self)
        ensures
            template_outcome(" {spinner}  {msg}"@) is Parsed,
            s@ == default_style_with(template_outcome(" {spinner}  {msg}"@)->Parsed_0),
    {
        proof {
            reveal_strlit(" {spinner}  {msg}");
            reveal_with_fuel(crate::format::parser::run, 20);
            assert(template_outcome(" {spinner}  {msg}"@) is Parsed);
        }
        match Self::from_template(" {spinner}  {msg}") {
            Ok(s) => s,
            Err(_) => {
                assert(false);
                Self::dummy()
            },
        }
    }

    /// Sets the bouncer of unbounded bars and its width; an empty one leaves
    /// them blank.
    pub fn set_bouncer(&mut self, bouncer: &str)
        ensures
            final(self)@ == (StyleView {
                bouncer_chars: bouncer@,
                bouncer_char_width: text_width(bouncer@),
                ..old(self)@
            }),
    {
        proof {
            use_type_invariant(&*self);
        }
        self.bouncer_chars = bouncer.to_owned();
        self.bouncer_char_width = measure_text_width(bouncer);
    }
}

} // verus!

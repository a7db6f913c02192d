//! Progress-bar templates: the parsed parts with their keys resolved.
use vstd::prelude::*;
use crate::text::str_equals;
use crate::format::parser::ParseConfig;
use crate::format::parser::ParseOptions;
use crate::format::parser::ParseOutcome;
use crate::format::parser::PartView;
use crate::format::parser::PlaceholderView;
use crate::format::parser::TemplatePart;
use crate::format::parser::TemplateError;
use crate::format::parser::parse_outcome;
use crate::format::parser::parts_view;

verus! {

/// The value that a placeholder shows.
#[derive(Debug, Clone, PartialEq, Eq)]
pub enum PlaceholderKey {
    Message,
    Prefix,
    Percent,
    Position,
    Total,
    Padding,
    Rate,
    ElapsedTime,
    RemainingTime,
    Bar,
    Spinner,
    Custom(String),
}

/// A placeholder key, with a custom key as a character sequence.
pub enum KeyView {
    Message,
    Prefix,
    Percent,
    Position,
    Total,
    Padding,
    Rate,
    ElapsedTime,
    RemainingTime,
    Bar,
    Spinner,
    Custom(Seq<char>),
}

impl View for PlaceholderKey {
    type V = KeyView;

    open spec fn view(&self) -> KeyView {
        match self {
            PlaceholderKey::Message => KeyView::Message,
            PlaceholderKey::Prefix => KeyView::Prefix,
            PlaceholderKey::Percent => KeyView::Percent,
            PlaceholderKey::Position => KeyView::Position,
            PlaceholderKey::Total => KeyView::Total,
            PlaceholderKey::Padding => KeyView::Padding,
            PlaceholderKey::Rate => KeyView::Rate,
            PlaceholderKey::ElapsedTime => KeyView::ElapsedTime,
            PlaceholderKey::RemainingTime => KeyView::RemainingTime,
            PlaceholderKey::Bar => KeyView::Bar,
            PlaceholderKey::Spinner => KeyView::Spinner,
            PlaceholderKey::Custom(s) => KeyView::Custom(s@),
        }
    }
}

/// The key that a placeholder name stands for; any other name is a custom
/// key.
pub open spec fn key_of(k: Seq<char>) -> KeyView {
    if k == "msg"@ || k == "message"@ || k == "description"@ {
        KeyView::Message
    } else if k == "prefix"@ {
        KeyView::Prefix
    } else if k == "percent"@ {
        KeyView::Percent
    } else if k == "pos"@ || k == "position"@ {
        KeyView::Position
    } else if k == "len"@ || k == "length"@ || k == "total"@ {
        KeyView::Total
    } else if k == "pad"@ || k == "padding"@ {
        KeyView::Padding
    } else if k == "rate"@ {
        KeyView::Rate
    } else if k == "elapsed"@ || k == "elapsed_time"@ {
        KeyView::ElapsedTime
    } else if k == "remaining"@ || k == "remaining_time"@ {
        KeyView::RemainingTime
    } else if k == "bar"@ || k == "progress_bar"@ {
        KeyView::Bar
    } else if k == "spinner"@ {
        KeyView::Spinner
    } else {
        KeyView::Custom(k)
    }
}

impl PlaceholderKey {
    /// The key that a placeholder name stands for.
    pub fn from_string(key: String) -> (r: Self)
        ensures
            r@ == key_of(key@),
    {
        let k = key.as_str();
        if str_equals(k, "msg") || str_equals(k, "message") || str_equals(k, "description") {
            PlaceholderKey::Message
        } else if str_equals(k, "prefix") {
            PlaceholderKey::Prefix
        } else if str_equals(k, "percent") {
            PlaceholderKey::Percent
        } else if str_equals(k, "pos") || str_equals(k, "position") {
            PlaceholderKey::Position
        } else if str_equals(k, "len") || str_equals(k, "length") || str_equals(k, "total") {
            PlaceholderKey::Total
        } else if str_equals(k, "pad") || str_equals(k, "padding") {
            PlaceholderKey::Padding
        } else if str_equals(k, "rate") {
            PlaceholderKey::Rate
        } else if str_equals(k, "elapsed") || str_equals(k, "elapsed_time") {
            PlaceholderKey::ElapsedTime
        } else if str_equals(k, "remaining") || str_equals(k, "remaining_time") {
            PlaceholderKey::RemainingTime
        } else if str_equals(k, "bar") || str_equals(k, "progress_bar") {
            PlaceholderKey::Bar
        } else if str_equals(k, "spinner") {
            PlaceholderKey::Spinner
        } else {
            PlaceholderKey::Custom(key)
        }
    }
}

/// One item of a progress-bar template: literal text, or a placeholder with
/// its resolved key and its parsed specifiers.
#[derive(Debug, Clone)]
pub enum FmtItem {
    Literal(String),
    Placeholder { key: PlaceholderKey, part: TemplatePart },
}

/// A template item as plain values.
pub enum ItemView {
    Literal(Seq<char>),
    Placeholder(KeyView, PlaceholderView),
}

impl View for FmtItem {
    type V = ItemView;

    open spec fn view(&self) -> ItemView {
        match self {
            FmtItem::Literal(s) => ItemView::Literal(s@),
            FmtItem::Placeholder { key, part } => match part@ {
                PartView::Placeholder(p) => ItemView::Placeholder(key@, p),
                PartView::Literal(s) => ItemView::Literal(s),
            },
        }
    }
}

pub open spec fn items_view(v: Seq<FmtItem>) -> Seq<ItemView> {
    v.map_values(|i: FmtItem| i@)
}

/// The item that a parsed part becomes.
pub open spec fn item_of(p: PartView) -> ItemView {
    match p {
        PartView::Literal(t) => ItemView::Literal(t),
        PartView::Placeholder(ph) => ItemView::Placeholder(key_of(ph.key), ph),
    }
}

/// The parse options of progress-bar templates: relative widths, deferral,
/// styles and `@` arguments, and no extra flags.
pub open spec fn template_config() -> ParseConfig {
    ParseConfig { relative_width: true, extra_args: true, defer: true, style: true, flags: Some(Seq::empty()) }
}

fn template_options() -> (o: ParseOptions)
    ensures
        o@ == template_config(),
{
    let o = ParseOptions {
        relative_width: true,
        extra_args: true,
        defer: true,
        style: true,
        flag_handler: Some(Vec::new()),
    };
    assert(o@.flags->0 =~= Seq::<char>::empty());
    o
}

/// What parsing a progress-bar template gives: the items, an error, or an
/// abort where the parser panics.
pub enum TemplateOutcome {
    Parsed(Seq<ItemView>),
    Failed(nat, Seq<char>),
    Aborted,
}

pub open spec fn template_outcome(t: Seq<char>) -> TemplateOutcome {
    match parse_outcome(template_config(), t) {
        ParseOutcome::Parsed(ps) => TemplateOutcome::Parsed(ps.map_values(|p: PartView| item_of(p))),
        ParseOutcome::Failed(i, m) => TemplateOutcome::Failed(i, m),
        ParseOutcome::Aborted => TemplateOutcome::Aborted,
    }
}

fn item_from_part(part: TemplatePart) -> (r: FmtItem)
    ensures
        r@ == item_of(part@),
{
    match part {
        TemplatePart::Literal(s) => FmtItem::Literal(s),
        TemplatePart::Placeholder { .. } => {
            let key = match &part {
                TemplatePart::Placeholder { key, .. } => PlaceholderKey::from_string(key.clone()),
                TemplatePart::Literal(_) => PlaceholderKey::Message,
            };
            FmtItem::Placeholder { key, part }
        },
    }
}

/// Parses a progress-bar template, or returns `None` where the parser
/// aborts.
pub fn try_parse_template(template: &str) -> (r: Option<Result<Vec<FmtItem>, TemplateError>>)
    ensures
        match template_outcome(template@) {
            TemplateOutcome::Parsed(items) => match r {
                Some(Ok(v)) => items_view(v@) == items,
                _ => false,
            },
            TemplateOutcome::Failed(i, m) => match r {
                Some(Err(e)) => e.char_index == i && e.message@ == m,
                _ => false,
            },
            TemplateOutcome::Aborted => r is None,
        },
{
    let opts = template_options();
    let res = crate::format::parser::try_parse_template(template, opts);
    let parts = match res {
        None => {
            return None;
        },
        Some(Err(e)) => {
            return Some(Err(e));
        },
        Some(Ok(v)) => v,
    };
    let ghost ps = parts_view(parts@);
    assert(parse_outcome(template_config(), template@) == ParseOutcome::Parsed(ps));
    let mut items: Vec<FmtItem> = Vec::new();
    let mut rest = parts;
    let ghost n = ps.len();
    assert(items_view(items@) =~= ps.take(0).map_values(|p: PartView| item_of(p)));
    while rest.len() > 0
        invariant
            items.len() + rest.len() == n,
            n == ps.len(),
            forall|j: int| 0 <= j < rest.len() ==> (#[trigger] rest@[j])@ == ps[items.len() + j],
            items_view(items@) == ps.take(items.len() as int).map_values(|p: PartView| item_of(p)),
        decreases rest.len(),
    {
        let ghost k = items.len();
        let ghost old_rest = rest@;
        let part = rest.remove(0);
        assert(part@ == ps[k as int]);
        assert forall|j: int| 0 <= j < rest.len() implies (#[trigger] rest@[j])@ == ps[k + 1 + j] by {
            assert(rest@[j] == old_rest[j + 1]);
        }
        let ghost before = items@;
        items.push(item_from_part(part));
        assert(items_view(items@) =~= ps.take(k + 1).map_values(|p: PartView| item_of(p))) by {
            assert(items@ =~= before.push(items@[k as int]));
            assert(items@[k as int]@ == item_of(ps[k as int]));
            assert forall|j: int| 0 <= j < k implies #[trigger] items_view(items@)[j] == items_view(before)[j] by {
                assert(items@[j] == before[j]);
            }
            assert forall|j: int| 0 <= j < k implies #[trigger] ps.take(k + 1)[j] == ps.take(k as int)[j] by {}
        }
    }
    assert(ps.take(n as int) =~= ps);
    Some(Ok(items))
}

} // verus!

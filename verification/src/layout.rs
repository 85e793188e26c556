//! Templates of dashboards: what a file must hold to be taken in.
use vstd::prelude::*;
use crate::json;
use crate::json::{as_array, field, is_object, is_string, Json};
use crate::text;
use crate::text::{is_blank, push_decimal, push_text};
use crate::units::Bits32;

verus! {

/// The most bytes of a template: five mebibytes.
pub const MAX_TEMPLATE_BYTES: usize = 5_242_880;

/// The most panes of a template.
pub const MAX_TEMPLATE_PANES: usize = 128;

/// The deepest a pane may be nested.
pub const MAX_TEMPLATE_DEPTH: usize = 32;

/// The version of templates.
pub const TEMPLATE_VERSION: u32 = 1;

/// The bits of 0.05 and 0.95, between which a split must lie.
pub const MIN_SPLIT_RATIO_BITS: u32 = 0x3d4c_cccd;

pub const MAX_SPLIT_RATIO_BITS: u32 = 0x3f73_3333;

/// Why a template is refused.
#[derive(Debug)]
pub enum TemplateError {
    EmptyFile,
    FileTooLarge,
    NotJson(String),
    MissingLayout,
    InvalidName,
    MissingDashboard,
    MissingPaneTree,
    InvalidPopoutList,
    CorruptPopoutEntry,
    WrongFormat,
    UnsupportedVersion(u32),
    EmptyName,
    TooDeep,
    TooManyPanes,
    InvalidSplitRatio,
    InvalidPopoutWindow,
}

impl TemplateError {
    /// The text that is shown.
    pub open spec fn text(self) -> Seq<char> {
        match self {
            TemplateError::EmptyFile => "Template file is empty"@,
            TemplateError::FileTooLarge => "Template file is too large"@,
            TemplateError::NotJson(error) => "Template is corrupt or not valid JSON: "@ + error@,
            TemplateError::MissingLayout => "Template is missing its layout"@,
            TemplateError::InvalidName => "Template has an invalid name"@,
            TemplateError::MissingDashboard => "Template is missing its dashboard"@,
            TemplateError::MissingPaneTree => "Template is missing its pane tree"@,
            TemplateError::InvalidPopoutList => "Template has an invalid popout list"@,
            TemplateError::CorruptPopoutEntry => "Template contains a corrupt popout entry"@,
            TemplateError::WrongFormat => "File is not a FlowSurface dashboard template"@,
            TemplateError::UnsupportedVersion(version) => "Unsupported template version "@
                + text::decimal(version as nat) + " (expected "@ + text::decimal(
                TEMPLATE_VERSION as nat,
            ) + ")"@,
            TemplateError::EmptyName => "Template name is empty"@,
            TemplateError::TooDeep => "Template pane tree is too deeply nested"@,
            TemplateError::TooManyPanes => "Template contains too many panes"@,
            TemplateError::InvalidSplitRatio => "Template contains an invalid pane split ratio"@,
            TemplateError::InvalidPopoutWindow => "Template contains an invalid popout window"@,
        }
    }

    /// The text that is shown.
    pub fn describe(&self) -> (r: String)
        ensures
            r@ == self.text(),
    {
        let mut r: String = String::new();
        match self {
            TemplateError::EmptyFile => push_text(&mut r, "Template file is empty"),
            TemplateError::FileTooLarge => push_text(&mut r, "Template file is too large"),
            TemplateError::NotJson(error) => {
                push_text(&mut r, "Template is corrupt or not valid JSON: ");
                push_text(&mut r, error.as_str());
            },
            TemplateError::MissingLayout => push_text(&mut r, "Template is missing its layout"),
            TemplateError::InvalidName => push_text(&mut r, "Template has an invalid name"),
            TemplateError::MissingDashboard => push_text(
                &mut r,
                "Template is missing its dashboard",
            ),
            TemplateError::MissingPaneTree => push_text(
                &mut r,
                "Template is missing its pane tree",
            ),
            TemplateError::InvalidPopoutList => push_text(
                &mut r,
                "Template has an invalid popout list",
            ),
            TemplateError::CorruptPopoutEntry => push_text(
                &mut r,
                "Template contains a corrupt popout entry",
            ),
            TemplateError::WrongFormat => push_text(
                &mut r,
                "File is not a FlowSurface dashboard template",
            ),
            TemplateError::UnsupportedVersion(version) => {
                push_text(&mut r, "Unsupported template version ");
                push_decimal(&mut r, *version as u64);
                push_text(&mut r, " (expected ");
                push_decimal(&mut r, TEMPLATE_VERSION as u64);
                push_text(&mut r, ")");
            },
            TemplateError::EmptyName => push_text(&mut r, "Template name is empty"),
            TemplateError::TooDeep => push_text(
                &mut r,
                "Template pane tree is too deeply nested",
            ),
            TemplateError::TooManyPanes => push_text(&mut r, "Template contains too many panes"),
            TemplateError::InvalidSplitRatio => push_text(
                &mut r,
                "Template contains an invalid pane split ratio",
            ),
            TemplateError::InvalidPopoutWindow => push_text(
                &mut r,
                "Template contains an invalid popout window",
            ),
        }
        assert(r@ =~= self.text());
        r
    }
}

/// What marks a file as a template.
pub open spec fn template_format() -> Seq<char> {
    "flowsurface-dashboard-template"@
}

/// What marks a file as a template.
pub fn format_mark() -> (r: &'static str)
    ensures
        r@ == template_format(),
{
    "flowsurface-dashboard-template"
}

/// The document of a template file. An empty file, one that is too large and one that is
/// no JSON are refused, the last with the words of the parser.
pub fn read_template(bytes: &Vec<u8>) -> (r: Result<serde_json::Value, TemplateError>)
    ensures
        match r {
            Ok(value) => 0 < bytes@.len() <= MAX_TEMPLATE_BYTES && json::parsed_json(bytes@)
                == Ok::<Json, Seq<char>>(json::json_of(value)),
            Err(TemplateError::EmptyFile) => bytes@.len() == 0,
            Err(TemplateError::FileTooLarge) => bytes@.len() > MAX_TEMPLATE_BYTES,
            Err(TemplateError::NotJson(cause)) => 0 < bytes@.len() <= MAX_TEMPLATE_BYTES
                && json::parsed_json(bytes@) == Err::<Json, Seq<char>>(cause@),
            Err(_) => false,
        },
{
    if bytes.len() == 0 {
        return Err(TemplateError::EmptyFile);
    }
    if bytes.len() > MAX_TEMPLATE_BYTES {
        return Err(TemplateError::FileTooLarge);
    }
    match json::parse(bytes) {
        Ok(value) => Ok(value),
        Err(cause) => Err(TemplateError::NotJson(cause)),
    }
}

/// A field that has fields itself.
pub open spec fn object_field(value: Json, name: Seq<char>) -> Option<Json> {
    match json::field_of(value, name) {
        Some(found) => if found is Fields {
            Some(found)
        } else {
            None
        },
        None => None,
    }
}

fn find_object<'a>(value: &'a serde_json::Value, name: &str) -> (r: Option<&'a serde_json::Value>)
    ensures
        match r {
            Some(found) => object_field(json::json_of(*value), name@) == Some(
                json::json_of(*found),
            ),
            None => object_field(json::json_of(*value), name@) is None,
        },
{
    match field(value, name) {
        Some(found) => {
            if is_object(found) {
                Some(found)
            } else {
                None
            }
        },
        None => None,
    }
}

/// The dashboard of a template: its layout must have a text for a name and hold it.
pub open spec fn dashboard_of(template: Json) -> Result<Json, TemplateError> {
    match object_field(template, "layout"@) {
        Some(layout) => match json::field_of(layout, "name"@) {
            Some(Json::Text(_)) => match object_field(layout, "dashboard"@) {
                Some(dashboard) => Ok(dashboard),
                None => Err(TemplateError::MissingDashboard),
            },
            _ => Err(TemplateError::InvalidName),
        },
        None => Err(TemplateError::MissingLayout),
    }
}

/// The dashboard of a template.
pub fn template_dashboard(template: &serde_json::Value) -> (r: Result<
    &serde_json::Value,
    TemplateError,
>)
    ensures
        match r {
            Ok(dashboard) => dashboard_of(json::json_of(*template)) == Ok::<_, TemplateError>(
                json::json_of(*dashboard),
            ),
            Err(error) => dashboard_of(json::json_of(*template)) == Err::<Json, _>(error),
        },
{
    let layout = match find_object(template, "layout") {
        Some(layout) => layout,
        None => {
            return Err(TemplateError::MissingLayout);
        },
    };
    let named: bool = match field(layout, "name") {
        Some(name) => is_string(name),
        None => false,
    };
    if !named {
        return Err(TemplateError::InvalidName);
    }
    match find_object(layout, "dashboard") {
        Some(dashboard) => Ok(dashboard),
        None => Err(TemplateError::MissingDashboard),
    }
}

/// The pane tree of a dashboard.
pub fn template_pane(dashboard: &serde_json::Value) -> (r: Result<
    &serde_json::Value,
    TemplateError,
>)
    ensures
        match r {
            Ok(pane) => json::field_of(json::json_of(*dashboard), "pane"@) == Some(
                json::json_of(*pane),
            ),
            Err(error) => json::field_of(json::json_of(*dashboard), "pane"@) is None && error
                == TemplateError::MissingPaneTree,
        },
{
    match field(dashboard, "pane") {
        Some(pane) => Ok(pane),
        None => Err(TemplateError::MissingPaneTree),
    }
}

/// The windows of a dashboard beside the main one.
pub fn template_popouts(dashboard: &serde_json::Value) -> (r: Result<
    &Vec<serde_json::Value>,
    TemplateError,
>)
    ensures
        match r {
            Ok(entries) => json::field_of(json::json_of(*dashboard), "popout"@) == Some(
                Json::List(json::documents(entries@)),
            ),
            Err(error) => error == TemplateError::InvalidPopoutList && !(json::field_of(
                json::json_of(*dashboard),
                "popout"@,
            ) matches Some(Json::List(_))),
        },
{
    match field(dashboard, "popout") {
        Some(list) => match as_array(list) {
            Some(entries) => Ok(entries),
            None => Err(TemplateError::InvalidPopoutList),
        },
        None => Err(TemplateError::InvalidPopoutList),
    }
}

/// The pane tree and the place of a window: an entry is a pair of them.
pub fn popout_entry(entry: &serde_json::Value) -> (r: Result<
    (&serde_json::Value, &serde_json::Value),
    TemplateError,
>)
    ensures
        match r {
            Ok(pair) => json::json_of(*entry) == Json::List(
                seq![json::json_of(*pair.0), json::json_of(*pair.1)],
            ),
            Err(error) => error == TemplateError::CorruptPopoutEntry && !(json::json_of(
                *entry,
            ) matches Json::List(parts) && parts.len() == 2),
        },
{
    match as_array(entry) {
        Some(parts) => {
            if parts.len() == 2 {
                assert(json::documents(parts@) =~= seq![
                    json::json_of(parts@[0]),
                    json::json_of(parts@[1]),
                ]);
                Ok((&parts[0], &parts[1]))
            } else {
                assert(json::documents(parts@).len() == parts@.len());
                Err(TemplateError::CorruptPopoutEntry)
            }
        },
        None => Err(TemplateError::CorruptPopoutEntry),
    }
}

/// Whether a file is a template of this version.
pub fn validate_template_header(format: &str, version: u32) -> (r: Result<(), TemplateError>)
    ensures
        r == if format@ != template_format() {
            Err(TemplateError::WrongFormat)
        } else if version != TEMPLATE_VERSION {
            Err(TemplateError::UnsupportedVersion(version))
        } else {
            Ok(())
        },
{
    let mark = text::char_list(format_mark());
    let given = text::char_list(format);
    if given.len() != mark.len() || !text::starts_with(&given, &mark) {
        proof {
            if given@ == mark@ {
                assert(given@.take(mark@.len() as int) =~= mark@);
            }
        }
        return Err(TemplateError::WrongFormat);
    }
    assert(given@ =~= mark@) by {
        assert(given@.take(mark@.len() as int) =~= given@);
    }
    if version != TEMPLATE_VERSION {
        return Err(TemplateError::UnsupportedVersion(version));
    }
    Ok(())
}

#[derive(Clone, Copy, Debug, PartialEq, Eq, Structural)]
pub enum Axis {
    Horizontal,
    Vertical,
}

/// A pane tree. The contents of a pane are kept elsewhere under a number.
#[derive(Debug)]
pub enum Pane {
    Split { axis: Axis, ratio: Bits32, a: Box<Pane>, b: Box<Pane> },
    Content { slot: usize },
}

/// The place and size of a window.
#[derive(Clone, Copy, Debug, PartialEq, Eq, Structural)]
pub struct WindowSpec {
    pub width: Bits32,
    pub height: Bits32,
    pub pos_x: Bits32,
    pub pos_y: Bits32,
}

#[derive(Debug)]
pub struct TemplateLayout {
    pub name: String,
    pub pane: Pane,
    pub popout: Vec<(Pane, WindowSpec)>,
}

/// Whether a split lies where both parts can be seen.
pub open spec fn valid_ratio(ratio: Bits32) -> bool {
    &&& ratio.finite()
    &&& (Bits32 { bits: MIN_SPLIT_RATIO_BITS }).rank() <= ratio.rank() <= (Bits32 {
        bits: MAX_SPLIT_RATIO_BITS,
    }).rank()
}

fn is_valid_ratio(ratio: Bits32) -> (r: bool)
    ensures
        r == valid_ratio(ratio),
{
    let low = Bits32 { bits: MIN_SPLIT_RATIO_BITS };
    let high = Bits32 { bits: MAX_SPLIT_RATIO_BITS };
    ratio.is_finite() && low.total_rank() <= ratio.total_rank() && ratio.total_rank()
        <= high.total_rank()
}

/// Above zero and finite.
pub open spec fn positive(figure: Bits32) -> bool {
    figure.finite() && 0 < figure.bits < 0x8000_0000
}

pub open spec fn valid_window(spec: WindowSpec) -> bool {
    positive(spec.width) && positive(spec.height) && spec.pos_x.finite() && spec.pos_y.finite()
}

fn is_valid_window(spec: WindowSpec) -> (r: bool)
    ensures
        r == valid_window(spec),
{
    spec.width.is_finite() && spec.height.is_finite() && spec.pos_x.is_finite()
        && spec.pos_y.is_finite() && 0 < spec.width.bits && spec.width.bits < 0x8000_0000 && 0
        < spec.height.bits && spec.height.bits < 0x8000_0000
}

/// The number of panes after a tree has been looked through, or what is wrong with it:
/// first its depth, then the number of panes, then its splits, from the first part on.
pub open spec fn looked_through(pane: Pane, depth: nat, panes: nat) -> Result<nat, TemplateError>
    decreases pane,
{
    if depth > MAX_TEMPLATE_DEPTH {
        Err(TemplateError::TooDeep)
    } else if panes + 1 > MAX_TEMPLATE_PANES {
        Err(TemplateError::TooManyPanes)
    } else {
        match pane {
            Pane::Split { axis, ratio, a, b } => if !valid_ratio(ratio) {
                Err(TemplateError::InvalidSplitRatio)
            } else {
                match looked_through(*a, depth + 1, panes + 1) {
                    Ok(count) => looked_through(*b, depth + 1, count),
                    Err(error) => Err(error),
                }
            },
            Pane::Content { slot } => Ok(panes + 1),
        }
    }
}

/// Looks a pane tree through; `panes` is the number of panes before it, the result the
/// number with it.
pub fn validate_template_pane(pane: &Pane, depth: usize, panes: usize) -> (r: Result<
    usize,
    TemplateError,
>)
    requires
        panes <= MAX_TEMPLATE_PANES,
    ensures
        match r {
            Ok(count) => looked_through(*pane, depth as nat, panes as nat) == Ok::<
                nat,
                TemplateError,
            >(count as nat) && panes < count <= MAX_TEMPLATE_PANES,
            Err(error) => looked_through(*pane, depth as nat, panes as nat) == Err::<
                nat,
                TemplateError,
            >(error),
        },
    decreases pane,
{
    if depth > MAX_TEMPLATE_DEPTH {
        return Err(TemplateError::TooDeep);
    }
    if panes + 1 > MAX_TEMPLATE_PANES {
        return Err(TemplateError::TooManyPanes);
    }
    match pane {
        Pane::Split { ratio, a, b, .. } => {
            if !is_valid_ratio(*ratio) {
                return Err(TemplateError::InvalidSplitRatio);
            }
            match validate_template_pane(a, depth + 1, panes + 1) {
                Ok(count) => validate_template_pane(b, depth + 1, count),
                Err(error) => Err(error),
            }
        },
        Pane::Content { .. } => Ok(panes + 1),
    }
}

/// The number of panes after the windows have been looked through, or what is wrong with
/// them.
pub open spec fn popouts_looked_through(
    popout: Seq<(Pane, WindowSpec)>,
    panes: nat,
) -> Result<nat, TemplateError>
    decreases popout.len(),
{
    if popout.len() == 0 {
        Ok(panes)
    } else {
        match popouts_looked_through(popout.drop_last(), panes) {
            Ok(count) => if !valid_window(popout.last().1) {
                Err(TemplateError::InvalidPopoutWindow)
            } else {
                looked_through(popout.last().0, 0, count)
            },
            Err(error) => Err(error),
        }
    }
}

/// What is wrong with a layout, if anything.
pub open spec fn layout_verdict(
    name: Seq<char>,
    pane: Pane,
    popout: Seq<(Pane, WindowSpec)>,
) -> Result<(), TemplateError> {
    if text::blank(name) {
        Err(TemplateError::EmptyName)
    } else {
        match looked_through(pane, 0, 0) {
            Ok(count) => match popouts_looked_through(popout, count) {
                Ok(_) => Ok(()),
                Err(error) => Err(error),
            },
            Err(error) => Err(error),
        }
    }
}

proof fn lemma_failed_popouts(popout: Seq<(Pane, WindowSpec)>, panes: nat, i: int)
    requires
        0 <= i <= popout.len(),
        popouts_looked_through(popout.take(i), panes) is Err,
    ensures
        popouts_looked_through(popout, panes) == popouts_looked_through(popout.take(i), panes),
    decreases popout.len() - i,
{
    if i < popout.len() {
        assert(popout.take(i + 1).drop_last() =~= popout.take(i));
        lemma_failed_popouts(popout, panes, i + 1);
    } else {
        assert(popout.take(i) =~= popout);
    }
}

/// Whether a layout is taken in.
pub fn validate_template_layout(layout: &TemplateLayout) -> (r: Result<(), TemplateError>)
    ensures
        r == layout_verdict(layout.name@, layout.pane, layout.popout@),
{
    if is_blank(layout.name.as_str()) {
        return Err(TemplateError::EmptyName);
    }
    let main: usize = match validate_template_pane(&layout.pane, 0, 0) {
        Ok(count) => count,
        Err(error) => {
            return Err(error);
        },
    };
    let mut panes: usize = main;
    let mut i: usize = 0;
    assert(layout.popout@.take(0) =~= Seq::<(Pane, WindowSpec)>::empty());
    while i < layout.popout.len()
        invariant
            i <= layout.popout@.len(),
            panes <= MAX_TEMPLATE_PANES,
            !text::blank(layout.name@),
            looked_through(layout.pane, 0, 0) == Ok::<nat, TemplateError>(main as nat),
            popouts_looked_through(layout.popout@.take(i as int), main as nat) == Ok::<
                nat,
                TemplateError,
            >(panes as nat),
        decreases layout.popout@.len() - i,
    {
        assert(layout.popout@.take(i + 1).drop_last() =~= layout.popout@.take(i as int));
        assert(layout.popout@.take(i + 1).last() == layout.popout@[i as int]);
        if !is_valid_window(layout.popout[i].1) {
            proof {
                lemma_failed_popouts(layout.popout@, main as nat, i + 1);
            }
            return Err(TemplateError::InvalidPopoutWindow);
        }
        match validate_template_pane(&layout.popout[i].0, 0, panes) {
            Ok(count) => {
                panes = count;
            },
            Err(error) => {
                proof {
                    lemma_failed_popouts(layout.popout@, main as nat, i + 1);
                }
                return Err(error);
            },
        }
        i = i + 1;
    }
    assert(layout.popout@.take(layout.popout@.len() as int) =~= layout.popout@);
    Ok(())
}

/// The number of panes of a tree, splits counted.
pub open spec fn pane_count(pane: Pane) -> nat
    decreases pane,
{
    match pane {
        Pane::Split { axis, ratio, a, b } => 1 + pane_count(*a) + pane_count(*b),
        Pane::Content { slot } => 1,
    }
}

/// The number of splits above the deepest pane.
pub open spec fn pane_depth(pane: Pane) -> nat
    decreases pane,
{
    match pane {
        Pane::Split { axis, ratio, a, b } => {
            let left = pane_depth(*a);
            let right = pane_depth(*b);
            1 + if left >= right {
                left
            } else {
                right
            }
        },
        Pane::Content { slot } => 0,
    }
}

pub open spec fn ratios_are_valid(pane: Pane) -> bool
    decreases pane,
{
    match pane {
        Pane::Split { axis, ratio, a, b } => valid_ratio(ratio) && ratios_are_valid(*a)
            && ratios_are_valid(*b),
        Pane::Content { slot } => true,
    }
}

/// A tree is taken in exactly where it is not nested too deeply, has not too many panes
/// and splits only where both parts can be seen.
pub proof fn accepted_trees_are_small(pane: Pane, depth: nat, panes: nat)
    ensures
        looked_through(pane, depth, panes) is Ok <==> depth + pane_depth(pane)
            <= MAX_TEMPLATE_DEPTH && panes + pane_count(pane) <= MAX_TEMPLATE_PANES
            && ratios_are_valid(pane),
        looked_through(pane, depth, panes) is Ok ==> looked_through(pane, depth, panes)->Ok_0
            == panes + pane_count(pane),
    decreases pane,
{
    if let Pane::Split { axis, ratio, a, b } = pane {
        accepted_trees_are_small(*a, depth + 1, panes + 1);
        lemma_at_least_one(*a);
        lemma_at_least_one(*b);
        if looked_through(*a, depth + 1, panes + 1) is Ok {
            accepted_trees_are_small(*b, depth + 1, looked_through(*a, depth + 1, panes + 1)->Ok_0);
        }
    }
}

proof fn lemma_at_least_one(pane: Pane)
    ensures
        pane_count(pane) >= 1,
{
}

/// The panes of all windows together.
pub open spec fn popout_count(popout: Seq<(Pane, WindowSpec)>) -> nat
    decreases popout.len(),
{
    if popout.len() == 0 {
        0
    } else {
        popout_count(popout.drop_last()) + pane_count(popout.last().0)
    }
}

/// A layout that is taken in has no more panes than allowed in all its windows together.
pub proof fn accepted_layouts_are_small(
    name: Seq<char>,
    pane: Pane,
    popout: Seq<(Pane, WindowSpec)>,
)
    requires
        layout_verdict(name, pane, popout) is Ok,
    ensures
        pane_count(pane) + popout_count(popout) <= MAX_TEMPLATE_PANES,
        pane_depth(pane) <= MAX_TEMPLATE_DEPTH,
        !text::blank(name),
{
    accepted_trees_are_small(pane, 0, 0);
    lemma_popouts_counted(popout, looked_through(pane, 0, 0)->Ok_0);
}

proof fn lemma_popouts_counted(popout: Seq<(Pane, WindowSpec)>, panes: nat)
    requires
        panes <= MAX_TEMPLATE_PANES,
        popouts_looked_through(popout, panes) is Ok,
    ensures
        popouts_looked_through(popout, panes)->Ok_0 == panes + popout_count(popout),
        panes + popout_count(popout) <= MAX_TEMPLATE_PANES,
    decreases popout.len(),
{
    if popout.len() > 0 {
        lemma_popouts_counted(popout.drop_last(), panes);
        accepted_trees_are_small(
            popout.last().0,
            0,
            popouts_looked_through(popout.drop_last(), panes)->Ok_0,
        );
    }
}

/// The place of the first layout with a name, the number of layouts where there is none.
pub open spec fn first_named(names: Seq<String>, target: Seq<char>) -> int
    decreases names.len(),
{
    if names.len() == 0 || names[0]@ == target {
        0
    } else {
        1 + first_named(names.skip(1), target)
    }
}

/// The layout that was active: the first one with the saved name.
pub fn active_layout(names: &Vec<String>, target: Option<&String>) -> (r: Option<usize>)
    ensures
        r == match target {
            Some(target) => if first_named(names@, target@) < names@.len() {
                Some(first_named(names@, target@) as usize)
            } else {
                None
            },
            None => None,
        },
{
    let saved: &String = match target {
        Some(saved) => saved,
        None => {
            return None;
        },
    };
    let wanted = text::char_list(saved.as_str());
    let mut i: usize = 0;
    assert(names@.skip(0) =~= names@);
    while i < names.len()
        invariant
            i <= names@.len(),
            target == Some(saved),
            wanted@ == saved@,
            first_named(names@, saved@) == i + first_named(names@.skip(i as int), saved@),
        decreases names@.len() - i,
    {
        let name = text::char_list(names[i].as_str());
        assert(names@.skip(i as int)[0] == names@[i as int]);
        assert(names@.skip(i as int).skip(1) =~= names@.skip(i + 1));
        if name.len() == wanted.len() && text::starts_with(&name, &wanted) {
            assert(name@ =~= wanted@) by {
                assert(name@.take(wanted@.len() as int) =~= name@);
            }
            assert(names@.skip(i as int)[0]@ == saved@);
            return Some(i);
        }
        assert(name@ != wanted@) by {
            if name@ == wanted@ {
                assert(name@.take(wanted@.len() as int) =~= wanted@);
            }
        }
        i = i + 1;
    }
    None
}

} // verus!

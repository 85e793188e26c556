//! Templates of dashboards.
use flowsurface::layout::{
    active_layout, format_mark, popout_entry, read_template, template_dashboard, template_pane,
    template_popouts, validate_template_header, validate_template_layout, Axis, Pane,
    TemplateError, TemplateLayout, WindowSpec, MAX_TEMPLATE_BYTES,
};
use flowsurface::units::Bits32;

fn figure(value: f32) -> Bits32 {
    Bits32 { bits: value.to_bits() }
}

fn content() -> Pane {
    Pane::Content { slot: 0 }
}

fn split(ratio: f32, a: Pane, b: Pane) -> Pane {
    Pane::Split { axis: Axis::Horizontal, ratio: figure(ratio), a: Box::new(a), b: Box::new(b) }
}

fn window(width: f32) -> WindowSpec {
    WindowSpec {
        width: figure(width),
        height: figure(600.0),
        pos_x: figure(-10.0),
        pos_y: figure(0.0),
    }
}

fn layout(pane: Pane, popout: Vec<(Pane, WindowSpec)>) -> TemplateLayout {
    TemplateLayout { name: "Scalping".to_string(), pane, popout }
}

fn deep(levels: usize) -> Pane {
    (0..levels).fold(content(), |tree, _| split(0.5, tree, content()))
}

#[test]
fn unrelated_json_is_not_accepted_as_a_template() {
    let value = read_template(&br#"{"name":"not a template"}"#.to_vec()).unwrap();
    assert!(template_dashboard(&value).is_err());
}

#[test]
fn files_that_are_no_json_are_refused() {
    assert!(matches!(read_template(&vec![]), Err(TemplateError::EmptyFile)));
    let large = vec![b' '; MAX_TEMPLATE_BYTES + 1];
    assert!(matches!(read_template(&large), Err(TemplateError::FileTooLarge)));
    let Err(TemplateError::NotJson(cause)) = read_template(&b"{".to_vec()) else {
        panic!("expected an error");
    };
    assert_eq!(cause, "EOF while parsing an object at line 1 column 1");
    assert!(TemplateError::NotJson("x".to_string())
        .describe()
        .starts_with("Template is corrupt or not valid JSON: x"));
}

fn parts(text: &str) -> Result<usize, TemplateError> {
    let value = read_template(&text.as_bytes().to_vec())?;
    let dashboard = template_dashboard(&value)?;
    template_pane(dashboard)?;
    let popouts = template_popouts(dashboard)?;
    for entry in popouts {
        let (pane, window) = popout_entry(entry)?;
        assert!(pane.is_string() && window.is_number());
    }
    Ok(popouts.len())
}

#[test]
fn templates_are_walked_to_their_panes() {
    let template = |name: &str, dashboard: &str| {
        format!(r#"{{"layout":{{"name":{name},"dashboard":{dashboard}}}}}"#)
    };
    let good = template(r#""a""#, r#"{"pane":{},"popout":[["p",1],["q",2]]}"#);
    assert_eq!(parts(&good).unwrap(), 2);
    let missing = |text: String| parts(&text).unwrap_err();
    assert!(matches!(missing(r#"{"layout":3}"#.to_string()), TemplateError::MissingLayout));
    assert!(matches!(missing(template("3", "{}")), TemplateError::InvalidName));
    assert!(matches!(missing(template(r#""a""#, "[]")), TemplateError::MissingDashboard));
    assert!(matches!(missing(template(r#""a""#, "{}")), TemplateError::MissingPaneTree));
    assert!(matches!(
        missing(template(r#""a""#, r#"{"pane":{},"popout":{}}"#)),
        TemplateError::InvalidPopoutList
    ));
    assert!(matches!(
        missing(template(r#""a""#, r#"{"pane":{},"popout":[["p",1,2]]}"#)),
        TemplateError::CorruptPopoutEntry
    ));
}

#[test]
fn headers_must_match() {
    assert!(validate_template_header(format_mark(), 1).is_ok());
    assert!(matches!(
        validate_template_header("flowsurface-dashboard-templates", 1),
        Err(TemplateError::WrongFormat)
    ));
    let error = validate_template_header(format_mark(), 7).unwrap_err();
    assert_eq!(error.describe(), "Unsupported template version 7 (expected 1)");
}

#[test]
fn small_trees_are_accepted() {
    let tree = split(0.05, content(), split(0.95, content(), content()));
    assert!(validate_template_layout(&layout(tree, vec![(content(), window(800.0))])).is_ok());
    assert!(validate_template_layout(&layout(deep(32), vec![])).is_ok());
}

#[test]
fn trees_are_refused_for_the_first_thing_that_is_wrong() {
    let verdict = |layout: TemplateLayout| validate_template_layout(&layout).unwrap_err();
    let blank = TemplateLayout { name: " \t".to_string(), pane: content(), popout: vec![] };
    assert!(matches!(verdict(blank), TemplateError::EmptyName));
    assert!(matches!(verdict(layout(deep(33), vec![])), TemplateError::TooDeep));
    assert!(matches!(
        verdict(layout(split(0.96, content(), content()), vec![])),
        TemplateError::InvalidSplitRatio
    ));
    assert!(matches!(
        verdict(layout(split(f32::NAN, content(), content()), vec![])),
        TemplateError::InvalidSplitRatio
    ));
    assert!(matches!(
        verdict(layout(content(), vec![(content(), window(0.0))])),
        TemplateError::InvalidPopoutWindow
    ));
    let many = (0..128).map(|_| (content(), window(1.0))).collect();
    assert!(matches!(verdict(layout(content(), many)), TemplateError::TooManyPanes));
}

#[test]
fn the_first_layout_with_the_saved_name_is_active() {
    let names = vec!["a".to_string(), "b".to_string(), "b".to_string()];
    assert_eq!(active_layout(&names, Some(&"b".to_string())), Some(1));
    assert_eq!(active_layout(&names, Some(&"c".to_string())), None);
    assert_eq!(active_layout(&names, None), None);
}

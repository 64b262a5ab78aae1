use rari_doc::css_computed::{write_computed_output, write_missing, CssLeaf, CssPropertyData, CssValue};
use rari_doc::locale::Locale;
use rari_doc::resolve::DocError;

fn l10n(entries: &[(&str, &str)]) -> Vec<(String, Vec<(String, String)>)> {
    entries
        .iter()
        .map(|(k, v)| (k.to_string(), vec![("en-US".to_string(), v.to_string())]))
        .collect()
}

fn files() -> Vec<(String, Vec<(String, Vec<(String, String)>)>)> {
    vec![(
        "CSS".to_string(),
        vec![("missing".to_string(), vec![("en-US".to_string(), "missing".to_string())])],
    )]
}

fn data(fields: Vec<(&str, CssValue)>) -> CssPropertyData {
    CssPropertyData { fields: fields.into_iter().map(|(k, v)| (k.to_string(), v)).collect() }
}

fn s(v: &str) -> CssValue {
    CssValue::Str(v.to_string())
}

fn render(t: &str) -> Result<String, DocError> {
    Ok(t.to_string())
}

fn xref(e: &str) -> String {
    format!("<X{e}>")
}

fn no_lookup(_: &str) -> Option<CssPropertyData> {
    None
}

fn cell(d: &CssPropertyData, property: &str, at_rule: Option<&str>, locale: Locale, l: &Vec<(String, Vec<(String, String)>)>) -> Result<String, DocError> {
    let mut out = String::from(">");
    write_computed_output(&mut out, locale, d, property, at_rule, l, &files(), &render, &xref, &no_lookup)?;
    Ok(out[1..].to_string())
}

#[test]
fn related_at_rule_links_the_at_rule() {
    let d = data(vec![]);
    assert_eq!(
        cell(&d, "relatedAtRule", Some("@font-face"), Locale::EnUs, &vec![]).unwrap(),
        "<a href=\"/en-US/docs/Web/CSS/@font-face\"><code>@font-face</code></a>"
    );
    assert!(matches!(cell(&d, "relatedAtRule", None, Locale::EnUs, &vec![]), Err(DocError::MustHaveAtRule)));
}

#[test]
fn plain_values() {
    let d = data(vec![("inherited", CssValue::Bool(true)), ("order", CssValue::Number("3".to_string())), ("initial", s("auto"))]);
    let l = l10n(&[("yes", "Yes"), ("dependsOnUserAgent", "depends on the user agent")]);
    assert_eq!(cell(&d, "inherited", None, Locale::EnUs, &l).unwrap(), "Yes");
    assert_eq!(cell(&d, "order", None, Locale::EnUs, &l).unwrap(), "3");
    assert_eq!(cell(&d, "initial", None, Locale::EnUs, &l).unwrap(), "<code>auto</code>");
    assert_eq!(cell(&d, "stacking", None, Locale::EnUs, &l).unwrap(), "");
    let d = data(vec![("initial", s("dependsOnUserAgent"))]);
    assert_eq!(cell(&d, "initial", None, Locale::EnUs, &l).unwrap(), "depends on the user agent");
}

#[test]
fn keywords_and_animation_types_are_translated() {
    let d = data(vec![("computed", s("asSpecified, normal")), ("animationType", s("discrete lpc"))]);
    let l = l10n(&[("asSpecified", "as specified"), ("lpc", "a calc of $1$"), ("length", "length"), ("listSeparator", ", ")]);
    assert_eq!(cell(&d, "computed", None, Locale::EnUs, &l).unwrap(), "as specified, normal");
    assert_eq!(cell(&d, "animationType", None, Locale::EnUs, &l).unwrap(), "discrete, a calc of length");
}

#[test]
fn also_applies_to_is_enumerated() {
    let d = data(vec![
        ("appliesto", s("allElements")),
        (
            "alsoAppliesTo",
            CssValue::Array(vec![
                CssLeaf::Str("::first-letter".to_string()),
                CssLeaf::Str("::placeholder".to_string()),
                CssLeaf::Other,
                CssLeaf::Str("::first-line".to_string()),
                CssLeaf::Str(String::new()),
            ]),
        ),
    ]);
    let l = l10n(&[("applyingToMultiple", "$1$. It also applies to $2$."), ("andInEnumeration", " and ")]);
    assert_eq!(
        cell(&d, "appliesto", None, Locale::EnUs, &l).unwrap(),
        "allElements. It also applies to <X::first-letter> and <X::first-line>."
    );
}

#[test]
fn references_and_longhands_are_looked_up() {
    let margin_top = data(vec![("initial", s("0"))]);
    let lookup = |name: &str| -> Option<CssPropertyData> {
        if name == "margin-top" {
            Some(margin_top.clone())
        } else {
            None
        }
    };
    let l = l10n(&[("asLonghands", "as each of:")]);
    let d = data(vec![("initial", s("'margin-top'"))]);
    let mut out = String::new();
    write_computed_output(&mut out, Locale::EnUs, &d, "initial", None, &l, &files(), &render, &xref, &lookup).unwrap();
    assert_eq!(out, "<code>0</code>");
    let d = data(vec![(
        "initial",
        CssValue::Array(vec![CssLeaf::Str("margin-top".to_string()), CssLeaf::Null, CssLeaf::Str("x".to_string())]),
    )]);
    let mut out = String::new();
    write_computed_output(&mut out, Locale::EnUs, &d, "initial", None, &l, &files(), &render, &xref, &lookup).unwrap();
    assert_eq!(
        out,
        "as each of:<br /><ul><li>{{cssxref(\"margin-top\")}}: <code>0</code></li><li>{{cssxref(\"x\")}}: <span style=\"color:red;\">missing</span></li></ul>"
    );
}

#[test]
fn objects_fall_back_to_english_and_errors_write_nothing() {
    let d = data(vec![(
        "percentages",
        CssValue::Object(vec![("en-US".to_string(), CssLeaf::Str("English".to_string())), ("de".to_string(), CssLeaf::Null)]),
    )]);
    assert_eq!(cell(&d, "percentages", None, Locale::De, &vec![]).unwrap(), "English");
    let d = data(vec![("percentages", CssValue::Object(vec![]))]);
    assert_eq!(cell(&d, "percentages", None, Locale::EnUs, &vec![]).unwrap(), "<span style=\"color:red;\">missing</span>");
    let failing = |t: &str| -> Result<String, DocError> { Err(DocError::InvalidTempl(t.to_string())) };
    let d = data(vec![("computed", s("normal"))]);
    let mut out = String::from("x");
    let r = write_computed_output(&mut out, Locale::EnUs, &d, "computed", None, &vec![], &files(), &failing, &xref, &no_lookup);
    assert!(matches!(r, Err(DocError::InvalidTempl(t)) if t == "normal"));
    assert_eq!(out, "x");
    let mut out = String::new();
    assert!(matches!(write_missing(&mut out, Locale::EnUs, &vec![]), Err(DocError::L10nError(_))));
    write_missing(&mut out, Locale::EnUs, &files()).unwrap();
    assert_eq!(out, "<span style=\"color:red;\">missing</span>");
}

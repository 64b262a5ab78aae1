use rari_doc::css_info::{
    css_info_properties, get_css_l10n_for_locale, CssInfoData, CssInfoRow, PercentagesField,
    css_l10n_for_value_from, is_css_grammar_token, is_css_grammar_value, is_css_numeric_token,
    is_css_type_token, is_unicode_range, remove_me_replace_placeholder, CSS_GRAMMAR_KEYWORDS,
};
use rari_doc::data::L10nError;
use rari_doc::locale::Locale;

#[test]
fn css_grammar_values_are_intentionally_unlocalized() {
    let grammar_values = [
        "\"\"",
        "\"*\"",
        "\"-\"",
        "\". \"",
        "0",
        "0 \"\"",
        "0 1 auto",
        "0%",
        "0% 0%",
        "0px",
        "0px 0px",
        "0s",
        "1",
        "100%",
        "1dppx",
        "1px",
        "2",
        "4",
        "50% 50%",
        "8",
        "?",
        "U+0-10FFFF",
        "anchor-visible",
        "decimal",
        "relative-colorimetric",
        "symbolic",
        "true",
        "upright",
    ];
    let prose_values = ["1 auto word", "see text", "specified <length>"];

    assert_eq!(CSS_GRAMMAR_KEYWORDS.len(), 6);
    assert!(grammar_values.into_iter().all(is_css_grammar_value));
    assert!(is_css_grammar_value("<length>"));
    assert!(prose_values
        .into_iter()
        .all(|value| !is_css_grammar_value(value)));
}

#[test]
fn css_grammar_values_bypass_the_localization_lookup() {
    let value = css_l10n_for_value_from("0", Locale::EnUs, |_, _| {
        Err(L10nError::InvalidKey("unexpected lookup".into()))
    })
    .expect("CSS grammar should not require a localization");

    assert_eq!(value, "0");
}

#[test]
fn missing_prose_localization_is_an_error() {
    let error = css_l10n_for_value_from("see text", Locale::EnUs, |_, _| {
        Err(L10nError::InvalidKey("see text".into()))
    })
    .expect_err("prose must have an en-US localization");

    assert!(error
        .to_string()
        .contains("Missing CSS formal-definition localization"));
}

#[test]
fn duplicate_values_share_one_localization_key() {
    let value = css_l10n_for_value_from("same value", Locale::EnUs, |key, _| {
        assert_eq!(key, "same value");
        Ok("localized value".to_string())
    })
    .expect("one key should resolve repeated source values");

    assert_eq!(value, "localized value");
}

#[test]
fn css_tokens_of_each_kind() {
    assert!(is_css_numeric_token("1.5em"));
    assert!(is_css_numeric_token("-2"));
    assert!(is_css_numeric_token("50%"));
    assert!(!is_css_numeric_token("em"));
    assert!(is_unicode_range("U+0-10FFFF"));
    assert!(!is_unicode_range("U+"));
    assert!(is_css_type_token("<length>"));
    assert!(!is_css_type_token("<>"));
    assert!(is_css_grammar_token("\"*\""));
    assert!(!is_css_grammar_token("word"));
}

#[test]
fn placeholders_are_replaced_in_order() {
    assert_eq!(
        remove_me_replace_placeholder("$1$ and $2$", &["a", "b"]),
        "a and b"
    );
    assert_eq!(remove_me_replace_placeholder("no marks", &["a"]), "no marks");
}

#[test]
fn info_box_rows_by_kind() {
    let d = CssInfoData {
        is_object: true,
        has_inherited: true,
        percentages: PercentagesField::Text("no".to_string()),
        stacking: true,
    };
    let keys: Vec<&str> = css_info_properties(false, &d).iter().map(|r| r.key()).collect();
    assert_eq!(
        keys,
        vec!["initial", "appliesto", "inherited", "computed", "animationType", "stacking"]
    );
    let d2 = CssInfoData {
        is_object: true,
        has_inherited: false,
        percentages: PercentagesField::Text("refer to the width".to_string()),
        stacking: false,
    };
    assert_eq!(
        css_info_properties(true, &d2),
        vec![
            CssInfoRow::RelatedAtRule,
            CssInfoRow::Initial,
            CssInfoRow::Percentages,
            CssInfoRow::Computed
        ]
    );
    let d3 = CssInfoData {
        is_object: false,
        ..d2
    };
    assert!(css_info_properties(false, &d3).is_empty());
}

#[test]
fn info_box_labels_fall_back_to_en_us_then_the_key() {
    let l10n = vec![(
        "appliesTo".to_string(),
        vec![
            ("en-US".to_string(), "Applies to".to_string()),
            ("fr".to_string(), "S'applique à".to_string()),
        ],
    )];
    assert_eq!(get_css_l10n_for_locale("appliesTo", Locale::Fr, &l10n), "S'applique à");
    assert_eq!(get_css_l10n_for_locale("appliesTo", Locale::De, &l10n), "Applies to");
    assert_eq!(get_css_l10n_for_locale("stacking", Locale::De, &l10n), "stacking");
}

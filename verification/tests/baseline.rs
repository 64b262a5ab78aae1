use rari_doc::site::{
    get_baseline_from, get_mocked_baseline_status, is_mocked_banner_section, Baseline,
    BaselineHighLow, BaselineStatus, FeatureStatus, WebFeatures,
};

fn features() -> WebFeatures {
    let b = |id: &str, baseline| Baseline {
        feature_id: id.to_string(),
        baseline,
    };
    WebFeatures {
        by_bcd_key: vec![
            ("api.high".to_string(), b("high-feature", BaselineHighLow::High)),
            ("api.high-adjacent".to_string(), b("high-feature", BaselineHighLow::High)),
            ("api.low".to_string(), b("low-feature", BaselineHighLow::Low)),
            ("api.limited".to_string(), b("limited-feature", BaselineHighLow::False)),
        ],
    }
}

fn get(keys: &[&str]) -> Option<Baseline> {
    let keys: Vec<String> = keys.iter().map(|s| s.to_string()).collect();
    get_baseline_from(&keys, &features()).cloned()
}

#[test]
fn empty() {
    assert!(get(&[]).is_none());
}

#[test]
fn missing() {
    assert!(get(&["api.NonExistent"]).is_none());
}

#[test]
fn single_high() {
    let b = get(&["api.high"]).unwrap();
    assert_eq!(b.baseline, BaselineHighLow::High);
}

#[test]
fn single_low() {
    let b = get(&["api.low"]).unwrap();
    assert_eq!(b.baseline, BaselineHighLow::Low);
}

#[test]
fn single_limited() {
    let b = get(&["api.limited"]).unwrap();
    assert_eq!(b.baseline, BaselineHighLow::False);
}

#[test]
fn multiple_one_missing() {
    assert!(get(&["api.high", "api.NonExistent"]).is_none());
}

#[test]
fn multiple_different_features() {
    assert!(get(&["api.high", "api.low"]).is_none());
}

#[test]
fn multiple_same_feature() {
    let b = get(&["api.high", "api.high-adjacent"]).unwrap();
    assert_eq!(b.baseline, BaselineHighLow::High);
    assert_eq!(b.feature_id, "high-feature");
}

fn mocked(slug: &str) -> Option<BaselineStatus> {
    get_mocked_baseline_status(&[FeatureStatus::Deprecated], slug)
}

#[test]
fn a_deprecated_page_in_a_baseline_section_is_discouraged() {
    for slug in [
        "Web/API/AudioProcessingEvent",
        "WebAssembly/JavaScript_interface/Memory",
    ] {
        assert_eq!(mocked(slug), Some(BaselineStatus::Discouraged), "{slug}");
    }
}

#[test]
fn a_deprecated_page_outside_the_baseline_sections_is_not_mocked() {
    for slug in [
        "Mozilla/Add-ons/WebExtensions/API/tabs",
        "Games/Techniques/3D_on_the_web",
        "Learn_web_development/Core/Scripting",
    ] {
        assert_eq!(mocked(slug), None, "{slug}");
    }
}

#[test]
fn the_excluded_section_is_not_mocked() {
    assert_eq!(
        mocked("Web/Accessibility/ARIA/Reference/Attributes/aria-dropeffect"),
        None
    );
}

#[test]
fn a_page_without_deprecated_status_is_not_mocked() {
    let statuses: [&[FeatureStatus]; 2] = [&[], &[FeatureStatus::Experimental]];
    for status in statuses {
        assert_eq!(
            get_mocked_baseline_status(status, "Web/API/Thing"),
            None,
            "{status:?}"
        );
    }
}

#[test]
fn banner_sections() {
    assert!(is_mocked_banner_section("Web/CSS"));
    assert!(is_mocked_banner_section("WebAssembly/Reference"));
    assert!(!is_mocked_banner_section("Web/Accessibility/ARIA"));
    assert!(!is_mocked_banner_section("Webby/"));
}

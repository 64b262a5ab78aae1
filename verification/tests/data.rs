use rari_doc::data::{
    inheritance, l10n_json_data, web_ext_examples_json, InterfaceData, L10nError,
    WebExtExample, WebExtExamplesData,
};
use rari_doc::locale::Locale;

fn iface(pairs: &[(&str, &str)]) -> Vec<(String, InterfaceData)> {
    pairs
        .iter()
        .map(|(k, v)| (k.to_string(), InterfaceData { inh: v.to_string() }))
        .collect()
}

#[test]
fn interfaces_inherit_up_the_chain() {
    let data = iface(&[
        ("HTMLElement", "Element"),
        ("Element", "Node"),
        ("Node", "EventTarget"),
        ("EventTarget", ""),
    ]);
    assert_eq!(inheritance("HTMLElement", &data), vec!["Element", "Node", "EventTarget"]);
    assert_eq!(inheritance("EventTarget", &data), Vec::<String>::new());
    assert_eq!(inheritance("Unknown", &data), Vec::<String>::new());
}

fn files() -> Vec<(String, Vec<(String, Vec<(String, String)>)>)> {
    vec![(
        "Common".to_string(),
        vec![
            (
                "Constructor".to_string(),
                vec![
                    ("en-US".to_string(), "Constructor".to_string()),
                    ("de".to_string(), "Konstruktor".to_string()),
                ],
            ),
            ("Broken".to_string(), vec![("de".to_string(), "Kaputt".to_string())]),
        ],
    )]
}

#[test]
fn translations_fall_back_to_en_us() {
    let f = files();
    assert_eq!(l10n_json_data("Common", "Constructor", Locale::De, &f), Ok("Konstruktor".to_string()));
    assert_eq!(l10n_json_data("Common", "Constructor", Locale::Fr, &f), Ok("Constructor".to_string()));
    assert_eq!(l10n_json_data("Common", "Broken", Locale::Fr, &f), Err(L10nError::NoEnUs));
    assert_eq!(l10n_json_data("Common", "Broken", Locale::EnUs, &f), Err(L10nError::NoEnUs));
    assert_eq!(
        l10n_json_data("Common", "Missing", Locale::De, &f),
        Err(L10nError::InvalidKey("Missing".to_string()))
    );
    assert_eq!(
        l10n_json_data("Other", "Constructor", Locale::De, &f),
        Err(L10nError::InvalidKey("Constructor".to_string()))
    );
    assert_eq!(L10nError::NoEnUs.to_string(), "EnUS missing in L10n json data");
    assert_eq!(
        L10nError::InvalidKey("k".to_string()).to_string(),
        "Invalid key for L10n json data: k"
    );
}

fn example(name: &str, apis: &[&str]) -> WebExtExample {
    WebExtExample {
        description: String::new(),
        javascript_apis: apis.iter().map(|s| s.to_string()).collect(),
        name: name.to_string(),
    }
}

#[test]
fn examples_are_indexed_by_module_and_api() {
    let examples = vec![
        example("a", &["tabs.query", "tabs.create"]),
        example("b", &["runtime.onMessage", "tabs.query"]),
    ];
    assert_eq!(web_ext_examples_json(&examples).len(), 2);
    let data = WebExtExamplesData::from_examples(&examples);
    let by = |v: &Vec<(String, Vec<usize>)>, k: &str| v.iter().find(|(key, _)| key == k).map(|(_, v)| v.clone());
    assert_eq!(data.by_module.len(), 2);
    assert_eq!(by(&data.by_module, "tabs"), Some(vec![0, 0, 1]));
    assert_eq!(by(&data.by_module, "runtime"), Some(vec![1]));
    assert_eq!(data.by_module_and_api.len(), 3);
    assert_eq!(by(&data.by_module_and_api, "tabs.query"), Some(vec![0, 1]));
    assert_eq!(by(&data.by_module_and_api, "tabs.create"), Some(vec![0]));
}

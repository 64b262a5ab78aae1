use rari_doc::jsref::{get_group, inheritance_data, slug_to_object_name};

#[test]
fn test_slug_to_object_name() {
    assert_eq!(
        slug_to_object_name("Web/JavaScript/Reference/Global_Objects/Intl/supportedValuesOf"),
        "Intl"
    );
    assert_eq!(
        slug_to_object_name("Web/JavaScript/Reference/Global_Objects/Intl/Collator"),
        "Intl.Collator"
    );
    assert_eq!(
        slug_to_object_name(
            "Web/JavaScript/Reference/Global_Objects/Intl/DateTimeFormat/format"
        ),
        "Intl.DateTimeFormat"
    );
    assert_eq!(
        slug_to_object_name("Web/JavaScript/Reference/Global_Objects/Temporal/Now"),
        "Temporal.Now"
    );
    assert_eq!(
        slug_to_object_name(
            "Web/JavaScript/Reference/Global_Objects/Temporal/Now/plainDateISO"
        ),
        "Temporal.Now"
    );
    assert_eq!(
        slug_to_object_name(
            "Web/JavaScript/Reference/Global_Objects/ArrayBuffer/maxByteLength"
        ),
        "ArrayBuffer"
    );
    assert_eq!(
        slug_to_object_name(
            "Web/JavaScript/Reference/Global_Objects/ArrayBuffer/maxByteLength"
        ),
        "ArrayBuffer"
    );
    assert_eq!(
        slug_to_object_name("Web/JavaScript/Reference/Global_Objects/Array"),
        "Array"
    );
    assert_eq!(
        slug_to_object_name("Web/JavaScript/Reference/Global_Objects/Proxy"),
        "Proxy"
    );
    assert_eq!(
        slug_to_object_name("Web/JavaScript/Reference/Global_Objects/Proxy/Proxy"),
        "Proxy"
    );
    assert_eq!(
        slug_to_object_name("Web/JavaScript/Reference/Global_Objects/Proxy/Proxy/get"),
        "Proxy"
    );
    assert_eq!(
        slug_to_object_name(
            "Web/JavaScript/Reference/Global_Objects/Intl/Segmenter/segment/Segments"
        ),
        "Intl.Segmenter"
    );
    assert_eq!(
        slug_to_object_name(
            "Web/JavaScript/Reference/Global_Objects/Intl/Segmenter/segment/Segments/containing"
        ),
        "Intl.Segmenter"
    );
}

#[test]
fn test_group() {
    assert_eq!(
        get_group(
            "EvalError",
            &[
                "EvalError".to_string(),
                inheritance_data("EvalError").unwrap().to_string()
            ],
            &[],
            &[],
        ),
        vec![
            "AggregateError",
            "InternalError",
            "RangeError",
            "ReferenceError",
            "SyntaxError",
            "TypeError",
            "URIError"
        ]
    );
}

#[test]
fn group_of_namespace_classes_and_unknown_objects() {
    let intl = vec!["Intl".to_string(), "Intl.Collator".to_string(), "Intl.Locale".to_string()];
    assert_eq!(
        get_group("Intl.Collator", &["Intl.Collator".to_string()], &intl, &[]),
        vec!["Intl", "Intl.Locale"]
    );
    assert!(get_group("Array", &["Array".to_string()], &intl, &[]).is_empty());
}

#[test]
fn inheritance_of_builtins() {
    assert_eq!(inheritance_data("Int8Array"), Some("TypedArray"));
    assert_eq!(inheritance_data("TypedArray"), None);
    assert_eq!(inheritance_data("GeneratorFunction"), Some("Function"));
    assert_eq!(inheritance_data("Error"), None);
    assert_eq!(inheritance_data("RangeError"), Some("Error"));
}

use ratchjob::namespace_util::DEFAULT_XXL_NAMESPACE;
use ratchjob::registry_util::parse_registry_key;

#[test]
fn test_parse_with_namespace() {
    let result = parse_registry_key("ns://my-ns/my-app");
    assert_eq!(result.namespace.as_str(), "my-ns");
    assert_eq!(result.app_name.as_str(), "my-app");
}

#[test]
fn test_parse_with_namespace_style2() {
    let result = parse_registry_key("my-ns@@my-app");
    assert_eq!(result.namespace.as_str(), "my-ns");
    assert_eq!(result.app_name.as_str(), "my-app");
}

#[test]
fn test_parse_without_namespace() {
    let result = parse_registry_key("my-app");
    assert_eq!(result.namespace.as_str(), DEFAULT_XXL_NAMESPACE);
    assert_eq!(result.app_name.as_str(), "my-app");
}

#[test]
fn test_parse_empty_string() {
    let result = parse_registry_key("");
    assert_eq!(result.namespace.as_str(), DEFAULT_XXL_NAMESPACE);
    assert_eq!(result.app_name.as_str(), "");
}

#[test]
fn test_parse_invalid_format() {
    let result = parse_registry_key("ns://");
    assert_eq!(result.namespace.as_str(), DEFAULT_XXL_NAMESPACE);
    assert_eq!(result.app_name.as_str(), "ns://");
}

#[test]
fn test_parse_missing_slash() {
    let result = parse_registry_key("ns://my-ns");
    assert_eq!(result.namespace.as_str(), DEFAULT_XXL_NAMESPACE);
    assert_eq!(result.app_name.as_str(), "ns://my-ns");
}

#[test]
fn test_parse_empty_namespace() {
    let result = parse_registry_key("ns:///my-app");
    assert_eq!(result.namespace.as_str(), DEFAULT_XXL_NAMESPACE);
    assert_eq!(result.app_name.as_str(), "ns:///my-app");
}

#[test]
fn test_parse_empty_app_name() {
    let result = parse_registry_key("ns://my-ns/");
    assert_eq!(result.namespace.as_str(), DEFAULT_XXL_NAMESPACE);
    assert_eq!(result.app_name.as_str(), "ns://my-ns/");
}

#[test]
fn parse_ns_form_takes_first_slash() {
    let result = parse_registry_key("ns://a/b/c");
    assert_eq!(result.namespace.as_str(), "a");
    assert_eq!(result.app_name.as_str(), "b/c");
}

#[test]
fn parse_at_form_takes_first_separator() {
    let result = parse_registry_key("a@@b@@c");
    assert_eq!(result.namespace.as_str(), "a");
    assert_eq!(result.app_name.as_str(), "b@@c");
}

#[test]
fn parse_ns_form_falls_back_to_at_form() {
    let result = parse_registry_key("ns://x@@y");
    assert_eq!(result.namespace.as_str(), "ns://x");
    assert_eq!(result.app_name.as_str(), "y");
}

#[test]
fn parse_non_ascii_key() {
    let result = parse_registry_key("命名@@应用");
    assert_eq!(result.namespace.as_str(), "命名");
    assert_eq!(result.app_name.as_str(), "应用");
}

use tnuctipun::filters::FilterBuilder;
use tnuctipun::FieldName;

struct Name;
impl FieldName for Name {
    fn field_name() -> &'static str {
        "Name"
    }
}

struct Category;
impl FieldName for Category {
    fn field_name() -> &'static str {
        "Category"
    }
}

struct TestStruct;

#[test]
fn filters_test_field_path_empty_prefix() {
    let builder = FilterBuilder::<TestStruct>::new();
    let path = builder.field_path::<Name>();

    assert_eq!(path, "Name");
}

#[test]
fn filters_test_field_path_single_prefix() {
    let mut builder = FilterBuilder::<TestStruct>::new();

    builder.prefix = vec!["user".to_string()];

    let path = builder.field_path::<Name>();

    assert_eq!(path, "user.Name");
}

#[test]
fn filters_test_field_path_multiple_prefix() {
    let mut builder = FilterBuilder::<TestStruct>::new();

    builder.prefix = vec!["profile".to_string(), "details".to_string()];

    let path = builder.field_path::<Category>();

    assert_eq!(path, "profile.details.Category");
}

#[test]
fn test_field_path_nested_deep() {
    let mut builder = FilterBuilder::<TestStruct>::new();

    builder.prefix = vec![
        "root".to_string(),
        "level1".to_string(),
        "level2".to_string(),
        "level3".to_string(),
    ];

    let path = builder.field_path::<Name>();

    assert_eq!(path, "root.level1.level2.level3.Name");
}

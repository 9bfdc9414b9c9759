use tnuctipun::path::Path;
use tnuctipun::{FieldName, HasField};

struct TestField;
impl FieldName for TestField {
    fn field_name() -> &'static str {
        "test_field"
    }
}

struct NestedField;
impl FieldName for NestedField {
    fn field_name() -> &'static str {
        "nested_field"
    }
}

struct DeepField;
impl FieldName for DeepField {
    fn field_name() -> &'static str {
        "deep_field"
    }
}

struct DeepValue {
    deep_field: String,
}
impl HasField<DeepField> for DeepValue {
    type Value = String;

    fn get_field(&self) -> &Self::Value {
        &self.deep_field
    }
}

struct TestValue {
    nested_field: DeepValue,
}
impl HasField<NestedField> for TestValue {
    type Value = DeepValue;

    fn get_field(&self) -> &Self::Value {
        &self.nested_field
    }
}

struct TestStruct {
    test_field: TestValue,
}
impl HasField<TestField> for TestStruct {
    type Value = TestValue;

    fn get_field(&self) -> &Self::Value {
        &self.test_field
    }
}

#[test]
fn test_path_new() {
    let path = Path::<TestField, TestStruct, TestStruct>::new();

    assert!(path.prefix.is_empty());
}

#[test]
fn test_path_default() {
    let path: Path<TestField, TestStruct, TestStruct> = Default::default();

    assert!(path.prefix.is_empty());
}

#[test]
fn test_path_clone() {
    let mut path = Path::<TestField, TestStruct, TestStruct>::new();

    path.prefix.push("existing".to_string());

    let cloned = path.clone();

    assert_eq!(path.prefix, cloned.prefix);
}

#[test]
fn test_path_field_navigation() {
    let path = Path::<TestField, TestStruct, TestStruct>::new();
    let nested_path = path.field::<NestedField>();

    assert_eq!(nested_path.prefix, vec!["test_field"]);
}

#[test]
fn test_path_deep_navigation() {
    let path = Path::<TestField, TestStruct, TestStruct>::new();
    let nested_path = path.field::<NestedField>();
    let deep_path: Path<DeepField, DeepValue, TestStruct> = nested_path.field::<DeepField>();

    assert_eq!(deep_path.prefix, vec!["test_field", "nested_field"]);
}

#[test]
fn path_field_keeps_existing_prefix() {
    let mut path = Path::<TestField, TestStruct, TestStruct>::new();

    path.prefix.push("root".to_string());

    let nested_path = path.field::<NestedField>();

    assert_eq!(nested_path.prefix, vec!["root", "test_field"]);
    assert_eq!(path.prefix, vec!["root"]);
}

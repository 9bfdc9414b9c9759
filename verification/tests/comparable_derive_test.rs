use tnuctipun::comparable_derive::{
    derive_mongo_comparable, extract_generic_arg, get_compatible_types_for, is_into_iterator_type,
    type_to_string, ComparableImpl, ComparableType, DeriveData, DeriveInput, Field, GenericArgument,
    PathSegment, StructFields, TypeRepr,
};

fn path_of(segments: Vec<PathSegment>) -> TypeRepr {
    TypeRepr::Path {
        segments,
        debug: "Path".to_string(),
    }
}

fn segment(ident: &str, args: Vec<TypeRepr>) -> PathSegment {
    PathSegment {
        ident: ident.to_string(),
        args: args.into_iter().map(GenericArgument::Type).collect(),
    }
}

/// `name`, without arguments.
fn simple(name: &str) -> TypeRepr {
    path_of(vec![segment(name, vec![])])
}

/// `name<args>`.
fn generic(name: &str, args: Vec<TypeRepr>) -> TypeRepr {
    path_of(vec![segment(name, args)])
}

/// `q1::q2::name<args>`.
fn qualified(modules: &[&str], name: &str, args: Vec<TypeRepr>) -> TypeRepr {
    let mut segs: Vec<PathSegment> = modules.iter().map(|m| segment(m, vec![])).collect();
    segs.push(segment(name, args));
    path_of(segs)
}

#[test]
fn test_type_to_string_simple_types() {
    assert_eq!(type_to_string(&simple("String")), "String");
    assert_eq!(type_to_string(&simple("i32")), "i32");
    assert_eq!(type_to_string(&simple("bool")), "bool");
}

#[test]
fn test_type_to_string_generic_types() {
    assert_eq!(type_to_string(&generic("Option", vec![simple("String")])), "Option<String>");
    assert_eq!(type_to_string(&generic("Option", vec![simple("i32")])), "Option<i32>");
    assert_eq!(type_to_string(&generic("Vec", vec![simple("String")])), "Vec<String>");

    let vec_option_string = generic("Vec", vec![generic("Option", vec![simple("String")])]);

    assert_eq!(type_to_string(&vec_option_string), "Vec<Option<String>>");

    let option_vec_i32 = generic("Option", vec![generic("Vec", vec![simple("i32")])]);

    assert_eq!(type_to_string(&option_vec_i32), "Option<Vec<i32>>");
}

#[test]
fn test_type_to_string_multiple_generics() {
    let hashmap = generic("HashMap", vec![simple("String"), simple("i32")]);

    assert_eq!(type_to_string(&hashmap), "HashMap<String, i32>");

    let result = generic("Result", vec![simple("String"), simple("Error")]);

    assert_eq!(type_to_string(&result), "Result<String, Error>");
}

#[test]
fn test_type_to_string_qualified_paths() {
    let chrono_datetime = qualified(&["chrono"], "DateTime", vec![qualified(&["chrono"], "Utc", vec![])]);

    assert_eq!(type_to_string(&chrono_datetime), "DateTime<Utc>");

    let std_vec = qualified(&["std", "vec"], "Vec", vec![simple("String")]);

    assert_eq!(type_to_string(&std_vec), "Vec<String>");
}

#[test]
fn type_to_string_skips_non_type_arguments() {
    let with_lifetime = path_of(vec![PathSegment {
        ident: "Cow".to_string(),
        args: vec![GenericArgument::Other, GenericArgument::Type(simple("str"))],
    }]);

    assert_eq!(type_to_string(&with_lifetime), "Cow<str>");

    let only_lifetime = path_of(vec![PathSegment {
        ident: "Holder".to_string(),
        args: vec![GenericArgument::Other],
    }]);

    assert_eq!(type_to_string(&only_lifetime), "Holder");
}

#[test]
fn type_to_string_of_path_without_segment_is_its_debug_text() {
    let empty = TypeRepr::Path {
        segments: vec![],
        debug: "TypePath { path: [] }".to_string(),
    };

    assert_eq!(type_to_string(&empty), "TypePath { path: [] }");
}

#[test]
fn type_to_string_uses_debug_text_of_other_types() {
    assert_eq!(type_to_string(&TypeRepr::Other("Tuple(..)".to_string())), "Tuple(..)");
}

#[test]
fn test_extract_generic_arg_simple() {
    let option_string = generic("Option", vec![simple("String")]);
    let extracted = extract_generic_arg(&option_string);

    assert!(extracted.is_some());
    assert_eq!(type_to_string(extracted.unwrap()), "String");

    let option_i32 = generic("Option", vec![simple("i32")]);
    let extracted = extract_generic_arg(&option_i32);

    assert!(extracted.is_some());
    assert_eq!(type_to_string(extracted.unwrap()), "i32");

    let vec_string = generic("Vec", vec![simple("String")]);
    let extracted = extract_generic_arg(&vec_string);

    assert!(extracted.is_some());
    assert_eq!(type_to_string(extracted.unwrap()), "String");
}

#[test]
fn test_extract_generic_arg_nested() {
    let vec_option_string = generic("Vec", vec![generic("Option", vec![simple("String")])]);
    let extracted = extract_generic_arg(&vec_option_string);

    assert!(extracted.is_some());
    assert_eq!(type_to_string(extracted.unwrap()), "Option<String>");

    let option_vec_i32 = generic("Option", vec![generic("Vec", vec![simple("i32")])]);
    let extracted = extract_generic_arg(&option_vec_i32);

    assert!(extracted.is_some());
    assert_eq!(type_to_string(extracted.unwrap()), "Vec<i32>");
}

#[test]
fn test_extract_generic_arg_no_generics() {
    assert!(extract_generic_arg(&simple("String")).is_none());
    assert!(extract_generic_arg(&simple("i32")).is_none());
    assert!(extract_generic_arg(&simple("bool")).is_none());
}

#[test]
fn test_extract_generic_arg_multiple_generics() {
    let hashmap = generic("HashMap", vec![simple("String"), simple("i32")]);
    let extracted = extract_generic_arg(&hashmap);

    assert!(extracted.is_some());
    assert_eq!(type_to_string(extracted.unwrap()), "String");

    let result = generic("Result", vec![simple("String"), simple("Error")]);
    let extracted = extract_generic_arg(&result);

    assert!(extracted.is_some());
    assert_eq!(type_to_string(extracted.unwrap()), "String");
}

#[test]
fn test_extract_generic_arg_qualified_paths() {
    let std_vec = qualified(&["std", "vec"], "Vec", vec![simple("String")]);
    let extracted = extract_generic_arg(&std_vec);

    assert!(extracted.is_some());
    assert_eq!(type_to_string(extracted.unwrap()), "String");

    let chrono_datetime = qualified(&["chrono"], "DateTime", vec![qualified(&["chrono"], "Utc", vec![])]);
    let extracted = extract_generic_arg(&chrono_datetime);

    assert!(extracted.is_some());
    assert_eq!(type_to_string(extracted.unwrap()), "Utc");
}

#[test]
fn test_extract_generic_arg_collections() {
    let hashset = generic("HashSet", vec![simple("i32")]);
    let extracted = extract_generic_arg(&hashset);

    assert!(extracted.is_some());
    assert_eq!(type_to_string(extracted.unwrap()), "i32");

    let btreeset = generic("BTreeSet", vec![simple("String")]);
    let extracted = extract_generic_arg(&btreeset);

    assert!(extracted.is_some());
    assert_eq!(type_to_string(extracted.unwrap()), "String");

    let vecdeque = generic("VecDeque", vec![simple("bool")]);
    let extracted = extract_generic_arg(&vecdeque);

    assert!(extracted.is_some());
    assert_eq!(type_to_string(extracted.unwrap()), "bool");
}

#[test]
fn extract_generic_arg_ignores_leading_non_type_argument() {
    let with_lifetime = path_of(vec![PathSegment {
        ident: "Cow".to_string(),
        args: vec![GenericArgument::Other, GenericArgument::Type(simple("str"))],
    }]);

    assert!(extract_generic_arg(&with_lifetime).is_none());
    assert!(extract_generic_arg(&TypeRepr::Other("Tuple(..)".to_string())).is_none());
}

#[test]
fn test_is_into_iterator_type_collections() {
    assert!(is_into_iterator_type("Vec"));
    assert!(is_into_iterator_type("VecDeque"));

    assert!(is_into_iterator_type("HashSet"));
    assert!(is_into_iterator_type("BTreeSet"));

    assert!(is_into_iterator_type("LinkedList"));

    assert!(is_into_iterator_type("BinaryHeap"));

    assert!(is_into_iterator_type("HashMap"));
    assert!(is_into_iterator_type("BTreeMap"));
}

#[test]
fn test_is_into_iterator_type_non_collections() {
    assert!(!is_into_iterator_type("String"));
    assert!(!is_into_iterator_type("i32"));
    assert!(!is_into_iterator_type("i64"));
    assert!(!is_into_iterator_type("f64"));
    assert!(!is_into_iterator_type("bool"));
    assert!(!is_into_iterator_type("char"));

    assert!(!is_into_iterator_type("Option"));

    assert!(!is_into_iterator_type("Result"));

    assert!(!is_into_iterator_type("MyStruct"));
    assert!(!is_into_iterator_type("User"));
    assert!(!is_into_iterator_type("DateTime"));
}

#[test]
fn test_is_into_iterator_type_edge_cases() {
    assert!(!is_into_iterator_type(""));

    assert!(!is_into_iterator_type("Vector"));
    assert!(!is_into_iterator_type("MyVec"));
    assert!(!is_into_iterator_type("VecLike"));
    assert!(!is_into_iterator_type("HashSetLike"));

    assert!(!is_into_iterator_type("vec"));
    assert!(!is_into_iterator_type("hashset"));
    assert!(!is_into_iterator_type("HASHSET"));
}

#[test]
fn test_get_compatible_types_for_numeric_widening() {
    let i32_compatible = get_compatible_types_for("i32");

    assert_eq!(i32_compatible, vec!["i16"]);

    let i64_compatible = get_compatible_types_for("i64");

    assert_eq!(i64_compatible, vec!["i16", "i32"]);

    let f64_compatible = get_compatible_types_for("f64");

    assert_eq!(f64_compatible, vec!["i16", "i32", "i64", "f32"]);
}

#[test]
fn test_get_compatible_types_for_char_string() {
    let char_compatible = get_compatible_types_for("char");

    assert_eq!(char_compatible, vec!["String"]);
}

#[test]
fn test_get_compatible_types_for_datetime() {
    let datetime_compatible = get_compatible_types_for("DateTime");

    assert_eq!(datetime_compatible, vec!["i64"]);
}

#[test]
fn test_get_compatible_types_for_no_compatibility() {
    assert_eq!(get_compatible_types_for("String"), Vec::<String>::new());
    assert_eq!(get_compatible_types_for("bool"), Vec::<String>::new());
    assert_eq!(get_compatible_types_for("Vec"), Vec::<String>::new());
    assert_eq!(get_compatible_types_for("Option"), Vec::<String>::new());
    assert_eq!(get_compatible_types_for("HashMap"), Vec::<String>::new());
    assert_eq!(get_compatible_types_for("MyCustomType"), Vec::<String>::new());
}

#[test]
fn test_get_compatible_types_for_smaller_types() {
    assert_eq!(get_compatible_types_for("i16"), Vec::<String>::new());
    assert_eq!(get_compatible_types_for("f32"), Vec::<String>::new());
}

#[test]
fn test_get_compatible_types_for_edge_cases() {
    assert_eq!(get_compatible_types_for(""), Vec::<String>::new());
    assert_eq!(get_compatible_types_for("unknown"), Vec::<String>::new());

    assert_eq!(get_compatible_types_for("I32"), Vec::<String>::new());
    assert_eq!(get_compatible_types_for("datetime"), Vec::<String>::new());
    assert_eq!(get_compatible_types_for("CHAR"), Vec::<String>::new());
}

fn named_struct(types: Vec<TypeRepr>) -> DeriveInput {
    let fields = types
        .into_iter()
        .enumerate()
        .map(|(i, ty)| Field { ident: Some(format!("f{}", i)), ty })
        .collect();

    DeriveInput {
        ident: "Sample".to_string(),
        data: DeriveData::Struct(StructFields::Named(fields)),
    }
}

fn comparison(field: usize, other: ComparableType) -> ComparableImpl {
    ComparableImpl { field, other }
}

#[test]
fn derive_lists_own_type_and_widening_rules() {
    let input = named_struct(vec![simple("String"), simple("i64"), simple("f64")]);

    assert_eq!(
        derive_mongo_comparable(&input).comparable,
        vec![
            comparison(0, ComparableType::FieldType),
            comparison(1, ComparableType::FieldType),
            comparison(1, ComparableType::Named("i16".to_string())),
            comparison(1, ComparableType::Named("i32".to_string())),
            comparison(2, ComparableType::FieldType),
            comparison(2, ComparableType::Named("i16".to_string())),
            comparison(2, ComparableType::Named("i32".to_string())),
            comparison(2, ComparableType::Named("i64".to_string())),
            comparison(2, ComparableType::Named("f32".to_string())),
        ]
    );
}

#[test]
fn derive_lists_option_and_collection_comparisons() {
    let input = named_struct(vec![
        generic("Option", vec![simple("i32")]),
        generic("Vec", vec![simple("String")]),
        generic("Option", vec![qualified(&["chrono"], "DateTime", vec![simple("Utc")])]),
    ]);

    assert_eq!(
        derive_mongo_comparable(&input).comparable,
        vec![
            comparison(0, ComparableType::FieldType),
            comparison(0, ComparableType::TypeArgument),
            comparison(0, ComparableType::OptionOfNamed("i16".to_string())),
            comparison(1, ComparableType::FieldType),
            comparison(1, ComparableType::TypeArgument),
            comparison(2, ComparableType::FieldType),
            comparison(2, ComparableType::TypeArgument),
            comparison(2, ComparableType::OptionOfNamed("i64".to_string())),
        ]
    );
}

#[test]
fn derive_lists_datetime_rule_and_skips_repeated_pairs() {
    let datetime = || qualified(&["chrono"], "DateTime", vec![qualified(&["chrono"], "Utc", vec![])]);
    let input = named_struct(vec![
        simple("i32"),
        datetime(),
        simple("i32"),
        simple("char"),
        datetime(),
    ]);

    assert_eq!(
        derive_mongo_comparable(&input).comparable,
        vec![
            comparison(0, ComparableType::FieldType),
            comparison(0, ComparableType::Named("i16".to_string())),
            comparison(1, ComparableType::FieldType),
            comparison(1, ComparableType::Named("i64".to_string())),
            comparison(3, ComparableType::FieldType),
            comparison(3, ComparableType::Named("String".to_string())),
        ]
    );
}

#[test]
fn derive_of_struct_without_fields_lists_nothing() {
    let derived = derive_mongo_comparable(&named_struct(vec![]));

    assert!(derived.comparable.is_empty());
    assert!(derived.ordered.is_empty());
}

#[test]
fn derive_orders_numeric_and_temporal_fields_only() {
    let datetime = qualified(&["chrono"], "DateTime", vec![qualified(&["chrono"], "Utc", vec![])]);
    let input = named_struct(vec![
        simple("String"),
        simple("i32"),
        simple("f64"),
        simple("char"),
        generic("Option", vec![simple("i32")]),
        datetime,
        simple("i32"),
    ]);

    assert_eq!(
        derive_mongo_comparable(&input).ordered,
        vec![
            comparison(1, ComparableType::FieldType),
            comparison(1, ComparableType::Named("i16".to_string())),
            comparison(2, ComparableType::FieldType),
            comparison(2, ComparableType::Named("i16".to_string())),
            comparison(2, ComparableType::Named("i32".to_string())),
            comparison(2, ComparableType::Named("i64".to_string())),
            comparison(2, ComparableType::Named("f32".to_string())),
            comparison(5, ComparableType::FieldType),
            comparison(5, ComparableType::Named("i64".to_string())),
        ]
    );
}

#[test]
fn test_mongo_ordered_numeric_and_temporal_types() {
    let primitive = named_struct(vec![
        simple("String"),
        simple("bool"),
        simple("i32"),
        simple("i64"),
        simple("f64"),
        simple("char"),
        generic("Option", vec![simple("String")]),
    ]);
    let ordered = derive_mongo_comparable(&primitive).ordered;

    assert!(ordered.contains(&comparison(4, ComparableType::Named("i32".to_string()))));
    assert!(ordered.contains(&comparison(2, ComparableType::FieldType)));

    let temporal = named_struct(vec![qualified(&["chrono"], "DateTime", vec![qualified(&["chrono"], "Utc", vec![])])]);
    let ordered = derive_mongo_comparable(&temporal).ordered;

    assert!(ordered.contains(&comparison(0, ComparableType::Named("i64".to_string()))));
}

#[test]
fn test_collection_types() {
    let input = named_struct(vec![
        simple("String"),
        generic("Vec", vec![simple("String")]),
        generic("HashSet", vec![simple("String")]),
        generic("BTreeSet", vec![simple("i32")]),
    ]);
    let comparable = derive_mongo_comparable(&input).comparable;

    assert!(comparable.contains(&comparison(1, ComparableType::TypeArgument)));
    assert!(comparable.contains(&comparison(2, ComparableType::TypeArgument)));
    assert!(comparable.contains(&comparison(3, ComparableType::TypeArgument)));
}

#[test]
fn test_primitive_types() {
    let input = named_struct(vec![
        simple("String"),
        simple("bool"),
        simple("i32"),
        simple("i64"),
        simple("f64"),
        simple("char"),
        generic("Option", vec![simple("String")]),
    ]);
    let comparable = derive_mongo_comparable(&input).comparable;

    for field in 0..6 {
        assert!(comparable.contains(&comparison(field, ComparableType::FieldType)));
    }

    assert!(comparable.contains(&comparison(6, ComparableType::TypeArgument)));
}

use bson::{Bson, Document};
use tnuctipun::field_filters::FieldFilterBuilder;
use tnuctipun::{FieldName, HasField, MongoComparable, MongoOrdered};

fn doc(entries: Vec<(&str, Bson)>) -> Document {
    let mut d = Document::new();
    for (k, v) in entries {
        d.insert(k, v);
    }
    d
}

fn sub(entries: Vec<(&str, Bson)>) -> Bson {
    Bson::Document(doc(entries))
}

fn s(text: &str) -> Bson {
    Bson::String(text.to_string())
}

fn strings(texts: &[&str]) -> Bson {
    Bson::Array(texts.iter().map(|t| s(t)).collect())
}

#[allow(dead_code)]
pub struct Product {
    pub id: String,
    pub name: String,
    pub price: f64,
    pub stock: i32,
    pub categories: Vec<String>,
    pub brand: String,
}

pub struct ProductId;
impl FieldName for ProductId {
    fn field_name() -> &'static str {
        "id"
    }
}
impl HasField<ProductId> for Product {
    type Value = String;

    fn get_field(&self) -> &Self::Value {
        &self.id
    }
}

pub struct ProductName;
impl FieldName for ProductName {
    fn field_name() -> &'static str {
        "name"
    }
}
impl HasField<ProductName> for Product {
    type Value = String;

    fn get_field(&self) -> &Self::Value {
        &self.name
    }
}

pub struct ProductPrice;
impl FieldName for ProductPrice {
    fn field_name() -> &'static str {
        "price"
    }
}
impl HasField<ProductPrice> for Product {
    type Value = f64;

    fn get_field(&self) -> &Self::Value {
        &self.price
    }
}

pub struct ProductStock;
impl FieldName for ProductStock {
    fn field_name() -> &'static str {
        "stock"
    }
}
impl HasField<ProductStock> for Product {
    type Value = i32;

    fn get_field(&self) -> &Self::Value {
        &self.stock
    }
}

pub struct ProductCategories;
impl FieldName for ProductCategories {
    fn field_name() -> &'static str {
        "categories"
    }
}
impl HasField<ProductCategories> for Product {
    type Value = Vec<String>;

    fn get_field(&self) -> &Self::Value {
        &self.categories
    }
}

pub struct ProductBrand;
impl FieldName for ProductBrand {
    fn field_name() -> &'static str {
        "brand"
    }
}
impl HasField<ProductBrand> for Product {
    type Value = String;

    fn get_field(&self) -> &Self::Value {
        &self.brand
    }
}
impl MongoComparable<String, String> for Product {}
impl MongoComparable<f64, f64> for Product {}
impl MongoComparable<f64, i16> for Product {}
impl MongoComparable<f64, i32> for Product {}
impl MongoComparable<f64, i64> for Product {}
impl MongoComparable<f64, f32> for Product {}
impl MongoComparable<i32, i32> for Product {}
impl MongoComparable<i32, i16> for Product {}
impl MongoComparable<Vec<String>, Vec<String>> for Product {}
impl MongoComparable<Vec<String>, String> for Product {}
impl MongoOrdered<f64, f64> for Product {}
impl MongoOrdered<f64, i16> for Product {}
impl MongoOrdered<f64, i32> for Product {}
impl MongoOrdered<f64, i64> for Product {}
impl MongoOrdered<f64, f32> for Product {}
impl MongoOrdered<i32, i32> for Product {}
impl MongoOrdered<i32, i16> for Product {}

#[test]
fn build_returns_empty_document_without_operations() {
    let result = FieldFilterBuilder::<ProductPrice, Product>::new().build();

    assert_eq!(result.to_bson(), Document::new());
}

#[test]
fn build_eq_operation() {
    let result = FieldFilterBuilder::<ProductName, Product>::new()
        .eq("Laptop".to_string())
        .build();

    assert_eq!(result.to_bson(), doc(vec![("name", sub(vec![("$eq", s("Laptop"))]))]));
}

#[test]
fn build_gt_operation() {
    let result = FieldFilterBuilder::<ProductPrice, Product>::new().gt(100.0).build();

    assert_eq!(result.to_bson(), doc(vec![("price", sub(vec![("$gt", Bson::Double(100.0))]))]));
}

#[test]
fn build_gte_operation() {
    let result = FieldFilterBuilder::<ProductStock, Product>::new().gte(5).build();

    assert_eq!(result.to_bson(), doc(vec![("stock", sub(vec![("$gte", Bson::Int32(5))]))]));
}

#[test]
fn build_lt_operation() {
    let result = FieldFilterBuilder::<ProductPrice, Product>::new().lt(300.0).build();

    assert_eq!(result.to_bson(), doc(vec![("price", sub(vec![("$lt", Bson::Double(300.0))]))]));
}

#[test]
fn build_lte_operation() {
    let result = FieldFilterBuilder::<ProductStock, Product>::new().lte(10).build();

    assert_eq!(result.to_bson(), doc(vec![("stock", sub(vec![("$lte", Bson::Int32(10))]))]));
}

#[test]
fn build_in_operation() {
    let values = vec!["Electronics".to_string(), "Computers".to_string()];
    let result = FieldFilterBuilder::<ProductCategories, Product>::new()
        .in_(values.clone())
        .build();

    assert_eq!(
        result.to_bson(),
        doc(vec![("categories", sub(vec![("$in", strings(&["Electronics", "Computers"]))]))])
    );
}

#[test]
fn build_nin_operation() {
    let values = vec!["Discontinued".to_string(), "Archived".to_string()];
    let result = FieldFilterBuilder::<ProductBrand, Product>::new()
        .nin(values.clone())
        .build();

    assert_eq!(
        result.to_bson(),
        doc(vec![("brand", sub(vec![("$nin", strings(&["Discontinued", "Archived"]))]))])
    );
}

#[test]
fn build_exists_operation() {
    let result = FieldFilterBuilder::<ProductBrand, Product>::new().exists_(true).build();

    assert_eq!(result.to_bson(), doc(vec![("brand", sub(vec![("$exists", Bson::Boolean(true))]))]));
}

#[test]
fn build_combined_operations_for_same_field() {
    let result = FieldFilterBuilder::<ProductPrice, Product>::new()
        .gt(50.0)
        .lte(200.0)
        .build();

    assert_eq!(
        result.to_bson(),
        doc(vec![("price", sub(vec![("$gt", Bson::Double(50.0)), ("$lte", Bson::Double(200.0))]))])
    );
}

#[test]
fn build_repeated_operation_keeps_last_value_in_first_place() {
    let result = FieldFilterBuilder::<ProductPrice, Product>::new()
        .gt(10.0)
        .lt(90.0)
        .gt(20.0)
        .build();
    let built = result.to_bson();
    let inner = built.get_document("price").unwrap();
    let keys: Vec<&String> = inner.keys().collect();

    assert_eq!(keys, vec!["$gt", "$lt"]);
    assert_eq!(inner.get("$gt"), Some(&Bson::Double(20.0)));
    assert_eq!(inner.get("$lt"), Some(&Bson::Double(90.0)));
}

#[test]
fn default_builder_has_no_operation() {
    let builder: FieldFilterBuilder<ProductName, Product> = Default::default();

    assert_eq!(builder.build().to_bson(), Document::new());
}

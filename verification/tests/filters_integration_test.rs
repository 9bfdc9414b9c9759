use bson::{Bson, Document};
use tnuctipun::filters::empty;
use tnuctipun::{FieldName, HasField, MongoComparable, MongoOrdered};

fn doc(entries: Vec<(&str, Bson)>) -> Document {
    let mut d = Document::new();
    for (k, v) in entries {
        d.insert(k, v);
    }
    d
}

fn sub(entries: Vec<(&str, Bson)>) -> Bson {
    Bson::Document(doc(entries))
}

fn s(text: &str) -> Bson {
    Bson::String(text.to_string())
}

fn strings(texts: &[&str]) -> Bson {
    Bson::Array(texts.iter().map(|t| s(t)).collect())
}

#[allow(dead_code)]
pub struct Product {
    pub id: String,
    pub name: String,
    pub price: f64,
    pub stock: i32,
    pub categories: Vec<String>,
    pub brand: String,
}

pub struct ProductId;
impl FieldName for ProductId {
    fn field_name() -> &'static str {
        "id"
    }
}
impl HasField<ProductId> for Product {
    type Value = String;

    fn get_field(&self) -> &Self::Value {
        &self.id
    }
}

pub struct ProductName;
impl FieldName for ProductName {
    fn field_name() -> &'static str {
        "name"
    }
}
impl HasField<ProductName> for Product {
    type Value = String;

    fn get_field(&self) -> &Self::Value {
        &self.name
    }
}

pub struct ProductPrice;
impl FieldName for ProductPrice {
    fn field_name() -> &'static str {
        "price"
    }
}
impl HasField<ProductPrice> for Product {
    type Value = f64;

    fn get_field(&self) -> &Self::Value {
        &self.price
    }
}

pub struct ProductStock;
impl FieldName for ProductStock {
    fn field_name() -> &'static str {
        "stock"
    }
}
impl HasField<ProductStock> for Product {
    type Value = i32;

    fn get_field(&self) -> &Self::Value {
        &self.stock
    }
}

pub struct ProductCategories;
impl FieldName for ProductCategories {
    fn field_name() -> &'static str {
        "categories"
    }
}
impl HasField<ProductCategories> for Product {
    type Value = Vec<String>;

    fn get_field(&self) -> &Self::Value {
        &self.categories
    }
}

pub struct ProductBrand;
impl FieldName for ProductBrand {
    fn field_name() -> &'static str {
        "brand"
    }
}
impl HasField<ProductBrand> for Product {
    type Value = String;

    fn get_field(&self) -> &Self::Value {
        &self.brand
    }
}
impl MongoComparable<String, String> for Product {}
impl MongoComparable<f64, f64> for Product {}
impl MongoComparable<f64, i16> for Product {}
impl MongoComparable<f64, i32> for Product {}
impl MongoComparable<f64, i64> for Product {}
impl MongoComparable<f64, f32> for Product {}
impl MongoComparable<i32, i32> for Product {}
impl MongoComparable<i32, i16> for Product {}
impl MongoComparable<Vec<String>, Vec<String>> for Product {}
impl MongoComparable<Vec<String>, String> for Product {}
impl MongoOrdered<f64, f64> for Product {}
impl MongoOrdered<f64, i16> for Product {}
impl MongoOrdered<f64, i32> for Product {}
impl MongoOrdered<f64, i64> for Product {}
impl MongoOrdered<f64, f32> for Product {}
impl MongoOrdered<i32, i32> for Product {}
impl MongoOrdered<i32, i16> for Product {}

#[test]
fn test_comprehensive_filter_chain() {
    let result = empty::<Product>()
        .eq::<ProductName, _>("Gaming Laptop".to_string())
        .gt::<ProductPrice, _>(500.0)
        .lt::<ProductPrice, _>(2000.0)
        .gte::<ProductStock, _>(1)
        .in_::<ProductCategories, _>(vec!["Electronics".to_string(), "Computers".to_string()])
        .and();

    let expected = doc(vec![(
        "$and",
        Bson::Array(vec![
            sub(vec![("name", s("Gaming Laptop"))]),
            sub(vec![("price", sub(vec![("$gt", Bson::Double(500.0))]))]),
            sub(vec![("price", sub(vec![("$lt", Bson::Double(2000.0))]))]),
            sub(vec![("stock", sub(vec![("$gte", Bson::Int32(1))]))]),
            sub(vec![("categories", sub(vec![("$in", strings(&["Electronics", "Computers"]))]))]),
        ]),
    )]);

    assert_eq!(result.to_bson(), expected);
}

#[test]
fn test_product_availability_filter() {
    let result = empty::<Product>()
        .gt::<ProductStock, _>(0)
        .gte::<ProductPrice, _>(10.0)
        .lte::<ProductPrice, _>(500.0)
        .in_::<ProductCategories, _>(vec![
            "Electronics".to_string(),
            "Books".to_string(),
            "Home".to_string(),
        ])
        .and();

    let expected = doc(vec![(
        "$and",
        Bson::Array(vec![
            sub(vec![("stock", sub(vec![("$gt", Bson::Int32(0))]))]),
            sub(vec![("price", sub(vec![("$gte", Bson::Double(10.0))]))]),
            sub(vec![("price", sub(vec![("$lte", Bson::Double(500.0))]))]),
            sub(vec![("categories", sub(vec![("$in", strings(&["Electronics", "Books", "Home"]))]))]),
        ]),
    )]);

    assert_eq!(result.to_bson(), expected);
}

use bson::{Bson, Document};
use tnuctipun::expr;
use tnuctipun::{FieldName, HasField, MongoComparable, MongoOrdered};

fn doc(entries: Vec<(&str, Bson)>) -> Document {
    let mut d = Document::new();
    for (k, v) in entries {
        d.insert(k, v);
    }
    d
}

fn sub(entries: Vec<(&str, Bson)>) -> Bson {
    Bson::Document(doc(entries))
}

fn s(text: &str) -> Bson {
    Bson::String(text.to_string())
}

fn strings(texts: &[&str]) -> Bson {
    Bson::Array(texts.iter().map(|t| s(t)).collect())
}

#[allow(dead_code)]
pub struct ExprUser {
    pub name: String,
    pub age: i32,
    pub score: i32,
}

#[allow(dead_code)]
pub struct ExprAddress {
    pub city: String,
}

#[allow(dead_code)]
pub struct ExprUserWithAddress {
    pub name: String,
    pub address: ExprAddress,
}

pub struct ExprUserName;
impl FieldName for ExprUserName {
    fn field_name() -> &'static str {
        "name"
    }
}
impl HasField<ExprUserName> for ExprUser {
    type Value = String;

    fn get_field(&self) -> &Self::Value {
        &self.name
    }
}

pub struct ExprUserAge;
impl FieldName for ExprUserAge {
    fn field_name() -> &'static str {
        "age"
    }
}
impl HasField<ExprUserAge> for ExprUser {
    type Value = i32;

    fn get_field(&self) -> &Self::Value {
        &self.age
    }
}

pub struct ExprUserScore;
impl FieldName for ExprUserScore {
    fn field_name() -> &'static str {
        "score"
    }
}
impl HasField<ExprUserScore> for ExprUser {
    type Value = i32;

    fn get_field(&self) -> &Self::Value {
        &self.score
    }
}

pub struct ExprAddressCity;
impl FieldName for ExprAddressCity {
    fn field_name() -> &'static str {
        "city"
    }
}
impl HasField<ExprAddressCity> for ExprAddress {
    type Value = String;

    fn get_field(&self) -> &Self::Value {
        &self.city
    }
}

pub struct ExprUserWithAddressName;
impl FieldName for ExprUserWithAddressName {
    fn field_name() -> &'static str {
        "name"
    }
}
impl HasField<ExprUserWithAddressName> for ExprUserWithAddress {
    type Value = String;

    fn get_field(&self) -> &Self::Value {
        &self.name
    }
}

pub struct ExprUserWithAddressAddress;
impl FieldName for ExprUserWithAddressAddress {
    fn field_name() -> &'static str {
        "address"
    }
}
impl HasField<ExprUserWithAddressAddress> for ExprUserWithAddress {
    type Value = ExprAddress;

    fn get_field(&self) -> &Self::Value {
        &self.address
    }
}
impl MongoComparable<String, String> for ExprUser {}
impl MongoComparable<i32, i32> for ExprUser {}
impl MongoComparable<i32, i16> for ExprUser {}
impl MongoOrdered<i32, i32> for ExprUser {}
impl MongoOrdered<i32, i16> for ExprUser {}

fn refs(names: &[&str]) -> Vec<Bson> {
    names.iter().map(|n| s(n)).collect()
}

#[test]
fn select_and_literal_builds_expected_bson() {
    let b = expr::empty::<ExprUser>();
    let age = b.select::<ExprUserAge>();
    let lit = b.from(21);

    assert_eq!(age.as_bson(), Bson::String("$age".to_string()));
    assert_eq!(age.into_bson(), Bson::from("$age"));
    assert_eq!(lit.into_bson(), Bson::from(21));
}

#[test]
fn arithmetic_operator_builds_expected_document() {
    let b = expr::empty::<ExprUser>();
    let expr = b.add(b.select::<ExprUserAge>(), vec![b.select::<ExprUserScore>()]);

    assert_eq!(expr.into_bson(), sub(vec![("$add", Bson::Array(refs(&["$age", "$score"])))]));
}

#[test]
fn conditional_operator_builds_expected_document() {
    let b = expr::empty::<ExprUser>();
    let is_adult = b.gte(b.select::<ExprUserAge>(), b.from(18));
    let label = b.cond(is_adult, b.from("adult".to_string()), b.from("minor".to_string()));

    assert_eq!(
        label.into_bson(),
        sub(vec![(
            "$cond",
            sub(vec![
                ("if", sub(vec![("$gte", Bson::Array(vec![s("$age"), Bson::Int32(18)]))])),
                ("then", s("adult")),
                ("else", s("minor")),
            ]),
        )])
    );
}

#[test]
fn comparison_and_boolean_operators_build_expected_documents() {
    let b = expr::empty::<ExprUser>();

    let eq = b.eq(b.select::<ExprUserAge>(), b.from(18));
    let ne = b.ne(b.select::<ExprUserName>(), b.from("john".to_string()));
    let lt = b.lt(b.select::<ExprUserScore>(), b.from(100));
    let lte = b.lte(b.select::<ExprUserScore>(), b.from(200));
    let and = b.and(
        b.gt(b.select::<ExprUserAge>(), b.from(18)),
        vec![b.gte(b.select::<ExprUserScore>(), b.from(100))],
    );
    let or = b.or(
        b.lt(b.select::<ExprUserAge>(), b.from(18)),
        vec![b.gte(b.select::<ExprUserScore>(), b.from(100))],
    );
    let not = b.not(b.eq(b.select::<ExprUserName>(), b.from("anonymous".to_string())));

    let pair = |op: &str, field: &str, value: Bson| sub(vec![(op, Bson::Array(vec![s(field), value]))]);

    assert_eq!(eq.into_bson(), pair("$eq", "$age", Bson::Int32(18)));
    assert_eq!(ne.into_bson(), pair("$ne", "$name", s("john")));
    assert_eq!(lt.into_bson(), pair("$lt", "$score", Bson::Int32(100)));
    assert_eq!(lte.into_bson(), pair("$lte", "$score", Bson::Int32(200)));
    assert_eq!(
        and.into_bson(),
        sub(vec![(
            "$and",
            Bson::Array(vec![pair("$gt", "$age", Bson::Int32(18)), pair("$gte", "$score", Bson::Int32(100))]),
        )])
    );
    assert_eq!(
        or.into_bson(),
        sub(vec![(
            "$or",
            Bson::Array(vec![pair("$lt", "$age", Bson::Int32(18)), pair("$gte", "$score", Bson::Int32(100))]),
        )])
    );
    assert_eq!(not.into_bson(), sub(vec![("$not", pair("$eq", "$name", s("anonymous")))]));
}

#[test]
fn arithmetic_and_string_operators_build_expected_documents() {
    let b = expr::empty::<ExprUser>();

    let subtract = b.subtract(b.select::<ExprUserScore>(), b.from(5));
    let multiply = b.multiply(b.select::<ExprUserAge>(), vec![b.select::<ExprUserScore>()]);
    let divide = b.divide(b.select::<ExprUserScore>(), b.from(2));
    let modulo = b.modulo(b.select::<ExprUserScore>(), b.from(2));
    let if_null = b.if_null(b.select::<ExprUserName>(), b.from("unknown".to_string()));
    let concat = b.concat(b.select::<ExprUserName>(), vec![b.from("!".to_string())]);
    let upper = b.to_upper(b.select::<ExprUserName>());
    let lower = b.to_lower(b.select::<ExprUserName>());

    let pair = |op: &str, first: Bson, second: Bson| sub(vec![(op, Bson::Array(vec![first, second]))]);

    assert_eq!(subtract.into_bson(), pair("$subtract", s("$score"), Bson::Int32(5)));
    assert_eq!(multiply.into_bson(), pair("$multiply", s("$age"), s("$score")));
    assert_eq!(divide.into_bson(), pair("$divide", s("$score"), Bson::Int32(2)));
    assert_eq!(modulo.into_bson(), pair("$mod", s("$score"), Bson::Int32(2)));
    assert_eq!(if_null.into_bson(), pair("$ifNull", s("$name"), s("unknown")));
    assert_eq!(concat.into_bson(), pair("$concat", s("$name"), s("!")));
    assert_eq!(upper.into_bson(), sub(vec![("$toUpper", s("$name"))]));
    assert_eq!(lower.into_bson(), sub(vec![("$toLower", s("$name"))]));
}

#[test]
fn raw_widen_and_nested_builder_operators_build_expected_documents() {
    let b = expr::empty::<ExprUser>();
    let raw = b.unsafe_expr::<i32>(sub(vec![("$literal", Bson::Int32(7))]));
    let widened = b.from(7_i32).widen::<i64>();

    assert_eq!(raw.into_bson(), sub(vec![("$literal", Bson::Int32(7))]));
    assert_eq!(widened.into_bson(), Bson::from(7));

    let nested = expr::empty::<ExprUserWithAddress>()
        .with_lookup::<ExprUserWithAddressAddress, _, ExprAddressCity, ExprAddress>(|path| {
            path.field::<ExprAddressCity>()
        })
        .select::<ExprAddressCity>();

    assert_eq!(nested.into_bson(), Bson::from("$address.city"));

    let with_field_identity = expr::empty::<ExprUserWithAddress>()
        .with_field::<ExprUserWithAddressAddress>()
        .select::<ExprUserWithAddressName>();

    assert_eq!(with_field_identity.into_bson(), Bson::from("$name"));
}

#[test]
fn nary_operator_with_single_operand_keeps_array() {
    let b = expr::empty::<ExprUser>();
    let sum = b.add(b.select::<ExprUserScore>(), vec![]);
    let all = b.and(
        b.eq(b.select::<ExprUserAge>(), b.from(1)),
        vec![
            b.eq(b.select::<ExprUserAge>(), b.from(2)),
            b.eq(b.select::<ExprUserAge>(), b.from(3)),
        ],
    );

    assert_eq!(sum.into_bson(), sub(vec![("$add", Bson::Array(refs(&["$score"])))]));

    let eq = |n: i32| sub(vec![("$eq", Bson::Array(vec![s("$age"), Bson::Int32(n)]))]);

    assert_eq!(all.into_bson(), sub(vec![("$and", Bson::Array(vec![eq(1), eq(2), eq(3)]))]));
}

#[test]
fn cloned_expression_has_same_encoding() {
    let b = expr::empty::<ExprUser>();
    let e = b.to_upper(b.select::<ExprUserName>());
    let c = e.clone();

    assert_eq!(c.into_bson(), e.into_bson());
}

#[test]
fn default_builder_selects_without_prefix() {
    let b: expr::ExprBuilder<ExprUser> = Default::default();

    assert_eq!(b.select::<ExprUserScore>().into_bson(), Bson::from("$score"));

    let unused: Document = Document::new();

    assert!(unused.is_empty());
}

#[test]
fn expression_converts_into_bson() {
    let b = expr::empty::<ExprUser>();
    let e = b.to_lower(b.select::<ExprUserName>());

    assert_eq!(Bson::from(e), sub(vec![("$toLower", s("$name"))]));
}

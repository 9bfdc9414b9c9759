use bson::{Bson, Document};
use tnuctipun::updates::{empty, CurrentDateType, PopStrategy, UpdateOperation};
use tnuctipun::{FieldName, HasField};

fn doc(entries: Vec<(&str, Bson)>) -> Document {
    let mut d = Document::new();
    for (k, v) in entries {
        d.insert(k, v);
    }
    d
}

fn sub(entries: Vec<(&str, Bson)>) -> Bson {
    Bson::Document(doc(entries))
}

fn s(text: &str) -> Bson {
    Bson::String(text.to_string())
}

fn strings(texts: &[&str]) -> Bson {
    Bson::Array(texts.iter().map(|t| s(t)).collect())
}

#[allow(dead_code)]
pub struct Profile {
    pub name: String,
    pub age: i32,
    pub email: String,
    pub score: f64,
    pub tags: Vec<String>,
    pub visits: Vec<i32>,
    pub updated_at: i64,
    pub home_address: Address,
}

pub struct ProfileName;
impl FieldName for ProfileName {
    fn field_name() -> &'static str {
        "name"
    }
}
impl HasField<ProfileName> for Profile {
    type Value = String;

    fn get_field(&self) -> &Self::Value {
        &self.name
    }
}

pub struct ProfileAge;
impl FieldName for ProfileAge {
    fn field_name() -> &'static str {
        "age"
    }
}
impl HasField<ProfileAge> for Profile {
    type Value = i32;

    fn get_field(&self) -> &Self::Value {
        &self.age
    }
}

pub struct ProfileEmail;
impl FieldName for ProfileEmail {
    fn field_name() -> &'static str {
        "email"
    }
}
impl HasField<ProfileEmail> for Profile {
    type Value = String;

    fn get_field(&self) -> &Self::Value {
        &self.email
    }
}

pub struct ProfileScore;
impl FieldName for ProfileScore {
    fn field_name() -> &'static str {
        "score"
    }
}
impl HasField<ProfileScore> for Profile {
    type Value = f64;

    fn get_field(&self) -> &Self::Value {
        &self.score
    }
}

pub struct ProfileTags;
impl FieldName for ProfileTags {
    fn field_name() -> &'static str {
        "tags"
    }
}
impl HasField<ProfileTags> for Profile {
    type Value = Vec<String>;

    fn get_field(&self) -> &Self::Value {
        &self.tags
    }
}

pub struct ProfileVisits;
impl FieldName for ProfileVisits {
    fn field_name() -> &'static str {
        "visits"
    }
}
impl HasField<ProfileVisits> for Profile {
    type Value = Vec<i32>;

    fn get_field(&self) -> &Self::Value {
        &self.visits
    }
}

pub struct ProfileUpdatedAt;
impl FieldName for ProfileUpdatedAt {
    fn field_name() -> &'static str {
        "updated_at"
    }
}
impl HasField<ProfileUpdatedAt> for Profile {
    type Value = i64;

    fn get_field(&self) -> &Self::Value {
        &self.updated_at
    }
}

pub struct ProfileHomeAddress;
impl FieldName for ProfileHomeAddress {
    fn field_name() -> &'static str {
        "home_address"
    }
}
impl HasField<ProfileHomeAddress> for Profile {
    type Value = Address;

    fn get_field(&self) -> &Self::Value {
        &self.home_address
    }
}

#[allow(dead_code)]
pub struct Address {
    pub street: String,
    pub city: String,
    pub zip_code: String,
}

pub struct AddressStreet;
impl FieldName for AddressStreet {
    fn field_name() -> &'static str {
        "street"
    }
}
impl HasField<AddressStreet> for Address {
    type Value = String;

    fn get_field(&self) -> &Self::Value {
        &self.street
    }
}

pub struct AddressCity;
impl FieldName for AddressCity {
    fn field_name() -> &'static str {
        "city"
    }
}
impl HasField<AddressCity> for Address {
    type Value = String;

    fn get_field(&self) -> &Self::Value {
        &self.city
    }
}

pub struct AddressZipCode;
impl FieldName for AddressZipCode {
    fn field_name() -> &'static str {
        "zip_code"
    }
}
impl HasField<AddressZipCode> for Address {
    type Value = String;

    fn get_field(&self) -> &Self::Value {
        &self.zip_code
    }
}

#[test]
fn readme_update_example_groups_by_operator() {
    let update_doc = empty::<Profile>()
        .set::<ProfileName, _>("Jane".to_string())
        .inc::<ProfileAge, _>(1)
        .unset::<ProfileEmail>()
        .build();

    let expected = doc(vec![
        ("$set", sub(vec![("name", s("Jane"))])),
        ("$inc", sub(vec![("age", Bson::Int32(1))])),
        ("$unset", sub(vec![("email", s(""))])),
    ]);

    assert_eq!(update_doc.to_bson(), expected);
}

#[test]
fn operators_keep_order_of_first_use() {
    let built = empty::<Profile>()
        .inc::<ProfileAge, _>(2)
        .set::<ProfileName, _>("Ann".to_string())
        .inc::<ProfileScore, _>(0.5)
        .set::<ProfileEmail, _>("ann@example.com".to_string())
        .build()
        .to_bson();
    let keys: Vec<&String> = built.keys().collect();

    assert_eq!(keys, vec!["$inc", "$set"]);
    assert_eq!(
        built,
        doc(vec![
            ("$inc", sub(vec![("age", Bson::Int32(2)), ("score", Bson::Double(0.5))])),
            ("$set", sub(vec![("name", s("Ann")), ("email", s("ann@example.com"))])),
        ])
    );
}

#[test]
fn same_field_twice_keeps_last_value() {
    let built = empty::<Profile>()
        .set::<ProfileName, _>("first".to_string())
        .set::<ProfileAge, _>(30)
        .set::<ProfileName, _>("second".to_string())
        .build()
        .to_bson();
    let set = built.get_document("$set").unwrap();
    let keys: Vec<&String> = set.keys().collect();

    assert_eq!(keys, vec!["name", "age"]);
    assert_eq!(set.get("name"), Some(&s("second")));
}

#[test]
fn numeric_operators_build_expected_documents() {
    let built = empty::<Profile>()
        .mul::<ProfileScore, _>(1.5)
        .rename::<ProfileEmail>("contact_email")
        .build()
        .to_bson();

    assert_eq!(
        built,
        doc(vec![
            ("$mul", sub(vec![("score", Bson::Double(1.5))])),
            ("$rename", sub(vec![("email", s("contact_email"))])),
        ])
    );
}

#[test]
fn current_date_uses_kind_name() {
    let built = empty::<Profile>()
        .current_date::<ProfileUpdatedAt>(CurrentDateType::Timestamp)
        .current_date::<ProfileName>(CurrentDateType::Date)
        .build()
        .to_bson();

    assert_eq!(
        built,
        doc(vec![("$currentDate", sub(vec![("updated_at", s("timestamp")), ("name", s("date"))]))])
    );
}

#[test]
fn array_operators_build_expected_documents() {
    let built = empty::<Profile>()
        .add_to_set::<ProfileTags, _>("new".to_string())
        .push::<ProfileVisits, _>(3)
        .pop::<ProfileTags>(PopStrategy::First)
        .pop::<ProfileVisits>(PopStrategy::Last)
        .pull::<ProfileTags, _>("old".to_string())
        .pull_all::<ProfileVisits, _>(vec![1, 2])
        .build()
        .to_bson();

    assert_eq!(
        built,
        doc(vec![
            ("$addToSet", sub(vec![("tags", s("new"))])),
            ("$push", sub(vec![("visits", Bson::Int32(3))])),
            ("$pop", sub(vec![("tags", Bson::Int32(-1)), ("visits", Bson::Int32(1))])),
            ("$pull", sub(vec![("tags", s("old"))])),
            ("$pullAll", sub(vec![("visits", Bson::Array(vec![Bson::Int32(1), Bson::Int32(2)]))])),
        ])
    );
}

#[test]
fn pull_expr_sends_condition_unchanged() {
    let condition = sub(vec![("$gte", Bson::Int32(6))]);
    let built = empty::<Profile>()
        .pull_expr::<ProfileVisits>(condition.clone())
        .build()
        .to_bson();

    assert_eq!(built, doc(vec![("$pull", sub(vec![("visits", condition)]))]));
}

#[test]
fn with_lookup_merges_nested_updates() {
    let built = empty::<Profile>()
        .set::<ProfileName, _>("Bob".to_string())
        .with_lookup::<ProfileHomeAddress, _, AddressCity, Address, _>(
            |path| path.field::<AddressCity>(),
            |nested| {
                nested
                    .set::<AddressCity, _>("Boston".to_string())
                    .set::<AddressZipCode, _>("02101".to_string())
                    .unset::<AddressStreet>();
            },
        )
        .build()
        .to_bson();

    assert_eq!(
        built,
        doc(vec![
            (
                "$set",
                sub(vec![
                    ("name", s("Bob")),
                    ("home_address.city", s("Boston")),
                    ("home_address.zip_code", s("02101")),
                ]),
            ),
            ("$unset", sub(vec![("home_address.street", s(""))])),
        ])
    );
}

#[test]
fn with_field_uses_same_prefix() {
    let built = empty::<Profile>()
        .with_field::<ProfileAge, _>(|nested| {
            nested.inc::<ProfileAge, _>(5);
        })
        .build()
        .to_bson();

    assert_eq!(built, doc(vec![("$inc", sub(vec![("age", Bson::Int32(5))]))]));
}

#[test]
fn empty_builder_builds_empty_document() {
    assert_eq!(empty::<Profile>().build().to_bson(), Document::new());
}

#[test]
fn build_leaves_builder_unchanged() {
    let mut builder = empty::<Profile>();

    builder.set::<ProfileName, _>("Eve".to_string());

    let first = builder.build().to_bson();
    let second = builder.build().to_bson();

    assert_eq!(first, second);
}

#[test]
fn operation_strings() {
    assert_eq!(UpdateOperation::SetValue.as_str(), "$set");
    assert_eq!(UpdateOperation::Unset.as_str(), "$unset");
    assert_eq!(UpdateOperation::Inc.as_str(), "$inc");
    assert_eq!(UpdateOperation::Mul.as_str(), "$mul");
    assert_eq!(UpdateOperation::Rename.as_str(), "$rename");
    assert_eq!(UpdateOperation::CurrentDate.as_str(), "$currentDate");
    assert_eq!(UpdateOperation::AddToSet.as_str(), "$addToSet");
    assert_eq!(UpdateOperation::Pop.as_str(), "$pop");
    assert_eq!(UpdateOperation::Pull.as_str(), "$pull");
    assert_eq!(UpdateOperation::PullAll.as_str(), "$pullAll");
    assert_eq!(UpdateOperation::Push.as_str(), "$push");
    assert_eq!(CurrentDateType::Date.as_str(), "date");
    assert_eq!(CurrentDateType::Timestamp.as_str(), "timestamp");
}

#[test]
fn pop_strategy_converts_to_bson() {
    assert_eq!(Bson::from(PopStrategy::First), Bson::Int32(-1));
    assert_eq!(Bson::from(PopStrategy::Last), Bson::Int32(1));
}

#[test]
fn with_field_equals_direct_calls() {
    let through = empty::<Profile>()
        .set::<ProfileName, _>("Ann".to_string())
        .with_field::<ProfileName, _>(|n| {
            n.inc::<ProfileAge, _>(1).set::<ProfileName, _>("Widget".to_string());
        })
        .build()
        .to_bson();
    let direct = empty::<Profile>()
        .set::<ProfileName, _>("Ann".to_string())
        .inc::<ProfileAge, _>(1)
        .set::<ProfileName, _>("Widget".to_string())
        .build()
        .to_bson();

    assert_eq!(through, direct);
    assert_eq!(through.get_document("$set").unwrap().get("name"), Some(&s("Widget")));
}

use bson::{Bson, Document};
use tnuctipun::filters::empty;
use tnuctipun::{FieldName, HasField, MongoComparable, MongoOrdered};

fn doc(entries: Vec<(&str, Bson)>) -> Document {
    let mut d = Document::new();
    for (k, v) in entries {
        d.insert(k, v);
    }
    d
}

fn sub(entries: Vec<(&str, Bson)>) -> Bson {
    Bson::Document(doc(entries))
}

fn s(text: &str) -> Bson {
    Bson::String(text.to_string())
}

fn strings(texts: &[&str]) -> Bson {
    Bson::Array(texts.iter().map(|t| s(t)).collect())
}

#[allow(dead_code)]
pub struct Address {
    pub street: String,
    pub city: String,
    pub zip_code: String,
    pub country: String,
}

#[allow(dead_code)]
pub struct ContactInfo {
    pub email: String,
    pub phone: String,
}

#[allow(dead_code)]
pub struct User {
    pub id: String,
    pub name: String,
    pub age: i32,
    pub home_address: Address,
    pub work_address: Address,
    pub contact: ContactInfo,
}

pub struct AddressStreet;
impl FieldName for AddressStreet {
    fn field_name() -> &'static str {
        "street"
    }
}
impl HasField<AddressStreet> for Address {
    type Value = String;

    fn get_field(&self) -> &Self::Value {
        &self.street
    }
}

pub struct AddressCity;
impl FieldName for AddressCity {
    fn field_name() -> &'static str {
        "city"
    }
}
impl HasField<AddressCity> for Address {
    type Value = String;

    fn get_field(&self) -> &Self::Value {
        &self.city
    }
}

pub struct AddressZipCode;
impl FieldName for AddressZipCode {
    fn field_name() -> &'static str {
        "zip_code"
    }
}
impl HasField<AddressZipCode> for Address {
    type Value = String;

    fn get_field(&self) -> &Self::Value {
        &self.zip_code
    }
}

pub struct AddressCountry;
impl FieldName for AddressCountry {
    fn field_name() -> &'static str {
        "country"
    }
}
impl HasField<AddressCountry> for Address {
    type Value = String;

    fn get_field(&self) -> &Self::Value {
        &self.country
    }
}

pub struct ContactEmail;
impl FieldName for ContactEmail {
    fn field_name() -> &'static str {
        "email"
    }
}
impl HasField<ContactEmail> for ContactInfo {
    type Value = String;

    fn get_field(&self) -> &Self::Value {
        &self.email
    }
}

pub struct ContactPhone;
impl FieldName for ContactPhone {
    fn field_name() -> &'static str {
        "phone"
    }
}
impl HasField<ContactPhone> for ContactInfo {
    type Value = String;

    fn get_field(&self) -> &Self::Value {
        &self.phone
    }
}

pub struct UserId;
impl FieldName for UserId {
    fn field_name() -> &'static str {
        "id"
    }
}
impl HasField<UserId> for User {
    type Value = String;

    fn get_field(&self) -> &Self::Value {
        &self.id
    }
}

pub struct UserName;
impl FieldName for UserName {
    fn field_name() -> &'static str {
        "name"
    }
}
impl HasField<UserName> for User {
    type Value = String;

    fn get_field(&self) -> &Self::Value {
        &self.name
    }
}

pub struct UserAge;
impl FieldName for UserAge {
    fn field_name() -> &'static str {
        "age"
    }
}
impl HasField<UserAge> for User {
    type Value = i32;

    fn get_field(&self) -> &Self::Value {
        &self.age
    }
}

pub struct UserHomeAddress;
impl FieldName for UserHomeAddress {
    fn field_name() -> &'static str {
        "home_address"
    }
}
impl HasField<UserHomeAddress> for User {
    type Value = Address;

    fn get_field(&self) -> &Self::Value {
        &self.home_address
    }
}

pub struct UserWorkAddress;
impl FieldName for UserWorkAddress {
    fn field_name() -> &'static str {
        "work_address"
    }
}
impl HasField<UserWorkAddress> for User {
    type Value = Address;

    fn get_field(&self) -> &Self::Value {
        &self.work_address
    }
}

pub struct UserContact;
impl FieldName for UserContact {
    fn field_name() -> &'static str {
        "contact"
    }
}
impl HasField<UserContact> for User {
    type Value = ContactInfo;

    fn get_field(&self) -> &Self::Value {
        &self.contact
    }
}
impl MongoComparable<String, String> for Address {}
impl MongoComparable<String, String> for ContactInfo {}
impl MongoComparable<String, String> for User {}
impl MongoComparable<i32, i32> for User {}
impl MongoComparable<i32, i16> for User {}
impl MongoComparable<Address, Address> for User {}
impl MongoComparable<ContactInfo, ContactInfo> for User {}
impl MongoOrdered<i32, i32> for User {}
impl MongoOrdered<i32, i16> for User {}

#[test]
fn test_simple_nested_lookup() {
    let result = empty::<User>()
        .with_lookup::<UserHomeAddress, _, AddressCity, Address, _>(
            |path| path.field::<AddressCity>(),
            |nested| nested.eq::<AddressCity, _>("Portland".to_string()),
        )
        .and();

    assert_eq!(result.to_bson(), doc(vec![("home_address.city", s("Portland"))]));
}

#[test]
fn nested_lookups_keep_clause_order() {
    let result = empty::<User>()
        .eq::<UserName, _>("Ada".to_string())
        .with_lookup::<UserWorkAddress, _, AddressCountry, Address, _>(
            |path| path.field::<AddressCountry>(),
            |nested| {
                nested
                    .eq::<AddressCountry, _>("UK".to_string())
                    .exists_::<AddressZipCode>(true)
            },
        )
        .and();

    let expected = doc(vec![(
        "$and",
        Bson::Array(vec![
            sub(vec![("name", s("Ada"))]),
            sub(vec![("work_address.country", s("UK"))]),
            sub(vec![("work_address.zip_code", sub(vec![("$exists", Bson::Boolean(true))]))]),
        ]),
    )]);

    assert_eq!(result.to_bson(), expected);
}

#[test]
fn with_field_filters_on_the_field_itself() {
    let result = empty::<User>()
        .with_field::<UserAge, _>(|nested| nested.gte::<UserAge, _>(18).lt::<UserAge, _>(65))
        .and();

    let expected = doc(vec![(
        "$and",
        Bson::Array(vec![
            sub(vec![("age", sub(vec![("$gte", Bson::Int32(18))]))]),
            sub(vec![("age", sub(vec![("$lt", Bson::Int32(65))]))]),
        ]),
    )]);

    assert_eq!(result.to_bson(), expected);
}

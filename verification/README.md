# tnuctipun

Type-checked builders for MongoDB filter, update and aggregation-expression
documents, verified with Verus.

A field of a document type is named by a field witness (`FieldName`,
`HasField`), and a value may only be compared with a field when the document
type declares the pair comparable (`MongoComparable`, `MongoOrdered`). The
builders then produce an ordered document model (`document::Doc`) whose
contents each builder's contract states exactly; `Doc::to_bson` turns it into a
`bson::Document`.

Layout:

- `src/document.rs`: the document model, and the laws of inserting entries
  into a BSON document (an existing key keeps its place and takes the new
  value).
- `src/bson_codec.rs`: encoding of the model as `bson` values; the only calls
  into `bson`.
- `src/path.rs`: typed paths and dotted field paths.
- `src/filters.rs`, `src/field_filters.rs`: filter documents.
- `src/updates.rs`: update documents, grouped by update operator.
- `src/expr.rs`: aggregation expressions.
- `src/comparable_derive.rs`: the rules by which the `MongoComparable` derive
  decides which comparisons a struct's fields allow, over a model of the
  struct's field types.
- `tests/`: tests of the library.
- `app/main.rs`: a small program that queries a local MongoDB deployment with
  filters built by the library.

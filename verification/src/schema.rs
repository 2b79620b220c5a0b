//! Schemas: the shape of the data that a decoder is to expect.
use vstd::prelude::*;

verus! {

/// The name under which a record, an enum or a fixed is declared.
#[derive(Debug, PartialEq, Eq)]
pub struct Name {
    pub name: String,
}

impl Name {
    /// The name `name`.
    pub fn new(name: &str) -> (r: Name)
        ensures
            r.name@ == name@,
    {
        Name { name: name.to_string() }
    }
}

/// One field of a record: its name and the schema of its value.
#[derive(Debug, PartialEq)]
pub struct RecordField {
    pub name: String,
    pub schema: Schema,
}

/// The branches of a union, in the order that the encoded branch index counts.
#[derive(Debug, PartialEq)]
pub struct UnionSchema {
    pub schemas: Vec<Schema>,
}

impl UnionSchema {
    /// A union of `schemas`.
    pub fn new(schemas: Vec<Schema>) -> (r: UnionSchema)
        ensures
            r.schemas == schemas,
    {
        UnionSchema { schemas }
    }

    /// The branches, in order.
    pub fn variants(&self) -> (r: &Vec<Schema>)
        ensures
            r == self.schemas,
    {
        &self.schemas
    }
}

/// The shape of a datum.
#[derive(Debug, PartialEq)]
pub enum Schema {
    Null,
    Boolean,
    Int,
    Long,
    Float,
    Double,
    Bytes,
    String,
    /// A sequence of items that all have one schema.
    Array(Box<Schema>),
    /// A mapping from strings to values that all have one schema.
    Mapping(Box<Schema>),
    /// Exactly one of several branches.
    Union(UnionSchema),
    /// Named fields, each with a schema, in a fixed order.
    Record { name: Name, fields: Vec<RecordField> },
    /// One of a fixed list of symbols.
    Enum { name: Name, symbols: Vec<String> },
    /// A fixed number of bytes.
    Fixed { name: Name, size: usize },
    /// An unscaled integer in two's complement, laid over fixed or bytes.
    Decimal { precision: usize, scale: usize, inner: Box<Schema> },
    /// A UUID, written as a string.
    Uuid,
    /// Days since the epoch, written as an int.
    Date,
    /// Milliseconds after midnight, written as an int.
    TimeMillis,
    /// Microseconds after midnight, written as a long.
    TimeMicros,
    /// Milliseconds since the epoch, written as a long.
    TimestampMillis,
    /// Microseconds since the epoch, written as a long.
    TimestampMicros,
    /// Months, days and milliseconds, written as twelve bytes.
    Duration,
}

/// The mathematical form of a [`RecordField`].
pub struct FieldModel {
    pub name: Seq<char>,
    pub schema: SchemaModel,
}

/// The mathematical form of a [`Schema`].
pub enum SchemaModel {
    Null,
    Boolean,
    Int,
    Long,
    Float,
    Double,
    Bytes,
    String,
    Array(Box<SchemaModel>),
    Mapping(Box<SchemaModel>),
    Union(Seq<SchemaModel>),
    Record { name: Seq<char>, fields: Seq<FieldModel> },
    Enum { name: Seq<char>, symbols: Seq<Seq<char>> },
    Fixed { name: Seq<char>, size: nat },
    Decimal { precision: nat, scale: nat, inner: Box<SchemaModel> },
    Uuid,
    Date,
    TimeMillis,
    TimeMicros,
    TimestampMillis,
    TimestampMicros,
    Duration,
}

/// The model of each schema of `schemas`, in order.
pub open spec fn schema_models(schemas: Vec<Schema>) -> Seq<SchemaModel>
    decreases schemas, 1nat,
{
    Seq::new(
        schemas.len() as nat,
        |i: int|
            if 0 <= i < schemas.len() {
                schema_model(schemas[i])
            } else {
                SchemaModel::Null
            },
    )
}

/// The model of each field of `fields`, in order.
pub open spec fn field_models(fields: Vec<RecordField>) -> Seq<FieldModel>
    decreases fields, 1nat,
{
    Seq::new(
        fields.len() as nat,
        |i: int|
            if 0 <= i < fields.len() {
                FieldModel { name: fields[i].name@, schema: schema_model(fields[i].schema) }
            } else {
                FieldModel { name: Seq::empty(), schema: SchemaModel::Null }
            },
    )
}

/// The text of each symbol of `symbols`, in order.
pub open spec fn symbol_models(symbols: Vec<String>) -> Seq<Seq<char>> {
    Seq::new(symbols.len() as nat, |i: int| symbols[i]@)
}

/// The model of `schema`.
pub open spec fn schema_model(schema: Schema) -> SchemaModel
    decreases schema, 0nat,
{
    match schema {
        Schema::Null => SchemaModel::Null,
        Schema::Boolean => SchemaModel::Boolean,
        Schema::Int => SchemaModel::Int,
        Schema::Long => SchemaModel::Long,
        Schema::Float => SchemaModel::Float,
        Schema::Double => SchemaModel::Double,
        Schema::Bytes => SchemaModel::Bytes,
        Schema::String => SchemaModel::String,
        Schema::Array(inner) => SchemaModel::Array(Box::new(schema_model(*inner))),
        Schema::Mapping(inner) => SchemaModel::Mapping(Box::new(schema_model(*inner))),
        Schema::Union(union) => SchemaModel::Union(schema_models(union.schemas)),
        Schema::Record { name, fields } => SchemaModel::Record {
            name: name.name@,
            fields: field_models(fields),
        },
        Schema::Enum { name, symbols } => SchemaModel::Enum {
            name: name.name@,
            symbols: symbol_models(symbols),
        },
        Schema::Fixed { name, size } => SchemaModel::Fixed { name: name.name@, size: size as nat },
        Schema::Decimal { precision, scale, inner } => SchemaModel::Decimal {
            precision: precision as nat,
            scale: scale as nat,
            inner: Box::new(schema_model(*inner)),
        },
        Schema::Uuid => SchemaModel::Uuid,
        Schema::Date => SchemaModel::Date,
        Schema::TimeMillis => SchemaModel::TimeMillis,
        Schema::TimeMicros => SchemaModel::TimeMicros,
        Schema::TimestampMillis => SchemaModel::TimestampMillis,
        Schema::TimestampMicros => SchemaModel::TimestampMicros,
        Schema::Duration => SchemaModel::Duration,
    }
}

impl View for Schema {
    type V = SchemaModel;

    open spec fn view(&self) -> SchemaModel {
        schema_model(*self)
    }
}

impl View for RecordField {
    type V = FieldModel;

    open spec fn view(&self) -> FieldModel {
        FieldModel { name: self.name@, schema: schema_model(self.schema) }
    }
}

} // verus!

//! JSON Schema types for OpenAPI 3.1.
use vstd::prelude::*;
use std::collections::HashMap;
use crate::text::push_str;

verus! {

/// A JSON Schema.
#[derive(Debug)]
pub enum Schema {
    /// `true` accepts anything, `false` nothing.
    Boolean(bool),
    /// A reference to another schema.
    Ref(RefSchema),
    /// An object schema.
    Object(ObjectSchema),
    /// An array schema.
    Array(ArraySchema),
    /// A primitive type schema.
    Primitive(PrimitiveSchema),
}

/// A schema reference.
#[derive(Debug, Clone)]
pub struct RefSchema {
    /// Reference path (e.g. "#/components/schemas/Item").
    pub reference: String,
}

/// An object schema.
#[derive(Debug)]
pub struct ObjectSchema {
    /// Schema title.
    pub title: Option<String>,
    /// Schema description.
    pub description: Option<String>,
    /// Object properties.
    pub properties: HashMap<String, Schema>,
    /// Required property names.
    pub required: Vec<String>,
    /// Schema of additional properties.
    pub additional_properties: Option<Box<Schema>>,
}

/// An array schema.
#[derive(Debug)]
pub struct ArraySchema {
    /// Item schema.
    pub items: Box<Schema>,
    /// Minimum number of items.
    pub min_items: Option<usize>,
    /// Maximum number of items.
    pub max_items: Option<usize>,
}

/// JSON Schema primitive types.
#[derive(Debug, Clone, Copy, PartialEq, Eq, Structural)]
pub enum SchemaType {
    String,
    Number,
    Integer,
    Boolean,
    Null,
}

/// A primitive type schema.
#[derive(Debug, Clone)]
pub struct PrimitiveSchema {
    /// JSON Schema type.
    pub schema_type: SchemaType,
    /// Format hint.
    pub format: Option<String>,
    /// Nullable flag (OpenAPI 3.1).
    pub nullable: bool,
}

pub open spec fn opt_text(o: Option<String>) -> Option<Seq<char>> {
    match o {
        Some(s) => Some(s@),
        None => None,
    }
}

pub open spec fn opt_str<'a>(o: Option<&'a str>) -> Option<Seq<char>> {
    match o {
        Some(s) => Some(s@),
        None => None,
    }
}

fn owned(o: Option<&str>) -> (r: Option<String>)
    ensures
        opt_text(r) == opt_str(o),
{
    match o {
        Some(s) => Some(String::from_str(s)),
        None => None,
    }
}

impl PrimitiveSchema {
    /// A string schema.
    pub fn string() -> (p: Self)
        ensures
            p.schema_type == SchemaType::String && p.format is None && !p.nullable,
    {
        PrimitiveSchema { schema_type: SchemaType::String, format: None, nullable: false }
    }

    /// An integer schema with an optional format.
    pub fn integer(format: Option<&str>) -> (p: Self)
        ensures
            p.schema_type == SchemaType::Integer && opt_text(p.format) == opt_str(format) && !p.nullable,
    {
        PrimitiveSchema { schema_type: SchemaType::Integer, format: owned(format), nullable: false }
    }

    /// A number schema with an optional format.
    pub fn number(format: Option<&str>) -> (p: Self)
        ensures
            p.schema_type == SchemaType::Number && opt_text(p.format) == opt_str(format) && !p.nullable,
    {
        PrimitiveSchema { schema_type: SchemaType::Number, format: owned(format), nullable: false }
    }

    /// A boolean schema.
    pub fn boolean() -> (p: Self)
        ensures
            p.schema_type == SchemaType::Boolean && p.format is None && !p.nullable,
    {
        PrimitiveSchema { schema_type: SchemaType::Boolean, format: None, nullable: false }
    }
}

impl Schema {
    /// A string schema.
    pub fn string() -> (s: Self)
        ensures
            s matches Schema::Primitive(p) && p.schema_type == SchemaType::String && p.format is None && !p.nullable,
    {
        Schema::Primitive(PrimitiveSchema::string())
    }

    /// An integer schema with an optional format.
    pub fn integer(format: Option<&str>) -> (s: Self)
        ensures
            s matches Schema::Primitive(p) && p.schema_type == SchemaType::Integer && opt_text(p.format) == opt_str(format)
                && !p.nullable,
    {
        Schema::Primitive(PrimitiveSchema::integer(format))
    }

    /// A number schema with an optional format.
    pub fn number(format: Option<&str>) -> (s: Self)
        ensures
            s matches Schema::Primitive(p) && p.schema_type == SchemaType::Number && opt_text(p.format) == opt_str(format)
                && !p.nullable,
    {
        Schema::Primitive(PrimitiveSchema::number(format))
    }

    /// A boolean schema.
    pub fn boolean() -> (s: Self)
        ensures
            s matches Schema::Primitive(p) && p.schema_type == SchemaType::Boolean && p.format is None && !p.nullable,
    {
        Schema::Primitive(PrimitiveSchema::boolean())
    }

    /// A reference to the component schema `name`.
    pub fn reference(name: &str) -> (s: Self)
        ensures
            s matches Schema::Ref(r) && r.reference@ == "#/components/schemas/"@ + name@,
    {
        let mut reference = String::from_str("#/components/schemas/");
        push_str(&mut reference, name);
        Schema::Ref(RefSchema { reference })
    }

    /// An array schema of `items` with no size bounds.
    pub fn array(items: Schema) -> (s: Self)
        ensures
            s matches Schema::Array(a) && *a.items == items && a.min_items is None && a.max_items is None,
    {
        Schema::Array(ArraySchema { items: Box::new(items), min_items: None, max_items: None })
    }

    /// An object schema with these properties and required names.
    pub fn object(properties: HashMap<String, Schema>, required: Vec<String>) -> (s: Self)
        ensures
            s matches Schema::Object(o) && o.properties == properties && o.required == required && o.title is None
                && o.description is None && o.additional_properties is None,
    {
        Schema::Object(ObjectSchema { title: None, description: None, properties, required, additional_properties: None })
    }

    /// Marks a primitive schema nullable; other schemas are unchanged.
    pub fn nullable(self) -> (s: Self)
        ensures
            match self {
                Schema::Primitive(p) => s == Schema::Primitive(PrimitiveSchema { nullable: true, ..p }),
                _ => s == self,
            },
    {
        match self {
            Schema::Primitive(p) => Schema::Primitive(PrimitiveSchema { nullable: true, ..p }),
            other => other,
        }
    }

    /// Sets the title of an object schema; other schemas are unchanged.
    pub fn with_title(self, title: &str) -> (s: Self)
        ensures
            match self {
                Schema::Object(o) => s matches Schema::Object(n) && n.title matches Some(t) && t@ == title@
                    && n.description == o.description && n.properties == o.properties && n.required == o.required
                    && n.additional_properties == o.additional_properties,
                _ => s == self,
            },
    {
        match self {
            Schema::Object(o) => Schema::Object(ObjectSchema { title: Some(String::from_str(title)), ..o }),
            other => other,
        }
    }

    /// Sets the description of an object schema; other schemas are unchanged.
    pub fn with_description(self, description: &str) -> (s: Self)
        ensures
            match self {
                Schema::Object(o) => s matches Schema::Object(n) && n.description matches Some(d) && d@ == description@
                    && n.title == o.title && n.properties == o.properties && n.required == o.required
                    && n.additional_properties == o.additional_properties,
                _ => s == self,
            },
    {
        match self {
            Schema::Object(o) => Schema::Object(ObjectSchema { description: Some(String::from_str(description)), ..o }),
            other => other,
        }
    }
}

/// A schema marked nullable when it is primitive, unchanged otherwise.
pub open spec fn nullable_schema(s: Schema) -> Schema {
    match s {
        Schema::Primitive(p) => Schema::Primitive(PrimitiveSchema { nullable: true, ..p }),
        other => other,
    }
}

/// Types that describe themselves with a JSON Schema.
pub trait JsonSchema {
    /// The JSON Schema of the type.
    fn schema() -> Schema;

    /// The schema's name under `#/components/schemas/`.
    fn schema_name() -> Option<&'static str> {
        None
    }
}

impl JsonSchema for String {
    fn schema() -> (s: Schema)
        ensures
            s matches Schema::Primitive(p) && p.schema_type == SchemaType::String && p.format is None && !p.nullable,
    {
        Schema::Primitive(PrimitiveSchema { schema_type: SchemaType::String, format: None, nullable: false })
    }
}

impl JsonSchema for i64 {
    fn schema() -> (s: Schema)
        ensures
            s matches Schema::Primitive(p) && p.schema_type == SchemaType::Integer && opt_text(p.format) == Some("int64"@)
                && !p.nullable,
    {
        Schema::Primitive(PrimitiveSchema { schema_type: SchemaType::Integer, format: Some(String::from_str("int64")), nullable: false })
    }
}

impl JsonSchema for i32 {
    fn schema() -> (s: Schema)
        ensures
            s matches Schema::Primitive(p) && p.schema_type == SchemaType::Integer && opt_text(p.format) == Some("int32"@)
                && !p.nullable,
    {
        Schema::Primitive(PrimitiveSchema { schema_type: SchemaType::Integer, format: Some(String::from_str("int32")), nullable: false })
    }
}

impl JsonSchema for bool {
    fn schema() -> (s: Schema)
        ensures
            s matches Schema::Primitive(p) && p.schema_type == SchemaType::Boolean && p.format is None && !p.nullable,
    {
        Schema::Primitive(PrimitiveSchema { schema_type: SchemaType::Boolean, format: None, nullable: false })
    }
}

impl<T: JsonSchema> JsonSchema for Option<T> {
    fn schema() -> (s: Schema)
        ensures
            exists|inner: Schema| #[trigger] call_ensures(T::schema, (), inner) && s == nullable_schema(inner),
    {
        match T::schema() {
            Schema::Primitive(p) => Schema::Primitive(PrimitiveSchema { nullable: true, ..p }),
            other => other,
        }
    }
}

impl<T: JsonSchema> JsonSchema for Vec<T> {
    fn schema() -> (s: Schema)
        ensures
            s matches Schema::Array(a) && a.min_items is None && a.max_items is None
                && call_ensures(T::schema, (), *a.items),
    {
        Schema::Array(ArraySchema { items: Box::new(T::schema()), min_items: None, max_items: None })
    }
}

} // verus!

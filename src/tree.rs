use vstd::prelude::*;

verus! {

/// A value given to an attribute.
#[derive(Clone, Debug, PartialEq, Eq)]
pub enum Value {
    Boolean(bool),
    Number(String),
    Text(String),
    Reference(ReferenceValue),
}

/// A value that stands for a column of another record: `[[schema.]table@]record.column`.
/// Where the schema or the table is absent, the one being filled in is meant.
#[derive(Clone, Debug, PartialEq, Eq)]
pub struct ReferenceValue {
    pub schema: Option<String>,
    pub table: Option<String>,
    pub record: String,
    pub column: String,
}

/// A column of a record and its value.
#[derive(Clone, Debug, PartialEq, Eq)]
pub struct Attribute {
    pub name: String,
    pub value: Value,
}

/// A row to insert; without a name it is anonymous (written `_`).
#[derive(Clone, Debug, PartialEq, Eq)]
pub struct Record {
    pub name: Option<String>,
    pub attributes: Vec<Attribute>,
}

/// A table, with an optional alias, and its records in source order.
#[derive(Clone, Debug, PartialEq, Eq)]
pub struct Table {
    pub name: String,
    pub alias: Option<String>,
    pub records: Vec<Record>,
}

/// A schema and its tables in source order.
#[derive(Clone, Debug, PartialEq, Eq)]
pub struct Schema {
    pub name: String,
    pub tables: Vec<Table>,
}

pub ghost struct ReferenceV {
    pub schema: Option<Seq<char>>,
    pub table: Option<Seq<char>>,
    pub record: Seq<char>,
    pub column: Seq<char>,
}

pub ghost enum ValueV {
    Boolean(bool),
    Number(Seq<char>),
    Text(Seq<char>),
    Reference(ReferenceV),
}

pub ghost struct AttributeV {
    pub name: Seq<char>,
    pub value: ValueV,
}

#[verifier::ext_equal]
pub ghost struct RecordV {
    pub name: Option<Seq<char>>,
    pub attributes: Seq<AttributeV>,
}

#[verifier::ext_equal]
pub ghost struct TableV {
    pub name: Seq<char>,
    pub alias: Option<Seq<char>>,
    pub records: Seq<RecordV>,
}

#[verifier::ext_equal]
pub ghost struct SchemaV {
    pub name: Seq<char>,
    pub tables: Seq<TableV>,
}

pub open spec fn text_of(o: Option<String>) -> Option<Seq<char>> {
    match o {
        Some(s) => Some(s@),
        None => None,
    }
}

impl View for ReferenceValue {
    type V = ReferenceV;

    open spec fn view(&self) -> ReferenceV {
        ReferenceV {
            schema: text_of(self.schema),
            table: text_of(self.table),
            record: self.record@,
            column: self.column@,
        }
    }
}

impl View for Value {
    type V = ValueV;

    open spec fn view(&self) -> ValueV {
        match self {
            Value::Boolean(b) => ValueV::Boolean(*b),
            Value::Number(n) => ValueV::Number(n@),
            Value::Text(t) => ValueV::Text(t@),
            Value::Reference(r) => ValueV::Reference(r@),
        }
    }
}

impl View for Attribute {
    type V = AttributeV;

    open spec fn view(&self) -> AttributeV {
        AttributeV { name: self.name@, value: self.value@ }
    }
}

impl View for Record {
    type V = RecordV;

    open spec fn view(&self) -> RecordV {
        RecordV {
            name: text_of(self.name),
            attributes: self.attributes@.map_values(|a: Attribute| a@),
        }
    }
}

impl View for Table {
    type V = TableV;

    open spec fn view(&self) -> TableV {
        TableV {
            name: self.name@,
            alias: text_of(self.alias),
            records: self.records@.map_values(|r: Record| r@),
        }
    }
}

impl View for Schema {
    type V = SchemaV;

    open spec fn view(&self) -> SchemaV {
        SchemaV { name: self.name@, tables: self.tables@.map_values(|t: Table| t@) }
    }
}

} // verus!

//! Column types, their dialect spellings and parsing, and SQL expressions.
use crate::util::{push_char, str_eq};
use crate::Dialect;
use vstd::prelude::*;

verus! {

/// A SQL column type.
#[derive(Debug, PartialEq, Eq)]
pub enum Type {
    Boolean,
    I16,
    I32,
    I64,
    Numeric(u8, u8),
    Text,
    Bytes,
    Date,
    DateTime,
    Uuid,
    Json,
    Array(Box<Type>),
}

/// A type name that no known type answers to.
#[derive(Debug)]
pub struct ParseError {
    pub name: String,
}

/// The type that a dialect-native name stands for; `T[]` is an array of `T`.
pub open spec fn type_of_name(s: Seq<char>) -> Option<Type>
    decreases s.len(),
{
    if s.len() >= 2 && s[s.len() - 2] == '[' && s[s.len() - 1] == ']' {
        match type_of_name(s.subrange(0, s.len() - 2)) {
            Some(t) => Some(Type::Array(Box::new(t))),
            None => None,
        }
    } else {
        scalar_of_name(s)
    }
}

pub open spec fn scalar_of_name(s: Seq<char>) -> Option<Type> {
    if s == "boolean"@ || s == "bool"@ || s == "BOOLEAN"@ {
        Some(Type::Boolean)
    } else if s == "smallint"@ || s == "int2"@ || s == "SMALLINT"@ {
        Some(Type::I16)
    } else if s == "integer"@ || s == "int"@ || s == "int4"@ || s == "INTEGER"@ {
        Some(Type::I32)
    } else if s == "bigint"@ || s == "int8"@ || s == "BIGINT"@ {
        Some(Type::I64)
    } else if s == "text"@ || s == "character varying"@ || s == "varchar"@ || s == "TEXT"@ {
        Some(Type::Text)
    } else if s == "bytea"@ || s == "BYTEA"@ {
        Some(Type::Bytes)
    } else if s == "date"@ || s == "DATE"@ {
        Some(Type::Date)
    } else if s == "timestamp with time zone"@ || s == "timestamptz"@ || s
        == "timestamp without time zone"@ || s == "timestamp"@ || s == "TIMESTAMPTZ"@ {
        Some(Type::DateTime)
    } else if s == "uuid"@ || s == "UUID"@ {
        Some(Type::Uuid)
    } else if s == "json"@ || s == "jsonb"@ || s == "JSONB"@ {
        Some(Type::Json)
    } else {
        None
    }
}

fn scalar_from_str(s: &str) -> (r: Option<Type>)
    ensures
        r == scalar_of_name(s@),
{
    if str_eq(s, "boolean") || str_eq(s, "bool") || str_eq(s, "BOOLEAN") {
        Some(Type::Boolean)
    } else if str_eq(s, "smallint") || str_eq(s, "int2") || str_eq(s, "SMALLINT") {
        Some(Type::I16)
    } else if str_eq(s, "integer") || str_eq(s, "int") || str_eq(s, "int4") || str_eq(s, "INTEGER") {
        Some(Type::I32)
    } else if str_eq(s, "bigint") || str_eq(s, "int8") || str_eq(s, "BIGINT") {
        Some(Type::I64)
    } else if str_eq(s, "text") || str_eq(s, "character varying") || str_eq(s, "varchar") || str_eq(s, "TEXT") {
        Some(Type::Text)
    } else if str_eq(s, "bytea") || str_eq(s, "BYTEA") {
        Some(Type::Bytes)
    } else if str_eq(s, "date") || str_eq(s, "DATE") {
        Some(Type::Date)
    } else if str_eq(s, "timestamp with time zone") || str_eq(s, "timestamptz") || str_eq(
        s,
        "timestamp without time zone",
    ) || str_eq(s, "timestamp") || str_eq(s, "TIMESTAMPTZ") {
        Some(Type::DateTime)
    } else if str_eq(s, "uuid") || str_eq(s, "UUID") {
        Some(Type::Uuid)
    } else if str_eq(s, "json") || str_eq(s, "jsonb") || str_eq(s, "JSONB") {
        Some(Type::Json)
    } else {
        None
    }
}

/// The decimal digit `d`.
pub open spec fn digit(d: int) -> char {
    if d == 0 { '0' }
    else if d == 1 { '1' }
    else if d == 2 { '2' }
    else if d == 3 { '3' }
    else if d == 4 { '4' }
    else if d == 5 { '5' }
    else if d == 6 { '6' }
    else if d == 7 { '7' }
    else if d == 8 { '8' }
    else { '9' }
}

/// Decimal text of `n`, without leading zeros.
pub open spec fn decimal(n: nat) -> Seq<char>
    decreases n,
{
    if n < 10 {
        seq![digit(n as int)]
    } else {
        decimal(n / 10) + seq![digit((n % 10) as int)]
    }
}

fn digit_char(d: u8) -> (c: char)
    requires
        d < 10,
    ensures
        c == digit(d as int),
{
    match d {
        0 => '0',
        1 => '1',
        2 => '2',
        3 => '3',
        4 => '4',
        5 => '5',
        6 => '6',
        7 => '7',
        8 => '8',
        _ => '9',
    }
}


/// Appends the decimal text of `n`.
pub fn push_decimal(buf: &mut String, n: u8)
    ensures
        final(buf)@ == old(buf)@ + decimal(n as nat),
{
    if n >= 100 {
        push_char(buf, digit_char(n / 100));
        push_char(buf, digit_char((n / 10) % 10));
    } else if n >= 10 {
        push_char(buf, digit_char(n / 10));
    }
    push_char(buf, digit_char(n % 10));
    proof {
        reveal_with_fuel(decimal, 3);
        if n >= 100 {
            assert(decimal((n / 100) as nat) == seq![digit((n / 100) as int)]);
        }
    }
    assert(buf@ =~= old(buf)@ + decimal(n as nat));
}

} // verus!

verus! {

impl Type {
    /// Parses a dialect-native type name.
    pub fn from_str(s: &str) -> (r: Result<Type, ParseError>)
        ensures
            match r {
                Ok(t) => type_of_name(s@) == Some(t),
                Err(e) => type_of_name(s@) is None && e.name@ == s@,
            },
        decreases s@.len(),
    {
        let n = s.unicode_len();
        if n >= 2 && s.get_char(n - 2) == '[' && s.get_char(n - 1) == ']' {
            let inner = s.substring_char(0, n - 2);
            match Type::from_str(inner) {
                Ok(t) => Ok(Type::Array(Box::new(t))),
                Err(_) => Err(ParseError { name: s.to_string() }),
            }
        } else {
            match scalar_from_str(s) {
                Some(t) => Ok(t),
                None => Err(ParseError { name: s.to_string() }),
            }
        }
    }

    /// A value equal to this one.
    pub fn duplicate(&self) -> (r: Type)
        ensures
            r == *self,
        decreases self,
    {
        match self {
            Type::Boolean => Type::Boolean,
            Type::I16 => Type::I16,
            Type::I32 => Type::I32,
            Type::I64 => Type::I64,
            Type::Numeric(p, s) => Type::Numeric(*p, *s),
            Type::Text => Type::Text,
            Type::Bytes => Type::Bytes,
            Type::Date => Type::Date,
            Type::DateTime => Type::DateTime,
            Type::Uuid => Type::Uuid,
            Type::Json => Type::Json,
            Type::Array(t) => Type::Array(Box::new(t.duplicate())),
        }
    }

    /// Whether two types are the same.
    pub fn same(&self, other: &Type) -> (r: bool)
        ensures
            r == (*self == *other),
        decreases self,
    {
        match (self, other) {
            (Type::Boolean, Type::Boolean) => true,
            (Type::I16, Type::I16) => true,
            (Type::I32, Type::I32) => true,
            (Type::I64, Type::I64) => true,
            (Type::Numeric(p, s), Type::Numeric(q, t)) => *p == *q && *s == *t,
            (Type::Text, Type::Text) => true,
            (Type::Bytes, Type::Bytes) => true,
            (Type::Date, Type::Date) => true,
            (Type::DateTime, Type::DateTime) => true,
            (Type::Uuid, Type::Uuid) => true,
            (Type::Json, Type::Json) => true,
            (Type::Array(a), Type::Array(b)) => a.same(b),
            _ => false,
        }
    }
}

/// `NUMERIC(p, s)`-style text under the name `head`.
pub open spec fn numeric_sql(head: Seq<char>, p: u8, s: u8) -> Seq<char> {
    head + "("@ + decimal(p as nat) + ", "@ + decimal(s as nat) + ")"@
}

/// The dialect's spelling of a type.
pub open spec fn type_sql(t: Type, d: Dialect) -> Seq<char>
    decreases t,
{
    match d {
        Dialect::Postgres => match t {
            Type::Boolean => "BOOLEAN"@,
            Type::I16 => "SMALLINT"@,
            Type::I32 => "INTEGER"@,
            Type::I64 => "BIGINT"@,
            Type::Numeric(p, s) => numeric_sql("NUMERIC"@, p, s),
            Type::Text => "TEXT"@,
            Type::Bytes => "BYTEA"@,
            Type::Date => "DATE"@,
            Type::DateTime => "TIMESTAMPTZ"@,
            Type::Uuid => "UUID"@,
            Type::Json => "JSONB"@,
            Type::Array(inner) => type_sql(*inner, d) + "[]"@,
        },
        Dialect::Mysql => match t {
            Type::Boolean => "BOOLEAN"@,
            Type::I16 => "SMALLINT"@,
            Type::I32 => "INT"@,
            Type::I64 => "BIGINT"@,
            Type::Numeric(p, s) => numeric_sql("DECIMAL"@, p, s),
            Type::Text => "TEXT"@,
            Type::Bytes => "BLOB"@,
            Type::Date => "DATE"@,
            Type::DateTime => "DATETIME"@,
            Type::Uuid => "CHAR(36)"@,
            Type::Json => "JSON"@,
            Type::Array(_) => "JSON"@,
        },
        Dialect::Sqlite => match t {
            Type::Boolean | Type::I16 | Type::I32 | Type::I64 => "INTEGER"@,
            Type::Numeric(p, s) => numeric_sql("NUMERIC"@, p, s),
            Type::Bytes => "BLOB"@,
            _ => "TEXT"@,
        },
    }
}

fn push_numeric(buf: &mut String, head: &str, p: u8, s: u8)
    ensures
        final(buf)@ == old(buf)@ + numeric_sql(head@, p, s),
{
    buf.append(head);
    buf.append("(");
    push_decimal(buf, p);
    buf.append(", ");
    push_decimal(buf, s);
    buf.append(")");
    assert(buf@ =~= old(buf)@ + numeric_sql(head@, p, s));
}

impl Type {
    /// Appends the dialect's spelling of this type.
    pub fn write_sql(&self, buf: &mut String, dialect: Dialect)
        ensures
            final(buf)@ == old(buf)@ + type_sql(*self, dialect),
        decreases self,
    {
        match dialect {
            Dialect::Postgres => match self {
                Type::Boolean => buf.append("BOOLEAN"),
                Type::I16 => buf.append("SMALLINT"),
                Type::I32 => buf.append("INTEGER"),
                Type::I64 => buf.append("BIGINT"),
                Type::Numeric(p, s) => push_numeric(buf, "NUMERIC", *p, *s),
                Type::Text => buf.append("TEXT"),
                Type::Bytes => buf.append("BYTEA"),
                Type::Date => buf.append("DATE"),
                Type::DateTime => buf.append("TIMESTAMPTZ"),
                Type::Uuid => buf.append("UUID"),
                Type::Json => buf.append("JSONB"),
                Type::Array(inner) => {
                    inner.write_sql(buf, dialect);
                    buf.append("[]");
                    assert(buf@ =~= old(buf)@ + type_sql(*self, dialect));
                },
            },
            Dialect::Mysql => match self {
                Type::Boolean => buf.append("BOOLEAN"),
                Type::I16 => buf.append("SMALLINT"),
                Type::I32 => buf.append("INT"),
                Type::I64 => buf.append("BIGINT"),
                Type::Numeric(p, s) => push_numeric(buf, "DECIMAL", *p, *s),
                Type::Text => buf.append("TEXT"),
                Type::Bytes => buf.append("BLOB"),
                Type::Date => buf.append("DATE"),
                Type::DateTime => buf.append("DATETIME"),
                Type::Uuid => buf.append("CHAR(36)"),
                Type::Json => buf.append("JSON"),
                Type::Array(_) => buf.append("JSON"),
            },
            Dialect::Sqlite => match self {
                Type::Boolean | Type::I16 | Type::I32 | Type::I64 => buf.append("INTEGER"),
                Type::Numeric(p, s) => push_numeric(buf, "NUMERIC", *p, *s),
                Type::Bytes => buf.append("BLOB"),
                _ => buf.append("TEXT"),
            },
        }
    }
}

/// A SQL expression.
#[derive(Debug)]
pub enum Expr {
    /// A SQL fragment, copied verbatim.
    Raw(String),
}

impl Expr {
    pub open spec fn text(&self) -> Seq<char> {
        match self {
            Expr::Raw(s) => s@,
        }
    }

    /// A value with the same text.
    pub fn duplicate(&self) -> (r: Expr)
        ensures
            r.text() == self.text(),
    {
        match self {
            Expr::Raw(s) => Expr::Raw(s.clone()),
        }
    }

    /// Whether two expressions have the same text.
    pub fn same(&self, other: &Expr) -> (r: bool)
        ensures
            r == (self.text() == other.text()),
    {
        match (self, other) {
            (Expr::Raw(a), Expr::Raw(b)) => str_eq(a.as_str(), b.as_str()),
        }
    }
}

impl Expr {
    /// Appends the expression's text.
    pub fn write_sql(&self, buf: &mut String, dialect: Dialect)
        ensures
            final(buf)@ == old(buf)@ + self.text(),
    {
        match self {
            Expr::Raw(s) => buf.append(s.as_str()),
        }
    }
}

} // verus!

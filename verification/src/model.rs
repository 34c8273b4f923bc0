//! The data that a header line carries, and the ways in which reading one can fail.
use vstd::prelude::*;

verus! {

/// Why a line was not accepted as a header.
#[derive(Clone, Copy, Debug, PartialEq, Eq, Structural)]
pub enum ParseFailure {
    /// The line does not open with a double quote, or ends before the closing one.
    MalformedHeader,
    /// The quotes enclose no key-value pair.
    EmptyHeader,
    /// A key is not followed by a colon.
    MissingDelimiter,
    /// A value is neither a run of digits nor a quoted string.
    UnrecognizedValue,
    /// A run of digits does not fit in 64 bits.
    NumericOverflow,
    /// Something other than blanks follows the closing quote.
    TrailingContent,
    /// A recognized key carries a value of the other kind.
    FieldTypeMismatch,
}

/// The kind of a value.
#[derive(Clone, Copy, Debug, PartialEq, Eq, Structural)]
pub enum ValueType {
    Numeric,
    String,
}

/// A value as it was read, before it is stored in a field.
#[derive(Clone, Debug, PartialEq, Eq)]
pub enum Value {
    Numeric(u64),
    String(String),
}

/// What a `Value` stands for.
pub enum ValueModel {
    Numeric(u64),
    Text(Seq<char>),
}

impl View for Value {
    type V = ValueModel;

    open spec fn view(&self) -> ValueModel {
        match self {
            Value::Numeric(n) => ValueModel::Numeric(*n),
            Value::String(s) => ValueModel::Text(s@),
        }
    }
}

impl ValueModel {
    /// The kind of this value.
    pub open spec fn kind(self) -> ValueType {
        match self {
            ValueModel::Numeric(_) => ValueType::Numeric,
            ValueModel::Text(_) => ValueType::String,
        }
    }
}

impl Value {
    /// The kind of this value.
    pub fn as_type(&self) -> (t: ValueType)
        ensures
            t == self@.kind(),
    {
        match self {
            Value::Numeric(_) => ValueType::Numeric,
            Value::String(_) => ValueType::String,
        }
    }

    /// The text of a string value.
    pub fn as_str(&self) -> (s: &str)
        requires
            self@ is Text,
        ensures
            self@ == ValueModel::Text(s@),
    {
        match self {
            Value::String(s) => s.as_str(),
            Value::Numeric(_) => "",
        }
    }

    /// The number of a numeric value, where it fits the machine's word.
    pub fn as_usize(&self) -> (n: usize)
        requires
            self@ is Numeric,
            self@->Numeric_0 <= usize::MAX,
        ensures
            self@ == ValueModel::Numeric(n as u64),
    {
        match self {
            Value::Numeric(n) => *n as usize,
            Value::String(_) => 0,
        }
    }
}

/// The four keys that a header may set.
#[derive(Clone, Copy, Debug, PartialEq, Eq, Structural)]
pub enum Field {
    Pallet,
    Extrinsic,
    Steps,
    Repeat,
}

impl Field {
    /// The kind of value that this key takes.
    pub open spec fn kind(self) -> ValueType {
        match self {
            Field::Pallet => ValueType::String,
            Field::Extrinsic => ValueType::String,
            Field::Steps => ValueType::Numeric,
            Field::Repeat => ValueType::Numeric,
        }
    }

    /// The kind of value that this key takes.
    pub fn value_type(&self) -> (t: ValueType)
        ensures
            t == self.kind(),
    {
        match self {
            Field::Pallet => ValueType::String,
            Field::Extrinsic => ValueType::String,
            Field::Steps => ValueType::Numeric,
            Field::Repeat => ValueType::Numeric,
        }
    }
}

/// What a header says of a benchmark run.
#[derive(Clone, Debug, PartialEq, Eq)]
pub struct HeaderInfo {
    pub repeat: u64,
    pub steps: u64,
    pub pallet_name: String,
    pub extrinsic: String,
}

/// What a `HeaderInfo` stands for.
pub struct HeaderModel {
    pub repeat: u64,
    pub steps: u64,
    pub pallet_name: Seq<char>,
    pub extrinsic: Seq<char>,
}

impl View for HeaderInfo {
    type V = HeaderModel;

    open spec fn view(&self) -> HeaderModel {
        HeaderModel {
            repeat: self.repeat,
            steps: self.steps,
            pallet_name: self.pallet_name@,
            extrinsic: self.extrinsic@,
        }
    }
}

impl HeaderModel {
    /// The record of a header that sets nothing.
    pub open spec fn empty() -> HeaderModel {
        HeaderModel { repeat: 0, steps: 0, pallet_name: Seq::empty(), extrinsic: Seq::empty() }
    }

    /// What the record holds under a key.
    pub open spec fn field(self, f: Field) -> ValueModel {
        match f {
            Field::Pallet => ValueModel::Text(self.pallet_name),
            Field::Extrinsic => ValueModel::Text(self.extrinsic),
            Field::Steps => ValueModel::Numeric(self.steps),
            Field::Repeat => ValueModel::Numeric(self.repeat),
        }
    }
}

impl Default for HeaderInfo {
    fn default() -> (h: HeaderInfo)
        ensures
            h@ == HeaderModel::empty(),
    {
        HeaderInfo { repeat: 0, steps: 0, pallet_name: String::new(), extrinsic: String::new() }
    }
}

/// One key with its value, as the header's text gives them.
pub struct Entry {
    pub key: Seq<char>,
    pub value: ValueModel,
}

} // verus!

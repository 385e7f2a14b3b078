use vstd::prelude::*;

verus! {

/// A calendar timestamp held as plain values: seconds since the Unix epoch
/// and the milliseconds of that second.  Datetime cells are parsed by an
/// outside calendar crate; what this crate's logic keeps of them is this
/// exact pair, so datetime columns can be stored and compared like any other
/// plain data.
#[derive(Debug, Clone, Copy, PartialEq, Eq, Structural)]
pub struct DtValue {
    pub seconds: i64,
    pub milliseconds: i16,
}

/// The uniform tagged value all column accessors return, so that callers
/// never have to branch on the column kind.  `Float` holds the IEEE 754 bit
/// pattern of a 64-bit floating-point number; the numeric value it encodes
/// is only ever produced or consumed outside the verified core.
#[derive(Debug)]
pub enum DataValue {
    Float(u64),
    Integer(i64),
    Unsigned(u64),
    String(String),
    DateTime(DtValue),
    Null,
}

/// The mathematical shadow of a `DataValue`: identical except that text is
/// a character sequence.
pub enum DataValueModel {
    Float(u64),
    Integer(i64),
    Unsigned(u64),
    String(Seq<char>),
    DateTime(DtValue),
    Null,
}

impl View for DataValue {
    type V = DataValueModel;

    open spec fn view(&self) -> DataValueModel {
        match self {
            DataValue::Float(b) => DataValueModel::Float(*b),
            DataValue::Integer(i) => DataValueModel::Integer(*i),
            DataValue::Unsigned(u) => DataValueModel::Unsigned(*u),
            DataValue::String(s) => DataValueModel::String(s@),
            DataValue::DateTime(d) => DataValueModel::DateTime(*d),
            DataValue::Null => DataValueModel::Null,
        }
    }
}

impl Clone for DataValue {
    fn clone(&self) -> (r: Self)
        ensures
            r@ == self@,
    {
        match self {
            DataValue::Float(b) => DataValue::Float(*b),
            DataValue::Integer(i) => DataValue::Integer(*i),
            DataValue::Unsigned(u) => DataValue::Unsigned(*u),
            DataValue::String(s) => DataValue::String(s.clone()),
            DataValue::DateTime(d) => DataValue::DateTime(*d),
            DataValue::Null => DataValue::Null,
        }
    }
}

} // verus!

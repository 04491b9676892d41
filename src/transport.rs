use vstd::prelude::*;

verus! {

/// Cell types of the MySQL source; the flag says whether the column is nullable.
#[derive(Debug, Clone, Copy, PartialEq, Eq, Structural)]
pub enum MySQLTypeSystem {
    Double(bool),
    Long(bool),
    LongLong(bool),
    Date(bool),
    Time(bool),
    Datetime(bool),
    Decimal(bool),
    VarChar(bool),
    Char(bool),
}

/// Cell types of the Arrow destination; the flag says whether the column is nullable.
#[derive(Debug, Clone, Copy, PartialEq, Eq, Structural)]
pub enum ArrowTypeSystem {
    Int64(bool),
    Float64(bool),
    Boolean(bool),
    LargeUtf8(bool),
    Date32(bool),
    Date64(bool),
    Time64(bool),
}

/// How a source type is turned into its destination type.
#[derive(Debug, Clone, Copy, PartialEq, Eq, Structural)]
pub enum ConversionPolicy {
    /// The value is carried over as it is.
    Auto,
    /// A conversion of the transport's own turns the value into the
    /// destination carrier; it may fail on a cell.
    Converted,
    /// The pair cannot be transported.
    Unsupported,
}

/// Physical carrier types of cells.
#[derive(Debug, Clone, Copy, PartialEq, Eq, Structural)]
pub enum Carrier {
    F64,
    I32,
    I64,
    Bool,
    NaiveDate,
    NaiveTime,
    NaiveDateTime,
    Decimal,
    Text,
}

/// Wire protocol of the MySQL source.
#[derive(Debug, Clone, Copy, PartialEq, Eq, Structural)]
pub enum MySQLProtocol {
    Binary,
    Text,
}

/// Failures of the core that are not tied to one side.
#[derive(Debug, PartialEq, Eq)]
pub enum ConnectorXError {
    /// The column at this index has a type pair that cannot be transported.
    UnsupportedPair(usize),
    /// A conversion refused a value; the text shows the value.
    ConversionFailed(String),
}

/// Failures of a MySQL to Arrow transport.
#[derive(Debug, PartialEq, Eq)]
pub enum MySQLArrowTransportError {
    Source(String),
    Destination(String),
    ConnectorX(ConnectorXError),
}

pub open spec fn is_nullable(t: MySQLTypeSystem) -> bool {
    match t {
        MySQLTypeSystem::Double(n) => n,
        MySQLTypeSystem::Long(n) => n,
        MySQLTypeSystem::LongLong(n) => n,
        MySQLTypeSystem::Date(n) => n,
        MySQLTypeSystem::Time(n) => n,
        MySQLTypeSystem::Datetime(n) => n,
        MySQLTypeSystem::Decimal(n) => n,
        MySQLTypeSystem::VarChar(n) => n,
        MySQLTypeSystem::Char(n) => n,
    }
}

pub open spec fn dst_nullable(t: ArrowTypeSystem) -> bool {
    match t {
        ArrowTypeSystem::Int64(n) => n,
        ArrowTypeSystem::Float64(n) => n,
        ArrowTypeSystem::Boolean(n) => n,
        ArrowTypeSystem::LargeUtf8(n) => n,
        ArrowTypeSystem::Date32(n) => n,
        ArrowTypeSystem::Date64(n) => n,
        ArrowTypeSystem::Time64(n) => n,
    }
}

/// The carrier that the source parser produces for a type.
pub open spec fn src_carrier(t: MySQLTypeSystem) -> Carrier {
    match t {
        MySQLTypeSystem::Double(_) => Carrier::F64,
        MySQLTypeSystem::Long(_) => Carrier::I32,
        MySQLTypeSystem::LongLong(_) => Carrier::I64,
        MySQLTypeSystem::Date(_) => Carrier::NaiveDate,
        MySQLTypeSystem::Time(_) => Carrier::NaiveTime,
        MySQLTypeSystem::Datetime(_) => Carrier::NaiveDateTime,
        MySQLTypeSystem::Decimal(_) => Carrier::Decimal,
        MySQLTypeSystem::VarChar(_) => Carrier::Text,
        MySQLTypeSystem::Char(_) => Carrier::Text,
    }
}

/// The carrier that a destination column stores for a type.
pub open spec fn dst_carrier(t: ArrowTypeSystem) -> Carrier {
    match t {
        ArrowTypeSystem::Int64(_) => Carrier::I64,
        ArrowTypeSystem::Float64(_) => Carrier::F64,
        ArrowTypeSystem::Boolean(_) => Carrier::Bool,
        ArrowTypeSystem::LargeUtf8(_) => Carrier::Text,
        ArrowTypeSystem::Date32(_) => Carrier::NaiveDate,
        ArrowTypeSystem::Date64(_) => Carrier::NaiveDateTime,
        ArrowTypeSystem::Time64(_) => Carrier::NaiveTime,
    }
}

/// The declared MySQL to Arrow table: destination type and policy of each
/// source type, nullability kept.
pub open spec fn spec_mapping(t: MySQLTypeSystem) -> (ArrowTypeSystem, ConversionPolicy) {
    match t {
        MySQLTypeSystem::Double(n) => (ArrowTypeSystem::Float64(n), ConversionPolicy::Auto),
        MySQLTypeSystem::Long(n) => (ArrowTypeSystem::Int64(n), ConversionPolicy::Converted),
        MySQLTypeSystem::LongLong(n) => (ArrowTypeSystem::Int64(n), ConversionPolicy::Auto),
        MySQLTypeSystem::Date(n) => (ArrowTypeSystem::Date32(n), ConversionPolicy::Auto),
        MySQLTypeSystem::Time(n) => (ArrowTypeSystem::Time64(n), ConversionPolicy::Auto),
        MySQLTypeSystem::Datetime(n) => (ArrowTypeSystem::Date64(n), ConversionPolicy::Auto),
        MySQLTypeSystem::Decimal(n) => (ArrowTypeSystem::Float64(n), ConversionPolicy::Converted),
        MySQLTypeSystem::VarChar(n) => (ArrowTypeSystem::LargeUtf8(n), ConversionPolicy::Auto),
        MySQLTypeSystem::Char(n) => (ArrowTypeSystem::LargeUtf8(n), ConversionPolicy::Unsupported),
    }
}

/// Index of the first column of `schema` whose pair cannot be transported,
/// if there is one.
pub open spec fn first_unsupported(schema: Seq<MySQLTypeSystem>) -> Option<int> {
    if exists|k: int| 0 <= k < schema.len() && spec_mapping(schema[k]).1 == ConversionPolicy::Unsupported {
        Some(choose|k: int|
            0 <= k < schema.len() && spec_mapping(schema[k]).1 == ConversionPolicy::Unsupported
                && forall|m: int|
                0 <= m < k ==> spec_mapping(schema[m]).1 != ConversionPolicy::Unsupported)
    } else {
        None
    }
}

/// The transport from a MySQL source to an Arrow destination.
pub struct MySQLArrowTransport {
    protocol: MySQLProtocol,
}

impl MySQLArrowTransport {
    pub closed spec fn spec_protocol(&self) -> MySQLProtocol {
        self.protocol
    }

    pub fn new(protocol: MySQLProtocol) -> (r: Self)
        ensures
            r.spec_protocol() == protocol,
    {
        MySQLArrowTransport { protocol }
    }

    pub fn protocol(&self) -> (r: MySQLProtocol)
        ensures
            r == self.spec_protocol(),
    {
        self.protocol
    }

    /// Destination type and policy of a source type; both protocols share
    /// one table.
    pub fn mapping(&self, t: MySQLTypeSystem) -> (r: (ArrowTypeSystem, ConversionPolicy))
        ensures
            r == spec_mapping(t),
    {
        match t {
            MySQLTypeSystem::Double(n) => (ArrowTypeSystem::Float64(n), ConversionPolicy::Auto),
            MySQLTypeSystem::Long(n) => (ArrowTypeSystem::Int64(n), ConversionPolicy::Converted),
            MySQLTypeSystem::LongLong(n) => (ArrowTypeSystem::Int64(n), ConversionPolicy::Auto),
            MySQLTypeSystem::Date(n) => (ArrowTypeSystem::Date32(n), ConversionPolicy::Auto),
            MySQLTypeSystem::Time(n) => (ArrowTypeSystem::Time64(n), ConversionPolicy::Auto),
            MySQLTypeSystem::Datetime(n) => (ArrowTypeSystem::Date64(n), ConversionPolicy::Auto),
            MySQLTypeSystem::Decimal(n) => (
                ArrowTypeSystem::Float64(n),
                ConversionPolicy::Converted,
            ),
            MySQLTypeSystem::VarChar(n) => (ArrowTypeSystem::LargeUtf8(n), ConversionPolicy::Auto),
            MySQLTypeSystem::Char(n) => (
                ArrowTypeSystem::LargeUtf8(n),
                ConversionPolicy::Unsupported,
            ),
        }
    }

    /// Derives the destination schema column by column, refusing the schema
    /// when a column's pair cannot be transported (the first such column is named).
    pub fn check_schema(&self, schema: &Vec<MySQLTypeSystem>) -> (r: Result<
        Vec<ArrowTypeSystem>,
        MySQLArrowTransportError,
    >)
        ensures
            r is Ok <==> first_unsupported(schema@) is None,
            r is Err ==> r == Err::<Vec<ArrowTypeSystem>, _>(
                MySQLArrowTransportError::ConnectorX(
                    ConnectorXError::UnsupportedPair(first_unsupported(schema@)->0 as usize),
                ),
            ),
            r is Ok ==> r->Ok_0@.len() == schema@.len() && forall|k: int|
                0 <= k < schema@.len() ==> #[trigger] r->Ok_0@[k] == spec_mapping(schema@[k]).0,
    {
        let mut out: Vec<ArrowTypeSystem> = Vec::new();
        let mut k: usize = 0;
        while k < schema.len()
            invariant
                k <= schema@.len(),
                out@.len() == k,
                forall|m: int| 0 <= m < k ==> spec_mapping(#[trigger] schema@[m]).1
                    != ConversionPolicy::Unsupported,
                forall|m: int| 0 <= m < k ==> #[trigger] out@[m] == spec_mapping(schema@[m]).0,
            decreases schema@.len() - k,
        {
            let (dst, policy) = self.mapping(schema[k]);
            match policy {
                ConversionPolicy::Unsupported => {
                    proof {
                        let ki = k as int;
                        assert(0 <= ki < schema@.len() && spec_mapping(schema@[ki]).1
                            == ConversionPolicy::Unsupported);
                        let c = first_unsupported(schema@)->0;
                        assert(0 <= c < schema@.len() && spec_mapping(schema@[c]).1
                            == ConversionPolicy::Unsupported && forall|m: int|
                            0 <= m < c ==> spec_mapping(schema@[m]).1
                                != ConversionPolicy::Unsupported);
                        if c < ki {
                        } else if c > ki {
                            assert(spec_mapping(schema@[ki]).1 != ConversionPolicy::Unsupported);
                        }
                    }
                    return Err(
                        MySQLArrowTransportError::ConnectorX(ConnectorXError::UnsupportedPair(k)),
                    );
                },
                _ => {},
            }
            out.push(dst);
            k = k + 1;
        }
        Ok(out)
    }

    /// The conversion of the `Long` to `Int64` pair, whose carriers differ:
    /// a widening that keeps the value.
    pub fn convert_long(v: i32) -> (r: i64)
        ensures
            r as int == v as int,
    {
        v as i64
    }
}

/// Every pair with the `Auto` policy carries the value in the same physical
/// type on both sides, so the value is copied as it is.
pub proof fn lemma_auto_carrier(t: MySQLTypeSystem)
    requires
        spec_mapping(t).1 == ConversionPolicy::Auto,
    ensures
        src_carrier(t) == dst_carrier(spec_mapping(t).0),
{
}

/// Nullability is kept by every pair of the table.
pub proof fn lemma_mapping_keeps_nullability(t: MySQLTypeSystem)
    ensures
        dst_nullable(spec_mapping(t).0) == is_nullable(t),
{
}

} // verus!

use connectorx_core::transport::{
    ArrowTypeSystem, ConnectorXError, ConversionPolicy, MySQLArrowTransport,
    MySQLArrowTransportError, MySQLProtocol, MySQLTypeSystem,
};

#[test]
fn unsupported_pair_is_rejected_before_any_work() {
    let t = MySQLArrowTransport::new(MySQLProtocol::Binary);
    let schema = vec![
        MySQLTypeSystem::Long(false),
        MySQLTypeSystem::Char(true),
        MySQLTypeSystem::VarChar(true),
        MySQLTypeSystem::Char(false),
    ];
    assert_eq!(
        t.check_schema(&schema),
        Err(MySQLArrowTransportError::ConnectorX(ConnectorXError::UnsupportedPair(1)))
    );
}

#[test]
fn supported_schema_maps_column_by_column() {
    let t = MySQLArrowTransport::new(MySQLProtocol::Text);
    let schema = vec![
        MySQLTypeSystem::Double(true),
        MySQLTypeSystem::Long(false),
        MySQLTypeSystem::LongLong(true),
        MySQLTypeSystem::Date(false),
        MySQLTypeSystem::Time(true),
        MySQLTypeSystem::Datetime(false),
        MySQLTypeSystem::Decimal(true),
        MySQLTypeSystem::VarChar(false),
    ];
    assert_eq!(
        t.check_schema(&schema),
        Ok(vec![
            ArrowTypeSystem::Float64(true),
            ArrowTypeSystem::Int64(false),
            ArrowTypeSystem::Int64(true),
            ArrowTypeSystem::Date32(false),
            ArrowTypeSystem::Time64(true),
            ArrowTypeSystem::Date64(false),
            ArrowTypeSystem::Float64(true),
            ArrowTypeSystem::LargeUtf8(false),
        ])
    );
    assert_eq!(t.protocol(), MySQLProtocol::Text);
}

#[test]
fn empty_schema_is_accepted() {
    let t = MySQLArrowTransport::new(MySQLProtocol::Binary);
    assert_eq!(t.check_schema(&vec![]), Ok(vec![]));
}

#[test]
fn policies_follow_the_table() {
    let t = MySQLArrowTransport::new(MySQLProtocol::Binary);
    assert_eq!(
        t.mapping(MySQLTypeSystem::Decimal(false)),
        (ArrowTypeSystem::Float64(false), ConversionPolicy::Converted)
    );
    assert_eq!(
        t.mapping(MySQLTypeSystem::Char(true)),
        (ArrowTypeSystem::LargeUtf8(true), ConversionPolicy::Unsupported)
    );
    assert_eq!(
        t.mapping(MySQLTypeSystem::Long(false)),
        (ArrowTypeSystem::Int64(false), ConversionPolicy::Converted)
    );
    assert_eq!(
        t.mapping(MySQLTypeSystem::LongLong(true)),
        (ArrowTypeSystem::Int64(true), ConversionPolicy::Auto)
    );
}

#[test]
fn long_widening_keeps_the_value() {
    assert_eq!(MySQLArrowTransport::convert_long(-5), -5i64);
    assert_eq!(MySQLArrowTransport::convert_long(i32::MAX), 2147483647i64);
    assert_eq!(MySQLArrowTransport::convert_long(i32::MIN), -2147483648i64);
}

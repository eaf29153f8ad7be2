use vstd::prelude::*;

verus! {

/// The I/O error of std, carried through unchanged.
#[verifier::external_type_specification]
#[verifier::external_body]
pub struct ExIoError(std::io::Error);

/// std's failure to turn a slice into an array.
#[verifier::external_type_specification]
#[verifier::external_body]
pub struct ExTryFromSliceError(std::array::TryFromSliceError);

/// std's report of bytes that are not UTF-8.
#[verifier::external_type_specification]
#[verifier::external_body]
pub struct ExUtf8Error(std::str::Utf8Error);

/// lz4_flex's failure to compress a block.
#[verifier::external_type_specification]
#[verifier::external_body]
pub struct ExCompressError(lz4_flex::block::CompressError);

/// lz4_flex's failure to decompress a block.
#[verifier::external_type_specification]
#[verifier::external_body]
pub struct ExDecompressError(lz4_flex::block::DecompressError);

/// A failure of the transport layer: a malformed frame, or one of the
/// conditions of the protocol around it.
#[derive(Debug)]
pub enum FrameError {
    Parse(ParseError),
    /// A frame is compressed, but no compression was negotiated.
    NoCompressionNegotiated,
    /// A frame is marked as coming from a client.
    FrameFromClient,
    /// A frame is marked as coming from the server.
    FrameFromServer,
    /// A frame of this protocol version was received; only 4 is supported.
    VersionNotSupported(u8),
    /// The connection closed before the body was read: missing, out of total.
    ConnectionClosed(usize, usize),
    FrameDecompression,
    FrameCompression,
    StdIoError(std::io::Error),
    /// An opcode that names no message.
    TryFromPrimitiveError(u8),
    Lz4CompressError(lz4_flex::block::CompressError),
    Lz4DecompressError(lz4_flex::block::DecompressError),
}

/// A failure to parse the body of a frame, or to serialize one.
#[derive(Debug)]
pub enum ParseError {
    SetKeyspaceParseError(SetKeyspaceParseError),
    SchemaChangeEventParseError(SchemaChangeEventParseError),
    TableSpecParseError(TableSpecParseError),
    TypeParseError(CqlTypeParseError),
    LowLevelDeserializationError(LowLevelDeserializationError),
    BadDataToSerialize(String),
    BadIncomingData(String),
    DeserializationError(String),
    IoError(std::io::Error),
    SerializeValuesError(String),
    SerializationError(String),
    CqlTypeError(String),
}

/// A failure to read a set-keyspace response.
#[non_exhaustive]
#[derive(Debug)]
pub enum SetKeyspaceParseError {
    MalformedKeyspaceName(LowLevelDeserializationError),
}

/// A failure to read a schema change event.
#[non_exhaustive]
#[derive(Debug)]
pub enum SchemaChangeEventParseError {
    TypeOfChangeParseError(LowLevelDeserializationError),
    TargetTypeParseError(LowLevelDeserializationError),
    AffectedKeyspaceParseError(LowLevelDeserializationError),
    AffectedTableNameParseError(LowLevelDeserializationError),
    AffectedTargetNameParseError(LowLevelDeserializationError),
    ArgumentCountParseError(LowLevelDeserializationError),
    FunctionArgumentParseError(LowLevelDeserializationError),
    UnknownTargetOfSchemaChange(String),
}

/// A failure to read a table specification.
#[non_exhaustive]
#[derive(Debug)]
pub enum TableSpecParseError {
    MalformedKeyspaceName(LowLevelDeserializationError),
    MalformedTableName(LowLevelDeserializationError),
}

/// A failure to read a CQL type.
#[non_exhaustive]
#[derive(Debug)]
pub enum CqlTypeParseError {
    TypeIdParseError(LowLevelDeserializationError),
    CustomTypeNameParseError(LowLevelDeserializationError),
    UdtKeyspaceNameParseError(LowLevelDeserializationError),
    UdtNameParseError(LowLevelDeserializationError),
    UdtFieldsCountParseError(LowLevelDeserializationError),
    UdtFieldNameParseError(LowLevelDeserializationError),
    TupleLengthParseError(LowLevelDeserializationError),
    TypeNotImplemented(u16),
}

/// A failure to read a primitive value.
#[non_exhaustive]
#[derive(Debug)]
pub enum LowLevelDeserializationError {
    IoError(std::io::Error),
    TryFromIntError(std::num::TryFromIntError),
    TryFromSliceError(std::array::TryFromSliceError),
    TooFewBytesReceived { expected: usize, received: usize },
    InvalidValueLength(i32),
    /// A consistency code that names no consistency level.
    UnknownConsistency(u16),
    /// An address of a length other than 4 or 16.
    InvalidInetLength(u8),
    UTF8DeserializationError(std::str::Utf8Error),
}

/// The primitive failure inside a component failure.
pub open spec fn schema_change_cause(e: SchemaChangeEventParseError) -> Option<LowLevelDeserializationError> {
    match e {
        SchemaChangeEventParseError::TypeOfChangeParseError(c) => Some(c),
        SchemaChangeEventParseError::TargetTypeParseError(c) => Some(c),
        SchemaChangeEventParseError::AffectedKeyspaceParseError(c) => Some(c),
        SchemaChangeEventParseError::AffectedTableNameParseError(c) => Some(c),
        SchemaChangeEventParseError::AffectedTargetNameParseError(c) => Some(c),
        SchemaChangeEventParseError::ArgumentCountParseError(c) => Some(c),
        SchemaChangeEventParseError::FunctionArgumentParseError(c) => Some(c),
        SchemaChangeEventParseError::UnknownTargetOfSchemaChange(_) => None,
    }
}

pub open spec fn table_spec_cause(e: TableSpecParseError) -> LowLevelDeserializationError {
    match e {
        TableSpecParseError::MalformedKeyspaceName(c) => c,
        TableSpecParseError::MalformedTableName(c) => c,
    }
}

pub open spec fn type_cause(e: CqlTypeParseError) -> Option<LowLevelDeserializationError> {
    match e {
        CqlTypeParseError::TypeIdParseError(c) => Some(c),
        CqlTypeParseError::CustomTypeNameParseError(c) => Some(c),
        CqlTypeParseError::UdtKeyspaceNameParseError(c) => Some(c),
        CqlTypeParseError::UdtNameParseError(c) => Some(c),
        CqlTypeParseError::UdtFieldsCountParseError(c) => Some(c),
        CqlTypeParseError::UdtFieldNameParseError(c) => Some(c),
        CqlTypeParseError::TupleLengthParseError(c) => Some(c),
        CqlTypeParseError::TypeNotImplemented(_) => None,
    }
}

/// The primitive failure at the bottom of a parse failure, if there is one.
pub open spec fn parse_cause(e: ParseError) -> Option<LowLevelDeserializationError> {
    match e {
        ParseError::SetKeyspaceParseError(SetKeyspaceParseError::MalformedKeyspaceName(c)) => Some(c),
        ParseError::SchemaChangeEventParseError(c) => schema_change_cause(c),
        ParseError::TableSpecParseError(c) => Some(table_spec_cause(c)),
        ParseError::TypeParseError(c) => type_cause(c),
        ParseError::LowLevelDeserializationError(c) => Some(c),
        _ => None,
    }
}

/// The primitive failure at the bottom of a frame failure, if there is one.
pub open spec fn frame_cause(e: FrameError) -> Option<LowLevelDeserializationError> {
    match e {
        FrameError::Parse(p) => parse_cause(p),
        _ => None,
    }
}

impl SchemaChangeEventParseError {
    pub fn low_level_cause(&self) -> (r: Option<&LowLevelDeserializationError>)
        ensures
            r matches Some(c) ==> schema_change_cause(*self) == Some(*c),
            r is None ==> schema_change_cause(*self) is None,
    {
        match self {
            SchemaChangeEventParseError::TypeOfChangeParseError(c) => Some(c),
            SchemaChangeEventParseError::TargetTypeParseError(c) => Some(c),
            SchemaChangeEventParseError::AffectedKeyspaceParseError(c) => Some(c),
            SchemaChangeEventParseError::AffectedTableNameParseError(c) => Some(c),
            SchemaChangeEventParseError::AffectedTargetNameParseError(c) => Some(c),
            SchemaChangeEventParseError::ArgumentCountParseError(c) => Some(c),
            SchemaChangeEventParseError::FunctionArgumentParseError(c) => Some(c),
            SchemaChangeEventParseError::UnknownTargetOfSchemaChange(_) => None,
        }
    }
}

impl TableSpecParseError {
    pub fn low_level_cause(&self) -> (r: &LowLevelDeserializationError)
        ensures
            *r == table_spec_cause(*self),
    {
        match self {
            TableSpecParseError::MalformedKeyspaceName(c) => c,
            TableSpecParseError::MalformedTableName(c) => c,
        }
    }
}

impl CqlTypeParseError {
    pub fn low_level_cause(&self) -> (r: Option<&LowLevelDeserializationError>)
        ensures
            r matches Some(c) ==> type_cause(*self) == Some(*c),
            r is None ==> type_cause(*self) is None,
    {
        match self {
            CqlTypeParseError::TypeIdParseError(c) => Some(c),
            CqlTypeParseError::CustomTypeNameParseError(c) => Some(c),
            CqlTypeParseError::UdtKeyspaceNameParseError(c) => Some(c),
            CqlTypeParseError::UdtNameParseError(c) => Some(c),
            CqlTypeParseError::UdtFieldsCountParseError(c) => Some(c),
            CqlTypeParseError::UdtFieldNameParseError(c) => Some(c),
            CqlTypeParseError::TupleLengthParseError(c) => Some(c),
            CqlTypeParseError::TypeNotImplemented(_) => None,
        }
    }
}

impl ParseError {
    /// The primitive failure at the bottom of this one, however deep.
    pub fn low_level_cause(&self) -> (r: Option<&LowLevelDeserializationError>)
        ensures
            r matches Some(c) ==> parse_cause(*self) == Some(*c),
            r is None ==> parse_cause(*self) is None,
    {
        match self {
            ParseError::SetKeyspaceParseError(SetKeyspaceParseError::MalformedKeyspaceName(c)) => Some(c),
            ParseError::SchemaChangeEventParseError(c) => c.low_level_cause(),
            ParseError::TableSpecParseError(c) => Some(c.low_level_cause()),
            ParseError::TypeParseError(c) => c.low_level_cause(),
            ParseError::LowLevelDeserializationError(c) => Some(c),
            _ => None,
        }
    }
}

impl FrameError {
    /// The primitive failure at the bottom of this one, however deep.
    pub fn low_level_cause(&self) -> (r: Option<&LowLevelDeserializationError>)
        ensures
            r matches Some(c) ==> frame_cause(*self) == Some(*c),
            r is None ==> frame_cause(*self) is None,
    {
        match self {
            FrameError::Parse(p) => p.low_level_cause(),
            _ => None,
        }
    }
}

impl LowLevelDeserializationError {
    /// Whether this is a too-few-bytes failure.
    pub fn is_too_few_bytes(&self) -> (r: bool)
        ensures
            r == (*self is TooFewBytesReceived),
    {
        match self {
            LowLevelDeserializationError::TooFewBytesReceived { .. } => true,
            _ => false,
        }
    }
}

} // verus!

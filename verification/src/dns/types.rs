//! A simple collection of DNS types, tailored towards the use in this application.
//!
//! Only the part of the DNS specification that the tunnel needs is modelled.
use vstd::prelude::*;

verus! {

/// Type field used in resource records and in questions.
#[allow(clippy::upper_case_acronyms)]
#[derive(Debug, Clone, Copy, PartialEq, Eq, Structural)]
pub enum RecordType {
    /// an IPv4 host address
    A,
    /// an authoritative name server
    NS,
    /// mail destination (obsolete, use MX)
    MD,
    /// mail forwarder (obsolete, use MX)
    MF,
    /// canonical name for an alias
    CNAME,
    /// start of a zone of authority
    SOA,
    /// mailbox domain name (experimental)
    MB,
    /// mail group member (experimental)
    MG,
    /// mail rename domain name (experimental)
    MR,
    /// a null RR (experimental)
    NULL,
    /// well known service description
    WKS,
    /// domain name pointer
    PTR,
    /// host information
    HINFO,
    /// mailbox or mail list information
    MINFO,
    /// mail exchange
    MX,
    /// text string
    TXT,
}

impl RecordType {
    /// The numeric code that stands for this type on the wire.
    pub open spec fn code(self) -> u16 {
        match self {
            RecordType::A => 1,
            RecordType::NS => 2,
            RecordType::MD => 3,
            RecordType::MF => 4,
            RecordType::CNAME => 5,
            RecordType::SOA => 6,
            RecordType::MB => 7,
            RecordType::MG => 8,
            RecordType::MR => 9,
            RecordType::NULL => 10,
            RecordType::WKS => 11,
            RecordType::PTR => 12,
            RecordType::HINFO => 13,
            RecordType::MINFO => 14,
            RecordType::MX => 15,
            RecordType::TXT => 16,
        }
    }

    /// The type that a numeric code stands for, if it stands for one.
    pub open spec fn of_code(data: u16) -> Option<RecordType> {
        if data == 1 {
            Some(RecordType::A)
        } else if data == 2 {
            Some(RecordType::NS)
        } else if data == 3 {
            Some(RecordType::MD)
        } else if data == 4 {
            Some(RecordType::MF)
        } else if data == 5 {
            Some(RecordType::CNAME)
        } else if data == 6 {
            Some(RecordType::SOA)
        } else if data == 7 {
            Some(RecordType::MB)
        } else if data == 8 {
            Some(RecordType::MG)
        } else if data == 9 {
            Some(RecordType::MR)
        } else if data == 10 {
            Some(RecordType::NULL)
        } else if data == 11 {
            Some(RecordType::WKS)
        } else if data == 12 {
            Some(RecordType::PTR)
        } else if data == 13 {
            Some(RecordType::HINFO)
        } else if data == 14 {
            Some(RecordType::MINFO)
        } else if data == 15 {
            Some(RecordType::MX)
        } else if data == 16 {
            Some(RecordType::TXT)
        } else {
            None
        }
    }

    /// Reads a type from its numeric code; codes outside 1..=16 stand for no type.
    pub fn from_code(data: u16) -> (r: Option<RecordType>)
        ensures
            r == RecordType::of_code(data),
            r is Some <==> 1 <= data <= 16,
            r matches Some(t) ==> t.code() == data,
    {
        match data {
            1 => Some(RecordType::A),
            2 => Some(RecordType::NS),
            3 => Some(RecordType::MD),
            4 => Some(RecordType::MF),
            5 => Some(RecordType::CNAME),
            6 => Some(RecordType::SOA),
            7 => Some(RecordType::MB),
            8 => Some(RecordType::MG),
            9 => Some(RecordType::MR),
            10 => Some(RecordType::NULL),
            11 => Some(RecordType::WKS),
            12 => Some(RecordType::PTR),
            13 => Some(RecordType::HINFO),
            14 => Some(RecordType::MINFO),
            15 => Some(RecordType::MX),
            16 => Some(RecordType::TXT),
            _ => None,
        }
    }
}

impl From<RecordType> for u16 {
    fn from(data: RecordType) -> (code: u16)
        ensures
            code == data.code(),
    {
        match data {
            RecordType::A => 1,
            RecordType::NS => 2,
            RecordType::MD => 3,
            RecordType::MF => 4,
            RecordType::CNAME => 5,
            RecordType::SOA => 6,
            RecordType::MB => 7,
            RecordType::MG => 8,
            RecordType::MR => 9,
            RecordType::NULL => 10,
            RecordType::WKS => 11,
            RecordType::PTR => 12,
            RecordType::HINFO => 13,
            RecordType::MINFO => 14,
            RecordType::MX => 15,
            RecordType::TXT => 16,
        }
    }
}

impl vstd::std_specs::convert::FromSpecImpl<RecordType> for u16 {
    open spec fn obeys_from_spec() -> bool {
        true
    }

    open spec fn from_spec(data: RecordType) -> u16 {
        data.code()
    }
}

/// The class of a resource record.
#[derive(Debug, Clone, Copy, PartialEq, Eq, Structural)]
pub enum RecordClass {
    /// the Internet
    IN,
    /// the CSNET class (obsolete)
    CS,
    /// the CHAOS class
    CH,
    /// Hesiod
    HS,
}

impl RecordClass {
    /// The numeric code that stands for this class on the wire.
    pub open spec fn code(self) -> u16 {
        match self {
            RecordClass::IN => 1,
            RecordClass::CS => 2,
            RecordClass::CH => 3,
            RecordClass::HS => 4,
        }
    }

    /// The class that a numeric code stands for, if it stands for one.
    pub open spec fn of_code(data: u16) -> Option<RecordClass> {
        if data == 1 {
            Some(RecordClass::IN)
        } else if data == 2 {
            Some(RecordClass::CS)
        } else if data == 3 {
            Some(RecordClass::CH)
        } else if data == 4 {
            Some(RecordClass::HS)
        } else {
            None
        }
    }

    /// Reads a class from its numeric code; codes outside 1..=4 stand for no class.
    pub fn from_code(data: u16) -> (r: Option<RecordClass>)
        ensures
            r == RecordClass::of_code(data),
            r is Some <==> 1 <= data <= 4,
            r matches Some(c) ==> c.code() == data,
    {
        match data {
            1 => Some(RecordClass::IN),
            2 => Some(RecordClass::CS),
            3 => Some(RecordClass::CH),
            4 => Some(RecordClass::HS),
            _ => None,
        }
    }
}

impl From<RecordClass> for u16 {
    fn from(data: RecordClass) -> (code: u16)
        ensures
            code == data.code(),
    {
        match data {
            RecordClass::IN => 1,
            RecordClass::CS => 2,
            RecordClass::CH => 3,
            RecordClass::HS => 4,
        }
    }
}

impl vstd::std_specs::convert::FromSpecImpl<RecordClass> for u16 {
    open spec fn obeys_from_spec() -> bool {
        true
    }

    open spec fn from_spec(data: RecordClass) -> u16 {
        data.code()
    }
}

/// The texts that a vector of strings holds.
pub open spec fn texts_of(strings: Seq<String>) -> Seq<Seq<char>> {
    Seq::new(strings.len(), |i: int| strings[i]@)
}

/// The RDATA field of a resource record. It may not exceed 65,535 bytes.
#[derive(Debug, PartialEq)]
pub enum RecordData {
    /// A TXT record: character-strings in order. One string may not be longer
    /// than 255 bytes.
    Txt(Vec<String>),
    /// A record type that is not interpreted. It carries no payload.
    Unsupported,
}

/// What a `RecordData` holds, as a mathematical value.
#[verifier::ext_equal]
pub enum RecordDataView {
    /// The texts of the character-strings, in order.
    Txt(Seq<Seq<char>>),
    /// A record type that is not interpreted.
    Unsupported,
}

impl View for RecordData {
    type V = RecordDataView;

    open spec fn view(&self) -> RecordDataView {
        match self {
            RecordData::Txt(texts) => RecordDataView::Txt(texts_of(texts@)),
            RecordData::Unsupported => RecordDataView::Unsupported,
        }
    }
}

/// Why a byte buffer is not a DNS message.
#[derive(Debug, Clone, Copy, PartialEq, Eq, Structural)]
pub enum MalformedMessage {
    /// A field would reach past the end of the buffer.
    Truncated,
    /// A label announces more than 63 bytes.
    LabelTooLong,
    /// A compression pointer does not point backwards, or stands where only
    /// a plain label may stand.
    BadPointer,
    /// The code of the record type is not assigned.
    UnknownType,
    /// The code of the record class is not assigned.
    UnknownClass,
    /// A character-string of a TXT record reaches past the end of its RDATA.
    BadText,
}

/// Why a message cannot be written to the wire.
#[derive(Debug, Clone, Copy, PartialEq, Eq, Structural)]
pub enum EncodeError {
    /// A label of a name is longer than the 255 bytes that a length byte can
    /// announce.
    LabelTooLong,
}

/// Reading a type back from its own code gives the type.
pub proof fn lemma_record_type_code_roundtrip(t: RecordType)
    ensures
        1 <= t.code() <= 16,
        RecordType::of_code(t.code()) == Some(t),
{
}

/// Reading a class back from its own code gives the class.
pub proof fn lemma_record_class_code_roundtrip(c: RecordClass)
    ensures
        1 <= c.code() <= 4,
        RecordClass::of_code(c.code()) == Some(c),
{
}

} // verus!

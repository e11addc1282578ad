//! Record-type and class codes: closed enumerations with fallible
//! conversions from their 16-bit wire codes.

use vstd::prelude::*;

verus! {

/// The kind of resource record a question asks for or an answer carries.
#[derive(Debug, Clone, Copy, PartialEq, Eq, Structural)]
pub enum RecordType {
    /// a host address
    A,
    /// authoritative name server
    NS,
    /// mail destination (obsolete - use MX)
    MD,
    /// mail forwarder (obsolete - use MX)
    MF,
    /// canonical name for an alias
    CNAME,
    /// start of a zone of authority
    SOA,
    /// mailbox domain name (experimental)
    MB,
    /// mail group member (experimental)
    MG,
    /// mail rename domain name (experimental)
    MR,
    /// null resource record (experimental)
    NULL,
    /// well known service description
    WKS,
    /// domain name pointer
    PTR,
    /// host information
    HINFO,
    /// mailbox or mail list information
    MINFO,
    /// mail exchange
    MX,
    /// text strings
    TXT,
}

/// The protocol family a record belongs to.
#[derive(Debug, Clone, Copy, PartialEq, Eq, Structural)]
pub enum ClassType {
    /// the internet
    IN,
    /// CSNET class (obsolete)
    CS,
    /// CHAOS class
    CH,
    /// Hesiod
    HS,
}

/// The 16-bit wire code of a record type.
pub open spec fn spec_record_type_code(t: RecordType) -> u16 {
    match t {
        RecordType::A => 1,
        RecordType::NS => 2,
        RecordType::MD => 3,
        RecordType::MF => 4,
        RecordType::CNAME => 5,
        RecordType::SOA => 6,
        RecordType::MB => 7,
        RecordType::MG => 8,
        RecordType::MR => 9,
        RecordType::NULL => 10,
        RecordType::WKS => 11,
        RecordType::PTR => 12,
        RecordType::HINFO => 13,
        RecordType::MINFO => 14,
        RecordType::MX => 15,
        RecordType::TXT => 16,
    }
}

/// The record type a 16-bit wire code stands for, if any.
pub open spec fn spec_record_type_of_code(code: u16) -> Option<RecordType> {
    if code == 1 {
        Some(RecordType::A)
    } else if code == 2 {
        Some(RecordType::NS)
    } else if code == 3 {
        Some(RecordType::MD)
    } else if code == 4 {
        Some(RecordType::MF)
    } else if code == 5 {
        Some(RecordType::CNAME)
    } else if code == 6 {
        Some(RecordType::SOA)
    } else if code == 7 {
        Some(RecordType::MB)
    } else if code == 8 {
        Some(RecordType::MG)
    } else if code == 9 {
        Some(RecordType::MR)
    } else if code == 10 {
        Some(RecordType::NULL)
    } else if code == 11 {
        Some(RecordType::WKS)
    } else if code == 12 {
        Some(RecordType::PTR)
    } else if code == 13 {
        Some(RecordType::HINFO)
    } else if code == 14 {
        Some(RecordType::MINFO)
    } else if code == 15 {
        Some(RecordType::MX)
    } else if code == 16 {
        Some(RecordType::TXT)
    } else {
        None
    }
}

/// The 16-bit wire code of a class.
pub open spec fn spec_class_type_code(c: ClassType) -> u16 {
    match c {
        ClassType::IN => 1,
        ClassType::CS => 2,
        ClassType::CH => 3,
        ClassType::HS => 4,
    }
}

/// The class a 16-bit wire code stands for, if any.
pub open spec fn spec_class_type_of_code(code: u16) -> Option<ClassType> {
    if code == 1 {
        Some(ClassType::IN)
    } else if code == 2 {
        Some(ClassType::CS)
    } else if code == 3 {
        Some(ClassType::CH)
    } else if code == 4 {
        Some(ClassType::HS)
    } else {
        None
    }
}

impl RecordType {
    /// The code this record type is written as on the wire.
    pub fn to_code(self) -> (code: u16)
        ensures
            code == spec_record_type_code(self),
    {
        match self {
            RecordType::A => 1,
            RecordType::NS => 2,
            RecordType::MD => 3,
            RecordType::MF => 4,
            RecordType::CNAME => 5,
            RecordType::SOA => 6,
            RecordType::MB => 7,
            RecordType::MG => 8,
            RecordType::MR => 9,
            RecordType::NULL => 10,
            RecordType::WKS => 11,
            RecordType::PTR => 12,
            RecordType::HINFO => 13,
            RecordType::MINFO => 14,
            RecordType::MX => 15,
            RecordType::TXT => 16,
        }
    }

    /// Reads a record type back from its wire code; `None` when the code
    /// matches no known record type.
    pub fn from_code(code: u16) -> (r: Option<RecordType>)
        ensures
            r == spec_record_type_of_code(code),
    {
        match code {
            1 => Some(RecordType::A),
            2 => Some(RecordType::NS),
            3 => Some(RecordType::MD),
            4 => Some(RecordType::MF),
            5 => Some(RecordType::CNAME),
            6 => Some(RecordType::SOA),
            7 => Some(RecordType::MB),
            8 => Some(RecordType::MG),
            9 => Some(RecordType::MR),
            10 => Some(RecordType::NULL),
            11 => Some(RecordType::WKS),
            12 => Some(RecordType::PTR),
            13 => Some(RecordType::HINFO),
            14 => Some(RecordType::MINFO),
            15 => Some(RecordType::MX),
            16 => Some(RecordType::TXT),
            _ => None,
        }
    }
}

impl ClassType {
    /// The code this class is written as on the wire.
    pub fn to_code(self) -> (code: u16)
        ensures
            code == spec_class_type_code(self),
    {
        match self {
            ClassType::IN => 1,
            ClassType::CS => 2,
            ClassType::CH => 3,
            ClassType::HS => 4,
        }
    }

    /// Reads a class back from its wire code; `None` when the code matches no
    /// known class.
    pub fn from_code(code: u16) -> (r: Option<ClassType>)
        ensures
            r == spec_class_type_of_code(code),
    {
        match code {
            1 => Some(ClassType::IN),
            2 => Some(ClassType::CS),
            3 => Some(ClassType::CH),
            4 => Some(ClassType::HS),
            _ => None,
        }
    }
}

/// A record type survives the trip through its wire code.
pub proof fn lemma_record_type_code_round_trip(t: RecordType)
    ensures
        spec_record_type_of_code(spec_record_type_code(t)) == Some(t),
{
}

/// A class survives the trip through its wire code.
pub proof fn lemma_class_type_code_round_trip(c: ClassType)
    ensures
        spec_class_type_of_code(spec_class_type_code(c)) == Some(c),
{
}

} // verus!

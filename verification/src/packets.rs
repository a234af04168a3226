//! Fields of the over-the-air mesh packet header.
use vstd::prelude::*;

verus! {

/// How a mesh packet is routed: bits 0-1 of the header byte.
#[derive(Debug, Clone, Copy, PartialEq, Eq)]
pub enum RouteType {
    /// Flooded, with a transport code.
    TransportFlood,
    /// Flooded to every node.
    Flood,
    /// Sent along a known path.
    Direct,
    /// Sent along a known path, with a transport code.
    TransportDirect,
}

/// The route type that bits 0-1 of `b` select.
pub open spec fn route_type_of(b: u8) -> RouteType {
    if b % 4 == 0 {
        RouteType::TransportFlood
    } else if b % 4 == 1 {
        RouteType::Flood
    } else if b % 4 == 2 {
        RouteType::Direct
    } else {
        RouteType::TransportDirect
    }
}

impl RouteType {
    /// Whether packets of this route carry a 4-byte transport code.
    pub open spec fn spec_has_transport_code(self) -> bool {
        self == RouteType::TransportFlood || self == RouteType::TransportDirect
    }

    /// Whether packets of this route carry a 4-byte transport code.
    pub fn has_transport_code(&self) -> (b: bool)
        ensures
            b == self.spec_has_transport_code(),
    {
        match self {
            RouteType::TransportFlood => true,
            RouteType::TransportDirect => true,
            _ => false,
        }
    }
}

impl From<u8> for RouteType {
    /// Decodes bits 0-1 of `b`; the other bits are ignored.
    fn from(b: u8) -> (r: Self) {
        let bits = b % 4;
        if bits == 0 {
            RouteType::TransportFlood
        } else if bits == 1 {
            RouteType::Flood
        } else if bits == 2 {
            RouteType::Direct
        } else {
            RouteType::TransportDirect
        }
    }
}

impl vstd::std_specs::convert::FromSpecImpl<u8> for RouteType {
    open spec fn obeys_from_spec() -> bool {
        true
    }

    open spec fn from_spec(b: u8) -> Self {
        route_type_of(b)
    }
}

/// What a mesh packet carries: bits 2-5 of the header byte.
#[derive(Debug, Clone, Copy, PartialEq, Eq)]
pub enum PayloadType {
    /// A request.
    Req,
    /// A response to a request.
    Response,
    /// A text message.
    TextMsg,
    /// An acknowledgement.
    Ack,
    /// A node advertisement.
    Advert,
    /// A group text message.
    GrpTxt,
    /// Group data.
    GrpData,
    /// An anonymous request.
    AnonReq,
    /// A returned path.
    Path,
    /// A trace.
    Trace,
    /// One part of a multipart packet.
    Multipart,
    /// A control packet.
    Control,
    /// Value 12, not assigned.
    Reserved12,
    /// Value 13, not assigned.
    Reserved13,
    /// Value 14, not assigned.
    Reserved14,
    /// Application-defined raw data.
    RawCustom,
}

/// The payload type that the low four bits of `b` select.
pub open spec fn payload_type_of(b: u8) -> PayloadType {
    let v = b % 16;
    if v == 0 {
        PayloadType::Req
    } else if v == 1 {
        PayloadType::Response
    } else if v == 2 {
        PayloadType::TextMsg
    } else if v == 3 {
        PayloadType::Ack
    } else if v == 4 {
        PayloadType::Advert
    } else if v == 5 {
        PayloadType::GrpTxt
    } else if v == 6 {
        PayloadType::GrpData
    } else if v == 7 {
        PayloadType::AnonReq
    } else if v == 8 {
        PayloadType::Path
    } else if v == 9 {
        PayloadType::Trace
    } else if v == 10 {
        PayloadType::Multipart
    } else if v == 11 {
        PayloadType::Control
    } else if v == 12 {
        PayloadType::Reserved12
    } else if v == 13 {
        PayloadType::Reserved13
    } else if v == 14 {
        PayloadType::Reserved14
    } else {
        PayloadType::RawCustom
    }
}

impl From<u8> for PayloadType {
    /// Decodes the low four bits of `b`; the other bits are ignored.
    fn from(b: u8) -> (r: Self) {
        let v = b % 16;
        if v == 0 {
            PayloadType::Req
        } else if v == 1 {
            PayloadType::Response
        } else if v == 2 {
            PayloadType::TextMsg
        } else if v == 3 {
            PayloadType::Ack
        } else if v == 4 {
            PayloadType::Advert
        } else if v == 5 {
            PayloadType::GrpTxt
        } else if v == 6 {
            PayloadType::GrpData
        } else if v == 7 {
            PayloadType::AnonReq
        } else if v == 8 {
            PayloadType::Path
        } else if v == 9 {
            PayloadType::Trace
        } else if v == 10 {
            PayloadType::Multipart
        } else if v == 11 {
            PayloadType::Control
        } else if v == 12 {
            PayloadType::Reserved12
        } else if v == 13 {
            PayloadType::Reserved13
        } else if v == 14 {
            PayloadType::Reserved14
        } else {
            PayloadType::RawCustom
        }
    }
}

impl vstd::std_specs::convert::FromSpecImpl<u8> for PayloadType {
    open spec fn obeys_from_spec() -> bool {
        true
    }

    open spec fn from_spec(b: u8) -> Self {
        payload_type_of(b)
    }
}

} // verus!

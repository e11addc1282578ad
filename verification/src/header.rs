//! The fixed 12-byte message header and its bit-packed flags word.

use vstd::prelude::*;

use crate::errors::DeserializationError;
use crate::helpers::random_u16;
use crate::parser::{be_bytes_of_u16, push_u16_be, u16_of_be_bytes};

verus! {

/// The fixed-size header that opens every message: a transaction identifier,
/// a 16-bit flags word read and written only through the named accessors
/// below, and the four record counts.
#[derive(Debug, Clone, Copy, PartialEq, Eq, Structural)]
pub struct DNSHeader {
    /// transaction identifier copied from request to response
    pub pid: u16,
    /// bit-packed control fields; see the `flag_*` functions for the layout
    pub flags: u16,
    /// number of question records
    pub qdcount: u16,
    /// number of answer records
    pub ancount: u16,
    /// number of authority records
    pub nscount: u16,
    /// number of additional records
    pub arcount: u16,
}

/// The response flag: bit 15 of the flags word.
pub open spec fn flag_qr(flags: u16) -> bool {
    flags & 0x8000 == 0x8000
}

/// The operation code: bits 14 through 11 of the flags word.
pub open spec fn flag_opcode(flags: u16) -> u16 {
    (flags & 0x7800) >> 11
}

/// The authoritative-answer flag: bit 10 of the flags word.
pub open spec fn flag_aa(flags: u16) -> bool {
    flags & 0x0400 == 0x0400
}

/// The truncation flag: bit 9 of the flags word.
pub open spec fn flag_tc(flags: u16) -> bool {
    flags & 0x0200 == 0x0200
}

/// The recursion-desired flag: bit 8 of the flags word.
pub open spec fn flag_rd(flags: u16) -> bool {
    flags & 0x0100 == 0x0100
}

/// The recursion-available flag: bit 7 of the flags word.
pub open spec fn flag_ra(flags: u16) -> bool {
    flags & 0x0080 == 0x0080
}

/// The response code: bits 3 through 0 of the flags word.
pub open spec fn flag_rcode(flags: u16) -> u16 {
    flags & 0x000f
}

/// The reserved bits 6 through 4 of the flags word; no accessor writes them.
pub open spec fn flag_reserved(flags: u16) -> u16 {
    flags & 0x0070
}

/// The twelve bytes a header is written as: identifier, flags, then the four
/// counts, each as a big-endian 16-bit integer.
pub open spec fn spec_header_bytes(h: DNSHeader) -> Seq<u8> {
    be_bytes_of_u16(h.pid) + be_bytes_of_u16(h.flags) + be_bytes_of_u16(h.qdcount)
        + be_bytes_of_u16(h.ancount) + be_bytes_of_u16(h.nscount) + be_bytes_of_u16(h.arcount)
}

/// The header read from the first twelve bytes of a buffer (meaningful only
/// when at least twelve bytes are present).
pub open spec fn spec_parse_header(buf: Seq<u8>) -> DNSHeader {
    DNSHeader {
        pid: u16_of_be_bytes(buf[0], buf[1]),
        flags: u16_of_be_bytes(buf[2], buf[3]),
        qdcount: u16_of_be_bytes(buf[4], buf[5]),
        ancount: u16_of_be_bytes(buf[6], buf[7]),
        nscount: u16_of_be_bytes(buf[8], buf[9]),
        arcount: u16_of_be_bytes(buf[10], buf[11]),
    }
}

/// Round trip for headers: decoding the twelve bytes a header encodes to
/// gives the header back, field for field.
pub proof fn lemma_header_round_trip(h: DNSHeader)
    ensures
        spec_header_bytes(h).len() == 12,
        spec_parse_header(spec_header_bytes(h)) == h,
{
}

impl DNSHeader {
    /// A fresh header: a random transaction identifier, every flag clear,
    /// every count zero.
    pub fn new() -> (h: Self)
        ensures
            h.flags == 0,
            h.qdcount == 0,
            h.ancount == 0,
            h.nscount == 0,
            h.arcount == 0,
    {
        DNSHeader {
            pid: random_u16(),
            flags: 0,
            qdcount: 0,
            ancount: 0,
            nscount: 0,
            arcount: 0,
        }
    }

    /// Decodes a header from the first twelve bytes of `buf`; fails if fewer
    /// than twelve bytes are available.
    pub fn from_bytes(buf: &[u8]) -> (r: Result<Self, DeserializationError>)
        ensures
            buf@.len() >= 12 ==> r == Ok::<DNSHeader, DeserializationError>(
                spec_parse_header(buf@),
            ),
            buf@.len() < 12 ==> r == Err::<DNSHeader, DeserializationError>(
                DeserializationError::UnexpectedEOF,
            ),
    {
        if buf.len() < 12 {
            return Err(DeserializationError::UnexpectedEOF);
        }
        Ok(
            DNSHeader {
                pid: buf[0] as u16 * 256 + buf[1] as u16,
                flags: buf[2] as u16 * 256 + buf[3] as u16,
                qdcount: buf[4] as u16 * 256 + buf[5] as u16,
                ancount: buf[6] as u16 * 256 + buf[7] as u16,
                nscount: buf[8] as u16 * 256 + buf[9] as u16,
                arcount: buf[10] as u16 * 256 + buf[11] as u16,
            },
        )
    }

    /// Encodes the header as exactly twelve bytes; never fails.
    pub fn to_bytes(&self) -> (r: [u8; 12])
        ensures
            r@ == spec_header_bytes(*self),
    {
        let bytes: [u8; 12] = [
            (self.pid / 256) as u8,
            (self.pid % 256) as u8,
            (self.flags / 256) as u8,
            (self.flags % 256) as u8,
            (self.qdcount / 256) as u8,
            (self.qdcount % 256) as u8,
            (self.ancount / 256) as u8,
            (self.ancount % 256) as u8,
            (self.nscount / 256) as u8,
            (self.nscount % 256) as u8,
            (self.arcount / 256) as u8,
            (self.arcount % 256) as u8,
        ];
        proof {
            assert(bytes@ =~= spec_header_bytes(*self));
        }
        bytes
    }

    /// Encodes the header as a twelve-byte vector; the same bytes as
    /// `to_bytes`, for callers that collect into a growing buffer.
    pub fn to_bytes_vec(&self) -> (r: Vec<u8>)
        ensures
            r@ == spec_header_bytes(*self),
    {
        let mut out: Vec<u8> = Vec::new();
        push_u16_be(&mut out, self.pid);
        push_u16_be(&mut out, self.flags);
        push_u16_be(&mut out, self.qdcount);
        push_u16_be(&mut out, self.ancount);
        push_u16_be(&mut out, self.nscount);
        push_u16_be(&mut out, self.arcount);
        proof {
            assert(out@ =~= spec_header_bytes(*self));
        }
        out
    }

    /// Zeroes the whole flags word; used when building a fresh response
    /// header from scratch.
    pub fn clear_flags(&mut self)
        ensures
            *final(self) == (DNSHeader { flags: 0, ..*old(self) }),
    {
        self.flags = 0;
    }

    /// Sets or clears the response flag (bit 15) without disturbing any other
    /// bit.
    pub fn set_qr(&mut self, set: bool)
        ensures
            *final(self) == (DNSHeader {
                flags: (old(self).flags & 0x7fff) | ((if set {
                    1u16
                } else {
                    0u16
                }) << 15),
                ..*old(self)
            }),
            flag_qr(final(self).flags) == set,
            flag_opcode(final(self).flags) == flag_opcode(old(self).flags),
            flag_aa(final(self).flags) == flag_aa(old(self).flags),
            flag_tc(final(self).flags) == flag_tc(old(self).flags),
            flag_rd(final(self).flags) == flag_rd(old(self).flags),
            flag_ra(final(self).flags) == flag_ra(old(self).flags),
            flag_rcode(final(self).flags) == flag_rcode(old(self).flags),
            flag_reserved(final(self).flags) == flag_reserved(old(self).flags),
    {
        let bit: u16 = if set {
            1
        } else {
            0
        };
        // clear the most significant bit, then set it as asked
        self.flags = (self.flags & 0x7fff) | (bit << 15);
        proof {
            let of = old(self).flags;
            let nf = self.flags;
            assert(flag_qr(nf) == set && flag_opcode(nf) == flag_opcode(of) && flag_aa(nf)
                == flag_aa(of) && flag_tc(nf) == flag_tc(of) && flag_rd(nf) == flag_rd(of)
                && flag_ra(nf) == flag_ra(of) && flag_rcode(nf) == flag_rcode(of) && flag_reserved(nf) == flag_reserved(of))
                by (bit_vector)
                requires
                    nf == (of & 0x7fff) | ((if set {
                        1u16
                    } else {
                        0u16
                    }) << 15),
            ;
        }
    }

    /// Writes the low four bits of `opcode` into bits 14 through 11 without
    /// disturbing any other bit.
    pub fn set_opcode(&mut self, opcode: u16)
        ensures
            *final(self) == (DNSHeader {
                flags: (old(self).flags & 0x87ff) | ((opcode & 0xf) << 11),
                ..*old(self)
            }),
            flag_opcode(final(self).flags) == opcode & 0xf,
            flag_qr(final(self).flags) == flag_qr(old(self).flags),
            flag_aa(final(self).flags) == flag_aa(old(self).flags),
            flag_tc(final(self).flags) == flag_tc(old(self).flags),
            flag_rd(final(self).flags) == flag_rd(old(self).flags),
            flag_ra(final(self).flags) == flag_ra(old(self).flags),
            flag_rcode(final(self).flags) == flag_rcode(old(self).flags),
            flag_reserved(final(self).flags) == flag_reserved(old(self).flags),
    {
        let op_bits = opcode & 0xf;
        self.flags = (self.flags & 0x87ff) | (op_bits << 11);
        proof {
            let of = old(self).flags;
            let nf = self.flags;
            assert(flag_opcode(nf) == opcode & 0xf && flag_qr(nf) == flag_qr(of) && flag_aa(nf)
                == flag_aa(of) && flag_tc(nf) == flag_tc(of) && flag_rd(nf) == flag_rd(of)
                && flag_ra(nf) == flag_ra(of) && flag_rcode(nf) == flag_rcode(of) && flag_reserved(nf) == flag_reserved(of))
                by (bit_vector)
                requires
                    nf == (of & 0x87ff) | ((opcode & 0xf) << 11),
            ;
        }
    }

    /// Reads the operation code from bits 14 through 11.
    pub fn get_opcode(&self) -> (op: u16)
        ensures
            op == flag_opcode(self.flags),
    {
        (self.flags & 0x7800) >> 11
    }

    /// Sets or clears the authoritative-answer flag (bit 10) without
    /// disturbing any other bit.
    pub fn set_aa(&mut self, set: bool)
        ensures
            *final(self) == (DNSHeader {
                flags: (old(self).flags & 0xfbff) | ((if set {
                    1u16
                } else {
                    0u16
                }) << 10),
                ..*old(self)
            }),
            flag_aa(final(self).flags) == set,
            flag_qr(final(self).flags) == flag_qr(old(self).flags),
            flag_opcode(final(self).flags) == flag_opcode(old(self).flags),
            flag_tc(final(self).flags) == flag_tc(old(self).flags),
            flag_rd(final(self).flags) == flag_rd(old(self).flags),
            flag_ra(final(self).flags) == flag_ra(old(self).flags),
            flag_rcode(final(self).flags) == flag_rcode(old(self).flags),
            flag_reserved(final(self).flags) == flag_reserved(old(self).flags),
    {
        let bit: u16 = if set {
            1
        } else {
            0
        };
        self.flags = (self.flags & 0xfbff) | (bit << 10);
        proof {
            let of = old(self).flags;
            let nf = self.flags;
            assert(flag_aa(nf) == set && flag_qr(nf) == flag_qr(of) && flag_opcode(nf)
                == flag_opcode(of) && flag_tc(nf) == flag_tc(of) && flag_rd(nf) == flag_rd(of)
                && flag_ra(nf) == flag_ra(of) && flag_rcode(nf) == flag_rcode(of) && flag_reserved(nf) == flag_reserved(of))
                by (bit_vector)
                requires
                    nf == (of & 0xfbff) | ((if set {
                        1u16
                    } else {
                        0u16
                    }) << 10),
            ;
        }
    }

    /// Sets or clears the truncation flag (bit 9) without disturbing any
    /// other bit.
    pub fn set_tc(&mut self, set: bool)
        ensures
            *final(self) == (DNSHeader {
                flags: (old(self).flags & 0xfdff) | ((if set {
                    1u16
                } else {
                    0u16
                }) << 9),
                ..*old(self)
            }),
            flag_tc(final(self).flags) == set,
            flag_qr(final(self).flags) == flag_qr(old(self).flags),
            flag_opcode(final(self).flags) == flag_opcode(old(self).flags),
            flag_aa(final(self).flags) == flag_aa(old(self).flags),
            flag_rd(final(self).flags) == flag_rd(old(self).flags),
            flag_ra(final(self).flags) == flag_ra(old(self).flags),
            flag_rcode(final(self).flags) == flag_rcode(old(self).flags),
            flag_reserved(final(self).flags) == flag_reserved(old(self).flags),
    {
        let bit: u16 = if set {
            1
        } else {
            0
        };
        self.flags = (self.flags & 0xfdff) | (bit << 9);
        proof {
            let of = old(self).flags;
            let nf = self.flags;
            assert(flag_tc(nf) == set && flag_qr(nf) == flag_qr(of) && flag_opcode(nf)
                == flag_opcode(of) && flag_aa(nf) == flag_aa(of) && flag_rd(nf) == flag_rd(of)
                && flag_ra(nf) == flag_ra(of) && flag_rcode(nf) == flag_rcode(of) && flag_reserved(nf) == flag_reserved(of))
                by (bit_vector)
                requires
                    nf == (of & 0xfdff) | ((if set {
                        1u16
                    } else {
                        0u16
                    }) << 9),
            ;
        }
    }

    /// Sets or clears the recursion-desired flag (bit 8) without disturbing
    /// any other bit.
    pub fn set_rd(&mut self, set: bool)
        ensures
            *final(self) == (DNSHeader {
                flags: (old(self).flags & 0xfeff) | ((if set {
                    1u16
                } else {
                    0u16
                }) << 8),
                ..*old(self)
            }),
            flag_rd(final(self).flags) == set,
            flag_qr(final(self).flags) == flag_qr(old(self).flags),
            flag_opcode(final(self).flags) == flag_opcode(old(self).flags),
            flag_aa(final(self).flags) == flag_aa(old(self).flags),
            flag_tc(final(self).flags) == flag_tc(old(self).flags),
            flag_ra(final(self).flags) == flag_ra(old(self).flags),
            flag_rcode(final(self).flags) == flag_rcode(old(self).flags),
            flag_reserved(final(self).flags) == flag_reserved(old(self).flags),
    {
        let bit: u16 = if set {
            1
        } else {
            0
        };
        self.flags = (self.flags & 0xfeff) | (bit << 8);
        proof {
            let of = old(self).flags;
            let nf = self.flags;
            assert(flag_rd(nf) == set && flag_qr(nf) == flag_qr(of) && flag_opcode(nf)
                == flag_opcode(of) && flag_aa(nf) == flag_aa(of) && flag_tc(nf) == flag_tc(of)
                && flag_ra(nf) == flag_ra(of) && flag_rcode(nf) == flag_rcode(of) && flag_reserved(nf) == flag_reserved(of))
                by (bit_vector)
                requires
                    nf == (of & 0xfeff) | ((if set {
                        1u16
                    } else {
                        0u16
                    }) << 8),
            ;
        }
    }

    /// Reads the recursion-desired flag from bit 8.
    pub fn get_rd(&self) -> (rd: bool)
        ensures
            rd == flag_rd(self.flags),
    {
        let rd = ((self.flags & 0x0100) >> 8) == 0x1;
        proof {
            let f = self.flags;
            assert((((f & 0x0100) >> 8) == 0x1) == (f & 0x0100 == 0x0100)) by (bit_vector);
        }
        rd
    }

    /// Sets or clears the recursion-available flag (bit 7) without disturbing
    /// any other bit.
    pub fn set_ra(&mut self, set: bool)
        ensures
            *final(self) == (DNSHeader {
                flags: (old(self).flags & 0xff7f) | ((if set {
                    1u16
                } else {
                    0u16
                }) << 7),
                ..*old(self)
            }),
            flag_ra(final(self).flags) == set,
            flag_qr(final(self).flags) == flag_qr(old(self).flags),
            flag_opcode(final(self).flags) == flag_opcode(old(self).flags),
            flag_aa(final(self).flags) == flag_aa(old(self).flags),
            flag_tc(final(self).flags) == flag_tc(old(self).flags),
            flag_rd(final(self).flags) == flag_rd(old(self).flags),
            flag_rcode(final(self).flags) == flag_rcode(old(self).flags),
            flag_reserved(final(self).flags) == flag_reserved(old(self).flags),
    {
        let bit: u16 = if set {
            1
        } else {
            0
        };
        self.flags = (self.flags & 0xff7f) | (bit << 7);
        proof {
            let of = old(self).flags;
            let nf = self.flags;
            assert(flag_ra(nf) == set && flag_qr(nf) == flag_qr(of) && flag_opcode(nf)
                == flag_opcode(of) && flag_aa(nf) == flag_aa(of) && flag_tc(nf) == flag_tc(of)
                && flag_rd(nf) == flag_rd(of) && flag_rcode(nf) == flag_rcode(of) && flag_reserved(nf) == flag_reserved(of))
                by (bit_vector)
                requires
                    nf == (of & 0xff7f) | ((if set {
                        1u16
                    } else {
                        0u16
                    }) << 7),
            ;
        }
    }

    /// Writes the low four bits of `rcode` into bits 3 through 0 without
    /// disturbing any other bit.
    pub fn set_rcode(&mut self, rcode: u16)
        ensures
            *final(self) == (DNSHeader {
                flags: (old(self).flags & 0xfff0) | (rcode & 0xf),
                ..*old(self)
            }),
            flag_rcode(final(self).flags) == rcode & 0xf,
            flag_qr(final(self).flags) == flag_qr(old(self).flags),
            flag_opcode(final(self).flags) == flag_opcode(old(self).flags),
            flag_aa(final(self).flags) == flag_aa(old(self).flags),
            flag_tc(final(self).flags) == flag_tc(old(self).flags),
            flag_rd(final(self).flags) == flag_rd(old(self).flags),
            flag_ra(final(self).flags) == flag_ra(old(self).flags),
            flag_reserved(final(self).flags) == flag_reserved(old(self).flags),
    {
        let rcode_bits = rcode & 0xf;
        self.flags = (self.flags & 0xfff0) | rcode_bits;
        proof {
            let of = old(self).flags;
            let nf = self.flags;
            assert(flag_rcode(nf) == rcode & 0xf && flag_qr(nf) == flag_qr(of) && flag_opcode(nf)
                == flag_opcode(of) && flag_aa(nf) == flag_aa(of) && flag_tc(nf) == flag_tc(of)
                && flag_rd(nf) == flag_rd(of) && flag_ra(nf) == flag_ra(of) && flag_reserved(nf) == flag_reserved(of))
                by (bit_vector)
                requires
                    nf == (of & 0xfff0) | (rcode & 0xf),
            ;
        }
    }

    /// Sets the authority-record count.
    pub fn set_nscount(&mut self, count: u16)
        ensures
            *final(self) == (DNSHeader { nscount: count, ..*old(self) }),
    {
        self.nscount = count;
    }

    /// Sets the question count.
    pub fn set_qdcount(&mut self, count: u16)
        ensures
            *final(self) == (DNSHeader { qdcount: count, ..*old(self) }),
    {
        self.qdcount = count;
    }

    /// Sets the answer count.
    pub fn set_ancount(&mut self, count: u16)
        ensures
            *final(self) == (DNSHeader { ancount: count, ..*old(self) }),
    {
        self.ancount = count;
    }

    /// Sets the additional-record count.
    pub fn set_arcount(&mut self, count: u16)
        ensures
            *final(self) == (DNSHeader { arcount: count, ..*old(self) }),
    {
        self.arcount = count;
    }

    /// Derives the response flags from a request: same transaction identifier,
    /// flags rebuilt from scratch with the response flag set, the opcode and
    /// recursion-desired flag copied over, and response code 4 ("not
    /// implemented") whenever the request asks for anything but a standard
    /// query (opcode 0). Counts are left as they were.
    pub fn from_request_header(&mut self, request_header: &Self)
        ensures
            final(self).pid == request_header.pid,
            flag_qr(final(self).flags),
            flag_opcode(final(self).flags) == flag_opcode(request_header.flags),
            flag_rd(final(self).flags) == flag_rd(request_header.flags),
            flag_rcode(final(self).flags) == (if flag_opcode(request_header.flags) != 0 {
                4u16
            } else {
                0u16
            }),
            !flag_aa(final(self).flags),
            !flag_tc(final(self).flags),
            !flag_ra(final(self).flags),
            flag_reserved(final(self).flags) == 0,
            final(self).qdcount == old(self).qdcount,
            final(self).ancount == old(self).ancount,
            final(self).nscount == old(self).nscount,
            final(self).arcount == old(self).arcount,
    {
        self.pid = request_header.pid;

        self.clear_flags();
        proof {
            assert(!flag_qr(0u16) && flag_opcode(0u16) == 0 && !flag_aa(0u16) && !flag_tc(0u16)
                && !flag_rd(0u16) && !flag_ra(0u16) && flag_rcode(0u16) == 0 && flag_reserved(0u16)
                == 0) by (bit_vector);
        }
        self.set_qr(true);
        let op = request_header.get_opcode();
        proof {
            let f = request_header.flags;
            assert(((f & 0x7800) >> 11) & 0xf == (f & 0x7800) >> 11) by (bit_vector);
        }
        self.set_opcode(op);
        self.set_rd(request_header.get_rd());

        if op != 0 {
            self.set_rcode(0x4);
            proof {
                assert(4u16 & 0xf == 4) by (bit_vector);
            }
        }
    }
}

} // verus!

use vstd::prelude::*;

use crate::capture::CaptureType;
use crate::text::{
    dec_val, parse_time, parse_u16, parse_u32, spec_fields, spec_time_val, split_fields, valid_dec,
    views_of,
};

verus! {

/// Why a line was not a record: some required field is absent, or one of
/// the numeric fields does not read as its kind of number. A line with
/// such an error is skipped; it never touches flow state.
#[derive(Clone, Copy, Debug, PartialEq, Eq, Structural)]
pub enum ParseError {
    MissingField,
    InvalidTime,
    InvalidLength,
    InvalidPort,
    InvalidSequence,
}

/// How many whitespace-separated fields a line must have in each mode.
pub open spec fn required_fields(mode: CaptureType) -> int {
    match mode {
        CaptureType::Ip { aggregate_ports } => if aggregate_ports {
            4
        } else {
            6
        },
        CaptureType::Wlan { .. } => 5,
    }
}

/// Mathematical view of a packet record: the timestamp in integer
/// nanoseconds, endpoints as byte sequences, and unbounded integers for
/// the numeric fields.
pub ghost struct PacketV {
    pub time: int,
    pub src: Seq<u8>,
    pub dst: Seq<u8>,
    pub data_len: int,
    pub src_port: int,
    pub dst_port: int,
    pub seq_number: Option<int>,
}

impl PacketV {
    /// A well-formed record: every numeric field fits its machine type and
    /// a sequence number, when present, lies in the 12-bit space.
    pub open spec fn wf(self) -> bool {
        &&& 0 <= self.time <= u64::MAX
        &&& 0 <= self.data_len <= u32::MAX
        &&& 0 <= self.src_port <= u16::MAX
        &&& 0 <= self.dst_port <= u16::MAX
        &&& match self.seq_number {
            Some(q) => 0 <= q < 4096,
            None => true,
        }
    }
}

/// One packet summary parsed from a line of the decoder's field output.
///
/// The timestamp is in nanoseconds since the capture's origin. Endpoints
/// are kept as the decoder printed them (addresses or MAC addresses as
/// bytes of text). Ports carry the null sentinel `0` under port
/// aggregation and in WLAN mode; `seq_number` is present exactly for WLAN
/// frames and lies in `0..4096`.
#[derive(Debug)]
pub struct Packet {
    pub time: u64,
    pub src: Vec<u8>,
    pub dst: Vec<u8>,
    pub data_len: u32,
    pub src_port: u16,
    pub dst_port: u16,
    pub seq_number: Option<u16>,
}

impl View for Packet {
    type V = PacketV;

    open spec fn view(&self) -> PacketV {
        PacketV {
            time: self.time as int,
            src: self.src@,
            dst: self.dst@,
            data_len: self.data_len as int,
            src_port: self.src_port as int,
            dst_port: self.dst_port as int,
            seq_number: match self.seq_number {
                Some(q) => Some(q as int),
                None => None,
            },
        }
    }
}

/// What a decoder line denotes under a capture mode.
///
/// The field order is `time src dst length`, followed in IP mode without
/// port aggregation by `src_port dst_port`, and in WLAN mode by the
/// sequence number; with port aggregation both ports are the null
/// sentinel. Extra fields are ignored.
pub open spec fn spec_parse(line: Seq<u8>, mode: CaptureType) -> Result<PacketV, ParseError> {
    let fs = spec_fields(line);
    if fs.len() < required_fields(mode) {
        Err(ParseError::MissingField)
    } else if spec_time_val(fs[0]) is None {
        Err(ParseError::InvalidTime)
    } else if !valid_dec(fs[3], u32::MAX as int) {
        Err(ParseError::InvalidLength)
    } else {
        let time = spec_time_val(fs[0])->Some_0;
        let data_len = dec_val(fs[3]);
        match mode {
            CaptureType::Ip { aggregate_ports } => if aggregate_ports {
                Ok(
                    PacketV {
                        time,
                        src: fs[1],
                        dst: fs[2],
                        data_len,
                        src_port: 0,
                        dst_port: 0,
                        seq_number: None,
                    },
                )
            } else if !valid_dec(fs[4], u16::MAX as int) || !valid_dec(fs[5], u16::MAX as int) {
                Err(ParseError::InvalidPort)
            } else {
                Ok(
                    PacketV {
                        time,
                        src: fs[1],
                        dst: fs[2],
                        data_len,
                        src_port: dec_val(fs[4]),
                        dst_port: dec_val(fs[5]),
                        seq_number: None,
                    },
                )
            },
            CaptureType::Wlan { .. } => if !valid_dec(fs[4], 4095) {
                Err(ParseError::InvalidSequence)
            } else {
                Ok(
                    PacketV {
                        time,
                        src: fs[1],
                        dst: fs[2],
                        data_len,
                        src_port: 0,
                        dst_port: 0,
                        seq_number: Some(dec_val(fs[4])),
                    },
                )
            },
        }
    }
}

impl Packet {
    /// Parse one line of the decoder's field output under the given
    /// capture mode.
    pub fn from_tshark(line: &[u8], capture_type: &CaptureType) -> (r: Result<Packet, ParseError>)
        ensures
            match (r, spec_parse(line@, *capture_type)) {
                (Ok(p), Ok(pv)) => p@ == pv && p@.wf(),
                (Err(e1), Err(e2)) => e1 == e2,
                _ => false,
            },
    {
        let mut fields = split_fields(line);
        let ghost fs = spec_fields(line@);

        let need: usize = match capture_type {
            CaptureType::Ip { aggregate_ports } => if *aggregate_ports {
                4
            } else {
                6
            },
            CaptureType::Wlan { .. } => 5,
        };
        if fields.len() < need {
            return Err(ParseError::MissingField);
        }
        proof {
            assert(views_of(fields@)[0] == fields@[0]@);
            assert(views_of(fields@)[1] == fields@[1]@);
            assert(views_of(fields@)[2] == fields@[2]@);
            assert(views_of(fields@)[3] == fields@[3]@);
        }

        let time: u64 = match parse_time(fields[0].as_slice()) {
            Some(t) => t,
            None => {
                return Err(ParseError::InvalidTime);
            },
        };
        let data_len: u32 = match parse_u32(fields[3].as_slice()) {
            Some(v) => v,
            None => {
                return Err(ParseError::InvalidLength);
            },
        };

        let mut src_port: u16 = 0;
        let mut dst_port: u16 = 0;
        let mut seq_number: Option<u16> = None;

        match capture_type {
            CaptureType::Ip { aggregate_ports } => if !*aggregate_ports {
                proof {
                    assert(views_of(fields@)[4] == fields@[4]@);
                    assert(views_of(fields@)[5] == fields@[5]@);
                }
                src_port = match parse_u16(fields[4].as_slice()) {
                    Some(v) => v,
                    None => {
                        return Err(ParseError::InvalidPort);
                    },
                };
                dst_port = match parse_u16(fields[5].as_slice()) {
                    Some(v) => v,
                    None => {
                        return Err(ParseError::InvalidPort);
                    },
                };
            },
            CaptureType::Wlan { .. } => {
                proof {
                    assert(views_of(fields@)[4] == fields@[4]@);
                }
                seq_number = match parse_u16(fields[4].as_slice()) {
                    Some(v) => if v <= 4095 {
                        Some(v)
                    } else {
                        return Err(ParseError::InvalidSequence);
                    },
                    None => {
                        return Err(ParseError::InvalidSequence);
                    },
                };
            },
        }

        let src = fields.remove(1);
        let dst = fields.remove(1);
        proof {
            assert(src@ == fs[1]);
            assert(dst@ == fs[2]);
        }

        Ok(Packet { time, src, dst, data_len, src_port, dst_port, seq_number })
    }
}

} // verus!

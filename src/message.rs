//! Decoded Mode-S / Mode-A/C messages, and the event records a receiver
//! reports beside them.
use vstd::prelude::*;
use vstd::string::StringExecFns;
use std::cmp::Ordering;
use std::collections::BTreeMap;
use crate::altitude::{ac12_as_ac13, decode_ac12, decode_ac13, decode_ac13_result};
use crate::crc::{checksum, checksum_compare, checksum_matches, checksum_of, modescrc_buffer_crc, transmitted_crc};
use crate::text::{decimal_of, hex_of, push_decimal, push_hex};

verus! {

/// Downlink format given to Mode-A/C replies, which carry none.
pub const DF_MODEAC: u32 = 32;

pub const DF_EVENT_TIMESTAMP_JUMP: u32 = 33;

pub const DF_EVENT_MODE_CHANGE: u32 = 34;

pub const DF_EVENT_EPOCH_ROLLOVER: u32 = 35;

pub const DF_EVENT_RADARCAPE_STATUS: u32 = 36;

pub const DF_EVENT_RADARCAPE_POSITION: u32 = 37;

/// One of the downlink formats reserved for event records.
pub open spec fn is_event_df(df: u32) -> bool {
    DF_EVENT_TIMESTAMP_JUMP <= df <= DF_EVENT_RADARCAPE_POSITION
}

/// A decoded message, or an event record that a receiver reports.
#[derive(Clone, Debug, PartialEq, Eq)]
pub struct ModesMessage {
    /// Receiver clock ticks.
    pub timestamp: u64,
    /// Signal level.
    pub signal: u8,
    /// Downlink format, or one of the reserved formats above.
    pub df: u32,
    /// Navigation uncertainty category of a position message, else zero.
    pub nuc: u32,
    /// The position is in even CPR format.
    pub even_cpr: bool,
    /// The position is in odd CPR format.
    pub odd_cpr: bool,
    /// The message decoded and its address can be trusted.
    pub valid: bool,
    /// Parity residual of the payload.
    pub crc: u32,
    /// 24-bit ICAO address (or Mode-A/C code), zero where unknown.
    pub address: i32,
    /// Altitude in feet, where the message carries a decodable one.
    pub altitude: Option<i32>,
    /// The payload.
    pub data: Vec<u8>,
    /// Length of the payload.
    pub datalen: usize,
    /// Key/value diagnostics of an event record.
    pub eventdata: BTreeMap<String, String>,
}

/// What decoding fills in of a message.
pub struct MessageFields {
    pub df: u32,
    pub nuc: u32,
    pub even_cpr: bool,
    pub odd_cpr: bool,
    pub valid: bool,
    pub crc: u32,
    pub address: i32,
    pub altitude: Option<i32>,
}

pub open spec fn fields_of(m: ModesMessage) -> MessageFields {
    MessageFields {
        df: m.df,
        nuc: m.nuc,
        even_cpr: m.even_cpr,
        odd_cpr: m.odd_cpr,
        valid: m.valid,
        crc: m.crc,
        address: m.address,
        altitude: m.altitude,
    }
}

/// Nothing decoded, under downlink format `df`.
pub open spec fn blank_fields(df: u32) -> MessageFields {
    MessageFields {
        df,
        nuc: 0,
        even_cpr: false,
        odd_cpr: false,
        valid: false,
        crc: 0,
        address: 0,
        altitude: None,
    }
}

/// The downlink format in the top five bits of a Mode-S payload.
pub open spec fn df_of(data: Seq<u8>) -> u32 {
    ((data[0] >> 3u8) & 31u8) as u32
}

/// The formats that are decoded.
pub open spec fn is_known_df(df: u32) -> bool {
    df == 0 || df == 4 || df == 5 || df == 11 || df == 16 || df == 17 || df == 18 || df == 20
        || df == 21
}

/// Parity residual: the computed checksum XOR the one the payload carries.
/// Zero for an intact DF11/17/18 message; the sender's address for replies
/// to an interrogation.
pub open spec fn residual_of(data: Seq<u8>) -> u32 {
    checksum_of(data, None) ^ transmitted_crc(data, data.len())
}

/// The ICAO address in bytes 1-3.
pub open spec fn icao_of(data: Seq<u8>) -> i32 {
    (data[1] as int * 0x1_0000 + data[2] as int * 0x100 + data[3] as int) as i32
}

/// The 13-bit altitude code of a surveillance reply: bits [4:0] of byte 2,
/// then byte 3.
pub open spec fn ac13_field_of(data: Seq<u8>) -> u32 {
    (((data[2] & 0x1fu8) as u32) * 0x100 + data[3] as u32) as u32
}

/// The 12-bit altitude code of an airborne position message: byte 5, then
/// the high nibble of byte 6.
pub open spec fn ac12_field_of(data: Seq<u8>) -> u32 {
    ((data[5] as u32) * 0x10 + (data[6] >> 4u8) as u32) as u32
}

/// The extended squitter type code, in the top five bits of byte 4.
pub open spec fn metype_of(data: Seq<u8>) -> u8 {
    data[4] >> 3u8
}

/// An airborne position type code.
pub open spec fn is_position_metype(t: u8) -> bool {
    (9 <= t <= 18) || (20 <= t <= 21)
}

/// Navigation uncertainty category of an airborne position type code.
pub open spec fn nuc_of(t: u8) -> u32 {
    if t == 22 {
        0
    } else if t <= 18 {
        (18 - t) as u32
    } else {
        (29 - t) as u32
    }
}

/// What decoding a payload gives.
pub open spec fn decoded_fields(data: Seq<u8>) -> MessageFields {
    if data.len() == 2 {
        MessageFields {
            df: DF_MODEAC,
            address: (data[0] as int * 0x100 + data[1] as int) as i32,
            valid: true,
            ..blank_fields(DF_MODEAC)
        }
    } else if data.len() == 0 {
        blank_fields(0)
    } else if data.len() != (if df_of(data) < 16 { 7int } else { 14int }) || !is_known_df(
        df_of(data),
    ) {
        blank_fields(df_of(data))
    } else {
        let df = df_of(data);
        let crc = residual_of(data);
        let base = MessageFields { crc, ..blank_fields(df) };
        if df == 0 || df == 4 || df == 16 || df == 20 {
            MessageFields {
                address: crc as i32,
                altitude: decode_ac13_result(ac13_field_of(data)),
                valid: true,
                ..base
            }
        } else if df == 5 || df == 21 || df == 24 {
            MessageFields { address: crc as i32, valid: true, ..base }
        } else if df == 11 {
            if crc < 0x80 {
                MessageFields { address: icao_of(data), valid: true, ..base }
            } else {
                base
            }
        } else if !checksum_matches(data, None) {
            base
        } else if is_position_metype(metype_of(data)) {
            MessageFields {
                address: icao_of(data),
                valid: true,
                nuc: nuc_of(metype_of(data)),
                odd_cpr: data[6] & 0x04u8 != 0,
                even_cpr: data[6] & 0x04u8 == 0,
                altitude: decode_ac13_result(ac12_as_ac13(ac12_field_of(data))),
                ..base
            }
        } else {
            MessageFields { address: icao_of(data), valid: true, ..base }
        }
    }
}

/// A 7-byte DF11 (all-call reply) payload decodes with its parity residual as
/// `crc`. It is valid exactly when the residual has no bit set outside the low
/// seven (where the interrogator's code may sit); a valid one takes bytes 1-3
/// as its address, an invalid one keeps address zero.
pub proof fn lemma_df11_validity(data: Seq<u8>)
    requires
        data.len() == 7,
        df_of(data) == 11,
    ensures
        decoded_fields(data).df == 11,
        decoded_fields(data).crc == residual_of(data),
        decoded_fields(data).valid <==> residual_of(data) & !0x7fu32 == 0,
        decoded_fields(data).valid ==> decoded_fields(data).address == icao_of(data),
        !decoded_fields(data).valid ==> decoded_fields(data).address == 0,
{
    let r = residual_of(data);
    assert(r & !0x7fu32 == 0 <==> r < 0x80) by (bit_vector);
}

/// The record fields that a message keeps through decoding.
pub open spec fn same_frame(a: ModesMessage, b: ModesMessage) -> bool {
    &&& a.timestamp == b.timestamp
    &&& a.signal == b.signal
    &&& a.data@ == b.data@
    &&& a.datalen == b.datalen
    &&& a.eventdata@ == b.eventdata@
}

impl ModesMessage {
    /// Every field a record holds: length consistent with the payload, and at
    /// most one CPR format.
    pub open spec fn wf(&self) -> bool {
        &&& self.datalen == self.data@.len()
        &&& !(self.even_cpr && self.odd_cpr)
    }

    fn new(
        timestamp: u64,
        signal: u8,
        df: u32,
        nuc: u32,
        even_cpr: bool,
        odd_cpr: bool,
        valid: bool,
        crc: u32,
        address: i32,
        altitude: Option<i32>,
        data: Vec<u8>,
        datalen: usize,
        eventdata: BTreeMap<String, String>,
    ) -> (r: Self)
        ensures
            r.timestamp == timestamp,
            r.signal == signal,
            fields_of(r) == (MessageFields {
                df,
                nuc,
                even_cpr,
                odd_cpr,
                valid,
                crc,
                address,
                altitude,
            }),
            r.data@ == data@,
            r.datalen == datalen,
            r.eventdata@ == eventdata@,
    {
        ModesMessage {
            timestamp,
            signal,
            df,
            nuc,
            even_cpr,
            odd_cpr,
            valid,
            crc,
            address,
            altitude,
            data,
            datalen,
            eventdata,
        }
    }

    fn default() -> (r: Self)
        ensures
            r.timestamp == 0,
            r.signal == 0,
            fields_of(r) == blank_fields(0),
            r.data@.len() == 0,
            r.datalen == 0,
            r.eventdata@ == Map::<String, String>::empty(),
    {
        ModesMessage::new(0, 0, 0, 0, false, false, false, 0, 0, None, Vec::new(), 0, BTreeMap::new())
    }

    /// Fills in the decoded fields from the payload.
    fn decode(&mut self)
        ensures
            same_frame(*final(self), *old(self)),
            fields_of(*final(self)) == decoded_fields(old(self).data@),
    {
        self.valid = false;
        self.nuc = 0;
        self.odd_cpr = false;
        self.even_cpr = false;
        self.crc = 0;
        self.address = 0;
        self.altitude = None;
        let len = self.data.len();
        if len == 2 {
            self.df = DF_MODEAC;
            self.address = (self.data[0] as i32) * 0x100 + (self.data[1] as i32);
            self.valid = true;
            return;
        }
        if len == 0 {
            self.df = 0;
            return;
        }
        let df = ((self.data[0] >> 3u8) & 31u8) as u32;
        self.df = df;
        if (df < 16 && len != 7) || (df >= 16 && len != 14) {
            return;
        }
        if !(df == 0 || df == 4 || df == 5 || df == 11 || df == 16 || df == 17 || df == 18 || df
            == 20 || df == 21) {
            return;
        }
        let crc = checksum(self.data.as_slice(), None) ^ modescrc_buffer_crc(
            self.data.as_slice(),
            None,
        );
        self.crc = crc;
        if df == 0 || df == 4 || df == 16 || df == 20 {
            self.address = crc as i32;
            let ac13 = ((self.data[2] & 0x1fu8) as u32) * 0x100 + self.data[3] as u32;
            self.altitude = decode_ac13(ac13);
            self.valid = true;
        } else if df == 5 || df == 21 || df == 24 {
            self.address = crc as i32;
            self.valid = true;
        } else if df == 11 {
            if crc < 0x80 {
                self.address = icao_address(&self.data);
                self.valid = true;
            }
        } else if checksum_compare(self.data.as_slice(), None) {
            self.address = icao_address(&self.data);
            self.valid = true;
            let metype = self.data[4] >> 3u8;
            if (9 <= metype && metype <= 18) || (20 <= metype && metype <= 21) {
                self.nuc = if metype == 22 {
                    0
                } else if metype <= 18 {
                    (18 - metype) as u32
                } else {
                    (29 - metype) as u32
                };
                if self.data[6] & 0x04u8 != 0 {
                    self.odd_cpr = true;
                } else {
                    self.even_cpr = true;
                }
                let ac12 = (self.data[5] as u32) * 0x10 + (self.data[6] >> 4u8) as u32;
                self.altitude = decode_ac12(ac12);
            }
        }
    }
}

/// The ICAO address in bytes 1-3 of a payload.
fn icao_address(data: &Vec<u8>) -> (r: i32)
    requires
        data@.len() >= 4,
    ensures
        r == icao_of(data@),
{
    (data[1] as i32) * 0x1_0000 + (data[2] as i32) * 0x100 + (data[3] as i32)
}

/// Builds and decodes a message from the first `datalen` bytes of `data`.
pub fn modesmessage_from_buffer(timestamp: u64, signal: u8, data: Vec<u8>, datalen: usize) -> (r:
    ModesMessage)
    requires
        datalen <= data@.len(),
    ensures
        r.wf(),
        r.timestamp == timestamp,
        r.signal == signal,
        r.data@ == data@.take(datalen as int),
        fields_of(r) == decoded_fields(data@.take(datalen as int)),
        r.eventdata@ == Map::<String, String>::empty(),
{
    let mut copydata = data;
    copydata.truncate(datalen);
    let mut message = ModesMessage::default();
    message.timestamp = timestamp;
    message.signal = signal;
    message.data = copydata;
    message.datalen = datalen;
    message.decode();
    message
}

/// Builds an event record: no payload, nothing decoded, and the diagnostics
/// kept as given.
pub fn modesmessage_new_eventmessage(
    msgtype: u32,
    timestamp: u64,
    eventdata: BTreeMap<String, String>,
) -> (r: ModesMessage)
    requires
        is_event_df(msgtype),
    ensures
        r.wf(),
        r.timestamp == timestamp,
        r.signal == 0,
        fields_of(r) == blank_fields(msgtype),
        r.data@.len() == 0,
        r.eventdata@ == eventdata@,
{
    let mut message = ModesMessage::default();
    message.df = msgtype;
    message.timestamp = timestamp;
    message.eventdata = eventdata;
    message
}

impl ModesMessage {
    /// Builds and decodes a message from a payload of 2, 7 or 14 bytes; an
    /// error for any other length or for a signal level above 255.
    pub fn from_buffer(timestamp: u64, signal: u32, data: Vec<u8>) -> (r: Result<Self, &'static str>)
        ensures
            match r {
                Ok(m) => {
                    &&& signal <= 255
                    &&& (data@.len() == 2 || data@.len() == 7 || data@.len() == 14)
                    &&& m.wf()
                    &&& m.timestamp == timestamp
                    &&& m.signal == signal
                    &&& m.data@ == data@
                    &&& fields_of(m) == decoded_fields(data@)
                    &&& m.eventdata@ == Map::<String, String>::empty()
                },
                Err(_) => signal > 255 || !(data@.len() == 2 || data@.len() == 7 || data@.len()
                    == 14),
            },
    {
        let datalen = data.len();
        if signal > 255 {
            return Err("signal level out of range");
        }
        if datalen != 2 && datalen != 7 && datalen != 14 {
            return Err("payload must be 2, 7 or 14 bytes");
        }
        let message = modesmessage_from_buffer(timestamp, signal as u8, data, datalen);
        assert(data@.take(datalen as int) == data@);
        Ok(message)
    }

    /// Builds an event record of one of the reserved event formats.
    pub fn new_event_message(event_type: u32, timestamp: u64, eventdata: BTreeMap<String, String>) -> (r:
        Self)
        requires
            is_event_df(event_type),
        ensures
            r.wf(),
            r.timestamp == timestamp,
            r.signal == 0,
            fields_of(r) == blank_fields(event_type),
            r.data@.len() == 0,
            r.eventdata@ == eventdata@,
    {
        modesmessage_new_eventmessage(event_type, timestamp, eventdata)
    }
}

/// One mixing step of the one-at-a-time hash.
pub open spec fn oaat_step(h: u32, b: u8) -> u32 {
    let h1 = h.wrapping_add(b as u32);
    let h2 = h1.wrapping_add(h1 << 10u32);
    h2 ^ (h2 >> 6u32)
}

/// The one-at-a-time state after the first `n` bytes.
pub open spec fn oaat_over(bytes: Seq<u8>, n: nat) -> u32
    decreases n,
{
    if n == 0 {
        0
    } else {
        oaat_step(oaat_over(bytes, (n - 1) as nat), bytes[n - 1])
    }
}

/// The final avalanche of the one-at-a-time hash.
pub open spec fn oaat_finish(h: u32) -> u32 {
    let h1 = h.wrapping_add(h << 3u32);
    let h2 = h1 ^ (h1 >> 11u32);
    h2.wrapping_add(h2 << 15u32)
}

/// The hash of a payload: one-at-a-time over at most its first four bytes.
pub open spec fn payload_hash(data: Seq<u8>) -> u32 {
    oaat_finish(oaat_over(data, if data.len() < 4 { data.len() } else { 4 }))
}

/// Payloads ordered by length, then byte by byte.
pub open spec fn payload_order(a: Seq<u8>, b: Seq<u8>) -> Ordering {
    if a.len() < b.len() {
        Ordering::Less
    } else if a.len() > b.len() {
        Ordering::Greater
    } else {
        bytes_order(a, b, 0)
    }
}

/// Equal-length byte strings ordered from position `i` on by their first
/// differing byte.
pub open spec fn bytes_order(a: Seq<u8>, b: Seq<u8>, i: int) -> Ordering
    decreases a.len() - i,
{
    if i < 0 || i >= a.len() || i >= b.len() {
        Ordering::Equal
    } else if a[i] < b[i] {
        Ordering::Less
    } else if a[i] > b[i] {
        Ordering::Greater
    } else {
        bytes_order(a, b, i + 1)
    }
}

/// The name of an event format that has one.
pub open spec fn event_name(df: u32) -> Option<Seq<char>> {
    if df == DF_EVENT_TIMESTAMP_JUMP {
        Some("DF_EVENT_TIMESTAMP_JUMP"@)
    } else if df == DF_EVENT_MODE_CHANGE {
        Some("DF_EVENT_MODE_CHANGE"@)
    } else if df == DF_EVENT_EPOCH_ROLLOVER {
        Some("DF_EVENT_EPOCH_ROLLOVER"@)
    } else if df == DF_EVENT_RADARCAPE_STATUS {
        Some("DF_EVENT_RADARCAPE_STATUS"@)
    } else {
        None
    }
}

/// The name of an event format, where it has one.
pub fn df_event_name(df: u32) -> (r: Option<String>)
    ensures
        match event_name(df) {
            Some(n) => r is Some && r->Some_0@ == n,
            None => r is None,
        },
{
    if df == DF_EVENT_TIMESTAMP_JUMP {
        Some(String::from_str("DF_EVENT_TIMESTAMP_JUMP"))
    } else if df == DF_EVENT_MODE_CHANGE {
        Some(String::from_str("DF_EVENT_MODE_CHANGE"))
    } else if df == DF_EVENT_EPOCH_ROLLOVER {
        Some(String::from_str("DF_EVENT_EPOCH_ROLLOVER"))
    } else if df == DF_EVENT_RADARCAPE_STATUS {
        Some(String::from_str("DF_EVENT_RADARCAPE_STATUS"))
    } else {
        None
    }
}

/// The text form of an event record's diagnostics, as std's `Debug` writes
/// a map. It depends on the keys and values alone.
pub uninterp spec fn map_debug_text(m: Map<Seq<char>, Seq<char>>) -> Seq<char>;

/// Relies on the `Debug` impl of std's `BTreeMap` (through `format!`) for
/// the text form of a map of strings.
#[verifier::external_body]
fn event_data_text(m: &BTreeMap<String, String>) -> (r: String)
    ensures
        r@ == map_debug_text(m.deep_view()),
{
    format!("{:?}", m)
}

/// The text form of a record: its payload in lowercase hex, or, for a record
/// without one, the event name (or `DF` and the format number), `@`, the
/// timestamp and the diagnostics.
pub open spec fn message_text(m: ModesMessage) -> Seq<char> {
    if m.data@.len() > 0 {
        hex_of(m.data@, false)
    } else {
        let name = match event_name(m.df) {
            Some(n) => n,
            None => "DF"@ + decimal_of(m.df as nat),
        };
        name + "@"@ + decimal_of(m.timestamp as nat) + ":"@ + map_debug_text(m.eventdata.deep_view())
    }
}

impl ModesMessage {
    /// Length of the payload.
    pub fn len(&self) -> (r: usize)
        ensures
            r == self.datalen,
    {
        self.datalen
    }

    /// One-at-a-time hash of at most the first four payload bytes.
    pub fn hash(&self) -> (r: u32)
        ensures
            r == payload_hash(self.data@),
    {
        let n: usize = if self.data.len() < 4 {
            self.data.len()
        } else {
            4
        };
        let mut hash: u32 = 0;
        let mut i: usize = 0;
        while i < n
            invariant
                i <= n,
                n <= self.data@.len(),
                n == (if self.data@.len() < 4 { self.data@.len() } else { 4 }),
                hash == oaat_over(self.data@, i as nat),
            decreases n - i,
        {
            hash = hash.wrapping_add(self.data[i] as u32);
            hash = hash.wrapping_add(hash << 10u32);
            hash = hash ^ (hash >> 6u32);
            i += 1;
        }
        hash = hash.wrapping_add(hash << 3u32);
        hash = hash ^ (hash >> 11u32);
        hash = hash.wrapping_add(hash << 15u32);
        hash
    }

    /// Orders records by payload length, then by payload bytes.
    pub fn compare(&self, other: &Self) -> (r: Ordering)
        ensures
            r == payload_order(self.data@, other.data@),
    {
        let n = self.data.len();
        if n != other.data.len() {
            return if n < other.data.len() {
                Ordering::Less
            } else {
                Ordering::Greater
            };
        }
        let mut i: usize = 0;
        while i < n
            invariant
                i <= n,
                n == self.data@.len(),
                n == other.data@.len(),
                bytes_order(self.data@, other.data@, i as int) == bytes_order(
                    self.data@,
                    other.data@,
                    0,
                ),
            decreases n - i,
        {
            if self.data[i] < other.data[i] {
                return Ordering::Less;
            }
            if self.data[i] > other.data[i] {
                return Ordering::Greater;
            }
            i += 1;
        }
        Ordering::Equal
    }

    /// The diagnostics of an event record.
    pub fn eventdata(&self) -> (r: &BTreeMap<String, String>)
        ensures
            r@ == self.eventdata@,
    {
        &self.eventdata
    }

    /// The text form of the record.
    pub fn to_string(&self) -> (r: String)
        ensures
            r@ == message_text(*self),
    {
        let mut out = String::new();
        if self.data.len() > 0 {
            push_hex(&mut out, self.data.as_slice(), false);
            return out;
        }
        match df_event_name(self.df) {
            Some(name) => out.append(name.as_str()),
            None => {
                out.append("DF");
                push_decimal(&mut out, self.df as u64);
            },
        }
        out.append("@");
        push_decimal(&mut out, self.timestamp);
        out.append(":");
        let text = event_data_text(&self.eventdata);
        out.append(text.as_str());
        out
    }
}

} // verus!

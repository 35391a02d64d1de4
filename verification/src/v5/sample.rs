//! Values made from choices: what a generator of test inputs decides once
//! the choices have been drawn. Every value that comes out keeps the rules of
//! its packet and reads back as itself.

use vstd::prelude::*;
use vstd::utf8::*;
use vstd::string::*;
use crate::v5::connect::{
    mqtt_name, Connect, ConnectFlags, ConnectPayload, ConnectProperties, WillProperties,
};
use crate::v5::{ClientID, MqttProtocol, PayloadFormat, QoS, TopicName};
use crate::wire::str_bytes;

verus! {

/// The flags byte with the flags chosen, bit by bit.
pub open spec fn flags_of(
    clean_start: bool,
    will_flag: bool,
    will_qos: QoS,
    will_retain: bool,
    username: bool,
    password: bool,
) -> u8 {
    ((if clean_start {
        2int
    } else {
        0int
    }) + (if will_flag {
        4int
    } else {
        0int
    }) + will_qos.spec_to_u8() * 8 + (if will_retain {
        32int
    } else {
        0int
    }) + (if username {
        64int
    } else {
        0int
    }) + (if password {
        128int
    } else {
        0int
    })) as u8
}

/// The flags of a CONNECT with the flags chosen. The reserved bit is never
/// set.
pub fn sample_flags(
    clean_start: bool,
    will_flag: bool,
    will_qos: QoS,
    will_retain: bool,
    username: bool,
    password: bool,
) -> (flags: ConnectFlags)
    ensures
        flags.0 == flags_of(clean_start, will_flag, will_qos, will_retain, username, password),
        flags.spec_validate() is Ok,
        flags.spec_is_clean_start() == clean_start,
        flags.spec_is_will_flag() == will_flag,
        flags.will_qos_bits() == will_qos.spec_to_u8(),
        flags.spec_is_will_retain() == will_retain,
        flags.spec_is_username() == username,
        flags.spec_is_password() == password,
{
    let a: u8 = if clean_start {
        2
    } else {
        0
    };
    let b: u8 = if will_flag {
        4
    } else {
        0
    };
    let c: u8 = will_qos.to_u8() * 8;
    let d: u8 = if will_retain {
        32
    } else {
        0
    };
    let e: u8 = if username {
        64
    } else {
        0
    };
    let f: u8 = if password {
        128
    } else {
        0
    };
    let x: u8 = a + b + c + d + e + f;
    assert((x & 1 == 0) && ((x & 2) > 0) == (a == 2) && ((x & 4) > 0) == (b == 4) && ((x & 0x18)
        >> 3) == c / 8 && ((x & 32) > 0) == (d == 32) && ((x & 64) > 0) == (e == 64) && ((x & 128)
        > 0) == (f == 128)) by (bit_vector)
        requires
            x == a + b + c + d + e + f,
            a == 0 || a == 2,
            b == 0 || b == 4,
            c == 0 || c == 8 || c == 16,
            d == 0 || d == 32,
            e == 0 || e == 64,
            f == 0 || f == 128,
    ;
    ConnectFlags(x)
}

/// A value that is not 0: `v` and one more, or the largest value.
pub fn sample_nonzero_u16(v: Option<u16>) -> (res: Option<u16>)
    ensures
        res is Some == v is Some,
        res matches Some(x) ==> x != 0 && x == if v->Some_0 == u16::MAX {
            u16::MAX
        } else {
            (v->Some_0 + 1) as u16
        },
{
    match v {
        Some(x) => Some(if x == u16::MAX {
            u16::MAX
        } else {
            x + 1
        }),
        None => None,
    }
}

/// A value that is not 0: `v` and one more, or the largest value.
pub fn sample_nonzero_u32(v: Option<u32>) -> (res: Option<u32>)
    ensures
        res is Some == v is Some,
        res matches Some(x) ==> x != 0 && x == if v->Some_0 == u32::MAX {
            u32::MAX
        } else {
            (v->Some_0 + 1) as u32
        },
{
    match v {
        Some(x) => Some(if x == u32::MAX {
            u32::MAX
        } else {
            x + 1
        }),
        None => None,
    }
}

/// How many user properties a sample gets: up to 3.
pub fn sample_user_props_count(choice: usize) -> (n: usize)
    ensures
        n == choice % 4,
{
    choice % 4
}

/// How many filters a sampled SUBSCRIBE gets: from 1 to 32.
pub fn sample_filter_count(choice: u8) -> (n: usize)
    ensures
        n == choice % 32 + 1,
{
    (choice % 32) as usize + 1
}

/// The payload of a will whose properties are `props`: the bytes chosen where
/// the payload is binary, a fixed text where it is declared to be UTF-8.
pub fn sample_will_payload(props: &WillProperties, binary: Vec<u8>) -> (payload: Vec<u8>)
    ensures
        props.payload_format_indicator == PayloadFormat::Binary ==> payload@ == binary@,
        props.payload_format_indicator == PayloadFormat::Utf8 ==> valid_utf8(payload@),
{
    if props.is_utf8() {
        let text = "will-payload-as-utf8";
        let bytes = crate::wire::copy_range(text.as_bytes(), 0, text.as_bytes().len());
        proof {
            encode_utf8_valid_utf8(text@);
            assert(bytes@ =~= encode_utf8(text@));
        }
        bytes
    } else {
        binary
    }
}

/// A CONNECT made of the parts chosen. Its payload holds a will, a user name
/// and a password exactly where `flags` says so: parts that the flags do not
/// announce are left out, and so is the will flag's due where no will was
/// chosen. The CONNECT keeps the rules of `validate` if the flags do and the
/// properties keep the rules on their values.
pub fn sample_connect(
    flags: ConnectFlags,
    keep_alive: u16,
    properties: Option<ConnectProperties>,
    client_id: ClientID,
    will: Option<(WillProperties, TopicName, Vec<u8>)>,
    username: String,
    password: Vec<u8>,
) -> (c: Connect)
    requires
        flags.spec_validate() is Ok,
        flags.will_qos_bits() != 3,
        flags.spec_is_will_flag() == will is Some,
        properties matches Some(p) ==> p@.spec_validate() is Ok,
        will matches Some(w) ==> (w.0.payload_format_indicator == PayloadFormat::Utf8
            ==> valid_utf8(w.2@)),
    ensures
        c@.spec_validate() is Ok,
        c.flags == flags,
        c.keep_alive == keep_alive,
        c.properties == properties,
        c.payload.client_id == client_id,
        (c.payload.will_properties is Some) == flags.spec_is_will_flag(),
        (c.payload.will_topic is Some) == flags.spec_is_will_flag(),
        (c.payload.will_payload is Some) == flags.spec_is_will_flag(),
        c.payload.username == if flags.spec_is_username() {
            Some(username)
        } else {
            None
        },
        c.payload.password == if flags.spec_is_password() {
            Some(password)
        } else {
            None
        },
        will matches Some(w) ==> c.payload.will_properties == Some(w.0) && c.payload.will_topic
            == Some(w.1) && c.payload.will_payload == Some(w.2),
{
    let (will_properties, will_topic, will_payload) = match will {
        Some((p, t, b)) => (Some(p), Some(t), Some(b)),
        None => (None, None, None),
    };
    let name = "MQTT".to_string();
    proof {
        reveal_strlit("MQTT");
        is_ascii_chars_encode_utf8("MQTT"@);
        assert(str_bytes(name@) =~= mqtt_name());
    }
    Connect {
        protocol_name: name,
        protocol_version: MqttProtocol::V5,
        flags,
        keep_alive,
        properties,
        payload: ConnectPayload {
            client_id,
            will_properties,
            will_topic,
            will_payload,
            username: if flags.is_username() {
                Some(username)
            } else {
                None
            },
            password: if flags.is_password() {
                Some(password)
            } else {
                None
            },
        },
    }
}

} // verus!

//! Enums with and without data, and the lines that describe their values.

use crate::text::{i32_to_string, signed_dec_str};
use vstd::prelude::*;

verus! {

/// An address family, with no data attached.
#[derive(Clone, Copy, Debug, PartialEq, Eq, Structural)]
pub enum IpAddr {
    V4,
    V6,
}

/// The line describing an address family.
pub open spec fn spec_ip_description(ip: IpAddr) -> Seq<char> {
    match ip {
        IpAddr::V4 => "This is an IPv4 address"@,
        IpAddr::V6 => "This is an IPv6 address"@,
    }
}

/// Describes an address family.
pub fn ip_description(ip: IpAddr) -> (r: &'static str)
    ensures
        r@ == spec_ip_description(ip),
{
    match ip {
        IpAddr::V4 => "This is an IPv4 address",
        IpAddr::V6 => "This is an IPv6 address",
    }
}

/// Describes one address of each family.
pub fn basic_enum_example() -> (r: Vec<String>)
    ensures
        r.deep_view() == seq![spec_ip_description(IpAddr::V4), spec_ip_description(IpAddr::V6)],
{
    let ip_v4 = IpAddr::V4;
    let ip_v6 = IpAddr::V6;
    let mut out: Vec<String> = Vec::new();
    out.push(String::from_str(ip_description(ip_v4)));
    out.push(String::from_str(ip_description(ip_v6)));
    proof {
        assert(out.deep_view() =~= seq![
            spec_ip_description(IpAddr::V4),
            spec_ip_description(IpAddr::V6),
        ]);
    }
    out
}

/// An address family carrying the address as text.
pub enum IpAddrWithData {
    V4(String),
    V6(String),
}

/// Builds one address of each family: the loopback addresses.
pub fn enum_with_data_example() -> (r: (IpAddrWithData, IpAddrWithData))
    ensures
        r.0 matches IpAddrWithData::V4(a) && a@ == "127.0.0.1"@,
        r.1 matches IpAddrWithData::V6(a) && a@ == "::1"@,
{
    let ip_v4 = IpAddrWithData::V4(String::from_str("127.0.0.1"));
    let ip_v6 = IpAddrWithData::V6(String::from_str("::1"));
    (ip_v4, ip_v6)
}

/// A message: nothing, a movement, some text, or a color change.
pub enum Message {
    Quit,
    Move { x: i32, y: i32 },
    Write(String),
    ChangeColor(i32, i32, i32),
}

/// The line describing a message.
pub open spec fn spec_message_summary(m: Message) -> Seq<char> {
    match m {
        Message::Quit => "Quit message"@,
        Message::Move { x, y } => "Move to ("@ + signed_dec_str(x as int) + ", "@ + signed_dec_str(
            y as int,
        ) + ")"@,
        Message::Write(text) => "Write message: "@ + text@,
        Message::ChangeColor(r, g, b) => "Change color to RGB("@ + signed_dec_str(r as int) + ", "@
            + signed_dec_str(g as int) + ", "@ + signed_dec_str(b as int) + ")"@,
    }
}

impl Message {
    /// Describes this message.
    pub fn call(&self) -> (r: String)
        ensures
            r@ == spec_message_summary(*self),
    {
        match self {
            Message::Quit => String::from_str("Quit message"),
            Message::Move { x, y } => {
                let mut s = String::from_str("Move to (");
                s.append(i32_to_string(*x).as_str());
                s.append(", ");
                s.append(i32_to_string(*y).as_str());
                s.append(")");
                s
            },
            Message::Write(text) => {
                let mut s = String::from_str("Write message: ");
                s.append(text.as_str());
                s
            },
            Message::ChangeColor(r, g, b) => {
                let mut s = String::from_str("Change color to RGB(");
                s.append(i32_to_string(*r).as_str());
                s.append(", ");
                s.append(i32_to_string(*g).as_str());
                s.append(", ");
                s.append(i32_to_string(*b).as_str());
                s.append(")");
                s
            },
        }
    }
}

/// Builds a text message and describes it.
pub fn message_enum_example() -> (r: String)
    ensures
        r@ == "Write message: "@ + "Hola"@,
{
    let m = Message::Write(String::from_str("Hola"));
    m.call()
}

} // verus!

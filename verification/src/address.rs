//! Validation of the address a server binds to: an IP address and a port.

use crate::ip::{host_of, read_host, HostAddress, HostValue};
use crate::text::{parse_u16, read_u16};
use vstd::prelude::*;
use vstd::string::*;

verus! {

/// The message for a host that is not an IP address.
pub open spec fn invalid_host_message(input: Seq<char>) -> Seq<char> {
    "Invalid hostname '"@ + input + "'. Must be a valid IP address."@
}

/// The address that a text names, or the message that says that it names
/// none. Only IP addresses are hosts here: a host name is refused.
pub open spec fn address_of(input: Seq<char>) -> Result<HostValue, Seq<char>> {
    match host_of(input) {
        Some(address) => Ok(address),
        None => Err(invalid_host_message(input)),
    }
}

/// Validates the text of a host.
pub fn validate_hostname(hostname: &str) -> (r: Result<HostAddress, String>)
    ensures
        match r {
            Ok(address) => address_of(hostname@) == Ok::<HostValue, Seq<char>>(address@),
            Err(message) => address_of(hostname@) == Err::<HostValue, Seq<char>>(message@),
        },
{
    match read_host(hostname) {
        Some(address) => Ok(address),
        None => {
            let mut message = String::from_str("Invalid hostname '");
            message.append(hostname);
            message.append("'. Must be a valid IP address.");
            Err(message)
        },
    }
}

/// The message for a port that is not a 16-bit decimal number.
pub open spec fn invalid_port_message(input: Seq<char>) -> Seq<char> {
    "Invalid port '"@ + input + "'. Must be a number between 1 and 65535."@
}

/// The message for port zero.
pub open spec fn zero_port_message() -> Seq<char> {
    "Port cannot be 0. Must be between 1 and 65535."@
}

/// The port that a text names, or the message that says why it names none.
/// A port is a decimal number from 1 to 65535.
pub open spec fn port_of(input: Seq<char>) -> Result<u16, Seq<char>> {
    match parse_u16(input) {
        Some(port) => if port == 0 {
            Err(zero_port_message())
        } else {
            Ok(port)
        },
        None => Err(invalid_port_message(input)),
    }
}

/// Validates the text of a port number.
pub fn validate_port(port_str: &str) -> (r: Result<u16, String>)
    ensures
        match r {
            Ok(port) => port_of(port_str@) == Ok::<u16, Seq<char>>(port),
            Err(message) => port_of(port_str@) == Err::<u16, Seq<char>>(message@),
        },
{
    match read_u16(port_str) {
        Some(port) => {
            if port == 0 {
                Err(String::from_str("Port cannot be 0. Must be between 1 and 65535."))
            } else {
                Ok(port)
            }
        },
        None => {
            let mut message = String::from_str("Invalid port '");
            message.append(port_str);
            message.append("'. Must be a number between 1 and 65535.");
            Err(message)
        },
    }
}

/// A validated address to listen on. Its port is never zero.
#[derive(Debug, Clone, Copy, PartialEq, Eq)]
pub struct BindAddress {
    host: HostAddress,
    port: u16,
}

/// A bind address as contracts see it.
pub ghost struct BindAddressView {
    pub host: HostValue,
    pub port: u16,
}

/// The bind address that two texts name, or the message for the first of
/// them that is not valid, the host before the port.
pub open spec fn bind_address_of(host: Seq<char>, port: Seq<char>) -> Result<
    BindAddressView,
    Seq<char>,
> {
    match address_of(host) {
        Ok(address) => match port_of(port) {
            Ok(number) => Ok(BindAddressView { host: address, port: number }),
            Err(message) => Err(message),
        },
        Err(message) => Err(message),
    }
}

impl View for BindAddress {
    type V = BindAddressView;

    closed spec fn view(&self) -> BindAddressView {
        BindAddressView { host: self.host@, port: self.port }
    }
}

impl BindAddress {
    #[verifier::type_invariant]
    spec fn has_a_port(self) -> bool {
        self.port != 0
    }

    /// Validates a host and a port.
    pub fn new(hostname: &str, port_str: &str) -> (r: Result<BindAddress, String>)
        ensures
            match r {
                Ok(address) => bind_address_of(hostname@, port_str@) == Ok::<
                    BindAddressView,
                    Seq<char>,
                >(address@),
                Err(message) => bind_address_of(hostname@, port_str@) == Err::<
                    BindAddressView,
                    Seq<char>,
                >(message@),
            },
    {
        match validate_hostname(hostname) {
            Ok(host) => match validate_port(port_str) {
                Ok(port) => Ok(BindAddress { host, port }),
                Err(message) => Err(message),
            },
            Err(message) => Err(message),
        }
    }

    /// The IP address.
    pub fn host(&self) -> (host: HostAddress)
        ensures
            host@ == self@.host,
    {
        self.host
    }

    /// The port, which is at least 1.
    pub fn port(&self) -> (port: u16)
        ensures
            port == self@.port,
            port >= 1,
    {
        proof {
            use_type_invariant(self);
        }
        self.port
    }
}

} // verus!

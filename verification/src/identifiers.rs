//! Stable, IP-free identifiers: networks, members, applications, devices, services and endpoints,
//! and the virtual addresses built from them.
use crate::order::Keyed;
use crate::outside;
use crate::outside::{hex_decode, hex_encode};
use crate::wire;
use crate::wire::{arrays_equal, push_bytes, read_array};
use std::str::FromStr;
use vstd::prelude::*;

verus! {

/// Why a text is not an identifier.
#[derive(Clone, Copy, Debug, PartialEq, Eq)]
pub enum ParseIdError {
    /// The text is not exactly 64 hexadecimal digits.
    InvalidEncoding { kind: &'static str },
}

impl ParseIdError {
    /// The message for people.
    pub fn message(&self) -> (text: &'static str)
        ensures
            text@ == "identifier must be exactly 64 lowercase or uppercase hexadecimal characters"@,
    {
        "identifier must be exactly 64 lowercase or uppercase hexadecimal characters"
    }
}

/// The thirty-two bytes that 64 hexadecimal digits spell.
pub open spec fn id_bytes(text: Seq<u8>) -> Option<Seq<u8>> {
    match outside::hex_bytes(text) {
        Some(bytes) => if bytes.len() == 32 { Some(bytes) } else { None },
        None => None,
    }
}

fn parse_32_bytes(kind: &'static str, value: &str) -> (parsed: Result<[u8; 32], ParseIdError>)
    ensures
        match id_bytes(wire::utf8(value@)) {
            Some(bytes) => parsed matches Ok(array) && array@ == bytes,
            None => parsed == Err::<[u8; 32], ParseIdError>(ParseIdError::InvalidEncoding { kind }),
        },
{
    match hex_decode(value) {
        Some(bytes) => {
            if bytes.len() == 32 {
                let array: [u8; 32] = read_array::<32>(bytes.as_slice(), 0);
                assert(bytes@.subrange(0, 32) =~= bytes@);
                Ok(array)
            } else {
                Err(ParseIdError::InvalidEncoding { kind })
            }
        },
        None => Err(ParseIdError::InvalidEncoding { kind }),
    }
}

/// The digits that print an identifier parse back to its bytes.
pub proof fn lemma_hex_round_trip(bytes: Seq<u8>)
    ensures
        outside::hex_bytes(wire::utf8(outside::hex_text(bytes))) == Some(bytes),
{
    let text = outside::hex_text(bytes);
    assert forall|i: int| 0 <= i < text.len() implies (text[i] as u32) < 128 && outside::hex_value(
        #[trigger] text[i] as u8,
    ) == Some(if i % 2 == 0 { bytes[i / 2] / 16 } else { bytes[i / 2] % 16 }) by {
        let n = if i % 2 == 0 { bytes[i / 2] / 16 } else { bytes[i / 2] % 16 };
        assert(n < 16);
    }
    assert(vstd::utf8::is_ascii_chars(text));
    vstd::utf8::is_ascii_chars_encode_utf8(text);
    let encoded = wire::utf8(text);
    assert(encoded =~= Seq::new(text.len(), |i: int| text[i] as u8));
    assert forall|i: int| 0 <= i < encoded.len() implies outside::hex_value(#[trigger] encoded[i]) is Some by {
        assert(encoded[i] == text[i] as u8);
    }
    assert forall|i: int| 0 <= i < bytes.len() implies (16 * outside::hex_value(encoded[2 * i])->0
        + outside::hex_value(encoded[2 * i + 1])->0) as u8 == #[trigger] bytes[i] by {
        assert(encoded[2 * i] == text[2 * i] as u8);
        assert(encoded[2 * i + 1] == text[2 * i + 1] as u8);
    }
    assert(outside::hex_bytes(encoded)->0 =~= bytes);
}

/// A stable application address scoped to one virtual network.
#[derive(Clone, Copy, Debug, Eq, PartialOrd, Ord, Hash)]
pub struct AppAddr(pub [u8; 32]);

impl View for AppAddr {
    type V = Seq<u8>;

    open spec fn view(&self) -> Seq<u8> {
        self.0@
    }
}

impl vstd::std_specs::cmp::PartialEqSpecImpl for AppAddr {
    open spec fn obeys_eq_spec() -> bool {
        true
    }

    open spec fn eq_spec(&self, other: &Self) -> bool {
        *self == *other
    }
}

impl PartialEq for AppAddr {
    fn eq(&self, other: &Self) -> (equal: bool) {
        arrays_equal(&self.0, &other.0)
    }
}

impl AppAddr {
    /// The identifier with these bytes.
    pub fn from_bytes(bytes: [u8; 32]) -> (id: Self)
        ensures
            id == AppAddr(bytes),
    {
        AppAddr(bytes)
    }

    /// The bytes of the identifier.
    pub fn as_bytes(&self) -> (bytes: &[u8; 32])
        ensures
            *bytes == self.0,
    {
        &self.0
    }

    /// The identifier as 64 lower-case hexadecimal digits.
    pub fn to_text(&self) -> (text: String)
        ensures
            text@ == outside::hex_text(self@),
    {
        hex_encode(self.0.as_slice())
    }

    /// Reads 64 hexadecimal digits, in either case.
    pub fn parse(value: &str) -> (parsed: Result<Self, ParseIdError>)
        ensures
            match id_bytes(wire::utf8(value@)) {
                Some(bytes) => parsed matches Ok(id) && id@ == bytes,
                None => parsed matches Err(ParseIdError::InvalidEncoding { kind }) && kind@
                    == "AppAddr"@,
            },
    {
        match parse_32_bytes("AppAddr", value) {
            Ok(bytes) => Ok(AppAddr(bytes)),
            Err(error) => Err(error),
        }
    }
}

impl FromStr for AppAddr {
    type Err = ParseIdError;

    fn from_str(value: &str) -> (parsed: Result<Self, ParseIdError>)
        ensures
            match id_bytes(wire::utf8(value@)) {
                Some(bytes) => parsed matches Ok(id) && id@ == bytes,
                None => parsed matches Err(ParseIdError::InvalidEncoding { kind }) && kind@
                    == "AppAddr"@,
            },
    {
        AppAddr::parse(value)
    }
}

/// A stable identifier for one isolated virtual network.
#[derive(Clone, Copy, Debug, Eq, PartialOrd, Ord, Hash)]
pub struct NetworkId(pub [u8; 32]);

impl View for NetworkId {
    type V = Seq<u8>;

    open spec fn view(&self) -> Seq<u8> {
        self.0@
    }
}

impl vstd::std_specs::cmp::PartialEqSpecImpl for NetworkId {
    open spec fn obeys_eq_spec() -> bool {
        true
    }

    open spec fn eq_spec(&self, other: &Self) -> bool {
        *self == *other
    }
}

impl PartialEq for NetworkId {
    fn eq(&self, other: &Self) -> (equal: bool) {
        arrays_equal(&self.0, &other.0)
    }
}

impl NetworkId {
    /// The identifier with these bytes.
    pub fn from_bytes(bytes: [u8; 32]) -> (id: Self)
        ensures
            id == NetworkId(bytes),
    {
        NetworkId(bytes)
    }

    /// The bytes of the identifier.
    pub fn as_bytes(&self) -> (bytes: &[u8; 32])
        ensures
            *bytes == self.0,
    {
        &self.0
    }

    /// The identifier as 64 lower-case hexadecimal digits.
    pub fn to_text(&self) -> (text: String)
        ensures
            text@ == outside::hex_text(self@),
    {
        hex_encode(self.0.as_slice())
    }

    /// Reads 64 hexadecimal digits, in either case.
    pub fn parse(value: &str) -> (parsed: Result<Self, ParseIdError>)
        ensures
            match id_bytes(wire::utf8(value@)) {
                Some(bytes) => parsed matches Ok(id) && id@ == bytes,
                None => parsed matches Err(ParseIdError::InvalidEncoding { kind }) && kind@
                    == "NetworkId"@,
            },
    {
        match parse_32_bytes("NetworkId", value) {
            Ok(bytes) => Ok(NetworkId(bytes)),
            Err(error) => Err(error),
        }
    }
}

impl FromStr for NetworkId {
    type Err = ParseIdError;

    fn from_str(value: &str) -> (parsed: Result<Self, ParseIdError>)
        ensures
            match id_bytes(wire::utf8(value@)) {
                Some(bytes) => parsed matches Ok(id) && id@ == bytes,
                None => parsed matches Err(ParseIdError::InvalidEncoding { kind }) && kind@
                    == "NetworkId"@,
            },
    {
        NetworkId::parse(value)
    }
}

/// A stable device identity scoped to one application in one virtual network.
#[derive(Clone, Copy, Debug, Eq, PartialOrd, Ord, Hash)]
pub struct DeviceId(pub [u8; 32]);

impl View for DeviceId {
    type V = Seq<u8>;

    open spec fn view(&self) -> Seq<u8> {
        self.0@
    }
}

impl vstd::std_specs::cmp::PartialEqSpecImpl for DeviceId {
    open spec fn obeys_eq_spec() -> bool {
        true
    }

    open spec fn eq_spec(&self, other: &Self) -> bool {
        *self == *other
    }
}

impl PartialEq for DeviceId {
    fn eq(&self, other: &Self) -> (equal: bool) {
        arrays_equal(&self.0, &other.0)
    }
}

impl DeviceId {
    /// The identifier with these bytes.
    pub fn from_bytes(bytes: [u8; 32]) -> (id: Self)
        ensures
            id == DeviceId(bytes),
    {
        DeviceId(bytes)
    }

    /// The bytes of the identifier.
    pub fn as_bytes(&self) -> (bytes: &[u8; 32])
        ensures
            *bytes == self.0,
    {
        &self.0
    }

    /// The identifier as 64 lower-case hexadecimal digits.
    pub fn to_text(&self) -> (text: String)
        ensures
            text@ == outside::hex_text(self@),
    {
        hex_encode(self.0.as_slice())
    }

    /// Reads 64 hexadecimal digits, in either case.
    pub fn parse(value: &str) -> (parsed: Result<Self, ParseIdError>)
        ensures
            match id_bytes(wire::utf8(value@)) {
                Some(bytes) => parsed matches Ok(id) && id@ == bytes,
                None => parsed matches Err(ParseIdError::InvalidEncoding { kind }) && kind@
                    == "DeviceId"@,
            },
    {
        match parse_32_bytes("DeviceId", value) {
            Ok(bytes) => Ok(DeviceId(bytes)),
            Err(error) => Err(error),
        }
    }
}

impl FromStr for DeviceId {
    type Err = ParseIdError;

    fn from_str(value: &str) -> (parsed: Result<Self, ParseIdError>)
        ensures
            match id_bytes(wire::utf8(value@)) {
                Some(bytes) => parsed matches Ok(id) && id@ == bytes,
                None => parsed matches Err(ParseIdError::InvalidEncoding { kind }) && kind@
                    == "DeviceId"@,
            },
    {
        DeviceId::parse(value)
    }
}

/// A member identity scoped to a virtual network.
#[derive(Clone, Copy, Debug, Eq, PartialOrd, Ord, Hash)]
pub struct MemberId(pub [u8; 32]);

impl View for MemberId {
    type V = Seq<u8>;

    open spec fn view(&self) -> Seq<u8> {
        self.0@
    }
}

impl vstd::std_specs::cmp::PartialEqSpecImpl for MemberId {
    open spec fn obeys_eq_spec() -> bool {
        true
    }

    open spec fn eq_spec(&self, other: &Self) -> bool {
        *self == *other
    }
}

impl PartialEq for MemberId {
    fn eq(&self, other: &Self) -> (equal: bool) {
        arrays_equal(&self.0, &other.0)
    }
}

impl MemberId {
    /// The identifier with these bytes.
    pub fn from_bytes(bytes: [u8; 32]) -> (id: Self)
        ensures
            id == MemberId(bytes),
    {
        MemberId(bytes)
    }

    /// The bytes of the identifier.
    pub fn as_bytes(&self) -> (bytes: &[u8; 32])
        ensures
            *bytes == self.0,
    {
        &self.0
    }

    /// The identifier as 64 lower-case hexadecimal digits.
    pub fn to_text(&self) -> (text: String)
        ensures
            text@ == outside::hex_text(self@),
    {
        hex_encode(self.0.as_slice())
    }

    /// Reads 64 hexadecimal digits, in either case.
    pub fn parse(value: &str) -> (parsed: Result<Self, ParseIdError>)
        ensures
            match id_bytes(wire::utf8(value@)) {
                Some(bytes) => parsed matches Ok(id) && id@ == bytes,
                None => parsed matches Err(ParseIdError::InvalidEncoding { kind }) && kind@
                    == "MemberId"@,
            },
    {
        match parse_32_bytes("MemberId", value) {
            Ok(bytes) => Ok(MemberId(bytes)),
            Err(error) => Err(error),
        }
    }
}

impl FromStr for MemberId {
    type Err = ParseIdError;

    fn from_str(value: &str) -> (parsed: Result<Self, ParseIdError>)
        ensures
            match id_bytes(wire::utf8(value@)) {
                Some(bytes) => parsed matches Ok(id) && id@ == bytes,
                None => parsed matches Err(ParseIdError::InvalidEncoding { kind }) && kind@
                    == "MemberId"@,
            },
    {
        MemberId::parse(value)
    }
}

/// A compact service identifier scoped by an application address.
#[derive(Clone, Copy, Debug, Eq, PartialOrd, Ord, Hash)]
pub struct ServiceId(pub [u8; 16]);

impl View for ServiceId {
    type V = Seq<u8>;

    open spec fn view(&self) -> Seq<u8> {
        self.0@
    }
}

impl vstd::std_specs::cmp::PartialEqSpecImpl for ServiceId {
    open spec fn obeys_eq_spec() -> bool {
        true
    }

    open spec fn eq_spec(&self, other: &Self) -> bool {
        *self == *other
    }
}

impl PartialEq for ServiceId {
    fn eq(&self, other: &Self) -> (equal: bool) {
        arrays_equal(&self.0, &other.0)
    }
}

impl ServiceId {
    /// The identifier with these bytes.
    pub fn from_bytes(bytes: [u8; 16]) -> (id: Self)
        ensures
            id == ServiceId(bytes),
    {
        ServiceId(bytes)
    }

    /// The bytes of the identifier.
    pub fn as_bytes(&self) -> (bytes: &[u8; 16])
        ensures
            *bytes == self.0,
    {
        &self.0
    }
}

/// The public key by which the transport authenticates an endpoint.
#[derive(Clone, Copy, Debug, Eq, PartialOrd, Ord, Hash)]
pub struct EndpointId(pub [u8; 32]);

impl View for EndpointId {
    type V = Seq<u8>;

    open spec fn view(&self) -> Seq<u8> {
        self.0@
    }
}

impl vstd::std_specs::cmp::PartialEqSpecImpl for EndpointId {
    open spec fn obeys_eq_spec() -> bool {
        true
    }

    open spec fn eq_spec(&self, other: &Self) -> bool {
        *self == *other
    }
}

impl PartialEq for EndpointId {
    fn eq(&self, other: &Self) -> (equal: bool) {
        arrays_equal(&self.0, &other.0)
    }
}

impl Keyed for EndpointId {
    open spec fn key(&self) -> Seq<u8> {
        self.0@
    }

    fn key_bytes(&self) -> (bytes: Vec<u8>) {
        let mut bytes: Vec<u8> = Vec::new();
        push_bytes(&mut bytes, self.0.as_slice());
        assert(bytes@ =~= self.key());
        bytes
    }
}

impl EndpointId {
    /// The identifier with these bytes.
    pub fn from_bytes(bytes: [u8; 32]) -> (id: Self)
        ensures
            id == EndpointId(bytes),
    {
        EndpointId(bytes)
    }

    /// The bytes of the identifier.
    pub fn as_bytes(&self) -> (bytes: &[u8; 32])
        ensures
            *bytes == self.0,
    {
        &self.0
    }
}

/// The identifiers that print as a text are read back from it unchanged.
pub proof fn law_identifiers_round_trip(app: AppAddr, network: NetworkId, device: DeviceId, member: MemberId)
    ensures
        id_bytes(wire::utf8(outside::hex_text(app@))) == Some(app@),
        id_bytes(wire::utf8(outside::hex_text(network@))) == Some(network@),
        id_bytes(wire::utf8(outside::hex_text(device@))) == Some(device@),
        id_bytes(wire::utf8(outside::hex_text(member@))) == Some(member@),
{
    lemma_hex_round_trip(app@);
    lemma_hex_round_trip(network@);
    lemma_hex_round_trip(device@);
    lemma_hex_round_trip(member@);
}

/// An address inside one virtual network: an application's server side, or one device of its
/// client side.
#[derive(Clone, Copy, Debug, Eq, Hash)]
pub enum ScopedVirtualAddr {
    Server { app: AppAddr },
    Client { app: AppAddr, device: DeviceId },
}

impl vstd::std_specs::cmp::PartialEqSpecImpl for ScopedVirtualAddr {
    open spec fn obeys_eq_spec() -> bool {
        true
    }

    open spec fn eq_spec(&self, other: &Self) -> bool {
        *self == *other
    }
}

impl PartialEq for ScopedVirtualAddr {
    fn eq(&self, other: &Self) -> (equal: bool) {
        match (self, other) {
            (ScopedVirtualAddr::Server { app: a }, ScopedVirtualAddr::Server { app: b }) => *a == *b,
            (
                ScopedVirtualAddr::Client { app: a, device: d },
                ScopedVirtualAddr::Client { app: b, device: e },
            ) => *a == *b && *d == *e,
            _ => false,
        }
    }
}

/// The server side of an application.
#[derive(Clone, Copy, Debug, Eq, Hash)]
pub struct ServerAddr {
    pub app: AppAddr,
}

impl vstd::std_specs::cmp::PartialEqSpecImpl for ServerAddr {
    open spec fn obeys_eq_spec() -> bool {
        true
    }

    open spec fn eq_spec(&self, other: &Self) -> bool {
        *self == *other
    }
}

impl PartialEq for ServerAddr {
    fn eq(&self, other: &Self) -> (equal: bool) {
        self.app == other.app
    }
}

impl ServerAddr {
    pub fn new(app: AppAddr) -> (address: Self)
        ensures
            address == (ServerAddr { app }),
    {
        ServerAddr { app }
    }

    pub fn app(self) -> (app: AppAddr)
        ensures
            app == self.app,
    {
        self.app
    }

    /// The address with its role spelled out.
    pub fn scoped(self) -> (address: ScopedVirtualAddr)
        ensures
            address == (ScopedVirtualAddr::Server { app: self.app }),
    {
        ScopedVirtualAddr::Server { app: self.app }
    }
}

/// One device of an application's client side.
#[derive(Clone, Copy, Debug, Eq, Hash)]
pub struct ClientAddr {
    pub app: AppAddr,
    pub device: DeviceId,
}

impl vstd::std_specs::cmp::PartialEqSpecImpl for ClientAddr {
    open spec fn obeys_eq_spec() -> bool {
        true
    }

    open spec fn eq_spec(&self, other: &Self) -> bool {
        *self == *other
    }
}

impl PartialEq for ClientAddr {
    fn eq(&self, other: &Self) -> (equal: bool) {
        self.app == other.app && self.device == other.device
    }
}

impl ClientAddr {
    pub fn new(app: AppAddr, device: DeviceId) -> (address: Self)
        ensures
            address == (ClientAddr { app, device }),
    {
        ClientAddr { app, device }
    }

    pub fn app(self) -> (app: AppAddr)
        ensures
            app == self.app,
    {
        self.app
    }

    pub fn device(self) -> (device: DeviceId)
        ensures
            device == self.device,
    {
        self.device
    }

    /// The address with its role spelled out.
    pub fn scoped(self) -> (address: ScopedVirtualAddr)
        ensures
            address == (ScopedVirtualAddr::Client { app: self.app, device: self.device }),
    {
        ScopedVirtualAddr::Client { app: self.app, device: self.device }
    }
}

/// An address together with the network it belongs to.
#[derive(Clone, Copy, Debug, Eq, Hash)]
pub struct VirtualAddr {
    pub network: NetworkId,
    pub addr: ScopedVirtualAddr,
}

impl vstd::std_specs::cmp::PartialEqSpecImpl for VirtualAddr {
    open spec fn obeys_eq_spec() -> bool {
        true
    }

    open spec fn eq_spec(&self, other: &Self) -> bool {
        *self == *other
    }
}

impl PartialEq for VirtualAddr {
    fn eq(&self, other: &Self) -> (equal: bool) {
        self.network == other.network && self.addr == other.addr
    }
}

impl VirtualAddr {
    pub fn server(network: NetworkId, address: ServerAddr) -> (full: Self)
        ensures
            full == (VirtualAddr { network, addr: ScopedVirtualAddr::Server { app: address.app } }),
    {
        VirtualAddr { network, addr: address.scoped() }
    }

    pub fn client(network: NetworkId, address: ClientAddr) -> (full: Self)
        ensures
            full == (VirtualAddr {
                network,
                addr: ScopedVirtualAddr::Client { app: address.app, device: address.device },
            }),
    {
        VirtualAddr { network, addr: address.scoped() }
    }
}

/// Whether an address is among others.
pub(crate) fn address_among(addresses: &Vec<ScopedVirtualAddr>, wanted: ScopedVirtualAddr) -> (found: bool)
    ensures
        found == addresses@.contains(wanted),
{
    let mut i: usize = 0;
    while i < addresses.len()
        invariant
            i <= addresses.len(),
            forall|j: int| 0 <= j < i ==> addresses@[j] != wanted,
        decreases addresses.len() - i,
    {
        if addresses[i] == wanted {
            assert(addresses@[i as int] == wanted);
            return true;
        }
        i = i + 1;
    }
    false
}

} // verus!

//! USB control requests (USB 2.0, 9.3 and 9.4).
use vstd::prelude::*;
use crate::descriptor::{self, GetDescriptor};

verus! {

pub const GET_DESCRIPTOR: u8 = 6;
pub const SET_CONFIGURATION: u8 = 9;

/// Direction bit of `bmRequestType`: device to host.
pub const DIR_IN: u8 = 0x80;
/// Direction bit of `bmRequestType`: host to device.
pub const DIR_OUT: u8 = 0;
/// Type bits of `bmRequestType`: a standard request.
pub const TYPE_STANDARD: u8 = 0;
/// Recipient bits of `bmRequestType`: the device.
pub const RECIPIENT_DEVICE: u8 = 0;
/// Recipient bits of `bmRequestType`: an interface.
pub const RECIPIENT_INTERFACE: u8 = 1;

/// A control request.
#[derive(Clone, Copy, Debug, PartialEq, Eq, Structural)]
pub enum Request {
    GetDescriptor { ty: GetDescriptor },
    SetConfiguration { value: u8 },
    GetReport { id: u8 },
    SetReport,
    GetIdle,
    SetIdle,
    SetProtocol,
    GetProtocol,
}

/// The setup packet of a control request, without its length.
#[derive(Clone, Copy, Debug, PartialEq, Eq, Structural)]
pub struct RawRequest {
    pub request_type: u8,
    pub request: u8,
    pub value: u16,
    pub index: u16,
}

impl RawRequest {
    /// Whether data flows from the device to the host: bit 7 of `request_type`.
    pub fn direction_in(&self) -> (r: bool)
        ensures
            r == (self.request_type >= 128),
    {
        let t = self.request_type;
        assert(t & 0x80 != 0 <==> t >= 128) by (bit_vector);
        t & DIR_IN != 0
    }
}

/// `wValue` of a `GET_DESCRIPTOR` request: the descriptor type in the high byte, the index in
/// the low one.
pub open spec fn descriptor_value(ty: u8, index: u8) -> u16 {
    (ty * 256 + index) as u16
}

/// The setup packet of `GET_DESCRIPTOR` for `ty`.
pub open spec fn get_descriptor_request(ty: GetDescriptor) -> RawRequest {
    RawRequest {
        request_type: match ty {
            GetDescriptor::Report => (DIR_IN + TYPE_STANDARD + RECIPIENT_INTERFACE) as u8,
            _ => (DIR_IN + TYPE_STANDARD + RECIPIENT_DEVICE) as u8,
        },
        request: GET_DESCRIPTOR,
        value: match ty {
            GetDescriptor::Device => descriptor_value(descriptor::DEVICE, 0),
            GetDescriptor::Configuration { index } => descriptor_value(descriptor::CONFIGURATION, index),
            GetDescriptor::String { index } => descriptor_value(descriptor::STRING, index),
            GetDescriptor::Report => descriptor_value(descriptor::REPORT, 0),
        },
        index: 0,
    }
}

fn w_value(ty: u8, index: u8) -> (r: u16)
    ensures
        r == descriptor_value(ty, index),
{
    ty as u16 * 256 + index as u16
}

impl Request {
    /// The setup packet of the request. Only `GetDescriptor` and `SetConfiguration` can be
    /// encoded.
    pub fn into_raw(self) -> (r: RawRequest)
        requires
            self is GetDescriptor || self is SetConfiguration,
        ensures
            match self {
                Request::GetDescriptor { ty } => r == get_descriptor_request(ty),
                Request::SetConfiguration { value } => r == (RawRequest {
                    request_type: (DIR_OUT + TYPE_STANDARD + RECIPIENT_DEVICE) as u8,
                    request: SET_CONFIGURATION,
                    value: value as u16,
                    index: 0,
                }),
                _ => false,
            },
    {
        match self {
            Request::GetDescriptor { ty } => {
                let recipient = match ty {
                    GetDescriptor::Report => RECIPIENT_INTERFACE,
                    _ => RECIPIENT_DEVICE,
                };
                let value = match ty {
                    GetDescriptor::Device => w_value(descriptor::DEVICE, 0),
                    GetDescriptor::Configuration { index } => w_value(descriptor::CONFIGURATION, index),
                    GetDescriptor::String { index } => w_value(descriptor::STRING, index),
                    GetDescriptor::Report => w_value(descriptor::REPORT, 0),
                };
                RawRequest {
                    request_type: DIR_IN + TYPE_STANDARD + recipient,
                    request: GET_DESCRIPTOR,
                    value,
                    index: 0,
                }
            },
            Request::SetConfiguration { value } => RawRequest {
                request_type: DIR_OUT + TYPE_STANDARD + RECIPIENT_DEVICE,
                request: SET_CONFIGURATION,
                value: value as u16,
                index: 0,
            },
            _ => {
                assert(false);
                RawRequest { request_type: 0, request: 0, value: 0, index: 0 }
            },
        }
    }
}

} // verus!

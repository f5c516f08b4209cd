//! The message types of the demo calculator and text services.
use vstd::prelude::*;
use crate::next::RpcMessageBody;

verus! {

#[derive(Clone, Debug, PartialEq, Eq, Default)]
pub struct AddRequest {
    pub a: u64,
    pub b: u64,
}

#[derive(Clone, Debug, PartialEq, Eq, Default)]
pub struct SquareRequest {
    pub num: u64,
}

#[derive(Clone, Debug, PartialEq, Eq, Default)]
pub struct CalcResponse {
    pub result: u64,
}

#[derive(Clone, Debug, PartialEq, Eq, Default)]
pub struct UpperRequest {
    pub text: String,
}

#[derive(Clone, Debug, PartialEq, Eq, Default)]
pub struct UpperResponse {
    pub text: String,
}

impl RpcMessageBody for AddRequest {}

impl RpcMessageBody for SquareRequest {}

impl RpcMessageBody for CalcResponse {}

impl RpcMessageBody for UpperRequest {}

impl RpcMessageBody for UpperResponse {}

} // verus!

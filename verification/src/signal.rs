//! Signal values and change events as the synthesizer reads them.

use crate::power_model::{bytes_distance, bytes_weight, slice_distance, slice_weight, Hamming};
use vstd::prelude::*;

verus! {

/// The value a signal takes at a change.
///
/// Bit vectors hold their bytes and their width in bits.  A real value is
/// held as its IEEE 754 bit pattern.
pub enum SignalValue {
    Binary(Vec<u8>, u32),
    FourValue(Vec<u8>, u32),
    NineValue(Vec<u8>, u32),
    Text(String),
    Real(u64),
}

/// Mathematical model of a [`SignalValue`].
pub enum ValueModel {
    Binary(Seq<u8>, u32),
    FourValue(Seq<u8>, u32),
    NineValue(Seq<u8>, u32),
    Text(Seq<char>),
    Real(u64),
}

impl View for SignalValue {
    type V = ValueModel;

    open spec fn view(&self) -> ValueModel {
        match *self {
            SignalValue::Binary(data, bits) => ValueModel::Binary(data@, bits),
            SignalValue::FourValue(data, bits) => ValueModel::FourValue(data@, bits),
            SignalValue::NineValue(data, bits) => ValueModel::NineValue(data@, bits),
            SignalValue::Text(text) => ValueModel::Text(text@),
            SignalValue::Real(pattern) => ValueModel::Real(pattern),
        }
    }
}

/// Hamming weight of a value: the one bits of a two-state bit vector, zero
/// for every other kind of value.
pub open spec fn value_weight(a: ValueModel) -> nat {
    match a {
        ValueModel::Binary(data, _) => bytes_weight(data),
        _ => 0,
    }
}

/// Whether the weight of a value can be taken: a two-state bit vector must
/// have a width, and its bit count must fit the result.
pub open spec fn value_weighable(a: ValueModel) -> bool {
    match a {
        ValueModel::Binary(data, bits) => bits != 0 && 8 * data.len() <= u32::MAX,
        _ => true,
    }
}

/// Hamming distance of two values: the differing bits of two two-state bit
/// vectors, zero where either value is of another kind.
pub open spec fn value_distance(a: ValueModel, b: ValueModel) -> nat {
    match (a, b) {
        (ValueModel::Binary(x, _), ValueModel::Binary(y, _)) => bytes_distance(x, y),
        _ => 0,
    }
}

/// Whether the distance of two values can be taken: two two-state bit
/// vectors must have the same width, and the bit count of one of them must
/// fit the result.
pub open spec fn values_comparable(a: ValueModel, b: ValueModel) -> bool {
    match (a, b) {
        (ValueModel::Binary(x, xbits), ValueModel::Binary(y, ybits)) => xbits == ybits && (8
            * x.len() <= u32::MAX || 8 * y.len() <= u32::MAX),
        _ => true,
    }
}

impl Hamming for SignalValue {
    open spec fn weight(&self) -> nat {
        value_weight(self@)
    }

    open spec fn distance(&self, other: &Self) -> nat {
        value_distance(self@, other@)
    }

    open spec fn weighable(&self) -> bool {
        value_weighable(self@)
    }

    open spec fn comparable(&self, other: &Self) -> bool {
        values_comparable(self@, other@)
    }

    fn hamming_weight(&self) -> (w: u32) {
        match self {
            SignalValue::Binary(data, _) => slice_weight(data.as_slice()),
            _ => 0,
        }
    }

    fn hamming_distance(&self, other: &Self) -> (d: u32) {
        match (self, other) {
            (SignalValue::Binary(x, _), SignalValue::Binary(y, _)) => slice_distance(
                x.as_slice(),
                y.as_slice(),
            ),
            _ => 0,
        }
    }
}

/// Decides whether the distance of two values can be taken.
pub fn can_compare(a: &SignalValue, b: &SignalValue) -> (ok: bool)
    ensures
        ok == values_comparable(a@, b@),
{
    match (a, b) {
        (SignalValue::Binary(x, xbits), SignalValue::Binary(y, ybits)) => {
            *xbits == *ybits && (x.len() <= 0x1fff_ffff || y.len() <= 0x1fff_ffff)
        },
        _ => true,
    }
}

/// One change of one signal: the index into the time table at which the
/// signal takes a new value, and that value.
pub struct SignalChange {
    pub time_index: u32,
    pub value: SignalValue,
}

/// Mathematical model of a [`SignalChange`].
pub struct ChangeModel {
    pub time_index: u32,
    pub value: ValueModel,
}

impl View for SignalChange {
    type V = ChangeModel;

    open spec fn view(&self) -> ChangeModel {
        ChangeModel { time_index: self.time_index, value: self.value@ }
    }
}

} // verus!

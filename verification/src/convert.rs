//! Conversion of a token to the type that the caller asks for.

use crate::number::{parse_signed, parse_unsigned, signed_value, unsigned_value, within};
use vstd::prelude::*;

verus! {

/// A type whose values can be read from a token.
pub trait FromToken: Sized + View {
    /// The view of the value that `token` denotes, or `None` if it denotes
    /// no value of this type.
    spec fn denoted(token: Seq<u8>) -> Option<Self::V>;

    /// Reads `token` as a value of this type.
    fn from_token(token: &[u8]) -> (r: Option<Self>)
        ensures
            viewed(r) == Self::denoted(token@),
    ;
}

/// An optional value seen through its view.
pub open spec fn viewed<T: View>(value: Option<T>) -> Option<T::V> {
    match value {
        Some(v) => Some(v@),
        None => None,
    }
}

impl FromToken for u8 {
    /// The unsigned value of the token, if it has one that fits `u8`.
    open spec fn denoted(token: Seq<u8>) -> Option<u8> {
        match within(unsigned_value(token), 0, u8::MAX as int) {
            Some(v) => Some(v as u8),
            None => None,
        }
    }

    fn from_token(token: &[u8]) -> (r: Option<u8>) {
        match parse_unsigned(token, u8::MAX as u128) {
            Some(v) => Some(v as u8),
            None => None,
        }
    }
}

impl FromToken for u16 {
    /// The unsigned value of the token, if it has one that fits `u16`.
    open spec fn denoted(token: Seq<u8>) -> Option<u16> {
        match within(unsigned_value(token), 0, u16::MAX as int) {
            Some(v) => Some(v as u16),
            None => None,
        }
    }

    fn from_token(token: &[u8]) -> (r: Option<u16>) {
        match parse_unsigned(token, u16::MAX as u128) {
            Some(v) => Some(v as u16),
            None => None,
        }
    }
}

impl FromToken for u32 {
    /// The unsigned value of the token, if it has one that fits `u32`.
    open spec fn denoted(token: Seq<u8>) -> Option<u32> {
        match within(unsigned_value(token), 0, u32::MAX as int) {
            Some(v) => Some(v as u32),
            None => None,
        }
    }

    fn from_token(token: &[u8]) -> (r: Option<u32>) {
        match parse_unsigned(token, u32::MAX as u128) {
            Some(v) => Some(v as u32),
            None => None,
        }
    }
}

impl FromToken for u64 {
    /// The unsigned value of the token, if it has one that fits `u64`.
    open spec fn denoted(token: Seq<u8>) -> Option<u64> {
        match within(unsigned_value(token), 0, u64::MAX as int) {
            Some(v) => Some(v as u64),
            None => None,
        }
    }

    fn from_token(token: &[u8]) -> (r: Option<u64>) {
        match parse_unsigned(token, u64::MAX as u128) {
            Some(v) => Some(v as u64),
            None => None,
        }
    }
}

impl FromToken for u128 {
    /// The unsigned value of the token, if it has one that fits `u128`.
    open spec fn denoted(token: Seq<u8>) -> Option<u128> {
        match within(unsigned_value(token), 0, u128::MAX as int) {
            Some(v) => Some(v as u128),
            None => None,
        }
    }

    fn from_token(token: &[u8]) -> (r: Option<u128>) {
        match parse_unsigned(token, u128::MAX as u128) {
            Some(v) => Some(v as u128),
            None => None,
        }
    }
}

impl FromToken for usize {
    /// The unsigned value of the token, if it has one that fits `usize`.
    open spec fn denoted(token: Seq<u8>) -> Option<usize> {
        match within(unsigned_value(token), 0, usize::MAX as int) {
            Some(v) => Some(v as usize),
            None => None,
        }
    }

    fn from_token(token: &[u8]) -> (r: Option<usize>) {
        match parse_unsigned(token, usize::MAX as u128) {
            Some(v) => Some(v as usize),
            None => None,
        }
    }
}

impl FromToken for i8 {
    /// The signed value of the token, if it has one that fits `i8`.
    open spec fn denoted(token: Seq<u8>) -> Option<i8> {
        match within(signed_value(token), i8::MIN as int, i8::MAX as int) {
            Some(v) => Some(v as i8),
            None => None,
        }
    }

    fn from_token(token: &[u8]) -> (r: Option<i8>) {
        match parse_signed(token, i8::MIN as i128, i8::MAX as i128) {
            Some(v) => Some(v as i8),
            None => None,
        }
    }
}

impl FromToken for i16 {
    /// The signed value of the token, if it has one that fits `i16`.
    open spec fn denoted(token: Seq<u8>) -> Option<i16> {
        match within(signed_value(token), i16::MIN as int, i16::MAX as int) {
            Some(v) => Some(v as i16),
            None => None,
        }
    }

    fn from_token(token: &[u8]) -> (r: Option<i16>) {
        match parse_signed(token, i16::MIN as i128, i16::MAX as i128) {
            Some(v) => Some(v as i16),
            None => None,
        }
    }
}

impl FromToken for i32 {
    /// The signed value of the token, if it has one that fits `i32`.
    open spec fn denoted(token: Seq<u8>) -> Option<i32> {
        match within(signed_value(token), i32::MIN as int, i32::MAX as int) {
            Some(v) => Some(v as i32),
            None => None,
        }
    }

    fn from_token(token: &[u8]) -> (r: Option<i32>) {
        match parse_signed(token, i32::MIN as i128, i32::MAX as i128) {
            Some(v) => Some(v as i32),
            None => None,
        }
    }
}

impl FromToken for i64 {
    /// The signed value of the token, if it has one that fits `i64`.
    open spec fn denoted(token: Seq<u8>) -> Option<i64> {
        match within(signed_value(token), i64::MIN as int, i64::MAX as int) {
            Some(v) => Some(v as i64),
            None => None,
        }
    }

    fn from_token(token: &[u8]) -> (r: Option<i64>) {
        match parse_signed(token, i64::MIN as i128, i64::MAX as i128) {
            Some(v) => Some(v as i64),
            None => None,
        }
    }
}

impl FromToken for i128 {
    /// The signed value of the token, if it has one that fits `i128`.
    open spec fn denoted(token: Seq<u8>) -> Option<i128> {
        match within(signed_value(token), i128::MIN as int, i128::MAX as int) {
            Some(v) => Some(v as i128),
            None => None,
        }
    }

    fn from_token(token: &[u8]) -> (r: Option<i128>) {
        match parse_signed(token, i128::MIN as i128, i128::MAX as i128) {
            Some(v) => Some(v as i128),
            None => None,
        }
    }
}

impl FromToken for isize {
    /// The signed value of the token, if it has one that fits `isize`.
    open spec fn denoted(token: Seq<u8>) -> Option<isize> {
        match within(signed_value(token), isize::MIN as int, isize::MAX as int) {
            Some(v) => Some(v as isize),
            None => None,
        }
    }

    fn from_token(token: &[u8]) -> (r: Option<isize>) {
        match parse_signed(token, isize::MIN as i128, isize::MAX as i128) {
            Some(v) => Some(v as isize),
            None => None,
        }
    }
}

} // verus!

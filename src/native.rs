use vstd::prelude::*;

use crate::datatypes::{physical_of, DataType, PhysicalType, PrimitiveType};

verus! {

/// The fixed-width integer types that primitive arrays hold.
pub trait NativeType: Copy + core::fmt::Debug {
    /// The primitive layout of this type.
    spec fn spec_primitive() -> PrimitiveType;

    /// The value as a mathematical integer.
    spec fn spec_int(&self) -> int;

    /// The canonical logical type of this type.
    spec fn spec_data_type() -> DataType;

    /// The primitive layout of this type.
    fn primitive() -> (r: PrimitiveType)
        ensures
            r == Self::spec_primitive(),
    ;

    /// The canonical logical type of this type.
    fn data_type() -> (r: DataType)
        ensures
            r == Self::spec_data_type(),
            physical_of(r) == PhysicalType::Primitive(Self::spec_primitive()),
    ;

    /// The zero value, used for the slots of null entries.
    fn zero() -> (r: Self)
        ensures
            r.spec_int() == 0,
    ;
}

impl NativeType for i8 {
    open spec fn spec_data_type() -> DataType {
        DataType::Int8
    }

    open spec fn spec_primitive() -> PrimitiveType {
        PrimitiveType::Int8
    }

    open spec fn spec_int(&self) -> int {
        *self as int
    }

    fn primitive() -> (r: PrimitiveType) {
        PrimitiveType::Int8
    }

    fn data_type() -> (r: DataType) {
        DataType::Int8
    }

    fn zero() -> (r: Self) {
        0
    }
}

impl NativeType for i16 {
    open spec fn spec_data_type() -> DataType {
        DataType::Int16
    }

    open spec fn spec_primitive() -> PrimitiveType {
        PrimitiveType::Int16
    }

    open spec fn spec_int(&self) -> int {
        *self as int
    }

    fn primitive() -> (r: PrimitiveType) {
        PrimitiveType::Int16
    }

    fn data_type() -> (r: DataType) {
        DataType::Int16
    }

    fn zero() -> (r: Self) {
        0
    }
}

impl NativeType for i32 {
    open spec fn spec_data_type() -> DataType {
        DataType::Int32
    }

    open spec fn spec_primitive() -> PrimitiveType {
        PrimitiveType::Int32
    }

    open spec fn spec_int(&self) -> int {
        *self as int
    }

    fn primitive() -> (r: PrimitiveType) {
        PrimitiveType::Int32
    }

    fn data_type() -> (r: DataType) {
        DataType::Int32
    }

    fn zero() -> (r: Self) {
        0
    }
}

impl NativeType for i64 {
    open spec fn spec_data_type() -> DataType {
        DataType::Int64
    }

    open spec fn spec_primitive() -> PrimitiveType {
        PrimitiveType::Int64
    }

    open spec fn spec_int(&self) -> int {
        *self as int
    }

    fn primitive() -> (r: PrimitiveType) {
        PrimitiveType::Int64
    }

    fn data_type() -> (r: DataType) {
        DataType::Int64
    }

    fn zero() -> (r: Self) {
        0
    }
}

impl NativeType for u8 {
    open spec fn spec_data_type() -> DataType {
        DataType::UInt8
    }

    open spec fn spec_primitive() -> PrimitiveType {
        PrimitiveType::UInt8
    }

    open spec fn spec_int(&self) -> int {
        *self as int
    }

    fn primitive() -> (r: PrimitiveType) {
        PrimitiveType::UInt8
    }

    fn data_type() -> (r: DataType) {
        DataType::UInt8
    }

    fn zero() -> (r: Self) {
        0
    }
}

impl NativeType for u16 {
    open spec fn spec_data_type() -> DataType {
        DataType::UInt16
    }

    open spec fn spec_primitive() -> PrimitiveType {
        PrimitiveType::UInt16
    }

    open spec fn spec_int(&self) -> int {
        *self as int
    }

    fn primitive() -> (r: PrimitiveType) {
        PrimitiveType::UInt16
    }

    fn data_type() -> (r: DataType) {
        DataType::UInt16
    }

    fn zero() -> (r: Self) {
        0
    }
}

impl NativeType for u32 {
    open spec fn spec_data_type() -> DataType {
        DataType::UInt32
    }

    open spec fn spec_primitive() -> PrimitiveType {
        PrimitiveType::UInt32
    }

    open spec fn spec_int(&self) -> int {
        *self as int
    }

    fn primitive() -> (r: PrimitiveType) {
        PrimitiveType::UInt32
    }

    fn data_type() -> (r: DataType) {
        DataType::UInt32
    }

    fn zero() -> (r: Self) {
        0
    }
}

impl NativeType for u64 {
    open spec fn spec_data_type() -> DataType {
        DataType::UInt64
    }

    open spec fn spec_primitive() -> PrimitiveType {
        PrimitiveType::UInt64
    }

    open spec fn spec_int(&self) -> int {
        *self as int
    }

    fn primitive() -> (r: PrimitiveType) {
        PrimitiveType::UInt64
    }

    fn data_type() -> (r: DataType) {
        DataType::UInt64
    }

    fn zero() -> (r: Self) {
        0
    }
}

} // verus!

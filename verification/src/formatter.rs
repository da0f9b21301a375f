//! The static side of the capability check: a type can be bound to a hint
//! only through the hint's formatter trait, so that a value without the
//! capability is refused where the call is compiled. Each impl of a
//! formatter trait proves that the hint accepts the type's kind.

use vstd::prelude::*;
use crate::hint::{ArgKind, DisplayHint};
use crate::value::Value;
use crate::wire::Binding;

verus! {

/// A type whose values can be logged.
pub trait Loggable: Sized {
    /// The kind of the values of this type.
    spec fn kind() -> ArgKind;

    /// The value as the wire carries it.
    spec fn wire_value(self) -> Value;

    /// Returns the value as the wire carries it.
    fn to_value(self) -> (v: Value)
        ensures
            v == self.wire_value(),
            v.kind_of() == Self::kind(),
    ;
}

/// Types whose values can stand for a placeholder `{}`.
pub trait DefaultFormatter: Loggable {
    /// The hint `Default` accepts the kind of this type.
    proof fn accepted()
        ensures
            DisplayHint::Default.accepts(Self::kind()),
    ;
}

/// Types whose values can stand for a placeholder `{:x}`.
pub trait LowerHexFormatter: Loggable {
    /// The hint `LowerHex` accepts the kind of this type.
    proof fn accepted()
        ensures
            DisplayHint::LowerHex.accepts(Self::kind()),
    ;
}

/// Types whose values can stand for a placeholder `{:X}`.
pub trait UpperHexFormatter: Loggable {
    /// The hint `UpperHex` accepts the kind of this type.
    proof fn accepted()
        ensures
            DisplayHint::UpperHex.accepts(Self::kind()),
    ;
}

/// Types whose values can stand for a placeholder `{:ip}`.
pub trait IpFormatter: Loggable {
    /// The hint `Ip` accepts the kind of this type.
    proof fn accepted()
        ensures
            DisplayHint::Ip.accepts(Self::kind()),
    ;
}

/// Types whose values can stand for a placeholder `{:mac}`.
pub trait LowerMacFormatter: Loggable {
    /// The hint `LowerMac` accepts the kind of this type.
    proof fn accepted()
        ensures
            DisplayHint::LowerMac.accepts(Self::kind()),
    ;
}

/// Types whose values can stand for a placeholder `{:MAC}`.
pub trait UpperMacFormatter: Loggable {
    /// The hint `UpperMac` accepts the kind of this type.
    proof fn accepted()
        ensures
            DisplayHint::UpperMac.accepts(Self::kind()),
    ;
}

impl Loggable for u8 {
    open spec fn kind() -> ArgKind {
        ArgKind::U8
    }

    open spec fn wire_value(self) -> Value {
        Value::U8(self)
    }

    fn to_value(self) -> (v: Value) {
        Value::U8(self)
    }
}

impl Loggable for u16 {
    open spec fn kind() -> ArgKind {
        ArgKind::U16
    }

    open spec fn wire_value(self) -> Value {
        Value::U16(self)
    }

    fn to_value(self) -> (v: Value) {
        Value::U16(self)
    }
}

impl Loggable for u32 {
    open spec fn kind() -> ArgKind {
        ArgKind::U32
    }

    open spec fn wire_value(self) -> Value {
        Value::U32(self)
    }

    fn to_value(self) -> (v: Value) {
        Value::U32(self)
    }
}

impl Loggable for u64 {
    open spec fn kind() -> ArgKind {
        ArgKind::U64
    }

    open spec fn wire_value(self) -> Value {
        Value::U64(self)
    }

    fn to_value(self) -> (v: Value) {
        Value::U64(self)
    }
}

impl Loggable for i8 {
    open spec fn kind() -> ArgKind {
        ArgKind::I8
    }

    open spec fn wire_value(self) -> Value {
        Value::I8(self)
    }

    fn to_value(self) -> (v: Value) {
        Value::I8(self)
    }
}

impl Loggable for i16 {
    open spec fn kind() -> ArgKind {
        ArgKind::I16
    }

    open spec fn wire_value(self) -> Value {
        Value::I16(self)
    }

    fn to_value(self) -> (v: Value) {
        Value::I16(self)
    }
}

impl Loggable for i32 {
    open spec fn kind() -> ArgKind {
        ArgKind::I32
    }

    open spec fn wire_value(self) -> Value {
        Value::I32(self)
    }

    fn to_value(self) -> (v: Value) {
        Value::I32(self)
    }
}

impl Loggable for i64 {
    open spec fn kind() -> ArgKind {
        ArgKind::I64
    }

    open spec fn wire_value(self) -> Value {
        Value::I64(self)
    }

    fn to_value(self) -> (v: Value) {
        Value::I64(self)
    }
}

impl Loggable for [u8; 4] {
    open spec fn kind() -> ArgKind {
        ArgKind::Ipv4
    }

    open spec fn wire_value(self) -> Value {
        Value::Ipv4(self)
    }

    fn to_value(self) -> (v: Value) {
        Value::Ipv4(self)
    }
}

impl Loggable for [u8; 16] {
    open spec fn kind() -> ArgKind {
        ArgKind::Ipv6
    }

    open spec fn wire_value(self) -> Value {
        Value::Ipv6(self)
    }

    fn to_value(self) -> (v: Value) {
        Value::Ipv6(self)
    }
}

impl Loggable for [u8; 6] {
    open spec fn kind() -> ArgKind {
        ArgKind::Mac
    }

    open spec fn wire_value(self) -> Value {
        Value::Mac(self)
    }

    fn to_value(self) -> (v: Value) {
        Value::Mac(self)
    }
}

impl DefaultFormatter for u8 {
    proof fn accepted() {
    }
}

impl DefaultFormatter for u16 {
    proof fn accepted() {
    }
}

impl DefaultFormatter for u32 {
    proof fn accepted() {
    }
}

impl DefaultFormatter for u64 {
    proof fn accepted() {
    }
}

impl DefaultFormatter for i8 {
    proof fn accepted() {
    }
}

impl DefaultFormatter for i16 {
    proof fn accepted() {
    }
}

impl DefaultFormatter for i32 {
    proof fn accepted() {
    }
}

impl DefaultFormatter for i64 {
    proof fn accepted() {
    }
}

impl DefaultFormatter for [u8; 4] {
    proof fn accepted() {
    }
}

impl DefaultFormatter for [u8; 16] {
    proof fn accepted() {
    }
}

impl LowerHexFormatter for u8 {
    proof fn accepted() {
    }
}

impl LowerHexFormatter for u16 {
    proof fn accepted() {
    }
}

impl LowerHexFormatter for u32 {
    proof fn accepted() {
    }
}

impl LowerHexFormatter for u64 {
    proof fn accepted() {
    }
}

impl LowerHexFormatter for i8 {
    proof fn accepted() {
    }
}

impl LowerHexFormatter for i16 {
    proof fn accepted() {
    }
}

impl LowerHexFormatter for i32 {
    proof fn accepted() {
    }
}

impl LowerHexFormatter for i64 {
    proof fn accepted() {
    }
}

impl UpperHexFormatter for u8 {
    proof fn accepted() {
    }
}

impl UpperHexFormatter for u16 {
    proof fn accepted() {
    }
}

impl UpperHexFormatter for u32 {
    proof fn accepted() {
    }
}

impl UpperHexFormatter for u64 {
    proof fn accepted() {
    }
}

impl UpperHexFormatter for i8 {
    proof fn accepted() {
    }
}

impl UpperHexFormatter for i16 {
    proof fn accepted() {
    }
}

impl UpperHexFormatter for i32 {
    proof fn accepted() {
    }
}

impl UpperHexFormatter for i64 {
    proof fn accepted() {
    }
}

impl IpFormatter for u32 {
    proof fn accepted() {
    }
}

impl IpFormatter for [u8; 4] {
    proof fn accepted() {
    }
}

impl IpFormatter for [u8; 16] {
    proof fn accepted() {
    }
}

impl LowerMacFormatter for [u8; 6] {
    proof fn accepted() {
    }
}

impl UpperMacFormatter for [u8; 6] {
    proof fn accepted() {
    }
}

/// Binds `value` to a placeholder `{}`.
pub fn bind_default<T: DefaultFormatter>(value: T) -> (b: Binding)
    ensures
        b.hint == DisplayHint::Default,
        b.value == value.wire_value(),
        b.well_typed(),
{
    proof {
        T::accepted();
    }
    Binding { hint: DisplayHint::Default, value: value.to_value() }
}

/// Binds `value` to a placeholder `{:x}`.
pub fn bind_lower_hex<T: LowerHexFormatter>(value: T) -> (b: Binding)
    ensures
        b.hint == DisplayHint::LowerHex,
        b.value == value.wire_value(),
        b.well_typed(),
{
    proof {
        T::accepted();
    }
    Binding { hint: DisplayHint::LowerHex, value: value.to_value() }
}

/// Binds `value` to a placeholder `{:X}`.
pub fn bind_upper_hex<T: UpperHexFormatter>(value: T) -> (b: Binding)
    ensures
        b.hint == DisplayHint::UpperHex,
        b.value == value.wire_value(),
        b.well_typed(),
{
    proof {
        T::accepted();
    }
    Binding { hint: DisplayHint::UpperHex, value: value.to_value() }
}

/// Binds `value` to a placeholder `{:ip}`.
pub fn bind_ip<T: IpFormatter>(value: T) -> (b: Binding)
    ensures
        b.hint == DisplayHint::Ip,
        b.value == value.wire_value(),
        b.well_typed(),
{
    proof {
        T::accepted();
    }
    Binding { hint: DisplayHint::Ip, value: value.to_value() }
}

/// Binds `value` to a placeholder `{:mac}`.
pub fn bind_lower_mac<T: LowerMacFormatter>(value: T) -> (b: Binding)
    ensures
        b.hint == DisplayHint::LowerMac,
        b.value == value.wire_value(),
        b.well_typed(),
{
    proof {
        T::accepted();
    }
    Binding { hint: DisplayHint::LowerMac, value: value.to_value() }
}

/// Binds `value` to a placeholder `{:MAC}`.
pub fn bind_upper_mac<T: UpperMacFormatter>(value: T) -> (b: Binding)
    ensures
        b.hint == DisplayHint::UpperMac,
        b.value == value.wire_value(),
        b.well_typed(),
{
    proof {
        T::accepted();
    }
    Binding { hint: DisplayHint::UpperMac, value: value.to_value() }
}

} // verus!

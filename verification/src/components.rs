//! Component data attached to entities.
//!
//! Scalar fields hold IEEE-754 single-precision bit patterns in `u32`
//! values; the embedding application converts to and from native floats
//! at the boundary.

use vstd::prelude::*;

verus! {

/// The bit pattern of the single-precision float `1.0`.
pub const ONE_F32_BITS: u32 = 0x3F80_0000;

/// A three-component vector of single-precision bit patterns.
#[derive(Clone, Copy, PartialEq, Eq, Structural, Debug)]
pub struct Vec3Bits {
    pub x: u32,
    pub y: u32,
    pub z: u32,
}

impl Vec3Bits {
    pub fn new(x: u32, y: u32, z: u32) -> (v: Vec3Bits)
        ensures
            v == (Vec3Bits { x, y, z }),
    {
        Vec3Bits { x, y, z }
    }

    /// All components zero (the bit pattern of `0.0`).
    pub fn zero() -> (v: Vec3Bits)
        ensures
            v == (Vec3Bits { x: 0, y: 0, z: 0 }),
    {
        Vec3Bits { x: 0, y: 0, z: 0 }
    }

    /// All components the bit pattern of `1.0`.
    pub fn one() -> (v: Vec3Bits)
        ensures
            v == (Vec3Bits { x: ONE_F32_BITS, y: ONE_F32_BITS, z: ONE_F32_BITS }),
    {
        Vec3Bits { x: ONE_F32_BITS, y: ONE_F32_BITS, z: ONE_F32_BITS }
    }
}

/// A four-component vector of single-precision bit patterns.
#[derive(Clone, Copy, PartialEq, Eq, Structural, Debug)]
pub struct Vec4Bits {
    pub x: u32,
    pub y: u32,
    pub z: u32,
    pub w: u32,
}

impl Vec4Bits {
    pub fn new(x: u32, y: u32, z: u32, w: u32) -> (v: Vec4Bits)
        ensures
            v == (Vec4Bits { x, y, z, w }),
    {
        Vec4Bits { x, y, z, w }
    }
}

/// Position, rotation and scale, each a three-vector of bit patterns.
#[derive(Clone, Copy, PartialEq, Eq, Structural, Debug)]
pub struct Transform {
    pub position: Vec3Bits,
    pub rotation: Vec3Bits,
    pub scale: Vec3Bits,
}

impl Default for Transform {
    /// Identity transform: zero position and rotation, unit scale.
    fn default() -> (t: Transform)
        ensures
            t.position == (Vec3Bits { x: 0, y: 0, z: 0 }),
            t.rotation == (Vec3Bits { x: 0, y: 0, z: 0 }),
            t.scale == (Vec3Bits { x: ONE_F32_BITS, y: ONE_F32_BITS, z: ONE_F32_BITS }),
    {
        Transform { position: Vec3Bits::zero(), rotation: Vec3Bits::zero(), scale: Vec3Bits::one() }
    }
}

/// Which of the three transform vectors a host accessor addresses.
#[derive(Clone, Copy, PartialEq, Eq, Structural, Debug)]
pub enum TransformField {
    Position,
    Rotation,
    Scale,
}

/// Which component of a three-vector a host accessor addresses.
#[derive(Clone, Copy, PartialEq, Eq, Structural, Debug)]
pub enum Axis {
    X,
    Y,
    Z,
}

/// The addressed vector of a transform.
pub open spec fn spec_field_of(t: Transform, f: TransformField) -> Vec3Bits {
    match f {
        TransformField::Position => t.position,
        TransformField::Rotation => t.rotation,
        TransformField::Scale => t.scale,
    }
}

/// The addressed component of a three-vector.
pub open spec fn spec_axis_of(v: Vec3Bits, a: Axis) -> u32 {
    match a {
        Axis::X => v.x,
        Axis::Y => v.y,
        Axis::Z => v.z,
    }
}

/// The vector with one component replaced.
pub open spec fn spec_axis_set(v: Vec3Bits, a: Axis, val: u32) -> Vec3Bits {
    match a {
        Axis::X => Vec3Bits { x: val, y: v.y, z: v.z },
        Axis::Y => Vec3Bits { x: v.x, y: val, z: v.z },
        Axis::Z => Vec3Bits { x: v.x, y: v.y, z: val },
    }
}

/// The transform with the addressed vector replaced.
pub open spec fn spec_field_set(t: Transform, f: TransformField, v: Vec3Bits) -> Transform {
    match f {
        TransformField::Position => Transform { position: v, rotation: t.rotation, scale: t.scale },
        TransformField::Rotation => Transform { position: t.position, rotation: v, scale: t.scale },
        TransformField::Scale => Transform { position: t.position, rotation: t.rotation, scale: v },
    }
}

/// An index into the renderer's mesh table.
#[derive(Clone, Copy, PartialEq, Eq, Structural, Debug)]
pub struct MeshHandle(pub u32);

/// Surface color, as four single-precision bit patterns.
#[derive(Clone, Copy, PartialEq, Eq, Structural, Debug)]
pub struct Material {
    pub color: Vec4Bits,
}

} // verus!

//! The atom records: headers and the fixed parts of each container's body.
//!
//! In a buffer each record is laid out field after field, little-endian,
//! with no gaps; the variable part of a container follows its fixed part.
use vstd::prelude::*;

verus! {

/// The header of an atom:Atom.
#[derive(Debug, Clone, Copy, PartialEq, Eq, Structural)]
pub struct LV2Atom {
    /// Size in bytes, not including type and size.
    pub size: u32,
    /// Type of this atom (mapped URI).
    pub type_: u32,
}

/// An atom:Int or atom:Bool.
#[derive(Debug, Clone, Copy)]
pub struct LV2AtomInt {
    /// Atom header.
    pub atom: LV2Atom,
    /// Integer value.
    pub body: i32,
}

/// An atom:Long.
#[derive(Debug, Clone, Copy)]
pub struct LV2AtomLong {
    /// Atom header.
    pub atom: LV2Atom,
    /// Integer value.
    pub body: i64,
}

/// An atom:URID.
#[derive(Debug, Clone, Copy)]
pub struct LV2AtomURID {
    /// Atom header.
    pub atom: LV2Atom,
    /// URID.
    pub body: u32,
}

/// An atom:String; a null-terminated UTF-8 string follows the header.
#[derive(Debug, Clone, Copy)]
pub struct LV2AtomString {
    /// Atom header.
    pub atom: LV2Atom,
}

/// The body of an atom:Literal; a null-terminated UTF-8 string follows it.
#[derive(Debug, Clone, Copy)]
pub struct LV2AtomLiteralBody {
    /// Datatype URID.
    pub datatype: u32,
    /// Language URID.
    pub lang: u32,
}

/// An atom:Literal.
#[derive(Debug, Clone, Copy)]
pub struct LV2AtomLiteral {
    /// Atom header.
    pub atom: LV2Atom,
    /// Body.
    pub body: LV2AtomLiteralBody,
}

/// An atom:Tuple; a series of complete, padded atoms follows the header.
#[derive(Debug, Clone, Copy)]
pub struct LV2AtomTuple {
    /// Atom header.
    pub atom: LV2Atom,
}

/// The body of an atom:Vector; packed element bodies follow it.
#[derive(Debug, Clone, Copy)]
pub struct LV2AtomVectorBody {
    /// The size of each element in the vector.
    pub child_size: u32,
    /// The type of each element in the vector.
    pub child_type: u32,
}

/// An atom:Vector.
#[derive(Debug, Clone, Copy)]
pub struct LV2AtomVector {
    /// Atom header.
    pub atom: LV2Atom,
    /// Body.
    pub body: LV2AtomVectorBody,
}

/// The body of an atom:Property (e.g. in an atom:Object); the value's body
/// follows it.
#[derive(Debug, Clone, Copy)]
pub struct LV2AtomPropertyBody {
    /// Key (predicate) (mapped URI).
    pub key: u32,
    /// Context URID (may be, and generally is, 0).
    pub context: u32,
    /// Value atom header.
    pub value: LV2Atom,
}

/// An atom:Property.
#[derive(Debug, Clone, Copy)]
pub struct LV2AtomProperty {
    /// Atom header.
    pub atom: LV2Atom,
    /// Body.
    pub body: LV2AtomPropertyBody,
}

/// The body of an atom:Object; a series of padded property bodies follows it.
#[derive(Debug, Clone, Copy)]
pub struct LV2AtomObjectBody {
    /// URID, or 0 for blank.
    pub id: u32,
    /// Type URID (same as rdf:type, for fast dispatch).
    pub otype: u32,
}

/// An atom:Object.
#[derive(Debug, Clone, Copy)]
pub struct LV2AtomObject {
    /// Atom header.
    pub atom: LV2Atom,
    /// Body.
    pub body: LV2AtomObjectBody,
}

/// The header of an atom:Event; the body atom's bytes follow it. This is not
/// an atom itself.
#[derive(Debug, Clone, Copy)]
pub struct LV2AtomEvent {
    /// Time stamp; whether it counts frames or holds beats is set by the
    /// owning sequence's unit.
    pub time_in_frames: i64,
    /// Event body atom header.
    pub body: LV2Atom,
}

impl LV2AtomEvent {
    /// Gets the time stamp as audio frames.
    pub fn time_as_frames(&self) -> (r: i64)
        ensures
            r == self.time_in_frames,
    {
        self.time_in_frames
    }
}

/// The body of an atom:Sequence; a series of padded events follows it.
///
/// The unit is a URID that describes the time stamp type, or 0 where the
/// default (audio frames) applies.
#[derive(Debug, Clone, Copy)]
pub struct LV2AtomSequenceBody {
    /// URID of unit of event time stamps.
    pub unit: u32,
    /// Currently unused.
    pub pad: u32,
}

/// An atom:Sequence.
#[derive(Debug, Clone, Copy)]
pub struct LV2AtomSequence {
    /// Atom header.
    pub atom: LV2Atom,
    /// Body.
    pub body: LV2AtomSequenceBody,
}

} // verus!

//! Node parameters: the tagged union over the storable OSC base types.
//!
//! Each variant wraps a typed value handle.  Floats and doubles are carried
//! as bit patterns; blobs, colors, nil and infinitum are recognized on the
//! wire but are not storable parameters.

use crate::json::{
    clip_mode_is_json, clip_mode_json, osc_value_is_json, osc_value_json, range_is_json,
    range_json, unit_is_json, unit_json, Json,
};
use crate::osc::{osc_type_tag, osc_type_tag_list, append_type_tag, OscArray, OscValue};
use crate::value::{ClipMode, ValueGet, ValueGetSet, ValueSet};
use vstd::prelude::*;
use vstd::string::StringExecFns;

verus! {

/// The kind of one OSC argument or parameter slot.
#[derive(Copy, Clone, PartialEq, Eq, Structural, Debug)]
pub enum OscKind {
    Int,
    Float,
    String,
    Blob,
    Time,
    Long,
    Double,
    Char,
    Color,
    Midi,
    Bool,
    Array,
    Nil,
    Inf,
}

/// The kind of an argument value.
pub open spec fn value_kind(v: OscValue) -> OscKind {
    match v {
        OscValue::Int(_) => OscKind::Int,
        OscValue::Float(_) => OscKind::Float,
        OscValue::String(_) => OscKind::String,
        OscValue::Blob(_) => OscKind::Blob,
        OscValue::Time(_, _) => OscKind::Time,
        OscValue::Long(_) => OscKind::Long,
        OscValue::Double(_) => OscKind::Double,
        OscValue::Char(_) => OscKind::Char,
        OscValue::Color(_, _, _, _) => OscKind::Color,
        OscValue::Midi(_, _, _, _) => OscKind::Midi,
        OscValue::Bool(_) => OscKind::Bool,
        OscValue::Array(_) => OscKind::Array,
        OscValue::Nil => OscKind::Nil,
        OscValue::Inf => OscKind::Inf,
    }
}

/// The tag strings a parameter of kind `k` may present: one fixed character
/// for most kinds, the current truth value for booleans, and a bracketed
/// member-tag string for arrays.
pub open spec fn is_tag_for_kind(k: OscKind, s: Seq<char>) -> bool {
    match k {
        OscKind::Int => s == seq!['i'],
        OscKind::Float => s == seq!['f'],
        OscKind::String => s == seq!['s'],
        OscKind::Blob => s == seq!['b'],
        OscKind::Time => s == seq!['t'],
        OscKind::Long => s == seq!['h'],
        OscKind::Double => s == seq!['d'],
        OscKind::Char => s == seq!['c'],
        OscKind::Color => s == seq!['r'],
        OscKind::Midi => s == seq!['m'],
        OscKind::Bool => s == seq!['T'] || s == seq!['F'],
        OscKind::Array => exists|vals: Seq<OscValue>|
            s == seq!['['] + osc_type_tag_list(vals) + seq![']'],
        OscKind::Nil => s == seq!['N'],
        OscKind::Inf => s == seq!['I'],
    }
}


/// The JSON the `RANGE` attribute presents for an array parameter: a
/// one-element list holding an unrestricted range.
pub open spec fn array_range_slot_is_json(j: Json) -> bool {
    j matches Json::Arr(items) && items@.len() == 1 && (items@[0] matches Json::Obj(m) && m@.len()
        == 0)
}

/// The JSON the `CLIPMODE` attribute presents for an array parameter: a
/// one-element list holding `"none"`.
pub open spec fn array_clip_slot_is_json(j: Json) -> bool {
    j matches Json::Arr(items) && items@.len() == 1 && clip_mode_is_json(
        ClipMode::NoClip,
        items@[0],
    )
}

/// The JSON the `UNIT` attribute presents for an array parameter: a
/// one-element list holding `null`.
pub open spec fn array_unit_slot_is_json(j: Json) -> bool {
    j matches Json::Arr(items) && items@.len() == 1 && items@[0] == Json::Null
}

/// A one-element list holding an empty object.
fn array_range_slot_json() -> (j: Json)
    ensures
        array_range_slot_is_json(j),
{
    let mut items: Vec<Json> = Vec::new();
    items.push(Json::Obj(Vec::new()));
    Json::Arr(items)
}

/// A one-element list holding `"none"`.
fn array_clip_slot_json() -> (j: Json)
    ensures
        array_clip_slot_is_json(j),
{
    let mut items: Vec<Json> = Vec::new();
    let c = ClipMode::NoClip;
    items.push(clip_mode_json(&c));
    Json::Arr(items)
}

/// A one-element list holding `null`.
fn array_unit_slot_json() -> (j: Json)
    ensures
        array_unit_slot_is_json(j),
{
    let mut items: Vec<Json> = Vec::new();
    items.push(Json::Null);
    Json::Arr(items)
}

/// The tag a write-only parameter always presents: there is no value to
/// read, so a boolean shows `F` and an array an empty bracket pair.
pub open spec fn write_only_tag(k: OscKind) -> Seq<char> {
    match k {
        OscKind::Int => seq!['i'],
        OscKind::Float => seq!['f'],
        OscKind::String => seq!['s'],
        OscKind::Blob => seq!['b'],
        OscKind::Time => seq!['t'],
        OscKind::Long => seq!['h'],
        OscKind::Double => seq!['d'],
        OscKind::Char => seq!['c'],
        OscKind::Color => seq!['r'],
        OscKind::Midi => seq!['m'],
        OscKind::Bool => seq!['F'],
        OscKind::Array => seq!['[', ']'],
        OscKind::Nil => seq!['N'],
        OscKind::Inf => seq!['I'],
    }
}

/// Read-only parameters.
pub enum ParamGet {
    Int(ValueGet<i32>),
    /// The handle reads `f32` bit patterns.
    Float(ValueGet<u32>),
    String(ValueGet<String>),
    Time(ValueGet<(u32, u32)>),
    Long(ValueGet<i64>),
    /// The handle reads `f64` bit patterns.
    Double(ValueGet<u64>),
    Char(ValueGet<char>),
    Midi(ValueGet<(u8, u8, u8, u8)>),
    Bool(ValueGet<bool>),
    Array(ValueGet<OscArray>),
}

/// Write-only parameters.
pub enum ParamSet {
    Int(ValueSet<i32>),
    /// The handle stores `f32` bit patterns.
    Float(ValueSet<u32>),
    String(ValueSet<String>),
    Time(ValueSet<(u32, u32)>),
    Long(ValueSet<i64>),
    /// The handle stores `f64` bit patterns.
    Double(ValueSet<u64>),
    Char(ValueSet<char>),
    Midi(ValueSet<(u8, u8, u8, u8)>),
    Bool(ValueSet<bool>),
    Array(ValueSet<OscArray>),
}

/// Read-write parameters.
pub enum ParamGetSet {
    Int(ValueGetSet<i32>),
    /// The handle exchanges `f32` bit patterns.
    Float(ValueGetSet<u32>),
    String(ValueGetSet<String>),
    Time(ValueGetSet<(u32, u32)>),
    Long(ValueGetSet<i64>),
    /// The handle exchanges `f64` bit patterns.
    Double(ValueGetSet<u64>),
    Char(ValueGetSet<char>),
    Midi(ValueGetSet<(u8, u8, u8, u8)>),
    Bool(ValueGetSet<bool>),
    Array(ValueGetSet<OscArray>),
}

impl ParamGet {
    /// The kind of this parameter.
    pub open spec fn kind(&self) -> OscKind {
        match self {
            ParamGet::Int(_) => OscKind::Int,
            ParamGet::Float(_) => OscKind::Float,
            ParamGet::String(_) => OscKind::String,
            ParamGet::Time(_) => OscKind::Time,
            ParamGet::Long(_) => OscKind::Long,
            ParamGet::Double(_) => OscKind::Double,
            ParamGet::Char(_) => OscKind::Char,
            ParamGet::Midi(_) => OscKind::Midi,
            ParamGet::Bool(_) => OscKind::Bool,
            ParamGet::Array(_) => OscKind::Array,
        }
    }

    /// A snapshot of the current value, of this parameter's kind.
    pub fn current_value(&self) -> (r: OscValue)
        ensures
            value_kind(r) == self.kind(),
    {
        match self {
            ParamGet::Int(v) => OscValue::Int(v.value().get()),
            ParamGet::Float(v) => OscValue::Float(v.value().get()),
            ParamGet::String(v) => OscValue::String(v.value().get()),
            ParamGet::Time(v) => {
                let t = v.value().get();
                OscValue::Time(t.0, t.1)
            },
            ParamGet::Long(v) => OscValue::Long(v.value().get()),
            ParamGet::Double(v) => OscValue::Double(v.value().get()),
            ParamGet::Char(v) => OscValue::Char(v.value().get()),
            ParamGet::Midi(v) => {
                let m = v.value().get();
                OscValue::Midi(m.0, m.1, m.2, m.3)
            },
            ParamGet::Bool(v) => OscValue::Bool(v.value().get()),
            ParamGet::Array(v) => OscValue::Array(v.value().get()),
        }
    }

    /// Append this parameter's tag characters to `out`.
    pub fn append_type_str(&self, out: &mut String)
        ensures
            exists|t: Seq<char>|
                final(out)@ == old(out)@ + t && #[trigger] is_tag_for_kind(self.kind(), t),
    {
        let v = self.current_value();
        append_type_tag(&v, out);
        proof {
            lemma_tag_of_value_fits(v);
        }
    }

    /// Render the `VALUE` attribute entry: a JSON snapshot of the current
    /// value, of this parameter's kind.
    pub fn value_json(&self) -> (j: Json)
        ensures
            exists|v: OscValue|
                value_kind(v) == self.kind() && #[trigger] osc_value_is_json(v, j),
    {
        let cv = self.current_value();
        osc_value_json(&cv)
    }

    /// The JSON this parameter presents for the `RANGE` attribute.
    pub open spec fn range_attr_is_json(&self, j: Json) -> bool {
        match self {
            ParamGet::Int(v) => range_is_json(v.range, j),
            ParamGet::Float(v) => range_is_json(v.range, j),
            ParamGet::String(v) => range_is_json(v.range, j),
            ParamGet::Time(v) => range_is_json(v.range, j),
            ParamGet::Long(v) => range_is_json(v.range, j),
            ParamGet::Double(v) => range_is_json(v.range, j),
            ParamGet::Char(v) => range_is_json(v.range, j),
            ParamGet::Midi(_) => j == Json::Null,
            ParamGet::Bool(v) => range_is_json(v.range, j),
            ParamGet::Array(_) => array_range_slot_is_json(j),
        }
    }

    /// Render the `RANGE` attribute entry for this parameter: the declared
    /// range, `null` for midi, and a one-element unrestricted list for an
    /// array.
    pub fn range_attr_json(&self) -> (j: Json)
        ensures
            self.range_attr_is_json(j),
    {
        match self {
            ParamGet::Int(v) => range_json(v.range()),
            ParamGet::Float(v) => range_json(v.range()),
            ParamGet::String(v) => range_json(v.range()),
            ParamGet::Time(v) => range_json(v.range()),
            ParamGet::Long(v) => range_json(v.range()),
            ParamGet::Double(v) => range_json(v.range()),
            ParamGet::Char(v) => range_json(v.range()),
            ParamGet::Midi(_) => Json::Null,
            ParamGet::Bool(v) => range_json(v.range()),
            ParamGet::Array(_) => array_range_slot_json(),
        }
    }

    /// The JSON this parameter presents for the `CLIPMODE` attribute.
    pub open spec fn clip_attr_is_json(&self, j: Json) -> bool {
        match self {
            ParamGet::Int(v) => clip_mode_is_json(v.clip_mode, j),
            ParamGet::Float(v) => clip_mode_is_json(v.clip_mode, j),
            ParamGet::String(v) => clip_mode_is_json(v.clip_mode, j),
            ParamGet::Time(v) => clip_mode_is_json(v.clip_mode, j),
            ParamGet::Long(v) => clip_mode_is_json(v.clip_mode, j),
            ParamGet::Double(v) => clip_mode_is_json(v.clip_mode, j),
            ParamGet::Char(v) => clip_mode_is_json(v.clip_mode, j),
            ParamGet::Midi(_) => j == Json::Null,
            ParamGet::Bool(v) => clip_mode_is_json(v.clip_mode, j),
            ParamGet::Array(_) => array_clip_slot_is_json(j),
        }
    }

    /// Render the `CLIPMODE` attribute entry for this parameter.
    pub fn clip_attr_json(&self) -> (j: Json)
        ensures
            self.clip_attr_is_json(j),
    {
        match self {
            ParamGet::Int(v) => clip_mode_json(v.clip_mode()),
            ParamGet::Float(v) => clip_mode_json(v.clip_mode()),
            ParamGet::String(v) => clip_mode_json(v.clip_mode()),
            ParamGet::Time(v) => clip_mode_json(v.clip_mode()),
            ParamGet::Long(v) => clip_mode_json(v.clip_mode()),
            ParamGet::Double(v) => clip_mode_json(v.clip_mode()),
            ParamGet::Char(v) => clip_mode_json(v.clip_mode()),
            ParamGet::Midi(_) => Json::Null,
            ParamGet::Bool(v) => clip_mode_json(v.clip_mode()),
            ParamGet::Array(_) => array_clip_slot_json(),
        }
    }

    /// The JSON this parameter presents for the `UNIT` attribute.
    pub open spec fn unit_attr_is_json(&self, j: Json) -> bool {
        match self {
            ParamGet::Int(v) => unit_is_json(v.unit, j),
            ParamGet::Float(v) => unit_is_json(v.unit, j),
            ParamGet::String(v) => unit_is_json(v.unit, j),
            ParamGet::Time(v) => unit_is_json(v.unit, j),
            ParamGet::Long(v) => unit_is_json(v.unit, j),
            ParamGet::Double(v) => unit_is_json(v.unit, j),
            ParamGet::Char(v) => unit_is_json(v.unit, j),
            ParamGet::Midi(_) => j == Json::Null,
            ParamGet::Bool(v) => unit_is_json(v.unit, j),
            ParamGet::Array(_) => array_unit_slot_is_json(j),
        }
    }

    /// Render the `UNIT` attribute entry for this parameter.
    pub fn unit_attr_json(&self) -> (j: Json)
        ensures
            self.unit_attr_is_json(j),
    {
        match self {
            ParamGet::Int(v) => unit_json(v.unit()),
            ParamGet::Float(v) => unit_json(v.unit()),
            ParamGet::String(v) => unit_json(v.unit()),
            ParamGet::Time(v) => unit_json(v.unit()),
            ParamGet::Long(v) => unit_json(v.unit()),
            ParamGet::Double(v) => unit_json(v.unit()),
            ParamGet::Char(v) => unit_json(v.unit()),
            ParamGet::Midi(_) => Json::Null,
            ParamGet::Bool(v) => unit_json(v.unit()),
            ParamGet::Array(_) => array_unit_slot_json(),
        }
    }
}

impl ParamSet {
    /// The kind of this parameter.
    pub open spec fn kind(&self) -> OscKind {
        match self {
            ParamSet::Int(_) => OscKind::Int,
            ParamSet::Float(_) => OscKind::Float,
            ParamSet::String(_) => OscKind::String,
            ParamSet::Time(_) => OscKind::Time,
            ParamSet::Long(_) => OscKind::Long,
            ParamSet::Double(_) => OscKind::Double,
            ParamSet::Char(_) => OscKind::Char,
            ParamSet::Midi(_) => OscKind::Midi,
            ParamSet::Bool(_) => OscKind::Bool,
            ParamSet::Array(_) => OscKind::Array,
        }
    }

    /// Write `arg` through the handle when its kind matches this
    /// parameter's; report whether it was applied.
    pub fn apply_osc_arg(&self, arg: &OscValue) -> (applied: bool)
        ensures
            applied == (value_kind(*arg) == self.kind()),
    {
        match (self, arg) {
            (ParamSet::Int(s), OscValue::Int(v)) => {
                s.value().set(*v);
                true
            },
            (ParamSet::Float(s), OscValue::Float(v)) => {
                s.value().set(*v);
                true
            },
            (ParamSet::String(s), OscValue::String(v)) => {
                s.value().set(v.clone());
                true
            },
            (ParamSet::Time(s), OscValue::Time(sec, frac)) => {
                s.value().set((*sec, *frac));
                true
            },
            (ParamSet::Long(s), OscValue::Long(v)) => {
                s.value().set(*v);
                true
            },
            (ParamSet::Double(s), OscValue::Double(v)) => {
                s.value().set(*v);
                true
            },
            (ParamSet::Char(s), OscValue::Char(v)) => {
                s.value().set(*v);
                true
            },
            (ParamSet::Midi(s), OscValue::Midi(p, st, d1, d2)) => {
                s.value().set((*p, *st, *d1, *d2));
                true
            },
            (ParamSet::Bool(s), OscValue::Bool(v)) => {
                s.value().set(*v);
                true
            },
            (ParamSet::Array(s), OscValue::Array(v)) => {
                s.value().set(v.clone());
                true
            },
            _ => false,
        }
    }

    /// Append this parameter's tag characters to `out`.  A write-only
    /// boolean presents `F`, and a write-only array an empty bracket pair,
    /// as there is no value to read.
    pub fn append_type_str(&self, out: &mut String)
        ensures
            final(out)@ == old(out)@ + write_only_tag(self.kind()),
            exists|t: Seq<char>|
                final(out)@ == old(out)@ + t && #[trigger] is_tag_for_kind(self.kind(), t),
    {
        let v: OscValue = match self {
            ParamSet::Int(_) => OscValue::Int(0),
            ParamSet::Float(_) => OscValue::Float(0),
            ParamSet::String(_) => OscValue::String(String::new()),
            ParamSet::Time(_) => OscValue::Time(0, 0),
            ParamSet::Long(_) => OscValue::Long(0),
            ParamSet::Double(_) => OscValue::Double(0),
            ParamSet::Char(_) => OscValue::Char(' '),
            ParamSet::Midi(_) => OscValue::Midi(0, 0x80, 0, 0),
            ParamSet::Bool(_) => OscValue::Bool(false),
            ParamSet::Array(_) => OscValue::Array(OscArray { content: Vec::new() }),
        };
        append_type_tag(&v, out);
        proof {
            lemma_tag_of_value_fits(v);
            if self is Array {
                assert(osc_type_tag(v) =~= write_only_tag(self.kind()));
            }
            assert(osc_type_tag(v) == write_only_tag(self.kind()));
        }
    }

    /// The JSON this parameter presents for the `RANGE` attribute.
    pub open spec fn range_attr_is_json(&self, j: Json) -> bool {
        match self {
            ParamSet::Int(v) => range_is_json(v.range, j),
            ParamSet::Float(v) => range_is_json(v.range, j),
            ParamSet::String(v) => range_is_json(v.range, j),
            ParamSet::Time(v) => range_is_json(v.range, j),
            ParamSet::Long(v) => range_is_json(v.range, j),
            ParamSet::Double(v) => range_is_json(v.range, j),
            ParamSet::Char(v) => range_is_json(v.range, j),
            ParamSet::Midi(_) => j == Json::Null,
            ParamSet::Bool(v) => range_is_json(v.range, j),
            ParamSet::Array(_) => array_range_slot_is_json(j),
        }
    }

    /// Render the `RANGE` attribute entry for this parameter: the declared
    /// range, `null` for midi, and a one-element unrestricted list for an
    /// array.
    pub fn range_attr_json(&self) -> (j: Json)
        ensures
            self.range_attr_is_json(j),
    {
        match self {
            ParamSet::Int(v) => range_json(v.range()),
            ParamSet::Float(v) => range_json(v.range()),
            ParamSet::String(v) => range_json(v.range()),
            ParamSet::Time(v) => range_json(v.range()),
            ParamSet::Long(v) => range_json(v.range()),
            ParamSet::Double(v) => range_json(v.range()),
            ParamSet::Char(v) => range_json(v.range()),
            ParamSet::Midi(_) => Json::Null,
            ParamSet::Bool(v) => range_json(v.range()),
            ParamSet::Array(_) => array_range_slot_json(),
        }
    }

    /// The JSON this parameter presents for the `CLIPMODE` attribute.
    pub open spec fn clip_attr_is_json(&self, j: Json) -> bool {
        match self {
            ParamSet::Int(v) => clip_mode_is_json(v.clip_mode, j),
            ParamSet::Float(v) => clip_mode_is_json(v.clip_mode, j),
            ParamSet::String(v) => clip_mode_is_json(v.clip_mode, j),
            ParamSet::Time(v) => clip_mode_is_json(v.clip_mode, j),
            ParamSet::Long(v) => clip_mode_is_json(v.clip_mode, j),
            ParamSet::Double(v) => clip_mode_is_json(v.clip_mode, j),
            ParamSet::Char(v) => clip_mode_is_json(v.clip_mode, j),
            ParamSet::Midi(_) => j == Json::Null,
            ParamSet::Bool(v) => clip_mode_is_json(v.clip_mode, j),
            ParamSet::Array(_) => array_clip_slot_is_json(j),
        }
    }

    /// Render the `CLIPMODE` attribute entry for this parameter.
    pub fn clip_attr_json(&self) -> (j: Json)
        ensures
            self.clip_attr_is_json(j),
    {
        match self {
            ParamSet::Int(v) => clip_mode_json(v.clip_mode()),
            ParamSet::Float(v) => clip_mode_json(v.clip_mode()),
            ParamSet::String(v) => clip_mode_json(v.clip_mode()),
            ParamSet::Time(v) => clip_mode_json(v.clip_mode()),
            ParamSet::Long(v) => clip_mode_json(v.clip_mode()),
            ParamSet::Double(v) => clip_mode_json(v.clip_mode()),
            ParamSet::Char(v) => clip_mode_json(v.clip_mode()),
            ParamSet::Midi(_) => Json::Null,
            ParamSet::Bool(v) => clip_mode_json(v.clip_mode()),
            ParamSet::Array(_) => array_clip_slot_json(),
        }
    }

    /// The JSON this parameter presents for the `UNIT` attribute.
    pub open spec fn unit_attr_is_json(&self, j: Json) -> bool {
        match self {
            ParamSet::Int(v) => unit_is_json(v.unit, j),
            ParamSet::Float(v) => unit_is_json(v.unit, j),
            ParamSet::String(v) => unit_is_json(v.unit, j),
            ParamSet::Time(v) => unit_is_json(v.unit, j),
            ParamSet::Long(v) => unit_is_json(v.unit, j),
            ParamSet::Double(v) => unit_is_json(v.unit, j),
            ParamSet::Char(v) => unit_is_json(v.unit, j),
            ParamSet::Midi(_) => j == Json::Null,
            ParamSet::Bool(v) => unit_is_json(v.unit, j),
            ParamSet::Array(_) => array_unit_slot_is_json(j),
        }
    }

    /// Render the `UNIT` attribute entry for this parameter.
    pub fn unit_attr_json(&self) -> (j: Json)
        ensures
            self.unit_attr_is_json(j),
    {
        match self {
            ParamSet::Int(v) => unit_json(v.unit()),
            ParamSet::Float(v) => unit_json(v.unit()),
            ParamSet::String(v) => unit_json(v.unit()),
            ParamSet::Time(v) => unit_json(v.unit()),
            ParamSet::Long(v) => unit_json(v.unit()),
            ParamSet::Double(v) => unit_json(v.unit()),
            ParamSet::Char(v) => unit_json(v.unit()),
            ParamSet::Midi(_) => Json::Null,
            ParamSet::Bool(v) => unit_json(v.unit()),
            ParamSet::Array(_) => array_unit_slot_json(),
        }
    }
}

impl ParamGetSet {
    /// The kind of this parameter.
    pub open spec fn kind(&self) -> OscKind {
        match self {
            ParamGetSet::Int(_) => OscKind::Int,
            ParamGetSet::Float(_) => OscKind::Float,
            ParamGetSet::String(_) => OscKind::String,
            ParamGetSet::Time(_) => OscKind::Time,
            ParamGetSet::Long(_) => OscKind::Long,
            ParamGetSet::Double(_) => OscKind::Double,
            ParamGetSet::Char(_) => OscKind::Char,
            ParamGetSet::Midi(_) => OscKind::Midi,
            ParamGetSet::Bool(_) => OscKind::Bool,
            ParamGetSet::Array(_) => OscKind::Array,
        }
    }

    /// A snapshot of the current value, of this parameter's kind.
    pub fn current_value(&self) -> (r: OscValue)
        ensures
            value_kind(r) == self.kind(),
    {
        match self {
            ParamGetSet::Int(v) => OscValue::Int(v.value().get()),
            ParamGetSet::Float(v) => OscValue::Float(v.value().get()),
            ParamGetSet::String(v) => OscValue::String(v.value().get()),
            ParamGetSet::Time(v) => {
                let t = v.value().get();
                OscValue::Time(t.0, t.1)
            },
            ParamGetSet::Long(v) => OscValue::Long(v.value().get()),
            ParamGetSet::Double(v) => OscValue::Double(v.value().get()),
            ParamGetSet::Char(v) => OscValue::Char(v.value().get()),
            ParamGetSet::Midi(v) => {
                let m = v.value().get();
                OscValue::Midi(m.0, m.1, m.2, m.3)
            },
            ParamGetSet::Bool(v) => OscValue::Bool(v.value().get()),
            ParamGetSet::Array(v) => OscValue::Array(v.value().get()),
        }
    }

    /// Write `arg` through the handle when its kind matches this
    /// parameter's; report whether it was applied.
    pub fn apply_osc_arg(&self, arg: &OscValue) -> (applied: bool)
        ensures
            applied == (value_kind(*arg) == self.kind()),
    {
        match (self, arg) {
            (ParamGetSet::Int(s), OscValue::Int(v)) => {
                s.value().set(*v);
                true
            },
            (ParamGetSet::Float(s), OscValue::Float(v)) => {
                s.value().set(*v);
                true
            },
            (ParamGetSet::String(s), OscValue::String(v)) => {
                s.value().set(v.clone());
                true
            },
            (ParamGetSet::Time(s), OscValue::Time(sec, frac)) => {
                s.value().set((*sec, *frac));
                true
            },
            (ParamGetSet::Long(s), OscValue::Long(v)) => {
                s.value().set(*v);
                true
            },
            (ParamGetSet::Double(s), OscValue::Double(v)) => {
                s.value().set(*v);
                true
            },
            (ParamGetSet::Char(s), OscValue::Char(v)) => {
                s.value().set(*v);
                true
            },
            (ParamGetSet::Midi(s), OscValue::Midi(p, st, d1, d2)) => {
                s.value().set((*p, *st, *d1, *d2));
                true
            },
            (ParamGetSet::Bool(s), OscValue::Bool(v)) => {
                s.value().set(*v);
                true
            },
            (ParamGetSet::Array(s), OscValue::Array(v)) => {
                s.value().set(v.clone());
                true
            },
            _ => false,
        }
    }

    /// Append this parameter's tag characters to `out`.
    pub fn append_type_str(&self, out: &mut String)
        ensures
            exists|t: Seq<char>|
                final(out)@ == old(out)@ + t && #[trigger] is_tag_for_kind(self.kind(), t),
    {
        let v = self.current_value();
        append_type_tag(&v, out);
        proof {
            lemma_tag_of_value_fits(v);
        }
    }

    /// Render the `VALUE` attribute entry: a JSON snapshot of the current
    /// value, of this parameter's kind.
    pub fn value_json(&self) -> (j: Json)
        ensures
            exists|v: OscValue|
                value_kind(v) == self.kind() && #[trigger] osc_value_is_json(v, j),
    {
        let cv = self.current_value();
        osc_value_json(&cv)
    }

    /// The JSON this parameter presents for the `RANGE` attribute.
    pub open spec fn range_attr_is_json(&self, j: Json) -> bool {
        match self {
            ParamGetSet::Int(v) => range_is_json(v.range, j),
            ParamGetSet::Float(v) => range_is_json(v.range, j),
            ParamGetSet::String(v) => range_is_json(v.range, j),
            ParamGetSet::Time(v) => range_is_json(v.range, j),
            ParamGetSet::Long(v) => range_is_json(v.range, j),
            ParamGetSet::Double(v) => range_is_json(v.range, j),
            ParamGetSet::Char(v) => range_is_json(v.range, j),
            ParamGetSet::Midi(_) => j == Json::Null,
            ParamGetSet::Bool(v) => range_is_json(v.range, j),
            ParamGetSet::Array(_) => array_range_slot_is_json(j),
        }
    }

    /// Render the `RANGE` attribute entry for this parameter: the declared
    /// range, `null` for midi, and a one-element unrestricted list for an
    /// array.
    pub fn range_attr_json(&self) -> (j: Json)
        ensures
            self.range_attr_is_json(j),
    {
        match self {
            ParamGetSet::Int(v) => range_json(v.range()),
            ParamGetSet::Float(v) => range_json(v.range()),
            ParamGetSet::String(v) => range_json(v.range()),
            ParamGetSet::Time(v) => range_json(v.range()),
            ParamGetSet::Long(v) => range_json(v.range()),
            ParamGetSet::Double(v) => range_json(v.range()),
            ParamGetSet::Char(v) => range_json(v.range()),
            ParamGetSet::Midi(_) => Json::Null,
            ParamGetSet::Bool(v) => range_json(v.range()),
            ParamGetSet::Array(_) => array_range_slot_json(),
        }
    }

    /// The JSON this parameter presents for the `CLIPMODE` attribute.
    pub open spec fn clip_attr_is_json(&self, j: Json) -> bool {
        match self {
            ParamGetSet::Int(v) => clip_mode_is_json(v.clip_mode, j),
            ParamGetSet::Float(v) => clip_mode_is_json(v.clip_mode, j),
            ParamGetSet::String(v) => clip_mode_is_json(v.clip_mode, j),
            ParamGetSet::Time(v) => clip_mode_is_json(v.clip_mode, j),
            ParamGetSet::Long(v) => clip_mode_is_json(v.clip_mode, j),
            ParamGetSet::Double(v) => clip_mode_is_json(v.clip_mode, j),
            ParamGetSet::Char(v) => clip_mode_is_json(v.clip_mode, j),
            ParamGetSet::Midi(_) => j == Json::Null,
            ParamGetSet::Bool(v) => clip_mode_is_json(v.clip_mode, j),
            ParamGetSet::Array(_) => array_clip_slot_is_json(j),
        }
    }

    /// Render the `CLIPMODE` attribute entry for this parameter.
    pub fn clip_attr_json(&self) -> (j: Json)
        ensures
            self.clip_attr_is_json(j),
    {
        match self {
            ParamGetSet::Int(v) => clip_mode_json(v.clip_mode()),
            ParamGetSet::Float(v) => clip_mode_json(v.clip_mode()),
            ParamGetSet::String(v) => clip_mode_json(v.clip_mode()),
            ParamGetSet::Time(v) => clip_mode_json(v.clip_mode()),
            ParamGetSet::Long(v) => clip_mode_json(v.clip_mode()),
            ParamGetSet::Double(v) => clip_mode_json(v.clip_mode()),
            ParamGetSet::Char(v) => clip_mode_json(v.clip_mode()),
            ParamGetSet::Midi(_) => Json::Null,
            ParamGetSet::Bool(v) => clip_mode_json(v.clip_mode()),
            ParamGetSet::Array(_) => array_clip_slot_json(),
        }
    }

    /// The JSON this parameter presents for the `UNIT` attribute.
    pub open spec fn unit_attr_is_json(&self, j: Json) -> bool {
        match self {
            ParamGetSet::Int(v) => unit_is_json(v.unit, j),
            ParamGetSet::Float(v) => unit_is_json(v.unit, j),
            ParamGetSet::String(v) => unit_is_json(v.unit, j),
            ParamGetSet::Time(v) => unit_is_json(v.unit, j),
            ParamGetSet::Long(v) => unit_is_json(v.unit, j),
            ParamGetSet::Double(v) => unit_is_json(v.unit, j),
            ParamGetSet::Char(v) => unit_is_json(v.unit, j),
            ParamGetSet::Midi(_) => j == Json::Null,
            ParamGetSet::Bool(v) => unit_is_json(v.unit, j),
            ParamGetSet::Array(_) => array_unit_slot_is_json(j),
        }
    }

    /// Render the `UNIT` attribute entry for this parameter.
    pub fn unit_attr_json(&self) -> (j: Json)
        ensures
            self.unit_attr_is_json(j),
    {
        match self {
            ParamGetSet::Int(v) => unit_json(v.unit()),
            ParamGetSet::Float(v) => unit_json(v.unit()),
            ParamGetSet::String(v) => unit_json(v.unit()),
            ParamGetSet::Time(v) => unit_json(v.unit()),
            ParamGetSet::Long(v) => unit_json(v.unit()),
            ParamGetSet::Double(v) => unit_json(v.unit()),
            ParamGetSet::Char(v) => unit_json(v.unit()),
            ParamGetSet::Midi(_) => Json::Null,
            ParamGetSet::Bool(v) => unit_json(v.unit()),
            ParamGetSet::Array(_) => array_unit_slot_json(),
        }
    }
}

/// The tag of a value is an allowed tag of the value's kind.
proof fn lemma_tag_of_value_fits(v: OscValue)
    ensures
        is_tag_for_kind(value_kind(v), osc_type_tag(v)),
{
    if v is Array {
        let a = v->Array_0;
        assert(osc_type_tag(v) == seq!['['] + osc_type_tag_list(a.content@) + seq![']']);
    }
}

} // verus!

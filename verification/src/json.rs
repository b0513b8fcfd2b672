//! A plain-value JSON model.
//!
//! The library renders namespace nodes into these values and the surrounding
//! program turns them into text.  Numbers keep their source width: floats are
//! carried as IEEE-754 bit patterns and only formatted outside the library.

use crate::osc::OscValue;
use crate::value::{ClipMode, Range};
use vstd::prelude::*;
use vstd::string::StringExecFns;

verus! {

broadcast use vstd::std_specs::vec::axiom_vec_index_decreases;

/// One JSON value.  A `Char` is a one-character string; `F32` and `F64`
/// are numbers carried as bit patterns.
#[derive(PartialEq, Debug)]
pub enum Json {
    Null,
    Bool(bool),
    Int(i64),
    UInt(u64),
    F32(u32),
    F64(u64),
    Str(String),
    Char(char),
    Arr(Vec<Json>),
    Obj(Vec<JsonField>),
}

/// One key/value member of a JSON object.
#[derive(PartialEq, Debug)]
pub struct JsonField {
    pub key: String,
    pub value: Json,
}

/// Structural equality of two JSON values, comparing strings by their
/// characters and objects member by member, in order.
pub open spec fn json_eq_deep(a: Json, b: Json) -> bool
    decreases a,
{
    match (a, b) {
        (Json::Null, Json::Null) => true,
        (Json::Bool(x), Json::Bool(y)) => x == y,
        (Json::Int(x), Json::Int(y)) => x == y,
        (Json::UInt(x), Json::UInt(y)) => x == y,
        (Json::F32(x), Json::F32(y)) => x == y,
        (Json::F64(x), Json::F64(y)) => x == y,
        (Json::Str(x), Json::Str(y)) => x@ == y@,
        (Json::Char(x), Json::Char(y)) => x == y,
        (Json::Arr(x), Json::Arr(y)) => json_list_eq_deep(x@, y@),
        (Json::Obj(x), Json::Obj(y)) => json_fields_eq_deep(x@, y@),
        _ => false,
    }
}

/// Pairwise structural equality of two JSON lists.
pub open spec fn json_list_eq_deep(a: Seq<Json>, b: Seq<Json>) -> bool
    decreases a,
{
    if a.len() != b.len() {
        false
    } else if a.len() == 0 {
        true
    } else {
        json_eq_deep(a[0], b[0]) && json_list_eq_deep(a.drop_first(), b.drop_first())
    }
}

/// Pairwise structural equality of two member lists.
pub open spec fn json_fields_eq_deep(a: Seq<JsonField>, b: Seq<JsonField>) -> bool
    decreases a,
{
    if a.len() != b.len() {
        false
    } else if a.len() == 0 {
        true
    } else {
        a[0].key@ == b[0].key@ && json_eq_deep(a[0].value, b[0].value) && json_fields_eq_deep(
            a.drop_first(),
            b.drop_first(),
        )
    }
}

/// A value that has a canonical JSON form; `is_json` relates a value to its
/// renderings (equal up to [`json_eq_deep`]).
pub trait ToJson {
    spec fn is_json(&self, j: Json) -> bool;

    fn to_json(&self) -> (r: Json)
        ensures
            self.is_json(r),
    ;
}

impl ToJson for i32 {
    open spec fn is_json(&self, j: Json) -> bool {
        j == Json::Int(*self as i64)
    }

    fn to_json(&self) -> (r: Json)
        ensures
            self.is_json(r),
    {
        Json::Int(*self as i64)
    }
}

impl ToJson for i64 {
    open spec fn is_json(&self, j: Json) -> bool {
        j == Json::Int(*self)
    }

    fn to_json(&self) -> (r: Json)
        ensures
            self.is_json(r),
    {
        Json::Int(*self)
    }
}

/// A `u32` carried through a float-typed parameter is an `f32` bit pattern.
impl ToJson for u32 {
    open spec fn is_json(&self, j: Json) -> bool {
        j == Json::F32(*self)
    }

    fn to_json(&self) -> (r: Json)
        ensures
            self.is_json(r),
    {
        Json::F32(*self)
    }
}

/// A `u64` carried through a double-typed parameter is an `f64` bit pattern.
impl ToJson for u64 {
    open spec fn is_json(&self, j: Json) -> bool {
        j == Json::F64(*self)
    }

    fn to_json(&self) -> (r: Json)
        ensures
            self.is_json(r),
    {
        Json::F64(*self)
    }
}

impl ToJson for bool {
    open spec fn is_json(&self, j: Json) -> bool {
        j == Json::Bool(*self)
    }

    fn to_json(&self) -> (r: Json)
        ensures
            self.is_json(r),
    {
        Json::Bool(*self)
    }
}

impl ToJson for char {
    open spec fn is_json(&self, j: Json) -> bool {
        j == Json::Char(*self)
    }

    fn to_json(&self) -> (r: Json)
        ensures
            self.is_json(r),
    {
        Json::Char(*self)
    }
}

impl ToJson for String {
    open spec fn is_json(&self, j: Json) -> bool {
        j matches Json::Str(s) && s@ == self@
    }

    fn to_json(&self) -> (r: Json)
        ensures
            self.is_json(r),
    {
        Json::Str(self.clone())
    }
}

/// An OSC time tag serializes as the 64-bit number `(seconds << 32) | fraction`.
pub open spec fn time_as_u64(seconds: u32, fraction: u32) -> u64 {
    ((seconds as u64) << 32u64) | (fraction as u64)
}

/// A time-typed parameter's range bound serializes as a two-element array.
impl ToJson for (u32, u32) {
    open spec fn is_json(&self, j: Json) -> bool {
        j matches Json::Arr(v) && v@.len() == 2 && v@[0] == Json::UInt(self.0 as u64) && v@[1]
            == Json::UInt(self.1 as u64)
    }

    fn to_json(&self) -> (r: Json)
        ensures
            self.is_json(r),
    {
        let mut v: Vec<Json> = Vec::new();
        v.push(Json::UInt(self.0 as u64));
        v.push(Json::UInt(self.1 as u64));
        Json::Arr(v)
    }
}

/// The JSON snapshot of one OSC argument: numbers for the numeric kinds, a
/// string for strings and characters, the combined 64-bit number for a time
/// tag, `null` for midi, blobs and the non-values, a hex string for a color,
/// and an array of snapshots for an array.
pub open spec fn osc_value_is_json(v: OscValue, j: Json) -> bool
    decreases v,
{
    match v {
        OscValue::Int(x) => j == Json::Int(x as i64),
        OscValue::Float(x) => j == Json::F32(x),
        OscValue::String(x) => j matches Json::Str(s) && s@ == x@,
        OscValue::Blob(_) => j == Json::Null,
        OscValue::Time(s, f) => j == Json::UInt(time_as_u64(s, f)),
        OscValue::Long(x) => j == Json::Int(x),
        OscValue::Double(x) => j == Json::F64(x),
        OscValue::Char(x) => j == Json::Char(x),
        OscValue::Color(r, g, b, a) => j matches Json::Str(s) && s@ == color_hex(r, g, b, a),
        OscValue::Midi(_, _, _, _) => j == Json::Null,
        OscValue::Bool(x) => j == Json::Bool(x),
        OscValue::Array(a) => j matches Json::Arr(items) && osc_value_list_is_json(
            a.content@,
            items@,
        ),
        OscValue::Nil => j == Json::Null,
        OscValue::Inf => j == Json::Null,
    }
}

/// Pairwise JSON snapshots of a list of arguments.
pub open spec fn osc_value_list_is_json(vs: Seq<OscValue>, js: Seq<Json>) -> bool
    decreases vs,
{
    if vs.len() != js.len() {
        false
    } else if vs.len() == 0 {
        true
    } else {
        osc_value_is_json(vs[0], js[0]) && osc_value_list_is_json(vs.drop_first(), js.drop_first())
    }
}

/// A color serializes as `#RRGGBBAA`, upper-case hex.
pub open spec fn color_hex(r: u8, g: u8, b: u8, a: u8) -> Seq<char> {
    seq!['#'] + hex_byte(r) + hex_byte(g) + hex_byte(b) + hex_byte(a)
}

/// Two upper-case hex digits of one byte.
pub open spec fn hex_byte(b: u8) -> Seq<char> {
    hex_digit(b / 16) + hex_digit(b % 16)
}

/// One upper-case hex digit of a value below 16.
pub open spec fn hex_digit(d: u8) -> Seq<char> {
    hex_table_view()[d as int]
}

/// The views of the sixteen digit literals, in order.
pub open spec fn hex_table_view() -> Seq<Seq<char>> {
    seq![
        seq!['0'],
        seq!['1'],
        seq!['2'],
        seq!['3'],
        seq!['4'],
        seq!['5'],
        seq!['6'],
        seq!['7'],
        seq!['8'],
        seq!['9'],
        seq!['A'],
        seq!['B'],
        seq!['C'],
        seq!['D'],
        seq!['E'],
        seq!['F'],
    ]
}

/// Append the two upper-case hex digits of `b` to `out`.
fn append_hex_byte(b: u8, out: &mut String)
    ensures
        final(out)@ == old(out)@ + hex_byte(b),
{
    append_hex_digit(b / 16, out);
    append_hex_digit(b % 16, out);
}

/// Append one upper-case hex digit of a value below 16.
fn append_hex_digit(d: u8, out: &mut String)
    requires
        d < 16,
    ensures
        final(out)@ == old(out)@ + hex_digit(d),
{
    proof {
        reveal_strlit("0");
        reveal_strlit("1");
        reveal_strlit("2");
        reveal_strlit("3");
        reveal_strlit("4");
        reveal_strlit("5");
        reveal_strlit("6");
        reveal_strlit("7");
        reveal_strlit("8");
        reveal_strlit("9");
        reveal_strlit("A");
        reveal_strlit("B");
        reveal_strlit("C");
        reveal_strlit("D");
        reveal_strlit("E");
        reveal_strlit("F");
    }
    match d {
        0u8 => out.append("0"),
        1u8 => out.append("1"),
        2u8 => out.append("2"),
        3u8 => out.append("3"),
        4u8 => out.append("4"),
        5u8 => out.append("5"),
        6u8 => out.append("6"),
        7u8 => out.append("7"),
        8u8 => out.append("8"),
        9u8 => out.append("9"),
        10u8 => out.append("A"),
        11u8 => out.append("B"),
        12u8 => out.append("C"),
        13u8 => out.append("D"),
        14u8 => out.append("E"),
        _ => out.append("F"),
    }
}

/// The JSON snapshot of one OSC argument; see [`osc_value_is_json`].
pub fn osc_value_json(v: &OscValue) -> (r: Json)
    ensures
        osc_value_is_json(*v, r),
    decreases *v,
{
    match v {
        OscValue::Int(x) => Json::Int(*x as i64),
        OscValue::Float(x) => Json::F32(*x),
        OscValue::String(x) => Json::Str(x.clone()),
        OscValue::Blob(_) => Json::Null,
        OscValue::Time(s, f) => Json::UInt(((*s as u64) << 32u64) | (*f as u64)),
        OscValue::Long(x) => Json::Int(*x),
        OscValue::Double(x) => Json::F64(*x),
        OscValue::Char(x) => Json::Char(*x),
        OscValue::Color(r, g, b, a) => {
            let mut s = String::new();
            proof {
                reveal_strlit("#");
            }
            s.append("#");
            append_hex_byte(*r, &mut s);
            append_hex_byte(*g, &mut s);
            append_hex_byte(*b, &mut s);
            append_hex_byte(*a, &mut s);
            proof {
                assert(s@ =~= color_hex(*r, *g, *b, *a));
            }
            Json::Str(s)
        },
        OscValue::Midi(_, _, _, _) => Json::Null,
        OscValue::Bool(x) => Json::Bool(*x),
        OscValue::Array(a) => {
            let n = a.content.len();
            let mut items: Vec<Json> = Vec::new();
            for i in 0..n
                invariant
                    n == a.content.len(),
                    *v == OscValue::Array(*a),
                    items@.len() == i,
                    forall|k: int|
                        0 <= k < i ==> osc_value_is_json(a.content@[k], #[trigger] items@[k]),
                decreases n - i,
            {
                proof {
                    assert(v->Array_0 == *a);
                    assert(decreases_to!(*v => v->Array_0));
                    assert(decreases_to!(*a => a.content));
                }
                let j = osc_value_json(&a.content[i]);
                items.push(j);
            }
            proof {
                lemma_osc_value_list_is_json(a.content@, items@);
            }
            Json::Arr(items)
        },
        OscValue::Nil => Json::Null,
        OscValue::Inf => Json::Null,
    }
}

/// Two lists are pairwise snapshots exactly when they have the same length
/// and each member is a snapshot.
pub proof fn lemma_osc_value_list_is_json(vs: Seq<OscValue>, js: Seq<Json>)
    ensures
        osc_value_list_is_json(vs, js) <==> (vs.len() == js.len() && forall|i: int|
            0 <= i < vs.len() ==> osc_value_is_json(vs[i], #[trigger] js[i])),
    decreases vs,
{
    if vs.len() == js.len() && vs.len() > 0 {
        lemma_osc_value_list_is_json(vs.drop_first(), js.drop_first());
        assert(forall|i: int|
            0 <= i < vs.drop_first().len() ==> vs.drop_first()[i] == vs[i + 1]
                && js.drop_first()[i] == js[i + 1]);
        if osc_value_list_is_json(vs, js) {
            assert forall|i: int| 0 <= i < vs.len() implies osc_value_is_json(
                vs[i],
                #[trigger] js[i],
            ) by {
                if i > 0 {
                    assert(osc_value_is_json(vs.drop_first()[i - 1], js.drop_first()[i - 1]));
                }
            }
        }
    }
}


/// The JSON form of a range: an object with `MIN`/`MAX` bounds, a `VALS`
/// list, or empty when unrestricted.
pub open spec fn range_is_json<T: ToJson>(r: Range<T>, j: Json) -> bool {
    match r {
        Range::NoLimit => j matches Json::Obj(m) && m@.len() == 0,
        Range::Min(v) => j matches Json::Obj(m) && m@.len() == 1 && m@[0].key@ == "MIN"@
            && v.is_json(m@[0].value),
        Range::Max(v) => j matches Json::Obj(m) && m@.len() == 1 && m@[0].key@ == "MAX"@
            && v.is_json(m@[0].value),
        Range::MinMax(lo, hi) => j matches Json::Obj(m) && m@.len() == 2 && m@[0].key@ == "MIN"@
            && lo.is_json(m@[0].value) && m@[1].key@ == "MAX"@ && hi.is_json(m@[1].value),
        Range::Vals(vs) => j matches Json::Obj(m) && m@.len() == 1 && m@[0].key@ == "VALS"@
            && (m@[0].value matches Json::Arr(items) && items@.len() == vs@.len() && forall|i: int|
                0 <= i < vs@.len() ==> #[trigger] vs@[i].is_json(items@[i])),
    }
}

/// Render a range; see [`range_is_json`].
pub fn range_json<T: ToJson>(r: &Range<T>) -> (j: Json)
    ensures
        range_is_json(*r, j),
{
    match r {
        Range::NoLimit => Json::Obj(Vec::new()),
        Range::Min(v) => {
            let mut m: Vec<JsonField> = Vec::new();
            m.push(JsonField { key: "MIN".to_owned(), value: v.to_json() });
            Json::Obj(m)
        },
        Range::Max(v) => {
            let mut m: Vec<JsonField> = Vec::new();
            m.push(JsonField { key: "MAX".to_owned(), value: v.to_json() });
            Json::Obj(m)
        },
        Range::MinMax(lo, hi) => {
            let mut m: Vec<JsonField> = Vec::new();
            m.push(JsonField { key: "MIN".to_owned(), value: lo.to_json() });
            m.push(JsonField { key: "MAX".to_owned(), value: hi.to_json() });
            Json::Obj(m)
        },
        Range::Vals(vs) => {
            let n = vs.len();
            let mut items: Vec<Json> = Vec::new();
            for i in 0..n
                invariant
                    n == vs.len(),
                    items@.len() == i,
                    forall|k: int| 0 <= k < i ==> #[trigger] vs@[k].is_json(items@[k]),
                decreases n - i,
            {
                let j = vs[i].to_json();
                items.push(j);
            }
            let mut m: Vec<JsonField> = Vec::new();
            m.push(JsonField { key: "VALS".to_owned(), value: Json::Arr(items) });
            Json::Obj(m)
        },
    }
}

/// The lowercase name of a clip-mode.
pub open spec fn clip_mode_text(c: ClipMode) -> Seq<char> {
    match c {
        ClipMode::NoClip => seq!['n', 'o', 'n', 'e'],
        ClipMode::Low => seq!['l', 'o', 'w'],
        ClipMode::High => seq!['h', 'i', 'g', 'h'],
        ClipMode::Both => seq!['b', 'o', 't', 'h'],
    }
}

/// A clip-mode serializes as its lowercase name.
pub open spec fn clip_mode_is_json(c: ClipMode, j: Json) -> bool {
    j matches Json::Str(s) && s@ == clip_mode_text(c)
}

/// Render a clip-mode; see [`clip_mode_is_json`].
pub fn clip_mode_json(c: &ClipMode) -> (j: Json)
    ensures
        clip_mode_is_json(*c, j),
{
    proof {
        reveal_strlit("none");
        reveal_strlit("low");
        reveal_strlit("high");
        reveal_strlit("both");
        assert("none"@ =~= seq!['n', 'o', 'n', 'e']);
        assert("low"@ =~= seq!['l', 'o', 'w']);
        assert("high"@ =~= seq!['h', 'i', 'g', 'h']);
        assert("both"@ =~= seq!['b', 'o', 't', 'h']);
    }
    match c {
        ClipMode::NoClip => Json::Str("none".to_owned()),
        ClipMode::Low => Json::Str("low".to_owned()),
        ClipMode::High => Json::Str("high".to_owned()),
        ClipMode::Both => Json::Str("both".to_owned()),
    }
}

/// A unit serializes as its string, or `null` when absent.
pub open spec fn unit_is_json(u: Option<String>, j: Json) -> bool {
    match u {
        Option::Some(s) => j matches Json::Str(t) && t@ == s@,
        Option::None => j == Json::Null,
    }
}

/// Render a unit; see [`unit_is_json`].
pub fn unit_json(u: &Option<String>) -> (j: Json)
    ensures
        unit_is_json(*u, j),
{
    match u {
        Option::Some(s) => Json::Str(s.clone()),
        Option::None => Json::Null,
    }
}

} // verus!

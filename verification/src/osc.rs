//! Plain-value model of OSC messages and bundles.
//!
//! The wire codec is not part of the library: the surrounding program decodes
//! datagrams and frames into these values and encodes them back.  Floating
//! point arguments are carried as their IEEE-754 bit patterns so that the
//! verified logic can store and compare them exactly.

use vstd::prelude::*;
use vstd::string::StringExecFns;

verus! {

broadcast use vstd::std_specs::vec::axiom_vec_index_decreases;

/// One typed OSC argument.
#[derive(PartialEq, Debug)]
pub enum OscValue {
    Int(i32),
    /// A 32-bit float, as its bit pattern.
    Float(u32),
    String(String),
    Blob(Vec<u8>),
    /// An OSC time tag: seconds since 1900 and a fraction of a second.
    Time(u32, u32),
    Long(i64),
    /// A 64-bit float, as its bit pattern.
    Double(u64),
    Char(char),
    Color(u8, u8, u8, u8),
    Midi(u8, u8, u8, u8),
    Bool(bool),
    Array(OscArray),
    Nil,
    Inf,
}

/// A nested list of OSC arguments.
#[derive(PartialEq, Debug)]
pub struct OscArray {
    pub content: Vec<OscValue>,
}

/// One OSC message: an address and its arguments.
#[derive(PartialEq, Debug)]
pub struct OscMsg {
    pub addr: String,
    pub args: Vec<OscValue>,
}

/// An OSC time tag: seconds since 1900 and a fraction of a second.
#[derive(Copy, Clone, PartialEq, Eq, Structural, Debug)]
pub struct TimeTag {
    pub seconds: u32,
    pub fraction: u32,
}

/// A bundle: a time tag and nested packets delivered together.
#[derive(PartialEq, Debug)]
pub struct OscBundle {
    pub timetag: TimeTag,
    pub content: Vec<OscPkt>,
}

/// An OSC packet: either a single message or a bundle.
#[derive(PartialEq, Debug)]
pub enum OscPkt {
    Message(OscMsg),
    Bundle(OscBundle),
}

/// The address of a network peer, as plain values.
#[derive(Clone, PartialEq, Debug)]
pub struct PeerAddr {
    pub host: String,
    pub port: u16,
}

/// Structural equality of two arguments, comparing strings, blobs and nested
/// arrays by their contents.
pub open spec fn osc_value_eq_deep(a: OscValue, b: OscValue) -> bool
    decreases a,
{
    match (a, b) {
        (OscValue::Int(x), OscValue::Int(y)) => x == y,
        (OscValue::Float(x), OscValue::Float(y)) => x == y,
        (OscValue::String(x), OscValue::String(y)) => x@ == y@,
        (OscValue::Blob(x), OscValue::Blob(y)) => x@ == y@,
        (OscValue::Time(xs, xf), OscValue::Time(ys, yf)) => xs == ys && xf == yf,
        (OscValue::Long(x), OscValue::Long(y)) => x == y,
        (OscValue::Double(x), OscValue::Double(y)) => x == y,
        (OscValue::Char(x), OscValue::Char(y)) => x == y,
        (OscValue::Color(xr, xg, xb, xa), OscValue::Color(yr, yg, yb, ya)) => xr == yr && xg == yg
            && xb == yb && xa == ya,
        (OscValue::Midi(xp, xs, x1, x2), OscValue::Midi(yp, ys, y1, y2)) => xp == yp && xs == ys
            && x1 == y1 && x2 == y2,
        (OscValue::Bool(x), OscValue::Bool(y)) => x == y,
        (OscValue::Array(x), OscValue::Array(y)) => osc_value_list_eq_deep(x.content@, y.content@),
        (OscValue::Nil, OscValue::Nil) => true,
        (OscValue::Inf, OscValue::Inf) => true,
        _ => false,
    }
}

/// Pairwise structural equality of two argument lists.
pub open spec fn osc_value_list_eq_deep(a: Seq<OscValue>, b: Seq<OscValue>) -> bool
    decreases a,
{
    if a.len() != b.len() {
        false
    } else if a.len() == 0 {
        true
    } else {
        osc_value_eq_deep(a[0], b[0]) && osc_value_list_eq_deep(a.drop_first(), b.drop_first())
    }
}

/// Two argument lists are pairwise equal exactly when they have the same
/// length and equal members.
pub proof fn lemma_osc_value_list_eq_deep(a: Seq<OscValue>, b: Seq<OscValue>)
    ensures
        osc_value_list_eq_deep(a, b) <==> (a.len() == b.len() && forall|i: int|
            0 <= i < a.len() ==> osc_value_eq_deep(#[trigger] a[i], b[i])),
    decreases a,
{
    if a.len() == b.len() && a.len() > 0 {
        lemma_osc_value_list_eq_deep(a.drop_first(), b.drop_first());
        assert(forall|i: int|
            0 <= i < a.drop_first().len() ==> a.drop_first()[i] == a[i + 1] && b.drop_first()[i]
                == b[i + 1]);
        if osc_value_list_eq_deep(a, b) {
            assert forall|i: int| 0 <= i < a.len() implies osc_value_eq_deep(
                #[trigger] a[i],
                b[i],
            ) by {
                if i > 0 {
                    assert(osc_value_eq_deep(a.drop_first()[i - 1], b.drop_first()[i - 1]));
                }
            }
        }
    }
}

/// Structural equality of two messages.
pub open spec fn osc_msg_eq_deep(a: OscMsg, b: OscMsg) -> bool {
    a.addr@ == b.addr@ && osc_value_list_eq_deep(a.args@, b.args@)
}

impl Clone for OscValue {
    /// A deep copy, member for member.
    fn clone(&self) -> (r: Self)
        ensures
            osc_value_eq_deep(*self, r),
        decreases *self,
    {
        match self {
            OscValue::Int(v) => OscValue::Int(*v),
            OscValue::Float(v) => OscValue::Float(*v),
            OscValue::String(v) => OscValue::String(v.clone()),
            OscValue::Blob(v) => OscValue::Blob(v.clone()),
            OscValue::Time(s, f) => OscValue::Time(*s, *f),
            OscValue::Long(v) => OscValue::Long(*v),
            OscValue::Double(v) => OscValue::Double(*v),
            OscValue::Char(v) => OscValue::Char(*v),
            OscValue::Color(r0, g, b, a) => OscValue::Color(*r0, *g, *b, *a),
            OscValue::Midi(p, st, d1, d2) => OscValue::Midi(*p, *st, *d1, *d2),
            OscValue::Bool(v) => OscValue::Bool(*v),
            OscValue::Array(a) => OscValue::Array(a.clone()),
            OscValue::Nil => OscValue::Nil,
            OscValue::Inf => OscValue::Inf,
        }
    }
}

impl Clone for OscArray {
    /// A deep copy, member for member.
    fn clone(&self) -> (r: Self)
        ensures
            osc_value_list_eq_deep(self.content@, r.content@),
        decreases *self,
    {
        let n = self.content.len();
        let mut content: Vec<OscValue> = Vec::new();
        for i in 0..n
            invariant
                n == self.content.len(),
                content@.len() == i,
                forall|k: int|
                    0 <= k < i ==> osc_value_eq_deep(self.content@[k], #[trigger] content@[k]),
            decreases n - i,
        {
            proof {
                assert(decreases_to!(*self => self.content));
            }
            content.push(self.content[i].clone());
        }
        proof {
            lemma_osc_value_list_eq_deep(self.content@, content@);
        }
        OscArray { content }
    }
}

impl Clone for OscMsg {
    /// A deep copy, member for member.
    fn clone(&self) -> (r: Self)
        ensures
            osc_msg_eq_deep(*self, r),
    {
        let n = self.args.len();
        let mut args: Vec<OscValue> = Vec::new();
        for i in 0..n
            invariant
                n == self.args.len(),
                args@.len() == i,
                forall|k: int| 0 <= k < i ==> osc_value_eq_deep(self.args@[k], #[trigger] args@[k]),
            decreases n - i,
        {
            args.push(self.args[i].clone());
        }
        proof {
            lemma_osc_value_list_eq_deep(self.args@, args@);
        }
        OscMsg { addr: self.addr.clone(), args }
    }
}

/// Structural equality of two packets.
pub open spec fn osc_pkt_eq_deep(a: OscPkt, b: OscPkt) -> bool
    decreases a,
{
    match (a, b) {
        (OscPkt::Message(x), OscPkt::Message(y)) => osc_msg_eq_deep(x, y),
        (OscPkt::Bundle(x), OscPkt::Bundle(y)) => x.timetag == y.timetag && osc_pkt_list_eq_deep(
            x.content@,
            y.content@,
        ),
        _ => false,
    }
}

/// Pairwise structural equality of two packet lists.
pub open spec fn osc_pkt_list_eq_deep(a: Seq<OscPkt>, b: Seq<OscPkt>) -> bool
    decreases a,
{
    if a.len() != b.len() {
        false
    } else if a.len() == 0 {
        true
    } else {
        osc_pkt_eq_deep(a[0], b[0]) && osc_pkt_list_eq_deep(a.drop_first(), b.drop_first())
    }
}

/// Two packet lists are pairwise equal exactly when they have the same
/// length and equal members.
pub proof fn lemma_osc_pkt_list_eq_deep(a: Seq<OscPkt>, b: Seq<OscPkt>)
    ensures
        osc_pkt_list_eq_deep(a, b) <==> (a.len() == b.len() && forall|i: int|
            0 <= i < a.len() ==> osc_pkt_eq_deep(#[trigger] a[i], b[i])),
    decreases a,
{
    if a.len() == b.len() && a.len() > 0 {
        lemma_osc_pkt_list_eq_deep(a.drop_first(), b.drop_first());
        assert(forall|i: int|
            0 <= i < a.drop_first().len() ==> a.drop_first()[i] == a[i + 1] && b.drop_first()[i]
                == b[i + 1]);
        if osc_pkt_list_eq_deep(a, b) {
            assert forall|i: int| 0 <= i < a.len() implies osc_pkt_eq_deep(
                #[trigger] a[i],
                b[i],
            ) by {
                if i > 0 {
                    assert(osc_pkt_eq_deep(a.drop_first()[i - 1], b.drop_first()[i - 1]));
                }
            }
        }
    }
}

impl Clone for OscPkt {
    /// A deep copy, member for member.
    fn clone(&self) -> (r: Self)
        ensures
            osc_pkt_eq_deep(*self, r),
        decreases *self,
    {
        match self {
            OscPkt::Message(m) => OscPkt::Message(m.clone()),
            OscPkt::Bundle(b) => OscPkt::Bundle(b.clone()),
        }
    }
}

impl Clone for OscBundle {
    /// A deep copy, member for member.
    fn clone(&self) -> (r: Self)
        ensures
            osc_pkt_eq_deep(OscPkt::Bundle(*self), OscPkt::Bundle(r)),
        decreases *self,
    {
        let n = self.content.len();
        let mut content: Vec<OscPkt> = Vec::new();
        for i in 0..n
            invariant
                n == self.content.len(),
                content@.len() == i,
                forall|k: int|
                    0 <= k < i ==> osc_pkt_eq_deep(self.content@[k], #[trigger] content@[k]),
            decreases n - i,
        {
            proof {
                assert(decreases_to!(*self => self.content));
            }
            content.push(self.content[i].clone());
        }
        proof {
            lemma_osc_pkt_list_eq_deep(self.content@, content@);
        }
        OscBundle { timetag: self.timetag, content }
    }
}

/// The OSC type-tag characters for one argument, per the OSC 1.0 tag
/// alphabet; a boolean's tag is its current value, and an array nests its
/// members' tags in brackets.
pub open spec fn osc_type_tag(v: OscValue) -> Seq<char>
    decreases v,
{
    match v {
        OscValue::Int(_) => seq!['i'],
        OscValue::Float(_) => seq!['f'],
        OscValue::String(_) => seq!['s'],
        OscValue::Blob(_) => seq!['b'],
        OscValue::Time(_, _) => seq!['t'],
        OscValue::Long(_) => seq!['h'],
        OscValue::Double(_) => seq!['d'],
        OscValue::Char(_) => seq!['c'],
        OscValue::Color(_, _, _, _) => seq!['r'],
        OscValue::Midi(_, _, _, _) => seq!['m'],
        OscValue::Bool(b) => if b {
            seq!['T']
        } else {
            seq!['F']
        },
        OscValue::Array(a) => seq!['['] + osc_type_tag_list(a.content@) + seq![']'],
        OscValue::Nil => seq!['N'],
        OscValue::Inf => seq!['I'],
    }
}

/// The concatenated tags of a list of arguments.
pub open spec fn osc_type_tag_list(s: Seq<OscValue>) -> Seq<char>
    decreases s,
{
    if s.len() == 0 {
        Seq::empty()
    } else {
        osc_type_tag(s[0]) + osc_type_tag_list(s.drop_first())
    }
}

/// Append the tag characters of `v` to `out`.
pub fn append_type_tag(v: &OscValue, out: &mut String)
    ensures
        final(out)@ == old(out)@ + osc_type_tag(*v),
    decreases *v,
{
    proof {
        reveal_strlit("i");
        reveal_strlit("f");
        reveal_strlit("s");
        reveal_strlit("b");
        reveal_strlit("t");
        reveal_strlit("h");
        reveal_strlit("d");
        reveal_strlit("c");
        reveal_strlit("r");
        reveal_strlit("m");
        reveal_strlit("T");
        reveal_strlit("F");
        reveal_strlit("[");
        reveal_strlit("]");
        reveal_strlit("N");
        reveal_strlit("I");
    }
    match v {
        OscValue::Int(_) => out.append("i"),
        OscValue::Float(_) => out.append("f"),
        OscValue::String(_) => out.append("s"),
        OscValue::Blob(_) => out.append("b"),
        OscValue::Time(_, _) => out.append("t"),
        OscValue::Long(_) => out.append("h"),
        OscValue::Double(_) => out.append("d"),
        OscValue::Char(_) => out.append("c"),
        OscValue::Color(_, _, _, _) => out.append("r"),
        OscValue::Midi(_, _, _, _) => out.append("m"),
        OscValue::Bool(b) => {
            if *b {
                out.append("T");
            } else {
                out.append("F");
            }
        },
        OscValue::Array(a) => {
            out.append("[");
            let n = a.content.len();
            for i in 0..n
                invariant
                    n == a.content.len(),
                    *v == OscValue::Array(*a),
                    out@ == old(out)@ + seq!['['] + osc_type_tag_list(a.content@.take(i as int)),
                decreases n - i,
            {
                proof {
                    assert(a.content@.take(i as int + 1).drop_last() =~= a.content@.take(i as int));
                    assert(a.content@.take(i as int + 1).last() == a.content@[i as int]);
                    lemma_osc_type_tag_list_snoc(a.content@.take(i as int + 1));
                    assert(v->Array_0 == *a);
                    assert(decreases_to!(*v => v->Array_0));
                    assert(decreases_to!(*a => a.content));
                }
                append_type_tag(&a.content[i], out);
            }
            proof {
                assert(a.content@.take(n as int) =~= a.content@);
                reveal_strlit("[");
                reveal_strlit("]");
            }
            out.append("]");
            proof {
                assert(final(out)@ =~= old(out)@ + osc_type_tag(*v));
            }
        },
        OscValue::Nil => out.append("N"),
        OscValue::Inf => out.append("I"),
    }
}

/// Splitting the last argument off a non-empty list splits its tag string.
proof fn lemma_osc_type_tag_list_snoc(s: Seq<OscValue>)
    requires
        s.len() > 0,
    ensures
        osc_type_tag_list(s) == osc_type_tag_list(s.drop_last()) + osc_type_tag(s.last()),
    decreases s,
{
    if s.len() == 1 {
        assert(s.drop_first().len() == 0);
        assert(s.drop_last().len() == 0);
        assert(osc_type_tag_list(s.drop_first()) =~= Seq::<char>::empty());
        assert(osc_type_tag_list(s.drop_last()) =~= Seq::<char>::empty());
        assert(s.last() == s[0]);
        assert(osc_type_tag_list(s) == osc_type_tag(s[0]) + osc_type_tag_list(s.drop_first()));
        assert(osc_type_tag_list(s) =~= osc_type_tag_list(s.drop_last()) + osc_type_tag(s.last()));
    } else {
        lemma_osc_type_tag_list_snoc(s.drop_first());
        assert(s.drop_first().drop_last() =~= s.drop_last().drop_first());
        assert(s.drop_first().last() == s.last());
        assert(s.drop_last()[0] == s[0]);
        assert(s.drop_last().len() > 0);
        assert(osc_type_tag_list(s.drop_last()) == osc_type_tag(s[0]) + osc_type_tag_list(
            s.drop_last().drop_first(),
        ));
        assert(osc_type_tag_list(s) == osc_type_tag(s[0]) + osc_type_tag_list(s.drop_first()));
        assert(osc_type_tag_list(s.drop_first()) == osc_type_tag_list(s.drop_last().drop_first())
            + osc_type_tag(s.last()));
        assert(osc_type_tag(s[0]) + (osc_type_tag_list(s.drop_last().drop_first()) + osc_type_tag(
            s.last(),
        )) =~= (osc_type_tag(s[0]) + osc_type_tag_list(s.drop_last().drop_first())) + osc_type_tag(
            s.last(),
        ));
    }
}

} // verus!

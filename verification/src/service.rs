//! Decision logic of the network services: the HOST_INFO document and the
//! per-session subscription rules.  Sockets and frame codecs live outside
//! the library and hand these functions plain values.

use crate::json::{Json, JsonField};
use crate::osc::OscMsg;
use crate::root::{ns_change_view, NamespaceChange};
use vstd::prelude::*;
use vstd::string::StringExecFns;

verus! {

/// The OSCQuery extension flags a server advertises.  The first six are
/// always supported; the LISTEN / PATH_ADDED / PATH_REMOVED trio is turned
/// on when a push channel exists; the rest are not implemented.
#[derive(Copy, Clone, PartialEq, Eq, Structural, Debug)]
pub struct Extensions {
    pub access: bool,
    pub value: bool,
    pub range: bool,
    pub description: bool,
    pub clipmode: bool,
    pub unit: bool,
    pub listen: bool,
    pub path_changed: bool,
    pub path_renamed: bool,
    pub path_added: bool,
    pub path_removed: bool,
    pub tags: bool,
    pub extended_type: bool,
    pub critical: bool,
    pub overloads: bool,
    pub html: bool,
}

/// The default flag set: the six attribute extensions on, all others off.
pub open spec fn spec_default_extensions() -> Extensions {
    Extensions {
        access: true,
        value: true,
        range: true,
        description: true,
        clipmode: true,
        unit: true,
        listen: false,
        path_changed: false,
        path_renamed: false,
        path_added: false,
        path_removed: false,
        tags: false,
        extended_type: false,
        critical: false,
        overloads: false,
        html: false,
    }
}

impl Default for Extensions {
    fn default() -> (r: Self)
        ensures
            r == spec_default_extensions(),
    {
        Extensions {
            access: true,
            value: true,
            range: true,
            description: true,
            clipmode: true,
            unit: true,
            listen: false,
            path_changed: false,
            path_renamed: false,
            path_added: false,
            path_removed: false,
            tags: false,
            extended_type: false,
            critical: false,
            overloads: false,
            html: false,
        }
    }
}

impl Extensions {
    /// Turn on the flags a push channel provides: LISTEN, PATH_ADDED and
    /// PATH_REMOVED.
    pub fn with_ws(&mut self)
        ensures
            *final(self) == (Extensions {
                listen: true,
                path_added: true,
                path_removed: true,
                ..*old(self)
            }),
    {
        self.listen = true;
        self.path_added = true;
        self.path_removed = true;
    }

    /// The advertised JSON object: one boolean member per extension, in
    /// the order of the schema.
    pub open spec fn is_json(&self, j: Json) -> bool {
        j matches Json::Obj(m) && m@.len() == 16 && m@[0].key@ == "ACCESS"@ && m@[0].value
            == Json::Bool(self.access) && m@[1].key@ == "VALUE"@ && m@[1].value == Json::Bool(
            self.value,
        ) && m@[2].key@ == "RANGE"@ && m@[2].value == Json::Bool(self.range) && m@[3].key@
            == "DESCRIPTION"@ && m@[3].value == Json::Bool(self.description) && m@[4].key@
            == "CLIPMODE"@ && m@[4].value == Json::Bool(self.clipmode) && m@[5].key@ == "UNIT"@
            && m@[5].value == Json::Bool(self.unit) && m@[6].key@ == "LISTEN"@ && m@[6].value
            == Json::Bool(self.listen) && m@[7].key@ == "PATH_CHANGED"@ && m@[7].value
            == Json::Bool(self.path_changed) && m@[8].key@ == "PATH_RENAMED"@ && m@[8].value
            == Json::Bool(self.path_renamed) && m@[9].key@ == "PATH_ADDED"@ && m@[9].value
            == Json::Bool(self.path_added) && m@[10].key@ == "PATH_REMOVED"@ && m@[10].value
            == Json::Bool(self.path_removed) && m@[11].key@ == "TAGS"@ && m@[11].value
            == Json::Bool(self.tags) && m@[12].key@ == "EXTENDED_TYPE"@ && m@[12].value
            == Json::Bool(self.extended_type) && m@[13].key@ == "CRITICAL"@ && m@[13].value
            == Json::Bool(self.critical) && m@[14].key@ == "OVERLOADS"@ && m@[14].value
            == Json::Bool(self.overloads) && m@[15].key@ == "HTML"@ && m@[15].value == Json::Bool(
            self.html,
        )
    }

    /// Render the flags; see [`Extensions::is_json`].
    pub fn to_json(&self) -> (j: Json)
        ensures
            self.is_json(j),
    {
        let mut m: Vec<JsonField> = Vec::new();
        m.push(JsonField { key: "ACCESS".to_owned(), value: Json::Bool(self.access) });
        m.push(JsonField { key: "VALUE".to_owned(), value: Json::Bool(self.value) });
        m.push(JsonField { key: "RANGE".to_owned(), value: Json::Bool(self.range) });
        m.push(JsonField { key: "DESCRIPTION".to_owned(), value: Json::Bool(self.description) });
        m.push(JsonField { key: "CLIPMODE".to_owned(), value: Json::Bool(self.clipmode) });
        m.push(JsonField { key: "UNIT".to_owned(), value: Json::Bool(self.unit) });
        m.push(JsonField { key: "LISTEN".to_owned(), value: Json::Bool(self.listen) });
        m.push(JsonField { key: "PATH_CHANGED".to_owned(), value: Json::Bool(self.path_changed) });
        m.push(JsonField { key: "PATH_RENAMED".to_owned(), value: Json::Bool(self.path_renamed) });
        m.push(JsonField { key: "PATH_ADDED".to_owned(), value: Json::Bool(self.path_added) });
        m.push(JsonField { key: "PATH_REMOVED".to_owned(), value: Json::Bool(self.path_removed) });
        m.push(JsonField { key: "TAGS".to_owned(), value: Json::Bool(self.tags) });
        m.push(
            JsonField { key: "EXTENDED_TYPE".to_owned(), value: Json::Bool(self.extended_type) },
        );
        m.push(JsonField { key: "CRITICAL".to_owned(), value: Json::Bool(self.critical) });
        m.push(JsonField { key: "OVERLOADS".to_owned(), value: Json::Bool(self.overloads) });
        m.push(JsonField { key: "HTML".to_owned(), value: Json::Bool(self.html) });
        Json::Obj(m)
    }
}

/// One WebSocket session's subscription state: the set of full paths the
/// client asked to LISTEN to.
pub struct Session {
    subs: Vec<String>,
}

impl Session {
    /// The subscribed paths, as a set of character sequences.
    pub closed spec fn spec_subs(&self) -> Set<Seq<char>> {
        self.subs@.map_values(|s: String| s@).to_set()
    }

    /// The stored list holds no path twice.
    pub closed spec fn wf(&self) -> bool {
        forall|i: int, j: int|
            0 <= i < j < self.subs@.len() ==> (#[trigger] self.subs@[i])@ != (
            #[trigger] self.subs@[j])@
    }

    /// A fresh session subscribes to nothing.
    pub fn new() -> (r: Session)
        ensures
            r.wf(),
            r.spec_subs() == Set::<Seq<char>>::empty(),
    {
        let r = Session { subs: Vec::new() };
        proof {
            assert(r.spec_subs() =~= Set::<Seq<char>>::empty());
        }
        r
    }

    /// Whether `path` is currently subscribed.
    pub fn is_listening(&self, path: &String) -> (r: bool)
        ensures
            r == self.spec_subs().contains(path@),
    {
        let m = self.subs.len();
        for k in 0..m
            invariant
                m == self.subs@.len(),
                forall|j: int| 0 <= j < k ==> (#[trigger] self.subs@[j])@ != path@,
            decreases m - k,
        {
            if self.subs[k] == *path {
                proof {
                    assert(self.subs@.map_values(|s: String| s@)[k as int] == path@);
                    assert(self.spec_subs().contains(path@));
                }
                return true;
            }
        }
        proof {
            if self.spec_subs().contains(path@) {
                let x = choose|x: String| #[trigger] self.subs@.contains(x) && x@ == path@;
                let j = choose|j: int| 0 <= j < self.subs@.len() && self.subs@[j] == x;
                assert(self.subs@.map_values(|s: String| s@)[j] == path@);
            }
            assert(!self.spec_subs().contains(path@)) by {
                if self.spec_subs().contains(path@) {
                    let sq = self.subs@.map_values(|s: String| s@);
                    let j = choose|j: int| 0 <= j < sq.len() && sq[j] == path@;
                    assert((self.subs@[j])@ == path@);
                }
            }
        }
        false
    }

    /// A LISTEN command: add the path to the subscription set.
    pub fn listen(&mut self, path: String)
        requires
            old(self).wf(),
        ensures
            final(self).wf(),
            final(self).spec_subs() == old(self).spec_subs().insert(path@),
    {
        if !self.is_listening(&path) {
            let ghost before = self.subs@;
            let ghost pv = path@;
            self.subs.push(path);
            proof {
                lemma_push_adds_view(before, self.subs@, pv);
                assert forall|i: int, j: int| 0 <= i < j < self.subs@.len() implies (
                #[trigger] self.subs@[i])@ != (#[trigger] self.subs@[j])@ by {
                    if j == self.subs@.len() - 1 {
                        assert(!old(self).spec_subs().contains(self.subs@[j]@));
                        assert(before.map_values(|s: String| s@)[i] == self.subs@[i]@);
                    }
                }
            }
        } else {
            proof {
                assert(*self == *old(self));
                assert(old(self).spec_subs().contains(path@));
                assert(final(self).spec_subs() =~= old(self).spec_subs().insert(path@));
            }
        }
    }

    /// An IGNORE command: drop the path from the subscription set.
    pub fn ignore(&mut self, path: &String)
        requires
            old(self).wf(),
        ensures
            final(self).wf(),
            final(self).spec_subs() == old(self).spec_subs().remove(path@),
    {
        let m = self.subs.len();
        for k in 0..m
            invariant
                self.wf(),
                m == self.subs@.len(),
                *self == *old(self),
                forall|j: int| 0 <= j < k ==> (#[trigger] self.subs@[j])@ != path@,
            decreases m - k,
        {
            if self.subs[k] == *path {
                let ghost before = self.subs@;
                self.subs.remove(k);
                proof {
                    lemma_remove_drops_view(before, self.subs@, k as int, path@);
                    assert(final(self).spec_subs() =~= old(self).spec_subs().remove(path@));
                }
                return ;
            }
        }
        proof {
            assert(!old(self).spec_subs().contains(path@)) by {
                if old(self).spec_subs().contains(path@) {
                    let sq = old(self).subs@.map_values(|s: String| s@);
                    let j = choose|j: int| 0 <= j < sq.len() && sq[j] == path@;
                    assert((old(self).subs@[j])@ == path@);
                }
            }
            assert(final(self).spec_subs() =~= old(self).spec_subs().remove(path@));
        }
    }

    /// Whether a broadcast OSC message goes out to this session: only if
    /// its address is subscribed.
    pub fn wants_osc(&self, m: &OscMsg) -> (r: bool)
        ensures
            r == self.spec_subs().contains(m.addr@),
    {
        self.is_listening(&m.addr)
    }
}


/// Pushing an element whose view is `v` adds exactly `v` to the set of
/// views.
proof fn lemma_push_adds_view(before: Seq<String>, after: Seq<String>, v: Seq<char>)
    requires
        after.len() == before.len() + 1,
        forall|i: int| 0 <= i < before.len() ==> after[i] == before[i],
        (after[after.len() - 1])@ == v,
    ensures
        after.map_values(|s: String| s@).to_set() == before.map_values(
            |s: String| s@,
        ).to_set().insert(v),
{
    let bv = before.map_values(|s: String| s@);
    let av = after.map_values(|s: String| s@);
    assert forall|x: Seq<char>| av.to_set().contains(x) implies bv.to_set().insert(v).contains(
        x,
    ) by {
        let j = choose|j: int| 0 <= j < av.len() && av[j] == x;
        if j < bv.len() {
            assert(bv[j] == x);
        } else {
            assert(x == v);
        }
    }
    assert forall|x: Seq<char>| bv.to_set().insert(v).contains(x) implies av.to_set().contains(
        x,
    ) by {
        if x == v {
            assert(av[av.len() - 1] == x);
        } else {
            let j = choose|j: int| 0 <= j < bv.len() && bv[j] == x;
            assert(av[j] == x);
        }
    }
    assert(av.to_set() =~= bv.to_set().insert(v));
}

/// Removing the one element whose view is `v` from a duplicate-free list
/// removes exactly `v` from the set of views.
proof fn lemma_remove_drops_view(before: Seq<String>, after: Seq<String>, k: int, v: Seq<char>)
    requires
        0 <= k < before.len(),
        (before[k])@ == v,
        after == before.remove(k),
        forall|i: int, j: int|
            0 <= i < j < before.len() ==> (#[trigger] before[i])@ != (#[trigger] before[j])@,
    ensures
        after.map_values(|s: String| s@).to_set() == before.map_values(
            |s: String| s@,
        ).to_set().remove(v),
        forall|i: int, j: int|
            0 <= i < j < after.len() ==> (#[trigger] after[i])@ != (#[trigger] after[j])@,
{
    let bv = before.map_values(|s: String| s@);
    let av = after.map_values(|s: String| s@);
    assert forall|i: int, j: int| 0 <= i < j < after.len() implies (#[trigger] after[i])@ != (
    #[trigger] after[j])@ by {
        let a1 = if i < k {
            i
        } else {
            i + 1
        };
        let a2 = if j < k {
            j
        } else {
            j + 1
        };
        assert(after[i] == before[a1]);
        assert(after[j] == before[a2]);
    }
    assert forall|x: Seq<char>| av.to_set().contains(x) implies bv.to_set().remove(v).contains(
        x,
    ) by {
        let j = choose|j: int| 0 <= j < av.len() && av[j] == x;
        let a = if j < k {
            j
        } else {
            j + 1
        };
        assert(after[j] == before[a]);
        assert(bv[a] == x);
        assert(x != v) by {
            if a < k {
                assert((before[a])@ != (before[k])@);
            } else {
                assert((before[k])@ != (before[a])@);
            }
        }
    }
    assert forall|x: Seq<char>| bv.to_set().remove(v).contains(x) implies av.to_set().contains(
        x,
    ) by {
        let j = choose|j: int| 0 <= j < bv.len() && bv[j] == x;
        assert(j != k);
        if j < k {
            assert(after[j] == before[j]);
            assert(av[j] == x);
        } else {
            assert(after[j - 1] == before[j]);
            assert(av[j - 1] == x);
        }
    }
    assert(av.to_set() =~= bv.to_set().remove(v));
}

/// After a LISTEN of a path followed by an IGNORE of the same path, a
/// trigger of that path produces no frame for the session: the path is no
/// longer in the subscription set.
pub proof fn lemma_listen_then_ignore(subs: Set<Seq<char>>, path: Seq<char>)
    ensures
        !subs.insert(path).remove(path).contains(path),
{
}

/// The text frame pushed for a namespace change:
/// `{"COMMAND": "PATH_ADDED" | "PATH_REMOVED", "DATA": <path>}`.
pub open spec fn ns_change_frame_is_json(e: NamespaceChange, j: Json) -> bool {
    j matches Json::Obj(m) && m@.len() == 2 && m@[0].key@ == "COMMAND"@ && (m@[0].value
        matches Json::Str(c) && c@ == (if ns_change_view(e).0 {
        "PATH_ADDED"@
    } else {
        "PATH_REMOVED"@
    })) && m@[1].key@ == "DATA"@ && (m@[1].value matches Json::Str(d) && d@ == ns_change_view(
        e,
    ).1)
}

/// Render the text frame for a namespace change; see
/// [`ns_change_frame_is_json`].
pub fn ns_change_frame(e: &NamespaceChange) -> (j: Json)
    ensures
        ns_change_frame_is_json(*e, j),
{
    let mut m: Vec<JsonField> = Vec::new();
    match e {
        NamespaceChange::PathAdded(p) => {
            m.push(
                JsonField { key: "COMMAND".to_owned(), value: Json::Str("PATH_ADDED".to_owned()) },
            );
            m.push(JsonField { key: "DATA".to_owned(), value: Json::Str(p.clone()) });
        },
        NamespaceChange::PathRemoved(p) => {
            m.push(
                JsonField {
                    key: "COMMAND".to_owned(),
                    value: Json::Str("PATH_REMOVED".to_owned()),
                },
            );
            m.push(JsonField { key: "DATA".to_owned(), value: Json::Str(p.clone()) });
        },
    }
    Json::Obj(m)
}

} // verus!

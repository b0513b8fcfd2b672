//! Namespace tree items: containers and readable / writable leaves.

use crate::json::Json;
use crate::osc::{OscValue, PeerAddr};
use crate::param::{
    is_tag_for_kind, value_kind, OscKind, ParamGet, ParamGetSet, ParamSet,
};
use crate::root::{NodeHandle, OscWriteCallback};
use vstd::prelude::*;

verus! {

/// A boxed write handler, invoked on incoming OSC before values are stored.
pub type UpdateHandler = Box<dyn OscUpdate>;

/// Something that reacts to an incoming OSC write: a user handler, or a
/// node dispatching to its handler and parameters.  The result may request
/// deferred tree mutations.
pub trait OscUpdate: Send + Sync {
    fn osc_update(
        &self,
        args: &Vec<OscValue>,
        addr: Option<&PeerAddr>,
        time: Option<(u32, u32)>,
        handle: &NodeHandle,
    ) -> Option<OscWriteCallback>;
}

/// Something that renders its current values as OSC arguments.
pub trait OscRender {
    fn osc_render(&self, args: &mut Vec<OscValue>);
}

/// A valid address is a single path segment: no `/` anywhere.
pub open spec fn addr_valid(s: Seq<char>) -> bool {
    forall|i: int| 0 <= i < s.len() ==> s[i] != '/'
}

/// Accept an address without `/`; reject anything else.
pub fn address_valid(address: String) -> (r: Result<String, &'static str>)
    ensures
        match r {
            Ok(a) => a == address && addr_valid(address@),
            Err(e) => !addr_valid(address@) && e@ == "invalid address"@,
        },
{
    let mut ok = true;
    for c in it: address.as_str().chars()
        invariant
            it.seq() == address@,
            ok <==> (forall|i: int| 0 <= i < it.index() ==> address@[i] != '/'),
    {
        if c == '/' {
            ok = false;
        }
    }
    if ok {
        Ok(address)
    } else {
        proof {
            reveal_strlit("invalid address");
        }
        Err("invalid address")
    }
}

/// Data access modes, as OSCQuery levels 0 to 3.
#[derive(Copy, Clone, PartialEq, Eq, Structural, Debug)]
pub enum Access {
    NoValue,
    ReadOnly,
    WriteOnly,
    ReadWrite,
}

/// The numeric level of an access mode.
pub open spec fn access_level(a: Access) -> u8 {
    match a {
        Access::NoValue => 0,
        Access::ReadOnly => 1,
        Access::WriteOnly => 2,
        Access::ReadWrite => 3,
    }
}

impl Access {
    /// The numeric level, as serialized.
    pub fn level(&self) -> (r: u8)
        ensures
            r == access_level(*self),
    {
        match self {
            Access::NoValue => 0,
            Access::ReadOnly => 1,
            Access::WriteOnly => 2,
            Access::ReadWrite => 3,
        }
    }

    /// The JSON form of the access level.
    pub fn to_json(&self) -> (r: Json)
        ensures
            r == Json::UInt(access_level(*self) as u64),
    {
        Json::UInt(self.level() as u64)
    }
}

/// The per-attribute queries a client may put after `?` in an HTTP path.
#[derive(Copy, Clone, PartialEq, Eq, Structural, Debug)]
pub enum NodeQueryParam {
    Value,
    Type,
    Range,
    ClipMode,
    Access,
    Description,
    Unit,
}

/// A node with no value: a branch of the namespace.
pub struct Container {
    pub(crate) address: String,
    pub(crate) description: Option<String>,
}

/// A read-only leaf.
pub struct Get {
    pub(crate) address: String,
    pub(crate) description: Option<String>,
    pub(crate) params: Vec<ParamGet>,
}

/// A write-only leaf, with an optional write handler.
pub struct SetNode {
    pub(crate) address: String,
    pub(crate) description: Option<String>,
    pub(crate) params: Vec<ParamSet>,
    pub(crate) handler: Option<UpdateHandler>,
}

/// A read-write leaf, with an optional write handler.
pub struct GetSet {
    pub(crate) address: String,
    pub(crate) description: Option<String>,
    pub(crate) params: Vec<ParamGetSet>,
    pub(crate) handler: Option<UpdateHandler>,
}

/// One vertex of the namespace tree.
pub enum Node {
    Container(Container),
    Get(Get),
    SetNode(SetNode),
    GetSet(GetSet),
}

impl Container {
    /// Build a container; the address must contain no `/`.
    pub fn new(address: &str, description: Option<&str>) -> (r: Result<Self, &'static str>)
        ensures
            match r {
                Ok(c) => addr_valid(address@) && c.spec_address() == address@
                    && option_str_matches(c.spec_description(), description),
                Err(e) => !addr_valid(address@) && e@ == "invalid address"@,
            },
    {
        let a = address_valid(address.to_owned())?;
        Ok(Self { address: a, description: copy_description(description) })
    }

    /// The address, for specifications.
    pub closed spec fn spec_address(&self) -> Seq<char> {
        self.address@
    }

    /// The description, for specifications.
    pub closed spec fn spec_description(&self) -> Option<Seq<char>> {
        match self.description {
            Option::Some(d) => Option::Some(d@),
            Option::None => Option::None,
        }
    }

    /// A well-formed node has a valid address.
    pub open spec fn wf(&self) -> bool {
        addr_valid(self.spec_address())
    }
}

/// The optional description matches the optional borrowed text.
pub open spec fn option_str_matches(d: Option<Seq<char>>, s: Option<&str>) -> bool {
    match (d, s) {
        (Option::Some(x), Option::Some(y)) => x == y@,
        (Option::None, Option::None) => true,
        _ => false,
    }
}

/// Copy an optional borrowed description into an owned one.
fn copy_description(description: Option<&str>) -> (r: Option<String>)
    ensures
        match (r, description) {
            (Option::Some(x), Option::Some(y)) => x@ == y@,
            (Option::None, Option::None) => true,
            _ => false,
        },
{
    match description {
        Option::Some(d) => Option::Some(d.to_owned()),
        Option::None => Option::None,
    }
}

impl Get {
    /// Build a read-only leaf; the address must contain no `/`.
    pub fn new(address: &str, description: Option<&str>, params: Vec<ParamGet>) -> (r: Result<
        Self,
        &'static str,
    >)
        ensures
            match r {
                Ok(n) => addr_valid(address@) && n.spec_address() == address@
                    && option_str_matches(n.spec_description(), description) && n.spec_params()
                    == params@,
                Err(e) => !addr_valid(address@) && e@ == "invalid address"@,
            },
    {
        let a = address_valid(address.to_owned())?;
        Ok(Self { address: a, description: copy_description(description), params })
    }

    /// The address, for specifications.
    pub closed spec fn spec_address(&self) -> Seq<char> {
        self.address@
    }

    /// The description, for specifications.
    pub closed spec fn spec_description(&self) -> Option<Seq<char>> {
        match self.description {
            Option::Some(d) => Option::Some(d@),
            Option::None => Option::None,
        }
    }

    /// The parameters, for specifications.
    pub closed spec fn spec_params(&self) -> Seq<ParamGet> {
        self.params@
    }

    /// A well-formed node has a valid address.
    pub open spec fn wf(&self) -> bool {
        addr_valid(self.spec_address())
    }
}

impl SetNode {
    /// Build a write-only leaf; the address must contain no `/`.
    pub fn new(
        address: &str,
        description: Option<&str>,
        params: Vec<ParamSet>,
        handler: Option<UpdateHandler>,
    ) -> (r: Result<Self, &'static str>)
        ensures
            match r {
                Ok(n) => addr_valid(address@) && n.spec_address() == address@
                    && option_str_matches(n.spec_description(), description) && n.spec_params()
                    == params@ && n.spec_has_handler() == (handler is Some),
                Err(e) => !addr_valid(address@) && e@ == "invalid address"@,
            },
    {
        let a = address_valid(address.to_owned())?;
        Ok(Self { address: a, description: copy_description(description), params, handler })
    }

    /// The address, for specifications.
    pub closed spec fn spec_address(&self) -> Seq<char> {
        self.address@
    }

    /// The description, for specifications.
    pub closed spec fn spec_description(&self) -> Option<Seq<char>> {
        match self.description {
            Option::Some(d) => Option::Some(d@),
            Option::None => Option::None,
        }
    }

    /// The parameters, for specifications.
    pub closed spec fn spec_params(&self) -> Seq<ParamSet> {
        self.params@
    }

    /// Whether a write handler is attached, for specifications.
    pub closed spec fn spec_has_handler(&self) -> bool {
        self.handler is Some
    }

    /// A well-formed node has a valid address.
    pub open spec fn wf(&self) -> bool {
        addr_valid(self.spec_address())
    }
}

impl GetSet {
    /// Build a read-write leaf; the address must contain no `/`.
    pub fn new(
        address: &str,
        description: Option<&str>,
        params: Vec<ParamGetSet>,
        handler: Option<UpdateHandler>,
    ) -> (r: Result<Self, &'static str>)
        ensures
            match r {
                Ok(n) => addr_valid(address@) && n.spec_address() == address@
                    && option_str_matches(n.spec_description(), description) && n.spec_params()
                    == params@ && n.spec_has_handler() == (handler is Some),
                Err(e) => !addr_valid(address@) && e@ == "invalid address"@,
            },
    {
        let a = address_valid(address.to_owned())?;
        Ok(Self { address: a, description: copy_description(description), params, handler })
    }

    /// The address, for specifications.
    pub closed spec fn spec_address(&self) -> Seq<char> {
        self.address@
    }

    /// The description, for specifications.
    pub closed spec fn spec_description(&self) -> Option<Seq<char>> {
        match self.description {
            Option::Some(d) => Option::Some(d@),
            Option::None => Option::None,
        }
    }

    /// The parameters, for specifications.
    pub closed spec fn spec_params(&self) -> Seq<ParamGetSet> {
        self.params@
    }

    /// Whether a write handler is attached, for specifications.
    pub closed spec fn spec_has_handler(&self) -> bool {
        self.handler is Some
    }

    /// A well-formed node has a valid address.
    pub open spec fn wf(&self) -> bool {
        addr_valid(self.spec_address())
    }
}

impl Node {
    /// The access mode derives from the variant.
    pub open spec fn spec_access(&self) -> Access {
        match self {
            Node::Container(_) => Access::NoValue,
            Node::Get(_) => Access::ReadOnly,
            Node::SetNode(_) => Access::WriteOnly,
            Node::GetSet(_) => Access::ReadWrite,
        }
    }

    /// The address, for specifications.
    pub open spec fn spec_address(&self) -> Seq<char> {
        match self {
            Node::Container(n) => n.spec_address(),
            Node::Get(n) => n.spec_address(),
            Node::SetNode(n) => n.spec_address(),
            Node::GetSet(n) => n.spec_address(),
        }
    }

    /// The description, for specifications.
    pub open spec fn spec_description(&self) -> Option<Seq<char>> {
        match self {
            Node::Container(n) => n.spec_description(),
            Node::Get(n) => n.spec_description(),
            Node::SetNode(n) => n.spec_description(),
            Node::GetSet(n) => n.spec_description(),
        }
    }

    /// A well-formed node has a valid address.
    pub open spec fn wf(&self) -> bool {
        addr_valid(self.spec_address())
    }

    /// The kinds of the node's parameter slots; empty for a container.
    pub open spec fn spec_param_kinds(&self) -> Seq<OscKind> {
        match self {
            Node::Container(_) => Seq::empty(),
            Node::Get(n) => n.spec_params().map_values(|p: ParamGet| p.kind()),
            Node::SetNode(n) => n.spec_params().map_values(|p: ParamSet| p.kind()),
            Node::GetSet(n) => n.spec_params().map_values(|p: ParamGetSet| p.kind()),
        }
    }

    /// The access mode.
    pub fn access(&self) -> (r: Access)
        ensures
            r == self.spec_access(),
    {
        match self {
            Node::Container(_) => Access::NoValue,
            Node::Get(_) => Access::ReadOnly,
            Node::SetNode(_) => Access::WriteOnly,
            Node::GetSet(_) => Access::ReadWrite,
        }
    }

    /// The address segment.
    pub fn address(&self) -> (r: &String)
        ensures
            r@ == self.spec_address(),
    {
        match self {
            Node::Container(n) => &n.address,
            Node::Get(n) => &n.address,
            Node::SetNode(n) => &n.address,
            Node::GetSet(n) => &n.address,
        }
    }

    /// The description, if any.
    pub fn description(&self) -> (r: &Option<String>)
        ensures
            option_views_match(*r, self.spec_description()),
    {
        match self {
            Node::Container(n) => &n.description,
            Node::Get(n) => &n.description,
            Node::SetNode(n) => &n.description,
            Node::GetSet(n) => &n.description,
        }
    }

    /// The concatenated parameter tag characters: one allowed tag per
    /// parameter slot, in order, and the empty string for a container.
    pub fn type_string(&self) -> (r: String)
        ensures
            is_type_str_for_kinds(self.spec_param_kinds(), r@),
    {
        match self {
            Node::Container(_) => String::new(),
            Node::Get(n) => {
                let mut out = String::new();
                let m = n.params.len();
                for i in 0..m
                    invariant
                        m == n.params.len(),
                        is_type_str_for_kinds(
                            n.params@.map_values(|p: ParamGet| p.kind()).take(i as int),
                            out@,
                        ),
                    decreases m - i,
                {
                    let ghost pre = out@;
                    let ghost kinds = n.params@.map_values(|p: ParamGet| p.kind());
                    n.params[i].append_type_str(&mut out);
                    proof {
                        let t = choose|t: Seq<char>|
                            out@ == pre + t && #[trigger] is_tag_for_kind(n.params@[i as int].kind(), t);
                        lemma_type_str_snoc(kinds.take(i as int), pre, n.params@[i as int].kind(), t);
                        assert(kinds.take(i as int).push(n.params@[i as int].kind()) =~= kinds.take(
                            i as int + 1,
                        ));
                    }
                }
                proof {
                    assert(n.params@.map_values(|p: ParamGet| p.kind()).take(m as int)
                        =~= n.params@.map_values(|p: ParamGet| p.kind()));
                }
                out
            },
            Node::SetNode(n) => {
                let mut out = String::new();
                let m = n.params.len();
                for i in 0..m
                    invariant
                        m == n.params.len(),
                        is_type_str_for_kinds(
                            n.params@.map_values(|p: ParamSet| p.kind()).take(i as int),
                            out@,
                        ),
                    decreases m - i,
                {
                    let ghost pre = out@;
                    let ghost kinds = n.params@.map_values(|p: ParamSet| p.kind());
                    n.params[i].append_type_str(&mut out);
                    proof {
                        let t = choose|t: Seq<char>|
                            out@ == pre + t && #[trigger] is_tag_for_kind(n.params@[i as int].kind(), t);
                        lemma_type_str_snoc(kinds.take(i as int), pre, n.params@[i as int].kind(), t);
                        assert(kinds.take(i as int).push(n.params@[i as int].kind()) =~= kinds.take(
                            i as int + 1,
                        ));
                    }
                }
                proof {
                    assert(n.params@.map_values(|p: ParamSet| p.kind()).take(m as int)
                        =~= n.params@.map_values(|p: ParamSet| p.kind()));
                }
                out
            },
            Node::GetSet(n) => {
                let mut out = String::new();
                let m = n.params.len();
                for i in 0..m
                    invariant
                        m == n.params.len(),
                        is_type_str_for_kinds(
                            n.params@.map_values(|p: ParamGetSet| p.kind()).take(i as int),
                            out@,
                        ),
                    decreases m - i,
                {
                    let ghost pre = out@;
                    let ghost kinds = n.params@.map_values(|p: ParamGetSet| p.kind());
                    n.params[i].append_type_str(&mut out);
                    proof {
                        let t = choose|t: Seq<char>|
                            out@ == pre + t && #[trigger] is_tag_for_kind(n.params@[i as int].kind(), t);
                        lemma_type_str_snoc(kinds.take(i as int), pre, n.params@[i as int].kind(), t);
                        assert(kinds.take(i as int).push(n.params@[i as int].kind()) =~= kinds.take(
                            i as int + 1,
                        ));
                    }
                }
                proof {
                    assert(n.params@.map_values(|p: ParamGetSet| p.kind()).take(m as int)
                        =~= n.params@.map_values(|p: ParamGetSet| p.kind()));
                }
                out
            },
        }
    }

    /// Append a snapshot of the current values for a readable node: one
    /// argument per parameter slot, of the slot's kind.  Containers and
    /// write-only nodes append nothing.
    pub fn render_args(&self, args: &mut Vec<OscValue>)
        ensures
            final(args)@.len() == old(args)@.len() + self.spec_render_count(),
            forall|i: int| 0 <= i < old(args)@.len() ==> final(args)@[i] == old(args)@[i],
            forall|i: int|
                0 <= i < self.spec_render_count() ==> value_kind(
                    #[trigger] final(args)@[old(args)@.len() + i],
                ) == self.spec_param_kinds()[i],
    {
        match self {
            Node::Container(_) => (),
            Node::SetNode(_) => (),
            Node::Get(n) => {
                let m = n.params.len();
                for i in 0..m
                    invariant
                        m == n.params.len(),
                        args@.len() == old(args)@.len() + i,
                        forall|k: int| 0 <= k < old(args)@.len() ==> args@[k] == old(args)@[k],
                        forall|k: int|
                            0 <= k < i ==> value_kind(#[trigger] args@[old(args)@.len() + k])
                                == n.params@[k].kind(),
                    decreases m - i,
                {
                    let v = n.params[i].current_value();
                    args.push(v);
                }
            },
            Node::GetSet(n) => {
                let m = n.params.len();
                for i in 0..m
                    invariant
                        m == n.params.len(),
                        args@.len() == old(args)@.len() + i,
                        forall|k: int| 0 <= k < old(args)@.len() ==> args@[k] == old(args)@[k],
                        forall|k: int|
                            0 <= k < i ==> value_kind(#[trigger] args@[old(args)@.len() + k])
                                == n.params@[k].kind(),
                    decreases m - i,
                {
                    let v = n.params[i].current_value();
                    args.push(v);
                }
            },
        }
    }

    /// How many arguments [`Node::render_args`] appends.
    pub open spec fn spec_render_count(&self) -> nat {
        match self {
            Node::Container(_) => 0,
            Node::SetNode(_) => 0,
            Node::Get(n) => n.spec_params().len(),
            Node::GetSet(n) => n.spec_params().len(),
        }
    }

    /// Dispatch an incoming OSC write to this node: first the optional
    /// handler, then each argument whose kind matches its positional
    /// parameter is stored; mismatched or unsupported arguments are skipped.
    /// Containers, read-only nodes and nodes without a handler request no
    /// deferred mutation.
    pub fn update_from_osc(
        &self,
        args: &Vec<OscValue>,
        addr: Option<&PeerAddr>,
        time: Option<(u32, u32)>,
        handle: &NodeHandle,
    ) -> (r: Option<OscWriteCallback>)
        ensures
            match self {
                Node::Container(_) => r is None,
                Node::Get(_) => r is None,
                Node::SetNode(n) => !n.spec_has_handler() ==> r is None,
                Node::GetSet(n) => !n.spec_has_handler() ==> r is None,
            },
    {
        match self {
            Node::Container(_) => Option::None,
            Node::Get(_) => Option::None,
            Node::SetNode(n) => {
                let mut cb: Option<OscWriteCallback> = Option::None;
                if let Option::Some(handler) = &n.handler {
                    cb = handler.osc_update(args, addr, time, handle);
                }
                let m = if n.params.len() < args.len() {
                    n.params.len()
                } else {
                    args.len()
                };
                for i in 0..m
                    invariant
                        m <= n.params.len(),
                        m <= args.len(),
                    decreases m - i,
                {
                    let _ = n.params[i].apply_osc_arg(&args[i]);
                }
                cb
            },
            Node::GetSet(n) => {
                let mut cb: Option<OscWriteCallback> = Option::None;
                if let Option::Some(handler) = &n.handler {
                    cb = handler.osc_update(args, addr, time, handle);
                }
                let m = if n.params.len() < args.len() {
                    n.params.len()
                } else {
                    args.len()
                };
                for i in 0..m
                    invariant
                        m <= n.params.len(),
                        m <= args.len(),
                    decreases m - i,
                {
                    let _ = n.params[i].apply_osc_arg(&args[i]);
                }
                cb
            },
        }
    }
}

/// The optional borrowed string has the given optional view.
pub open spec fn option_views_match(r: Option<String>, d: Option<Seq<char>>) -> bool {
    match (r, d) {
        (Option::Some(x), Option::Some(y)) => x@ == y,
        (Option::None, Option::None) => true,
        _ => false,
    }
}

/// `s` concatenates one allowed tag per kind, in order: some prefix is an
/// allowed tag of the first kind and the remainder continues with the rest.
pub open spec fn is_type_str_for_kinds(kinds: Seq<OscKind>, s: Seq<char>) -> bool
    decreases kinds,
{
    if kinds.len() == 0 {
        s.len() == 0
    } else {
        exists|n: int|
            #![trigger s.take(n)]
            0 <= n <= s.len() && is_tag_for_kind(kinds[0], s.take(n)) && is_type_str_for_kinds(
                kinds.drop_first(),
                s.skip(n),
            )
    }
}

/// Appending an allowed tag of one more kind extends a valid tag string.
proof fn lemma_type_str_snoc(kinds: Seq<OscKind>, s: Seq<char>, k: OscKind, t: Seq<char>)
    requires
        is_type_str_for_kinds(kinds, s),
        is_tag_for_kind(k, t),
    ensures
        is_type_str_for_kinds(kinds.push(k), s + t),
    decreases kinds,
{
    if kinds.len() == 0 {
        assert(s.len() == 0);
        assert(kinds.push(k)[0] == k);
        assert(kinds.push(k).drop_first() =~= Seq::<OscKind>::empty());
        assert((s + t).take(t.len() as int) =~= t);
        assert((s + t).skip(t.len() as int) =~= Seq::<char>::empty());
        assert(is_type_str_for_kinds(Seq::<OscKind>::empty(), Seq::<char>::empty()));
        assert(is_type_str_for_kinds(kinds.push(k).drop_first(), (s + t).skip(t.len() as int)));
        assert(is_tag_for_kind(kinds.push(k)[0], (s + t).take(t.len() as int)));
        assert(0 <= t.len() as int <= (s + t).len());
        assert(is_type_str_for_kinds(kinds.push(k), s + t));
    } else {
        let n0 = choose|n: int|
            #![trigger s.take(n)]
            0 <= n <= s.len() && is_tag_for_kind(kinds[0], s.take(n)) && is_type_str_for_kinds(
                kinds.drop_first(),
                s.skip(n),
            );
        lemma_type_str_snoc(kinds.drop_first(), s.skip(n0), k, t);
        assert(kinds.push(k).drop_first() =~= kinds.drop_first().push(k));
        assert(kinds.push(k)[0] == kinds[0]);
        assert((s + t).take(n0) =~= s.take(n0));
        assert((s + t).skip(n0) =~= s.skip(n0) + t);
        assert(is_tag_for_kind(kinds.push(k)[0], (s + t).take(n0)));
        assert(is_type_str_for_kinds(kinds.push(k).drop_first(), (s + t).skip(n0)));
        assert(0 <= n0 <= (s + t).len());
        assert(is_type_str_for_kinds(kinds.push(k), s + t));
    }
}

impl OscRender for Node {
    fn osc_render(&self, args: &mut Vec<OscValue>) {
        self.render_args(args);
    }
}

impl OscUpdate for Node {
    fn osc_update(
        &self,
        args: &Vec<OscValue>,
        addr: Option<&PeerAddr>,
        time: Option<(u32, u32)>,
        handle: &NodeHandle,
    ) -> Option<OscWriteCallback> {
        self.update_from_osc(args, addr, time, handle)
    }
}

impl From<Container> for Node {
    fn from(n: Container) -> (r: Self) {
        Node::Container(n)
    }
}

impl vstd::std_specs::convert::FromSpecImpl<Container> for Node {
    open spec fn obeys_from_spec() -> bool {
        true
    }

    open spec fn from_spec(n: Container) -> Self {
        Node::Container(n)
    }
}

impl From<Get> for Node {
    fn from(n: Get) -> (r: Self) {
        Node::Get(n)
    }
}

impl vstd::std_specs::convert::FromSpecImpl<Get> for Node {
    open spec fn obeys_from_spec() -> bool {
        true
    }

    open spec fn from_spec(n: Get) -> Self {
        Node::Get(n)
    }
}

impl From<SetNode> for Node {
    fn from(n: SetNode) -> (r: Self) {
        Node::SetNode(n)
    }
}

impl vstd::std_specs::convert::FromSpecImpl<SetNode> for Node {
    open spec fn obeys_from_spec() -> bool {
        true
    }

    open spec fn from_spec(n: SetNode) -> Self {
        Node::SetNode(n)
    }
}

impl From<GetSet> for Node {
    fn from(n: GetSet) -> (r: Self) {
        Node::GetSet(n)
    }
}

impl vstd::std_specs::convert::FromSpecImpl<GetSet> for Node {
    open spec fn obeys_from_spec() -> bool {
        true
    }

    open spec fn from_spec(n: GetSet) -> Self {
        Node::GetSet(n)
    }
}

} // verus!

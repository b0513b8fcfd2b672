use oscquery::json::{Json, JsonField};
use oscquery::node::{Access, Container, Get, GetSet, Node};
use oscquery::param::{ParamGet, ParamGetSet};
use oscquery::root::Root;
use oscquery::value::{ClipMode, Range, ValueBuilder};
use std::sync::atomic::{AtomicI32, Ordering};
use std::sync::Arc;

struct Fixed(i32);

impl oscquery::value::Get<i32> for Fixed {
    fn get(&self) -> i32 {
        self.0
    }
}

struct Cell(AtomicI32);

impl oscquery::value::Get<i32> for Cell {
    fn get(&self) -> i32 {
        self.0.load(Ordering::SeqCst)
    }
}

impl oscquery::value::SetValue<i32> for Cell {
    fn set(&self, v: i32) {
        self.0.store(v, Ordering::SeqCst);
    }
}


fn added(r: Result<oscquery::root::NodeHandle, (Node, &'static str)>) -> oscquery::root::NodeHandle {
    match r {
        Ok(h) => h,
        Err(_) => panic!("add_node failed"),
    }
}

#[test]
fn node_can_build() {
    let c = Container::new("soda", None);
    assert!(matches!(c, Ok(_)));
    let c = Container::new("/soda", None);
    assert!(matches!(c, Err(..)));
}

#[test]
fn access() {
    for (a, t) in &[
        (Access::NoValue, Json::UInt(0)),
        (Access::ReadOnly, Json::UInt(1)),
        (Access::WriteOnly, Json::UInt(2)),
        (Access::ReadWrite, Json::UInt(3)),
    ] {
        assert_eq!(a.to_json(), *t);
    }
}

#[test]
fn clip_mode() {
    for (c, s) in &[
        (ClipMode::NoClip, "none"),
        (ClipMode::Low, "low"),
        (ClipMode::High, "high"),
        (ClipMode::Both, "both"),
    ] {
        assert_eq!(oscquery::json::clip_mode_json(c), Json::Str(s.to_string()));
    }
}

#[test]
fn range() {
    let r: Range<i32> = Range::NoLimit;
    assert_eq!(oscquery::json::range_json(&r), Json::Obj(vec![]));

    let r: Range<i32> = Range::Min(23);
    assert_eq!(
        oscquery::json::range_json(&r),
        Json::Obj(vec![JsonField { key: "MIN".to_string(), value: Json::Int(23) }])
    );

    let r: Range<i64> = Range::Max(100);
    assert_eq!(
        oscquery::json::range_json(&r),
        Json::Obj(vec![JsonField { key: "MAX".to_string(), value: Json::Int(100) }])
    );

    let r: Range<i32> = Range::MinMax(2, 100);
    assert_eq!(
        oscquery::json::range_json(&r),
        Json::Obj(vec![
            JsonField { key: "MIN".to_string(), value: Json::Int(2) },
            JsonField { key: "MAX".to_string(), value: Json::Int(100) },
        ])
    );

    let r: Range<i32> = Range::Vals(vec![-1, 2]);
    assert_eq!(
        oscquery::json::range_json(&r),
        Json::Obj(vec![JsonField {
            key: "VALS".to_string(),
            value: Json::Arr(vec![Json::Int(-1), Json::Int(2)]),
        }])
    );

    let r: Range<String> = Range::Vals(vec!["x".to_string(), "y".to_string(), "z".to_string()]);
    assert_eq!(
        oscquery::json::range_json(&r),
        Json::Obj(vec![JsonField {
            key: "VALS".to_string(),
            value: Json::Arr(vec![
                Json::Str("x".to_string()),
                Json::Str("y".to_string()),
                Json::Str("z".to_string()),
            ]),
        }])
    );
}

#[test]
fn unit() {
    let b = ValueBuilder::<Arc<dyn oscquery::value::Get<i32>>, i32>::new(Arc::new(Fixed(23)))
        .with_unit("pizzas".to_string())
        .build();
    assert_eq!(b.unit(), &Some("pizzas".to_string()));
    assert_eq!(
        oscquery::json::unit_json(b.unit()),
        Json::Str("pizzas".to_string())
    );

    let b = ValueBuilder::<Arc<dyn oscquery::value::Get<i32>>, i32>::new(Arc::new(Fixed(23)))
        .build();
    assert_eq!(b.unit(), &None);
    assert_eq!(oscquery::json::unit_json(b.unit()), Json::Null);
}

#[test]
fn value_can_build() {
    let b = ValueBuilder::<Arc<dyn oscquery::value::Get<i32>>, i32>::new(Arc::new(Fixed(23)))
        .build();
    assert_eq!(b.value().get(), 23i32);
    assert_eq!(b.clip_mode(), &ClipMode::NoClip);
    assert_eq!(b.range(), &Range::NoLimit);

    let b = ValueBuilder::<Arc<dyn oscquery::value::Get<i32>>, i32>::new(Arc::new(Fixed(23)))
        .with_range(Range::MinMax(-1, 24))
        .with_unit("horses".to_string())
        .build();
    assert_eq!(b.clip_mode(), &ClipMode::NoClip);
    assert_eq!(b.range(), &Range::MinMax(-1i32, 24i32));
    assert_eq!(b.unit(), &Some("horses".to_string()));

    let a = Arc::new(Cell(AtomicI32::new(0)));
    let b = ValueBuilder::<Arc<dyn oscquery::value::GetSet<i32>>, i32>::new(a.clone()).build();
    assert_eq!(b.value().get(), 0);
    b.value().set(20);
    assert_eq!(b.value().get(), 20);
}

#[test]
fn basic_expectations() {
    let mut root = Root::new(Some("test".to_string()));

    let c = Container::new("foo", Some("description of foo"));
    assert!(c.is_ok());

    let res = root.add_node(c.unwrap().into(), None);
    assert!(res.is_ok());

    let chandle = added(res);
    assert_eq!(Some("/foo".to_string()), root.handle_to_path(&chandle));

    let c = Container::new("bar", Some("description of foo"));
    assert!(c.is_ok());

    let res = root.add_node(c.unwrap().into(), Some(chandle));
    assert!(res.is_ok());
    assert_eq!(
        Some("/foo/bar".to_string()),
        root.handle_to_path(&added(res))
    );

    let a: Arc<dyn oscquery::value::Get<i32>> = Arc::new(Fixed(2084));
    let m = Get::new(
        "baz",
        None,
        vec![ParamGet::Int(ValueBuilder::new(a.clone()).build())],
    );

    let res = root.add_node(Node::Get(m.unwrap()), Some(chandle));
    assert!(res.is_ok());

    let mhandle = added(res);
    assert_eq!(Some("/foo/baz".to_string()), root.handle_to_path(&mhandle));

    let gs: Arc<dyn oscquery::value::GetSet<i32>> = Arc::new(Cell(AtomicI32::new(2084)));
    let m = GetSet::new(
        "biz",
        None,
        vec![ParamGetSet::Int(ValueBuilder::new(gs).build())],
        None,
    );

    let res = root.add_node(Node::GetSet(m.unwrap()), Some(mhandle));
    assert!(res.is_ok());

    let handle = added(res);
    let res = root.rm_node(handle);
    assert!(res.is_ok());
    let v = res.unwrap();
    assert_eq!(1, v.len());
    assert!(root.rm_node(handle).is_err());

    let res = root.rm_node(chandle);
    assert!(res.is_ok());
    let v = res.unwrap();
    assert_eq!(3, v.len());

    assert_eq!("baz", v[0].address().as_str());
    assert_eq!("bar", v[1].address().as_str());
    assert_eq!("foo", v[2].address().as_str());
}

#[test]
fn type_strings() {
    let a: Arc<dyn oscquery::value::Get<i32>> = Arc::new(Fixed(1));
    let g = Get::new("x", None, vec![ParamGet::Int(ValueBuilder::new(a).build())]).unwrap();
    let n = Node::Get(g);
    assert_eq!(n.type_string(), "i".to_string());
    let c = Node::Container(Container::new("y", None).unwrap());
    assert_eq!(c.type_string(), "".to_string());
    assert_eq!(c.address().as_str(), "y");
}

#[test]
fn extensions_flags() {
    let mut e = oscquery::service::Extensions::default();
    assert!(e.access && e.value && e.range && e.description && e.clipmode && e.unit);
    assert!(!e.listen && !e.path_added && !e.path_removed);
    assert!(!e.path_changed && !e.path_renamed && !e.tags && !e.extended_type);
    assert!(!e.critical && !e.overloads && !e.html);
    e.with_ws();
    assert!(e.listen && e.path_added && e.path_removed);
    assert!(!e.path_changed && !e.html);
    let j = e.to_json();
    match &j {
        Json::Obj(m) => {
            assert_eq!(m.len(), 16);
            assert_eq!(m[0].key, "ACCESS");
            assert_eq!(m[0].value, Json::Bool(true));
            assert_eq!(m[6].key, "LISTEN");
            assert_eq!(m[6].value, Json::Bool(true));
            assert_eq!(m[7].key, "PATH_CHANGED");
            assert_eq!(m[7].value, Json::Bool(false));
            assert_eq!(m[9].key, "PATH_ADDED");
            assert_eq!(m[9].value, Json::Bool(true));
            assert_eq!(m[10].key, "PATH_REMOVED");
            assert_eq!(m[10].value, Json::Bool(true));
            assert_eq!(m[15].key, "HTML");
            assert_eq!(m[15].value, Json::Bool(false));
        }
        _ => panic!("expected an object"),
    }
}

#[test]
fn session_listen_ignore() {
    let mut s = oscquery::service::Session::new();
    let msg = oscquery::osc::OscMsg {
        addr: "/a/b".to_string(),
        args: vec![oscquery::osc::OscValue::Int(7)],
    };
    assert!(!s.wants_osc(&msg));
    s.listen("/a/b".to_string());
    assert!(s.wants_osc(&msg));
    s.listen("/a/b".to_string());
    s.ignore(&"/a/b".to_string());
    assert!(!s.wants_osc(&msg));
}

#[test]
fn ns_change_frames() {
    let j = oscquery::service::ns_change_frame(&oscquery::root::NamespaceChange::PathAdded(
        "/x".to_string(),
    ));
    assert_eq!(
        j,
        Json::Obj(vec![
            JsonField {
                key: "COMMAND".to_string(),
                value: Json::Str("PATH_ADDED".to_string()),
            },
            JsonField { key: "DATA".to_string(), value: Json::Str("/x".to_string()) },
        ])
    );
    let j = oscquery::service::ns_change_frame(&oscquery::root::NamespaceChange::PathRemoved(
        "/x".to_string(),
    ));
    assert_eq!(
        j,
        Json::Obj(vec![
            JsonField {
                key: "COMMAND".to_string(),
                value: Json::Str("PATH_REMOVED".to_string()),
            },
            JsonField { key: "DATA".to_string(), value: Json::Str("/x".to_string()) },
        ])
    );
}

#[test]
fn ns_change_feed() {
    let mut root = Root::new(None);
    assert!(root.ns_change_attach());
    assert!(!root.ns_change_attach());
    let c = Container::new("x", None);
    let h = added(root.add_node(c.unwrap().into(), None));
    let evs = root.take_ns_changes();
    assert_eq!(
        evs,
        vec![oscquery::root::NamespaceChange::PathAdded("/x".to_string())]
    );
    let res = root.rm_node(h);
    assert!(res.is_ok());
    let evs = root.take_ns_changes();
    assert_eq!(
        evs,
        vec![oscquery::root::NamespaceChange::PathRemoved("/x".to_string())]
    );
    assert!(root.take_ns_changes().is_empty());
}

#[test]
fn write_only_type_tags() {
    let cell: Arc<dyn oscquery::value::SetValue<i32>> = Arc::new(Cell(AtomicI32::new(0)));
    let n = oscquery::node::SetNode::new(
        "w",
        None,
        vec![oscquery::param::ParamSet::Int(ValueBuilder::new(cell).build())],
        None,
    )
    .unwrap();
    assert_eq!(Node::SetNode(n).type_string(), "i".to_string());
}

#[test]
fn trigger_renders_readable_leaves() {
    let mut root = Root::new(None);
    let a: Arc<dyn oscquery::value::Get<i32>> = Arc::new(Fixed(7));
    let g = Get::new(
        "bar",
        None,
        vec![ParamGet::Int(ValueBuilder::new(a).build())],
    )
    .unwrap();
    let c = Container::new("foo", None).unwrap();
    let h = added(root.add_node(c.into(), None));
    let _ = added(root.add_node(Node::Get(g), Some(h)));

    let m = root.trigger_msg("/foo/bar").unwrap();
    assert_eq!(m.addr, "/foo/bar".to_string());
    assert_eq!(m.args, vec![oscquery::osc::OscValue::Int(7)]);

    assert!(root.trigger_msg("/foo").is_none());
    assert!(root.trigger_msg("/nope").is_none());
}

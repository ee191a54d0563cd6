use quadstore::iterator::Shape;
use quadstore::primitive::{Primitive, PrimitiveContent, PrimitiveCount};
use quadstore::quad::{Delta, Direction, IgnoreOptions, InternalQuad, Procedure, Quad};
use quadstore::quad_ids::{ln_floor, QuadIds};
use quadstore::quadstore::{InternalRocksDB, QuadWriter, RocksDB};
use quadstore::refs::{pre_fetched, Content, Ref, Size};
use quadstore::shape::ShapeType;
use quadstore::value::Value;

fn quad(s: &str, p: &str, o: &str, l: Option<&str>) -> Quad {
    Quad::new(
        s.into(),
        p.into(),
        o.into(),
        match l {
            Some(l) => l.into(),
            None => Value::Undefined,
        },
    )
}

fn add_all(db: &mut RocksDB, quads: Vec<Quad>) {
    let deltas: Vec<Delta> = quads
        .into_iter()
        .map(|q| Delta {
            quad: q,
            action: Procedure::Add,
        })
        .collect();
    db.apply_deltas(
        deltas,
        &IgnoreOptions {
            ignore_dup: true,
            ignore_missing: true,
        },
    )
    .unwrap();
}

fn delete_all(db: &mut RocksDB, quads: Vec<Quad>) {
    let deltas: Vec<Delta> = quads
        .into_iter()
        .map(|q| Delta {
            quad: q,
            action: Procedure::Delete,
        })
        .collect();
    db.apply_deltas(
        deltas,
        &IgnoreOptions {
            ignore_dup: true,
            ignore_missing: true,
        },
    )
    .unwrap();
}

fn value_refs(db: &RocksDB, v: &str) -> u64 {
    let r = db.value_of(&v.into()).unwrap();
    let p = db.store.get_primitive(r.key().unwrap()).unwrap().unwrap();
    p.refs
}

#[test]
fn internal_rocks_db_tests() {
    let db = InternalRocksDB::open("gizmo_tests.db").unwrap();
    let mut db = db;

    let mut p1 = Primitive::new_value("<foo>".into());

    let mut p2 = Primitive::new_quad(InternalQuad {
        s: 4234664324,
        p: 22345353643,
        o: 1686585436346,
        l: 0,
    });

    let mut p3 = Primitive::new_value(747.into());

    let id1 = db.add_primitive(&mut p1).unwrap();
    assert_eq!(id1, p1.id);

    let id2 = db.add_primitive(&mut p2).unwrap();
    assert_eq!(id2, p2.id);

    let id3 = db.add_primitive(&mut p3).unwrap();
    assert_eq!(id3, p3.id);

    let p1b = db.get_primitive(id1).unwrap().unwrap();
    assert_eq!(p1, p1b);

    let p2b = db.get_primitive(id2).unwrap().unwrap();
    assert_eq!(p2, p2b);

    let p3b = db.get_primitive(id3).unwrap().unwrap();
    assert_eq!(p3, p3b);

    db.remove_primitive(&p1b).unwrap();
    db.remove_primitive(&p2b).unwrap();
    db.remove_primitive(&p3b).unwrap();

    let id = db.get_primitive(id1).unwrap();
    assert!(id.is_none());

    let id = db.get_primitive(id2).unwrap();
    assert!(id.is_none());

    let id = db.get_primitive(id3).unwrap();
    assert!(id.is_none());
}

#[test]
fn basic_lifecycle() {
    let mut db = RocksDB::open("").unwrap();
    let q = quad("<alice>", "<follows>", "<bob>", None);
    add_all(&mut db, vec![q.clone()]);

    let stats = db.stats(true).unwrap();
    assert_eq!(stats.nodes.value, 3);
    assert_eq!(stats.quads.value, 1);
    assert!(stats.nodes.exact && stats.quads.exact);

    let alice = db.value_of(&"<alice>".into()).unwrap();
    let shape = db.quad_iterator(&Direction::Subject, &alice);
    let mut it = shape.iterate();
    assert!(it.next());
    let quad_ref = it.result().unwrap();
    assert!(!it.next());

    let got = db.quad(&quad_ref).unwrap();
    assert_eq!(got, q);

    delete_all(&mut db, vec![q]);
    let stats = db.stats(true).unwrap();
    assert_eq!(stats.nodes.value, 0);
    assert_eq!(stats.quads.value, 0);
    assert!(db.value_of(&"<alice>".into()).is_none());
}

#[test]
fn shared_value_refcounts() {
    let mut db = RocksDB::open("").unwrap();
    let q1 = quad("<alice>", "<knows>", "<bob>", None);
    let q2 = quad("<alice>", "<knows>", "<carol>", None);
    add_all(&mut db, vec![q1.clone(), q2.clone()]);

    let stats = db.stats(true).unwrap();
    assert_eq!(stats.nodes.value, 4);
    assert_eq!(stats.quads.value, 2);
    assert_eq!(value_refs(&db, "<alice>"), 2);
    assert_eq!(value_refs(&db, "<knows>"), 2);
    assert_eq!(value_refs(&db, "<bob>"), 1);

    delete_all(&mut db, vec![q1]);
    let stats = db.stats(true).unwrap();
    assert_eq!(stats.nodes.value, 3);
    assert_eq!(stats.quads.value, 1);
    assert!(db.value_of(&"<bob>".into()).is_none());
    assert_eq!(value_refs(&db, "<alice>"), 1);
    assert_eq!(value_refs(&db, "<knows>"), 1);
}

#[test]
fn label_sentinel() {
    let mut db = RocksDB::open("").unwrap();
    let q1 = quad("<emily>", "<status>", "smart_person", Some("<smart_graph>"));
    add_all(&mut db, vec![q1.clone()]);

    let emily = db.value_of(&"<emily>".into()).unwrap();
    let shape = db.quad_iterator(&Direction::Subject, &emily);
    let mut it = shape.iterate();
    assert!(it.next());
    let quad_ref = it.result().unwrap();

    let label_ref = db.quad_direction(&quad_ref, &Direction::Label).unwrap();
    let label = db.name_of(&label_ref).unwrap();
    assert_eq!(label, Value::IRI("smart_graph".to_string()));

    let q2 = quad("<emily>", "<status>", "cool_person", None);
    add_all(&mut db, vec![q2.clone()]);
    let cool = db.value_of(&"cool_person".into()).unwrap();
    let shape = db.quad_iterator(&Direction::Object, &cool);
    let mut it = shape.iterate();
    assert!(it.next());
    let q2_ref = it.result().unwrap();
    let no_label = db.quad_direction(&q2_ref, &Direction::Label).unwrap();
    assert_eq!(no_label.key(), None);
    assert_eq!(no_label, Ref::none());

    let missing = db.quad_direction(&Ref::none(), &Direction::Label);
    assert!(missing.is_none());
}

#[test]
fn insertion_idempotence() {
    let mut db = RocksDB::open("").unwrap();
    let q = quad("<a>", "<p>", "<b>", None);
    add_all(&mut db, vec![q.clone()]);
    let before_nodes = db.stats(true).unwrap().nodes.value;
    let before_quads = db.stats(true).unwrap().quads.value;
    let alice_refs = value_refs(&db, "<a>");

    add_all(&mut db, vec![q.clone()]);
    let stats = db.stats(true).unwrap();
    assert_eq!(stats.nodes.value, before_nodes);
    assert_eq!(stats.quads.value, before_quads);
    assert_eq!(value_refs(&db, "<a>"), alice_refs);
}

#[test]
fn delete_inverts_add() {
    let mut db = RocksDB::open("").unwrap();
    let base = quad("<x>", "<p>", "<y>", None);
    add_all(&mut db, vec![base.clone()]);
    let nodes0 = db.stats(true).unwrap().nodes.value;
    let quads0 = db.stats(true).unwrap().quads.value;

    let q = quad("<x>", "<q>", "<z>", Some("<g>"));
    add_all(&mut db, vec![q.clone()]);
    delete_all(&mut db, vec![q.clone()]);

    let stats = db.stats(true).unwrap();
    assert_eq!(stats.nodes.value, nodes0);
    assert_eq!(stats.quads.value, quads0);
    assert!(db.value_of(&"<z>".into()).is_none());
    assert!(db.value_of(&"<g>".into()).is_none());
    assert_eq!(value_refs(&db, "<x>"), 1);

    let x = db.value_of(&"<x>".into()).unwrap();
    let shape = db.quad_iterator(&Direction::Subject, &x);
    let mut it = shape.iterate();
    assert!(it.next());
    assert!(!it.next());
}

#[test]
fn validation_errors() {
    let mut db = RocksDB::open("").unwrap();
    let q = quad("<a>", "<p>", "<b>", None);
    add_all(&mut db, vec![q.clone()]);

    let dup = db.apply_deltas(
        vec![Delta {
            quad: q.clone(),
            action: Procedure::Add,
        }],
        &IgnoreOptions {
            ignore_dup: false,
            ignore_missing: true,
        },
    );
    assert_eq!(dup.unwrap_err(), "ErrQuadExists".to_string());

    let missing = db.apply_deltas(
        vec![Delta {
            quad: quad("<no>", "<such>", "<quad>", None),
            action: Procedure::Delete,
        }],
        &IgnoreOptions {
            ignore_dup: true,
            ignore_missing: false,
        },
    );
    assert_eq!(missing.unwrap_err(), "ErrQuadNotExist".to_string());

    // a failed validation leaves the store untouched
    let stats = db.stats(true).unwrap();
    assert_eq!(stats.nodes.value, 3);
    assert_eq!(stats.quads.value, 1);
}

#[test]
fn scan_completeness_and_order() {
    let mut db = RocksDB::open("").unwrap();
    add_all(
        &mut db,
        vec![
            quad("<hub>", "<p>", "<a>", None),
            quad("<hub>", "<p>", "<b>", None),
            quad("<hub>", "<p>", "<c>", None),
            quad("<other>", "<p>", "<d>", None),
        ],
    );
    let hub = db.value_of(&"<hub>".into()).unwrap();
    let ids = db
        .store
        .get_quad_direction(&Direction::Subject, &hub.key().unwrap());
    assert_eq!(ids.len(), 3);
    for w in ids.windows(2) {
        assert!(w[0] < w[1]);
    }
    let sz = db.quad_iterator_size(&Direction::Subject, &hub).unwrap();
    assert_eq!(sz.value, 3);
    assert!(sz.exact);

    // an absent key scans as empty
    let none_sz = db
        .quad_iterator_size(&Direction::Subject, &Ref::none())
        .unwrap();
    assert_eq!(none_sz.value, 0);
    let null_shape = db.quad_iterator(&Direction::Subject, &Ref::none());
    assert!(matches!(null_shape, Shape::Null));
}

#[test]
fn quad_ids_shape() {
    let ids = vec![3u64, 5, 9];
    let shape = QuadIds::new(ids.clone(), Direction::Subject);
    let mut it = shape.iterate();
    let mut seen = Vec::new();
    while it.next() {
        seen.push(it.result().unwrap().key().unwrap());
    }
    assert_eq!(seen, ids);
    assert!(!it.next());

    let mut lk = shape.lookup();
    let hit = Ref {
        k: Some(5),
        content: Content::Empty,
    };
    assert!(lk.contains(&hit));
    assert_eq!(lk.result().unwrap().key(), Some(5));
    let miss = Ref {
        k: Some(4),
        content: Content::Empty,
    };
    assert!(!lk.contains(&miss));
    assert!(lk.result().is_none());
    assert!(!lk.contains(&Ref::none()));

    let mut shape = shape;
    let costs = shape.stats().unwrap();
    assert_eq!(costs.size.value, 3);
    assert!(costs.size.exact);
    assert_eq!(costs.next_cost, 1);
    assert_eq!(costs.contains_cost, ln_floor(3) + 1);
}

#[test]
fn ln_floor_thresholds() {
    assert_eq!(ln_floor(0), 0);
    assert_eq!(ln_floor(1), 0);
    assert_eq!(ln_floor(2), 0);
    assert_eq!(ln_floor(3), 1);
    assert_eq!(ln_floor(7), 1);
    assert_eq!(ln_floor(8), 2);
    assert_eq!(ln_floor(1000), 6);
    assert_eq!(ln_floor(u64::MAX), 44);
}

#[test]
fn all_iterator_partitioning() {
    let mut db = RocksDB::open("").unwrap();
    add_all(
        &mut db,
        vec![
            quad("<a>", "<p>", "<b>", None),
            quad("<a>", "<q>", "<c>", Some("<g>")),
        ],
    );
    let stats = db.stats(true).unwrap();
    let total = (stats.nodes.value + stats.quads.value) as usize;

    let mut node_ids = Vec::new();
    let nodes_shape = db.nodes_all_iterator();
    let mut it = nodes_shape.iterate();
    while it.next() {
        let r = it.result().unwrap();
        node_ids.push(r.key().unwrap());
    }

    let mut quad_ids = Vec::new();
    let quads_shape = db.quads_all_iterator();
    let mut it = quads_shape.iterate();
    while it.next() {
        quad_ids.push(it.result().unwrap().key().unwrap());
    }

    assert_eq!(node_ids.len() + quad_ids.len(), total);
    for id in &node_ids {
        assert!(!quad_ids.contains(id));
    }
    let mut all: Vec<u64> = node_ids.iter().chain(quad_ids.iter()).cloned().collect();
    all.sort();
    let mut expect: Vec<u64> = (1..=total as u64).collect();
    expect.sort();
    assert_eq!(all, expect);

    let mut nodes_shape = db.nodes_all_iterator();
    assert!(matches!(nodes_shape.shape_type(), ShapeType::StoreIterator));
    let costs = nodes_shape.stats().unwrap();
    assert_eq!(costs.size.value, total as i64);

    let lookup_shape = db.nodes_all_iterator();
    let mut lk = lookup_shape.lookup();
    assert!(lk.contains(&Ref {
        k: Some(node_ids[0]),
        content: Content::Empty,
    }));
    assert!(!lk.contains(&Ref {
        k: Some(quad_ids[0]),
        content: Content::Empty,
    }));
}

#[test]
fn quad_writer_round_trip() {
    let db = RocksDB::open("").unwrap();
    let mut w = QuadWriter::new(
        db,
        IgnoreOptions {
            ignore_dup: true,
            ignore_missing: true,
        },
    );
    w.add_quad(quad("<a>", "<p>", "<b>", None)).unwrap();
    assert_eq!(w.qs.stats(true).unwrap().quads.value, 1);
    w.remove_quad(quad("<a>", "<p>", "<b>", None)).unwrap();
    assert_eq!(w.qs.stats(true).unwrap().quads.value, 0);
    assert_eq!(w.qs.stats(true).unwrap().nodes.value, 0);
}

#[test]
fn primitive_count_arithmetic() {
    let mut c = PrimitiveCount::zero();
    assert_eq!(c.total(), 0);
    c.increment_values(1);
    c.increment_quads(1);
    c.increment_quads(1);
    assert_eq!(c.total(), 3);
    c.increment_quads(-1);
    assert_eq!(c.total(), 2);
    c.increment_values(-5);
    assert_eq!(c.total(), 2);
    let e = c.encode();
    let c2 = PrimitiveCount::decode(&e).unwrap();
    assert_eq!(c, c2);
}

#[test]
fn name_of_resolves_stored_values() {
    let mut db = RocksDB::open("").unwrap();
    add_all(&mut db, vec![quad("<a>", "<p>", "literal", None)]);
    let r = db.value_of(&"literal".into()).unwrap();
    let bare = Ref {
        k: r.k,
        content: Content::Empty,
    };
    assert_eq!(db.name_of(&bare), Some(Value::String("literal".to_string())));
    assert_eq!(db.name_of(&Ref::none()), None);
    assert!(db.close().is_none());
}

#[test]
fn primitive_kind_predicates() {
    let p = Primitive::new_value("x".into());
    assert!(p.is_node());
    assert!(!p.is_quad());
    assert!(matches!(p.content, PrimitiveContent::Value(_)));
    let r = p.to_ref(true).unwrap();
    assert!(r.has_value());
    assert!(!r.has_quad());
    assert!(p.to_ref(false).is_none());
}

#[test]
fn ref_handles() {
    let none = Ref::none();
    assert_eq!(none.key(), None);
    assert!(!none.has_value() && !none.has_quad());

    let zero = Ref {
        k: Some(0),
        content: Content::Empty,
    };
    assert_eq!(zero.key(), None);

    let v: Value = "<a>".into();
    let fetched = pre_fetched(v.clone());
    assert_eq!(fetched.key(), Some(v.calc_hash()));
    assert!(fetched.has_value());
    assert_eq!(*fetched.unwrap_value(), v);

    let node = Ref::new_i64_node(-3);
    assert!(node.has_value());
    assert_eq!(
        *node.unwrap_value(),
        Value::Number(quadstore::number::Number::from_i64(-3))
    );

    let q = quad("<s>", "<p>", "<o>", None);
    let qr = Ref {
        k: Some(1),
        content: Content::Quad(q.clone()),
    };
    assert!(qr.has_quad());
    assert_eq!(*qr.unwrap_quad(), q);

    assert_eq!(Size::new(), Size { value: 0, exact: true });
}

#[test]
fn scanner_via_shape_dispatch() {
    let mut db = RocksDB::open("").unwrap();
    add_all(&mut db, vec![quad("<a>", "<p>", "<b>", None)]);
    let a = db.value_of(&"<a>".into()).unwrap();
    let mut shape = db.quad_iterator(&Direction::Subject, &a);
    assert!(matches!(shape.shape_type(), ShapeType::QuadIds));
    assert!(shape.optimize().is_none());
    assert!(shape.sub_iterators().is_none());
    let costs = shape.stats().unwrap();
    assert_eq!(costs.size.value, 1);

    let mut it = shape.iterate();
    assert!(!it.next_path());
    assert!(it.err().is_none());
    assert!(it.next());
    let r = it.result().unwrap();
    let mut lk = shape.lookup();
    assert!(lk.contains(&r));
    assert!(lk.err().is_none());
    assert!(lk.close().is_ok());
    assert!(it.close().is_ok());
}

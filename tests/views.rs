use mlua_stdlib::document::{Document, DocumentBuilder, Node, Number};
use mlua_stdlib::eager::{decode, Host};
use mlua_stdlib::view::{Handle, Key, Materialized, ViewError};

fn whole(i: i64) -> Number {
    Number { int: Some(i), float_bits: Some((i as f64).to_bits()) }
}

/// {"a": [1, 2, {"b": true}]}
fn sample() -> Document {
    let mut b = DocumentBuilder::new();
    let one = b.push(Node::Num(whole(1)));
    let two = b.push(Node::Num(whole(2)));
    let key_b = b.push(Node::Str("b".to_string()));
    let t = b.push(Node::Bool(true));
    let inner = b.push(Node::Mapping(vec![(key_b, t)]));
    let arr = b.push(Node::Sequence(vec![one, two, inner]));
    let key_a = b.push(Node::Str("a".to_string()));
    let top = b.push(Node::Mapping(vec![(key_a, arr)]));
    b.finish(top).unwrap()
}

/// {"a": [{"b": 1}, {"b": 2}]}
fn pointer_sample() -> Document {
    let mut b = DocumentBuilder::new();
    let kb1 = b.push(Node::Str("b".to_string()));
    let v1 = b.push(Node::Num(whole(1)));
    let m1 = b.push(Node::Mapping(vec![(kb1, v1)]));
    let kb2 = b.push(Node::Str("b".to_string()));
    let v2 = b.push(Node::Num(whole(2)));
    let m2 = b.push(Node::Mapping(vec![(kb2, v2)]));
    let arr = b.push(Node::Sequence(vec![m1, m2]));
    let ka = b.push(Node::Str("a".to_string()));
    let top = b.push(Node::Mapping(vec![(ka, arr)]));
    b.finish(top).unwrap()
}

/// [10, 20, 30]
fn three() -> Handle {
    let mut b = DocumentBuilder::new();
    let x = b.push(Node::Num(whole(10)));
    let y = b.push(Node::Num(whole(20)));
    let z = b.push(Node::Num(whole(30)));
    let top = b.push(Node::Sequence(vec![x, y, z]));
    Handle::new(b.finish(top).unwrap())
}

fn name(s: &str) -> Key {
    Key::Name(s.to_string())
}

fn as_int(h: &Handle) -> i64 {
    match h.materialize() {
        Ok(Materialized::Integer(i)) => i,
        other => panic!("not an integer: {:?}", other),
    }
}

fn expand(m: Materialized) -> Result<Host, ViewError> {
    match m {
        Materialized::Null => Ok(Host::Null),
        Materialized::Boolean(b) => Ok(Host::Boolean(b)),
        Materialized::Integer(i) => Ok(Host::Integer(i)),
        Materialized::Float(bits) => Ok(Host::Float(bits)),
        Materialized::Text(s) => Ok(Host::Text(s)),
        Materialized::Handle(h) => {
            let is_sequence = matches!(h.node(), Node::Sequence(_));
            let mut it = h.iter();
            let mut list = Vec::new();
            let mut table = Vec::new();
            while let Some(step) = it.next() {
                let (k, v) = step?;
                let v = expand(v)?;
                if is_sequence {
                    list.push(v);
                } else {
                    table.push((expand(k)?, v));
                }
            }
            Ok(if is_sequence { Host::List(list) } else { Host::Table(table) })
        }
    }
}

/// Materializes the handle's node and every handle reachable from it.
fn lazy_deep(h: &Handle) -> Result<Host, ViewError> {
    expand(h.materialize()?)
}

#[test]
fn builder_refuses_forward_references() {
    let mut b = DocumentBuilder::new();
    let s = b.push(Node::Sequence(vec![1]));
    b.push(Node::Null);
    assert!(b.finish(s).is_none());
}

#[test]
fn builder_refuses_missing_top() {
    let mut b = DocumentBuilder::new();
    b.push(Node::Null);
    assert!(b.finish(1).is_none());
    assert!(DocumentBuilder::new().finish(0).is_none());
}

#[test]
fn builder_keeps_nodes_in_order() {
    let doc = sample();
    assert_eq!(doc.len(), 8);
    assert_eq!(doc.top(), 7);
    assert!(matches!(doc.node(3), Node::Bool(true)));
}

#[test]
fn get_on_sequence_counts_from_one() {
    let seq = three();
    assert_eq!(as_int(&seq.get(&Key::Index(1)).unwrap()), 10);
    assert_eq!(as_int(&seq.get(&Key::Index(3)).unwrap()), 30);
    assert!(seq.get(&Key::Index(0)).is_none());
    assert!(seq.get(&Key::Index(-1)).is_none());
    assert!(seq.get(&Key::Index(4)).is_none());
    assert!(seq.get(&Key::Index(i64::MIN)).is_none());
    assert!(seq.get(&name("1")).is_none());
    assert!(seq.get(&Key::Other).is_none());
}

#[test]
fn get_on_mapping_takes_string_keys() {
    let top = Handle::new(sample());
    let a = top.get(&name("a")).unwrap();
    assert!(matches!(a.node(), Node::Sequence(_)));
    assert!(top.get(&name("b")).is_none());
    assert!(top.get(&Key::Index(1)).is_none());
    let inner = a.get(&Key::Index(3)).unwrap();
    assert!(matches!(inner.get(&name("b")).unwrap().materialize(), Ok(Materialized::Boolean(true))));
}

#[test]
fn get_on_scalar_finds_nothing() {
    let one = Handle::new(sample()).get(&name("a")).unwrap().get(&Key::Index(1)).unwrap();
    assert!(one.get(&Key::Index(1)).is_none());
    assert!(one.get(&name("a")).is_none());
    assert_eq!(one.iter().len(), 0);
    assert!(one.iter().next().is_none());
}

#[test]
fn pointer_resolves_from_the_top() {
    let top = Handle::new(pointer_sample());
    let second = top.get(&name("a")).unwrap().get(&Key::Index(2)).unwrap();
    assert_eq!(as_int(&second.get(&name("b")).unwrap()), 2);
    assert_eq!(as_int(&second.pointer("/a/0/b").unwrap()), 1);
    assert_eq!(as_int(&top.pointer("/a/1/b").unwrap()), 2);
    assert!(second.pointer("/b").is_none());
}

#[test]
fn pointer_edge_cases() {
    let top = Handle::new(pointer_sample());
    assert_eq!(top.pointer("").unwrap().position(), top.position());
    assert!(top.pointer("a").is_none());
    assert!(top.pointer("/a/00/b").is_none());
    assert!(top.pointer("/a/+0/b").is_none());
    assert!(top.pointer("/a/2").is_none());
    assert!(top.pointer("/a/-1").is_none());
    assert!(top.pointer("/a/").is_none());
    assert!(top.pointer("/a/99999999999999999999999").is_none());
    assert!(top.pointer("/").is_none());
}

#[test]
fn pointer_unescapes_tokens() {
    let mut b = DocumentBuilder::new();
    let k1 = b.push(Node::Str("a/b".to_string()));
    let v1 = b.push(Node::Num(whole(1)));
    let k2 = b.push(Node::Str("m~n".to_string()));
    let v2 = b.push(Node::Num(whole(2)));
    let k3 = b.push(Node::Str("~1".to_string()));
    let v3 = b.push(Node::Num(whole(3)));
    let k4 = b.push(Node::Str("".to_string()));
    let v4 = b.push(Node::Num(whole(4)));
    let top = b.push(Node::Mapping(vec![(k1, v1), (k2, v2), (k3, v3), (k4, v4)]));
    let h = Handle::new(b.finish(top).unwrap());
    assert_eq!(as_int(&h.pointer("/a~1b").unwrap()), 1);
    assert_eq!(as_int(&h.pointer("/m~0n").unwrap()), 2);
    assert_eq!(as_int(&h.pointer("/~01").unwrap()), 3);
    assert_eq!(as_int(&h.pointer("/").unwrap()), 4);
    assert!(h.pointer("/a/b").is_none());
}

#[test]
fn materialize_scalars() {
    let mut b = DocumentBuilder::new();
    let n = b.push(Node::Null);
    let f = b.push(Node::Num(Number { int: None, float_bits: Some(1.5f64.to_bits()) }));
    let s = b.push(Node::Str("hi".to_string()));
    let bad = b.push(Node::Num(Number { int: None, float_bits: None }));
    let top = b.push(Node::Sequence(vec![n, f, s, bad]));
    let h = Handle::new(b.finish(top).unwrap());
    assert!(matches!(h.get(&Key::Index(1)).unwrap().materialize(), Ok(Materialized::Null)));
    match h.get(&Key::Index(2)).unwrap().materialize() {
        Ok(Materialized::Float(bits)) => assert_eq!(f64::from_bits(bits), 1.5),
        other => panic!("{:?}", other),
    }
    match h.get(&Key::Index(3)).unwrap().materialize() {
        Ok(Materialized::Text(t)) => assert_eq!(t, "hi"),
        other => panic!("{:?}", other),
    }
    assert!(matches!(h.get(&Key::Index(4)).unwrap().materialize(), Err(ViewError::Conversion)));
    match h.materialize() {
        Ok(Materialized::Handle(same)) => assert_eq!(same.position(), h.position()),
        other => panic!("{:?}", other),
    }
}

#[test]
fn big_integer_stays_exact() {
    let mut b = DocumentBuilder::new();
    let big = b.push(Node::Num(Number {
        int: Some(9007199254740993),
        float_bits: Some(9007199254740993u64 as f64).map(f64::to_bits),
    }));
    let h = Handle::new(b.finish(big).unwrap());
    assert_eq!(as_int(&h), 9007199254740993);
}

#[test]
fn sequence_iteration_yields_positions_then_stops() {
    let seq = three();
    let mut it = seq.iter();
    assert_eq!(it.len(), 3);
    for (i, expected) in [(1, 10), (2, 20), (3, 30)] {
        match it.next() {
            Some(Ok((Materialized::Integer(k), Materialized::Integer(v)))) => {
                assert_eq!((k, v), (i, expected))
            }
            other => panic!("{:?}", other),
        }
    }
    for _ in 0..5 {
        assert!(it.next().is_none());
    }
}

#[test]
fn mapping_iteration_yields_each_key_once() {
    let mut b = DocumentBuilder::new();
    let mut entries = Vec::new();
    for (i, k) in ["x", "y", "z"].iter().enumerate() {
        let key = b.push(Node::Str(k.to_string()));
        let value = b.push(Node::Num(whole(i as i64)));
        entries.push((key, value));
    }
    let top = b.push(Node::Mapping(entries));
    let h = Handle::new(b.finish(top).unwrap());
    let mut it = h.iter();
    let mut seen = Vec::new();
    while let Some(step) = it.next() {
        match step {
            Ok((Materialized::Text(k), Materialized::Integer(v))) => seen.push((k, v)),
            other => panic!("{:?}", other),
        }
    }
    assert_eq!(seen, vec![("x".to_string(), 0), ("y".to_string(), 1), ("z".to_string(), 2)]);
    assert!(it.next().is_none());
}

#[test]
fn mapping_iteration_refuses_composite_keys() {
    let mut b = DocumentBuilder::new();
    let e = b.push(Node::Sequence(vec![]));
    let v = b.push(Node::Null);
    let k = b.push(Node::Num(whole(7)));
    let top = b.push(Node::Mapping(vec![(e, v), (k, v)]));
    let h = Handle::new(b.finish(top).unwrap());
    let mut it = h.iter();
    assert!(matches!(it.next(), Some(Err(ViewError::UnsupportedKey))));
    assert!(matches!(it.next(), Some(Ok((Materialized::Integer(7), Materialized::Null)))));
    assert!(it.next().is_none());
    assert!(h.get(&name("x")).is_none());
}

#[test]
fn iteration_step_with_bad_number_fails_alone() {
    let mut b = DocumentBuilder::new();
    let bad = b.push(Node::Num(Number { int: None, float_bits: None }));
    let good = b.push(Node::Num(whole(5)));
    let top = b.push(Node::Sequence(vec![bad, good]));
    let h = Handle::new(b.finish(top).unwrap());
    let mut it = h.iter();
    assert!(matches!(it.next(), Some(Err(ViewError::Conversion))));
    assert!(matches!(it.next(), Some(Ok((Materialized::Integer(2), Materialized::Integer(5))))));
    assert!(it.next().is_none());
    assert!(decode(h.document()).is_err());
}

#[test]
fn eager_decode_of_sample() {
    let doc = sample();
    let host = decode(&doc).unwrap();
    assert_eq!(
        format!("{:?}", host),
        "Table([(Text(\"a\"), List([Integer(1), Integer(2), Table([(Text(\"b\"), Boolean(true))])]))])"
    );
}

#[test]
fn lazy_traversal_matches_eager_decode() {
    let doc = sample();
    let eager = decode(&doc).unwrap();
    let lazy = lazy_deep(&Handle::new(doc)).unwrap();
    assert_eq!(format!("{:?}", lazy), format!("{:?}", eager));
}

#[test]
fn shared_handles_see_the_same_node() {
    let top = Handle::new(sample());
    let a = top.get(&name("a")).unwrap();
    let again = a.share();
    assert_eq!(again.position(), a.position());
    drop(top);
    assert_eq!(as_int(&again.get(&Key::Index(2)).unwrap()), 2);
}

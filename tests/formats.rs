use mlua_stdlib::document::{Document, DocumentBuilder, Node, Number};
use mlua_stdlib::eager::decode;
use mlua_stdlib::view::{Handle, Key, Materialized};

fn push_json(b: &mut DocumentBuilder, v: &serde_json::Value) -> usize {
    let node = match v {
        serde_json::Value::Null => Node::Null,
        serde_json::Value::Bool(x) => Node::Bool(*x),
        serde_json::Value::Number(n) => {
            Node::Num(Number { int: n.as_i64(), float_bits: n.as_f64().map(f64::to_bits) })
        }
        serde_json::Value::String(s) => Node::Str(s.clone()),
        serde_json::Value::Array(items) => {
            Node::Sequence(items.iter().map(|item| push_json(b, item)).collect())
        }
        serde_json::Value::Object(map) => Node::Mapping(
            map.iter()
                .map(|(k, item)| {
                    let key = b.push(Node::Str(k.clone()));
                    (key, push_json(b, item))
                })
                .collect(),
        ),
    };
    b.push(node)
}

fn json(text: &str) -> Document {
    let value: serde_json::Value = serde_json::from_str(text).unwrap();
    let mut b = DocumentBuilder::new();
    let top = push_json(&mut b, &value);
    b.finish(top).unwrap()
}

fn push_yaml(b: &mut DocumentBuilder, v: &serde_yaml::Value) -> usize {
    let node = match v {
        serde_yaml::Value::Null => Node::Null,
        serde_yaml::Value::Bool(x) => Node::Bool(*x),
        serde_yaml::Value::Number(n) => {
            Node::Num(Number { int: n.as_i64(), float_bits: n.as_f64().map(f64::to_bits) })
        }
        serde_yaml::Value::String(s) => Node::Str(s.clone()),
        serde_yaml::Value::Sequence(items) => {
            Node::Sequence(items.iter().map(|item| push_yaml(b, item)).collect())
        }
        serde_yaml::Value::Mapping(map) => Node::Mapping(
            map.iter().map(|(k, item)| (push_yaml(b, k), push_yaml(b, item))).collect(),
        ),
        serde_yaml::Value::Tagged(tagged) => return push_yaml(b, &tagged.value),
    };
    b.push(node)
}

fn yaml(text: &str) -> Document {
    let mut value: serde_yaml::Value = serde_yaml::from_str(text).unwrap();
    value.apply_merge().unwrap();
    let mut b = DocumentBuilder::new();
    let top = push_yaml(&mut b, &value);
    b.finish(top).unwrap()
}

fn name(s: &str) -> Key {
    Key::Name(s.to_string())
}

fn scalar(h: &Handle) -> String {
    match h.materialize().unwrap() {
        Materialized::Handle(_) => panic!("not a scalar"),
        m => format!("{:?}", m),
    }
}

#[test]
fn json_big_integer_is_exact() {
    let h = Handle::new(json("[9007199254740993]"));
    match h.get(&Key::Index(1)).unwrap().materialize() {
        Ok(Materialized::Integer(i)) => assert_eq!(i, 9007199254740993),
        other => panic!("{:?}", other),
    }
}

#[test]
fn json_float_and_huge_numbers() {
    let h = Handle::new(json("[1.25, 18446744073709551615]"));
    match h.get(&Key::Index(1)).unwrap().materialize() {
        Ok(Materialized::Float(bits)) => assert_eq!(f64::from_bits(bits), 1.25),
        other => panic!("{:?}", other),
    }
    match h.get(&Key::Index(2)).unwrap().materialize() {
        Ok(Materialized::Float(bits)) => assert_eq!(f64::from_bits(bits), 18446744073709551615u64 as f64),
        other => panic!("{:?}", other),
    }
}

#[test]
fn json_pointer_from_inner_handle() {
    let top = Handle::new(json(r#"{"a":[{"b":1},{"b":2}]}"#));
    let second = top.pointer("/a/1").unwrap();
    assert_eq!(scalar(&second.get(&name("b")).unwrap()), "Integer(2)");
    assert_eq!(scalar(&second.pointer("/a/0/b").unwrap()), "Integer(1)");
}

#[test]
fn yaml_merge_key_matches_written_out_fields() {
    let merged = Handle::new(yaml(
        "base: &base\n  x: 1\n  y: two\nderived:\n  <<: *base\n  z: true\n",
    ));
    let plain = Handle::new(yaml("base:\n  x: 1\n  y: two\nderived:\n  x: 1\n  y: two\n  z: true\n"));
    let m = merged.get(&name("derived")).unwrap();
    let p = plain.get(&name("derived")).unwrap();
    for field in ["x", "y", "z"] {
        assert_eq!(scalar(&m.get(&name(field)).unwrap()), scalar(&p.get(&name(field)).unwrap()));
    }
    assert!(m.get(&name("<<")).is_none());
    assert_eq!(m.iter().len(), p.iter().len());
}

#[test]
fn yaml_scalar_keys_iterate() {
    let h = Handle::new(yaml("1: one\ntrue: yes\n~: nothing\n"));
    let mut it = h.iter();
    let mut keys = Vec::new();
    while let Some(step) = it.next() {
        keys.push(format!("{:?}", step.unwrap().0));
    }
    assert_eq!(keys, vec!["Integer(1)", "Boolean(true)", "Null"]);
}

#[test]
fn yaml_tags_are_invisible() {
    let h = Handle::new(yaml("a: !custom 5\n"));
    assert_eq!(scalar(&h.get(&name("a")).unwrap()), "Integer(5)");
}

#[test]
fn decoding_twice_gives_independent_documents() {
    let text = r#"{"k":[1,2,3]}"#;
    let first = Handle::new(json(text));
    let second = Handle::new(json(text));
    let a = first.get(&name("k")).unwrap();
    drop(first);
    let b = second.get(&name("k")).unwrap();
    drop(second);
    assert_eq!(format!("{:?}", decode(a.document())), format!("{:?}", decode(b.document())));
    assert_eq!(scalar(&a.get(&Key::Index(3)).unwrap()), "Integer(3)");
    assert_eq!(scalar(&b.get(&Key::Index(3)).unwrap()), "Integer(3)");
}

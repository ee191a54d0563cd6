use quadstore::bytes_be::{u64_to_be_vec, read_u64_be};
use quadstore::keys::{primitive_key, id_hash_key, quad_direction_key, decode_quad_direction_key};
use quadstore::number::{N, Number};
use quadstore::primitive::{Primitive, PrimitiveContent};
use quadstore::quad::{Direction, InternalQuad, Quad};
use quadstore::value::Value;
use quadstore::load::quad_from_line;

#[test]
fn primitive_key_tests() {
    assert_eq!(primitive_key(256), vec![0, 0, 0, 0, 0, 0, 0, 1, 0]);
    assert_eq!(
        primitive_key(u64::MAX),
        vec![0, 255, 255, 255, 255, 255, 255, 255, 255]
    );
}

#[test]
fn primitive_quad_encoding_tests() {
    let p1 = Primitive::new_quad(InternalQuad {
        s: 0,
        p: 1,
        o: 2,
        l: 3,
    });
    let e = p1.encode();
    let p2 = Primitive::decode(&e).unwrap();
    assert_eq!(p1, p2);

    let p1 = Primitive::new_quad(InternalQuad {
        s: 4234664324,
        p: 22345353643,
        o: 1686585436346,
        l: 0,
    });
    let e = p1.encode();
    let p2 = Primitive::decode(&e).unwrap();
    assert_eq!(p1, p2);
}

#[test]
fn primitive_value_encoding_tests() {
    let p1 = Primitive::new_value("Foo Bar".into());
    let e = p1.encode();
    let p2 = Primitive::decode(&e).unwrap();
    assert_eq!(p1, p2);
    assert_eq!(p1.calc_hash(), p2.calc_hash());

    let p1 = Primitive::new_value(747.into());
    let e = p1.encode();
    let p2 = Primitive::decode(&e).unwrap();
    assert_eq!(p1, p2);
    assert_eq!(p1.calc_hash(), p2.calc_hash());

    let p1 = Primitive::new_value("<foo>".into());
    let e = p1.encode();
    let p2 = Primitive::decode(&e).unwrap();
    assert_eq!(p1, p2);
    assert_eq!(p1.calc_hash(), p2.calc_hash());

    let p1 = Primitive::new_value(Value::Undefined);
    let e = p1.encode();
    let p2 = Primitive::decode(&e).unwrap();
    assert_eq!(p1, p2);
    assert_eq!(p1.calc_hash(), p2.calc_hash());

    let p1 = Primitive::new_value(false.into());
    let e = p1.encode();
    let p2 = Primitive::decode(&e).unwrap();
    assert_eq!(p1, p2);
    assert_eq!(p1.calc_hash(), p2.calc_hash());
}

#[test]
fn quad_direction_key_tests() {
    let t1 = (0, Direction::Subject, 0);
    let b = quad_direction_key(t1.0, &t1.1, t1.2);
    let t2 = decode_quad_direction_key(&b);
    assert_eq!(t1, t2);

    let t1 = (123, Direction::Object, 321);
    let b = quad_direction_key(t1.0, &t1.1, t1.2);
    let t2 = decode_quad_direction_key(&b);
    assert_eq!(t1, t2);

    let t1 = (u64::MAX, Direction::Label, u64::MAX);
    let b = quad_direction_key(t1.0, &t1.1, t1.2);
    let t2 = decode_quad_direction_key(&b);
    assert_eq!(t1, t2);
}

#[test]
fn quad_direction_key_grid() {
    let dirs = [
        Direction::Subject,
        Direction::Predicate,
        Direction::Object,
        Direction::Label,
    ];
    let bounds = [0u64, 1, u64::MAX];
    for d in dirs.iter() {
        for v in bounds.iter() {
            for q in bounds.iter() {
                let b = quad_direction_key(*v, d, *q);
                assert_eq!(b.len(), 18);
                assert_eq!(b[0], 2);
                assert_eq!(b[1], d.to_byte());
                let t = decode_quad_direction_key(&b);
                assert_eq!(t, (*v, *d, *q));
            }
        }
    }
}

#[test]
fn be_bytes_round_trip() {
    for x in [0u64, 1, 255, 256, 0xdead_beef, u64::MAX] {
        let v = u64_to_be_vec(x);
        assert_eq!(v.len(), 8);
        assert_eq!(read_u64_be(&v, 0), x);
    }
    assert_eq!(u64_to_be_vec(1), vec![0, 0, 0, 0, 0, 0, 0, 1]);
}

#[test]
fn value_codec_round_trip() {
    let samples = vec![
        Value::Undefined,
        Value::Null,
        Value::Bool(true),
        Value::Bool(false),
        Value::Number(Number::from_u64(0)),
        Value::Number(Number::from_u64(u64::MAX)),
        Value::Number(Number::from_i64(-1)),
        Value::Number(Number::from_i64(i64::MIN)),
        Value::Number(Number::from_f64_bits(1.5f64.to_bits()).unwrap()),
        Value::Number(Number::from_f64_bits((-0.0f64).to_bits()).unwrap()),
        Value::IRI(String::new()),
        Value::IRI("alice".to_string()),
        Value::String(String::new()),
        Value::String("Foo Bar".to_string()),
        Value::String("\u{3ba}\u{3cc}\u{3c3}\u{3bc}\u{3b5}".to_string()),
        Value::IRI("\u{65e5}\u{672c}\u{8a9e}".to_string()),
    ];
    for v in samples {
        let e = v.encode_to_vec();
        let d = Value::decode(&e).unwrap();
        assert_eq!(d, v);
        assert_eq!(d.calc_hash(), v.calc_hash());
    }
}

#[test]
fn value_decode_errors() {
    assert!(Value::decode(&[]).is_err());
    assert!(Value::decode(&[9]).is_err());
    assert!(Value::decode(&[6, 0, 0]).is_err());
    assert!(Value::decode(&[7, 0xff]).is_err());
    assert!(Value::decode(&[0, 0]).is_err());
    let nan = f64::NAN.to_bits().to_be_bytes();
    let mut enc = vec![4u8];
    enc.extend_from_slice(&nan);
    assert!(Value::decode(&enc).is_err());
}

#[test]
fn value_distinct_variants_distinct_hashes() {
    let a = Value::String("1".to_string());
    let b = Value::IRI("1".to_string());
    assert_ne!(a.calc_hash(), b.calc_hash());
    let e_a = a.encode_to_vec();
    let e_b = b.encode_to_vec();
    assert_ne!(e_a, e_b);
}

#[test]
fn number_accessors() {
    let n = Number::from_u64(7);
    assert!(n.is_u64());
    assert!(n.is_i64());
    assert!(!n.is_f64());
    assert_eq!(n.as_u64(), Some(7));
    assert_eq!(n.as_i64(), Some(7));

    let big = Number::from_u64(u64::MAX);
    assert_eq!(big.as_i64(), None);

    let neg = Number::from_i64(-5);
    assert!(matches!(neg.n, N::NegInt(-5)));
    assert_eq!(neg.as_u64(), None);
    assert_eq!(neg.as_i64(), Some(-5));

    assert!(Number::from_f64_bits(f64::NAN.to_bits()).is_none());
    assert!(Number::from_f64_bits(f64::INFINITY.to_bits()).is_none());
    assert!(Number::from_f64_bits(2.25f64.to_bits()).is_some());
}

#[test]
fn rdf_token_rule() {
    assert_eq!(Value::from_rdf_string("<foo>"), Value::IRI("foo".to_string()));
    assert_eq!(
        Value::from_rdf_string("\"quoted\""),
        Value::String("quoted".to_string())
    );
    assert_eq!(
        Value::from_rdf_string("plain"),
        Value::String("plain".to_string())
    );
    assert_eq!(Value::from_rdf_string(""), Value::String(String::new()));
    assert_eq!(Value::from_rdf_string("\""), Value::String("\"".to_string()));
    assert_eq!(Value::from_string("<x>"), Value::IRI("x".to_string()));
    assert_eq!(
        Value::from_string("\"kept\""),
        Value::String("\"kept\"".to_string())
    );
}

#[test]
fn quad_from_line_format() {
    let q = quad_from_line("<alice> <follows> <bob> .");
    assert_eq!(q.subject, Value::IRI("alice".to_string()));
    assert_eq!(q.predicate, Value::IRI("follows".to_string()));
    assert_eq!(q.object, Value::IRI("bob".to_string()));
    assert_eq!(q.label, Value::Undefined);

    let q = quad_from_line("<e> <s> smart_person <g> . ignored tokens");
    assert_eq!(q.label, Value::IRI("g".to_string()));
    assert_eq!(q.object, Value::String("smart_person".to_string()));

    let q = quad_from_line("   ");
    assert_eq!(q.subject, Value::Undefined);

    let q = quad_from_line("only two");
    assert_eq!(q.subject, Value::String("only".to_string()));
    assert_eq!(q.predicate, Value::String("two".to_string()));
    assert_eq!(q.object, Value::Undefined);
}

#[test]
fn quad_accessors() {
    let mut q = Quad::new_undefined_vals();
    q.set_val(&Direction::Subject, "<a>".into());
    q.set_val(&Direction::Object, "b".into());
    assert_eq!(*q.get(&Direction::Subject), Value::IRI("a".to_string()));
    assert_eq!(*q.get(&Direction::Object), Value::String("b".to_string()));
    assert_eq!(*q.get(&Direction::Label), Value::Undefined);
    let h1 = q.calc_hash();
    let bytes = q.calc_hash_bytes();
    assert_eq!(bytes.to_vec(), h1.to_be_bytes().to_vec());
    let q2 = q.clone();
    assert_eq!(q2.calc_hash(), h1);
}

#[test]
fn internal_quad_codec() {
    let iq = InternalQuad {
        s: 1,
        p: 2,
        o: 3,
        l: 0,
    };
    let mut e: Vec<u8> = Vec::new();
    iq.encode(&mut e);
    assert_eq!(e.len(), 32);
    let iq2 = InternalQuad::decode(&e).unwrap();
    assert_eq!(iq, iq2);
    assert_eq!(iq.calc_hash(), iq2.calc_hash());
    assert!(InternalQuad::decode(&e[..31]).is_err());
}

#[test]
fn primitive_content_decode_errors() {
    assert!(PrimitiveContent::decode(&[]).is_err());
    assert!(PrimitiveContent::decode(&[2, 0]).is_err());
    assert!(Primitive::decode(&[0; 15]).is_err());
}

#[test]
fn id_hash_key_layout() {
    let k = id_hash_key(1);
    assert_eq!(k, vec![1, 0, 0, 0, 0, 0, 0, 0, 1]);
}

#[test]
fn direction_enumeration() {
    let dirs = Direction::iterator();
    assert_eq!(
        dirs,
        vec![
            Direction::Subject,
            Direction::Predicate,
            Direction::Object,
            Direction::Label
        ]
    );
    assert_eq!(dirs.iter().map(|d| d.to_byte()).collect::<Vec<u8>>(), vec![1, 2, 3, 4]);
    assert_eq!(Direction::from_byte(3), Some(Direction::Object));
    assert_eq!(Direction::from_byte(0), None);
    assert_eq!(Direction::from_byte(5), None);
}

#[test]
fn value_as_i64() {
    assert_eq!(Value::Number(Number::from_i64(-9)).as_i64(), Some(-9));
    assert_eq!(Value::Number(Number::from_u64(9)).as_i64(), Some(9));
    assert_eq!(Value::Null.as_i64(), None);
    assert_eq!(Value::String("9".to_string()).as_i64(), None);
}

#[test]
fn whitespace_set_matches_std() {
    for u in 0..=0x10ffffu32 {
        if let Some(c) = char::from_u32(u) {
            assert_eq!(quadstore::load::is_ws(c), c.is_whitespace(), "{:#x}", u);
        }
    }
}

#[test]
fn quad_from_line_unicode_whitespace() {
    let q = quad_from_line("<a>\u{a0}<b>\u{2003}<c>\u{3000}.");
    assert_eq!(q.subject, Value::IRI("a".to_string()));
    assert_eq!(q.predicate, Value::IRI("b".to_string()));
    assert_eq!(q.object, Value::IRI("c".to_string()));
    assert_eq!(q.label, Value::Undefined);
}

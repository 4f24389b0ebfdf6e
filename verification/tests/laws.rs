use serde_pipe::buffer;
use serde_pipe::fringe;
use serde_pipe::value::{Kind, Value};

fn drain(serializer: &mut buffer::Serializer) -> Vec<u8> {
    let mut out: Vec<u8> = Vec::new();
    while let Some(byte) = serializer.pull() {
        out.push(byte);
    }
    out
}

fn drain_fringe(serializer: &mut fringe::Serializer) -> Vec<u8> {
    let mut out: Vec<u8> = Vec::new();
    while let Some(byte) = serializer.pull() {
        out.push(byte);
    }
    out
}

#[test]
fn scenario_u8_eager() {
    let mut serializer = buffer::Serializer::new();
    assert!(serializer.push(Value::U8(200)));
    let bytes = drain(&mut serializer);
    assert_eq!(bytes, vec![1, 0, 0, 0, 0, 0, 0, 0, 200]);

    let mut deserializer = buffer::Deserializer::new();
    assert!(deserializer.pull(Kind::U8).is_none());
    for byte in bytes {
        assert!(deserializer.push(byte));
    }
    assert_eq!(deserializer.pull(Kind::U8), Some(Value::U8(200)));
}

#[test]
fn scenario_u8_fringe() {
    let mut serializer = fringe::Serializer::new();
    assert!(serializer.push(Value::U8(200)));
    let bytes = drain_fringe(&mut serializer);
    assert_eq!(bytes, vec![200]);

    let mut deserializer = fringe::Deserializer::new();
    assert!(deserializer.pull(Kind::U8).is_none());
    for byte in bytes {
        assert!(deserializer.push(byte));
    }
    assert_eq!(deserializer.pull(Kind::U8), Some(Value::U8(200)));
}

#[test]
fn zero_size_value() {
    let mut serializer = fringe::Serializer::new();
    assert!(serializer.push(Value::Unit));
    let bytes = drain_fringe(&mut serializer);
    assert_eq!(bytes, vec![0]);

    let mut deserializer = fringe::Deserializer::new();
    assert!(deserializer.pull(Kind::Unit).is_none());
    assert!(deserializer.push(0));
    assert_eq!(deserializer.pull(Kind::Unit), Some(Value::Unit));

    let mut eager = buffer::Serializer::new();
    assert!(eager.push(Value::Unit));
    assert_eq!(drain(&mut eager), vec![1, 0, 0, 0, 0, 0, 0, 0, 0]);
}

#[test]
fn idempotent_idle() {
    let mut serializer = buffer::Serializer::new();
    assert!(!serializer.empty_avail());
    assert!(!serializer.empty());
    assert!(serializer.push(Value::U32(7)));
    assert!(serializer.empty_avail());
    assert!(serializer.empty());
    assert!(!serializer.empty());
    assert!(serializer.push(Value::Text(String::from("after"))));
    let expected = bincode::serialize(&String::from("after")).unwrap();
    let framed = drain(&mut serializer);
    assert_eq!(&framed[8..], &expected[..]);

    let mut deserializer = fringe::Deserializer::new();
    assert!(!deserializer.empty_avail());
    assert!(!deserializer.empty());
    assert!(deserializer.pull(Kind::U16).is_none());
    assert!(deserializer.push(0xaa));
    assert!(deserializer.empty_avail());
    assert!(deserializer.empty());
    assert!(!deserializer.empty());
    assert!(deserializer.pull(Kind::U8).is_none());
    assert!(deserializer.push(5));
    assert_eq!(deserializer.pull(Kind::U8), Some(Value::U8(5)));
}

#[test]
fn type_reuse_and_switching() {
    let values = vec![
        Value::U8(1),
        Value::Text(String::from("two")),
        Value::U8(3),
        Value::U64(4),
        Value::Unit,
        Value::Text(String::from("")),
        Value::U16(7),
    ];

    let mut serializer = buffer::Serializer::new();
    let mut deserializer = buffer::Deserializer::new();
    for value in values.iter() {
        let out = buffer::round_trip(value.clone(), &mut serializer, &mut deserializer);
        assert_eq!(&out, value);
    }

    let mut serializer = fringe::Serializer::new();
    let mut deserializer = fringe::Deserializer::new();
    for value in values.iter() {
        let out = fringe::round_trip(value.clone(), &mut serializer, &mut deserializer);
        assert_eq!(&out, value);
    }

    let mut serializer = fringe::Serializer::new();
    let mut deserializer = fringe::Deserializer::new();
    let (a, b) = fringe::round_trip_pair(
        Value::U32(9),
        Value::Text(String::from("nine")),
        &mut serializer,
        &mut deserializer,
    );
    assert_eq!(a, Value::U32(9));
    assert_eq!(b, Value::Text(String::from("nine")));
}

#[test]
fn payload_matches_codec() {
    let mut serializer = fringe::Serializer::new();

    assert!(serializer.push(Value::U16(0x1234)));
    assert_eq!(drain_fringe(&mut serializer), bincode::serialize(&0x1234u16).unwrap());

    assert!(serializer.push(Value::U32(0xdeadbeef)));
    assert_eq!(drain_fringe(&mut serializer), bincode::serialize(&0xdeadbeefu32).unwrap());

    assert!(serializer.push(Value::U64(0x0123_4567_89ab_cdef)));
    assert_eq!(
        drain_fringe(&mut serializer),
        bincode::serialize(&0x0123_4567_89ab_cdefu64).unwrap()
    );

    let text = String::from("héllo ✓");
    assert!(serializer.push(Value::Text(text.clone())));
    assert_eq!(drain_fringe(&mut serializer), bincode::serialize(&text).unwrap());
}

#[test]
fn byte_count_conservation() {
    let values = vec![
        Value::Unit,
        Value::U8(0),
        Value::U16(65535),
        Value::U32(1),
        Value::U64(u64::MAX),
        Value::Text(String::from("counted")),
    ];
    for value in values {
        let mut eager = buffer::Serializer::new();
        assert!(eager.push(value.clone()));
        let framed = drain(&mut eager);

        let mut bare = fringe::Serializer::new();
        assert!(bare.push(value.clone()));
        let wire = drain_fringe(&mut bare);

        assert_eq!(framed.len(), wire.len() + 8);
        assert_eq!(&framed[8..], &wire[..]);

        let mut deserializer = fringe::Deserializer::new();
        let kind = value.kind();
        assert!(deserializer.pull(kind).is_none());
        let mut fed: usize = 0;
        for byte in wire.iter() {
            assert!(deserializer.push_avail());
            assert!(deserializer.push(*byte));
            fed += 1;
        }
        assert!(!deserializer.push_avail());
        assert_eq!(fed, wire.len());
        assert_eq!(deserializer.pull(kind), Some(value));
    }
}

#[test]
fn all_at_once_and_byte_by_byte() {
    let value = Value::Text(String::from("pacing"));

    let mut serializer = buffer::Serializer::new();
    let mut deserializer = buffer::Deserializer::new();
    assert!(serializer.push(value.clone()));
    assert!(deserializer.pull(Kind::Text).is_none());
    let bytes = drain(&mut serializer);
    for byte in bytes {
        assert!(deserializer.push(byte));
    }
    assert_eq!(deserializer.pull(Kind::Text), Some(value.clone()));

    let mut serializer = buffer::Serializer::new();
    let mut deserializer = buffer::Deserializer::new();
    assert!(serializer.push(value.clone()));
    assert!(deserializer.pull(Kind::Text).is_none());
    while let Some(byte) = serializer.pull() {
        assert!(deserializer.push(byte));
    }
    assert_eq!(deserializer.pull(Kind::Text), Some(value));
}

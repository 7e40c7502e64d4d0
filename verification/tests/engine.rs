use kv_engine::{Error, Iterable, MemEngine, Mutable, Peekable, Snapshot, SyncSnapshot};
use protobuf::well_known_types::UInt64Value;
use protobuf::{Message, ProtobufError};

type Pairs = Vec<(Vec<u8>, Vec<u8>)>;

fn parse_region(bytes: &[u8]) -> Result<UInt64Value, ProtobufError> {
    let mut m = UInt64Value::new();
    m.merge_from_bytes(bytes)?;
    Ok(m)
}

fn is_wrong_length<T>(r: Result<T, Error>, width: usize) -> bool {
    matches!(r, Err(Error::WrongLength { expected: 8, got }) if got == width)
}

fn is_unknown_cf<T>(r: Result<T, Error>, cf: &str) -> bool {
    matches!(r, Err(Error::UnknownColumnFamily(name)) if name == cf)
}

fn engine_with(cf: &str) -> MemEngine {
    let mut engine = MemEngine::new();
    assert!(engine.create_cf(cf));
    engine
}

#[test]
fn test_base() {
    let cf = "cf";
    let mut engine = engine_with(cf);

    let mut r = UInt64Value::new();
    r.set_value(10);

    let key = b"key";
    engine.put_msg(key, r.write_to_bytes()).unwrap();
    engine.put_msg_cf(cf, key, r.write_to_bytes()).unwrap();

    let snap = Snapshot::new(&engine);

    let mut r1: UInt64Value = engine.get_msg(key, parse_region).unwrap().unwrap();
    assert_eq!(r, r1);
    let r1_cf: UInt64Value = engine.get_msg_cf(cf, key, parse_region).unwrap().unwrap();
    assert_eq!(r, r1_cf);

    let mut r2: UInt64Value = snap.get_msg(key, parse_region).unwrap().unwrap();
    assert_eq!(r, r2);
    let r2_cf: UInt64Value = snap.get_msg_cf(cf, key, parse_region).unwrap().unwrap();
    assert_eq!(r, r2_cf);

    r.set_value(11);
    engine.put_msg(key, r.write_to_bytes()).unwrap();
    r1 = engine.get_msg(key, parse_region).unwrap().unwrap();
    r2 = snap.get_msg(key, parse_region).unwrap().unwrap();
    assert_ne!(r1, r2);

    let b: Option<UInt64Value> = engine.get_msg(b"missing_key", parse_region).unwrap();
    assert!(b.is_none());

    engine.put_i64(key, -1).unwrap();
    assert_eq!(engine.get_i64(key).unwrap(), Some(-1));
    assert!(engine.get_i64(b"missing_key").unwrap().is_none());

    let snap = Snapshot::new(&engine);
    assert_eq!(snap.get_i64(key).unwrap(), Some(-1));
    assert!(snap.get_i64(b"missing_key").unwrap().is_none());

    engine.put_u64(key, 1).unwrap();
    assert_eq!(engine.get_u64(key).unwrap(), Some(1));
    assert_eq!(snap.get_i64(key).unwrap(), Some(-1));
}

#[test]
fn test_peekable() {
    let cf = "cf";
    let mut engine = engine_with(cf);

    engine.put(b"k1", b"v1").unwrap();
    engine.put_cf("cf", b"k1", b"v2").unwrap();

    assert_eq!(&*engine.get_value(b"k1").unwrap().unwrap(), b"v1");
    assert!(engine.get_value_cf("foo", b"k1").is_err());
    assert_eq!(&*engine.get_value_cf(cf, b"k1").unwrap().unwrap(), b"v2");
}

#[test]
fn test_scan() {
    let cf = "cf";
    let mut engine = engine_with(cf);

    engine.put(b"a1", b"v1").unwrap();
    engine.put(b"a2", b"v2").unwrap();
    engine.put_cf(cf, b"a1", b"v1").unwrap();
    engine.put_cf(cf, b"a2", b"v22").unwrap();

    let mut data: Pairs = vec![];
    engine
        .scan(b"", &[0xFF, 0xFF], false, &mut |key: &[u8], value: &[u8]| {
            data.push((key.to_vec(), value.to_vec()));
            Ok(true)
        })
        .unwrap();
    assert_eq!(
        data,
        vec![
            (b"a1".to_vec(), b"v1".to_vec()),
            (b"a2".to_vec(), b"v2".to_vec()),
        ]
    );
    data.clear();

    engine
        .scan_cf(cf, b"", &[0xFF, 0xFF], false, &mut |key: &[u8], value: &[u8]| {
            data.push((key.to_vec(), value.to_vec()));
            Ok(true)
        })
        .unwrap();
    assert_eq!(
        data,
        vec![
            (b"a1".to_vec(), b"v1".to_vec()),
            (b"a2".to_vec(), b"v22".to_vec()),
        ]
    );
    data.clear();

    let pair = engine.seek(b"a1").unwrap().unwrap();
    assert_eq!(pair, (b"a1".to_vec(), b"v1".to_vec()));
    assert!(engine.seek(b"a3").unwrap().is_none());
    let pair_cf = engine.seek_cf(cf, b"a1").unwrap().unwrap();
    assert_eq!(pair_cf, (b"a1".to_vec(), b"v1".to_vec()));
    assert!(engine.seek_cf(cf, b"a3").unwrap().is_none());

    let mut index = 0;
    engine
        .scan(b"", &[0xFF, 0xFF], false, &mut |key: &[u8], value: &[u8]| {
            data.push((key.to_vec(), value.to_vec()));
            index += 1;
            Ok(index != 1)
        })
        .unwrap();

    assert_eq!(data.len(), 1);

    let snap = Snapshot::new(&engine);

    engine.put(b"a3", b"v3").unwrap();
    assert!(engine.seek(b"a3").unwrap().is_some());

    let pair = snap.seek(b"a1").unwrap().unwrap();
    assert_eq!(pair, (b"a1".to_vec(), b"v1".to_vec()));
    assert!(snap.seek(b"a3").unwrap().is_none());

    data.clear();

    snap.scan(b"", &[0xFF, 0xFF], false, &mut |key: &[u8], value: &[u8]| {
        data.push((key.to_vec(), value.to_vec()));
        Ok(true)
    })
    .unwrap();

    assert_eq!(data.len(), 2);
}

#[test]
fn message_round_trip_gives_the_message_back() {
    let mut engine = MemEngine::new();
    let mut m = UInt64Value::new();
    m.set_value(0xDEAD_BEEF);
    engine.put_msg(b"m", m.write_to_bytes()).unwrap();
    assert_eq!(engine.get_value(b"m").unwrap(), Some(m.write_to_bytes().unwrap()));
    assert_eq!(engine.get_msg(b"m", parse_region).unwrap(), Some(m));
}

#[test]
fn unparsable_value_is_a_codec_error_not_absence() {
    let mut engine = MemEngine::new();
    engine.put(b"m", &[0xFF]).unwrap();
    let r = engine.get_msg(b"m", parse_region);
    let refused = parse_region(&[0xFF]).unwrap_err();
    let e = r.unwrap_err();
    assert!(matches!(e, Error::Codec(_)));
    assert_eq!(e.message(), refused.to_string());
}

#[test]
fn failed_serialisation_is_a_codec_error_and_writes_nothing() {
    let mut engine = engine_with("cf");
    let refused = parse_region(&[0xFF]).unwrap_err();
    let r = engine.put_msg(b"m", Err(refused));
    assert!(matches!(r, Err(Error::Codec(_))));
    assert_eq!(engine.get_value(b"m").unwrap(), None);
    let refused = parse_region(&[0xFF]).unwrap_err();
    let r = engine.put_msg_cf("cf", b"m", Err(refused));
    assert!(matches!(r, Err(Error::Codec(_))));
    assert_eq!(engine.get_value_cf("cf", b"m").unwrap(), None);
}

#[test]
fn absent_keys_are_absent_not_errors() {
    let engine = engine_with("cf");
    assert_eq!(engine.get_value(b"nothing").unwrap(), None);
    assert_eq!(engine.get_value_cf("cf", b"nothing").unwrap(), None);
    assert_eq!(engine.get_u64(b"nothing").unwrap(), None);
    assert_eq!(engine.get_i64(b"nothing").unwrap(), None);
    assert_eq!(engine.get_msg(b"nothing", parse_region).unwrap(), None);
    assert_eq!(engine.get_msg_cf("cf", b"nothing", parse_region).unwrap(), None);
}

#[test]
fn integers_are_stored_as_eight_big_endian_bytes() {
    let mut engine = MemEngine::new();
    engine.put_u64(b"n", 0x0102_0304_0506_0708).unwrap();
    assert_eq!(engine.get_value(b"n").unwrap(), Some(vec![1, 2, 3, 4, 5, 6, 7, 8]));
    engine.put_i64(b"n", -2).unwrap();
    assert_eq!(
        engine.get_value(b"n").unwrap(),
        Some(vec![0xFF, 0xFF, 0xFF, 0xFF, 0xFF, 0xFF, 0xFF, 0xFE])
    );
}

#[test]
fn signed_written_reads_back_as_its_bit_pattern() {
    let mut engine = MemEngine::new();
    engine.put_i64(b"n", -1).unwrap();
    assert_eq!(engine.get_u64(b"n").unwrap(), Some(u64::MAX));
    engine.put_u64(b"n", u64::MAX - 1).unwrap();
    assert_eq!(engine.get_i64(b"n").unwrap(), Some(-2));
    engine.put_i64(b"n", i64::MIN).unwrap();
    assert_eq!(engine.get_i64(b"n").unwrap(), Some(i64::MIN));
    assert_eq!(engine.get_u64(b"n").unwrap(), Some(1u64 << 63));
}

#[test]
fn value_of_another_width_is_refused_with_the_width() {
    let mut engine = MemEngine::new();
    engine.put(b"short", b"abc").unwrap();
    engine.put(b"long", b"123456789").unwrap();
    engine.put(b"empty", b"").unwrap();
    assert!(is_wrong_length(engine.get_u64(b"short"), 3));
    assert!(is_wrong_length(engine.get_i64(b"short"), 3));
    assert!(is_wrong_length(engine.get_u64(b"long"), 9));
    assert!(is_wrong_length(engine.get_u64(b"empty"), 0));
}

#[test]
fn families_are_isolated() {
    let mut engine = engine_with("cf");
    engine.put(b"k", b"A").unwrap();
    engine.put_cf("cf", b"k", b"B").unwrap();
    assert_eq!(engine.get_value(b"k").unwrap(), Some(b"A".to_vec()));
    assert_eq!(engine.get_value_cf("cf", b"k").unwrap(), Some(b"B".to_vec()));
    engine.delete(b"k").unwrap();
    assert_eq!(engine.get_value(b"k").unwrap(), None);
    assert_eq!(engine.get_value_cf("cf", b"k").unwrap(), Some(b"B".to_vec()));
}

#[test]
fn default_family_is_the_unscoped_keyspace() {
    let mut engine = MemEngine::new();
    engine.put(b"k", b"A").unwrap();
    assert_eq!(engine.get_value_cf("default", b"k").unwrap(), Some(b"A".to_vec()));
    engine.put_cf("default", b"k", b"B").unwrap();
    assert_eq!(engine.get_value(b"k").unwrap(), Some(b"B".to_vec()));
    assert_eq!(engine.seek_cf("default", b"").unwrap(), Some((b"k".to_vec(), b"B".to_vec())));
}

#[test]
fn unknown_family_is_an_error_from_every_scoped_accessor() {
    let mut engine = engine_with("cf");
    assert!(is_unknown_cf(engine.get_value_cf("foo", b"k"), "foo"));
    assert!(is_unknown_cf(engine.get_msg_cf("foo", b"k", parse_region), "foo"));
    assert!(is_unknown_cf(engine.put_cf("foo", b"k", b"v"), "foo"));
    let encoded = UInt64Value::new().write_to_bytes();
    assert!(is_unknown_cf(engine.put_msg_cf("foo", b"k", encoded), "foo"));
    assert!(is_unknown_cf(engine.seek_cf("foo", b"k"), "foo"));
    let mut calls = 0;
    let r = engine.scan_cf("foo", b"", &[0xFF], true, &mut |_: &[u8], _: &[u8]| {
        calls += 1;
        Ok(true)
    });
    assert!(is_unknown_cf(r, "foo"));
    assert_eq!(calls, 0);
    assert!(engine.new_iterator_cf("foo", kv_engine::IterOption::default()).is_err());
    let snap = Snapshot::new(&engine);
    assert!(is_unknown_cf(snap.get_value_cf("foo", b"k"), "foo"));
    assert!(is_unknown_cf(snap.seek_cf("foo", b"k"), "foo"));
}

#[test]
fn create_cf_tells_whether_the_family_was_made() {
    let mut engine = MemEngine::new();
    assert_eq!(engine.cf_names(), vec!["default".to_string()]);
    assert!(!engine.create_cf("default"));
    assert!(engine.create_cf("write"));
    engine.put_cf("write", b"k", b"v").unwrap();
    assert!(!engine.create_cf("write"));
    assert_eq!(engine.get_value_cf("write", b"k").unwrap(), Some(b"v".to_vec()));
    assert!(engine.create_cf("lock"));
    assert_eq!(
        engine.cf_names(),
        vec!["default".to_string(), "write".to_string(), "lock".to_string()]
    );
    assert_eq!(Snapshot::new(&engine).cf_names(), engine.cf_names());
}

#[test]
fn snapshot_keeps_the_value_from_before_the_write() {
    let mut engine = engine_with("cf");
    engine.put(b"k", b"old").unwrap();
    let snap = Snapshot::new(&engine);
    engine.put(b"k", b"new").unwrap();
    engine.put(b"fresh", b"x").unwrap();
    engine.put_cf("cf", b"k", b"named").unwrap();
    assert_eq!(snap.get_value(b"k").unwrap(), Some(b"old".to_vec()));
    assert_eq!(snap.get_value(b"fresh").unwrap(), None);
    assert_eq!(snap.get_value_cf("cf", b"k").unwrap(), None);
    assert_eq!(engine.get_value(b"k").unwrap(), Some(b"new".to_vec()));
    assert_eq!(engine.get_value(b"fresh").unwrap(), Some(b"x".to_vec()));
    engine.delete(b"k").unwrap();
    assert_eq!(snap.get_value(b"k").unwrap(), Some(b"old".to_vec()));
    assert_eq!(engine.get_value(b"k").unwrap(), None);
}

#[test]
fn shared_snapshot_clones_show_the_same_view() {
    let mut engine = engine_with("cf");
    engine.put(b"k", b"old").unwrap();
    engine.put_u64(b"n", 7).unwrap();
    let shared = SyncSnapshot::new(&engine);
    let other = shared.clone();
    let third = Snapshot::new(&engine).into_sync();
    engine.put(b"k", b"new").unwrap();
    drop(shared);
    assert_eq!(other.get_value(b"k").unwrap(), Some(b"old".to_vec()));
    assert_eq!(other.get_u64(b"n").unwrap(), Some(7));
    assert_eq!(third.get_value(b"k").unwrap(), Some(b"old".to_vec()));
    assert_eq!(other.snapshot().get_value(b"k").unwrap(), Some(b"old".to_vec()));
    assert_eq!(other.seek(b"").unwrap(), Some((b"k".to_vec(), b"old".to_vec())));
    assert_eq!(other.get_value_cf("cf", b"k").unwrap(), None);
}

#[test]
fn delete_of_an_absent_key_is_no_error() {
    let mut engine = MemEngine::new();
    engine.del(b"never").unwrap();
    engine.delete(b"never").unwrap();
    engine.put(b"k", b"v").unwrap();
    engine.del(b"k").unwrap();
    assert_eq!(engine.get_value(b"k").unwrap(), None);
    engine.del(b"k").unwrap();
}

fn collect(engine: &MemEngine, start: &[u8], end: &[u8]) -> Pairs {
    let mut data: Pairs = vec![];
    engine
        .scan(start, end, true, &mut |key: &[u8], value: &[u8]| {
            data.push((key.to_vec(), value.to_vec()));
            Ok(true)
        })
        .unwrap();
    data
}

fn filled() -> MemEngine {
    let mut engine = MemEngine::new();
    for key in [&b"c"[..], b"a", b"e", b"b", b"d", b"ab", b""] {
        let mut value = b"v-".to_vec();
        value.extend_from_slice(key);
        engine.put(key, &value).unwrap();
    }
    engine
}

fn keys_of(pairs: &Pairs) -> Vec<Vec<u8>> {
    pairs.iter().map(|p| p.0.clone()).collect()
}

#[test]
fn scan_is_half_open_and_ascending() {
    let engine = filled();
    let all = collect(&engine, b"", &[0xFF]);
    assert_eq!(
        keys_of(&all),
        vec![b"".to_vec(), b"a".to_vec(), b"ab".to_vec(), b"b".to_vec(), b"c".to_vec(), b"d".to_vec(), b"e".to_vec()]
    );
    assert_eq!(all[2], (b"ab".to_vec(), b"v-ab".to_vec()));
    let part = collect(&engine, b"ab", b"d");
    assert_eq!(keys_of(&part), vec![b"ab".to_vec(), b"b".to_vec(), b"c".to_vec()]);
    let between = collect(&engine, b"aa", b"bb");
    assert_eq!(keys_of(&between), vec![b"ab".to_vec(), b"b".to_vec()]);
    assert!(collect(&engine, b"c", b"c").is_empty());
    assert!(collect(&engine, b"d", b"b").is_empty());
    assert!(collect(&engine, b"f", &[0xFF]).is_empty());
    assert!(collect(&engine, b"", b"").is_empty());
    assert_eq!(keys_of(&collect(&engine, b"", b"a")), vec![b"".to_vec()]);
}

#[test]
fn scan_stops_when_the_callback_says_so() {
    let engine = filled();
    let mut seen: Vec<Vec<u8>> = vec![];
    engine
        .scan(b"a", &[0xFF], true, &mut |key: &[u8], _: &[u8]| {
            seen.push(key.to_vec());
            Ok(key != b"b")
        })
        .unwrap();
    assert_eq!(seen, vec![b"a".to_vec(), b"ab".to_vec(), b"b".to_vec()]);
}

#[test]
fn scan_hands_on_the_error_of_the_callback() {
    let engine = filled();
    let mut seen = 0;
    let r = engine.scan(b"a", &[0xFF], true, &mut |key: &[u8], _: &[u8]| {
        seen += 1;
        if key == b"ab" {
            Err(Error::Storage("stop here".to_string()))
        } else {
            Ok(true)
        }
    });
    assert!(matches!(r, Err(Error::Storage(words)) if words == "stop here"));
    assert_eq!(seen, 2);
}

#[test]
fn seek_finds_the_first_key_not_before_the_target() {
    let engine = filled();
    assert_eq!(engine.seek(b"").unwrap(), Some((b"".to_vec(), b"v-".to_vec())));
    assert_eq!(engine.seek(b"a").unwrap(), Some((b"a".to_vec(), b"v-a".to_vec())));
    assert_eq!(engine.seek(b"aa").unwrap(), Some((b"ab".to_vec(), b"v-ab".to_vec())));
    assert_eq!(engine.seek(b"abc").unwrap(), Some((b"b".to_vec(), b"v-b".to_vec())));
    assert_eq!(engine.seek(b"e").unwrap(), Some((b"e".to_vec(), b"v-e".to_vec())));
    assert_eq!(engine.seek(b"e\0").unwrap(), None);
    assert_eq!(MemEngine::new().seek(b"").unwrap(), None);
}

#[test]
fn put_replaces_and_keeps_the_order() {
    let mut engine = filled();
    engine.put(b"b", b"again").unwrap();
    engine.delete(b"c").unwrap();
    engine.delete(b"zz").unwrap();
    let all = collect(&engine, b"a", &[0xFF]);
    assert_eq!(
        all,
        vec![
            (b"a".to_vec(), b"v-a".to_vec()),
            (b"ab".to_vec(), b"v-ab".to_vec()),
            (b"b".to_vec(), b"again".to_vec()),
            (b"d".to_vec(), b"v-d".to_vec()),
            (b"e".to_vec(), b"v-e".to_vec()),
        ]
    );
}

use flate2::write::ZlibEncoder;
use flate2::Compression;
use satisfactory_save_file::{
    ByteReader, ByteSource, ChunkedZLibReader, ParseError, SaveDate, SaveFile, SaveObject,
    SessionVisiblity, Vector2, Vector3, Vector4,
};
use std::io::Write;

const PROPERTIES: &str = "?startloc=Grass Fields?sessionName=test_file?Visibility=SV_Private";

fn string_bytes(s: &str) -> Vec<u8> {
    if s.is_empty() {
        return 0_i32.to_le_bytes().to_vec();
    }
    let mut out = (s.len() as i32 + 1).to_le_bytes().to_vec();
    out.extend_from_slice(s.as_bytes());
    out.push(0);
    out
}

fn deflate(data: &[u8]) -> Vec<u8> {
    let mut encoder = ZlibEncoder::new(Vec::new(), Compression::default());
    encoder.write_all(data).unwrap();
    encoder.finish().unwrap()
}

fn frame(compressed: &[u8], compressed_len: i64, uncompressed_len: i64) -> Vec<u8> {
    let mut out = Vec::new();
    for v in [0x9E2A83C1_i64, 0x20000, compressed_len, uncompressed_len, compressed_len, uncompressed_len] {
        out.extend_from_slice(&v.to_le_bytes());
    }
    out.extend_from_slice(compressed);
    out
}

/// A chunk whose inflated content is a four-byte data length followed by `payload`.
fn chunk(payload: &[u8]) -> Vec<u8> {
    let mut inner = (payload.len() as i32).to_le_bytes().to_vec();
    inner.extend_from_slice(payload);
    let compressed = deflate(&inner);
    frame(&compressed, compressed.len() as i64, inner.len() as i64)
}

fn header(play_time: i32, visibility: u8, modded: i32) -> Vec<u8> {
    let mut out = Vec::new();
    out.extend_from_slice(&8_i32.to_le_bytes());
    out.extend_from_slice(&25_i32.to_le_bytes());
    out.extend_from_slice(&152331_i32.to_le_bytes());
    out.extend(string_bytes("Persistent_Level"));
    out.extend(string_bytes(PROPERTIES));
    out.extend(string_bytes("test_file"));
    out.extend_from_slice(&play_time.to_le_bytes());
    out.extend_from_slice(&637_000_000_000_000_000_i64.to_le_bytes());
    out.push(visibility);
    out.extend_from_slice(&3_i32.to_le_bytes());
    out.extend(string_bytes(""));
    out.extend_from_slice(&modded.to_le_bytes());
    out
}

fn component(name: &str) -> Vec<u8> {
    let mut out = 0_i32.to_le_bytes().to_vec();
    out.extend(string_bytes("/Script/FactoryGame.FGInventoryComponent"));
    out.extend(string_bytes("Persistent_Level"));
    out.extend(string_bytes(name));
    out.extend(string_bytes("Persistent_Level:PersistentLevel.Parent"));
    out
}

fn entity(type_path: &str) -> Vec<u8> {
    let mut out = 1_i32.to_le_bytes().to_vec();
    out.extend(string_bytes(type_path));
    out.extend(string_bytes("Persistent_Level"));
    out.extend(string_bytes("Persistent_Level:PersistentLevel.Thing_1"));
    out.extend_from_slice(&1_i32.to_le_bytes());
    for f in [0.0_f32, 0.0, 0.5, 1.0, 10.0, -20.0, 30.5, 1.0, 1.0, 2.0] {
        out.extend_from_slice(&f.to_le_bytes());
    }
    out.extend_from_slice(&0_i32.to_le_bytes());
    out
}

fn body_payload(count: u32, objects: &[Vec<u8>]) -> Vec<u8> {
    let mut out = count.to_le_bytes().to_vec();
    for o in objects {
        out.extend_from_slice(o);
    }
    out
}

fn sample_objects() -> Vec<Vec<u8>> {
    vec![
        entity("/Script/FactoryGame.FGFoliageRemoval"),
        component("Persistent_Level:PersistentLevel.Parent.Inventory"),
        entity("/Game/FactoryGame/Buildable/Build_Foundation.Build_Foundation_C"),
    ]
}

#[test]
fn parse_single_chunk_save() {
    let mut data = header(3600, 1, 1);
    data.extend(chunk(&body_payload(3, &sample_objects())));
    let save = SaveFile::parse(&data).unwrap();
    assert_eq!(save.save_header, 8);
    assert_eq!(save.save_version, 25);
    assert_eq!(save.build_version, 152331);
    assert_eq!(save.world_type, "Persistent_Level");
    assert_eq!(save.world_properties.start_loc, "Grass Fields");
    assert_eq!(save.world_properties.session_name, "test_file");
    assert_eq!(save.world_properties.visibility, SessionVisiblity::SvPrivate);
    assert_eq!(save.session_name, "test_file");
    assert_eq!(save.play_time, 3600);
    assert_eq!(save.save_date, SaveDate { ticks: 637_000_000_000_000_000 });
    assert_eq!(save.session_visibility, SessionVisiblity::SvFriendsOnly);
    assert_eq!(save.editor_object_version, 3);
    assert_eq!(save.mod_meta_data, "");
    assert!(save.is_modded_save);
    assert_eq!(save.save_objects.len(), 3);
    match &save.save_objects[0] {
        SaveObject::SaveEntity {
            type_path,
            need_transform,
            rotation,
            position,
            scale,
            was_placed_in_level,
            ..
        } => {
            assert_eq!(type_path, "/Script/FactoryGame.FGFoliageRemoval");
            assert!(*need_transform);
            assert_eq!(f32::from_bits(rotation.z), 0.5);
            assert_eq!(f32::from_bits(rotation.w), 1.0);
            assert_eq!(f32::from_bits(position.x), 10.0);
            assert_eq!(f32::from_bits(position.y), -20.0);
            assert_eq!(f32::from_bits(position.z), 30.5);
            assert_eq!(f32::from_bits(scale.z), 2.0);
            assert!(!*was_placed_in_level);
        }
        other => panic!("expected an entity, got {:?}", matches!(other, SaveObject::SaveComponent { .. })),
    }
    match &save.save_objects[1] {
        SaveObject::SaveComponent { instance_name, parent_entity_name, .. } => {
            assert_eq!(instance_name, "Persistent_Level:PersistentLevel.Parent.Inventory");
            assert_eq!(parent_entity_name, "Persistent_Level:PersistentLevel.Parent");
        }
        _ => panic!("expected a component"),
    }
}

#[test]
fn objects_spanning_several_chunks() {
    let payload = body_payload(3, &sample_objects());
    let mut data = header(0, 0, 0);
    // Cut the payload in the middle of fields.
    data.extend(chunk(&payload[..3]));
    data.extend(chunk(&payload[3..70]));
    data.extend(chunk(&[]));
    data.extend(chunk(&payload[70..]));
    let save = SaveFile::parse(&data).unwrap();
    assert_eq!(save.save_objects.len(), 3);
    assert!(!save.is_modded_save);
    assert_eq!(save.session_visibility, SessionVisiblity::SvPrivate);
    match &save.save_objects[2] {
        SaveObject::SaveEntity { type_path, .. } => {
            assert_eq!(type_path, "/Game/FactoryGame/Buildable/Build_Foundation.Build_Foundation_C")
        }
        _ => panic!("expected an entity"),
    }
}

#[test]
fn object_count_matches_announced_count() {
    for count in 0..4_u32 {
        let objects: Vec<Vec<u8>> = sample_objects().into_iter().take(count as usize).collect();
        let mut data = header(1, 2, 0);
        data.extend(chunk(&body_payload(count, &objects)));
        let save = SaveFile::parse(&data).unwrap();
        assert_eq!(save.save_objects.len(), count as usize);
    }
}

#[test]
fn trailing_bytes_shorter_than_a_header_end_the_stream() {
    let mut data = header(1, 0, 0);
    data.extend(chunk(&body_payload(1, &[component("c")])));
    data.extend_from_slice(&[1, 2, 3, 4, 5]);
    assert_eq!(SaveFile::parse(&data).unwrap().save_objects.len(), 1);
}

#[test]
fn empty_input_fails() {
    assert!(matches!(SaveFile::parse(&[]), Err(ParseError::UnexpectedEnd)));
}

#[test]
fn truncated_header_fails() {
    let data = header(1, 0, 0);
    assert!(matches!(SaveFile::parse(&data[..20]), Err(ParseError::UnexpectedEnd)));
    // Header complete but no compressed body.
    assert!(matches!(SaveFile::parse(&data), Err(ParseError::UnexpectedEnd)));
}

#[test]
fn negative_play_time_fails() {
    let mut data = header(-5, 0, 0);
    data.extend(chunk(&body_payload(0, &[])));
    assert!(matches!(SaveFile::parse(&data), Err(ParseError::NegativeDuration)));
}

#[test]
fn unknown_visibility_byte_fails() {
    let mut data = header(5, 7, 0);
    data.extend(chunk(&body_payload(0, &[])));
    assert!(matches!(SaveFile::parse(&data), Err(ParseError::UnknownVisibility)));
}

#[test]
fn fewer_objects_than_announced_fails() {
    let mut data = header(5, 0, 0);
    data.extend(chunk(&body_payload(3, &[component("c")])));
    assert!(matches!(SaveFile::parse(&data), Err(ParseError::UnexpectedEnd)));
}

#[test]
fn unknown_object_tag_fails() {
    let mut data = header(5, 0, 0);
    data.extend(chunk(&body_payload(1, &[5_i32.to_le_bytes().to_vec()])));
    assert!(matches!(SaveFile::parse(&data), Err(ParseError::UnknownObjectTag(5))));
}

#[test]
fn corrupt_chunk_fails_to_inflate() {
    let mut data = header(5, 0, 0);
    let garbage = [0x12_u8, 0x34, 0x56, 0x78, 0x9A];
    data.extend(frame(&garbage, garbage.len() as i64, 100));
    assert!(matches!(SaveFile::parse(&data), Err(ParseError::InflateError)));
}

#[test]
fn corrupt_later_chunk_fails_when_reached() {
    let payload = body_payload(1, &[component("c")]);
    let mut data = header(5, 0, 0);
    data.extend(chunk(&payload[..10]));
    let garbage = [0xFF_u8; 8];
    data.extend(frame(&garbage, garbage.len() as i64, 100));
    assert!(matches!(SaveFile::parse(&data), Err(ParseError::InflateError)));
}

#[test]
fn negative_compressed_length_fails() {
    let mut data = header(5, 0, 0);
    data.extend(frame(&[], -1, 0));
    assert!(matches!(SaveFile::parse(&data), Err(ParseError::IoError)));
}

#[test]
fn chunk_without_data_length_fails() {
    let mut data = header(5, 0, 0);
    let compressed = deflate(&[1, 2]);
    data.extend(frame(&compressed, compressed.len() as i64, 2));
    assert!(matches!(SaveFile::parse(&data), Err(ParseError::UnexpectedEnd)));
}

#[test]
fn chunked_reader_concatenates_payloads() {
    let mut data = chunk(b"hello ");
    data.extend(chunk(b"world"));
    let mut reader = ChunkedZLibReader::new(ByteReader::new(&data)).unwrap();
    assert_eq!(reader.read_bytes(8).unwrap(), b"hello wo".to_vec());
    assert_eq!(reader.read_bytes(3).unwrap(), b"rld".to_vec());
    assert_eq!(reader.read_bytes(1), Err(ParseError::UnexpectedEnd));
}

#[test]
fn chunked_reader_needs_a_first_chunk() {
    assert!(matches!(ChunkedZLibReader::new(ByteReader::new(&[])), Err(ParseError::UnexpectedEnd)));
    assert!(matches!(ChunkedZLibReader::new(ByteReader::new(&[0; 47])), Err(ParseError::UnexpectedEnd)));
}

#[test]
fn object_parse_from_plain_bytes() {
    let bytes = component("Inventory");
    let object = SaveObject::parse(&mut ByteReader::new(&bytes)).unwrap();
    match object {
        SaveObject::SaveComponent { type_path, root_object, instance_name, .. } => {
            assert_eq!(type_path, "/Script/FactoryGame.FGInventoryComponent");
            assert_eq!(root_object, "Persistent_Level");
            assert_eq!(instance_name, "Inventory");
        }
        _ => panic!("expected a component"),
    }
    let bytes = (-1_i32).to_le_bytes();
    assert!(matches!(
        SaveObject::parse(&mut ByteReader::new(&bytes)),
        Err(ParseError::UnknownObjectTag(-1))
    ));
    let bytes = entity("/Script/X");
    assert!(matches!(
        SaveObject::parse(&mut ByteReader::new(&bytes[..bytes.len() - 1])),
        Err(ParseError::UnexpectedEnd)
    ));
}

#[test]
fn vectors_read_little_endian_floats() {
    let mut bytes = Vec::new();
    for f in [1.5_f32, -2.0, 3.25, 4.0] {
        bytes.extend_from_slice(&f.to_le_bytes());
    }
    let v2 = Vector2::parse(&mut ByteReader::new(&bytes)).unwrap();
    assert_eq!((f32::from_bits(v2.x), f32::from_bits(v2.y)), (1.5, -2.0));
    let v3 = Vector3::parse(&mut ByteReader::new(&bytes)).unwrap();
    assert_eq!(f32::from_bits(v3.z), 3.25);
    let v4 = Vector4::parse(&mut ByteReader::new(&bytes)).unwrap();
    assert_eq!(f32::from_bits(v4.w), 4.0);
    assert!(matches!(Vector4::parse(&mut ByteReader::new(&bytes[..15])), Err(ParseError::UnexpectedEnd)));
}

#[test]
fn default_save_is_empty() {
    let save = SaveFile::default();
    assert_eq!(save.save_header, 0);
    assert_eq!(save.world_type, "");
    assert_eq!(save.play_time, 0);
    assert_eq!(save.save_date, SaveDate { ticks: 0 });
    assert_eq!(save.session_visibility, SessionVisiblity::SvPrivate);
    assert!(save.save_objects.is_empty());
}

#[test]
fn parse_never_panics_on_damaged_input() {
    let mut data = header(42, 0, 0);
    let payload = body_payload(3, &sample_objects());
    data.extend(chunk(&payload[..50]));
    data.extend(chunk(&payload[50..]));
    assert!(SaveFile::parse(&data).is_ok());
    for len in 0..data.len() {
        let _ = SaveFile::parse(&data[..len]);
    }
    for pos in 0..data.len() {
        for value in [0x00_u8, 0x7F, 0x80, 0xFF] {
            let mut damaged = data.clone();
            damaged[pos] = value;
            let _ = SaveFile::parse(&damaged);
        }
    }
}

#[test]
fn stream_read_returns_what_is_left_then_nothing() {
    let mut data = chunk(b"abc");
    data.extend(chunk(b"de"));
    data.extend_from_slice(&[9, 9, 9]);
    let mut reader = ChunkedZLibReader::new(ByteReader::new(&data)).unwrap();
    assert_eq!(reader.read(2).unwrap(), b"ab".to_vec());
    assert_eq!(reader.read(10).unwrap(), b"cde".to_vec());
    assert_eq!(reader.read(10).unwrap(), Vec::<u8>::new());
    assert_eq!(reader.read(1).unwrap(), Vec::<u8>::new());
    assert_eq!(reader.read(0).unwrap(), Vec::<u8>::new());
}

#[test]
fn stream_read_crosses_empty_chunks() {
    let mut data = chunk(b"a");
    data.extend(chunk(b""));
    data.extend(chunk(b"bc"));
    let mut reader = ChunkedZLibReader::new(ByteReader::new(&data)).unwrap();
    assert_eq!(reader.read(1).unwrap(), b"a".to_vec());
    assert_eq!(reader.read(1).unwrap(), b"b".to_vec());
    assert_eq!(reader.read(5).unwrap(), b"c".to_vec());
}

#[test]
fn stream_read_reports_a_broken_chunk() {
    let mut data = chunk(b"abc");
    let garbage = [0xFF_u8; 8];
    data.extend(frame(&garbage, garbage.len() as i64, 100));
    let mut reader = ChunkedZLibReader::new(ByteReader::new(&data)).unwrap();
    assert_eq!(reader.read(3).unwrap(), b"abc".to_vec());
    assert_eq!(reader.read(1), Err(ParseError::InflateError));
    assert_eq!(reader.read(1), Err(ParseError::InflateError));
    let mut data = chunk(b"abc");
    data.extend(frame(&[], -4, 0));
    let mut reader = ChunkedZLibReader::new(ByteReader::new(&data)).unwrap();
    assert_eq!(reader.read(5), Err(ParseError::IoError));
}

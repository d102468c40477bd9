use window_relative_system::WindowRelativeProfileData;
use window_relative_system::WindowRelativeProfileDataConvertible;

struct RawBytes(Vec<u8>);
impl WindowRelativeProfileDataConvertible for RawBytes {
    fn to_bytes(self) -> Vec<u8> {
        self.0
    }
    fn from_bytes(bytes: &[u8]) -> Option<Self> {
        Some(RawBytes(bytes.to_vec()))
    }
    fn lemma_round_trip(self) {}
}

struct EmptyBytes;
impl WindowRelativeProfileDataConvertible for EmptyBytes {
    fn to_bytes(self) -> Vec<u8> {
        Vec::new()
    }
    fn from_bytes(_bytes: &[u8]) -> Option<Self> {
        Some(EmptyBytes)
    }
    fn lemma_round_trip(self) {}
}

/// A float stored through its big-endian byte representation, as a host type.
struct F64Data(f64);
impl WindowRelativeProfileDataConvertible for F64Data {
    fn to_bytes(self) -> Vec<u8> {
        self.0.to_be_bytes().to_vec()
    }
    fn from_bytes(bytes: &[u8]) -> Option<Self> {
        if bytes.len() >= 8 {
            let mut target: [u8; 8] = [0u8; 8];
            target.copy_from_slice(&bytes[..8]);
            Some(F64Data(f64::from_be_bytes(target)))
        } else {
            None
        }
    }
    fn lemma_round_trip(self) {}
}

#[test]
fn set_and_get_bool_roundtrip() {
    let mut data: WindowRelativeProfileData = WindowRelativeProfileData::new();
    data.set("flag", true);
    assert_eq!(data.get("flag"), Some(true));
    data.set("flag", false);
    assert_eq!(data.get("flag"), Some(false));
}

#[test]
fn missing_key_returns_none() {
    let mut data: WindowRelativeProfileData = WindowRelativeProfileData::new();
    data.set("present", 123u32);
    assert!(data.get::<u32>("not-present").is_none());
}

#[test]
fn string_conversion() {
    let mut data: WindowRelativeProfileData = WindowRelativeProfileData::new();
    data.set("greeting", String::from("hello world"));
    assert_eq!(data.get("greeting"), Some(String::from("hello world")));

    let invalid: RawBytes = RawBytes(vec![0xff, 0xfe, 0xfd]);
    data.set("bad_utf8", invalid);
    assert!(data.get::<String>("bad_utf8").is_none());
}

#[test]
fn numeric_conversion() {
    let mut data: WindowRelativeProfileData = WindowRelativeProfileData::new();
    data.set("u8", 0x12u8);
    data.set("u16", 0x1234u16);
    data.set("u32", 0x12345678u32);
    data.set("i64", -42i64);
    data.set("f64", F64Data(3.14159f64));
    assert_eq!(data.get("u8"), Some(0x12u8));
    assert_eq!(data.get("u16"), Some(0x1234u16));
    assert_eq!(data.get("u32"), Some(0x12345678u32));
    assert_eq!(data.get("i64"), Some(-42i64));
    assert_eq!(data.get::<F64Data>("f64").map(|raw| raw.0), Some(3.14159f64));
}

#[test]
fn vec_conversion() {
    let mut data: WindowRelativeProfileData = WindowRelativeProfileData::new();
    let v: Vec<String> = vec!["a".to_string(), "bb".to_string(), "ccc".to_string()];
    data.set("strings", v);

    assert_eq!(
        data.get::<Vec<String>>("strings"),
        Some(vec!["a".to_string(), "bb".to_string(), "ccc".to_string()])
    );
}

#[test]
fn raw_bytes_conversion() {
    let mut data: WindowRelativeProfileData = WindowRelativeProfileData::new();
    let payload: Vec<u8> = vec![0xde, 0xad, 0xbe, 0xef];
    data.set("payload", RawBytes(payload.clone()));
    assert_eq!(data.get::<RawBytes>("payload").map(|raw| raw.0), Some(payload));
}

#[test]
fn setting_overwrites() {
    let mut data: WindowRelativeProfileData = WindowRelativeProfileData::new();
    data.set("one", 1i32);
    data.set("two", 2i32);
    data.set("three", 3i32);
    data.set("two", 22i32);

    assert_eq!(data.get::<i32>("one"), Some(1i32));
    assert_eq!(data.get::<i32>("three"), Some(3i32));
    assert_eq!(data.get::<i32>("two"), Some(22i32));
}

#[test]
fn numeric_encoding_is_big_endian() {
    assert_eq!(
        WindowRelativeProfileDataConvertible::to_bytes(0x1234u16),
        vec![0x12u8, 0x34u8]
    );
    assert_eq!(
        WindowRelativeProfileDataConvertible::to_bytes(0x01020304u32),
        vec![1u8, 2, 3, 4]
    );
    assert_eq!(WindowRelativeProfileDataConvertible::to_bytes(-1i16), vec![0xffu8, 0xff]);
    assert_eq!(<i16 as WindowRelativeProfileDataConvertible>::from_bytes(&[0xff, 0xff]), Some(-1i16));
    assert_eq!(<u8 as WindowRelativeProfileDataConvertible>::from_bytes(&[7]), Some(7u8));
    assert_eq!(
        <i128 as WindowRelativeProfileDataConvertible>::from_bytes(
            &WindowRelativeProfileDataConvertible::to_bytes(-123456789i128)
        ),
        Some(-123456789i128)
    );
    assert_eq!(
        <u128 as WindowRelativeProfileDataConvertible>::from_bytes(
            &WindowRelativeProfileDataConvertible::to_bytes(u128::MAX)
        ),
        Some(u128::MAX)
    );
}

#[test]
fn truncated_buffers_decode_to_none() {
    assert_eq!(<u32 as WindowRelativeProfileDataConvertible>::from_bytes(&[1, 2]), None);
    assert_eq!(<bool as WindowRelativeProfileDataConvertible>::from_bytes(&[]), None);
    assert_eq!(<Vec<u8> as WindowRelativeProfileDataConvertible>::from_bytes(&[0]), None);
    // One element announced, its two-byte length prefix cut short.
    assert_eq!(
        <Vec<u8> as WindowRelativeProfileDataConvertible>::from_bytes(&[0, 1, 0]),
        None
    );
    // One element announced with five bytes, but only two bytes follow.
    assert_eq!(
        <Vec<u8> as WindowRelativeProfileDataConvertible>::from_bytes(&[0, 1, 0, 5, 9, 9]),
        None
    );
}

#[test]
fn vec_encoding_layout() {
    let v: Vec<u16> = vec![0x0102u16, 0x0304u16];
    let bytes = WindowRelativeProfileDataConvertible::to_bytes(v);
    assert_eq!(bytes, vec![0u8, 2, 0, 2, 1, 2, 0, 2, 3, 4]);
    assert_eq!(
        <Vec<u16> as WindowRelativeProfileDataConvertible>::from_bytes(&bytes),
        Some(vec![0x0102u16, 0x0304u16])
    );
    // Trailing bytes after the announced elements are ignored.
    assert_eq!(
        <Vec<u16> as WindowRelativeProfileDataConvertible>::from_bytes(&[0, 1, 0, 2, 1, 2, 9, 9]),
        Some(vec![0x0102u16])
    );
}

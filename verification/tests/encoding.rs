use stubnet::encoding::{SliceReader, write_u8, write_u32, write_u64, write_size, write_bytes};
use stubnet::errors::VMError;
use stubnet::shortid::{ShortID, Transform, SHORTID_LEN};
use stubnet::value::SignedInteger;

#[test]
fn write_then_read_round_trip() {
    let mut buf: Vec<u8> = Vec::new();
    write_u8(0x7f, &mut buf);
    write_u32(0xdead_beef, &mut buf);
    write_u64(0x0102_0304_0506_0708, &mut buf);
    write_size(513, &mut buf);
    write_bytes(&[9, 8, 7], &mut buf);
    let parsed = SliceReader::parse(buf.as_slice(), |mut r: SliceReader| {
        let a = r.read_u8()?;
        let b = r.read_u32()?;
        let c = r.read_u64()?;
        let d = r.read_size()?;
        let trailing = r.skip_trailing_bytes();
        Ok(((a, b, c, d, trailing), r))
    })
    .unwrap();
    assert_eq!(parsed, (0x7f, 0xdead_beef, 0x0102_0304_0506_0708, 513, 3));
}

#[test]
fn parse_reports_trailing_bytes() {
    let data = [1u8, 2, 3];
    let r = SliceReader::parse(&data[..], |mut r: SliceReader| {
        let a = r.read_u8()?;
        Ok((a, r))
    });
    assert_eq!(r, Err(VMError::TrailingBytes));
}

#[test]
fn read_past_end_is_format_error() {
    let data = [1u8, 2, 3];
    let r = SliceReader::parse(&data[..], |mut r: SliceReader| {
        let a = r.read_u32()?;
        Ok((a, r))
    });
    assert_eq!(r, Err(VMError::FormatError));
}

#[test]
fn read_fixed_width_strings() {
    let mut buf: Vec<u8> = Vec::new();
    write_bytes(&[0xaa; 32], &mut buf);
    write_bytes(&[0xbb; 64], &mut buf);
    let (h, s) = SliceReader::parse(buf.as_slice(), |mut r: SliceReader| {
        let h = r.read_u8x32()?;
        let s = r.read_u8x64()?;
        Ok(((h, s), r))
    })
    .unwrap();
    assert_eq!(h, [0xaa; 32]);
    assert_eq!(s, [0xbb; 64]);
}

#[test]
fn scan_ignores_trailing_partial_chunk() {
    // 13 bytes hold exactly two whole short ids.
    let bytes: Vec<u8> = (0u8..13u8).collect();
    let ids = ShortID::scan(bytes.as_slice());
    assert_eq!(ids.len(), 2);
    assert_eq!(SHORTID_LEN, 6);
    assert!(ShortID::at_position(0, bytes.as_slice()).is_some());
    assert!(ShortID::at_position(1, bytes.as_slice()).is_some());
    assert!(ShortID::at_position(2, bytes.as_slice()).is_none());
}

#[test]
fn short_id_bytes_round_trip() {
    let bytes = [1u8, 2, 3, 4, 5, 6, 7, 8, 9, 10, 11, 12];
    let ids = ShortID::scan(&bytes[..]);
    assert_eq!(ids[0].to_bytes(), [1, 2, 3, 4, 5, 6]);
    assert_eq!(ids[1].to_bytes(), [7, 8, 9, 10, 11, 12]);
}

#[test]
fn transform_depends_on_nonce_peer_and_txid() {
    let txid_a = [0x11u8; 32];
    let mut txid_b = [0x11u8; 32];
    txid_b[31] = 0x12;
    // Two txids sharing their first bytes must not share a short id.
    let t = Transform::new(7, &[1, 2, 3]);
    assert_ne!(t.apply(&txid_a).0, t.apply(&txid_b).0);
    // A different nonce gives an independent mapping.
    let t2 = Transform::new(8, &[1, 2, 3]);
    assert_ne!(t.apply(&txid_a).0, t2.apply(&txid_a).0);
    // A different peer gives an independent mapping.
    let t3 = Transform::new(7, &[1, 2, 4]);
    assert_ne!(t.apply(&txid_a).0, t3.apply(&txid_a).0);
    // The same inputs give the same short id.
    assert_eq!(t.apply(&txid_a).0, Transform::new(7, &[1, 2, 3]).apply(&txid_a).0);
}

#[test]
fn signed_integer_range() {
    assert_eq!(SignedInteger::from_u64(5).to_u64(), Some(5));
    assert_eq!(SignedInteger::from_u64(3).neg().to_u64(), None);
    let max = SignedInteger::from_u64(u64::MAX);
    assert!(max.add(SignedInteger::from_u64(1)).is_none());
    assert_eq!(
        SignedInteger::from_u64(2).add(SignedInteger::from_u64(3)).unwrap().to_u64(),
        Some(5)
    );
    assert_eq!(
        SignedInteger::from_u64(6).mul(SignedInteger::from_u64(7)).unwrap().to_u64(),
        Some(42)
    );
    assert!(max.mul(SignedInteger::from_u64(2)).is_none());
    assert_eq!(
        SignedInteger::from_u64(4).neg().mul(SignedInteger::from_u64(2).neg()).unwrap().to_u64(),
        Some(8)
    );
}

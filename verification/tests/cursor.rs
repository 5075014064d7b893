use byteio::cursor::Cursor;
use byteio::reader::Reader;
use byteio::writer::Writer;

#[test]
fn new_cursor_stands_at_the_start() {
    let cursor = Cursor::new(vec![1, 2, 3]);
    assert_eq!(cursor.position(), 0);
    assert_eq!(cursor.get_ref(), &vec![1, 2, 3]);
    assert_eq!(cursor.into_inner(), vec![1, 2, 3]);
}

#[test]
fn set_position_moves_and_keeps_the_bytes() {
    let mut cursor = Cursor::new(vec![1, 2, 3]);
    cursor.set_position(2);
    assert_eq!(cursor.position(), 2);
    cursor.set_position(7);
    assert_eq!(cursor.position(), 7);
    assert_eq!(cursor.get_ref(), &vec![1, 2, 3]);
}

#[test]
fn read_delivers_what_follows_the_position() {
    let mut cursor = Cursor::new(vec![10, 20, 30, 40, 50]);
    let mut buf = [0u8; 2];
    assert_eq!(cursor.read(&mut buf).unwrap(), 2);
    assert_eq!(buf, [10, 20]);
    assert_eq!(cursor.position(), 2);
    assert_eq!(cursor.read(&mut buf).unwrap(), 2);
    assert_eq!(buf, [30, 40]);
    assert_eq!(cursor.position(), 4);
    assert_eq!(cursor.read(&mut buf).unwrap(), 1);
    assert_eq!(buf, [50, 40]);
    assert_eq!(cursor.position(), 5);
    assert_eq!(cursor.read(&mut buf).unwrap(), 0);
    assert_eq!(buf, [50, 40]);
    assert_eq!(cursor.position(), 5);
    assert_eq!(cursor.get_ref(), &vec![10, 20, 30, 40, 50]);
}

#[test]
fn read_into_an_empty_buffer_delivers_nothing() {
    let mut cursor = Cursor::new(vec![10, 20]);
    let mut buf = [0u8; 0];
    assert_eq!(cursor.read(&mut buf).unwrap(), 0);
    assert_eq!(cursor.position(), 0);
}

#[test]
fn read_past_the_end_delivers_nothing_and_stays() {
    let mut cursor = Cursor::new(vec![10, 20]);
    cursor.set_position(9);
    let mut buf = [7u8; 4];
    assert_eq!(cursor.read(&mut buf).unwrap(), 0);
    assert_eq!(buf, [7, 7, 7, 7]);
    assert_eq!(cursor.position(), 9);
}

#[test]
fn write_at_the_end_appends() {
    let mut cursor = Cursor::new(vec![1, 2]);
    cursor.set_position(2);
    assert!(cursor.write_all(&[3, 4, 5]).is_ok());
    assert_eq!(cursor.position(), 5);
    assert_eq!(cursor.into_inner(), vec![1, 2, 3, 4, 5]);
}

#[test]
fn write_inside_overwrites() {
    let mut cursor = Cursor::new(vec![1, 2, 3, 4, 5]);
    cursor.set_position(1);
    assert!(cursor.write_all(&[8, 9]).is_ok());
    assert_eq!(cursor.position(), 3);
    assert_eq!(cursor.into_inner(), vec![1, 8, 9, 4, 5]);
}

#[test]
fn write_across_the_end_overwrites_and_appends() {
    let mut cursor = Cursor::new(vec![1, 2, 3]);
    cursor.set_position(2);
    assert!(cursor.write_all(&[7, 8, 9]).is_ok());
    assert_eq!(cursor.position(), 5);
    assert_eq!(cursor.into_inner(), vec![1, 2, 7, 8, 9]);
}

#[test]
fn write_past_the_end_fills_the_gap_with_zeros() {
    let mut cursor = Cursor::new(vec![1, 2]);
    cursor.set_position(4);
    assert!(cursor.write_all(&[9]).is_ok());
    assert_eq!(cursor.position(), 5);
    assert_eq!(cursor.into_inner(), vec![1, 2, 0, 0, 9]);
}

#[test]
fn write_of_nothing_keeps_the_position() {
    let mut cursor = Cursor::new(vec![1, 2]);
    cursor.set_position(1);
    assert!(cursor.write_all(&[]).is_ok());
    assert_eq!(cursor.position(), 1);
    assert_eq!(cursor.into_inner(), vec![1, 2]);
}

#[test]
fn write_of_nothing_past_the_end_fills_up_to_the_position() {
    let mut cursor = Cursor::new(vec![1]);
    cursor.set_position(3);
    assert!(cursor.write_all(&[]).is_ok());
    assert_eq!(cursor.position(), 3);
    assert_eq!(cursor.into_inner(), vec![1, 0, 0]);
}

#[test]
fn what_is_written_is_read_back() {
    let mut cursor = Cursor::new(vec![0xAA; 3]);
    cursor.set_position(1);
    assert!(cursor.write_all(&[1, 2, 3, 4]).is_ok());
    cursor.set_position(1);
    let mut buf = [0u8; 4];
    assert_eq!(cursor.read(&mut buf).unwrap(), 4);
    assert_eq!(buf, [1, 2, 3, 4]);
    assert_eq!(cursor.position(), 5);
}

#[test]
fn two_writes_are_one_write_of_both() {
    let mut one_by_one = Cursor::new(vec![9, 9, 9]);
    one_by_one.set_position(2);
    assert!(one_by_one.write_all(&[1, 2]).is_ok());
    assert!(one_by_one.write_all(&[3]).is_ok());
    let mut at_once = Cursor::new(vec![9, 9, 9]);
    at_once.set_position(2);
    assert!(at_once.write_all(&[1, 2, 3]).is_ok());
    assert_eq!(one_by_one.position(), at_once.position());
    assert_eq!(one_by_one.into_inner(), at_once.into_inner());
}

#[test]
fn vector_takes_writes_at_its_end() {
    let mut bytes: Vec<u8> = vec![0xFF];
    assert!(bytes.write_all(&[1, 2]).is_ok());
    assert!(bytes.write_be_u16(0x0304).is_ok());
    assert!(bytes.write_le_u32(0x0807_0605).is_ok());
    assert!(bytes.write_i8(-1).is_ok());
    assert_eq!(bytes, vec![0xFF, 1, 2, 3, 4, 5, 6, 7, 8, 0xFF]);
}

#[test]
fn written_integers_stand_in_the_bytes() {
    let mut cursor = Cursor::new(vec![0u8; 0]);
    assert!(cursor.write_u8(15).is_ok());
    assert!(cursor.write_i8(-43).is_ok());
    assert!(cursor.write_be_u16(64241).is_ok());
    assert!(cursor.write_le_u16(64241).is_ok());
    assert!(cursor.write_be_i16(-12234).is_ok());
    assert!(cursor.write_le_i16(-12234).is_ok());
    assert_eq!(cursor.position(), 10);
    assert_eq!(
        cursor.into_inner(),
        vec![0x0F, 0xD5, 0xFA, 0xF1, 0xF1, 0xFA, 0xD0, 0x36, 0x36, 0xD0]
    );
}

#[test]
fn written_wide_integers_stand_in_the_bytes() {
    let mut cursor = Cursor::new(vec![0u8; 0]);
    assert!(cursor.write_be_u32(4000000000).is_ok());
    assert!(cursor.write_le_u32(4000000000).is_ok());
    assert!(cursor.write_be_i32(-2100000000).is_ok());
    assert!(cursor.write_le_i32(-2100000000).is_ok());
    assert_eq!(cursor.position(), 16);
    assert_eq!(
        cursor.get_ref(),
        &vec![
            0xEE, 0x6B, 0x28, 0x00, 0x00, 0x28, 0x6B, 0xEE, 0x82, 0xD4, 0x8B, 0x00, 0x00, 0x8B,
            0xD4, 0x82
        ]
    );
    let mut cursor = Cursor::new(vec![0u8; 0]);
    assert!(cursor.write_be_u64(35754238465284).is_ok());
    assert!(cursor.write_le_u64(35754238465284).is_ok());
    assert!(cursor.write_be_i64(-5754238465284).is_ok());
    assert!(cursor.write_le_i64(-5754238465284).is_ok());
    assert_eq!(cursor.position(), 32);
    assert_eq!(
        cursor.get_ref(),
        &vec![
            0x00, 0x00, 0x20, 0x84, 0xAE, 0xAE, 0xD5, 0x04, 0x04, 0xD5, 0xAE, 0xAE, 0x84, 0x20,
            0x00, 0x00, 0xFF, 0xFF, 0xFA, 0xC4, 0x3C, 0xA9, 0x0A, 0xFC, 0xFC, 0x0A, 0xA9, 0x3C,
            0xC4, 0xFA, 0xFF, 0xFF
        ]
    );
}

#[test]
fn integers_are_read_from_given_bytes() {
    let mut cursor = Cursor::new(vec![
        0x0F, 0xD5, 0xFA, 0xF1, 0xF1, 0xFA, 0xD0, 0x36, 0x36, 0xD0, 0xEE, 0x6B, 0x28, 0x00, 0x00,
        0x28, 0x6B, 0xEE, 0x82, 0xD4, 0x8B, 0x00, 0x00, 0x8B, 0xD4, 0x82,
    ]);
    assert_eq!(cursor.read_unsigned_byte().unwrap(), 15);
    assert_eq!(cursor.read_signed_byte().unwrap(), -43);
    assert_eq!(cursor.read_unsigned_be_short().unwrap(), 64241);
    assert_eq!(cursor.read_unsigned_le_short().unwrap(), 64241);
    assert_eq!(cursor.read_signed_be_short().unwrap(), -12234);
    assert_eq!(cursor.read_signed_le_short().unwrap(), -12234);
    assert_eq!(cursor.read_unsigned_be_int().unwrap(), 4000000000);
    assert_eq!(cursor.read_unsigned_le_int().unwrap(), 4000000000);
    assert_eq!(cursor.read_signed_be_int().unwrap(), -2100000000);
    assert_eq!(cursor.read_signed_le_int().unwrap(), -2100000000);
    assert_eq!(cursor.position(), 26);
}

#[test]
fn wide_integers_are_read_from_given_bytes() {
    let mut cursor = Cursor::new(vec![
        0x00, 0x00, 0x20, 0x84, 0xAE, 0xAE, 0xD5, 0x04, 0x04, 0xD5, 0xAE, 0xAE, 0x84, 0x20, 0x00,
        0x00, 0xFF, 0xFF, 0xFA, 0xC4, 0x3C, 0xA9, 0x0A, 0xFC, 0xFC, 0x0A, 0xA9, 0x3C, 0xC4, 0xFA,
        0xFF, 0xFF,
    ]);
    assert_eq!(cursor.read_unsigned_be_long().unwrap(), 35754238465284);
    assert_eq!(cursor.read_unsigned_le_long().unwrap(), 35754238465284);
    assert_eq!(cursor.read_signed_be_long().unwrap(), -5754238465284);
    assert_eq!(cursor.read_signed_le_long().unwrap(), -5754238465284);
    assert_eq!(cursor.position(), 32);
}

#[test]
fn the_same_bytes_read_differently_in_each_order_and_sign() {
    let bytes = vec![0x80, 0x01];
    let mut cursor = Cursor::new(bytes.clone());
    assert_eq!(cursor.read_unsigned_be_short().unwrap(), 0x8001);
    cursor.set_position(0);
    assert_eq!(cursor.read_unsigned_le_short().unwrap(), 0x0180);
    cursor.set_position(0);
    assert_eq!(cursor.read_signed_be_short().unwrap(), -32767);
    cursor.set_position(0);
    assert_eq!(cursor.read_signed_le_short().unwrap(), 384);
}

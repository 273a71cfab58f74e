use pod::endian::Be16;
use pod::endian::Be32;
use pod::endian::Endian;
use pod::endian::Le16;
use pod::endian::Le32;
use pod::endian::Native16;
use pod::endian::Native32;
use pod::pod::as_bytes;
use pod::pod::from_bytes;
use pod::records::Data;
use pod::records::Packet;

#[test]
fn endian_correctness() {
    assert_eq!(as_bytes(&Le16::new(0x2055)), vec![0x55, 0x20]);
    assert_eq!(as_bytes(&Be32::new(0xdeadbeef)), vec![0xde, 0xad, 0xbe, 0xef]);

    let record = Data {
        a: 1,
        b: Le16::new(0x2055),
        c: Be32::new(0xdeadbeef),
    };
    assert_eq!(
        as_bytes(&record),
        vec![0x01, 0x55, 0x20, 0xde, 0xad, 0xbe, 0xef]
    );
}

#[test]
fn endian_wrappers_convert_back() {
    assert_eq!(Le16::new(0x1234).get(), 0x1234);
    assert_eq!(Be16::new(0x1234).get(), 0x1234);
    assert_eq!(Le32::new(0xcafebabe).get(), 0xcafebabe);
    assert_eq!(Be32::new(0xcafebabe).get(), 0xcafebabe);
    assert_eq!(as_bytes(&Le32::new(0x04030201)), vec![1, 2, 3, 4]);
    assert_eq!(as_bytes(&Be16::new(0x0102)), vec![1, 2]);

    assert_eq!(Le16::new(0xffff).get(), 0xffff);
    assert_eq!(as_bytes(&Be32::new(0xffffffff)), vec![0xff, 0xff, 0xff, 0xff]);
    assert_eq!(Le32::new(0).get(), 0);

    let le: Le32 = from_bytes(&vec![0xbe, 0xba, 0xfe, 0xca]).unwrap();
    assert_eq!(le.get(), 0xcafebabe);
    let be: Be16 = from_bytes(&vec![0x12, 0x34]).unwrap();
    assert_eq!(be.get(), 0x1234);
}

#[test]
fn native_wrappers_use_the_given_order() {
    let little = Native16::new(0x2055, Endian::Little);
    assert_eq!(as_bytes(&little), vec![0x55, 0x20]);
    assert_eq!(little.get(Endian::Little), 0x2055);

    let big = Native16::new(0x2055, Endian::Big);
    assert_eq!(as_bytes(&big), vec![0x20, 0x55]);
    assert_eq!(big.get(Endian::Big), 0x2055);

    let little32 = Native32::new(0xdeadbeef, Endian::Little);
    assert_eq!(as_bytes(&little32), vec![0xef, 0xbe, 0xad, 0xde]);
    assert_eq!(little32.get(Endian::Little), 0xdeadbeef);

    let big32 = Native32::new(0xdeadbeef, Endian::Big);
    assert_eq!(as_bytes(&big32), vec![0xde, 0xad, 0xbe, 0xef]);
    assert_eq!(big32.get(Endian::Big), 0xdeadbeef);
}

#[test]
fn packet_from_bytes_reconstructs_fields() {
    let bytes: Vec<u8> = vec![0x00, 0xff, 0xff, 0x01, 0x00, 0x00, 0x00, 0x00, 0x02];
    let p: Packet = from_bytes(&bytes).unwrap();
    assert_eq!(p.tag, 0);
    // all bits set reads the same in either host order
    assert_eq!(p.raw.get(Endian::Little), 0xffff);
    assert_eq!(p.raw.get(Endian::Big), 0xffff);
    assert_eq!(p.lo.get(), 1);
    assert_eq!(p.hi.get(), 2);

    assert_eq!(as_bytes(&p), bytes);

    let short: Vec<u8> = vec![0x00, 0xff, 0xff];
    assert!(from_bytes::<Packet>(&short).is_none());
}

use pod::buffer::Arr;
use pod::buffer::Buf;
use pod::endian::Be16;
use pod::endian::Be32;
use pod::endian::Endian;
use pod::endian::Le16;
use pod::endian::Native16;
use pod::endian::Native32;
use pod::pod::as_bytes;
use pod::pod::copy;
use pod::pod::from_bytes;
use pod::pod::from_ref;
use pod::pod::from_slice;
use pod::pod::map_copy;
use pod::pod::merge_copy;
use pod::pod::try_map_copy;
use pod::pod::try_merge_copy;
use pod::pod::uninitialized;
use pod::pod::zeroed;
use pod::records::Data;

#[test]
fn test_map() {
    let zero = Native16::new(0, Endian::Little);
    let b0: Buf<Native16> = Buf::from_value(0, &zero);

    // a smaller target: the strict forms refuse, the lenient read succeeds
    assert!(b0.map::<u8>().is_none());
    assert!(!Buf::from_value(0, &zero).map_mut(&9u8));
    assert!(map_copy::<Native16, u8>(&zero).is_none());
    assert!(b0.try_map::<u8>().unwrap() == 0);
    let mut bm: Buf<Native16> = Buf::from_value(0, &zero);
    assert!(bm.try_map_mut(&0u8));
    assert_eq!(bm.value().get(Endian::Little), 0);
    assert!(Buf::from_value(0, &zero).map_box::<u8>().is_err());

    // a larger target: every form refuses
    assert!(b0.map::<Native32>().is_none());
    assert!(!Buf::from_value(0, &zero).map_mut(&Native32::new(0, Endian::Little)));
    assert!(map_copy::<Native16, Native32>(&zero).is_none());
    assert!(b0.try_map::<Native32>().is_none());
    let mut bm32: Buf<Native16> = Buf::from_value(0, &zero);
    assert!(!bm32.try_map_mut(&Native32::new(0, Endian::Little)));
    assert!(Buf::from_value(0, &zero).map_box::<Native32>().is_err());

    // a same-size target at an aligned address: every form succeeds
    let ff = Native16::new(0xff, Endian::Little);
    let bf: Buf<Native16> = Buf::from_value(4, &ff);
    assert_eq!(bf.map::<Le16>().unwrap().get(), 0xff);
    let mut bf2: Buf<Native16> = Buf::from_value(4, &ff);
    assert!(bf2.map_mut(&Le16::new(0xff)));
    assert_eq!(bf2.value().get(Endian::Little), 0xff);
    assert_eq!(map_copy::<Native16, Le16>(&ff).unwrap().get(), 0xff);
    assert_eq!(bf.try_map::<Le16>().unwrap().get(), 0xff);
    let mut bf3: Buf<Native16> = Buf::from_value(4, &ff);
    assert!(bf3.try_map_mut(&Le16::new(0xff)));
    assert_eq!(
        Buf::from_value(4, &ff).map_box::<Le16>().ok().unwrap().value().get(),
        0xff
    );

    // two bytes at an odd address: misaligned for a native word
    let un = Le16::new(0x0101);
    let bu: Buf<Le16> = Buf::from_value(1, &un);
    assert!(bu.map::<Native16>().is_none());
    let mut bu2: Buf<Le16> = Buf::from_value(1, &un);
    assert!(!bu2.map_mut(&Native16::new(7, Endian::Little)));
    assert_eq!(
        map_copy::<Le16, Native16>(&un).unwrap().get(Endian::Little),
        0x0101
    );
    assert!(bu.try_map::<Native16>().is_none());
    let mut bu3: Buf<Le16> = Buf::from_value(1, &un);
    assert!(!bu3.try_map_mut(&Native16::new(7, Endian::Little)));
}

#[test]
fn size_invariant_strict_conversions() {
    // strict view and copy succeed exactly when the sizes are equal,
    // including for the type itself
    let w = Le16::new(0xabcd);
    assert!(map_copy::<Le16, Le16>(&w).is_some());
    assert!(map_copy::<Le16, Be16>(&w).is_some());
    assert!(map_copy::<Le16, Be32>(&w).is_none());
    assert!(map_copy::<Le16, u8>(&w).is_none());

    let b: Buf<Le16> = Buf::from_value(0, &w);
    assert!(b.map::<Le16>().is_some());
    assert!(b.map::<Be16>().is_some());
    assert!(b.map::<Be32>().is_none());
    assert!(b.map::<u8>().is_none());

    let d = Be32::new(0x11223344);
    assert!(map_copy::<Be32, Le16>(&d).is_none());
    assert!(try_map_copy::<Be32, Le16>(&d).is_some());
    assert!(try_map_copy::<Le16, Be32>(&w).is_none());
}

#[test]
fn alignment_invariant() {
    // same size, misaligned address: the borrowing view fails, the copy
    // succeeds regardless
    let w = Le16::new(0x0102);
    let misaligned: Buf<Le16> = Buf::from_value(3, &w);
    assert!(misaligned.map::<Native16>().is_none());
    assert!(misaligned.map::<Be16>().is_some());
    assert_eq!(
        map_copy::<Le16, Native16>(&w).unwrap().get(Endian::Little),
        0x0102
    );

    let aligned: Buf<Le16> = Buf::from_value(8, &w);
    assert!(aligned.map::<Native16>().is_some());
}

#[test]
fn split_then_merge_reproduces_image() {
    // split a four-byte value into bytes, merge the pieces back, and the
    // byte image comes back exactly
    let v = Be32::new(0xdeadbeef);
    let b: Buf<Be32> = Buf::from_value(16, &v);
    let image = b.byte_image();
    let parts: Vec<u8> = b.split::<u8>().unwrap();
    assert_eq!(parts, vec![0xde, 0xad, 0xbe, 0xef]);

    let mut run: Arr<u8> = Arr::new(16);
    for p in &parts {
        run.push(p);
    }
    assert_eq!(run.byte_image(), image);
    let back: Be32 = run.merge::<Be32>().unwrap();
    assert_eq!(back.get(), 0xdeadbeef);
}

#[test]
fn split_variants() {
    let v = Be32::new(0x01020304);
    let b: Buf<Be32> = Buf::from_value(4, &v);
    // an exact fit splits; a non-multiple is refused strictly but kept
    // leniently as the whole elements that fit
    assert!(b.split::<Le16>().is_some());
    assert_eq!(b.split::<Le16>().unwrap().len(), 2);
    assert_eq!(b.try_split::<Le16>().len(), 2);

    let d = Data {
        a: 7,
        b: Le16::new(1),
        c: Be32::new(2),
    };
    let bd: Buf<Data> = Buf::from_value(0, &d);
    assert!(bd.split::<Le16>().is_none());
    assert_eq!(bd.try_split::<Le16>().len(), 3);
    assert_eq!(bd.try_split::<u8>().len(), 7);

    // misaligned: the strict split refuses, the lenient one is empty
    let bd1: Buf<Data> = Buf::from_value(1, &d);
    assert!(bd1.split::<Native16>().is_none());
    assert_eq!(bd1.try_split::<Native16>().len(), 0);

    // writing one element through the split view
    let mut bw: Buf<Be32> = Buf::from_value(4, &v);
    assert!(bw.split_mut::<u8>(0, &0x99u8));
    assert_eq!(bw.byte_image(), vec![0x99, 0x02, 0x03, 0x04]);
    assert!(!bw.split_mut::<u8>(4, &0x99u8));
    let mut bt: Buf<Data> = Buf::from_value(0, &d);
    assert!(bt.try_split_mut::<Le16>(0, &Le16::new(0xffee)));
    assert_eq!(bt.byte_image()[0], 0xee);
    assert_eq!(bt.byte_image()[1], 0xff);
    assert!(!bt.try_split_mut::<Le16>(3, &Le16::new(0)));
}

#[test]
fn box_conversions_return_original_on_refusal() {
    let v = Be32::new(5);
    let b: Buf<Be32> = Buf::from_value(8, &v);
    let kept: Buf<Be32> = b.map_box::<Native32>().ok().unwrap().map_box::<Be32>().ok().unwrap();
    let refused = kept.map_box::<Native16>();
    assert!(refused.is_err());
    let original = refused.err().unwrap();
    assert_eq!(original.addr(), 8);
    assert_eq!(original.value().get(), 5);

    let arr: Arr<u8> = original.split_box::<u8>().ok().unwrap();
    assert_eq!(arr.count(), 4);
    assert_eq!(arr.at(0), 0);
    assert_eq!(arr.at(3), 5);
    let back: Buf<Be32> = arr.merge_box::<Be32>().ok().unwrap();
    assert_eq!(back.value().get(), 5);
}

#[test]
fn slice_conversions() {
    let mut run: Arr<Le16> = Arr::new(0);
    run.push(&Le16::new(0x2211));
    run.push(&Le16::new(0x4433));
    assert_eq!(run.count(), 2);
    assert_eq!(run.byte_len(), 4);
    assert_eq!(run.at(1).get(), 0x4433);
    assert_eq!(run.to_vec().len(), 2);

    // the whole run viewed as one value, strictly and leniently
    assert_eq!(run.merge::<Be32>().unwrap().get(), 0x11223344);
    assert_eq!(run.try_merge::<Native16>().unwrap().get(Endian::Little), 0x2211);
    assert!(run.merge::<Native16>().is_none());

    // the run re-typed element by element
    let words: Vec<Native16> = run.map_slice::<Native16>().unwrap();
    assert_eq!(words.len(), 2);
    assert_eq!(words[0].get(Endian::Little), 0x2211);
    assert_eq!(run.try_map_slice::<Be32>().len(), 1);

    // writing through re-typed views
    let mut wr: Arr<Le16> = Arr::new(0);
    wr.push(&Le16::new(0));
    wr.push(&Le16::new(0));
    assert!(wr.map_slice_mut::<Native16>(1, &Native16::new(0x0605, Endian::Little)));
    assert_eq!(wr.byte_image(), vec![0, 0, 0x05, 0x06]);
    assert!(!wr.map_slice_mut::<Native16>(2, &Native16::new(0, Endian::Little)));
    assert!(wr.try_map_slice_mut::<u8>(0, &0xaau8));
    assert_eq!(wr.byte_image(), vec![0xaa, 0, 0x05, 0x06]);
    assert!(wr.merge_mut::<Be32>(&Be32::new(0x01020304)));
    assert_eq!(wr.byte_image(), vec![1, 2, 3, 4]);
    assert!(wr.try_merge_mut::<Le16>(&Le16::new(0xbbaa)));
    assert_eq!(wr.byte_image(), vec![0xaa, 0xbb, 3, 4]);

    // whole-run ownership transfers
    let retagged: Arr<Native16> = wr.map_slice_box::<Native16>().ok().unwrap();
    assert_eq!(retagged.count(), 2);
    let values: Vec<Be16> = retagged.map_slice_vec::<Be16>().ok().unwrap();
    assert_eq!(values[0].get(), 0xaabb);

    let mut one: Arr<u8> = Arr::new(4);
    one.push(&1u8);
    one.push(&0u8);
    let word: Buf<Native16> = one.merge_box::<Native16>().ok().unwrap();
    assert_eq!(word.value().get(Endian::Little), 1);
    let bytes_again: Arr<u8> = word.into_bytes();
    assert_eq!(bytes_again.byte_image(), vec![1, 0]);
}

#[test]
fn merge_copy_variants() {
    let parts: Vec<Le16> = vec![Le16::new(0x2211), Le16::new(0x4433)];
    let merged: Be32 = merge_copy::<Le16, Be32>(&parts).unwrap();
    assert_eq!(merged.get(), 0x11223344);
    assert!(merge_copy::<Le16, Native16>(&parts).is_none());
    let first: Native16 = try_merge_copy::<Le16, Native16>(&parts).unwrap();
    assert_eq!(first.get(Endian::Little), 0x2211);
    let short: Vec<u8> = vec![1];
    assert!(try_merge_copy::<u8, Native16>(&short).is_none());
    assert_eq!(from_slice::<Be32, Le16>(&parts).unwrap().get(), 0x11223344);
}

#[test]
fn byte_constructors_and_escapes() {
    let bytes: Vec<u8> = vec![0x55, 0x20];
    let w: Le16 = from_bytes::<Le16>(&bytes).unwrap();
    assert_eq!(w.get(), 0x2055);
    let long: Vec<u8> = vec![0x55, 0x20, 0x00];
    assert!(from_bytes::<Le16>(&long).is_none());
    let short: Vec<u8> = vec![0x55];
    assert!(from_bytes::<Le16>(&short).is_none());

    let z: Be32 = zeroed();
    assert_eq!(z.get(), 0);
    assert_eq!(as_bytes(&z), vec![0, 0, 0, 0]);
    let u: Le16 = uninitialized();
    assert_eq!(u.get(), 0);

    let v = Be16::new(0x1234);
    let c: Be16 = copy(&v);
    assert_eq!(c.get(), 0x1234);
    let r: Be16 = from_ref::<Be16, Le16>(&Le16::new(0x3412)).unwrap();
    assert_eq!(r.get(), 0x1234);

    let zb: Buf<Native32> = Buf::alloc_zeroed(32);
    assert_eq!(zb.value().get(Endian::Big), 0);
    assert_eq!(zb.len(), 4);

    let mut sb: Buf<Le16> = Buf::from_value(2, &Le16::new(1));
    sb.store(&Le16::new(2));
    assert_eq!(sb.value().get(), 2);
}

#[test]
fn owned_decode_variants() {
    let v = Be32::new(0x0a0b0c0d);
    let bytes: Vec<u8> = Buf::from_value(0, &v).split_vec::<u8>().ok().unwrap();
    assert_eq!(bytes, vec![0x0a, 0x0b, 0x0c, 0x0d]);
    assert!(Buf::from_value(2, &Native16::new(1, Endian::Little))
        .split_vec::<Be32>()
        .is_err());

    let run: Arr<Le16> = Arr::from_values(0, &vec![Le16::new(0x0201), Le16::new(0x0403)]);
    assert_eq!(run.byte_image(), vec![1, 2, 3, 4]);
    let back: Vec<Le16> = run.to_vec();
    assert_eq!(back[0].get(), 0x0201);
    assert_eq!(back[1].get(), 0x0403);
    let all: Arr<u8> = run.into_bytes();
    assert_eq!(all.count(), 4);
}

#[test]
fn bytes_to_value_with_copy_fallback() {
    // in place when the byte run's address is already aligned: kept as is
    let mut aligned_run: Arr<u8> = Arr::new(2);
    aligned_run.push(&0x55u8);
    aligned_run.push(&0x20u8);
    let b: Buf<Native16> = Buf::from_byte_run(aligned_run, 8).ok().unwrap();
    assert_eq!(b.addr(), 2);
    assert_eq!(b.value().get(Endian::Little), 0x2055);

    // misaligned: copied into the fresh, correctly aligned allocation
    let mut odd_run: Arr<u8> = Arr::new(3);
    odd_run.push(&0x55u8);
    odd_run.push(&0x20u8);
    let c: Buf<Native16> = Buf::from_byte_run(odd_run, 8).ok().unwrap();
    assert_eq!(c.addr(), 8);
    assert_eq!(c.value().get(Endian::Little), 0x2055);

    // only a length mismatch is refused, and the bytes come back
    let mut short_run: Arr<u8> = Arr::new(0);
    short_run.push(&1u8);
    let refused = Buf::<Native16>::from_byte_run(short_run, 8);
    assert!(refused.is_err());
    assert_eq!(refused.err().unwrap().byte_image(), vec![1]);
}

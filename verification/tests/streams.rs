use pod::codec::Codable;
use pod::endian::Be32;
use pod::endian::Le16;
use pod::io::CodecError;
use pod::io::FaultSink;
use pod::io::FaultSource;
use pod::io::IoFault;
use pod::io::SliceSource;
use pod::io::Source;
use pod::io::VecSink;
use pod::io::read_pod;
use pod::io::read_pod_or_none;
use pod::io::write_pod;
use pod::records::Data;

#[test]
fn codable_forwards_and_unwraps() {
    let mut c = Codable::new(Le16::new(0x2055));
    assert_eq!(c.get().get(), 0x2055);
    c.set(Le16::new(0x0001));
    assert_eq!(c.into_inner().get(), 0x0001);
}

#[test]
fn encode_decode_round_trip() {
    let d = Data {
        a: 1,
        b: Le16::new(0x2055),
        c: Be32::new(0xdeadbeef),
    };
    let mut sink = VecSink::new();
    Codable::new(d).encode(&mut sink).unwrap();
    let bytes = sink.into_vec();
    assert_eq!(bytes.len(), 7);

    let mut source = SliceSource::new(bytes);
    let back: Data = Codable::<Data>::decode(&mut source).unwrap().into_inner();
    assert_eq!(back.a, 1);
    assert_eq!(back.b.get(), 0x2055);
    assert_eq!(back.c.get(), 0xdeadbeef);
}

#[test]
fn round_trip_leaves_trailing_bytes() {
    let mut sink = VecSink::new();
    write_pod(&mut sink, &Be32::new(7)).unwrap();
    let mut bytes = sink.into_vec();
    bytes.push(0xcc);
    bytes.push(0xdd);

    let mut source = SliceSource::new(bytes);
    let v: Be32 = read_pod(&mut source).unwrap();
    assert_eq!(v.get(), 7);
    let rest = source.read_upto(10).unwrap();
    assert_eq!(rest, vec![0xcc, 0xdd]);
}

#[test]
fn decode_reports_truncated() {
    // three bytes where seven are needed: the distinguished truncation
    let mut source = SliceSource::new(vec![1, 2, 3]);
    let res = Codable::<Data>::decode(&mut source);
    assert_eq!(res.err().unwrap(), CodecError::Truncated);
    // nothing beyond what was available was consumed
    assert_eq!(source.read_upto(10).unwrap(), Vec::<u8>::new());

    let mut empty = SliceSource::new(Vec::new());
    assert_eq!(
        read_pod::<Le16, SliceSource>(&mut empty).err().unwrap(),
        CodecError::Truncated
    );
}

#[test]
fn read_or_none_distinguishes_end_from_cut() {
    let mut empty = SliceSource::new(Vec::new());
    assert!(read_pod_or_none::<Le16, SliceSource>(&mut empty).unwrap().is_none());

    let mut whole = SliceSource::new(vec![0x55, 0x20]);
    let v = read_pod_or_none::<Le16, SliceSource>(&mut whole).unwrap().unwrap();
    assert_eq!(v.get(), 0x2055);

    let mut cut = SliceSource::new(vec![0x55]);
    assert_eq!(
        read_pod_or_none::<Le16, SliceSource>(&mut cut).err().unwrap(),
        CodecError::Truncated
    );
}

#[test]
fn stream_faults_pass_through_verbatim() {
    let fault = IoFault { code: 17 };
    let mut bad_sink = FaultSink { fault };
    let res = Codable::new(Be32::new(1)).encode(&mut bad_sink);
    assert_eq!(res.err().unwrap(), CodecError::Underlying(IoFault { code: 17 }));

    let mut bad_source = FaultSource { fault: IoFault { code: 3 } };
    let res = Codable::<Be32>::decode(&mut bad_source);
    assert_eq!(res.err().unwrap(), CodecError::Underlying(IoFault { code: 3 }));

    let res = write_pod(&mut FaultSink { fault }, &Le16::new(0));
    assert_eq!(res.err().unwrap(), CodecError::Underlying(IoFault { code: 17 }));
}

#[test]
fn sources_hand_out_bytes_in_order() {
    let mut s = SliceSource::new(vec![1, 2, 3, 4, 5]);
    assert_eq!(s.read_upto(2).unwrap(), vec![1, 2]);
    assert_eq!(s.read_upto(0).unwrap(), Vec::<u8>::new());
    assert_eq!(s.read_upto(9).unwrap(), vec![3, 4, 5]);
    assert_eq!(s.read_upto(1).unwrap(), Vec::<u8>::new());

    let first: Le16 = read_pod(&mut SliceSource::new(vec![9, 0, 1, 0])).unwrap();
    assert_eq!(first.get(), 9);
}

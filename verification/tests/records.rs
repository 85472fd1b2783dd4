use byte::ctx::{Delimiter, Endianess, Len, NONE};
use byte::{BytesExt, Empty, Error, Header, TryRead, TryWrite, BE, LE};

#[test]
fn header_round_trip() {
    let bytes = [0, 5, b'H', b'E', b'L', b'L', b'O', 0];

    let (header, size) = Header::try_read(&bytes, BE).unwrap();
    assert_eq!(header.name, "HELLO");
    assert_eq!(header.enabled, false);
    assert_eq!(size, 8);

    let mut write = [0xaau8; 8];
    assert_eq!(header.try_write(&mut write, BE), Ok(8));
    assert_eq!(write, bytes);

    let mut write = [0xaau8; 10];
    let mut offset = 1;
    write
        .write_with(&mut offset, Header { name: "HELLO", enabled: true }, LE)
        .unwrap();
    assert_eq!(offset, 9);
    assert_eq!(write, [0xaa, 5, 0, b'H', b'E', b'L', b'L', b'O', 0xff, 0xaa]);
    let mut offset = 1;
    let header: Header = write.read_with(&mut offset, LE).unwrap();
    assert_eq!(offset, 9);
    assert_eq!(header.name, "HELLO");
    assert_eq!(header.enabled, true);
}

#[test]
fn header_errors() {
    let bytes = [0, 5, b'H', b'E', b'L', b'L', b'O', 0];
    for end in 0..8 {
        assert!(matches!(Header::try_read(&bytes[..end], BE), Err(Error::Incomplete)));
    }
    // read in the other byte order the length is 0x0500
    assert!(matches!(Header::try_read(&bytes, LE), Err(Error::Incomplete)));
    let bad = [0, 2, 0xff, 0xff, 1];
    assert!(matches!(
        Header::try_read(&bad, BE),
        Err(Error::BadInput { err: "UTF8 Error" })
    ));
    let mut offset = 0;
    assert!(bad.read_with::<Header>(&mut offset, BE).is_err());
    assert_eq!(offset, 0);

    for room in 0..8 {
        let mut out = [0u8; 8];
        let header = Header { name: "HELLO", enabled: false };
        assert_eq!(header.try_write(&mut out[..room], BE), Err(Error::Incomplete));
    }
}

#[test]
fn header_length_is_cut_to_sixteen_bits() {
    let name = "x".repeat(0x1_0002);
    let mut out = vec![0u8; 0x1_0002 + 3];
    let header = Header { name: &name, enabled: true };
    assert_eq!(header.try_write(&mut out, BE), Ok(0x1_0002 + 3));
    assert_eq!(&out[..2], &[0, 2]);
    assert_eq!(out[2], b'x');
    assert_eq!(out[0x1_0002 + 2], 0xff);
}

#[test]
fn empty_record_takes_nothing() {
    assert_eq!(Empty::try_read(&[], ()), Ok((Empty, 0)));
    assert_eq!(Empty::try_read(&[1, 2, 3], LE), Ok((Empty, 0)));
    assert_eq!(Empty.try_write(&mut [], BE), Ok(0));
    let mut bytes = [7u8; 2];
    let mut offset = 2;
    bytes.write_with(&mut offset, Empty, ()).unwrap();
    let _: Empty = bytes.read_with(&mut offset, ()).unwrap();
    assert_eq!(offset, 2);
    assert_eq!(bytes, [7u8; 2]);
    let mut beyond = 3;
    assert_eq!(bytes.read_with::<Empty>(&mut beyond, ()), Err(Error::BadOffset(3)));
}

#[derive(Debug, Clone, PartialEq)]
struct Named<'a> {
    id: u32,
    timestamp: f64,
    str: &'a str,
}

impl<'a, C: Endianess> TryRead<'a, C> for Named<'a> {
    fn try_read(bytes: &'a [u8], ctx: C) -> Result<(Self, usize), Error> {
        let offset = &mut 0;
        let id = bytes.read_with(offset, ctx)?;
        let timestamp = f64::from_bits(bytes.read_with(offset, ctx)?);
        let str = bytes.read_with(offset, Delimiter(0))?;
        Ok((Self { id, timestamp, str }, *offset))
    }
}

impl<'a, C: Endianess> TryWrite<C> for Named<'a> {
    fn try_write(self, bytes: &mut [u8], ctx: C) -> Result<usize, Error> {
        let offset = &mut 0;
        let Named { id, timestamp, str } = self;
        bytes.write_with(offset, id, ctx)?;
        bytes.write_with(offset, timestamp.to_bits(), ctx)?;
        bytes.write_with(offset, str, NONE)?;
        Ok(*offset)
    }
}

#[test]
fn test_named_struct() {
    let data: Named = Named {
        id: 0x12345678,
        timestamp: 1234.5678,
        str: "hello",
    };
    let buf = &mut [0; 18];
    data.clone().try_write(buf, LE).unwrap();
    assert_eq!(Ok((data, 18)), Named::try_read(buf, LE));
}

#[derive(Debug, Clone, PartialEq)]
struct NoLifetime {
    id: u32,
    timestamp: f64,
}

impl<'input, C: Endianess> TryRead<'input, C> for NoLifetime {
    fn try_read(bytes: &'input [u8], ctx: C) -> Result<(Self, usize), Error> {
        let offset = &mut 0;
        let id = bytes.read_with(offset, ctx)?;
        let timestamp = f64::from_bits(bytes.read_with(offset, ctx)?);
        Ok((Self { id, timestamp }, *offset))
    }
}

impl<C: Endianess> TryWrite<C> for NoLifetime {
    fn try_write(self, bytes: &mut [u8], ctx: C) -> Result<usize, Error> {
        let offset = &mut 0;
        let NoLifetime { id, timestamp } = self;
        bytes.write_with(offset, id, ctx)?;
        bytes.write_with(offset, timestamp.to_bits(), ctx)?;
        Ok(*offset)
    }
}

#[test]
fn test_no_lifetime_struct() {
    let data = NoLifetime {
        id: 0x12345678,
        timestamp: 1234.5678,
    };
    let buf = &mut [0; 12];
    data.clone().try_write(buf, LE).unwrap();
    assert_eq!(Ok((data, 12)), NoLifetime::try_read(buf, LE));
}

#[derive(Debug, Clone, PartialEq)]
struct FieldDependent<'a> {
    len: usize,
    str: &'a str,
}

impl<'a, C: Endianess> TryRead<'a, C> for FieldDependent<'a> {
    fn try_read(bytes: &'a [u8], ctx: C) -> Result<(Self, usize), Error> {
        let offset = &mut 0;
        let len = bytes.read_with(offset, ctx)?;
        let str = bytes.read_with(offset, Len(len))?;
        Ok((Self { len, str }, *offset))
    }
}

impl<'a, C: Endianess> TryWrite<C> for FieldDependent<'a> {
    fn try_write(self, bytes: &mut [u8], ctx: C) -> Result<usize, Error> {
        let offset = &mut 0;
        let FieldDependent { len, str } = self;
        bytes.write_with(offset, len, ctx)?;
        bytes.write_with(offset, str, NONE)?;
        Ok(*offset)
    }
}

#[test]
fn test_len_dependent() {
    let data = FieldDependent {
        len: 2,
        str: "hello",
    };
    let buf = &mut [0; 13];
    data.clone().try_write(buf, LE).unwrap();
    assert_eq!(
        Ok((FieldDependent { len: 2, str: "he" }, 10)),
        FieldDependent::try_read(buf, LE)
    );
}

#[derive(Debug, Clone, PartialEq)]
struct Tuple<'a>(u32, f64, &'a str);

impl<'a, C: Endianess> TryRead<'a, C> for Tuple<'a> {
    fn try_read(bytes: &'a [u8], ctx: C) -> Result<(Self, usize), Error> {
        let offset = &mut 0;
        let _0 = bytes.read_with(offset, ctx)?;
        let _1 = f64::from_bits(bytes.read_with(offset, ctx)?);
        let _2 = bytes.read_with(offset, Delimiter(0))?;
        Ok((Self(_0, _1, _2), *offset))
    }
}

impl<'a, C: Endianess> TryWrite<C> for Tuple<'a> {
    fn try_write(self, bytes: &mut [u8], ctx: C) -> Result<usize, Error> {
        let offset = &mut 0;
        let Tuple(_0, _1, _2) = self;
        bytes.write_with(offset, _0, ctx)?;
        bytes.write_with(offset, _1.to_bits(), ctx)?;
        bytes.write_with(offset, _2, NONE)?;
        Ok(*offset)
    }
}

#[test]
fn test_tuple_struct() {
    let data: Tuple = Tuple(0x12345678, 1234.5678, "hello");
    let buf = &mut [0; 18];
    data.clone().try_write(buf, LE).unwrap();
    assert_eq!(Ok((data, 18)), Tuple::try_read(buf, LE));
}

#[derive(Debug, Clone, PartialEq)]
struct Unit;

impl<'input, C: Endianess> TryRead<'input, C> for Unit {
    fn try_read(_bytes: &'input [u8], _ctx: C) -> Result<(Self, usize), Error> {
        Ok((Self, 0))
    }
}

impl<C: Endianess> TryWrite<C> for Unit {
    fn try_write(self, _bytes: &mut [u8], _ctx: C) -> Result<usize, Error> {
        Ok(0)
    }
}

#[test]
fn test_empty_struct() {
    let data: Unit = Unit;
    let buf = &mut [0; 0];
    data.clone().try_write(buf, LE).unwrap();
    assert_eq!(Ok((data, 0)), Unit::try_read(buf, LE));
}

use ar::{Error, Field, GnuBuilder, Header, num_digits};

/// One 60-byte header record as the format prescribes it.
fn record(name: &str, mtime: u64, uid: u32, gid: u32, mode: u32, size: u64) -> Vec<u8> {
    let mut s = format!(
        "{:<16}{:<12}{:<6}{:<6}{:<8}{:<10}",
        name,
        mtime,
        uid,
        gid,
        format!("{:o}", mode),
        size
    );
    s.push('`');
    s.push('\n');
    s.into_bytes()
}

fn parse_dec(field: &[u8]) -> u64 {
    let text = std::str::from_utf8(field).unwrap();
    text.trim_end_matches(' ').parse().unwrap()
}

fn parse_oct(field: &[u8]) -> u32 {
    let text = std::str::from_utf8(field).unwrap();
    u32::from_str_radix(text.trim_end_matches(' '), 8).unwrap()
}

#[test]
fn validate_accepts_in_range_fields() {
    let mut h = Header::new(b"member.o".to_vec(), 4);
    h.set_mtime(999_999_999_999);
    h.set_uid(999_999);
    h.set_gid(999_999);
    h.set_mode(0o77777777);
    assert_eq!(h.validate(), Ok(()));
}

#[test]
fn validate_rejects_thirteen_digit_mtime() {
    let mut h = Header::new(b"member.o".to_vec(), 4);
    h.set_mtime(1_000_000_000_000);
    assert_eq!(
        h.validate(),
        Err(Error::FieldOverflow(Field::Mtime, 1_000_000_000_000))
    );
}

#[test]
fn validate_rejects_wide_uid_gid_mode() {
    let mut h = Header::new(b"m".to_vec(), 0);
    h.set_uid(1_000_000);
    assert_eq!(h.validate(), Err(Error::FieldOverflow(Field::Uid, 1_000_000)));

    let mut h = Header::new(b"m".to_vec(), 0);
    h.set_gid(7_000_000);
    assert_eq!(h.validate(), Err(Error::FieldOverflow(Field::Gid, 7_000_000)));

    let mut h = Header::new(b"m".to_vec(), 0);
    h.set_mode(0o1000000000);
    assert_eq!(
        h.validate(),
        Err(Error::FieldOverflow(Field::Mode, 0o1000000000))
    );
}

#[test]
fn validate_reports_mtime_before_uid() {
    let mut h = Header::new(b"m".to_vec(), 0);
    h.set_mtime(1_000_000_000_000);
    h.set_uid(1_000_000);
    assert_eq!(
        h.validate(),
        Err(Error::FieldOverflow(Field::Mtime, 1_000_000_000_000))
    );
}

#[test]
fn num_digits_of_zero_is_one() {
    assert_eq!(num_digits(0, 2), 1);
    assert_eq!(num_digits(0, 8), 1);
    assert_eq!(num_digits(0, 10), 1);
}

#[test]
fn num_digits_counts_decimal_and_octal() {
    assert_eq!(num_digits(9, 10), 1);
    assert_eq!(num_digits(10, 10), 2);
    assert_eq!(num_digits(999_999, 10), 6);
    assert_eq!(num_digits(1_000_000, 10), 7);
    assert_eq!(num_digits(0o644, 8), 3);
    assert_eq!(num_digits(u64::MAX, 10), 20);
}

#[test]
fn header_accessors() {
    let h = Header::new(b"hello.txt".to_vec(), 42);
    assert_eq!(h.identifier(), b"hello.txt");
    assert_eq!(h.size(), 42);
    // the default mode is octal 644
    let bytes = {
        let mut b = GnuBuilder::new(vec![b"hello.txt".to_vec()]);
        b.append(&Header::new(b"hello.txt".to_vec(), 0), b"").unwrap();
        b.into_inner()
    };
    assert_eq!(&bytes[48..56], b"644     ");
}

#[test]
fn two_short_members_exact_bytes() {
    let mut b = GnuBuilder::new(vec![b"a.o".to_vec(), b"b.o".to_vec()]);
    b.append(&Header::new(b"a.o".to_vec(), 2), b"AB").unwrap();
    b.append(&Header::new(b"b.o".to_vec(), 1), b"C").unwrap();
    let bytes = b.into_inner();

    let mut expected = b"!<arch>\n".to_vec();
    expected.extend_from_slice(&record("a.o", 0, 0, 0, 0o644, 2));
    expected.extend_from_slice(b"AB");
    expected.extend_from_slice(&record("b.o", 0, 0, 0, 0o644, 1));
    expected.extend_from_slice(b"C\n");
    assert_eq!(bytes, expected);
}

#[test]
fn body_padding_follows_parity() {
    let mut b = GnuBuilder::new(vec![b"even".to_vec(), b"odd".to_vec()]);
    b.append(&Header::new(b"even".to_vec(), 4), b"abcd").unwrap();
    let after_even = b.as_bytes().len();
    // no pad byte after an even body, and the next header starts even
    assert_eq!(after_even, 8 + 60 + 4);
    assert_eq!(after_even % 2, 0);
    b.append(&Header::new(b"odd".to_vec(), 3), b"xyz").unwrap();
    let bytes = b.into_inner();
    // exactly one newline pad after the odd body
    assert_eq!(bytes.len(), after_even + 60 + 3 + 1);
    assert_eq!(bytes[bytes.len() - 1], b'\n');
    assert_eq!(&bytes[bytes.len() - 4..bytes.len() - 1], b"xyz");
}

#[test]
fn sixteen_byte_name_stays_inline() {
    let name = b"exactly16bytes.o";
    assert_eq!(name.len(), 16);
    let mut b = GnuBuilder::new(vec![name.to_vec()]);
    b.append(&Header::new(name.to_vec(), 2), b"ok").unwrap();
    let bytes = b.into_inner();
    // no name table member: the first member header follows the magic
    assert_eq!(&bytes[8..24], name);
    assert_eq!(bytes.len(), 8 + 60 + 2);
}

#[test]
fn seventeen_byte_name_goes_through_the_table() {
    let name = b"seventeen-bytes.o";
    assert_eq!(name.len(), 17);
    let mut b = GnuBuilder::new(vec![name.to_vec()]);
    b.append(&Header::new(name.to_vec(), 2), b"ok").unwrap();
    let bytes = b.into_inner();

    // name table member first: identifier `//`, zeroed fields, size 19
    assert_eq!(&bytes[..8], b"!<arch>\n");
    let table_header = &bytes[8..68];
    assert_eq!(&table_header[..16], b"//              ");
    assert_eq!(parse_dec(&table_header[16..28]), 0);
    assert_eq!(parse_dec(&table_header[28..34]), 0);
    assert_eq!(parse_dec(&table_header[34..40]), 0);
    assert_eq!(parse_oct(&table_header[40..48]), 0);
    assert_eq!(parse_dec(&table_header[48..58]), 19);
    // the blob holds the literal 17-byte name plus its terminator, then a pad
    assert_eq!(&bytes[68..85], &name[..]);
    assert_eq!(&bytes[85..87], b"/\n");
    assert_eq!(bytes[87], b'\n');
    // the member references offset 0 in the table
    let member_header = &bytes[88..148];
    assert_eq!(&member_header[..16], b"/0              ");
    assert_eq!(&bytes[148..150], b"ok");
}

#[test]
fn second_long_name_gets_the_next_offset() {
    let first = b"first-long-name.obj".to_vec();
    let second = b"second-long-name.obj".to_vec();
    let mut b = GnuBuilder::new(vec![first.clone(), second.clone()]);
    b.append(&Header::new(first.clone(), 0), b"").unwrap();
    b.append(&Header::new(second.clone(), 0), b"").unwrap();
    let bytes = b.into_inner();

    // blob: first name + "/\n" (21 bytes), then second name + "/\n" (22)
    assert_eq!(parse_dec(&bytes[8 + 48..8 + 58]), 43);
    let blob = &bytes[68..111];
    assert_eq!(&blob[..19], &first[..]);
    assert_eq!(&blob[19..21], b"/\n");
    assert_eq!(&blob[21..41], &second[..]);
    assert_eq!(&blob[41..43], b"/\n");
    // 43 is odd: one pad byte, so members start at 112
    assert_eq!(bytes[111], b'\n');
    assert_eq!(&bytes[112..114], b"/0");
    assert_eq!(&bytes[172..175], b"/21");
}

#[test]
fn long_name_without_provisioning_is_refused() {
    let mut b = GnuBuilder::new(vec![b"short.o".to_vec()]);
    let long = b"a-very-long-member-name.o";
    let r = b.append(&Header::new(long.to_vec(), 2), b"ok");
    assert_eq!(r, Err(Error::NameTableRequired));
    // nothing was flushed
    assert!(b.as_bytes().is_empty());
}

#[test]
fn failed_validation_writes_nothing() {
    let mut b = GnuBuilder::new(vec![b"m.o".to_vec()]);
    let mut h = Header::new(b"m.o".to_vec(), 0);
    h.set_mtime(1_000_000_000_000);
    assert!(b.append(&h, b"").is_err());
    assert!(b.as_bytes().is_empty());
}

#[test]
fn symbol_table_comes_first_with_exact_offsets() {
    let mut b = GnuBuilder::with_symbol_table(
        vec![b"a.o".to_vec(), b"b.o".to_vec()],
        vec![2, 1],
        vec![(b"foo".to_vec(), 0), (b"bar".to_vec(), 1)],
    );
    b.append(&Header::new(b"a.o".to_vec(), 2), b"AB").unwrap();
    b.append(&Header::new(b"b.o".to_vec(), 1), b"C").unwrap();
    let bytes = b.into_inner();

    assert_eq!(&bytes[..8], b"!<arch>\n");
    // symbol table member: identifier `/`, zeroed fields, content of 20 bytes
    let sym_header = &bytes[8..68];
    assert_eq!(&sym_header[..16], b"/               ");
    assert_eq!(parse_dec(&sym_header[16..28]), 0);
    assert_eq!(parse_oct(&sym_header[40..48]), 0);
    assert_eq!(parse_dec(&sym_header[48..58]), 20);
    // count, then one big-endian header offset per symbol
    assert_eq!(&bytes[68..72], &[0, 0, 0, 2]);
    assert_eq!(&bytes[72..76], &[0, 0, 0, 88]);
    assert_eq!(&bytes[76..80], &[0, 0, 0, 150]);
    assert_eq!(&bytes[80..88], b"foo\0bar\0");
    // the members then start exactly where the table says
    assert_eq!(&bytes[88..91], b"a.o");
    assert_eq!(&bytes[148..150], b"AB");
    assert_eq!(&bytes[150..153], b"b.o");
    assert_eq!(&bytes[210..212], b"C\n");
}

#[test]
fn symbol_table_precedes_the_name_table() {
    let long = b"averylongmembername.o";
    assert_eq!(long.len(), 21);
    let mut b = GnuBuilder::with_symbol_table(
        vec![long.to_vec()],
        vec![2],
        vec![(b"sym".to_vec(), 0)],
    );
    b.append(&Header::new(long.to_vec(), 2), b"ok").unwrap();
    let bytes = b.into_inner();

    // symbol table first: content is count, one offset, one name
    assert_eq!(&bytes[8..9], b"/");
    assert_eq!(parse_dec(&bytes[8 + 48..8 + 58]), 12);
    assert_eq!(&bytes[68..72], &[0, 0, 0, 1]);
    assert_eq!(&bytes[72..76], &[0, 0, 0, 164]);
    assert_eq!(&bytes[76..80], b"sym\0");
    // then the name table: blob of 23 bytes, odd, so one pad byte
    assert_eq!(&bytes[80..82], b"//");
    assert_eq!(parse_dec(&bytes[80 + 48..80 + 58]), 23);
    assert_eq!(&bytes[140..161], &long[..]);
    assert_eq!(&bytes[161..163], b"/\n");
    assert_eq!(bytes[163], b'\n');
    // the member sits at the offset the symbol table names
    assert_eq!(&bytes[164..166], b"/0");
    assert_eq!(&bytes[224..226], b"ok");
}

#[test]
fn round_trip_through_a_conforming_reader() {
    let body = b"hello archive";
    let mut h = Header::new(b"hello.txt".to_vec(), body.len() as u64);
    h.set_mtime(1_234_567_890);
    h.set_uid(501);
    h.set_gid(20);
    h.set_mode(0o100644);
    let mut b = GnuBuilder::new(vec![b"hello.txt".to_vec()]);
    b.append(&h, body).unwrap();
    let bytes = b.into_inner();

    assert_eq!(&bytes[..8], b"!<arch>\n");
    let rec = &bytes[8..68];
    let name = std::str::from_utf8(&rec[..16]).unwrap().trim_end_matches(' ');
    assert_eq!(name.as_bytes(), b"hello.txt");
    assert_eq!(parse_dec(&rec[16..28]), 1_234_567_890);
    assert_eq!(parse_dec(&rec[28..34]), 501);
    assert_eq!(parse_dec(&rec[34..40]), 20);
    assert_eq!(parse_oct(&rec[40..48]), 0o100644);
    assert_eq!(parse_dec(&rec[48..58]), body.len() as u64);
    assert_eq!(&rec[58..], b"`\n");
    assert_eq!(&bytes[68..68 + body.len()], body);
    // odd body: one pad byte ends the archive
    assert_eq!(bytes.len(), 68 + body.len() + 1);
}

use rustbufrkit::decoder::{decode_binary, decode_sections, find_string, prepare, table_group_id_for};
use rustbufrkit::table::table::{
    TableGroup, TableGroupId, TableB, TableD, CodeAndFlag, MetaA, MetaB, MetaC, MetaD, BEntry,
};

fn decode_table_group() -> TableGroup {
    let b = TableB::from_entries(vec![(
        1001,
        BEntry {
            name: "WMO BLOCK NUMBER".to_string(),
            unit: "Numeric".to_string(),
            scale: 0,
            refval: 0,
            nbits: 7,
            unit_crex: "Numeric".to_string(),
            scale_crex: 0,
            nchars_crex: 0,
        },
    )]);
    let d = TableD::load(vec![]).unwrap();
    let cnf = CodeAndFlag::from_entries(vec![]);
    let ma = MetaA::load(vec![]).unwrap();
    let mb = MetaB::load(vec![]);
    let mc = MetaC::load(vec![]);
    let md = MetaD::load(vec![]);
    TableGroup::load(
        TableGroupId {
            base_dir: String::from("_definitions/tables"),
            master_table_number: 0,
            centre_number: 0,
            sub_centre_number: 0,
            version_number: 25,
        },
        b,
        d,
        cnf,
        ma,
        mb,
        mc,
        md,
    )
}

/// A minimal edition 4 message: one subset, one element descriptor
/// (001001), an empty payload, 47 bytes in all.
fn contrived_message() -> Vec<u8> {
    let mut m: Vec<u8> = Vec::new();
    // Section 0: "BUFR", total length 47, edition 4.
    m.extend_from_slice(b"BUFR");
    m.extend_from_slice(&[0, 0, 47, 4]);
    // Section 1 (22 bytes): length, master table 0, centre 0,
    // subcentre 0, update sequence 0, no section 2, flags 0,
    // category 0, subcategories 0, master version 25, local
    // version 0, year 2020, month 1, day 2, hour 3, minute 4,
    // second 5.
    m.extend_from_slice(&[0, 0, 22]);
    m.push(0);
    m.extend_from_slice(&[0, 0]);
    m.extend_from_slice(&[0, 0]);
    m.push(0);
    m.push(0); // is_section2_presents bit and 7 flag bits
    m.push(0);
    m.push(0);
    m.push(0);
    m.push(25);
    m.push(0);
    m.extend_from_slice(&[7, 228]); // year 2020
    m.push(1);
    m.push(2);
    m.push(3);
    m.push(4);
    m.push(5);
    // Section 3 (9 bytes): length, reserved, 1 subset, flags 0,
    // one descriptor 001001 (F=0, X=1, Y=1).
    m.extend_from_slice(&[0, 0, 9]);
    m.push(0);
    m.extend_from_slice(&[0, 1]);
    m.push(0);
    m.extend_from_slice(&[0x01, 0x01]);
    // Section 4 (4 bytes): length, reserved, no payload bits.
    m.extend_from_slice(&[0, 0, 4]);
    m.push(0);
    // Section 5.
    m.extend_from_slice(b"7777");
    assert_eq!(47, m.len());
    m
}

#[test]
fn test_find_string() {
    assert_eq!(find_string("BUFR", "xxBUFRyyy7777zzz".as_bytes()).unwrap(), 2);
    assert_eq!(find_string("7777", "xxBUFRyyy7777zzz".as_bytes()).unwrap(), 9);
}

#[test]
fn test_find_string_missing() {
    assert!(find_string("BUFR", "nothing here".as_bytes()).is_err());
}

#[test]
fn test_prepare_trims_to_declared_length() {
    let mut bytes = b"xx".to_vec();
    bytes.extend_from_slice(&contrived_message());
    bytes.extend_from_slice(b"trailing");
    let buf = prepare(&bytes).unwrap();
    assert_eq!(47, buf.len());
    assert_eq!(b"BUFR"[..], buf[0..4]);
    assert_eq!(b"7777"[..], buf[43..47]);
}

#[test]
fn test_prepare_truncated_input() {
    let mut bytes = contrived_message();
    bytes.truncate(30);
    assert!(prepare(&bytes).is_err());
}

#[test]
fn test_decode() {
    let mut tgm = rustbufrkit::table::table::TableGroupManager::new();
    let tg_id = TableGroupId {
        base_dir: String::from("_definitions/tables"),
        master_table_number: 0,
        centre_number: 0,
        sub_centre_number: 0,
        version_number: 25,
    };
    tgm.insert(tg_id.clone(), decode_table_group());
    let bytes = contrived_message();
    let group = tgm.get_table_group(&tg_id).unwrap();
    let bufr_message = decode_binary(group, &bytes).unwrap();
    assert_eq!(6, bufr_message.section_count());
}

#[test]
fn test_decode_section_fields() {
    let group = decode_table_group();
    let mut bytes = b"junk".to_vec();
    bytes.extend_from_slice(&contrived_message());
    let message = decode_binary(&group, &bytes).unwrap();

    assert_eq!(6, message.section_count());
    assert_eq!(47, message.length());
    assert_eq!(4, message.edition());

    let s0 = message.section(0);
    assert_eq!("BUFR", s0.field_by_name("start_signature").unwrap().get_bytes());
    assert_eq!(47, s0.field_by_name("length").unwrap().get_u32());

    let s1 = message.section(1);
    assert_eq!(22, s1.length());
    assert_eq!(0, s1.field_by_name("master_table_number").unwrap().get_u32());
    assert_eq!(25, s1.field_by_name("master_table_version").unwrap().get_u32());
    assert_eq!(2020, s1.field_by_name("year").unwrap().get_u32());
    assert_eq!(false, s1.field_by_name("is_section2_presents").unwrap().get_bool());

    // Section 2 is absent: an empty field list of length zero.
    assert_eq!(0, message.section(2).length());

    let s3 = message.section(3);
    assert_eq!(9, s3.length());
    assert_eq!(1, s3.field_by_name("n_subsets").unwrap().get_u32());
    assert_eq!(
        &vec![1001isize],
        s3.field_by_name("unexpanded_descriptors")
            .unwrap()
            .get_unexpanded_descriptors()
    );

    assert_eq!(4, message.section(4).length());
    assert_eq!("7777", message.section(5).field_by_name("stop_signature").unwrap().get_bytes());
}

#[test]
fn test_decode_sections_without_tables() {
    let bytes = contrived_message();
    let message = decode_sections(&bytes).unwrap();
    assert_eq!(6, message.section_count());
    assert_eq!(4, message.edition());
}

#[test]
fn test_table_group_id_from_message() {
    let bytes = contrived_message();
    let message = decode_sections(&bytes).unwrap();
    let id = table_group_id_for(&message, "_definitions/tables").unwrap();
    assert_eq!("_definitions/tables", id.base_dir);
    assert_eq!(0, id.master_table_number);
    assert_eq!(0, id.centre_number);
    assert_eq!(0, id.sub_centre_number);
    assert_eq!(25, id.version_number);
}

#[test]
fn test_decode_rejects_other_editions() {
    let mut bytes = contrived_message();
    bytes[7] = 3; // edition byte
    assert!(decode_sections(&bytes).is_err());
}

#[test]
fn test_decode_rejects_missing_stop_signature() {
    let mut bytes = contrived_message();
    bytes[43] = b'x';
    assert!(decode_sections(&bytes).is_err());
}

#[test]
fn test_decode_fails_on_unknown_descriptor() {
    // The message's descriptor list names 001001; a bundle without
    // that Table B entry fails the template build.
    let group = TableGroup::load(
        TableGroupId {
            base_dir: String::from("_definitions/tables"),
            master_table_number: 0,
            centre_number: 0,
            sub_centre_number: 0,
            version_number: 25,
        },
        TableB::from_entries(vec![]),
        TableD::load(vec![]).unwrap(),
        CodeAndFlag::from_entries(vec![]),
        MetaA::load(vec![]).unwrap(),
        MetaB::load(vec![]),
        MetaC::load(vec![]),
        MetaD::load(vec![]),
    );
    let bytes = contrived_message();
    assert!(decode_binary(&group, &bytes).is_err());
    // Without table checking the same message decodes.
    assert!(decode_sections(&bytes).is_ok());
}

#[test]
fn test_decode_without_signature() {
    assert!(decode_sections(b"no message here").is_err());
}

#[test]
fn test_prepare_accepts_header_only_length() {
    // A declared total length of 7 covers exactly the bytes already
    // consumed for the signature and length: prepare hands back the
    // 7-byte buffer, and the decode then fails reading section 0.
    let bytes = b"BUFR\x00\x00\x07".to_vec();
    let buf = prepare(&bytes).unwrap();
    assert_eq!(7, buf.len());
    assert!(decode_sections(&bytes).is_err());
    // A declared length of 6 claims fewer bytes than were consumed
    // to read it: an error.
    let bytes = b"BUFR\x00\x00\x06".to_vec();
    assert!(prepare(&bytes).is_err());
}

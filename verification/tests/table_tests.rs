use rustbufrkit::table::table::{
    TableGroup, TableGroupId, TableGroupManager, TableB, TableD, CodeAndFlag, MetaA, MetaB, MetaC,
    MetaD, BEntry, Entry,
};

fn b_entry(name: &str, unit: &str, scale: isize, refval: isize, nbits: isize) -> BEntry {
    BEntry {
        name: name.to_string(),
        unit: unit.to_string(),
        scale,
        refval,
        nbits,
        unit_crex: unit.to_string(),
        scale_crex: scale,
        nchars_crex: 0,
    }
}

fn create_table_group() -> TableGroup {
    let b = TableB::from_entries(vec![
        (1001, b_entry("WMO BLOCK NUMBER", "Numeric", 0, 0, 7)),
        (1002, b_entry("WMO STATION NUMBER", "Numeric", 0, 0, 10)),
        (2, b_entry("TABLE B ENTRY TWO", "Numeric", 0, 0, 8)),
        (3, b_entry("TABLE B ENTRY THREE", "Numeric", 0, 0, 8)),
        (31001, b_entry("DELAYED DESCRIPTOR REPLICATION FACTOR", "Numeric", 0, 0, 8)),
    ]);
    let d = TableD::load(vec![
        (
            300002,
            "".to_string(),
            vec!["000002".to_string(), "000003".to_string()],
        ),
    ])
    .unwrap();
    let cnf = CodeAndFlag::from_entries(vec![
        (
            1003,
            vec![(0, "ANTARCTICA".to_string()), (5, "REGION V".to_string())],
        ),
    ]);
    let ma = MetaA::load(vec![
        (
            "5".to_string(),
            "Single level upper - air data (satellite)".to_string(),
        ),
        ("32 - 100".to_string(), "Reserved".to_string()),
    ])
    .unwrap();
    let mb = MetaB::load(vec![
        (
            "0".to_string(),
            "01".to_string(),
            "Identification".to_string(),
            "Identifies origin and type of data".to_string(),
        ),
    ]);
    let mc = MetaC::load(vec![
        (
            "2".to_string(),
            "01".to_string(),
            "YYY".to_string(),
            "Change data width: Add (YYY-128) bits to the data width given for each data element in Table B, other than CCITT IA5 (character) data, code or flag tables.".to_string(),
            "Add (YYY-128) bits to the data width.".to_string(),
        ),
        (
            "2".to_string(),
            "25".to_string(),
            "YYY".to_string(),
            "Difference statistical values follow: The statistical values which follow relate to the data defined by the data present bit-map.".to_string(),
            "Difference statistical values follow.".to_string(),
        ),
    ]);
    let md = MetaD::load(vec![
        (
            "3".to_string(),
            "01".to_string(),
            "Location and identification sequences".to_string(),
        ),
    ]);
    TableGroup::load(
        TableGroupId {
            base_dir: String::from("_definitions/tables"),
            master_table_number: 0,
            centre_number: 0,
            sub_centre_number: 0,
            version_number: 25,
        },
        b,
        d,
        cnf,
        ma,
        mb,
        mc,
        md,
    )
}

#[test]
fn test_table_group_manager() {
    let mut tgm = TableGroupManager::new();
    let tg_id = TableGroupId {
        base_dir: String::from("_definitions/tables"),
        master_table_number: 0,
        centre_number: 0,
        sub_centre_number: 0,
        version_number: 25,
    };
    tgm.insert(tg_id.clone(), create_table_group());
    let t1 = tgm.get_table_group(&tg_id).unwrap();
    let t2 = tgm.get_table_group(&tg_id).unwrap();
    assert_eq!(1, tgm.size());
    assert!(std::ptr::eq(t1, t2));
}

#[test]
fn test_load_table_group() {
    let table_group = create_table_group();

    assert_eq!(
        "id=_definitions/tables/0/0_0/25",
        table_group.display_string().as_str()
    )
}

#[test]
fn test_lookup_descriptor() {
    let table_group = create_table_group();

    table_group.lookup(1001).unwrap();
    table_group.lookup(101000).unwrap();
    table_group.lookup(201011).unwrap();
    table_group.lookup(225255).unwrap();
    table_group.lookup(300002).unwrap();
}

#[test]
#[should_panic]
fn test_lookup_bad_descriptor() {
    let table_group = create_table_group();
    table_group.lookup(987654).unwrap();
}

#[test]
fn test_lookup_cnf() {
    let table_group = create_table_group();

    assert_eq!("REGION V", table_group.lookup_cnf(1003, 5).unwrap());
    assert_eq!("REGION V", table_group.lookup_cnf(1003, 5).unwrap());
}

#[test]
fn test_lookup_meta() {
    let table_group = create_table_group();

    assert_eq!(
        "Identification: Identifies origin and type of data",
        table_group.lookup_meta(1001).unwrap(),
    );

    assert_eq!(
        "Change data width: Add (YYY-128) bits to the data width given for each data element in Table B, other than CCITT IA5 (character) data, code or flag tables.",
        table_group.lookup_meta(201011).unwrap(),
    );

    assert_eq!(
        "Difference statistical values follow: The statistical values which follow relate to the data defined by the data present bit-map.",
        table_group.lookup_meta(225000).unwrap(),
    );

    assert_eq!(
        "Location and identification sequences",
        table_group.lookup_meta(301059).unwrap(),
    );
}

#[test]
fn test_data_category_of() {
    let table_group = create_table_group();

    assert_eq!(
        "Single level upper - air data (satellite)",
        table_group.data_category_of(5).unwrap(),
    );

    assert_eq!(
        "Reserved",
        table_group.data_category_of(100).unwrap(),
    );
}

#[test]
fn test_data_category_range_bounds() {
    let table_group = create_table_group();
    assert_eq!("Reserved", table_group.data_category_of(32).unwrap());
    assert_eq!("Reserved", table_group.data_category_of(77).unwrap());
    assert!(table_group.data_category_of(6).is_err());
    assert!(table_group.data_category_of(101).is_err());
}

#[test]
fn test_lookup_kind_routing() {
    let table_group = create_table_group();
    assert!(matches!(table_group.lookup(1001).unwrap(), Entry::B(_)));
    assert!(matches!(table_group.lookup(101000).unwrap(), Entry::R(_)));
    assert!(matches!(table_group.lookup(201011).unwrap(), Entry::C(_)));
    assert!(matches!(table_group.lookup(300002).unwrap(), Entry::D(_)));
    assert!(table_group.lookup(400000).is_err());
    assert!(table_group.lookup(-1).is_err());
}

#[test]
fn test_lookup_cnf_errors() {
    let table_group = create_table_group();
    assert!(table_group.lookup_cnf(101000, 1).is_err());
    assert!(table_group.lookup_cnf(1003, 7).is_err());
    assert!(table_group.lookup_cnf(1001, 0).is_err());
}

#[test]
fn test_lookup_meta_errors() {
    let table_group = create_table_group();
    assert!(table_group.lookup_meta(101000).is_err());
    assert!(table_group.lookup_meta(2001).is_err());
}

#[test]
fn test_replication_entry_arithmetic() {
    let table_group = create_table_group();
    match table_group.lookup(105003).unwrap() {
        Entry::R(r) => {
            assert_eq!(5, r.n_members());
            assert_eq!(3, r.n_repeats());
        }
        _ => panic!("expected a replication entry"),
    }
}

#[test]
fn test_table_file_candidates() {
    let tg_id = TableGroupId {
        base_dir: String::from("_definitions/tables"),
        master_table_number: 0,
        centre_number: 98,
        sub_centre_number: 7,
        version_number: 25,
    };
    let candidates = tg_id.get_table_file(rustbufrkit::table::table::Name::TableB);
    assert_eq!(3, candidates.len());
    assert_eq!("_definitions/tables/0/98_7/25/TableB.json", candidates[0]);
    assert_eq!("_definitions/tables/common/TableB.json", candidates[1]);
    assert_eq!("_definitions/tables/0/0_0/25/TableB.json", candidates[2]);
}

#[test]
fn test_table_load_errors() {
    // A Table D member that is not a number is rejected.
    assert!(TableD::load(vec![(
        300002,
        "".to_string(),
        vec!["000002".to_string(), "bogus".to_string()],
    )])
    .is_err());
    // A table A range whose bounds are not numbers is rejected.
    assert!(MetaA::load(vec![("x - y".to_string(), "Reserved".to_string())]).is_err());
}

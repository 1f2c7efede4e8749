use rustbufrkit::table::table::{
    TableGroup, TableGroupId, TableB, TableD, CodeAndFlag, MetaA, MetaB, MetaC, MetaD, BEntry,
};
use rustbufrkit::table::template::{Template, CollectVisitor};
use rustbufrkit::table::descriptor::Descriptor;

fn b_entry(name: &str, nbits: isize) -> BEntry {
    BEntry {
        name: name.to_string(),
        unit: "Numeric".to_string(),
        scale: 0,
        refval: 0,
        nbits,
        unit_crex: "Numeric".to_string(),
        scale_crex: 0,
        nchars_crex: 0,
    }
}

fn small_table_group() -> TableGroup {
    let b = TableB::from_entries(vec![
        (2, b_entry("ELEMENT TWO", 8)),
        (3, b_entry("ELEMENT THREE", 8)),
        (1001, b_entry("WMO BLOCK NUMBER", 7)),
        (31001, b_entry("DELAYED DESCRIPTOR REPLICATION FACTOR", 8)),
    ]);
    let d = TableD::load(vec![(
        300002,
        "".to_string(),
        vec!["000002".to_string(), "000003".to_string()],
    )])
    .unwrap();
    let cnf = CodeAndFlag::from_entries(vec![]);
    let ma = MetaA::load(vec![]).unwrap();
    let mb = MetaB::load(vec![]);
    let mc = MetaC::load(vec![(
        "2".to_string(),
        "01".to_string(),
        "YYY".to_string(),
        "Change data width".to_string(),
        "Add (YYY-128) bits to the data width.".to_string(),
    )]);
    let md = MetaD::load(vec![]);
    TableGroup::load(
        TableGroupId {
            base_dir: String::from("_definitions/tables"),
            master_table_number: 0,
            centre_number: 0,
            sub_centre_number: 0,
            version_number: 25,
        },
        b,
        d,
        cnf,
        ma,
        mb,
        mc,
        md,
    )
}

#[test]
fn test_sequence_expansion_parent_links() {
    let group = small_table_group();
    let template = Template::new(&group, &[300002]).unwrap();
    // Root, the sequence node, and its two element members.
    assert_eq!(4, template.node_count());
    assert_eq!(vec![300002isize], *template.ids());

    let root = template.node(0);
    assert_eq!(None, root.parent);
    assert_eq!(vec![1usize], root.children);

    let seq = template.node(1);
    assert_eq!(Some(0), seq.parent);
    assert_eq!(vec![2usize, 3usize], seq.children);
    assert!(matches!(seq.descriptor, Descriptor::Sequence(_)));

    // Every node's parent lists it among its children.
    for i in 1..template.node_count() {
        let node = template.node(i);
        let p = node.parent.unwrap();
        assert!(template.node(p).children.contains(&i));
    }
}

#[test]
fn test_delayed_replication_factor_first() {
    let group = small_table_group();
    let template = Template::new(&group, &[101000, 31001, 1001]).unwrap();
    assert!(template.replication_factors_ok());

    let repl = template.node(1);
    assert!(matches!(repl.descriptor, Descriptor::Replication(_)));
    assert_eq!(2, repl.children.len());
    let factor = template.node(repl.children[0]);
    assert!(matches!(factor.descriptor, Descriptor::Element(_)));

    let mut visitor = CollectVisitor::new();
    template.accept(&mut visitor);
    assert_eq!(vec![101000isize, 31001, 1001], visitor.ids);
}

#[test]
fn test_delayed_replication_factor_not_element() {
    let group = small_table_group();
    // The first member of the delayed replication is an operator, so
    // the replication-factor check refuses the template.
    let template = Template::new(&group, &[101000, 201011, 1001]).unwrap();
    assert!(!template.replication_factors_ok());
}

#[test]
fn test_static_replication_expansion() {
    let group = small_table_group();
    // Repeat the next 2 descriptors 3 times: both members become
    // children of the replication node.
    let template = Template::new(&group, &[102003, 1001, 31001]).unwrap();
    assert!(template.replication_factors_ok());
    let repl = template.node(1);
    assert_eq!(2, repl.children.len());

    let mut visitor = CollectVisitor::new();
    template.accept(&mut visitor);
    assert_eq!(vec![102003isize, 1001, 31001], visitor.ids);
}

#[test]
fn test_replication_insufficient_ids() {
    let group = small_table_group();
    // A delayed replication of one member needs two following ids.
    assert!(Template::new(&group, &[101000, 31001]).is_err());
}

#[test]
fn test_expansion_unknown_descriptor() {
    let group = small_table_group();
    assert!(Template::new(&group, &[1099]).is_err());
    assert!(Template::new(&group, &[300099]).is_err());
}

#[test]
fn test_expansion_depth_limit() {
    // A Table D sequence that names itself cannot expand forever: the
    // expansion is cut off with an error instead.
    let b = TableB::from_entries(vec![]);
    let d = TableD::load(vec![(
        300002,
        "".to_string(),
        vec!["300002".to_string()],
    )])
    .unwrap();
    let group = TableGroup::load(
        TableGroupId {
            base_dir: String::from("_definitions/tables"),
            master_table_number: 0,
            centre_number: 0,
            sub_centre_number: 0,
            version_number: 25,
        },
        b,
        d,
        CodeAndFlag::from_entries(vec![]),
        MetaA::load(vec![]).unwrap(),
        MetaB::load(vec![]),
        MetaC::load(vec![]),
        MetaD::load(vec![]),
    );
    assert!(Template::new(&group, &[300002]).is_err());
}

#[test]
fn test_nested_replication_shares_supplier() {
    let group = small_table_group();
    // The outer replication covers one member; that member is itself
    // a replication whose own member comes from the same id stream,
    // so four ids are consumed in all and the last element stands
    // inside the inner body.
    let template = Template::new(&group, &[101002, 101001, 1001, 31001]).unwrap();
    assert!(template.replication_factors_ok());

    let mut visitor = CollectVisitor::new();
    template.accept(&mut visitor);
    assert_eq!(vec![101002isize, 101001, 1001, 31001], visitor.ids);

    let outer = template.node(1);
    assert_eq!(1, outer.children.len());
    let inner = template.node(outer.children[0]);
    assert_eq!(1, inner.children.len());
    // The final element is a child of the root, after the outer
    // replication's subtree.
    assert_eq!(5, template.node_count());
    assert_eq!(vec![1usize, 4usize], template.node(0).children);
}

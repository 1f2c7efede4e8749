use rustbufrkit::table::descriptor::{
    Fxy, Descriptor, ElementDescriptor, ReplicationDescriptor, OperatorDescriptor,
    SequenceDescriptor,
};
use rustbufrkit::digits::{u64_to_string, u64_to_padded_string, isize_to_string, parse_isize};

#[test]
fn test_fxy_decomposition() {
    let id: isize = 201011;
    assert_eq!(2, id.f());
    assert_eq!(1, id.x());
    assert_eq!(11, id.y());
    assert_eq!(201, id.fx());
    assert_eq!("201011", id.as_string().as_str());
}

#[test]
fn test_fxy_weighs_back() {
    // For ids across the whole range the three fields weigh back to
    // the id itself.
    for &id in &[0isize, 1001, 101000, 201011, 300002, 399999] {
        assert_eq!(100000 * id.f() + 1000 * id.x() + id.y(), id);
        assert_eq!(id / 1000, id.fx());
    }
}

#[test]
fn test_six_digit_form() {
    assert_eq!("001001", (1001isize).as_string().as_str());
    assert_eq!("000000", (0isize).as_string().as_str());
    assert_eq!("399999", (399999isize).as_string().as_str());
}

#[test]
fn test_decimal_formatting() {
    assert_eq!("0", u64_to_string(0).as_str());
    assert_eq!("987654321", u64_to_string(987654321).as_str());
    assert_eq!("007", u64_to_padded_string(7, 3).as_str());
    assert_eq!("1234", u64_to_padded_string(1234, 3).as_str());
    assert_eq!("-25", isize_to_string(-25).as_str());
    assert_eq!("25", isize_to_string(25).as_str());
}

#[test]
fn test_parse_isize_values() {
    assert_eq!(123, parse_isize("123").unwrap());
    assert_eq!(-45, parse_isize("-45").unwrap());
    assert_eq!(45, parse_isize("+45").unwrap());
    assert_eq!(301059, parse_isize("301059").unwrap());
    assert_eq!(0, parse_isize("000").unwrap());
}

#[test]
fn test_parse_isize_errors() {
    assert!(parse_isize("").is_err());
    assert!(parse_isize("-").is_err());
    assert!(parse_isize("12a").is_err());
    assert!(parse_isize("1.5").is_err());
    assert!(parse_isize("99999999999999999999999999").is_err());
}

#[test]
fn test_descriptor_display() {
    let e = Descriptor::Element(ElementDescriptor {
        id: 1001,
        name: "WMO BLOCK NUMBER".to_string(),
        unit: "Numeric".to_string(),
        scale: 0,
        refval: 0,
        nbits: 7,
    });
    assert_eq!("001001 WMO BLOCK NUMBER", e.display_string().as_str());

    let r = Descriptor::Replication(ReplicationDescriptor { id: 101000 });
    assert_eq!("101000", r.display_string().as_str());

    let o = Descriptor::Operator(OperatorDescriptor {
        id: 201011,
        name: "Change data width".to_string(),
    });
    assert_eq!("201011 Change data width", o.display_string().as_str());

    let q = Descriptor::Sequence(SequenceDescriptor {
        id: 300002,
        name: "".to_string(),
    });
    assert_eq!("300002 ", q.display_string().as_str());
}

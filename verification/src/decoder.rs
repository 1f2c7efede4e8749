//! The binary message decoder.
//!
//! Decoding scans the input for the ASCII start signature, takes the
//! declared total length of bytes from there as the message buffer,
//! and drives a bit reader through sections 0 to 5, validating the
//! edition, the stop signature, and — when a table bundle is at hand
//! — the template expansion of section 3's descriptor list.

use vstd::prelude::*;
use crate::BufrKitError;
use crate::bits::{BitReader, bits_value, bit_at};
use crate::bufr::{
    BufrMessage,
    BufrSection,
    Field,
    FieldSimple,
    FieldUED,
    SimpleData,
    spec_field_name,
    is_u32_field,
    spec_field_u32,
    is_bool_field,
    spec_field_bool,
    is_bytes_field,
    spec_field_bytes,
};
use crate::scan::{find_first, find_bytes};
use crate::table::table::TableGroup;
use crate::table::template::Template;
use vstd::string::StringSliceAdditionalSpecFns;

verus! {

/// Equal bit windows carry equal values.
pub proof fn lemma_bits_value_window_eq(s1: Seq<u8>, p1: int, s2: Seq<u8>, p2: int, n: nat)
    requires
        forall|k: int| 0 <= k < n ==> #[trigger] bit_at(s1, p1 + k) == bit_at(s2, p2 + k),
    ensures
        bits_value(s1, p1, n) == bits_value(s2, p2, n),
    decreases n,
{
    if n > 0 {
        lemma_bits_value_window_eq(s1, p1, s2, p2, (n - 1) as nat);
    }
}

/// The position, within `haystack`, of the first occurrence of the
/// text `s`, compared byte for byte.
pub fn find_string(s: &str, haystack: &[u8]) -> (r: Result<usize, BufrKitError>)
    ensures
        match r {
            Ok(p) => find_first(haystack@, s.spec_bytes()) == Option::Some(p as int),
            Err(_) => find_first(haystack@, s.spec_bytes()) == Option::None::<int>,
        },
{
    match find_bytes(haystack, s.as_bytes()) {
        Some(p) => Ok(p),
        None => {
            proof {
                reveal_strlit(": signature not found");
            }
            let mut msg = s.to_owned();
            msg.append(": signature not found");
            Err(BufrKitError::new(msg))
        },
    }
}

/// Read one field of `nbits` bits as an unsigned integer.
fn read_field_u32(br: &mut BitReader, name: &str, nbits: u8) -> (r: Result<Field, BufrKitError>)
    requires
        old(br).inv(),
        1 <= nbits <= 32,
    ensures
        final(br).inv(),
        final(br).data() == old(br).data(),
        match r {
            Ok(f) => {
                &&& old(br).position() + nbits <= 8 * old(br).data().len()
                &&& final(br).position() == old(br).position() + nbits
                &&& spec_field_name(f) == name@
                &&& is_u32_field(f)
                &&& spec_field_u32(f) == bits_value(
                    old(br).data(),
                    old(br).position() as int,
                    nbits as nat,
                )
            },
            Err(_) => {
                &&& old(br).position() + nbits > 8 * old(br).data().len()
                &&& *final(br) == *old(br)
            },
        },
{
    let v = br.read_u32(nbits)?;
    Ok(Field::SIMPLE(FieldSimple::new(name, SimpleData::U32(v))))
}

/// Read one field of `nbits` bits as a flag value.
fn read_field_flag(br: &mut BitReader, name: &str, nbits: u8) -> (r: Result<Field, BufrKitError>)
    requires
        old(br).inv(),
        1 <= nbits <= 32,
    ensures
        final(br).inv(),
        final(br).data() == old(br).data(),
        match r {
            Ok(f) => {
                &&& old(br).position() + nbits <= 8 * old(br).data().len()
                &&& final(br).position() == old(br).position() + nbits
                &&& spec_field_name(f) == name@
                &&& f matches Field::SIMPLE(fs) && fs.value matches SimpleData::FLAG(v, n) && v
                    == bits_value(old(br).data(), old(br).position() as int, nbits as nat) && n
                    == nbits
            },
            Err(_) => {
                &&& old(br).position() + nbits > 8 * old(br).data().len()
                &&& *final(br) == *old(br)
            },
        },
{
    let v = br.read_u32(nbits)?;
    Ok(Field::SIMPLE(FieldSimple::new(name, SimpleData::FLAG(v, nbits))))
}

/// Read one bit as a boolean field.
fn read_field_bool(br: &mut BitReader, name: &str) -> (r: Result<Field, BufrKitError>)
    requires
        old(br).inv(),
    ensures
        final(br).inv(),
        final(br).data() == old(br).data(),
        match r {
            Ok(f) => {
                &&& old(br).position() + 1 <= 8 * old(br).data().len()
                &&& final(br).position() == old(br).position() + 1
                &&& spec_field_name(f) == name@
                &&& is_bool_field(f)
                &&& spec_field_bool(f) == (bits_value(
                    old(br).data(),
                    old(br).position() as int,
                    1,
                ) != 0)
            },
            Err(_) => {
                &&& old(br).position() + 1 > 8 * old(br).data().len()
                &&& *final(br) == *old(br)
            },
        },
{
    let v = br.read_bool()?;
    Ok(Field::SIMPLE(FieldSimple::new(name, SimpleData::BOOL(v))))
}

/// Read `nbytes` whole bytes as a byte-string field, each byte shown
/// as the character with its code.
fn read_field_bytes(br: &mut BitReader, name: &str, nbytes: usize) -> (r: Result<
    Field,
    BufrKitError,
>)
    requires
        old(br).inv(),
    ensures
        final(br).inv(),
        final(br).data() == old(br).data(),
        match r {
            Ok(f) => {
                &&& old(br).position() + 8 * nbytes <= 8 * old(br).data().len()
                &&& final(br).position() == old(br).position() + 8 * nbytes
                &&& spec_field_name(f) == name@
                &&& is_bytes_field(f)
                &&& spec_field_bytes(f).len() == nbytes
                &&& forall|i: int|
                    0 <= i < nbytes ==> spec_field_bytes(f)[i] == ((bits_value(
                        old(br).data(),
                        old(br).position() + 8 * i,
                        8,
                    ) as u8) as char)
            },
            Err(_) => {
                &&& old(br).position() + 8 * nbytes > 8 * old(br).data().len()
                &&& *final(br) == *old(br)
            },
        },
{
    let bytes = br.read_bytes(nbytes)?;
    let ghost data0 = old(br).data();
    let ghost pos0 = old(br).position() as int;
    let mut text = String::new();
    let mut i: usize = 0;
    while i < bytes.len()
        invariant
            i <= bytes@.len(),
            bytes@.len() == nbytes,
            forall|j: int| 0 <= j < nbytes ==> bytes@[j] == bits_value(data0, pos0 + 8 * j, 8),
            text@.len() == i,
            forall|j: int| 0 <= j < i ==> text@[j] == ((bytes@[j]) as char),
        decreases bytes@.len() - i,
    {
        push_byte_char(&mut text, bytes[i]);
        i = i + 1;
    }
    Ok(Field::SIMPLE(FieldSimple::new(name, SimpleData::BYTES(text))))
}

/// Read `nbits` raw bits into a packed byte field.
fn read_field_raw(br: &mut BitReader, name: &str, nbits: usize) -> (r: Result<Field, BufrKitError>)
    requires
        old(br).inv(),
    ensures
        final(br).inv(),
        final(br).data() == old(br).data(),
        match r {
            Ok(f) => {
                &&& old(br).position() + nbits <= 8 * old(br).data().len()
                &&& final(br).position() == old(br).position() + nbits
                &&& spec_field_name(f) == name@
                &&& f matches Field::SIMPLE(fs) && fs.value matches SimpleData::RAW(b, n) && n
                    == nbits && b@.len() == (nbits + 7) / 8
            },
            Err(_) => {
                &&& old(br).position() + nbits > 8 * old(br).data().len()
                &&& *final(br) == *old(br)
            },
        },
{
    let b = br.read_raw(nbits)?;
    Ok(Field::SIMPLE(FieldSimple::new(name, SimpleData::RAW(b, nbits))))
}

/// The descriptor id packed into the 16 bits at `p`: two bits of F,
/// six of X, eight of Y, combined as a six-digit decimal id.
pub open spec fn spec_packed_id(data: Seq<u8>, p: int) -> isize {
    (bits_value(data, p, 2) * 100000 + bits_value(data, p + 2, 6) * 1000 + bits_value(
        data,
        p + 8,
        8,
    )) as isize
}

/// Read `n` unexpanded descriptor ids, 16 bits each: F (2 bits),
/// X (6 bits), Y (8 bits), combined as F*100000 + X*1000 + Y.
fn read_field_ued(br: &mut BitReader, name: &str, n: usize) -> (r: Result<Field, BufrKitError>)
    requires
        old(br).inv(),
        16 * n <= u32::MAX,
    ensures
        final(br).inv(),
        final(br).data() == old(br).data(),
        match r {
            Ok(f) => {
                &&& old(br).position() + 16 * n <= 8 * old(br).data().len()
                &&& final(br).position() == old(br).position() + 16 * n
                &&& spec_field_name(f) == name@
                &&& f matches Field::UED(fu) && fu.value@.len() == n && (forall|i: int|
                    0 <= i < n ==> fu.value@[i] == spec_packed_id(
                        old(br).data(),
                        old(br).position() + 16 * i,
                    ))
            },
            Err(_) => old(br).position() + 16 * n > 8 * old(br).data().len(),
        },
{
    let ghost data0 = br.data();
    let ghost pos0 = br.position() as int;
    if n > br.remaining_bits() / 16 {
        assert(16 * n > 8 * data0.len() - pos0);
        return Err(BufrKitError::new(
            String::from_str("end of input: not enough bits remain"),
        ));
    }
    assert(pos0 + 16 * n <= 8 * data0.len());
    let mut ids: Vec<isize> = Vec::new();
    let mut i: usize = 0;
    while i < n
        invariant
            i <= n,
            br.inv(),
            br.data() == data0,
            br.position() == pos0 + 16 * i,
            pos0 + 16 * n <= 8 * data0.len(),
            ids@.len() == i,
            forall|j: int| 0 <= j < i ==> ids@[j] == spec_packed_id(data0, pos0 + 16 * j),
        decreases n - i,
    {
        proof {
            crate::bits::lemma_bits_value_bound(data0, pos0 + 16 * i, 2);
            crate::bits::lemma_bits_value_bound(data0, pos0 + 16 * i + 2, 6);
            crate::bits::lemma_bits_value_bound(data0, pos0 + 16 * i + 8, 8);
            vstd::arithmetic::power2::lemma2_to64();
        }
        let f = match br.read_u32(2) {
            Ok(v) => v,
            Err(e) => {
                proof {
                    assert(false);
                }
                return Err(e);
            },
        };
        let x = match br.read_u32(6) {
            Ok(v) => v,
            Err(e) => {
                proof {
                    assert(false);
                }
                return Err(e);
            },
        };
        let y = match br.read_u32(8) {
            Ok(v) => v,
            Err(e) => {
                proof {
                    assert(false);
                }
                return Err(e);
            },
        };
        let id = (f * 100000 + x * 1000 + y) as isize;
        ids.push(id);
        i = i + 1;
    }
    Ok(Field::UED(FieldUED::new(name, ids)))
}

/// Relies on `String::push`: appends exactly the one character given,
/// here the character with `b`'s code.
#[verifier::external_body]
fn push_byte_char(s: &mut String, b: u8)
    ensures
        final(s)@ == old(s)@ + seq![b as char],
{
    s.push(b as char);
}

/// The message buffer: everything from the start signature through
/// the declared total length. Fails when no signature occurs, when
/// the declared length does not even cover the seven header bytes
/// already consumed, or when the input ends before the declared
/// length; a buffer too short for section 0 is accepted here and
/// reported by the section decode.
#[verifier::loop_isolation(false)]
pub fn prepare(bytes: &[u8]) -> (r: Result<Vec<u8>, BufrKitError>)
    ensures
        match r {
            Ok(buf) => match find_first(bytes@, "BUFR".spec_bytes()) {
                Option::Some(p) => {
                    &&& buf@.len() == bits_value(bytes@, 8 * (p + 4), 24)
                    &&& 7 <= buf@.len()
                    &&& p + buf@.len() <= bytes@.len()
                    &&& buf@ == bytes@.subrange(p, p + buf@.len())
                    &&& forall|j: int| 0 <= j < buf@.len() ==> #[trigger] buf@[j] == bytes@[p + j]
                },
                Option::None => false,
            },
            Err(_) => match find_first(bytes@, "BUFR".spec_bytes()) {
                Option::Some(p) => {
                    ||| p + 7 > bytes@.len()
                    ||| bits_value(bytes@, 8 * (p + 4), 24) < 7
                    ||| p + bits_value(bytes@, 8 * (p + 4), 24) > bytes@.len()
                },
                Option::None => true,
            },
        },
{
    let p = find_string("BUFR", bytes)?;
    proof {
        crate::scan::lemma_find_first_characterises(bytes@, "BUFR".spec_bytes());
    }
    if bytes.len() - p < 7 {
        return Err(BufrKitError::new(String::from_str("end of input: truncated header")));
    }
    // The three bytes after the signature carry the total length,
    // most significant first.
    let mut hdr: Vec<u8> = Vec::new();
    hdr.push(bytes[p + 4]);
    hdr.push(bytes[p + 5]);
    hdr.push(bytes[p + 6]);
    let mut hr = BitReader::new(hdr);
    let length = match hr.read_u32(24) {
        Ok(v) => v,
        Err(e) => {
            proof {
                assert(false);
            }
            return Err(e);
        },
    };
    proof {
        assert forall|k: int| 0 <= k < 24 implies bit_at(hr.data(), k) == bit_at(
            bytes@,
            8 * (p + 4) + k,
        ) by {
            assert(hr.data()[k / 8] == bytes@[p + 4 + k / 8]);
            assert((8 * (p + 4) + k) / 8 == p + 4 + k / 8);
            assert((8 * (p + 4) + k) % 8 == k % 8);
        }
        lemma_bits_value_window_eq(hr.data(), 0, bytes@, 8 * (p + 4), 24);
    }
    if length < 7 {
        return Err(BufrKitError::new(String::from_str("declared message length too short")));
    }
    let length_us = length as usize;
    if length_us > bytes.len() - p {
        return Err(BufrKitError::new(String::from_str("end of input: truncated message")));
    }
    let mut buf: Vec<u8> = Vec::new();
    let mut i: usize = p;
    while i < p + length_us
        invariant
            p <= i <= p + length_us,
            p + length_us <= bytes@.len(),
            buf@.len() == i - p,
            forall|j: int| 0 <= j < i - p ==> buf@[j] == bytes@[p + j],
        decreases p + length_us - i,
    {
        buf.push(bytes[i]);
        i = i + 1;
    }
    proof {
        assert(buf@ =~= bytes@.subrange(p as int, p + length_us));
    }
    Ok(buf)
}

/// True iff the field holds a flag of value `v` and width `n`.
pub open spec fn is_flag_field(f: Field, v: nat, n: u8) -> bool {
    f matches Field::SIMPLE(fs) && fs.value matches SimpleData::FLAG(fv, fn_) && fv == v && fn_
        == n
}

/// True iff the field holds a raw bit run of exactly `n` bits packed
/// into `(n + 7) / 8` bytes.
pub open spec fn is_raw_field(f: Field, n: int) -> bool {
    f matches Field::SIMPLE(fs) && fs.value matches SimpleData::RAW(b, fn_) && fn_ == n && b@.len()
        == (n + 7) / 8
}

/// The shape of a decoded section 0: the start signature's four
/// bytes, the 24-bit total length, and the 8-bit edition, read from
/// the head of the message buffer.
pub open spec fn section0_shape(s: BufrSection, data: Seq<u8>) -> bool {
    &&& s.spec_index() == 0
    &&& s.spec_fields().len() == 3
    &&& spec_field_name(s.spec_fields()[0]) == "start_signature"@
    &&& is_bytes_field(s.spec_fields()[0])
    &&& spec_field_bytes(s.spec_fields()[0]).len() == 4
    &&& forall|i: int|
        0 <= i < 4 ==> spec_field_bytes(s.spec_fields()[0])[i] == ((bits_value(data, 8 * i, 8)
            as u8) as char)
    &&& spec_field_name(s.spec_fields()[1]) == "length"@
    &&& is_u32_field(s.spec_fields()[1])
    &&& spec_field_u32(s.spec_fields()[1]) == bits_value(data, 32, 24)
    &&& spec_field_name(s.spec_fields()[2]) == "edition"@
    &&& is_u32_field(s.spec_fields()[2])
    &&& spec_field_u32(s.spec_fields()[2]) == bits_value(data, 56, 8)
}

/// The shape of a decoded edition 4 section 1, read from bit `p0` of
/// the buffer: the documented eighteen fields in order.
pub open spec fn section1_e4_shape(s: BufrSection, data: Seq<u8>, p0: int) -> bool {
    &&& s.spec_index() == 1
    &&& s.spec_fields().len() == 18
    &&& spec_field_name(s.spec_fields()[0]) == "section_length"@
    &&& is_u32_field(s.spec_fields()[0])
    &&& spec_field_u32(s.spec_fields()[0]) == bits_value(data, p0, 24)
    &&& spec_field_name(s.spec_fields()[1]) == "master_table_number"@
    &&& is_u32_field(s.spec_fields()[1])
    &&& spec_field_u32(s.spec_fields()[1]) == bits_value(data, p0 + 24, 8)
    &&& spec_field_name(s.spec_fields()[2]) == "originating_centre"@
    &&& is_u32_field(s.spec_fields()[2])
    &&& spec_field_u32(s.spec_fields()[2]) == bits_value(data, p0 + 32, 16)
    &&& spec_field_name(s.spec_fields()[3]) == "originating_subcentre"@
    &&& is_u32_field(s.spec_fields()[3])
    &&& spec_field_u32(s.spec_fields()[3]) == bits_value(data, p0 + 48, 16)
    &&& spec_field_name(s.spec_fields()[4]) == "update_sequence_number"@
    &&& is_u32_field(s.spec_fields()[4])
    &&& spec_field_u32(s.spec_fields()[4]) == bits_value(data, p0 + 64, 8)
    &&& spec_field_name(s.spec_fields()[5]) == "is_section2_presents"@
    &&& is_bool_field(s.spec_fields()[5])
    &&& spec_field_bool(s.spec_fields()[5]) == (bits_value(data, p0 + 72, 1) != 0)
    &&& spec_field_name(s.spec_fields()[6]) == "flag_bits"@
    &&& is_flag_field(s.spec_fields()[6], bits_value(data, p0 + 73, 7), 7)
    &&& spec_field_name(s.spec_fields()[7]) == "data_category"@
    &&& is_u32_field(s.spec_fields()[7])
    &&& spec_field_u32(s.spec_fields()[7]) == bits_value(data, p0 + 80, 8)
    &&& spec_field_name(s.spec_fields()[8]) == "data_i18n_subcategory"@
    &&& is_u32_field(s.spec_fields()[8])
    &&& spec_field_u32(s.spec_fields()[8]) == bits_value(data, p0 + 88, 8)
    &&& spec_field_name(s.spec_fields()[9]) == "data_local_subcategory"@
    &&& is_u32_field(s.spec_fields()[9])
    &&& spec_field_u32(s.spec_fields()[9]) == bits_value(data, p0 + 96, 8)
    &&& spec_field_name(s.spec_fields()[10]) == "master_table_version"@
    &&& is_u32_field(s.spec_fields()[10])
    &&& spec_field_u32(s.spec_fields()[10]) == bits_value(data, p0 + 104, 8)
    &&& spec_field_name(s.spec_fields()[11]) == "local_table_version"@
    &&& is_u32_field(s.spec_fields()[11])
    &&& spec_field_u32(s.spec_fields()[11]) == bits_value(data, p0 + 112, 8)
    &&& spec_field_name(s.spec_fields()[12]) == "year"@
    &&& is_u32_field(s.spec_fields()[12])
    &&& spec_field_u32(s.spec_fields()[12]) == bits_value(data, p0 + 120, 16)
    &&& spec_field_name(s.spec_fields()[13]) == "month"@
    &&& is_u32_field(s.spec_fields()[13])
    &&& spec_field_u32(s.spec_fields()[13]) == bits_value(data, p0 + 136, 8)
    &&& spec_field_name(s.spec_fields()[14]) == "day"@
    &&& is_u32_field(s.spec_fields()[14])
    &&& spec_field_u32(s.spec_fields()[14]) == bits_value(data, p0 + 144, 8)
    &&& spec_field_name(s.spec_fields()[15]) == "hour"@
    &&& is_u32_field(s.spec_fields()[15])
    &&& spec_field_u32(s.spec_fields()[15]) == bits_value(data, p0 + 152, 8)
    &&& spec_field_name(s.spec_fields()[16]) == "minute"@
    &&& is_u32_field(s.spec_fields()[16])
    &&& spec_field_u32(s.spec_fields()[16]) == bits_value(data, p0 + 160, 8)
    &&& spec_field_name(s.spec_fields()[17]) == "second"@
    &&& is_u32_field(s.spec_fields()[17])
    &&& spec_field_u32(s.spec_fields()[17]) == bits_value(data, p0 + 168, 8)
}

/// The shape of a decoded section 2 that is present, read from bit
/// `p0` of the buffer: its length, a reserved byte, and the local
/// bit run the length declares.
pub open spec fn section2_shape(s: BufrSection, data: Seq<u8>, p0: int) -> bool {
    &&& s.spec_index() == 2
    &&& s.spec_fields().len() == 3
    &&& spec_field_name(s.spec_fields()[0]) == "section_length"@
    &&& is_u32_field(s.spec_fields()[0])
    &&& spec_field_u32(s.spec_fields()[0]) == bits_value(data, p0, 24)
    &&& spec_field_name(s.spec_fields()[1]) == "reserved_bits"@
    &&& is_flag_field(s.spec_fields()[1], bits_value(data, p0 + 24, 8), 8)
    &&& spec_field_name(s.spec_fields()[2]) == "local_bits"@
    &&& is_raw_field(s.spec_fields()[2], 8 * (bits_value(data, p0, 24) - 4))
}

/// The shape of a decoded section 3: its length, reserved bits,
/// subset count, the two mode booleans, and the unexpanded
/// descriptor list.
pub open spec fn section3_shape(s: BufrSection, data: Seq<u8>, p0: int) -> bool {
    &&& s.spec_index() == 3
    &&& s.spec_fields().len() == 7
    &&& spec_field_name(s.spec_fields()[0]) == "section_length"@
    &&& is_u32_field(s.spec_fields()[0])
    &&& spec_field_u32(s.spec_fields()[0]) == bits_value(data, p0, 24)
    &&& spec_field_name(s.spec_fields()[1]) == "reserved_bits"@
    &&& is_flag_field(s.spec_fields()[1], bits_value(data, p0 + 24, 8), 8)
    &&& spec_field_name(s.spec_fields()[2]) == "n_subsets"@
    &&& is_u32_field(s.spec_fields()[2])
    &&& spec_field_u32(s.spec_fields()[2]) == bits_value(data, p0 + 32, 16)
    &&& spec_field_name(s.spec_fields()[3]) == "is_observation"@
    &&& is_bool_field(s.spec_fields()[3])
    &&& spec_field_bool(s.spec_fields()[3]) == (bits_value(data, p0 + 48, 1) != 0)
    &&& spec_field_name(s.spec_fields()[4]) == "is_compressed"@
    &&& is_bool_field(s.spec_fields()[4])
    &&& spec_field_bool(s.spec_fields()[4]) == (bits_value(data, p0 + 49, 1) != 0)
    &&& spec_field_name(s.spec_fields()[5]) == "reserved_bits"@
    &&& is_flag_field(s.spec_fields()[5], bits_value(data, p0 + 50, 6), 6)
    &&& spec_field_name(s.spec_fields()[6]) == "unexpanded_descriptors"@
    &&& s.spec_fields()[6] matches Field::UED(fu) && fu.value@.len() == (bits_value(
        data,
        p0,
        24,
    ) - 7) / 2 && (forall|i: int|
        0 <= i < fu.value@.len() ==> fu.value@[i] == spec_packed_id(data, p0 + 56 + 16 * i))
}

/// The shape of a decoded section 4, read from bit `p0` of the
/// buffer: its length, a reserved byte, and the payload bit run the
/// length declares.
pub open spec fn section4_shape(s: BufrSection, data: Seq<u8>, p0: int) -> bool {
    &&& s.spec_index() == 4
    &&& s.spec_fields().len() == 3
    &&& spec_field_name(s.spec_fields()[0]) == "section_length"@
    &&& is_u32_field(s.spec_fields()[0])
    &&& spec_field_u32(s.spec_fields()[0]) == bits_value(data, p0, 24)
    &&& spec_field_name(s.spec_fields()[1]) == "reserved_bits"@
    &&& is_flag_field(s.spec_fields()[1], bits_value(data, p0 + 24, 8), 8)
    &&& spec_field_name(s.spec_fields()[2]) == "template_data"@
    &&& is_raw_field(s.spec_fields()[2], 8 * (bits_value(data, p0, 24) - 4))
}

/// The shape of a decoded section 5: the four-byte stop signature,
/// which always reads "7777".
pub open spec fn section5_shape(s: BufrSection) -> bool {
    &&& s.spec_index() == 5
    &&& s.spec_fields().len() == 1
    &&& spec_field_name(s.spec_fields()[0]) == "stop_signature"@
    &&& is_bytes_field(s.spec_fields()[0])
    &&& spec_field_bytes(s.spec_fields()[0]) == "7777"@
}

/// True iff the input frames a message at all: a start signature
/// occurs, the declared total length follows it in full, is at least
/// the fixed section 0, and lies within the input.
pub open spec fn message_frame_ok(bytes: Seq<u8>) -> bool {
    match find_first(bytes, "BUFR".spec_bytes()) {
        Option::Some(p) => {
            &&& p + 7 <= bytes.len()
            &&& bits_value(bytes, 8 * (p + 4), 24) >= 7
            &&& p + bits_value(bytes, 8 * (p + 4), 24) <= bytes.len()
        },
        Option::None => false,
    }
}

/// True iff a framed message buffer decodes through all six sections:
/// edition 4, every declared section length within the buffer and at
/// least its fixed header, and the stop signature in place. This is
/// exactly when decoding succeeds, table checking aside.
pub open spec fn buffer_sections_ok(data: Seq<u8>) -> bool {
    let n = 8 * data.len();
    &&& 64 <= n
    &&& bits_value(data, 56, 8) == 4
    &&& 240 <= n
    &&& {
        let l2: int = if bits_value(data, 136, 1) != 0 {
            bits_value(data, 240, 24) as int
        } else {
            0
        };
        &&& (bits_value(data, 136, 1) != 0 ==> 240 + 24 <= n && l2 >= 4 && 240 + 8 * l2 <= n)
        &&& {
            let p3 = 240 + 8 * l2;
            &&& p3 + 24 <= n
            &&& {
                let l3 = bits_value(data, p3, 24) as int;
                &&& l3 >= 7
                &&& p3 + 8 * l3 <= n
                &&& {
                    let p4 = p3 + 8 * l3;
                    &&& p4 + 24 <= n
                    &&& {
                        let l4 = bits_value(data, p4, 24) as int;
                        &&& l4 >= 4
                        &&& p4 + 8 * l4 <= n
                        &&& {
                            let p5 = p4 + 8 * l4;
                            &&& p5 + 32 <= n
                            &&& Seq::new(
                                4,
                                |i: int| ((bits_value(data, p5 + 8 * i, 8) as u8) as char),
                            ) == "7777"@
                        }
                    }
                }
            }
        }
    }
}

/// The unexpanded descriptor ids of section 3 as the buffer carries
/// them: read from just after section 3's fixed header, whose offset
/// follows from section 2's presence bit and declared length.
pub open spec fn spec_section3_ids(data: Seq<u8>) -> Seq<crate::table::descriptor::ID> {
    let l2: int = if bits_value(data, 136, 1) != 0 {
        bits_value(data, 240, 24) as int
    } else {
        0
    };
    let p3 = 240 + 8 * l2;
    let n = (bits_value(data, p3, 24) - 7) / 2;
    Seq::new(
        (if n >= 0 {
            n
        } else {
            0
        }) as nat,
        |i: int| spec_packed_id(data, p3 + 56 + 16 * i),
    )
}

/// The message buffer that decoding works on: the input from the
/// first start signature through the total length declared just
/// after it.
pub open spec fn message_buffer(bytes: Seq<u8>) -> Seq<u8> {
    match find_first(bytes, "BUFR".spec_bytes()) {
        Option::Some(p) => bytes.subrange(p, p + bits_value(bytes, 8 * (p + 4), 24)),
        Option::None => Seq::empty(),
    }
}

/// What every successfully decoded message looks like, stated over
/// its message buffer `data`: six sections in order; an edition 4
/// header whose declared total length is exactly the buffer length;
/// the documented field names, kinds and order in every section; a
/// section 2 present exactly when section 1 says so; and a total
/// length that covers the fixed sections plus the three declared
/// section lengths.
pub open spec fn decoded_message_ok(msg: BufrMessage, data: Seq<u8>) -> bool {
    &&& msg.spec_sections().len() == 6
    &&& section0_shape(msg.spec_sections()[0], data)
    &&& spec_field_u32(msg.spec_sections()[0].spec_fields()[2]) == 4
    &&& spec_field_u32(msg.spec_sections()[0].spec_fields()[1]) == data.len()
    &&& section1_e4_shape(msg.spec_sections()[1], data, 64)
    &&& msg.spec_sections()[2].spec_index() == 2
    &&& (msg.spec_sections()[2].spec_fields().len() == 0 || section2_shape(
        msg.spec_sections()[2],
        data,
        240,
    ))
    &&& (msg.spec_sections()[2].spec_fields().len() == 0 <==> bits_value(data, 136, 1) == 0)
    &&& section3_shape(
        msg.spec_sections()[3],
        data,
        240 + 8 * crate::bufr::spec_section_length(msg.spec_sections()[2]),
    )
    &&& section4_shape(
        msg.spec_sections()[4],
        data,
        240 + 8 * (crate::bufr::spec_section_length(msg.spec_sections()[2])
            + crate::bufr::spec_section_length(msg.spec_sections()[3])),
    )
    &&& section5_shape(msg.spec_sections()[5])
    &&& 34 + crate::bufr::spec_section_length(msg.spec_sections()[2])
        + crate::bufr::spec_section_length(msg.spec_sections()[3])
        + crate::bufr::spec_section_length(msg.spec_sections()[4]) <= data.len()
}

/// Decode a message, validating section 3's descriptor list against
/// the given table bundle: the template is built, and its failure
/// fails the decode. Decoding succeeds exactly when the input frames
/// a message, its six sections parse, and the descriptor list
/// expands against the bundle.
pub fn decode_binary(table_group: &TableGroup, bytes: &[u8]) -> (r: Result<
    BufrMessage,
    BufrKitError,
>)
    ensures
        match r {
            Ok(msg) => {
                &&& find_first(bytes@, "BUFR".spec_bytes()) is Some
                &&& decoded_message_ok(msg, message_buffer(bytes@))
            },
            Err(_) => true,
        },
        r is Ok <==> message_frame_ok(bytes@) && buffer_sections_ok(message_buffer(bytes@))
            && crate::table::template::spec_expansion_ok(
            table_group,
            spec_section3_ids(message_buffer(bytes@)),
        ),
{
    decode_with(Some(table_group), bytes)
}

/// Decode a message's six sections without consulting any table
/// bundle: section 4's payload is kept as a raw bit run and the
/// descriptor list goes unchecked.
pub fn decode_sections(bytes: &[u8]) -> (r: Result<BufrMessage, BufrKitError>)
    ensures
        match r {
            Ok(msg) => {
                &&& find_first(bytes@, "BUFR".spec_bytes()) is Some
                &&& decoded_message_ok(msg, message_buffer(bytes@))
            },
            Err(_) => true,
        },
        r is Ok <==> message_frame_ok(bytes@) && buffer_sections_ok(message_buffer(bytes@)),
{
    decode_with(None, bytes)
}

/// The shared decode path behind `decode_binary` and
/// `decode_sections`.
fn decode_with(table_group: Option<&TableGroup>, bytes: &[u8]) -> (r: Result<
    BufrMessage,
    BufrKitError,
>)
    ensures
        match r {
            Ok(msg) => {
                &&& find_first(bytes@, "BUFR".spec_bytes()) is Some
                &&& decoded_message_ok(msg, message_buffer(bytes@))
                &&& message_frame_ok(bytes@)
                &&& buffer_sections_ok(message_buffer(bytes@))
            },
            Err(_) => true,
        },
        match table_group {
            Option::Some(tg) => r is Ok <==> message_frame_ok(bytes@) && buffer_sections_ok(
                message_buffer(bytes@),
            ) && crate::table::template::spec_expansion_ok(
                tg,
                spec_section3_ids(message_buffer(bytes@)),
            ),
            Option::None => r is Ok <==> message_frame_ok(bytes@) && buffer_sections_ok(
                message_buffer(bytes@),
            ),
        },
{
    let buf = prepare(bytes)?;
    let ghost data = buf@;
    proof {
        match find_first(bytes@, "BUFR".spec_bytes()) {
            Option::Some(p) => {
                crate::bits::lemma_bits_value_bound(bytes@, 8 * (p + 4), 24);
                vstd::arithmetic::power2::lemma2_to64();
                assert(data == message_buffer(bytes@));
            },
            Option::None => {
                assert(false);
            },
        }
    }
    let mut bd = BinaryDecoder::new(table_group, buf);
    let sections = match bd.decode() {
        Ok(s) => s,
        Err(e) => {
            return Err(e);
        },
    };
    proof {
        bd.br.lemma_position_in_bounds();
        // The declared total length equals the buffer length: the
        // 24 bits after the signature are the same window the length
        // field was read from.
        match find_first(bytes@, "BUFR".spec_bytes()) {
            Option::Some(p) => {
                assert(data.len() >= 7);
                assert forall|k: int| 0 <= k < 24 implies #[trigger] bit_at(data, 32 + k) == bit_at(
                    bytes@,
                    8 * (p + 4) + k,
                ) by {
                    let bi = (32 + k) / 8;
                    assert(0 <= bi < 8);
                    assert(data[bi] == bytes@[p + bi]);
                    assert((8 * (p + 4) + k) / 8 == p + bi);
                    assert((8 * (p + 4) + k) % 8 == (32 + k) % 8);
                }
                lemma_bits_value_window_eq(data, 32, bytes@, 8 * (p + 4), 24);
            },
            Option::None => {
                assert(false);
            },
        }
    }
    Ok(BufrMessage::new(sections))
}

/// The table group a message calls for: its section 1 identification
/// fields keyed under the given base directory, with the subcentre
/// defaulting to 0 where the edition's layout has none.
pub fn table_group_id_for(message: &BufrMessage, base_dir: &str) -> (r: Result<
    crate::table::table::TableGroupId,
    BufrKitError,
>)
    ensures
        match r {
            Ok(id) => {
                &&& message.spec_sections().len() >= 2
                &&& id@.0 == base_dir@
                &&& (match crate::bufr::spec_field_by_name(
                    message.spec_sections()[1].spec_fields(),
                    "master_table_number"@,
                ) {
                    Option::Some(f) => is_u32_field(f) && id.master_table_number == spec_field_u32(
                        f,
                    ) as isize,
                    Option::None => false,
                })
                &&& (match crate::bufr::spec_field_by_name(
                    message.spec_sections()[1].spec_fields(),
                    "originating_centre"@,
                ) {
                    Option::Some(f) => is_u32_field(f) && id.centre_number == spec_field_u32(f) as isize,
                    Option::None => false,
                })
                &&& (match crate::bufr::spec_field_by_name(
                    message.spec_sections()[1].spec_fields(),
                    "originating_subcentre"@,
                ) {
                    Option::Some(f) => is_u32_field(f) ==> id.sub_centre_number == spec_field_u32(
                        f,
                    ) as isize,
                    Option::None => id.sub_centre_number == 0,
                })
                &&& (match crate::bufr::spec_field_by_name(
                    message.spec_sections()[1].spec_fields(),
                    "master_table_version"@,
                ) {
                    Option::Some(f) => is_u32_field(f) && id.version_number == spec_field_u32(f) as isize,
                    Option::None => false,
                })
            },
            Err(_) => {
                ||| message.spec_sections().len() < 2
                ||| (match crate::bufr::spec_field_by_name(
                    message.spec_sections()[1].spec_fields(),
                    "master_table_number"@,
                ) {
                    Option::Some(f) => !is_u32_field(f),
                    Option::None => true,
                })
                ||| (match crate::bufr::spec_field_by_name(
                    message.spec_sections()[1].spec_fields(),
                    "originating_centre"@,
                ) {
                    Option::Some(f) => !is_u32_field(f),
                    Option::None => true,
                })
                ||| (match crate::bufr::spec_field_by_name(
                    message.spec_sections()[1].spec_fields(),
                    "master_table_version"@,
                ) {
                    Option::Some(f) => !is_u32_field(f),
                    Option::None => true,
                })
            },
        },
{
    if message.section_count() < 2 {
        proof {
            reveal_strlit("message has no section 1");
        }
        return Err(BufrKitError::new(String::from_str("message has no section 1")));
    }
    let section_1 = message.section(1);
    let master = match section_1.field_by_name("master_table_number") {
        Some(f) => {
            if let Field::SIMPLE(fs) = f {
                if let SimpleData::U32(v) = &fs.value {
                    *v
                } else {
                    return Err(missing_identification_error());
                }
            } else {
                return Err(missing_identification_error());
            }
        },
        None => {
            return Err(missing_identification_error());
        },
    };
    let centre = match section_1.field_by_name("originating_centre") {
        Some(f) => {
            if let Field::SIMPLE(fs) = f {
                if let SimpleData::U32(v) = &fs.value {
                    *v
                } else {
                    return Err(missing_identification_error());
                }
            } else {
                return Err(missing_identification_error());
            }
        },
        None => {
            return Err(missing_identification_error());
        },
    };
    let subcentre = match section_1.field_by_name("originating_subcentre") {
        Some(f) => {
            if let Field::SIMPLE(fs) = f {
                if let SimpleData::U32(v) = &fs.value {
                    *v
                } else {
                    0
                }
            } else {
                0
            }
        },
        None => 0,
    };
    let version = match section_1.field_by_name("master_table_version") {
        Some(f) => {
            if let Field::SIMPLE(fs) = f {
                if let SimpleData::U32(v) = &fs.value {
                    *v
                } else {
                    return Err(missing_identification_error());
                }
            } else {
                return Err(missing_identification_error());
            }
        },
        None => {
            return Err(missing_identification_error());
        },
    };
    Ok(
        crate::table::table::TableGroupId {
            base_dir: base_dir.to_owned(),
            master_table_number: #[verifier::truncate] (master as isize),
            centre_number: #[verifier::truncate] (centre as isize),
            sub_centre_number: #[verifier::truncate] (subcentre as isize),
            version_number: #[verifier::truncate] (version as isize),
        },
    )
}

/// The error for a message whose section 1 lacks the identification
/// fields the table lookup needs.
fn missing_identification_error() -> (r: BufrKitError) {
    proof {
        reveal_strlit("section 1 lacks table identification fields");
    }
    BufrKitError::new(String::from_str("section 1 lacks table identification fields"))
}

/// In an edition 4 section 1, the "is_section2_presents" field is the
/// sixth, and no later field shares its name.
proof fn lemma_section1_field_names(s: BufrSection, data: Seq<u8>, p0: int)
    requires
        section1_e4_shape(s, data, p0),
    ensures
        crate::bufr::spec_field_by_name(s.spec_fields(), "is_section2_presents"@) == Option::Some(
            s.spec_fields()[5],
        ),
{
    reveal_strlit("is_section2_presents");
    reveal_strlit("flag_bits");
    reveal_strlit("data_category");
    reveal_strlit("data_i18n_subcategory");
    reveal_strlit("data_local_subcategory");
    reveal_strlit("master_table_version");
    reveal_strlit("local_table_version");
    reveal_strlit("year");
    reveal_strlit("month");
    reveal_strlit("day");
    reveal_strlit("hour");
    reveal_strlit("minute");
    reveal_strlit("second");
    assert("master_table_version"@[0] == 'm' && "is_section2_presents"@[0] == 'i');
    assert(spec_field_name(s.spec_fields()[10]) != "is_section2_presents"@);
    crate::bufr::lemma_field_by_name_at(s.spec_fields(), "is_section2_presents"@, 5);
}

/// The section-by-section decoder: a bit cursor over the message
/// buffer and, when one is at hand, the table bundle that validates
/// section 3's descriptor expansion.
pub struct BinaryDecoder<'a> {
    table_group: Option<&'a TableGroup>,
    br: BitReader,
}

impl<'a> BinaryDecoder<'a> {
    pub closed spec fn data(&self) -> Seq<u8> {
        self.br.data()
    }

    pub closed spec fn position(&self) -> nat {
        self.br.position()
    }

    pub closed spec fn inv(&self) -> bool {
        self.br.inv()
    }

    pub closed spec fn has_table_group(&self) -> bool {
        self.table_group is Some
    }

    /// The bundle the decoder checks templates against, if any.
    pub closed spec fn spec_table_group(&self) -> Option<&'a TableGroup> {
        self.table_group
    }

    /// A decoder over `buffer`, checking templates against
    /// `table_group` where one is given.
    pub fn new(table_group: Option<&'a TableGroup>, buffer: Vec<u8>) -> (r: BinaryDecoder<'a>)
        requires
            8 * buffer@.len() + 64 <= usize::MAX,
        ensures
            r.inv(),
            r.data() == buffer@,
            r.position() == 0,
            r.has_table_group() == table_group is Some,
            r.spec_table_group() == table_group,
    {
        BinaryDecoder { table_group, br: BitReader::new(buffer) }
    }

    /// Decode section 0 and append it. Fails iff the buffer holds
    /// fewer than eight bytes or the edition is not 4.
    pub fn decode_section_0(&mut self, sections: &mut Vec<BufrSection>) -> (r: Result<
        (),
        BufrKitError,
    >)
        requires
            old(self).inv(),
            old(self).position() == 0,
        ensures
            final(self).inv(),
            final(self).data() == old(self).data(),
            final(self).has_table_group() == old(self).has_table_group(),
            final(self).spec_table_group() == old(self).spec_table_group(),
            match r {
                Ok(_) => {
                    &&& 64 <= 8 * old(self).data().len()
                    &&& final(self).position() == 64
                    &&& final(sections)@ == old(sections)@.push(final(sections)@.last())
                    &&& section0_shape(final(sections)@.last(), old(self).data())
                    &&& bits_value(old(self).data(), 56, 8) == 4
                },
                Err(_) => {
                    &&& final(sections)@ == old(sections)@
                    &&& {
                        ||| 64 > 8 * old(self).data().len()
                        ||| bits_value(old(self).data(), 56, 8) != 4
                    }
                },
            },
    {
        let ghost data = self.data();
        let f_sig = read_field_bytes(&mut self.br, "start_signature", 4)?;
        let f_len = read_field_u32(&mut self.br, "length", 24)?;
        let field = read_field_u32(&mut self.br, "edition", 8)?;
        if field.get_u32() != 4 {
            proof {
                reveal_strlit("Only support BUFR edition 4");
            }
            return Err(BufrKitError::new(String::from_str("Only support BUFR edition 4")));
        }
        let mut fields: Vec<Field> = Vec::new();
        fields.push(f_sig);
        fields.push(f_len);
        fields.push(field);
        sections.push(BufrSection::new(0, fields));
        Ok(())
    }

    /// Decode section 1 and append it, choosing the layout of the
    /// edition recorded in section 0. Fails iff the edition is
    /// unknown or the buffer runs out.
    pub fn decode_section_1(&mut self, sections: &mut Vec<BufrSection>) -> (r: Result<
        (),
        BufrKitError,
    >)
        requires
            old(self).inv(),
            old(sections)@.len() >= 1,
            crate::bufr::spec_field_by_name(old(sections)@[0].spec_fields(), "edition"@)
                matches Option::Some(f) && is_u32_field(f),
        ensures
            final(self).inv(),
            final(self).data() == old(self).data(),
            final(self).has_table_group() == old(self).has_table_group(),
            final(self).spec_table_group() == old(self).spec_table_group(),
            match r {
                Ok(_) => {
                    &&& final(sections)@ == old(sections)@.push(final(sections)@.last())
                    &&& final(sections)@.last().spec_index() == 1
                    &&& (match crate::bufr::spec_field_by_name(
                        old(sections)@[0].spec_fields(),
                        "edition"@,
                    ) {
                        Option::Some(f) => {
                            &&& (spec_field_u32(f) == 4 ==> {
                                &&& section1_e4_shape(
                                    final(sections)@.last(),
                                    old(self).data(),
                                    old(self).position() as int,
                                )
                                &&& final(self).position() == old(self).position() + 176
                            })
                            &&& (spec_field_u32(f) == 1 ==> final(sections)@.last().spec_fields().len()
                                == 14 && final(self).position() == old(self).position() + 112)
                            &&& (spec_field_u32(f) == 2 ==> final(sections)@.last().spec_fields().len()
                                == 16 && final(self).position() == old(self).position() + 144)
                            &&& (spec_field_u32(f) == 3 ==> final(sections)@.last().spec_fields().len()
                                == 18 && final(self).position() == old(self).position() + 152)
                            &&& (1 <= spec_field_u32(f) <= 4)
                        },
                        Option::None => false,
                    })
                },
                Err(_) => final(sections)@ == old(sections)@ && (match crate::bufr::spec_field_by_name(
                    old(sections)@[0].spec_fields(),
                    "edition"@,
                ) {
                    Option::Some(f) => {
                        ||| !(1 <= spec_field_u32(f) <= 4)
                        ||| (spec_field_u32(f) == 1 && old(self).position() + 112 > 8 * old(
                            self,
                        ).data().len())
                        ||| (spec_field_u32(f) == 2 && old(self).position() + 144 > 8 * old(
                            self,
                        ).data().len())
                        ||| (spec_field_u32(f) == 3 && old(self).position() + 152 > 8 * old(
                            self,
                        ).data().len())
                        ||| (spec_field_u32(f) == 4 && old(self).position() + 176 > 8 * old(
                            self,
                        ).data().len())
                    },
                    Option::None => false,
                }),
            },
    {
        let ghost p0 = self.position() as int;
        let edition = match sections[0].field_by_name("edition") {
            Some(f) => f.get_u32(),
            None => {
                proof {
                    assert(false);
                }
                0
            },
        };
        if edition == 1 {
            let mut fields: Vec<Field> = Vec::new();
            fields.push(read_field_u32(&mut self.br, "originating_centre", 16)?);
            fields.push(read_field_u32(&mut self.br, "update_sequence_number", 8)?);
            fields.push(read_field_bool(&mut self.br, "is_section2_presents")?);
            fields.push(read_field_flag(&mut self.br, "flag_bits", 7)?);
            fields.push(read_field_u32(&mut self.br, "data_category", 8)?);
            fields.push(read_field_u32(&mut self.br, "data_local_subcategory", 8)?);
            fields.push(read_field_u32(&mut self.br, "master_table_version", 8)?);
            fields.push(read_field_u32(&mut self.br, "local_table_version", 8)?);
            fields.push(read_field_u32(&mut self.br, "year", 8)?);
            fields.push(read_field_u32(&mut self.br, "month", 8)?);
            fields.push(read_field_u32(&mut self.br, "day", 8)?);
            fields.push(read_field_u32(&mut self.br, "hour", 8)?);
            fields.push(read_field_u32(&mut self.br, "minute", 8)?);
            fields.push(read_field_u32(&mut self.br, "second", 8)?);
            sections.push(BufrSection::new(1, fields));
            Ok(())
        } else if edition == 2 {
            let mut fields: Vec<Field> = Vec::new();
            fields.push(read_field_u32(&mut self.br, "section_length", 24)?);
            fields.push(read_field_u32(&mut self.br, "master_table_number", 8)?);
            fields.push(read_field_u32(&mut self.br, "originating_centre", 16)?);
            fields.push(read_field_u32(&mut self.br, "update_sequence_number", 8)?);
            fields.push(read_field_bool(&mut self.br, "is_section2_presents")?);
            fields.push(read_field_flag(&mut self.br, "flag_bits", 7)?);
            fields.push(read_field_u32(&mut self.br, "data_category", 8)?);
            fields.push(read_field_u32(&mut self.br, "data_local_subcategory", 8)?);
            fields.push(read_field_u32(&mut self.br, "master_table_version", 8)?);
            fields.push(read_field_u32(&mut self.br, "local_table_version", 8)?);
            fields.push(read_field_u32(&mut self.br, "year", 8)?);
            fields.push(read_field_u32(&mut self.br, "month", 8)?);
            fields.push(read_field_u32(&mut self.br, "day", 8)?);
            fields.push(read_field_u32(&mut self.br, "hour", 8)?);
            fields.push(read_field_u32(&mut self.br, "minute", 8)?);
            fields.push(read_field_u32(&mut self.br, "second", 8)?);
            sections.push(BufrSection::new(1, fields));
            Ok(())
        } else if edition == 3 {
            let mut fields: Vec<Field> = Vec::new();
            fields.push(read_field_u32(&mut self.br, "section_length", 24)?);
            fields.push(read_field_u32(&mut self.br, "master_table_number", 8)?);
            fields.push(read_field_u32(&mut self.br, "originating_subcentre", 8)?);
            fields.push(read_field_u32(&mut self.br, "originating_centre", 8)?);
            fields.push(read_field_u32(&mut self.br, "update_sequence_number", 8)?);
            fields.push(read_field_bool(&mut self.br, "is_section2_presents")?);
            fields.push(read_field_flag(&mut self.br, "flag_bits", 7)?);
            fields.push(read_field_u32(&mut self.br, "data_category", 8)?);
            fields.push(read_field_u32(&mut self.br, "data_i18n_subcategory", 8)?);
            fields.push(read_field_u32(&mut self.br, "data_local_subcategory", 8)?);
            fields.push(read_field_u32(&mut self.br, "master_table_version", 8)?);
            fields.push(read_field_u32(&mut self.br, "local_table_version", 8)?);
            fields.push(read_field_u32(&mut self.br, "year", 8)?);
            fields.push(read_field_u32(&mut self.br, "month", 8)?);
            fields.push(read_field_u32(&mut self.br, "day", 8)?);
            fields.push(read_field_u32(&mut self.br, "hour", 8)?);
            fields.push(read_field_u32(&mut self.br, "minute", 8)?);
            fields.push(read_field_u32(&mut self.br, "second", 8)?);
            sections.push(BufrSection::new(1, fields));
            Ok(())
        } else if edition == 4 {
            let mut fields: Vec<Field> = Vec::new();
            fields.push(read_field_u32(&mut self.br, "section_length", 24)?);
            fields.push(read_field_u32(&mut self.br, "master_table_number", 8)?);
            fields.push(read_field_u32(&mut self.br, "originating_centre", 16)?);
            fields.push(read_field_u32(&mut self.br, "originating_subcentre", 16)?);
            fields.push(read_field_u32(&mut self.br, "update_sequence_number", 8)?);
            fields.push(read_field_bool(&mut self.br, "is_section2_presents")?);
            fields.push(read_field_flag(&mut self.br, "flag_bits", 7)?);
            fields.push(read_field_u32(&mut self.br, "data_category", 8)?);
            fields.push(read_field_u32(&mut self.br, "data_i18n_subcategory", 8)?);
            fields.push(read_field_u32(&mut self.br, "data_local_subcategory", 8)?);
            fields.push(read_field_u32(&mut self.br, "master_table_version", 8)?);
            fields.push(read_field_u32(&mut self.br, "local_table_version", 8)?);
            fields.push(read_field_u32(&mut self.br, "year", 16)?);
            fields.push(read_field_u32(&mut self.br, "month", 8)?);
            fields.push(read_field_u32(&mut self.br, "day", 8)?);
            fields.push(read_field_u32(&mut self.br, "hour", 8)?);
            fields.push(read_field_u32(&mut self.br, "minute", 8)?);
            fields.push(read_field_u32(&mut self.br, "second", 8)?);
            sections.push(BufrSection::new(1, fields));
            Ok(())
        } else {
            proof {
                reveal_strlit("Unknown BUFR edition number");
            }
            Err(BufrKitError::new(String::from_str("Unknown BUFR edition number")))
        }
    }

    /// Decode section 2 and append it: empty when section 1 says it
    /// is absent, else its length, a reserved byte, and the local
    /// bits the length declares.
    pub fn decode_section_2(&mut self, sections: &mut Vec<BufrSection>) -> (r: Result<
        (),
        BufrKitError,
    >)
        requires
            old(self).inv(),
            old(sections)@.len() >= 2,
            crate::bufr::spec_field_by_name(
                old(sections)@[1].spec_fields(),
                "is_section2_presents"@,
            ) matches Option::Some(f) && is_bool_field(f),
        ensures
            final(self).inv(),
            final(self).data() == old(self).data(),
            final(self).has_table_group() == old(self).has_table_group(),
            final(self).spec_table_group() == old(self).spec_table_group(),
            match r {
                Ok(_) => {
                    &&& final(sections)@ == old(sections)@.push(final(sections)@.last())
                    &&& final(sections)@.last().spec_index() == 2
                    &&& (match crate::bufr::spec_field_by_name(
                        old(sections)@[1].spec_fields(),
                        "is_section2_presents"@,
                    ) {
                        Option::Some(f) => if spec_field_bool(f) {
                            &&& section2_shape(
                                final(sections)@.last(),
                                old(self).data(),
                                old(self).position() as int,
                            )
                            &&& crate::bufr::spec_section_length(final(sections)@.last())
                                == bits_value(old(self).data(), old(self).position() as int, 24)
                            &&& bits_value(old(self).data(), old(self).position() as int, 24) >= 4
                            &&& final(self).position() == old(self).position() + 8 * bits_value(
                                old(self).data(),
                                old(self).position() as int,
                                24,
                            )
                        } else {
                            &&& final(sections)@.last().spec_fields().len() == 0
                            &&& final(self).position() == old(self).position()
                        },
                        Option::None => false,
                    })
                },
                Err(_) => {
                    &&& final(sections)@ == old(sections)@
                    &&& (match crate::bufr::spec_field_by_name(
                        old(sections)@[1].spec_fields(),
                        "is_section2_presents"@,
                    ) {
                        Option::Some(f) => spec_field_bool(f),
                        Option::None => false,
                    })
                    &&& {
                        ||| old(self).position() + 24 > 8 * old(self).data().len()
                        ||| bits_value(old(self).data(), old(self).position() as int, 24) < 4
                        ||| old(self).position() + 8 * bits_value(
                            old(self).data(),
                            old(self).position() as int,
                            24,
                        ) > 8 * old(self).data().len()
                    }
                },
            },
    {
        let present = match sections[1].field_by_name("is_section2_presents") {
            Some(f) => f.get_bool(),
            None => {
                proof {
                    assert(false);
                }
                false
            },
        };
        if present {
            let field = read_field_u32(&mut self.br, "section_length", 24)?;
            let l2 = field.get_u32();
            proof {
                crate::bits::lemma_bits_value_bound(
                    old(self).data(),
                    old(self).position() as int,
                    24,
                );
                vstd::arithmetic::power2::lemma2_to64();
            }
            if l2 < 4 {
                proof {
                    reveal_strlit("section 2 length too short");
                }
                return Err(BufrKitError::new(String::from_str("section 2 length too short")));
            }
            let n_local_bits = ((l2 - 4) as usize) * 8;
            let f_res = read_field_flag(&mut self.br, "reserved_bits", 8)?;
            let f_loc = read_field_raw(&mut self.br, "local_bits", n_local_bits)?;
            let mut fields: Vec<Field> = Vec::new();
            fields.push(field);
            fields.push(f_res);
            fields.push(f_loc);
            sections.push(BufrSection::new(2, fields));
            Ok(())
        } else {
            let fields: Vec<Field> = Vec::new();
            sections.push(BufrSection::new(2, fields));
            Ok(())
        }
    }

    /// Decode section 3 and append it: its length, a reserved byte,
    /// the subset count, the observation and compression booleans,
    /// and the unexpanded descriptor ids, sixteen bits each; the
    /// byte-alignment padding the length declares is discarded.
    pub fn decode_section_3(&mut self, sections: &mut Vec<BufrSection>) -> (r: Result<
        (),
        BufrKitError,
    >)
        requires
            old(self).inv(),
        ensures
            final(self).inv(),
            final(self).data() == old(self).data(),
            final(self).has_table_group() == old(self).has_table_group(),
            final(self).spec_table_group() == old(self).spec_table_group(),
            match r {
                Ok(_) => {
                    &&& final(sections)@ == old(sections)@.push(final(sections)@.last())
                    &&& section3_shape(
                        final(sections)@.last(),
                        old(self).data(),
                        old(self).position() as int,
                    )
                    &&& bits_value(old(self).data(), old(self).position() as int, 24) >= 7
                    &&& final(self).position() == old(self).position() + 8 * bits_value(
                        old(self).data(),
                        old(self).position() as int,
                        24,
                    )
                },
                Err(_) => {
                    &&& final(sections)@ == old(sections)@
                    &&& {
                        ||| old(self).position() + 24 > 8 * old(self).data().len()
                        ||| bits_value(old(self).data(), old(self).position() as int, 24) < 7
                        ||| old(self).position() + 8 * bits_value(
                            old(self).data(),
                            old(self).position() as int,
                            24,
                        ) > 8 * old(self).data().len()
                    }
                },
            },
    {
        let ghost p0 = self.position() as int;
        let field = read_field_u32(&mut self.br, "section_length", 24)?;
        let l3 = field.get_u32();
        proof {
            crate::bits::lemma_bits_value_bound(old(self).data(), old(self).position() as int, 24);
            vstd::arithmetic::power2::lemma2_to64();
        }
        if l3 < 7 {
            proof {
                reveal_strlit("section 3 length too short");
            }
            return Err(BufrKitError::new(String::from_str("section 3 length too short")));
        }
        let n_descriptors = ((l3 - 7) / 2) as usize;
        let mut fields: Vec<Field> = Vec::new();
        fields.push(field);
        fields.push(read_field_flag(&mut self.br, "reserved_bits", 8)?);
        let field = read_field_u32(&mut self.br, "n_subsets", 16)?;
        fields.push(field);
        fields.push(read_field_bool(&mut self.br, "is_observation")?);
        fields.push(read_field_bool(&mut self.br, "is_compressed")?);
        fields.push(read_field_flag(&mut self.br, "reserved_bits", 6)?);
        fields.push(read_field_ued(&mut self.br, "unexpanded_descriptors", n_descriptors)?);
        // Discard the alignment padding the section length declares.
        let pad_bits = (((l3 - 7) % 2) as usize) * 8;
        if pad_bits > 0 {
            match read_field_raw(&mut self.br, "padding", pad_bits) {
                Ok(_) => {},
                Err(e) => {
                    return Err(e);
                },
            }
        }
        assert(self.position() == p0 + 8 * bits_value(self.data(), p0, 24));
        sections.push(BufrSection::new(3, fields));
        Ok(())
    }

    /// Decode section 4 and append it: its length, a reserved byte,
    /// and the payload bit run the length declares. Where a table
    /// bundle is at hand, section 3's descriptor list must expand
    /// into a template before the payload is accepted.
    pub fn decode_section_4(&mut self, sections: &mut Vec<BufrSection>) -> (r: Result<
        (),
        BufrKitError,
    >)
        requires
            old(self).inv(),
            old(sections)@.len() >= 4,
            crate::bufr::spec_field_by_name(
                old(sections)@[3].spec_fields(),
                "unexpanded_descriptors"@,
            ) matches Option::Some(f) && f matches Field::UED(_),
        ensures
            final(self).inv(),
            final(self).data() == old(self).data(),
            final(self).has_table_group() == old(self).has_table_group(),
            final(self).spec_table_group() == old(self).spec_table_group(),
            match r {
                Ok(_) => {
                    &&& final(sections)@ == old(sections)@.push(final(sections)@.last())
                    &&& section4_shape(
                        final(sections)@.last(),
                        old(self).data(),
                        old(self).position() as int,
                    )
                    &&& (match old(self).spec_table_group() {
                        Option::Some(tg) => match crate::bufr::spec_field_by_name(
                            old(sections)@[3].spec_fields(),
                            "unexpanded_descriptors"@,
                        ) {
                            Option::Some(f) => f matches Field::UED(fu)
                                && crate::table::template::spec_expansion_ok(tg, fu.value@),
                            Option::None => false,
                        },
                        Option::None => true,
                    })
                    &&& crate::bufr::spec_section_length(final(sections)@.last()) == bits_value(
                        old(self).data(),
                        old(self).position() as int,
                        24,
                    )
                    &&& bits_value(old(self).data(), old(self).position() as int, 24) >= 4
                    &&& final(self).position() == old(self).position() + 8 * bits_value(
                        old(self).data(),
                        old(self).position() as int,
                        24,
                    )
                },
                Err(_) => {
                    &&& final(sections)@ == old(sections)@
                    &&& {
                        ||| old(self).position() + 24 > 8 * old(self).data().len()
                        ||| bits_value(old(self).data(), old(self).position() as int, 24) < 4
                        ||| old(self).position() + 8 * bits_value(
                            old(self).data(),
                            old(self).position() as int,
                            24,
                        ) > 8 * old(self).data().len()
                        ||| (match old(self).spec_table_group() {
                            Option::Some(tg) => match crate::bufr::spec_field_by_name(
                                old(sections)@[3].spec_fields(),
                                "unexpanded_descriptors"@,
                            ) {
                                Option::Some(f) => f matches Field::UED(fu)
                                    && !crate::table::template::spec_expansion_ok(tg, fu.value@),
                                Option::None => false,
                            },
                            Option::None => false,
                        })
                    }
                },
            },
    {
        let field = read_field_u32(&mut self.br, "section_length", 24)?;
        let l4 = field.get_u32();
        proof {
            crate::bits::lemma_bits_value_bound(old(self).data(), old(self).position() as int, 24);
            vstd::arithmetic::power2::lemma2_to64();
        }
        if l4 < 4 {
            proof {
                reveal_strlit("section 4 length too short");
            }
            return Err(BufrKitError::new(String::from_str("section 4 length too short")));
        }
        let n_data_bits = ((l4 - 4) as usize) * 8;
        let mut fields: Vec<Field> = Vec::new();
        fields.push(field);
        fields.push(read_field_flag(&mut self.br, "reserved_bits", 8)?);

        if let Some(table_group) = self.table_group {
            let ued = match sections[3].field_by_name("unexpanded_descriptors") {
                Some(f) => f.get_unexpanded_descriptors(),
                None => {
                    proof {
                        assert(false);
                    }
                    vstd::pervasive::unreached()
                },
            };
            Template::new(table_group, ued.as_slice())?;
        }

        fields.push(read_field_raw(&mut self.br, "template_data", n_data_bits)?);
        sections.push(BufrSection::new(4, fields));
        Ok(())
    }

    /// Decode all six sections in order.
    pub fn decode(&mut self) -> (r: Result<Vec<BufrSection>, BufrKitError>)
        requires
            old(self).inv(),
            old(self).position() == 0,
        ensures
            final(self).inv(),
            final(self).data() == old(self).data(),
            match r {
                Ok(sections) => {
                    &&& sections@.len() == 6
                    &&& section0_shape(sections@[0], old(self).data())
                    &&& bits_value(old(self).data(), 56, 8) == 4
                    &&& section1_e4_shape(sections@[1], old(self).data(), 64)
                    &&& sections@[2].spec_index() == 2
                    &&& (sections@[2].spec_fields().len() == 0 || section2_shape(
                        sections@[2],
                        old(self).data(),
                        240,
                    ))
                    &&& (sections@[2].spec_fields().len() == 0 <==> bits_value(
                        old(self).data(),
                        136,
                        1,
                    ) == 0)
                    &&& section3_shape(
                        sections@[3],
                        old(self).data(),
                        240 + 8 * crate::bufr::spec_section_length(sections@[2]),
                    )
                    &&& section4_shape(
                        sections@[4],
                        old(self).data(),
                        240 + 8 * (crate::bufr::spec_section_length(sections@[2])
                            + crate::bufr::spec_section_length(sections@[3])),
                    )
                    &&& section5_shape(sections@[5])
                    &&& final(self).position() == 272 + 8 * (crate::bufr::spec_section_length(
                        sections@[2],
                    ) + crate::bufr::spec_section_length(sections@[3])
                        + crate::bufr::spec_section_length(sections@[4]))
                    &&& buffer_sections_ok(old(self).data())
                    &&& (match old(self).spec_table_group() {
                        Option::Some(tg) => crate::table::template::spec_expansion_ok(
                            tg,
                            spec_section3_ids(old(self).data()),
                        ),
                        Option::None => true,
                    })
                },
                Err(_) => {
                    ||| !buffer_sections_ok(old(self).data())
                    ||| (match old(self).spec_table_group() {
                        Option::Some(tg) => !crate::table::template::spec_expansion_ok(
                            tg,
                            spec_section3_ids(old(self).data()),
                        ),
                        Option::None => false,
                    })
                },
            },
    {
        let ghost data = self.data();
        let mut sections: Vec<BufrSection> = Vec::new();
        self.decode_section_0(&mut sections)?;
        proof {
            assert(crate::bufr::spec_field_by_name(sections@[0].spec_fields(), "edition"@)
                == Option::Some(sections@[0].spec_fields()[2]));
        }
        self.decode_section_1(&mut sections)?;
        proof {
            lemma_section1_field_names(sections@[1], data, 64);
        }
        self.decode_section_2(&mut sections)?;
        self.decode_section_3(&mut sections)?;
        proof {
            assert(crate::bufr::spec_field_by_name(
                sections@[3].spec_fields(),
                "unexpanded_descriptors"@,
            ) == Option::Some(sections@[3].spec_fields()[6]));
            match sections@[3].spec_fields()[6] {
                Field::UED(fu) => {
                    assert(fu.value@ =~= spec_section3_ids(data));
                },
                _ => {
                    assert(false);
                },
            }
        }
        self.decode_section_4(&mut sections)?;
        self.decode_section_5(&mut sections)?;
        proof {
            self.br.lemma_position_in_bounds();
            assert(buffer_sections_ok(data));
        }
        Ok(sections)
    }

    /// Decode section 5 and append it. Fails iff the buffer runs out
    /// or the four bytes at the cursor are not the stop signature.
    pub fn decode_section_5(&mut self, sections: &mut Vec<BufrSection>) -> (r: Result<
        (),
        BufrKitError,
    >)
        requires
            old(self).inv(),
        ensures
            final(self).inv(),
            final(self).data() == old(self).data(),
            final(self).has_table_group() == old(self).has_table_group(),
            final(self).spec_table_group() == old(self).spec_table_group(),
            match r {
                Ok(_) => {
                    &&& final(sections)@ == old(sections)@.push(final(sections)@.last())
                    &&& section5_shape(final(sections)@.last())
                    &&& final(self).position() == old(self).position() + 32
                    &&& Seq::new(
                        4,
                        |i: int|
                            ((bits_value(
                                old(self).data(),
                                old(self).position() + 8 * i,
                                8,
                            ) as u8) as char),
                    ) == "7777"@
                },
                Err(_) => {
                    &&& final(sections)@ == old(sections)@
                    &&& {
                        ||| old(self).position() + 32 > 8 * old(self).data().len()
                        ||| Seq::new(
                            4,
                            |i: int|
                                ((bits_value(
                                    old(self).data(),
                                    old(self).position() + 8 * i,
                                    8,
                                ) as u8) as char),
                        ) != "7777"@
                    }
                },
            },
    {
        let field = read_field_bytes(&mut self.br, "stop_signature", 4)?;
        let matches_stop = {
            let sig = field.get_bytes();
            let stop = "7777";
            let sig_owned = sig.to_owned();
            let stop_owned = stop.to_owned();
            sig_owned.eq(&stop_owned)
        };
        if !matches_stop {
            proof {
                assert(spec_field_bytes(field) =~= Seq::new(
                    4,
                    |i: int|
                        ((bits_value(
                            old(self).data(),
                            old(self).position() + 8 * i,
                            8,
                        ) as u8) as char),
                ));
                reveal_strlit("Stop signature expected");
            }
            return Err(BufrKitError::new(String::from_str("Stop signature expected")));
        }
        proof {
            assert(spec_field_bytes(field) =~= Seq::new(
                4,
                |i: int|
                    ((bits_value(old(self).data(), old(self).position() + 8 * i, 8) as u8) as char),
            ));
        }
        let mut fields: Vec<Field> = Vec::new();
        fields.push(field);
        sections.push(BufrSection::new(5, fields));
        Ok(())
    }
}

} // verus!

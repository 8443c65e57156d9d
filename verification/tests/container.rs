use csv_to_mtx::matrix::build_matrix;
use csv_to_mtx::mtx::{
    encode, encode_native, encode_portable, host_is_little_endian, push_bytes, push_header,
    push_word, push_words, push_zones, to_unsigned,
};
use csv_to_mtx::output::{is_gz_name, packed_output, write_mtx_file, WriteError};
use csv_to_mtx::reader::read_csv;
use csv_to_mtx::records::{read_records, Field};
use csv_to_mtx::zones::get_all_zones;

fn number_in(text: &[u8]) -> Option<u32> {
    std::str::from_utf8(text).ok()?.parse::<f32>().ok().map(f32::to_bits)
}

fn input_rows(input: &[u8]) -> Vec<Option<Vec<Field>>> {
    read_records(input, false)
        .into_iter()
        .map(|r| {
            r.map(|fields| {
                fields
                    .into_iter()
                    .map(|text| {
                        let number = number_in(&text);
                        Field::new(text, number)
                    })
                    .collect()
            })
        })
        .collect()
}

fn expected_container(zones: &[i32], matrix: &[f32]) -> Vec<u8> {
    let mut out = Vec::new();
    out.extend_from_slice(&0xC4D4F1B2u32.to_le_bytes());
    out.extend_from_slice(&1i32.to_le_bytes());
    out.extend_from_slice(&1i32.to_le_bytes());
    out.extend_from_slice(&2i32.to_le_bytes());
    out.extend_from_slice(&(zones.len() as i32).to_le_bytes());
    out.extend_from_slice(&(zones.len() as i32).to_le_bytes());
    for _ in 0..2 {
        for z in zones {
            out.extend_from_slice(&z.to_le_bytes());
        }
    }
    for v in matrix {
        out.extend_from_slice(&v.to_le_bytes());
    }
    out
}

fn unpacked(stream: &[u8]) -> Vec<u8> {
    let mut out = Vec::new();
    let mut decoder = flate2::read::GzDecoder::new(stream);
    std::io::Read::read_to_end(&mut decoder, &mut out).unwrap();
    out
}

#[test]
fn word_is_written_least_significant_byte_first() {
    let mut out = vec![9u8];
    push_word(&mut out, 0x0403_0201);
    assert_eq!(out, vec![9, 1, 2, 3, 4]);
    let mut out = Vec::new();
    push_word(&mut out, 0xC4D4_F1B2);
    assert_eq!(out, vec![0xB2, 0xF1, 0xD4, 0xC4]);
}

#[test]
fn negative_zone_is_written_in_twos_complement() {
    assert_eq!(to_unsigned(-1), 0xFFFF_FFFF);
    assert_eq!(to_unsigned(-2), 0xFFFF_FFFE);
    assert_eq!(to_unsigned(i32::MIN), 0x8000_0000);
    assert_eq!(to_unsigned(i32::MAX), 0x7FFF_FFFF);
    assert_eq!(to_unsigned(0), 0);
    let mut out = Vec::new();
    push_zones(&mut out, &[-2, 258]);
    assert_eq!(out, vec![0xFE, 0xFF, 0xFF, 0xFF, 2, 1, 0, 0]);
}

#[test]
fn header_has_twenty_four_bytes() {
    let mut out = Vec::new();
    push_header(&mut out, 3);
    assert_eq!(
        out,
        vec![
            0xB2, 0xF1, 0xD4, 0xC4, 1, 0, 0, 0, 1, 0, 0, 0, 2, 0, 0, 0, 3, 0, 0, 0, 3, 0, 0, 0
        ]
    );
}

#[test]
fn words_and_bytes_are_appended_in_order() {
    let mut out = vec![7u8];
    push_words(&mut out, &[1, 0x0100]);
    push_bytes(&mut out, &[5, 6]);
    assert_eq!(out, vec![7, 1, 0, 0, 0, 0, 1, 0, 0, 5, 6]);
}

#[test]
fn round_trip_shape() {
    let zones = [10, 20, 30];
    let matrix = build_matrix(&[], &zones);
    let out = encode(&zones, &matrix);
    assert_eq!(&out[16..20], &3i32.to_le_bytes());
    assert_eq!(&out[20..24], &3i32.to_le_bytes());
    assert_eq!(out.len(), 24 + 3 * 4 + 3 * 4 + 9 * 4);
    assert_eq!((out.len() - 24 - 2 * 3 * 4) / 4, 9);
}

#[test]
fn container_matches_the_layout() {
    let zones = [-5, 0, 70000];
    let values = [1.0f32, -2.5, 0.0, 3.4e38, 1e-40, f32::INFINITY, -0.0, 7.0, 0.1];
    let matrix: Vec<u32> = values.iter().map(|v| v.to_bits()).collect();
    assert_eq!(encode_portable(&zones, &matrix), expected_container(&zones, &values));
    assert_eq!(encode(&zones, &matrix), expected_container(&zones, &values));
}

#[test]
fn empty_container_is_its_header() {
    assert_eq!(encode(&[], &[]), expected_container(&[], &[]));
    assert_eq!(encode(&[], &[]).len(), 24);
}

#[test]
fn byte_exactness() {
    let zones = [1, -2, 0x0102_0304];
    let matrix: Vec<u32> = (0..9u32).map(|k| (k as f32 * 1.25 - 3.0).to_bits()).collect();
    let portable = encode_portable(&zones, &matrix);
    let little = u16::from_ne_bytes([1, 0]) == 1;
    assert_eq!(host_is_little_endian(), little);
    if little {
        assert_eq!(encode_native(&zones, &matrix), portable);
    } else {
        assert_ne!(encode_native(&zones, &matrix), portable);
    }
    assert_eq!(encode(&zones, &matrix), portable);
}

#[test]
fn gz_suffix_is_told_by_the_last_three_characters() {
    assert!(is_gz_name("out.mtx.gz"));
    assert!(is_gz_name(".gz"));
    assert!(is_gz_name("é.gz"));
    assert!(!is_gz_name("out.mtx"));
    assert!(!is_gz_name("out.gz.mtx"));
    assert!(!is_gz_name("out.GZ"));
    assert!(!is_gz_name("outgz"));
    assert!(!is_gz_name("gz"));
    assert!(!is_gz_name(""));
    assert!(!is_gz_name("out.gzé"));
}

#[test]
fn plain_name_gives_the_container_itself() {
    let zones = [1, 2];
    let matrix = [1.0f32.to_bits(), 0, 0, 2.0f32.to_bits()];
    let content = write_mtx_file("flows.mtx", &zones, &matrix);
    assert_eq!(content, Ok(expected_container(&zones, &[1.0, 0.0, 0.0, 2.0])));
}

#[test]
fn gz_name_gives_a_gzip_stream_of_the_container() {
    let zones = [1, 2];
    let matrix = [1.0f32.to_bits(), 0, 0, 2.0f32.to_bits()];
    let plain = write_mtx_file("flows.mtx", &zones, &matrix).unwrap();
    let packed = write_mtx_file("flows.mtx.gz", &zones, &matrix).unwrap();
    assert_ne!(packed, plain);
    assert_eq!(&packed[..2], &[0x1f, 0x8b]);
    assert_eq!(unpacked(&packed), plain);
}

#[test]
fn gzip_stream_is_the_same_for_the_same_container() {
    let zones: Vec<i32> = (0..50).collect();
    let matrix = vec![0u32; 2500];
    let a = write_mtx_file("a.gz", &zones, &matrix).unwrap();
    let b = write_mtx_file("b.gz", &zones, &matrix).unwrap();
    assert_eq!(a, b);
    assert!(a.len() < encode(&zones, &matrix).len());
    assert_eq!(unpacked(&a), encode(&zones, &matrix));
}

#[test]
fn compressor_error_is_reported() {
    assert_eq!(packed_output(None), Err(WriteError::Compression));
    assert_eq!(packed_output(Some(vec![1, 2, 3])), Ok(vec![1, 2, 3]));
}

#[test]
fn end_to_end_example() {
    let data = read_csv(&input_rows(b"1,1,2.0\n1,2,0.0\n2,1,3.0\n"));
    let zones = get_all_zones(None, &data);
    assert_eq!(zones, vec![1, 2]);
    let matrix = build_matrix(&data, &zones);
    let cells: Vec<f32> = matrix.iter().map(|b| f32::from_bits(*b)).collect();
    assert_eq!(cells, vec![2.0, 0.0, 3.0, 0.0]);
    let out = write_mtx_file("out.mtx", &zones, &matrix).unwrap();
    assert_eq!(&out[16..20], &2i32.to_le_bytes());
    assert_eq!(&out[20..24], &2i32.to_le_bytes());
    assert_eq!(out, expected_container(&[1, 2], &[2.0, 0.0, 3.0, 0.0]));
}

#[test]
fn end_to_end_cross_tab_with_authority() {
    let data = read_csv(&input_rows(b",1,2,99\n1,0,4.0,1.0\n2,5.0,0,2.0\n99,6.0,7.0,8.0\n"));
    let zones = get_all_zones(Some(b"zone\n2\n1\n"), &data);
    assert_eq!(zones, vec![1, 2]);
    let matrix = build_matrix(&data, &zones);
    let out = write_mtx_file("out.mtx.gz", &zones, &matrix).unwrap();
    assert_eq!(unpacked(&out), expected_container(&[1, 2], &[0.0, 4.0, 5.0, 0.0]));
}

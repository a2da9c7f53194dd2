use rcarchive::codec::{header_from_bytes, header_to_bytes};
use rcarchive::extract::{extract, CorruptArchive};
use rcarchive::footer::{footer_bytes, parse_footer};
use rcarchive::header::{ArchiveHeader, ResourceEntry};
use rcarchive::pack::{pack, BuildRequest, PackError, ResourceInput};

fn res(name: &str, data: Vec<u8>) -> ResourceInput {
    ResourceInput { filename: name.to_string(), data }
}

fn request(resources: Vec<ResourceInput>, main_file: &str, compress: bool) -> BuildRequest {
    BuildRequest {
        resources,
        main_file: main_file.to_string(),
        extraction_path: "rc_extracted".to_string(),
        execution_style: "normal".to_string(),
        run_as_admin: false,
        compress,
        stub_bytes: b"\x4d\x5aSTUB-BINARY-BYTES".to_vec(),
    }
}

fn app_bytes() -> Vec<u8> {
    let mut v = Vec::new();
    for i in 0..5000usize {
        v.push((i % 251) as u8);
    }
    v
}

fn txt_bytes() -> Vec<u8> {
    let mut v = Vec::new();
    for i in 0..120usize {
        v.push(((i * 7) % 256) as u8);
    }
    v
}

#[test]
fn round_trip_uncompressed() {
    let rq = request(
        vec![res("app.exe", app_bytes()), res("data.txt", txt_bytes())],
        "app.exe",
        false,
    );
    let out = pack(&rq).unwrap();
    let ex = extract(&out).unwrap();
    assert_eq!(ex.contents.len(), 2);
    assert_eq!(ex.contents[0], app_bytes());
    assert_eq!(ex.contents[1], txt_bytes());
    assert_eq!(ex.header.main_file, "app.exe");
    assert_eq!(ex.header.extraction_path, "rc_extracted");
    assert_eq!(ex.header.execution_style, "normal");
    assert!(!ex.header.run_as_admin);
    assert!(!ex.header.is_compressed);
}

#[test]
fn round_trip_compressed() {
    let rq = request(
        vec![res("app.exe", app_bytes()), res("data.txt", txt_bytes())],
        "app.exe",
        true,
    );
    let out = pack(&rq).unwrap();
    let ex = extract(&out).unwrap();
    assert_eq!(ex.contents.len(), 2);
    assert_eq!(ex.contents[0], app_bytes());
    assert_eq!(ex.contents[1], txt_bytes());
    assert!(ex.header.is_compressed);
}

#[test]
fn scenario_uncompressed_exact() {
    let rq = request(
        vec![res("app.exe", app_bytes()), res("data.txt", txt_bytes())],
        "app.exe",
        false,
    );
    let out = pack(&rq).unwrap();
    let ex = extract(&out).unwrap();
    assert_eq!(ex.header.resources.len(), 2);
    assert_eq!(ex.header.resources[0].filename, "app.exe");
    assert_eq!(ex.header.resources[0].size, 5000);
    assert_eq!(ex.header.resources[1].filename, "data.txt");
    assert_eq!(ex.header.resources[1].size, 120);
    let hb = header_to_bytes(&ex.header).unwrap();
    let (hl, al) = parse_footer(&out).unwrap();
    assert_eq!(hl as usize, hb.len());
    assert_eq!(al as usize, hb.len() + 5120);
    assert_eq!(ex.contents[0].len(), 5000);
    assert_eq!(ex.contents[1].len(), 120);
}

#[test]
fn scenario_compressed_shrinks() {
    let rq = request(
        vec![res("app.exe", app_bytes()), res("data.txt", txt_bytes())],
        "app.exe",
        true,
    );
    let out = pack(&rq).unwrap();
    let (hl, al) = parse_footer(&out).unwrap();
    let stored_len = (al - hl) as usize;
    assert!(stored_len < 5120);
    let ex = extract(&out).unwrap();
    assert_eq!(ex.contents[0].len(), 5000);
    assert_eq!(ex.contents[1].len(), 120);
    assert_eq!(ex.contents[0], app_bytes());
    assert_eq!(ex.contents[1], txt_bytes());
}

#[test]
fn sum_of_sizes_matches_payload() {
    let rq = request(
        vec![
            res("a.bin", vec![9u8; 37]),
            res("b.bin", Vec::new()),
            res("c.bin", vec![1u8, 2, 3]),
        ],
        "a.bin",
        false,
    );
    let out = pack(&rq).unwrap();
    let ex = extract(&out).unwrap();
    let declared: usize = ex.header.resources.iter().map(|e| e.size as usize).sum();
    let held: usize = ex.contents.iter().map(|c| c.len()).sum();
    assert_eq!(declared, 37 + 0 + 3);
    assert_eq!(held, declared);
    let (hl, al) = parse_footer(&out).unwrap();
    assert_eq!((al - hl) as usize, declared);
}

#[test]
fn footer_recovers_build_lengths() {
    let rq = request(vec![res("m.bin", vec![5u8; 64])], "m.bin", false);
    let out = pack(&rq).unwrap();
    let ex = extract(&out).unwrap();
    let hb = header_to_bytes(&ex.header).unwrap();
    let (hl, al) = parse_footer(&out).unwrap();
    assert_eq!(hl as usize, hb.len());
    assert_eq!(al as usize, hb.len() + 64);
    assert_eq!(out.len(), rq.stub_bytes.len() + al as usize + 24);
}

#[test]
fn marker_tamper_fails_extraction() {
    let rq = request(vec![res("m.bin", vec![5u8; 64])], "m.bin", false);
    let out = pack(&rq).unwrap();
    for i in 0..16usize {
        let mut f = out.clone();
        let p = f.len() - 16 + i;
        f[p] ^= 0x41;
        assert_eq!(extract(&f).unwrap_err(), CorruptArchive::BadFooter);
    }
}

#[test]
fn truncation_fails_extraction() {
    let rq = request(
        vec![res("app.exe", app_bytes()), res("data.txt", txt_bytes())],
        "app.exe",
        false,
    );
    let out = pack(&rq).unwrap();
    for k in 1..=60usize {
        let g = &out[..out.len() - k];
        assert!(extract(g).is_err());
    }
    assert!(extract(&out[..10]).is_err());
    assert!(extract(&[]).is_err());
}

#[test]
fn main_file_must_be_a_resource() {
    let rq = request(vec![res("app.exe", vec![1u8, 2])], "other.exe", false);
    assert_eq!(pack(&rq).unwrap_err(), PackError::MainFileMissing);
    let empty = request(Vec::new(), "app.exe", false);
    assert_eq!(pack(&empty).unwrap_err(), PackError::MainFileMissing);
}

#[test]
fn main_file_match_is_case_sensitive() {
    let rq = request(vec![res("App.exe", vec![1u8])], "app.exe", false);
    assert_eq!(pack(&rq).unwrap_err(), PackError::MainFileMissing);
}

#[test]
fn duplicate_names_keep_order_and_bytes() {
    let rq = request(
        vec![res("twin.bin", vec![1u8, 1, 1]), res("twin.bin", vec![2u8, 2])],
        "twin.bin",
        false,
    );
    let out = pack(&rq).unwrap();
    let ex = extract(&out).unwrap();
    assert_eq!(ex.contents[0], vec![1u8, 1, 1]);
    assert_eq!(ex.contents[1], vec![2u8, 2]);
}

#[test]
fn non_ascii_names_round_trip() {
    let rq = BuildRequest {
        resources: vec![res("héllo wörld.txt", vec![42u8; 9])],
        main_file: "héllo wörld.txt".to_string(),
        extraction_path: "päckage".to_string(),
        execution_style: "No-Window".to_string(),
        run_as_admin: true,
        compress: true,
        stub_bytes: Vec::new(),
    };
    let out = pack(&rq).unwrap();
    let ex = extract(&out).unwrap();
    assert_eq!(ex.header.main_file, "héllo wörld.txt");
    assert_eq!(ex.header.extraction_path, "päckage");
    assert_eq!(ex.header.execution_style, "No-Window");
    assert!(ex.header.run_as_admin);
    assert_eq!(ex.contents[0], vec![42u8; 9]);
}

#[test]
fn bad_lengths_detected() {
    let mut f = vec![1u8, 2, 3];
    let mut ft = footer_bytes(0, 1000);
    f.append(&mut ft);
    assert_eq!(extract(&f).unwrap_err(), CorruptArchive::BadLengths);
}

#[test]
fn header_over_archive_length_detected() {
    let mut f = vec![0u8; 8];
    let mut ft = footer_bytes(8, 4);
    f.append(&mut ft);
    assert_eq!(extract(&f).unwrap_err(), CorruptArchive::BadLengths);
}

#[test]
fn garbage_header_detected() {
    let mut f = vec![0xFFu8; 10];
    let mut ft = footer_bytes(10, 10);
    f.append(&mut ft);
    assert_eq!(extract(&f).unwrap_err(), CorruptArchive::BadHeader);
}

fn handmade_header(is_compressed: bool, size: u32) -> ArchiveHeader {
    ArchiveHeader {
        extraction_path: "d".to_string(),
        main_file: "f.bin".to_string(),
        resources: vec![ResourceEntry { filename: "f.bin".to_string(), size }],
        execution_style: "normal".to_string(),
        run_as_admin: false,
        is_compressed,
    }
}

#[test]
fn compressed_flag_with_raw_payload_detected() {
    let hb = header_to_bytes(&handmade_header(true, 4)).unwrap();
    let mut f = hb.clone();
    f.extend_from_slice(&[1u8, 2, 3, 4]);
    let mut ft = footer_bytes(hb.len() as u32, hb.len() as u32 + 4);
    f.append(&mut ft);
    assert_eq!(extract(&f).unwrap_err(), CorruptArchive::BadPayload);
}

#[test]
fn slice_overrun_detected() {
    let hb = header_to_bytes(&handmade_header(false, 100)).unwrap();
    let mut f = hb.clone();
    f.extend_from_slice(&[1u8, 2, 3, 4]);
    let mut ft = footer_bytes(hb.len() as u32, hb.len() as u32 + 4);
    f.append(&mut ft);
    assert_eq!(extract(&f).unwrap_err(), CorruptArchive::SliceOverrun);
}

#[test]
fn header_codec_round_trips() {
    let h = ArchiveHeader {
        extraction_path: "%USERPROFILE%\\MyApp".to_string(),
        main_file: "run.bat".to_string(),
        resources: vec![
            ResourceEntry { filename: "run.bat".to_string(), size: 0 },
            ResourceEntry { filename: "música.dat".to_string(), size: 4_000_000_000 },
        ],
        execution_style: "maximized".to_string(),
        run_as_admin: true,
        is_compressed: false,
    };
    let hb = header_to_bytes(&h).unwrap();
    let h2 = header_from_bytes(&hb).unwrap();
    assert_eq!(h2.extraction_path, h.extraction_path);
    assert_eq!(h2.main_file, h.main_file);
    assert_eq!(h2.execution_style, h.execution_style);
    assert_eq!(h2.run_as_admin, h.run_as_admin);
    assert_eq!(h2.is_compressed, h.is_compressed);
    assert_eq!(h2.resources.len(), 2);
    assert_eq!(h2.resources[0].filename, "run.bat");
    assert_eq!(h2.resources[0].size, 0);
    assert_eq!(h2.resources[1].filename, "música.dat");
    assert_eq!(h2.resources[1].size, 4_000_000_000);
}

#[test]
fn header_codec_rejects_malformed() {
    let hb = header_to_bytes(&handmade_header(false, 1)).unwrap();
    let mut trailing = hb.clone();
    trailing.push(0);
    assert!(header_from_bytes(&trailing).is_none());
    let mut short = hb.clone();
    short.pop();
    assert!(header_from_bytes(&short).is_none());
    assert!(header_from_bytes(&[]).is_none());
    let mut bad_bool = hb.clone();
    // the boolean bytes follow the three length-prefixed strings:
    // "d" (5 bytes), "f.bin" (9 bytes), "normal" (10 bytes)
    assert_eq!(bad_bool[24], 0);
    bad_bool[24] = 2;
    assert!(header_from_bytes(&bad_bool).is_none());
    let mut bad_utf8 = hb.clone();
    // the first string's bytes start after its 4-byte length prefix
    bad_utf8[4] = 0xFF;
    assert!(header_from_bytes(&bad_utf8).is_none());
}

#[test]
fn output_is_stub_then_archive_then_footer() {
    let rq = request(vec![res("m.bin", vec![7u8; 16])], "m.bin", false);
    let out = pack(&rq).unwrap();
    assert_eq!(&out[..rq.stub_bytes.len()], &rq.stub_bytes[..]);
    let (hl, al) = parse_footer(&out).unwrap();
    let a_start = out.len() - 24 - al as usize;
    assert_eq!(a_start, rq.stub_bytes.len());
    let payload = &out[a_start + hl as usize..out.len() - 24];
    assert_eq!(payload, &vec![7u8; 16][..]);
    assert_eq!(&out[out.len() - 16..], b"RSCARCHIVE_V1___");
}

#[test]
fn empty_resources_compress_round_trip() {
    let rq = BuildRequest {
        resources: vec![res("empty.bin", Vec::new())],
        main_file: "empty.bin".to_string(),
        extraction_path: "d".to_string(),
        execution_style: "minimized".to_string(),
        run_as_admin: false,
        compress: true,
        stub_bytes: Vec::new(),
    };
    let out = pack(&rq).unwrap();
    let ex = extract(&out).unwrap();
    assert_eq!(ex.contents.len(), 1);
    assert!(ex.contents[0].is_empty());
    assert_eq!(ex.header.resources[0].size, 0);
}

#[test]
fn marker_inside_stub_is_harmless() {
    let mut stub = b"prefix".to_vec();
    stub.extend_from_slice(b"RSCARCHIVE_V1___");
    stub.extend_from_slice(b"suffix");
    let rq = BuildRequest {
        resources: vec![res("m.bin", b"RSCARCHIVE_V1___inside data".to_vec())],
        main_file: "m.bin".to_string(),
        extraction_path: "d".to_string(),
        execution_style: "normal".to_string(),
        run_as_admin: false,
        compress: false,
        stub_bytes: stub,
    };
    let out = pack(&rq).unwrap();
    let ex = extract(&out).unwrap();
    assert_eq!(ex.contents[0], b"RSCARCHIVE_V1___inside data".to_vec());
}

use base64::Engine;
use rgb_armor::analysis::analyze_document;
use rgb_armor::codec::decode_cascade;
use rgb_armor::registry::{build_registry, ScanDoc};
use rgb_armor::scan::{extract_strings, find_signature, ImageFormat};

#[test]
fn cascade_z85_wins_first() {
    let data = vec![1u8, 2, 3, 4, 5, 6, 7, 8];
    let encoded = z85::encode(&data);
    assert_eq!(decode_cascade(&encoded), Some(data));
}

#[test]
fn cascade_rfc1924_beats_base64() {
    // Valid in both the RFC 1924 alphabet and Base64: the earlier codec
    // must win, so the bytes are not Base64's result ("Man").
    let r = decode_cascade("TWFu").unwrap();
    assert_eq!(r, vec![91u8, 104, 159]);
    assert_ne!(r, b"Man".to_vec());
}

#[test]
fn cascade_ascii85_matches_crate() {
    // Commas are outside the Z85 and RFC 1924 alphabets but valid Ascii85.
    let r = decode_cascade(",,,,,").unwrap();
    assert_eq!(r, ascii85::decode(",,,,,").unwrap());
    assert_eq!(r, vec![34u8, 162, 1, 239]);
}

#[test]
fn cascade_base64_last() {
    // 'v' is outside the Ascii85 range and '/' outside the RFC 1924
    // alphabet, so only Base64 accepts this.
    assert_eq!(decode_cascade("v/v/"), Some(vec![191u8, 251, 255]));
}

#[test]
fn cascade_deterministic() {
    for input in ["TWFu", "00000", ",,,,,", "v/v/", "not base anything!!~~"] {
        let a = decode_cascade(input);
        let b = decode_cascade(input);
        assert_eq!(a, b);
    }
}

#[test]
fn cascade_rejects_undecodable() {
    assert_eq!(decode_cascade("!!!~~~"), None);
}

#[test]
fn signature_minimum_offset_wins() {
    // PNG at offset 3, JPEG at offset 10: the earlier PNG must be reported.
    let mut b = vec![0u8, 0, 0];
    b.extend_from_slice(&[0x89, 0x50, 0x4e, 0x47]);
    b.extend_from_slice(&[0, 0, 0]);
    b.extend_from_slice(&[0xff, 0xd8, 0xff]);
    b.extend_from_slice(&[0, 0]);
    assert_eq!(find_signature(&b), Some((ImageFormat::Png, 3)));
}

#[test]
fn signature_jpeg_found() {
    let b = vec![0xffu8, 0xd8, 0xff, 1, 2, 3];
    assert_eq!(find_signature(&b), Some((ImageFormat::Jpeg, 0)));
}

#[test]
fn signature_absent() {
    let b = vec![1u8, 2, 3, 4, 5, 6, 7, 8];
    assert_eq!(find_signature(&b), None);
}

#[test]
fn extract_strings_drops_short_runs() {
    let data = b"ab\x01cdef\x02".to_vec();
    assert_eq!(extract_strings(&data), vec!["cdef".to_string()]);
}

#[test]
fn extract_strings_keeps_final_run() {
    let data = b"xyzw".to_vec();
    assert_eq!(extract_strings(&data), vec!["xyzw".to_string()]);
    assert_eq!(extract_strings(&Vec::new()), Vec::<String>::new());
}

#[test]
fn registry_indices_dense_and_increasing() {
    let docs = vec![
        ScanDoc { path: "a.html".to_string(), text: "nothing here".to_string() },
        ScanDoc {
            path: "b.html".to_string(),
            text: "Contract: C1\n\n-----BEGIN RGB CONTRACT-----\nMM\n-----END RGB CONTRACT-----"
                .to_string(),
        },
        ScanDoc { path: "c.html".to_string(), text: "-----BEGIN RGB CONTRACT-----".to_string() },
        ScanDoc {
            path: "d.html".to_string(),
            text: "-----BEGIN RGB CONSIGNMENT-----\n-----END RGB CONSIGNMENT-----".to_string(),
        },
        ScanDoc { path: "e.html".to_string(), text: String::new() },
    ];
    let r = build_registry(&docs);
    assert_eq!(r.len(), 2);
    assert_eq!(r[0].rgb_number, 0);
    assert_eq!(r[0].inscription_id, "b.html");
    assert_eq!(r[0].contract_id, Some("C1".to_string()));
    assert_eq!(r[1].rgb_number, 1);
    assert_eq!(r[1].inscription_id, "d.html");
    assert_eq!(r[1].contract_id, None);
}

#[test]
fn registry_skips_documents_without_markers() {
    let docs = vec![
        ScanDoc { path: "x".to_string(), text: "plain".to_string() },
        ScanDoc { path: "y".to_string(), text: "-----END RGB CONTRACT-----".to_string() },
    ];
    assert!(build_registry(&docs).is_empty());
}

#[test]
fn analyzer_unknown_identifier_without_header() {
    let r = analyze_document("no markers here");
    assert_eq!(r.id, "rgb1unknown");
    assert!(r.valid);
}

#[test]
fn analyzer_reports_decode_failure() {
    let r = analyze_document("Stuff: x\n\n!!!~~~");
    assert!(r.valid);
    assert_eq!(r.error, Some("Failed to decode".to_string()));
    assert!(r.image.is_none());
    assert!(r.strings.is_empty());
    assert_eq!(r.id, "rgb1unknown");
}

#[test]
fn header_contract_precedes_id() {
    let r = analyze_document("Contract: X\nId: Y\n\n");
    assert_eq!(r.id, "X");
    assert_eq!(r.consignment_id, None);
}

#[test]
fn header_consignment_id_routed() {
    let r = analyze_document("Id: rgb:csgABC\n\n");
    assert_eq!(r.consignment_id, Some("rgb:csgABC".to_string()));
    assert_eq!(r.id, "rgb1unknown");
}

#[test]
fn header_first_occurrence_wins() {
    let r = analyze_document("Contract: first\nContract: second\n\n");
    assert_eq!(r.id, "first");
}

#[test]
fn header_plain_id_fallback() {
    let r = analyze_document("Id: plainid\nSchema: S1\nType: T1\nVersion: 2\n\n");
    assert_eq!(r.id, "plainid");
    assert_eq!(r.schema, Some("S1".to_string()));
    assert_eq!(r.contract_type, Some("T1".to_string()));
    assert_eq!(r.version, Some("2".to_string()));
}

#[test]
fn analyzer_full_document_with_image() {
    let payload = vec![0x89u8, 0x50, 0x4e, 0x47, 65, 66, 67, 68];
    let body = z85::encode(&payload);
    let text = format!(
        "Contract: rgb1abc\nCheck-SHA256: deadbeef\n\n-----BEGIN RGB CONTRACT-----\n{}\n-----END RGB CONTRACT-----\n",
        body
    );
    let r = analyze_document(&text);
    assert!(r.valid);
    assert_eq!(r.error, None);
    assert_eq!(r.id, "rgb1abc");
    assert_eq!(r.checksum, Some("deadbeef".to_string()));
    assert_eq!(r.strings, vec!["PNGABCD".to_string()]);
    let img = r.image.expect("image should be found");
    assert_eq!(img.offset, 0);
    assert_eq!(img.format, ImageFormat::Png);
    assert_eq!(img.base64, base64::engine::general_purpose::STANDARD.encode(&payload));
}

#[test]
fn analyzer_normalizes_line_endings() {
    let r = analyze_document("Contract: X\r\n\r\n00000");
    assert_eq!(r.id, "X");
    assert_eq!(r.error, None);
    let r2 = analyze_document("Contract: Y\\n\\n00000");
    assert_eq!(r2.id, "Y");
    assert_eq!(r2.error, None);
}

#[test]
fn body_normalization_idempotent() {
    let body = rgb_armor::text::chars_of(
        "-----BEGIN RGB CONTRACT-----\n ab cd\t-----END RGB CONTRACT-----\n",
    );
    let once = rgb_armor::armor::body_tokens(&body);
    let twice = rgb_armor::armor::body_tokens(&once);
    assert_eq!(once, twice);
    assert_eq!(once.iter().collect::<String>(), "abcd");
}

#[test]
fn cascade_skips_overflowing_ascii85() {
    // Each of these would overflow Ascii85's 32-bit group accumulator;
    // the cascade must treat them as rejections, not call into the codec.
    assert_eq!(decode_cascade("uuuuu."), None);
    assert_eq!(decode_cascade("<~uuuuu."), None);
    assert_eq!(decode_cascade("\u{a0}uuuuu."), None);
    // A single symbol is a valid no-output tail for the RFC 1924 decoder,
    // which wins before Ascii85 is consulted.
    assert_eq!(decode_cascade("s"), Some(Vec::new()));
}

#[test]
fn cascade_ascii85_framed_input() {
    let r = decode_cascade("<~,,,,,~>").unwrap();
    assert_eq!(r, ascii85::decode("<~,,,,,~>").unwrap());
}

#[test]
fn analyzer_reports_earlier_png_over_jpeg() {
    // PNG signature at offset 3, JPEG signature at offset 10, nothing
    // earlier: the PNG match must be reported with the bytes from there on.
    let payload: Vec<u8> = vec![
        1, 2, 3, 0x89, 0x50, 0x4e, 0x47, 0, 0, 0, 0xff, 0xd8, 0xff, 0, 0, 0,
    ];
    let body = z85::encode(&payload);
    let text = format!(
        "Contract: rgb1png\n\n-----BEGIN RGB CONTRACT-----\n{}\n-----END RGB CONTRACT-----\n",
        body
    );
    let r = analyze_document(&text);
    assert_eq!(r.error, None);
    let img = r.image.expect("image should be found");
    assert_eq!(img.format, ImageFormat::Png);
    assert_eq!(img.offset, 3);
    assert_eq!(
        img.base64,
        base64::engine::general_purpose::STANDARD.encode(&payload[3..])
    );
}

use vstd::prelude::*;
use vstd::string::StringExecFns;
use crate::armor::body_tokens_spec;
use crate::codec::{base64_encoding, cascade_spec};
use crate::header::{body_region, header_region, normalize_spec, parse_header_spec, primary_of};
use crate::scan::{extract_strings_spec, jpeg_at, png_at, sig_at, ImageFormat};
use crate::text::{chars_of, string_of};

verus! {

/// An embedded image found in the decoded payload: its format, the byte
/// offset of its signature, and the bytes from there to the end of the
/// payload in ready-to-embed Base64 form.
pub struct ImageRef {
    pub format: ImageFormat,
    pub offset: usize,
    pub base64: String,
}

/// What one analyzed document yields: the resolved identifiers and header
/// fields, the embedded image if one was found, the extracted strings, and
/// whether the payload decoded.
pub struct AnalysisResult {
    pub id: String,
    pub consignment_id: Option<String>,
    pub schema: Option<String>,
    pub contract_type: Option<String>,
    pub checksum: Option<String>,
    pub version: Option<String>,
    pub image: Option<ImageRef>,
    pub strings: Vec<String>,
    pub valid: bool,
    pub error: Option<String>,
}

/// The image report is sound for the decoded bytes: the earliest signature
/// position, its format, and the Base64 form of the bytes from there on;
/// or no report when no position carries a signature.
pub open spec fn image_matches(img: Option<ImageRef>, bytes: Seq<u8>) -> bool {
    match img {
        Some(i) => {
            &&& sig_at(bytes, i.offset as int)
            &&& forall|j: int| 0 <= j < i.offset ==> !sig_at(bytes, j)
            &&& (i.format is Jpeg <==> jpeg_at(bytes, i.offset as int))
            &&& (i.format is Png <==> png_at(bytes, i.offset as int))
            &&& i.base64@ == base64_encoding(bytes.skip(i.offset as int))
        },
        None => forall|j: int| !sig_at(bytes, j),
    }
}

/// Analyze one readable document: parse its header fields, normalize its
/// body, run the decode cascade, and inspect the decoded bytes.  A body
/// that no codec accepts is a valid analysis whose error says decoding
/// failed; it never aborts the analysis.
pub fn analyze_document(text: &str) -> (r: AnalysisResult)
    ensures
        ({
            let t = normalize_spec(text@);
            let m = parse_header_spec(header_region(t));
            let tok = body_tokens_spec(body_region(t));
            &&& r.id@ == primary_of(m)
            &&& r.consignment_id.deep_view() == m.consignment
            &&& r.schema.deep_view() == m.schema
            &&& r.contract_type.deep_view() == m.contract_type
            &&& r.checksum.deep_view() == m.checksum
            &&& r.version.deep_view() == m.version
            &&& r.valid == true
            &&& match cascade_spec(tok) {
                Some(bytes) => {
                    &&& r.error is None
                    &&& r.strings.deep_view() == extract_strings_spec(bytes)
                    &&& image_matches(r.image, bytes)
                },
                None => {
                    &&& r.error matches Some(e) && e@ == "Failed to decode"@
                    &&& r.image is None
                    &&& r.strings@.len() == 0
                },
            }
        }),
{
    let cs = chars_of(text);
    let t = crate::header::normalize(&cs);
    let (head, body) = crate::header::split_regions(&t);
    let fields = crate::header::parse_header(&head);
    let id = crate::header::resolve_primary(&fields);
    let tok_chars = crate::armor::body_tokens(&body);
    let tok = string_of(&tok_chars);
    match crate::codec::decode_cascade(tok.as_str()) {
        Some(bytes) => {
            let strings = crate::scan::extract_strings(&bytes);
            let image = match crate::scan::find_signature(&bytes) {
                Some(fi) => {
                    let (format, offset) = fi;
                    let tail = crate::scan::bytes_from(&bytes, offset);
                    let b64 = crate::codec::base64_encode(&tail);
                    Some(ImageRef { format, offset, base64: b64 })
                },
                None => None,
            };
            AnalysisResult {
                id,
                consignment_id: fields.consignment_id,
                schema: fields.schema,
                contract_type: fields.contract_type,
                checksum: fields.checksum,
                version: fields.version,
                image,
                strings,
                valid: true,
                error: None,
            }
        },
        None => AnalysisResult {
            id,
            consignment_id: fields.consignment_id,
            schema: fields.schema,
            contract_type: fields.contract_type,
            checksum: fields.checksum,
            version: fields.version,
            image: None,
            strings: Vec::new(),
            valid: true,
            error: Some(String::from_str("Failed to decode")),
        },
    }
}

} // verus!

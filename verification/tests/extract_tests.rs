use argus::binary::is_binary_file;
use argus::extractors::{
    extract_begin, extract_finish_image, extract_finish_pdf, extract_text,
    extract_text_from_docx_xml, ExtractStep, MAX_FILE_SIZE,
};
use argus::pdf_images::{
    classify_filters, get_color_channels, recover_pdf_images, ColorSpaceRaw, FilterClass,
    ImageEncoding,
};
use argus::types::FileType;

#[test]
fn test_docx_xml_extraction() {
    let xml = r#"<?xml version="1.0"?><w:document><w:body><w:p><w:r><w:t>Hello</w:t></w:r><w:r><w:t> World</w:t></w:r></w:p><w:p><w:r><w:t>Second paragraph</w:t></w:r></w:p></w:body></w:document>"#;
    let result = extract_text_from_docx_xml(xml);
    assert!(result.contains("Hello World"));
    assert!(result.contains("Second paragraph"));
}

#[test]
fn test_docx_xml_paragraph_breaks() {
    // Two runs of one paragraph concatenate without a separator; the second
    // paragraph starts on a new line.
    let xml = r#"<?xml version="1.0"?><w:document><w:body><w:p><w:r><w:t>Hello</w:t></w:r><w:r><w:t> World</w:t></w:r></w:p><w:p><w:r><w:t>Second paragraph</w:t></w:r></w:p></w:body></w:document>"#;
    let result = extract_text_from_docx_xml(xml);
    assert_eq!(result, "Hello World\nSecond paragraph");
}

#[test]
fn test_docx_xml_self_closing_and_attrs() {
    let xml = "<w:p><w:t xml:space=\"preserve\">padded</w:t></w:p><w:p><w:t/></w:p>";
    let result = extract_text_from_docx_xml(xml);
    assert_eq!(result, "padded");
}

#[test]
fn test_docx_xml_similar_tags_do_not_open_runs() {
    // Tags that merely start with the same letters (w:tc, w:tab) must not
    // open a text run, or they would clear the pending run's text.
    assert_eq!(extract_text_from_docx_xml("<w:t>a<w:tc>b</w:t>"), "ab");
    assert_eq!(
        extract_text_from_docx_xml("<w:p><w:t>a</w:t><w:tab/><w:t>b</w:t></w:p>"),
        "ab"
    );
    // A self-closing run with attributes opens nothing either.
    assert_eq!(
        extract_text_from_docx_xml("<w:p><w:t xml:space=\"preserve\"/>x<w:t>kept</w:t></w:p>"),
        "kept"
    );
}

#[test]
fn test_file_type_detection() {
    assert_eq!(FileType::from_extension("pdf"), FileType::Pdf);
    assert_eq!(FileType::from_extension("docx"), FileType::Docx);
    assert_eq!(FileType::from_extension("rs"), FileType::Code);
    assert_eq!(FileType::from_extension("txt"), FileType::Text);
    assert_eq!(FileType::from_extension("png"), FileType::Image);
}

#[test]
fn test_file_type_detection_case_and_unknown() {
    assert_eq!(FileType::from_extension("PDF"), FileType::Pdf);
    assert_eq!(FileType::from_extension("Md"), FileType::Text);
    assert_eq!(FileType::from_extension("xyzzy"), FileType::Other);
    assert_eq!(FileType::from_extension(""), FileType::Other);
}

#[test]
fn test_plain_text_extraction() {
    let data: Vec<u8> = b"Hello\nWorld".to_vec();
    let r = extract_text(&data, FileType::Text, false, None);
    assert!(r.success);
    assert!(r.error.is_none());
    assert_eq!(r.text, "Hello\nWorld\n");
}

#[test]
fn test_plain_text_invalid_utf8_is_replaced() {
    let data: Vec<u8> = vec![0xFF, b'a'];
    let r = extract_text(&data, FileType::Other, false, None);
    assert!(r.success);
    assert_eq!(r.text, "\u{FFFD}a\n");
}

#[test]
fn test_size_limit_always_fails() {
    let data: Vec<u8> = vec![b'x'; (MAX_FILE_SIZE + 1) as usize];
    for ft in [FileType::Text, FileType::Pdf, FileType::Docx, FileType::Image] {
        let r = extract_text(&data, ft, true, None);
        assert!(!r.success);
        assert_eq!(
            r.error.as_deref(),
            Some("File too large: 52428801 bytes (max: 52428800 bytes)")
        );
        assert!(r.text.is_empty());
    }
}

#[test]
fn test_image_without_ocr_fails() {
    let data: Vec<u8> = vec![1, 2, 3];
    let r = extract_text(&data, FileType::Image, false, None);
    assert!(!r.success);
    assert_eq!(r.error.as_deref(), Some("OCR not enabled for images"));
    let r2 = extract_text(&data, FileType::Image, true, None);
    assert!(!r2.success);
    assert_eq!(r2.error.as_deref(), Some("OCR not available"));
}

#[test]
fn test_pdf_without_text_layer_fails() {
    // No text layer could be recovered for this file.
    let data: Vec<u8> = b"this is not a pdf at all".to_vec();
    let r = extract_text(&data, FileType::Pdf, false, None);
    assert!(!r.success);
    assert_eq!(r.error.as_deref(), Some("Failed to extract PDF text"));
}

#[test]
fn test_pdf_text_layer_is_cleaned() {
    let data: Vec<u8> = b"irrelevant".to_vec();
    let layer = "  Hello PDF  \n\n  second line  ".to_string();
    let r = extract_text(&data, FileType::Pdf, false, Some(layer));
    assert!(r.success);
    assert_eq!(r.text, "Hello PDF\nsecond line");
}

#[test]
fn test_pdf_substantial_layer_skips_recognition() {
    let data: Vec<u8> = b"irrelevant".to_vec();
    let layer = "x".repeat(150);
    match extract_begin(&data, FileType::Pdf, true, Some(layer.clone())) {
        ExtractStep::Finished(r) => {
            assert!(r.success);
            assert_eq!(r.text, layer);
        }
        _ => panic!("expected a finished outcome for a substantial text layer"),
    }
}

fn build_docx(xml: &str) -> Vec<u8> {
    let cursor = std::io::Cursor::new(Vec::new());
    let mut writer = zip::ZipWriter::new(cursor);
    let options = zip::write::SimpleFileOptions::default();
    writer.start_file("word/document.xml", options).unwrap();
    std::io::Write::write_all(&mut writer, xml.as_bytes()).unwrap();
    writer.finish().unwrap().into_inner()
}

#[test]
fn test_docx_extraction_from_archive() {
    let xml = "<w:document><w:p><w:t>Hello World</w:t></w:p></w:document>";
    let data = build_docx(xml);
    let r = extract_text(&data, FileType::Docx, false, None);
    assert!(r.success);
    assert_eq!(r.text, "Hello World");
}

#[test]
fn test_docx_extraction_bad_archive() {
    let data: Vec<u8> = b"definitely not a zip".to_vec();
    let r = extract_text(&data, FileType::Docx, false, None);
    assert!(!r.success);
    assert!(r.error.unwrap().starts_with("Failed to extract DOCX text: "));
    assert!(r.text.is_empty());
}

fn build_gray_image_pdf(width: i64, height: i64) -> Vec<u8> {
    let mut doc = lopdf::Document::with_version("1.5");
    let mut dict = lopdf::Dictionary::new();
    dict.set("Type", lopdf::Object::Name(b"XObject".to_vec()));
    dict.set("Subtype", lopdf::Object::Name(b"Image".to_vec()));
    dict.set("Width", lopdf::Object::Integer(width));
    dict.set("Height", lopdf::Object::Integer(height));
    dict.set("ColorSpace", lopdf::Object::Name(b"DeviceGray".to_vec()));
    dict.set("BitsPerComponent", lopdf::Object::Integer(8));
    let pixels = vec![170u8; (width * height) as usize];
    let stream = lopdf::Stream::new(dict, pixels).with_compression(false);
    let stream_id = doc.add_object(lopdf::Object::Stream(stream));
    let mut catalog = lopdf::Dictionary::new();
    catalog.set("Type", lopdf::Object::Name(b"Catalog".to_vec()));
    let catalog_id = doc.add_object(lopdf::Object::Dictionary(catalog));
    doc.trailer.set("Root", lopdf::Object::Reference(catalog_id));
    let _ = stream_id;
    let mut buf = Vec::new();
    doc.save_to(&mut buf).unwrap();
    buf
}

#[test]
fn test_recover_pdf_images_gray() {
    let data = build_gray_image_pdf(120, 110);
    let images = recover_pdf_images(&data).unwrap();
    assert_eq!(images.len(), 1);
    let img = &images[0];
    assert_eq!(img.encoding, ImageEncoding::Png);
    assert_eq!(img.width, 120);
    assert_eq!(img.height, 110);
    // The recovered bytes are a PNG container, not the raw pixels.
    assert_eq!(&img.bytes[..4], &[0x89, b'P', b'N', b'G']);
}

#[test]
fn test_recover_pdf_images_skips_small() {
    let data = build_gray_image_pdf(50, 50);
    let images = recover_pdf_images(&data).unwrap();
    assert_eq!(images.len(), 0);
}

#[test]
fn test_recover_pdf_images_bad_pdf() {
    let data: Vec<u8> = b"nope".to_vec();
    let err = recover_pdf_images(&data).unwrap_err();
    assert!(err.starts_with("Failed to parse PDF for OCR: "));
}

#[test]
fn test_extract_begin_scanned_pdf() {
    let data = build_gray_image_pdf(120, 110);
    match extract_begin(&data, FileType::Pdf, true, None) {
        ExtractStep::PdfOcr { cleaned, images } => {
            assert!(cleaned.len() <= 100);
            assert_eq!(images.len(), 1);
        }
        _ => panic!("expected the scanned-PDF recognition step"),
    }
    // Without OCR the same file is a plain text-layer failure.
    match extract_begin(&data, FileType::Pdf, false, None) {
        ExtractStep::Finished(r) => {
            assert!(!r.success);
        }
        _ => panic!("expected a finished outcome"),
    }
}

#[test]
fn test_classify_filters() {
    let dct = vec!["DCTDecode".to_string()];
    assert_eq!(classify_filters(&dct), FilterClass::Dct);
    let chain = vec!["FlateDecode".to_string(), "DCTDecode".to_string()];
    assert_eq!(classify_filters(&chain), FilterClass::Dct);
    let jpx = vec!["JPXDecode".to_string()];
    assert_eq!(classify_filters(&jpx), FilterClass::Jpx);
    let flate = vec!["FlateDecode".to_string()];
    assert_eq!(classify_filters(&flate), FilterClass::Plain);
    let none: Vec<String> = Vec::new();
    assert_eq!(classify_filters(&none), FilterClass::Plain);
    let ccitt = vec!["CCITTFaxDecode".to_string()];
    assert_eq!(classify_filters(&ccitt), FilterClass::Unsupported);
}

#[test]
fn test_color_channels() {
    assert_eq!(get_color_channels(&ColorSpaceRaw::Named("DeviceGray".to_string())), 1);
    assert_eq!(get_color_channels(&ColorSpaceRaw::Named("CalGray".to_string())), 1);
    assert_eq!(get_color_channels(&ColorSpaceRaw::Named("DeviceRGB".to_string())), 3);
    assert_eq!(get_color_channels(&ColorSpaceRaw::Named("DeviceCMYK".to_string())), 4);
    assert_eq!(get_color_channels(&ColorSpaceRaw::Named("Strange".to_string())), 3);
    assert_eq!(get_color_channels(&ColorSpaceRaw::ArrayHead("ICCBased".to_string())), 3);
    assert_eq!(get_color_channels(&ColorSpaceRaw::ArrayHead("Indexed".to_string())), 1);
    assert_eq!(get_color_channels(&ColorSpaceRaw::OtherCs), 3);
}

#[test]
fn test_extract_finish_pdf_combines() {
    let texts = vec!["   ".to_string(), " Hello \n\n World ".to_string()];
    let r = extract_finish_pdf("", &texts, 2);
    assert!(r.success);
    assert_eq!(r.text, "Hello\nWorld");

    let r2 = extract_finish_pdf("sparse layer", &texts, 2);
    assert!(r2.success);
    assert_eq!(r2.text, "sparse layer\nHello\nWorld");

    let blank = vec!["  ".to_string()];
    let r3 = extract_finish_pdf("sparse layer", &blank, 1);
    assert!(r3.success);
    assert_eq!(r3.text, "sparse layer");

    let r4 = extract_finish_pdf("", &blank, 3);
    assert!(!r4.success);
    assert_eq!(r4.error.as_deref(), Some("No readable text found in 3 PDF image(s)"));
}

#[test]
fn test_extract_finish_image() {
    let ok = extract_finish_image(Ok("  line one \n\n line two ".to_string()));
    assert!(ok.success);
    assert_eq!(ok.text, "line one\nline two");
    let err = extract_finish_image(Err("engine unavailable".to_string()));
    assert!(!err.success);
    assert_eq!(err.error.as_deref(), Some("engine unavailable"));
}

#[test]
fn test_binary_detection() {
    // Mostly zero bytes: binary.
    let zeros: Vec<u8> = vec![0u8; 100];
    assert!(is_binary_file(&zeros));
    // Plain text: not binary.
    let textual: Vec<u8> = b"hello world, this is text\n".to_vec();
    assert!(!is_binary_file(&textual));
    // A PNG magic prefix sniffs as an image and is searched.
    let mut png: Vec<u8> = vec![0x89, b'P', b'N', b'G', 0x0D, 0x0A, 0x1A, 0x0A];
    png.extend_from_slice(&[0u8; 64]);
    assert!(!is_binary_file(&png));
    // A zip archive sniffs as a non-document application type: binary.
    let archive = build_docx("<w:p><w:t>x</w:t></w:p>");
    assert!(is_binary_file(&archive));
}

//! Text extraction from file contents, by file type.
//!
//! Extraction is a pure function from a file's bytes (and declared type) to
//! an [`ExtractionResult`]: plain text and code are decoded as UTF-8 with
//! replacement, DOCX archives are read through their `word/document.xml`
//! entry and scanned for text runs, and raster images need the
//! optical-recognition capability, which this crate does not run itself:
//! callers obtain the recognition inputs from [`crate::pdf_images`] and hand
//! the recognised text back to the `extract_finish` functions here. The PDF
//! text layer is likewise recovered by the caller (the `pdf_extract` crate
//! can abort on malformed documents, so that call stays at the caller's
//! edge, guarded) and handed in as a plain value; this crate cleans it,
//! applies the scanned-document threshold and combines it with recognised
//! text.

use vstd::prelude::*;

use crate::digits;
use crate::text;
use crate::text::{cleaned_text, join_with, split_lines, terminated_lines};
use crate::types::FileType;

verus! {

/// Maximum file size read for extraction, in bytes.
pub const MAX_FILE_SIZE: u64 = 50 * 1024 * 1024;

/// Maximum number of lines kept from a plain-text file; the rest is
/// silently truncated.
pub const MAX_LINES: usize = 100_000;

/// A PDF whose cleaned text layer has at most this many characters is
/// taken for a scanned, image-only document, and optical recognition of its
/// embedded images is attempted when enabled.
pub const PDF_OCR_THRESHOLD: usize = 100;

/// The mathematical model of an [`ExtractionResult`].
pub struct OutcomeModel {
    /// The extracted characters; empty on failure.
    pub text: Seq<char>,
    /// Whether extraction succeeded.
    pub success: bool,
    /// The failure reason; present exactly on failure.
    pub error: Option<Seq<char>>,
}

/// A successful outcome carrying `t`.
pub open spec fn spec_success(t: Seq<char>) -> OutcomeModel {
    OutcomeModel { text: t, success: true, error: None }
}

/// A failed outcome with reason `m`.
pub open spec fn spec_failure(m: Seq<char>) -> OutcomeModel {
    OutcomeModel { text: Seq::empty(), success: false, error: Some(m) }
}

/// Result of one text-extraction attempt: the text on success, or a failure
/// reason; never both.
#[derive(Debug)]
pub struct ExtractionResult {
    /// Extracted text content; empty on failure.
    pub text: String,
    /// Whether extraction succeeded.
    pub success: bool,
    /// The failure reason, present exactly on failure.
    pub error: Option<String>,
}

impl View for ExtractionResult {
    type V = OutcomeModel;

    open spec fn view(&self) -> OutcomeModel {
        OutcomeModel {
            text: self.text@,
            success: self.success,
            error: match self.error {
                Some(m) => Some(m@),
                None => None,
            },
        }
    }
}

impl ExtractionResult {
    /// Create a successful extraction result.
    pub fn success(text: String) -> (r: Self)
        ensures
            r@ == spec_success(text@),
    {
        Self { text, success: true, error: None }
    }

    /// Create a failed extraction result.
    pub fn failure(error: String) -> (r: Self)
        ensures
            r@ == spec_failure(error@),
    {
        let r = Self { text: String::new(), success: false, error: Some(error) };
        proof {
            assert(r@.text =~= Seq::<char>::empty());
        }
        r
    }
}

/// Relies on `encoding_rs::UTF_8.decode_without_bom_handling`: decodes bytes
/// as UTF-8, substituting replacement characters for invalid sequences; the
/// result is a function of the bytes alone, and valid UTF-8 decodes to
/// exactly its own characters.
#[verifier::external_body]
fn decode_utf8(data: &Vec<u8>) -> (r: String)
    ensures
        r@ == utf8_text_of(data@),
        vstd::utf8::valid_utf8(data@) ==> r@ == vstd::utf8::decode_utf8(data@),
{
    let (cow, _) = encoding_rs::UTF_8.decode_without_bom_handling(data);
    cow.into_owned()
}

/// The characters that UTF-8 decoding with replacement yields for these
/// bytes.
pub uninterp spec fn utf8_text_of(bytes: Seq<u8>) -> Seq<char>;

/// The decoded text of a plain file: its lines, at most [`MAX_LINES`] of
/// them, each terminated by one newline.
pub open spec fn plain_text_of(bytes: Seq<u8>) -> Seq<char> {
    let lines = split_lines(utf8_text_of(bytes));
    let kept = if lines.len() > MAX_LINES {
        lines.take(MAX_LINES as int)
    } else {
        lines
    };
    terminated_lines(kept)
}

/// Extract a plain text or code file: decode as UTF-8 with replacement and
/// keep at most [`MAX_LINES`] lines, each terminated with one newline.
fn extract_text_file(data: &Vec<u8>) -> (r: ExtractionResult)
    ensures
        r@ == spec_success(plain_text_of(data@)),
{
    let decoded = decode_utf8(data);
    let chars = text::chars_vec(decoded.as_str());
    let lines = text::split_lines_vec(&chars);
    let ghost lines_spec = split_lines(utf8_text_of(data@));
    let n = if lines.len() > MAX_LINES {
        MAX_LINES
    } else {
        lines.len()
    };
    let ghost kept = if lines_spec.len() > MAX_LINES {
        lines_spec.take(MAX_LINES as int)
    } else {
        lines_spec
    };
    proof {
        assert(kept =~= lines_spec.take(n as int));
    }
    let mut out: Vec<char> = Vec::new();
    let mut i: usize = 0;
    while i < n
        invariant
            i <= n <= lines@.len(),
            lines.deep_view() == lines_spec,
            out@ == terminated_lines(lines_spec.take(i as int)),
        decreases n - i,
    {
        proof {
            assert(lines.deep_view()[i as int] == lines@[i as int].deep_view());
            assert(lines@[i as int].deep_view() =~= lines@[i as int]@);
            assert(lines_spec.take(i + 1) =~= lines_spec.take(i as int).push(
                lines_spec[i as int],
            ));
            text::lemma_terminated_lines_push(lines_spec.take(i as int), lines_spec[i as int]);
        }
        text::append_chars(&mut out, &lines[i]);
        out.push('\n');
        i = i + 1;
    }
    ExtractionResult::success(text::string_from_chars(&out))
}

/// Relies on `zip::ZipArchive::new`, `ZipArchive::by_name` and
/// `std::io::Read::read_to_string`: reads the decompressed text of the
/// archive entry `word/document.xml`, a function of the archive bytes alone;
/// the error string describes the failure.
#[verifier::external_body]
fn read_docx_document_xml(data: &Vec<u8>) -> (r: Result<String, String>)
    ensures
        r matches Ok(x) ==> docx_xml_of(data@) == Some(x@),
        r is Err ==> docx_xml_of(data@) is None,
{
    let run = || -> Result<String, String> {
        let cursor = std::io::Cursor::new(data.as_slice());
        let mut archive = zip::ZipArchive::new(cursor).map_err(|e| e.to_string())?;
        let mut entry = archive.by_name("word/document.xml").map_err(|e| e.to_string())?;
        let mut xml = String::new();
        std::io::Read::read_to_string(&mut entry, &mut xml).map_err(|e| e.to_string())?;
        Ok(xml)
    };
    run()
}

/// The text of the `word/document.xml` entry of a DOCX (zip) archive, when
/// the archive and the entry can be read.
pub uninterp spec fn docx_xml_of(bytes: Seq<u8>) -> Option<Seq<char>>;

/// A tag that opens a text run: exactly `w:t`, or `w:t` followed by a space
/// and attributes, but never a self-closing form (trailing `/`). Tags that
/// merely start with the same letters (`w:tc`, `w:tab`, `w:tbl`) open
/// nothing.
pub open spec fn is_text_run_opener(tag: Seq<char>) -> bool {
    &&& tag.len() > 0
    &&& tag.last() != '/'
    &&& (tag == "w:t"@ || "w:t "@.is_prefix_of(tag))
}

/// One step of the document scan on a finished tag: a `<w:t>` or `<w:t ...>`
/// opener enters text mode and clears the pending run; `</w:t>` leaves text
/// mode and commits the pending run; `</w:p>` emits a paragraph break.
pub open spec fn docx_apply_tag(
    tag: Seq<char>,
    in_text: bool,
    cur: Seq<char>,
    out: Seq<char>,
) -> (bool, Seq<char>, Seq<char>) {
    if is_text_run_opener(tag) {
        (true, Seq::empty(), out)
    } else if tag == "/w:t"@ {
        (false, cur, out + cur)
    } else if tag == "/w:p"@ || "/w:p "@.is_prefix_of(tag) {
        (in_text, cur, out.push('\n'))
    } else {
        (in_text, cur, out)
    }
}

/// The character scan over DOCX XML: collects the text of non-nested
/// `<w:t>` runs, with a newline at each paragraph end. `tag` holds the
/// partial tag being read, `cur` the pending text run, `out` the committed
/// output; a tag left unfinished at the end of input is still applied.
pub open spec fn docx_scan(
    s: Seq<char>,
    in_text: bool,
    tag: Option<Seq<char>>,
    cur: Seq<char>,
    out: Seq<char>,
) -> Seq<char>
    decreases s.len(),
{
    if s.len() == 0 {
        match tag {
            None => out,
            Some(t) => docx_apply_tag(t, in_text, cur, out).2,
        }
    } else {
        let c = s.first();
        let rest = s.drop_first();
        match tag {
            Some(t) => {
                if c == '>' {
                    let stepped = docx_apply_tag(t, in_text, cur, out);
                    docx_scan(rest, stepped.0, None, stepped.1, stepped.2)
                } else {
                    docx_scan(rest, in_text, Some(t.push(c)), cur, out)
                }
            },
            None => {
                if c == '<' {
                    docx_scan(rest, in_text, Some(Seq::empty()), cur, out)
                } else if in_text {
                    docx_scan(rest, in_text, None, cur.push(c), out)
                } else {
                    docx_scan(rest, in_text, None, cur, out)
                }
            },
        }
    }
}

/// The text recovered from DOCX XML: the raw scan, reduced to its trimmed,
/// non-blank lines.
pub open spec fn docx_text_of(xml: Seq<char>) -> Seq<char> {
    cleaned_text(docx_scan(xml, false, None, Seq::empty(), Seq::empty()))
}

/// Apply a finished tag to the scanner state.
fn apply_tag(tag: &Vec<char>, in_text: bool, cur: Vec<char>, out: Vec<char>) -> (r: (
    bool,
    Vec<char>,
    Vec<char>,
))
    ensures
        (r.0, r.1@, r.2@) == docx_apply_tag(tag@, in_text, cur@, out@),
{
    let opens = tag.len() > 0 && tag[tag.len() - 1] != '/' && (text::eq_str(tag, "w:t")
        || text::starts_with_lit(tag, "w:t "));
    if opens {
        (true, Vec::new(), out)
    } else if text::eq_str(tag, "/w:t") {
        let mut out2 = out;
        text::append_chars(&mut out2, &cur);
        (false, cur, out2)
    } else if text::eq_str(tag, "/w:p") || text::starts_with_lit(tag, "/w:p ") {
        let mut out2 = out;
        out2.push('\n');
        (in_text, cur, out2)
    } else {
        (in_text, cur, out)
    }
}

/// Extract the visible text from DOCX XML by scanning for non-nested
/// `<w:t>…</w:t>` runs, with a newline at each paragraph end, then reducing
/// the result to its trimmed, non-blank lines.
pub fn extract_text_from_docx_xml(xml: &str) -> (r: String)
    ensures
        r@ == docx_text_of(xml@),
{
    let s = text::chars_vec(xml);
    let ghost full = docx_scan(xml@, false, None, Seq::empty(), Seq::empty());
    let mut in_text = false;
    let mut tag: Option<Vec<char>> = None;
    let mut cur: Vec<char> = Vec::new();
    let mut out: Vec<char> = Vec::new();
    let mut i: usize = 0;
    proof {
        assert(s@.skip(0) =~= xml@);
        assert(cur@ =~= Seq::<char>::empty());
        assert(out@ =~= Seq::<char>::empty());
    }
    while i < s.len()
        invariant
            i <= s@.len(),
            full == docx_scan(
                s@.skip(i as int),
                in_text,
                match tag {
                    Some(t) => Some(t@),
                    None => None,
                },
                cur@,
                out@,
            ),
        decreases s@.len() - i,
    {
        let c = s[i];
        proof {
            assert(s@.skip(i as int).first() == s@[i as int]);
            assert(s@.skip(i as int).drop_first() =~= s@.skip(i + 1));
        }
        match tag {
            Some(t) => {
                if c == '>' {
                    let stepped = apply_tag(&t, in_text, cur, out);
                    in_text = stepped.0;
                    cur = stepped.1;
                    out = stepped.2;
                    tag = None;
                } else {
                    let mut t2 = t;
                    t2.push(c);
                    tag = Some(t2);
                }
            },
            None => {
                if c == '<' {
                    tag = Some(Vec::new());
                    proof {
                        assert(tag->0@ =~= Seq::<char>::empty());
                    }
                } else if in_text {
                    cur.push(c);
                }
            },
        }
        i = i + 1;
    }
    proof {
        assert(s@.skip(s@.len() as int) =~= Seq::<char>::empty());
    }
    let raw = match tag {
        Some(t) => {
            let stepped = apply_tag(&t, in_text, cur, out);
            stepped.2
        },
        None => out,
    };
    proof {
        assert(raw@ == full);
    }
    let cleaned = text::clean_chars(&raw);
    text::string_from_chars(&cleaned)
}

/// Extract the text of a DOCX file: read the `word/document.xml` entry of
/// the zip archive and scan it for text runs.
pub fn extract_docx(data: &Vec<u8>) -> (r: ExtractionResult)
    ensures
        docx_xml_of(data@) matches Some(x) ==> r@ == spec_success(docx_text_of(x)),
        docx_xml_of(data@) is None ==> {
            &&& !r@.success
            &&& r@.text.len() == 0
            &&& r@.error matches Some(m) && "Failed to extract DOCX text: "@.is_prefix_of(m)
        },
{
    match read_docx_document_xml(data) {
        Ok(xml) => ExtractionResult::success(extract_text_from_docx_xml(xml.as_str())),
        Err(e) => {
            let mut msg = "Failed to extract DOCX text: ".to_owned();
            msg.append(e.as_str());
            proof {
                assert("Failed to extract DOCX text: "@.is_prefix_of(msg@)) by {
                    assert(msg@.take("Failed to extract DOCX text: "@.len() as int)
                        =~= "Failed to extract DOCX text: "@);
                }
            }
            ExtractionResult::failure(msg)
        },
    }
}

/// The view of a caller-recovered PDF text layer: the characters when one
/// was recovered, `None` when recovery failed or was not attempted.
pub open spec fn layer_view(layer: Option<String>) -> Option<Seq<char>> {
    match layer {
        Some(t) => Some(t@),
        None => None,
    }
}

/// The cleaned PDF text layer: trimmed, non-blank lines of the recovered
/// text, or empty when no text layer could be recovered.
pub open spec fn pdf_cleaned_of(layer: Option<Seq<char>>) -> Seq<char> {
    match layer {
        Some(t) => cleaned_text(t),
        None => Seq::empty(),
    }
}

/// The outcome of PDF extraction when no optical-recognition capability is
/// present: the cleaned text layer, or a failure naming the reason.
pub open spec fn pdf_outcome_of(layer: Option<Seq<char>>, ocr_enabled: bool) -> OutcomeModel {
    let c = pdf_cleaned_of(layer);
    if c.len() == 0 {
        if ocr_enabled && c.len() <= PDF_OCR_THRESHOLD {
            spec_failure("PDF appears to be scanned and OCR is not available"@)
        } else {
            spec_failure("Failed to extract PDF text"@)
        }
    } else {
        spec_success(c)
    }
}

/// Clean a caller-recovered PDF text layer.
fn pdf_cleaned(layer: &Option<String>) -> (r: Vec<char>)
    ensures
        r@ == pdf_cleaned_of(layer_view(*layer)),
{
    match layer {
        Some(t) => {
            let chars = text::chars_vec(t.as_str());
            text::clean_chars(&chars)
        },
        None => Vec::new(),
    }
}

/// The size-exceeded failure reason for a file of `len` bytes.
pub open spec fn size_exceeded_message(len: nat) -> Seq<char> {
    "File too large: "@ + digits::dec_digits(len) + " bytes (max: "@ + digits::dec_digits(
        MAX_FILE_SIZE as nat,
    ) + " bytes)"@
}

/// Build the size-exceeded failure for a file of `len` bytes.
pub fn size_exceeded_failure(len: u64) -> (r: ExtractionResult)
    ensures
        r@ == spec_failure(size_exceeded_message(len as nat)),
{
    let mut msg = "File too large: ".to_owned();
    let d = digits::u64_to_dec(len);
    msg.append(text::string_from_chars(&d).as_str());
    msg.append(" bytes (max: ");
    let m = digits::u64_to_dec(MAX_FILE_SIZE);
    msg.append(text::string_from_chars(&m).as_str());
    msg.append(" bytes)");
    ExtractionResult::failure(msg)
}

/// Extract text from a file's bytes based on its type, without an
/// optical-recognition capability: a file over [`MAX_FILE_SIZE`] always
/// fails with the size-exceeded reason; text, code and unknown files decode
/// as UTF-8; DOCX archives are scanned; a PDF file yields the cleaned form
/// of `pdf_layer`, the text layer the caller recovered for it (`None` when
/// recovery failed; ignored for other types); image files fail, since
/// recognition is not available here.
pub fn extract_text(
    data: &Vec<u8>,
    file_type: FileType,
    ocr_enabled: bool,
    pdf_layer: Option<String>,
) -> (r: ExtractionResult)
    ensures
        data@.len() > MAX_FILE_SIZE ==> r@ == spec_failure(size_exceeded_message(data@.len())),
        data@.len() <= MAX_FILE_SIZE ==> match file_type {
            FileType::Text | FileType::Code | FileType::Other => r@ == spec_success(
                plain_text_of(data@),
            ),
            FileType::Pdf => r@ == pdf_outcome_of(layer_view(pdf_layer), ocr_enabled),
            FileType::Docx => (match docx_xml_of(data@) {
                Some(x) => r@ == spec_success(docx_text_of(x)),
                None => !r@.success && r@.text.len() == 0 && (r@.error matches Some(m)
                    && "Failed to extract DOCX text: "@.is_prefix_of(m)),
            }),
            FileType::Image => r@ == spec_failure(
                if ocr_enabled {
                    "OCR not available"@
                } else {
                    "OCR not enabled for images"@
                },
            ),
        },
{
    if data.len() as u64 > MAX_FILE_SIZE {
        return size_exceeded_failure(data.len() as u64);
    }
    match file_type {
        FileType::Text | FileType::Code | FileType::Other => extract_text_file(data),
        FileType::Pdf => {
            let cleaned = pdf_cleaned(&pdf_layer);
            if cleaned.len() == 0 {
                if ocr_enabled && cleaned.len() <= PDF_OCR_THRESHOLD {
                    ExtractionResult::failure(
                        "PDF appears to be scanned and OCR is not available".to_owned(),
                    )
                } else {
                    ExtractionResult::failure("Failed to extract PDF text".to_owned())
                }
            } else {
                ExtractionResult::success(text::string_from_chars(&cleaned))
            }
        },
        FileType::Docx => extract_docx(data),
        FileType::Image => {
            if ocr_enabled {
                ExtractionResult::failure("OCR not available".to_owned())
            } else {
                ExtractionResult::failure("OCR not enabled for images".to_owned())
            }
        },
    }
}

/// What extraction needs next when an optical-recognition capability is
/// present: most files finish outright; a scanned PDF hands back its sparse
/// text layer and recovered images, an image file asks for recognition of
/// its raw bytes. The caller recognises the images and completes with
/// [`extract_finish_pdf`] or [`extract_finish_image`].
pub enum ExtractStep {
    /// Extraction finished without recognition.
    Finished(ExtractionResult),
    /// A scanned PDF: recognise each recovered image, then call
    /// [`extract_finish_pdf`] with `cleaned` and the recognised texts.
    PdfOcr {
        /// The cleaned, sparse text layer.
        cleaned: String,
        /// The recovered embedded images, in object order.
        images: Vec<crate::pdf_images::RecoveredImage>,
    },
    /// An image file: recognise the raw file bytes, then call
    /// [`extract_finish_image`].
    ImageOcr,
}

/// Begin extraction with an optical-recognition capability at hand: like
/// [`extract_text`], but a scanned PDF (a cleaned text layer of at most
/// [`PDF_OCR_THRESHOLD`] characters, with OCR enabled) yields its text layer
/// and exactly the recovered embedded images for recognition, and an image
/// file with OCR enabled asks for recognition of its bytes. `pdf_layer` is
/// the text layer the caller recovered for a PDF file (`None` when recovery
/// failed; ignored for other types).
pub fn extract_begin(
    data: &Vec<u8>,
    file_type: FileType,
    ocr_enabled: bool,
    pdf_layer: Option<String>,
) -> (r: ExtractStep)
    ensures
        data@.len() > MAX_FILE_SIZE ==> (r matches ExtractStep::Finished(o) && o@
            == spec_failure(size_exceeded_message(data@.len()))),
        data@.len() <= MAX_FILE_SIZE ==> match file_type {
            FileType::Text | FileType::Code | FileType::Other => (r
                matches ExtractStep::Finished(o) && o@ == spec_success(plain_text_of(data@))),
            FileType::Docx => (r matches ExtractStep::Finished(o) && (match docx_xml_of(data@) {
                Some(x) => o@ == spec_success(docx_text_of(x)),
                None => !o@.success && o@.text.len() == 0 && (o@.error matches Some(m)
                    && "Failed to extract DOCX text: "@.is_prefix_of(m)),
            })),
            FileType::Image => if ocr_enabled {
                r is ImageOcr
            } else {
                (r matches ExtractStep::Finished(o) && o@ == spec_failure(
                    "OCR not enabled for images"@,
                ))
            },
            FileType::Pdf => {
                let c = pdf_cleaned_of(layer_view(pdf_layer));
                if !ocr_enabled || c.len() > PDF_OCR_THRESHOLD {
                    (r matches ExtractStep::Finished(o) && o@ == (if c.len() == 0 {
                        spec_failure("Failed to extract PDF text"@)
                    } else {
                        spec_success(c)
                    }))
                } else {
                    (r matches ExtractStep::PdfOcr { cleaned, images } && cleaned@ == c && (
                    match crate::pdf_images::pdf_stream_infos(data@) {
                        Some(infos) => images.deep_view() == crate::pdf_images::recovered_of(
                            infos,
                        ),
                        None => images@.len() == 0,
                    }))
                }
            },
        },
{
    if data.len() as u64 > MAX_FILE_SIZE {
        return ExtractStep::Finished(size_exceeded_failure(data.len() as u64));
    }
    match file_type {
        FileType::Text | FileType::Code | FileType::Other => ExtractStep::Finished(
            extract_text_file(data),
        ),
        FileType::Docx => ExtractStep::Finished(extract_docx(data)),
        FileType::Image => {
            if ocr_enabled {
                ExtractStep::ImageOcr
            } else {
                ExtractStep::Finished(
                    ExtractionResult::failure("OCR not enabled for images".to_owned()),
                )
            }
        },
        FileType::Pdf => {
            let cleaned = pdf_cleaned(&pdf_layer);
            if !ocr_enabled || cleaned.len() > PDF_OCR_THRESHOLD {
                if cleaned.len() == 0 {
                    ExtractStep::Finished(
                        ExtractionResult::failure("Failed to extract PDF text".to_owned()),
                    )
                } else {
                    ExtractStep::Finished(
                        ExtractionResult::success(text::string_from_chars(&cleaned)),
                    )
                }
            } else {
                let images = match crate::pdf_images::recover_pdf_images(data) {
                    Ok(imgs) => imgs,
                    Err(_) => Vec::new(),
                };
                proof {
                    if crate::pdf_images::pdf_stream_infos(data@) is None {
                        assert(images@.len() == 0);
                    }
                }
                ExtractStep::PdfOcr { cleaned: text::string_from_chars(&cleaned), images }
            }
        },
    }
}

/// The per-image recognised texts worth keeping: each reduced to trimmed,
/// non-blank lines, with blank results dropped.
pub open spec fn nonblank_blocks(ts: Seq<Seq<char>>) -> Seq<Seq<char>>
    decreases ts.len(),
{
    if ts.len() == 0 {
        Seq::empty()
    } else {
        let c = cleaned_text(ts.first());
        if c.len() > 0 {
            seq![c] + nonblank_blocks(ts.drop_first())
        } else {
            nonblank_blocks(ts.drop_first())
        }
    }
}

/// The outcome of the scanned-PDF fallback, given the cleaned text layer,
/// the recognised text of each embedded image, and how many candidate images
/// were tried.
pub open spec fn pdf_ocr_outcome_of(
    cleaned: Seq<char>,
    ocr_texts: Seq<Seq<char>>,
    attempted: nat,
) -> OutcomeModel {
    let blocks = nonblank_blocks(ocr_texts);
    if blocks.len() > 0 {
        let joined = join_with(blocks, seq!['\n', '\n']);
        if cleaned.len() == 0 {
            spec_success(joined)
        } else {
            spec_success(cleaned + seq!['\n'] + joined)
        }
    } else if cleaned.len() > 0 {
        spec_success(cleaned)
    } else {
        spec_failure(
            "No readable text found in "@ + digits::dec_digits(attempted) + " PDF image(s)"@,
        )
    }
}

/// Finish PDF extraction on the scanned-PDF fallback path: combine the
/// cleaned text layer with the recognised text of each embedded image
/// (blank-line separated), fall back to the sparse text layer when
/// recognition found nothing, and fail naming the number of candidate images
/// when there is no text at all.
pub fn extract_finish_pdf(cleaned: &str, ocr_texts: &Vec<String>, attempted: u64) -> (r:
    ExtractionResult)
    ensures
        r@ == pdf_ocr_outcome_of(cleaned@, ocr_texts.deep_view(), attempted as nat),
{
    let ghost texts_spec = ocr_texts.deep_view();
    let mut blocks: Vec<Vec<char>> = Vec::new();
    let mut i: usize = 0;
    proof {
        assert(texts_spec.skip(0) =~= texts_spec);
        assert(blocks.deep_view() + nonblank_blocks(texts_spec) =~= nonblank_blocks(texts_spec));
    }
    while i < ocr_texts.len()
        invariant
            i <= ocr_texts@.len(),
            texts_spec == ocr_texts.deep_view(),
            nonblank_blocks(texts_spec) == blocks.deep_view() + nonblank_blocks(
                texts_spec.skip(i as int),
            ),
        decreases ocr_texts@.len() - i,
    {
        proof {
            assert(texts_spec.skip(i as int).first() == texts_spec[i as int]);
            assert(texts_spec.skip(i as int).drop_first() =~= texts_spec.skip(i + 1));
            assert(ocr_texts.deep_view()[i as int] == ocr_texts@[i as int].deep_view());
        }
        let chars = text::chars_vec(ocr_texts[i].as_str());
        let c = text::clean_chars(&chars);
        if c.len() > 0 {
            let ghost old_blocks = blocks.deep_view();
            let ghost c_spec = c@;
            blocks.push(c);
            proof {
                assert(blocks.deep_view() =~~= old_blocks + seq![c_spec]);
                assert((old_blocks + seq![c_spec]) + nonblank_blocks(texts_spec.skip(i + 1))
                    =~= old_blocks + (seq![c_spec] + nonblank_blocks(texts_spec.skip(i + 1))));
            }
        }
        i = i + 1;
    }
    proof {
        assert(texts_spec.skip(ocr_texts@.len() as int) =~= Seq::<Seq<char>>::empty());
        assert(nonblank_blocks(texts_spec) =~= blocks.deep_view());
    }
    let cleaned_chars = text::chars_vec(cleaned);
    if blocks.len() > 0 {
        let sep: Vec<char> = vec!['\n', '\n'];
        proof {
            assert(sep@ =~= seq!['\n', '\n']);
        }
        let joined = text::join_chars(&blocks, &sep);
        if cleaned_chars.len() == 0 {
            ExtractionResult::success(text::string_from_chars(&joined))
        } else {
            let mut combined = cleaned_chars;
            combined.push('\n');
            text::append_chars(&mut combined, &joined);
            proof {
                assert(combined@ =~= cleaned@ + seq!['\n'] + joined@);
            }
            ExtractionResult::success(text::string_from_chars(&combined))
        }
    } else if cleaned_chars.len() > 0 {
        ExtractionResult::success(cleaned.to_owned())
    } else {
        let mut msg = "No readable text found in ".to_owned();
        let d = digits::u64_to_dec(attempted);
        msg.append(text::string_from_chars(&d).as_str());
        msg.append(" PDF image(s)");
        ExtractionResult::failure(msg)
    }
}

/// Finish image extraction given the optical-recognition outcome: recognised
/// text is reduced to its trimmed, non-blank lines; a recognition failure
/// becomes an extraction failure with the given reason.
pub fn extract_finish_image(ocr: Result<String, String>) -> (r: ExtractionResult)
    ensures
        ocr matches Ok(t) ==> r@ == spec_success(cleaned_text(t@)),
        ocr matches Err(m) ==> r@ == spec_failure(m@),
{
    match ocr {
        Ok(t) => {
            let chars = text::chars_vec(t.as_str());
            let c = text::clean_chars(&chars);
            ExtractionResult::success(text::string_from_chars(&c))
        },
        Err(m) => ExtractionResult::failure(m),
    }
}

} // verus!

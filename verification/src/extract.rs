//! Text extraction from resume documents: which file kinds are read, how the
//! text runs of a Word document are put together, and how extracted text is
//! cleaned. Reading the file is left to the caller; decoding a PDF, opening a
//! DOCX archive and tokenizing its XML are done by outside crates.

use crate::text::{
    append_chars, ascii_lower, chars_eq, chars_to_string, join_chars, join_with, lemma_map_push,
    lemma_trim_idempotent,
    lower, replace_all, replace_chars, slice_chars, str_chars, trim, trim_chars, trim_end, trim_end_chars,
    vecs_view,
};
use quick_xml::events::Event;
use vstd::prelude::*;

verus! {

// ---------------------------------------------------------------- cleaning

/// The pieces of `s` between occurrences of `c` (empty pieces included).
pub open spec fn split_on(s: Seq<char>, c: char) -> Seq<Seq<char>>
    decreases s.len(),
{
    if s.len() == 0 {
        seq![Seq::<char>::empty()]
    } else {
        let r = split_on(s.drop_last(), c);
        if s.last() == c {
            r.push(Seq::<char>::empty())
        } else {
            r.update(r.len() - 1, r.last().push(s.last()))
        }
    }
}

/// A line with one trailing carriage return removed.
pub open spec fn strip_cr(l: Seq<char>) -> Seq<char> {
    if l.len() > 0 && l.last() == '\r' {
        l.drop_last()
    } else {
        l
    }
}

/// What `str::lines` yields: the pieces between line feeds, without a final
/// empty piece, each without a trailing carriage return.
pub open spec fn lines_of(s: Seq<char>) -> Seq<Seq<char>> {
    let p = split_on(s, '\n');
    let q = if p.last().len() == 0 {
        p.drop_last()
    } else {
        p
    };
    q.map_values(|l: Seq<char>| strip_cr(l))
}

/// Extracted text cleaned up: CRLF made LF, no-break spaces made spaces,
/// trailing white space of each line removed, the whole trimmed.
pub open spec fn cleaned_text(s: Seq<char>) -> Seq<char> {
    let t = replace_all(replace_all(s, seq!['\r', '\n'], seq!['\n']), seq!['\u{A0}'], seq![' ']);
    trim(join_with(lines_of(t).map_values(|l: Seq<char>| trim_end(l)), seq!['\n']))
}

proof fn lemma_split_on_len(s: Seq<char>, c: char)
    ensures
        split_on(s, c).len() >= 1,
    decreases s.len(),
{
    if s.len() > 0 {
        lemma_split_on_len(s.drop_last(), c);
    }
}

/// The pieces of `s` between occurrences of `sep`: what `str::split` with a
/// char gives.
pub fn split_on_char(s: &Vec<char>, sep: char) -> (r: Vec<Vec<char>>)
    ensures
        vecs_view(r@) == split_on(s@, sep),
{
    let mut done: Vec<Vec<char>> = Vec::new();
    let mut cur: Vec<char> = Vec::new();
    let mut i: usize = 0;
    assert(s@.take(0) =~= Seq::<char>::empty());
    assert(vecs_view(done@) =~= split_on(s@.take(0), sep).drop_last());
    while i < s.len()
        invariant
            i <= s.len(),
            split_on(s@.take(i as int), sep).len() >= 1,
            split_on(s@.take(i as int), sep).last() == cur@,
            vecs_view(done@) == split_on(s@.take(i as int), sep).drop_last(),
        decreases s.len() - i,
    {
        let c = s[i];
        let ghost prev = split_on(s@.take(i as int), sep);
        proof {
            lemma_split_on_len(s@.take(i as int), sep);
            assert(s@.take(i + 1).drop_last() =~= s@.take(i as int));
            assert(s@.take(i + 1).last() == c);
        }
        if c == sep {
            let ghost before = vecs_view(done@);
            let ghost cv = cur@;
            done.push(cur);
            assert(vecs_view(done@) =~= before.push(cv));
            cur = Vec::new();
            let ghost next = split_on(s@.take(i + 1), sep);
            assert(next.drop_last() =~= prev);
            assert(prev =~= prev.drop_last().push(cv));
        } else {
            cur.push(c);
            let ghost next = split_on(s@.take(i + 1), sep);
            assert(next.drop_last() =~= prev.drop_last());
        }
        i += 1;
    }
    let ghost fin = split_on(s@.take(i as int), sep);
    let ghost before = vecs_view(done@);
    let ghost cv = cur@;
    done.push(cur);
    assert(vecs_view(done@) =~= before.push(cv));
    assert(fin =~= fin.drop_last().push(cv));
    assert(s@.take(s.len() as int) =~= s@);
    done
}

/// What `str::lines` yields, on a vector of chars.
pub fn str_lines(s: &Vec<char>) -> (r: Vec<Vec<char>>)
    ensures
        vecs_view(r@) == lines_of(s@),
{
    let pieces = split_on_char(s, '\n');
    proof {
        lemma_split_on_len(s@, '\n');
    }
    let ghost p = vecs_view(pieces@);
    let ghost q = if p.last().len() == 0 {
        p.drop_last()
    } else {
        p
    };
    let n: usize = if pieces[pieces.len() - 1].len() == 0 {
        pieces.len() - 1
    } else {
        pieces.len()
    };
    assert(q.len() == n);
    let mut r: Vec<Vec<char>> = Vec::new();
    let mut i: usize = 0;
    while i < n
        invariant
            i <= n <= pieces.len(),
            q.len() == n,
            p == vecs_view(pieces@),
            forall|k: int| 0 <= k < n ==> #[trigger] q[k] == p[k],
            vecs_view(r@) == q.take(i as int).map_values(|l: Seq<char>| strip_cr(l)),
        decreases n - i,
    {
        let piece = &pieces[i];
        let stripped: Vec<char> = if piece.len() > 0 && piece[piece.len() - 1] == '\r' {
            slice_chars(piece, 0, piece.len() - 1)
        } else {
            piece.clone()
        };
        assert(stripped@ == strip_cr(q[i as int]));
        proof {
            let a = q.take(i as int);
            let x = q[i as int];
            assert(q.take(i + 1) =~= a.push(x));
            lemma_map_push(a, x, |l: Seq<char>| strip_cr(l));
            lemma_map_push(r@, stripped, |x: Vec<char>| x@);
        }
        r.push(stripped);
        i += 1;
    }
    assert(q.take(n as int) =~= q);
    r
}

/// `str::lines` followed by `trim_end` on each line.
fn trimmed_lines(s: &Vec<char>) -> (r: Vec<Vec<char>>)
    ensures
        vecs_view(r@) == lines_of(s@).map_values(|l: Seq<char>| trim_end(l)),
{
    let lines = str_lines(s);
    let ghost lv = vecs_view(lines@);
    let mut r: Vec<Vec<char>> = Vec::new();
    let mut i: usize = 0;
    while i < lines.len()
        invariant
            i <= lines.len(),
            lv == vecs_view(lines@),
            vecs_view(r@) == lv.take(i as int).map_values(|l: Seq<char>| trim_end(l)),
        decreases lines.len() - i,
    {
        let line = trim_end_chars(&lines[i]);
        proof {
            let a = lv.take(i as int);
            let x = lv[i as int];
            assert(lv.take(i + 1) =~= a.push(x));
            lemma_map_push(a, x, |l: Seq<char>| trim_end(l));
            lemma_map_push(r@, line, |x: Vec<char>| x@);
        }
        r.push(line);
        i += 1;
    }
    assert(lv.take(i as int) =~= lv);
    r
}

/// Cleans extracted text: line endings normalized, no-break spaces made
/// spaces, trailing white space of every line removed, the whole trimmed.
pub fn cleanup_text(s: &str) -> (r: String)
    ensures
        r@ == cleaned_text(s@),
{
    let chars = str_chars(s);
    let mut crlf: Vec<char> = Vec::new();
    crlf.push('\r');
    crlf.push('\n');
    let mut lf: Vec<char> = Vec::new();
    lf.push('\n');
    let mut nbsp: Vec<char> = Vec::new();
    nbsp.push('\u{A0}');
    let mut sp: Vec<char> = Vec::new();
    sp.push(' ');
    assert(crlf@ =~= seq!['\r', '\n']);
    assert(lf@ =~= seq!['\n']);
    assert(nbsp@ =~= seq!['\u{A0}']);
    assert(sp@ =~= seq![' ']);
    let t1 = replace_chars(&chars, &crlf, &lf);
    let t = replace_chars(&t1, &nbsp, &sp);
    let lines = trimmed_lines(&t);
    let joined = join_chars(&lines, &lf);
    chars_to_string(&trim_chars(&joined))
}

// ---------------------------------------------------------------- Word documents

/// An event of the XML reader, with what text extraction reads of it: element
/// names as bytes, and a text node's unescaped content (`None` where
/// unescaping failed).
pub enum XmlEvent {
    Start(Vec<u8>),
    End(Vec<u8>),
    Text(Option<String>),
    Other,
}

pub enum XmlEventV {
    Start(Seq<u8>),
    End(Seq<u8>),
    Text(Option<Seq<char>>),
    Other,
}

impl View for XmlEvent {
    type V = XmlEventV;

    open spec fn view(&self) -> XmlEventV {
        match self {
            XmlEvent::Start(n) => XmlEventV::Start(n@),
            XmlEvent::End(n) => XmlEventV::End(n@),
            XmlEvent::Text(t) => XmlEventV::Text(
                match t {
                    Some(s) => Some(s@),
                    None => None,
                },
            ),
            XmlEvent::Other => XmlEventV::Other,
        }
    }
}

pub open spec fn events_view(v: Seq<XmlEvent>) -> Seq<XmlEventV> {
    v.map_values(|e: XmlEvent| e@)
}

/// The events that `quick_xml::Reader`, reading `xml` with text trimming on,
/// yields before the end of the input or its first error.
pub uninterp spec fn xml_event_seq(xml: Seq<char>) -> Seq<XmlEventV>;

/// Runs `quick_xml::Reader::from_str` with `trim_text(true)` and collects what
/// `read_event_into` yields up to the end of the input or the first error;
/// the result is the named `xml_event_seq` of the input.
#[verifier::external_body]
fn xml_events(xml: &str) -> (r: Vec<XmlEvent>)
    ensures
        events_view(r@) == xml_event_seq(xml@),
{
    let mut reader = quick_xml::Reader::from_str(xml);
    reader.trim_text(true);
    let (mut buf, mut out) = (Vec::new(), Vec::new());
    loop {
        let ev = match reader.read_event_into(&mut buf) {
            Ok(Event::Start(e)) => XmlEvent::Start(e.name().as_ref().to_vec()),
            Ok(Event::End(e)) => XmlEvent::End(e.name().as_ref().to_vec()),
            Ok(Event::Text(t)) => XmlEvent::Text(t.unescape().ok().map(|s| s.into_owned())),
            Ok(Event::Eof) | Err(_) => break,
            Ok(_) => XmlEvent::Other,
        };
        out.push(ev);
        buf.clear();
    }
    out
}

/// Last byte (`p`) of the name of a paragraph element.
pub const RUN_PARAGRAPH: u8 = 0x70;

/// Last byte (`t`) of the name of a text element.
pub const RUN_TEXT: u8 = 0x74;

/// The element name ends with byte `b`.
pub open spec fn name_ends_with(n: Seq<u8>, b: u8) -> bool {
    n.len() > 0 && n.last() == b
}

/// The text gathered from the events and whether the last event left the
/// reader inside a text run: an element whose name ends in `t` opens a run,
/// its end closes it; text inside a run is kept; an element whose name ends
/// in `p` starts a new line unless the text is empty or already ends one.
pub open spec fn doc_text_run(evs: Seq<XmlEventV>) -> (Seq<char>, bool)
    decreases evs.len(),
{
    if evs.len() == 0 {
        (Seq::empty(), false)
    } else {
        let (out, in_text) = doc_text_run(evs.drop_last());
        match evs.last() {
            XmlEventV::Start(n) => (
                if name_ends_with(n, RUN_PARAGRAPH) && out.len() > 0 && out.last() != '\n' {
                    out.push('\n')
                } else {
                    out
                },
                in_text || name_ends_with(n, RUN_TEXT),
            ),
            XmlEventV::End(n) => (out, in_text && !name_ends_with(n, RUN_TEXT)),
            XmlEventV::Text(Some(t)) => if in_text {
                (out + t, in_text)
            } else {
                (out, in_text)
            },
            _ => (out, in_text),
        }
    }
}

fn ends_with_byte(n: &Vec<u8>, b: u8) -> (r: bool)
    ensures
        r == name_ends_with(n@, b),
{
    n.len() > 0 && n[n.len() - 1] == b
}

/// The cleaned text of the text runs of a Word document's body, given the
/// events of its XML.
pub fn text_from_xml_events(events: &Vec<XmlEvent>) -> (r: String)
    ensures
        r@ == cleaned_text(doc_text_run(events_view(events@)).0),
{
    let ghost ev = events_view(events@);
    let mut out: Vec<char> = Vec::new();
    let mut in_text = false;
    let mut i: usize = 0;
    assert(ev.take(0) =~= Seq::<XmlEventV>::empty());
    while i < events.len()
        invariant
            i <= events.len(),
            ev == events_view(events@),
            doc_text_run(ev.take(i as int)) == (out@, in_text),
        decreases events.len() - i,
    {
        assert(ev.take(i + 1).drop_last() =~= ev.take(i as int));
        assert(ev.take(i + 1).last() == events@[i as int]@);
        match &events[i] {
            XmlEvent::Start(n) => {
                if ends_with_byte(n, RUN_TEXT) {
                    in_text = true;
                }
                if ends_with_byte(n, RUN_PARAGRAPH) && out.len() > 0 && out[out.len() - 1] != '\n' {
                    out.push('\n');
                }
            },
            XmlEvent::End(n) => {
                if ends_with_byte(n, RUN_TEXT) {
                    in_text = false;
                }
            },
            XmlEvent::Text(Some(t)) => {
                if in_text {
                    append_chars(&mut out, &str_chars(t.as_str()));
                }
            },
            _ => {},
        }
        i += 1;
    }
    assert(ev.take(i as int) =~= ev);
    cleanup_text(chars_to_string(&out).as_str())
}

/// The cleaned text of the text runs of a Word document's `document.xml`.
pub fn extract_text_from_document_xml(xml: &str) -> (r: String)
    ensures
        r@ == cleaned_text(doc_text_run(xml_event_seq(xml@)).0),
{
    text_from_xml_events(&xml_events(xml))
}

/// What reading one entry of a ZIP archive as UTF-8 text gave.
pub enum ZipEntryText {
    Text(String),
    /// The bytes are not a readable archive; the reader's error message.
    ArchiveError(String),
    EntryMissing,
    /// The entry could not be read as text; the error message.
    ReadError(String),
}

pub enum ZipEntryTextV {
    Text(Seq<char>),
    ArchiveError(Seq<char>),
    EntryMissing,
    ReadError(Seq<char>),
}

impl View for ZipEntryText {
    type V = ZipEntryTextV;

    open spec fn view(&self) -> ZipEntryTextV {
        match self {
            ZipEntryText::Text(s) => ZipEntryTextV::Text(s@),
            ZipEntryText::ArchiveError(s) => ZipEntryTextV::ArchiveError(s@),
            ZipEntryText::EntryMissing => ZipEntryTextV::EntryMissing,
            ZipEntryText::ReadError(s) => ZipEntryTextV::ReadError(s@),
        }
    }
}

/// What reading the entry `name` of the ZIP archive `bytes` as text gives.
pub uninterp spec fn zip_entry_text(bytes: Seq<u8>, name: Seq<char>) -> ZipEntryTextV;

/// Opens `bytes` with `zip::ZipArchive::new`, looks the entry up with
/// `by_name` and reads it with `Read::read_to_string`; each failure is told
/// apart. The result is the named `zip_entry_text` of the arguments.
#[verifier::external_body]
fn read_zip_entry(bytes: &[u8], name: &str) -> (r: ZipEntryText)
    ensures
        r@ == zip_entry_text(bytes@, name@),
{
    let mut zip = match zip::ZipArchive::new(std::io::Cursor::new(bytes)) {
        Ok(z) => z,
        Err(e) => return ZipEntryText::ArchiveError(e.to_string()),
    };
    let mut entry = match zip.by_name(name) {
        Ok(f) => f,
        Err(_) => return ZipEntryText::EntryMissing,
    };
    let mut text = String::new();
    match std::io::Read::read_to_string(&mut entry, &mut text) {
        Ok(_) => ZipEntryText::Text(text),
        Err(e) => ZipEntryText::ReadError(e.to_string()),
    }
}

// ---------------------------------------------------------------- PDF

pub open spec fn text_result_view(r: Result<String, String>) -> Result<Seq<char>, Seq<char>> {
    match r {
        Ok(s) => Ok(s@),
        Err(e) => Err(e@),
    }
}

// ---------------------------------------------------------------- routing

/// Why a document's text could not be extracted.
pub enum ExtractError {
    /// The PDF could not be read; the reader's message.
    PdfFailed(String),
    /// The DOCX archive could not be read; the reader's message.
    DocxUnreadable(String),
    MissingDocumentXml,
    /// `document.xml` could not be read as text; the error message.
    ReadFailed(String),
    LegacyDoc,
    ImageNotSupported,
    Unsupported,
}

pub enum ExtractErrorV {
    PdfFailed(Seq<char>),
    DocxUnreadable(Seq<char>),
    MissingDocumentXml,
    ReadFailed(Seq<char>),
    LegacyDoc,
    ImageNotSupported,
    Unsupported,
}

impl View for ExtractError {
    type V = ExtractErrorV;

    open spec fn view(&self) -> ExtractErrorV {
        match self {
            ExtractError::PdfFailed(s) => ExtractErrorV::PdfFailed(s@),
            ExtractError::DocxUnreadable(s) => ExtractErrorV::DocxUnreadable(s@),
            ExtractError::MissingDocumentXml => ExtractErrorV::MissingDocumentXml,
            ExtractError::ReadFailed(s) => ExtractErrorV::ReadFailed(s@),
            ExtractError::LegacyDoc => ExtractErrorV::LegacyDoc,
            ExtractError::ImageNotSupported => ExtractErrorV::ImageNotSupported,
            ExtractError::Unsupported => ExtractErrorV::Unsupported,
        }
    }
}

/// The message shown for each error.
pub open spec fn extract_error_message(e: ExtractErrorV) -> Seq<char> {
    match e {
        ExtractErrorV::PdfFailed(m) => "PDF 文本抽取失败："@ + m,
        ExtractErrorV::DocxUnreadable(m) => "DOCX 读取失败："@ + m,
        ExtractErrorV::MissingDocumentXml => "DOCX 缺少 word/document.xml"@,
        ExtractErrorV::ReadFailed(m) => m,
        ExtractErrorV::LegacyDoc => "暂不直接支持 .doc（老 Word）。建议用 Word 另存为 .docx 后再导入。"@,
        ExtractErrorV::ImageNotSupported => "图片/扫描件 OCR 尚未启用。当前版本请先将图片内容转为文本或 PDF 文本版后再导入。"@,
        ExtractErrorV::Unsupported => "不支持的文件类型"@,
    }
}

impl ExtractError {
    /// The message shown to the user.
    pub fn message(&self) -> (r: String)
        ensures
            r@ == extract_error_message(self@),
    {
        match self {
            ExtractError::PdfFailed(m) => {
                let mut s = str_chars("PDF 文本抽取失败：");
                append_chars(&mut s, &str_chars(m.as_str()));
                chars_to_string(&s)
            },
            ExtractError::DocxUnreadable(m) => {
                let mut s = str_chars("DOCX 读取失败：");
                append_chars(&mut s, &str_chars(m.as_str()));
                chars_to_string(&s)
            },
            ExtractError::MissingDocumentXml => "DOCX 缺少 word/document.xml".to_owned(),
            ExtractError::ReadFailed(m) => m.clone(),
            ExtractError::LegacyDoc => "暂不直接支持 .doc（老 Word）。建议用 Word 另存为 .docx 后再导入。".to_owned(),
            ExtractError::ImageNotSupported => "图片/扫描件 OCR 尚未启用。当前版本请先将图片内容转为文本或 PDF 文本版后再导入。".to_owned(),
            ExtractError::Unsupported => "不支持的文件类型".to_owned(),
        }
    }
}

/// The outcome of extracting text from the bytes of a PDF, given what the PDF
/// reader returned.
pub open spec fn pdf_outcome(res: Result<Seq<char>, Seq<char>>) -> Result<Seq<char>, ExtractErrorV> {
    match res {
        Ok(t) => Ok(cleaned_text(t)),
        Err(m) => Err(ExtractErrorV::PdfFailed(m)),
    }
}

pub open spec fn outcome_view(r: Result<String, ExtractError>) -> Result<Seq<char>, ExtractErrorV> {
    match r {
        Ok(s) => Ok(s@),
        Err(e) => Err(e@),
    }
}

/// The cleaned text of a PDF document, given what the PDF reader returned for
/// it: its text, or the message of its error.
pub fn extract_pdf_text(reading: Result<String, String>) -> (r: Result<String, ExtractError>)
    ensures
        outcome_view(r) == pdf_outcome(text_result_view(reading)),
{
    match reading {
        Ok(t) => Ok(cleanup_text(t.as_str())),
        Err(m) => Err(ExtractError::PdfFailed(m)),
    }
}

/// The outcome of extracting text from a DOCX document, given what reading
/// its `word/document.xml` entry gave.
pub open spec fn docx_outcome(entry: ZipEntryTextV) -> Result<Seq<char>, ExtractErrorV> {
    match entry {
        ZipEntryTextV::Text(x) => Ok(cleaned_text(doc_text_run(xml_event_seq(x)).0)),
        ZipEntryTextV::ArchiveError(m) => Err(ExtractErrorV::DocxUnreadable(m)),
        ZipEntryTextV::EntryMissing => Err(ExtractErrorV::MissingDocumentXml),
        ZipEntryTextV::ReadError(m) => Err(ExtractErrorV::ReadFailed(m)),
    }
}

/// The text of a DOCX document given what reading its `word/document.xml`
/// entry gave.
pub fn docx_text_from_entry(entry: ZipEntryText) -> (r: Result<String, ExtractError>)
    ensures
        outcome_view(r) == docx_outcome(entry@),
{
    match entry {
        ZipEntryText::Text(x) => Ok(extract_text_from_document_xml(x.as_str())),
        ZipEntryText::ArchiveError(m) => Err(ExtractError::DocxUnreadable(m)),
        ZipEntryText::EntryMissing => Err(ExtractError::MissingDocumentXml),
        ZipEntryText::ReadError(m) => Err(ExtractError::ReadFailed(m)),
    }
}

/// The cleaned text of a DOCX document held in `bytes`.
pub fn extract_docx_text(bytes: &[u8]) -> (r: Result<String, ExtractError>)
    ensures
        outcome_view(r) == docx_outcome(zip_entry_text(bytes@, "word/document.xml"@)),
{
    docx_text_from_entry(read_zip_entry(bytes, "word/document.xml"))
}

/// The kinds of file told apart by their extension.
pub enum DocumentKind {
    Pdf,
    Docx,
    LegacyDoc,
    Image,
    Unsupported,
}

/// The kind of a file by its extension, compared without regard to ASCII case.
pub open spec fn document_kind_of(ext: Seq<char>) -> DocumentKind {
    let e = lower(ext);
    if e == "pdf"@ {
        DocumentKind::Pdf
    } else if e == "docx"@ {
        DocumentKind::Docx
    } else if e == "doc"@ {
        DocumentKind::LegacyDoc
    } else if e == "png"@ || e == "jpg"@ || e == "jpeg"@ || e == "webp"@ {
        DocumentKind::Image
    } else {
        DocumentKind::Unsupported
    }
}

/// The kind of a file by its extension.
pub fn document_kind(ext: &str) -> (r: DocumentKind)
    ensures
        r == document_kind_of(ext@),
{
    let e = ascii_lower(&str_chars(ext));
    if chars_eq(&e, &str_chars("pdf")) {
        DocumentKind::Pdf
    } else if chars_eq(&e, &str_chars("docx")) {
        DocumentKind::Docx
    } else if chars_eq(&e, &str_chars("doc")) {
        DocumentKind::LegacyDoc
    } else if chars_eq(&e, &str_chars("png")) || chars_eq(&e, &str_chars("jpg")) || chars_eq(
        &e,
        &str_chars("jpeg"),
    ) || chars_eq(&e, &str_chars("webp")) {
        DocumentKind::Image
    } else {
        DocumentKind::Unsupported
    }
}

/// What is done with a file of a given kind: a PDF is read with the PDF
/// reader, a DOCX as an archive, and the other kinds are refused with their
/// error before anything is read.
pub enum ExtractionRoute {
    ReadPdf,
    ReadDocx,
    Refused(ExtractError),
}

pub enum ExtractionRouteV {
    ReadPdf,
    ReadDocx,
    Refused(ExtractErrorV),
}

impl View for ExtractionRoute {
    type V = ExtractionRouteV;

    open spec fn view(&self) -> ExtractionRouteV {
        match self {
            ExtractionRoute::ReadPdf => ExtractionRouteV::ReadPdf,
            ExtractionRoute::ReadDocx => ExtractionRouteV::ReadDocx,
            ExtractionRoute::Refused(e) => ExtractionRouteV::Refused(e@),
        }
    }
}

/// The route for a file with extension `ext`: legacy Word, images and other
/// kinds are refused.
pub open spec fn route_of(ext: Seq<char>) -> ExtractionRouteV {
    match document_kind_of(ext) {
        DocumentKind::Pdf => ExtractionRouteV::ReadPdf,
        DocumentKind::Docx => ExtractionRouteV::ReadDocx,
        DocumentKind::LegacyDoc => ExtractionRouteV::Refused(ExtractErrorV::LegacyDoc),
        DocumentKind::Image => ExtractionRouteV::Refused(ExtractErrorV::ImageNotSupported),
        DocumentKind::Unsupported => ExtractionRouteV::Refused(ExtractErrorV::Unsupported),
    }
}

/// How the text of a resume file with extension `ext` is obtained, as
/// `route_of` states it.
pub fn extraction_route(ext: &str) -> (r: ExtractionRoute)
    ensures
        r@ == route_of(ext@),
{
    match document_kind(ext) {
        DocumentKind::Pdf => ExtractionRoute::ReadPdf,
        DocumentKind::Docx => ExtractionRoute::ReadDocx,
        DocumentKind::LegacyDoc => ExtractionRoute::Refused(ExtractError::LegacyDoc),
        DocumentKind::Image => ExtractionRoute::Refused(ExtractError::ImageNotSupported),
        DocumentKind::Unsupported => ExtractionRoute::Refused(ExtractError::Unsupported),
    }
}

/// Extracted text never starts or ends with white space: trimming it again
/// changes nothing.
pub proof fn law_cleaned_text_is_trimmed(s: Seq<char>)
    ensures
        trim(cleaned_text(s)) == cleaned_text(s),
{
    let t = replace_all(replace_all(s, seq!['\r', '\n'], seq!['\n']), seq!['\u{A0}'], seq![' ']);
    lemma_trim_idempotent(join_with(lines_of(t).map_values(|l: Seq<char>| trim_end(l)), seq!['\n']));
}

} // verus!

use dscvr::errors::FileError;
use dscvr::pipeline::{finish_prepare_pdf, Ingestor, Preparation};
use dscvr::scanned_file::ScannedFile;
use dscvr::service::FileIndexService;

/// Assembles a small but well-formed PDF whose single page draws `text`
/// in a standard font, with a correct cross-reference table.
fn minimal_pdf(text: &str) -> Vec<u8> {
    let stream_body = format!("BT /F1 24 Tf 72 720 Td ({}) Tj ET", text);
    let objects = vec![
        "<< /Type /Catalog /Pages 2 0 R >>".to_string(),
        "<< /Type /Pages /Kids [3 0 R] /Count 1 >>".to_string(),
        "<< /Type /Page /Parent 2 0 R /MediaBox [0 0 612 792] /Resources << /Font << /F1 5 0 R >> >> /Contents 4 0 R >>"
            .to_string(),
        format!(
            "<< /Length {} >>\nstream\n{}\nendstream",
            stream_body.len(),
            stream_body
        ),
        "<< /Type /Font /Subtype /Type1 /BaseFont /Helvetica >>".to_string(),
    ];
    let mut out = String::new();
    out.push_str("%PDF-1.4\n");
    let mut offsets = Vec::new();
    for (i, body) in objects.iter().enumerate() {
        offsets.push(out.len());
        out.push_str(&format!("{} 0 obj\n{}\nendobj\n", i + 1, body));
    }
    let xref_at = out.len();
    out.push_str(&format!("xref\n0 {}\n", objects.len() + 1));
    out.push_str("0000000000 65535 f \n");
    for offset in &offsets {
        out.push_str(&format!("{:010} 00000 n \n", offset));
    }
    out.push_str(&format!(
        "trailer\n<< /Size {} /Root 1 0 R >>\nstartxref\n{}\n%%EOF\n",
        objects.len() + 1,
        xref_at
    ));
    out.into_bytes()
}

#[test]
fn test_pdf_contents_are_indexed_and_searchable() {
    let mut service = FileIndexService::new(Ingestor::open_in_memory().unwrap());
    let pdf = minimal_pdf("searchable sonnet");
    let file = ScannedFile { path: "/library/poem.pdf".to_string() };
    let prepared = match service.ingestor.begin_prepare(&file, &pdf) {
        Preparation::NeedsPdfText(pending) => {
            let extracted =
                pdf_extract::extract_text_from_mem(&pdf).map_err(|_| FileError::Extraction);
            finish_prepare_pdf(pending, extracted)
        }
        Preparation::Done(_) => panic!("a pdf must come back pending"),
    };
    assert!(service.index_file(vec![prepared]).unwrap().is_empty());
    assert_eq!(
        service.search_file_by_contents(&"sonnet".to_string()),
        vec!["/library/poem.pdf".to_string()]
    );
}

//! Artifact assembly: rendering a listing document into a paginated
//! artifact and merging staged artifacts, strictly in the given order,
//! into one combined artifact.
//!
//! The typesetting engine — printpdf — does the pagination behind
//! trusted wrappers; the merge itself is verified to append artifacts
//! exactly in the order it was given, which together with the merge
//! plan of [`crate::pipeline`] yields the end-to-end ordering guarantee.

use vstd::prelude::*;

verus! {

#[verifier::external_type_specification]
#[verifier::external_body]
pub struct ExPdfDocument(printpdf::PdfDocument);

#[verifier::external_type_specification]
#[verifier::external_body]
pub struct ExGeneratePdfOptions(printpdf::GeneratePdfOptions);

#[verifier::external_type_specification]
#[verifier::external_body]
pub struct ExSharedFontPool(printpdf::html::SharedFontPool);

/// A render that the typesetting engine rejected.
#[derive(Debug)]
pub struct RenderError {
    /// What the engine reported.
    pub detail: String,
}

/// A merge step that failed: a staged artifact could not be read back.
#[derive(Debug)]
pub struct MergeError {
    /// What the engine reported.
    pub detail: String,
}

/// Relies on printpdf's `from_html_with_cache`: renders markup into a
/// paginated document using the shared font pool, or reports why the
/// engine refused it.
#[verifier::external_body]
fn html_to_pdf(
    html: &str,
    fonts: &Vec<(String, Vec<u8>)>,
    options: &printpdf::GeneratePdfOptions,
    pool: &printpdf::html::SharedFontPool,
) -> (r: Result<printpdf::PdfDocument, String>) {
    let font_map: std::collections::BTreeMap<String, printpdf::Base64OrRaw> =
        fonts.iter().map(|(k, v)| (k.clone(), printpdf::Base64OrRaw::Raw(v.clone()))).collect();
    let mut warnings = Vec::new();
    printpdf::PdfDocument::from_html_with_cache(
        html, &std::collections::BTreeMap::new(), &font_map, options,
        &mut warnings, Some(pool.clone()),
    )
}

/// Relies on printpdf's `save`: serializes a document to bytes.
#[verifier::external_body]
fn pdf_to_bytes(doc: &printpdf::PdfDocument) -> (r: Vec<u8>) {
    doc.save(&printpdf::PdfSaveOptions::default(), &mut Vec::new())
}

/// Relies on printpdf's `parse`: reads a document back from bytes, or
/// reports why the bytes do not parse.
#[verifier::external_body]
fn pdf_from_bytes(bytes: &Vec<u8>) -> (r: Result<printpdf::PdfDocument, String>) {
    printpdf::PdfDocument::parse(bytes, &printpdf::PdfParseOptions::default(), &mut Vec::new())
}

/// Relies on printpdf's `append_document`: moves the other document's
/// pages onto the end of the first.
#[verifier::external_body]
fn pdf_append(into: &mut printpdf::PdfDocument, other: printpdf::PdfDocument) {
    into.append_document(other);
}

/// Relies on printpdf's `page_count`: how many pages the document holds.
#[verifier::external_body]
fn pdf_page_count(doc: &printpdf::PdfDocument) -> (r: usize) {
    doc.page_count()
}

/// Renders one already-built listing document into artifact bytes; a
/// failure is recoverable for the run — the caller logs it and goes on
/// with the remaining files.
pub fn render_artifact(
    html: &str,
    fonts: &Vec<(String, Vec<u8>)>,
    options: &printpdf::GeneratePdfOptions,
    pool: &printpdf::html::SharedFontPool,
) -> (r: Result<Vec<u8>, RenderError>) {
    match html_to_pdf(html, fonts, options, pool) {
        Ok(doc) => Ok(pdf_to_bytes(&doc)),
        Err(detail) => Err(RenderError { detail }),
    }
}

/// The single combined artifact under construction.  Exactly one merger
/// exists per module and it is the only mutator of the combined
/// document; the ghost history pins down which artifacts were appended
/// and in which order.
pub struct Merger {
    doc: printpdf::PdfDocument,
    appended: Ghost<Seq<Seq<u8>>>,
}

impl Merger {
    /// The artifacts appended so far, in order.
    pub closed spec fn appended(self) -> Seq<Seq<u8>> {
        self.appended@
    }

    /// Starts the combined artifact with the rendered cover page.
    pub fn start(
        title_html: &str,
        fonts: &Vec<(String, Vec<u8>)>,
        options: &printpdf::GeneratePdfOptions,
        pool: &printpdf::html::SharedFontPool,
    ) -> (r: Result<Merger, MergeError>)
        ensures
            r matches Ok(m) ==> m.appended() == Seq::<Seq<u8>>::empty(),
    {
        match html_to_pdf(title_html, fonts, options, pool) {
            Ok(doc) => Ok(Merger { doc, appended: Ghost(Seq::<Seq<u8>>::empty()) }),
            Err(detail) => Err(MergeError { detail }),
        }
    }

    /// Appends one staged artifact's pages onto the combined artifact.
    /// Failure to read the artifact back is fatal for the module's
    /// assembly and leaves the combined artifact as it was.
    pub fn append_artifact(&mut self, bytes: &Vec<u8>) -> (r: Result<(), MergeError>)
        ensures
            r is Ok ==> final(self).appended() == old(self).appended().push(bytes@),
            r is Err ==> final(self).appended() == old(self).appended(),
    {
        match pdf_from_bytes(bytes) {
            Ok(other) => {
                pdf_append(&mut self.doc, other);
                self.appended = Ghost(self.appended@.push(bytes@));
                Ok(())
            },
            Err(detail) => Err(MergeError { detail }),
        }
    }

    /// How many pages the combined artifact holds so far.
    pub fn page_count(&self) -> usize {
        pdf_page_count(&self.doc)
    }

    /// Serializes the combined artifact.
    pub fn finish(self) -> Vec<u8> {
        pdf_to_bytes(&self.doc)
    }
}

/// Assembles one module's combined artifact: the cover page first, then
/// every staged artifact's pages appended strictly in the order given —
/// the caller hands them in merge-plan order, never in completion
/// order.  Any failure here is fatal for this module and only for it.
pub fn assemble_document(
    title_html: &str,
    artifacts: &Vec<Vec<u8>>,
    fonts: &Vec<(String, Vec<u8>)>,
    options: &printpdf::GeneratePdfOptions,
    pool: &printpdf::html::SharedFontPool,
) -> (r: Result<Vec<u8>, MergeError>) {
    let mut merger = match Merger::start(title_html, fonts, options, pool) {
        Ok(m) => m,
        Err(e) => {
            return Err(e);
        },
    };
    let n = artifacts.len();
    let mut i: usize = 0;
    while i < n
        invariant
            n == artifacts@.len(),
            i <= n,
            merger.appended() == artifacts@.take(i as int).map_values(|b: Vec<u8>| b@),
        decreases n - i,
    {
        let ghost before = merger.appended();
        match merger.append_artifact(&artifacts[i]) {
            Ok(()) => {},
            Err(e) => {
                return Err(e);
            },
        }
        proof {
            assert(artifacts@.take(i + 1).map_values(|b: Vec<u8>| b@) =~= before.push(
                artifacts@[i as int]@,
            ));
        }
        i = i + 1;
    }
    Ok(merger.finish())
}

} // verus!

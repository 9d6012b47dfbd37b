//! Local documentation ingestion: file-kind detection by extension, text
//! decoding for markdown and text files, assembly of the persisted record
//! (PDF text arrives pre-extracted from the caller's PDF collaborator),
//! and the formatting of processed documents for the reasoning service.

use vstd::prelude::*;
use vstd::string::*;
use vstd::utf8::{encode_utf8, valid_utf8};

use crate::csharp::extension_of;
use crate::scan::{
    char_len, csq, dec_str_of, dec_string, file_name_of, last_segment, lower_seq, str_eq,
    to_lower_string,
};

verus! {

/// Supported documentation file kinds.
#[derive(Debug, Clone, Copy, PartialEq, Eq, Structural)]
pub enum DocFileType {
    Pdf,
    Markdown,
    Text,
}

/// The display tag of a file kind.
pub open spec fn type_tag(t: DocFileType) -> Seq<char> {
    match t {
        DocFileType::Pdf => csq("Pdf"),
        DocFileType::Markdown => csq("Markdown"),
        DocFileType::Text => csq("Text"),
    }
}

/// The display tag of a file kind, executable form.
pub fn file_type_tag(t: DocFileType) -> (r: &'static str)
    ensures
        r@ == type_tag(t),
{
    match t {
        DocFileType::Pdf => "Pdf",
        DocFileType::Markdown => "Markdown",
        DocFileType::Text => "Text",
    }
}

/// Mathematical model of a [`LocalDocMetadata`].
#[verifier::ext_equal]
pub struct DocModel {
    pub file_path: Seq<char>,
    pub file_type: DocFileType,
    pub last_modified: Seq<char>,
    pub processed_content: Seq<char>,
}

/// The persisted record of one ingested documentation file.
#[derive(Debug)]
pub struct LocalDocMetadata {
    pub file_path: String,
    pub file_type: DocFileType,
    pub last_modified: String,
    pub processed_content: String,
}

impl View for LocalDocMetadata {
    type V = DocModel;

    open spec fn view(&self) -> DocModel {
        DocModel {
            file_path: self.file_path@,
            file_type: self.file_type,
            last_modified: self.last_modified@,
            processed_content: self.processed_content@,
        }
    }
}

/// The view of a document list.
pub open spec fn docs_view(v: Seq<LocalDocMetadata>) -> Seq<DocModel> {
    v.map_values(|d: LocalDocMetadata| d@)
}

/// The file kind a path's extension names, or the error telling why none
/// does.
pub open spec fn detect_spec(path: Seq<char>) -> Result<DocFileType, Seq<char>> {
    match extension_of(path) {
        Some(e) => {
            let l = lower_seq(e);
            if l == csq("pdf") {
                Ok(DocFileType::Pdf)
            } else if l == csq("md") || l == csq("markdown") {
                Ok(DocFileType::Markdown)
            } else if l == csq("txt") || l == csq("text") {
                Ok(DocFileType::Text)
            } else {
                Err(csq("Unsupported file type: ") + e)
            }
        },
        None => Err(csq("No file extension found")),
    }
}

/// What the caller hands in for one documentation file. PDF reading is a
/// collaborator's work — its library can reject or even abort on exotic
/// documents — so for a PDF the caller performs that call and hands in
/// what it returned; for markdown and text files the raw bytes are decoded
/// here.
pub enum DocContent {
    /// The raw bytes of a markdown or text file.
    Raw(Vec<u8>),
    /// What the PDF collaborator returned for the file's bytes: the
    /// extracted page text, or its error.
    PdfText(Result<String, String>),
}

/// The local documentation processor.
pub struct LocalDocsProcessor {
}

impl LocalDocsProcessor {
    /// The file kind named by the path's extension, case-insensitively;
    /// an unsupported or missing extension is rejected with a message.
    pub fn detect_file_type(file_path: &str) -> (r: Result<DocFileType, String>)
        ensures
            match r {
                Ok(t) => detect_spec(file_path@) == Ok::<DocFileType, Seq<char>>(t),
                Err(m) => detect_spec(file_path@) == Err::<DocFileType, Seq<char>>(m@),
            },
    {
        match crate::csharp::path_extension(file_path) {
            Some(e) => {
                let l = to_lower_string(e.as_str());
                let ls = l.as_str();
                if str_eq(ls, "pdf") {
                    Ok(DocFileType::Pdf)
                } else if str_eq(ls, "md") || str_eq(ls, "markdown") {
                    Ok(DocFileType::Markdown)
                } else if str_eq(ls, "txt") || str_eq(ls, "text") {
                    Ok(DocFileType::Text)
                } else {
                    let mut m = String::from_str("Unsupported file type: ");
                    m.append(e.as_str());
                    Err(m)
                }
            },
            None => Err(String::from_str("No file extension found")),
        }
    }

    /// Relies on `String::from_utf8`: decodes exactly the given bytes, and
    /// succeeds exactly on valid UTF-8.
    #[verifier::external_body]
    fn decode_utf8(bytes: Vec<u8>) -> (r: Result<String, String>)
        ensures
            r matches Ok(s) ==> encode_utf8(s@) == bytes@,
            (r is Ok) == valid_utf8(bytes@),
    {
        match String::from_utf8(bytes) {
            Ok(s) => Ok(s),
            Err(e) => Err(format!("{}", e)),
        }
    }

    /// Read a markdown file's bytes as text.
    pub fn read_markdown(bytes: Vec<u8>) -> (r: Result<String, String>)
        ensures
            r matches Ok(s) ==> encode_utf8(s@) == bytes@,
            (r is Ok) == valid_utf8(bytes@),
    {
        Self::decode_utf8(bytes)
    }

    /// Read a text file's bytes as text.
    pub fn read_text(bytes: Vec<u8>) -> (r: Result<String, String>)
        ensures
            r matches Ok(s) ==> encode_utf8(s@) == bytes@,
            (r is Ok) == valid_utf8(bytes@),
    {
        Self::decode_utf8(bytes)
    }

    /// Process one documentation file: detect its kind from the path, take
    /// its text, and assemble the persisted record. An unsupported
    /// extension is rejected with the detection error. A markdown or text
    /// file must come as raw bytes and succeeds exactly when they are
    /// valid UTF-8; a PDF must come as the text its collaborator extracted
    /// and succeeds exactly when that extraction did.
    pub fn process_file(file_path: &str, content: DocContent, last_modified: String) -> (r:
        Result<LocalDocMetadata, String>)
        ensures
            detect_spec(file_path@) is Err ==> (r matches Err(m) && detect_spec(file_path@)
                == Err::<DocFileType, Seq<char>>(m@)),
            r matches Ok(m) ==> {
                &&& detect_spec(file_path@) == Ok::<DocFileType, Seq<char>>(m.file_type)
                &&& m.file_path@ == file_path@
                &&& m.last_modified@ == last_modified@
                &&& (m.file_type == DocFileType::Pdf ==> (content matches DocContent::PdfText(
                    Ok(s),
                ) && m.processed_content@ == s@))
                &&& (m.file_type != DocFileType::Pdf ==> (content matches DocContent::Raw(b)
                    && encode_utf8(m.processed_content@) == b@))
            },
            (detect_spec(file_path@) matches Ok(t) && t == DocFileType::Pdf) ==> ((r is Ok)
                == content matches DocContent::PdfText(Ok(_))),
            (detect_spec(file_path@) matches Ok(t) && t != DocFileType::Pdf) ==> ((r is Ok)
                == (content matches DocContent::Raw(b) && valid_utf8(b@))),
    {
        let file_type = match Self::detect_file_type(file_path) {
            Ok(t) => t,
            Err(m) => {
                return Err(m);
            },
        };
        let processed_content = match file_type {
            DocFileType::Pdf => match content {
                DocContent::PdfText(Ok(t)) => t,
                DocContent::PdfText(Err(m)) => {
                    return Err(m);
                },
                DocContent::Raw(_) => {
                    return Err(
                        String::from_str("PDF text must be supplied by the PDF reader"),
                    );
                },
            },
            DocFileType::Markdown => match content {
                DocContent::Raw(b) => match Self::read_markdown(b) {
                    Ok(t) => t,
                    Err(m) => {
                        return Err(m);
                    },
                },
                DocContent::PdfText(_) => {
                    return Err(
                        String::from_str("raw bytes expected for a markdown or text file"),
                    );
                },
            },
            DocFileType::Text => match content {
                DocContent::Raw(b) => match Self::read_text(b) {
                    Ok(t) => t,
                    Err(m) => {
                        return Err(m);
                    },
                },
                DocContent::PdfText(_) => {
                    return Err(
                        String::from_str("raw bytes expected for a markdown or text file"),
                    );
                },
            },
        };
        Ok(
            LocalDocMetadata {
                file_path: String::from_str(file_path),
                file_type,
                last_modified,
                processed_content,
            },
        )
    }

    /// Format processed documents for the reasoning service: a heading,
    /// then one numbered section per document with its source, kind,
    /// modification time and content.
    #[verifier::rlimit(60)]
    pub fn format_for_llm(docs: &Vec<LocalDocMetadata>) -> (r: String)
        ensures
            r@ == formatted_docs(docs_view(docs@)),
    {
        let mut out = String::from_str("# Local Technical Documentation\n\n");
        let mut i: usize = 0;
        while i < docs.len()
            invariant
                0 <= i <= docs@.len(),
                out@ == csq("# Local Technical Documentation\n\n") + partial_sections(
                    docs_view(docs@),
                    i as int,
                ),
            decreases docs@.len() - i,
        {
            let ghost dv = docs_view(docs@);
            let d = &docs[i];
            out.append("\n---\n\n## Document ");
            let num = dec_string(i + 1);
            out.append(num.as_str());
            out.append(" - ");
            let fname = file_name_of(d.file_path.as_str());
            out.append(fname.as_str());
            out.append("\n\n**Source:** ");
            out.append(d.file_path.as_str());
            out.append("\n**Type:** ");
            out.append(file_type_tag(d.file_type));
            out.append("\n**Last Modified:** ");
            out.append(d.last_modified.as_str());
            out.append("\n\n**Content:**\n\n");
            out.append(d.processed_content.as_str());
            out.append("\n\n");
            proof {
                assert(dv[i as int] == docs@[i as int]@);
                assert(out@ =~= csq("# Local Technical Documentation\n\n") + (partial_sections(
                    dv,
                    i as int,
                ) + doc_section(dv[i as int], i as int)));
                assert(partial_sections(dv, i + 1) == partial_sections(dv, i as int)
                    + doc_section(dv[i as int], i as int));
            }
            i = i + 1;
        }
        proof {
            lemma_sections_all(docs_view(docs@));
        }
        out
    }
}

/// One formatted document section, numbered from 1.
pub open spec fn doc_section(d: DocModel, idx: int) -> Seq<char> {
    csq("\n---\n\n## Document ") + dec_str_of(idx + 1) + csq(" - ") + last_segment(d.file_path)
        + csq("\n\n**Source:** ") + d.file_path + csq("\n**Type:** ") + type_tag(d.file_type)
        + csq("\n**Last Modified:** ") + d.last_modified + csq("\n\n**Content:**\n\n")
        + d.processed_content + csq("\n\n")
}

/// The sections of the first `i` documents.
pub open spec fn partial_sections(docs: Seq<DocModel>, i: int) -> Seq<char>
    decreases i,
{
    if i <= 0 || i > docs.len() {
        Seq::empty()
    } else {
        partial_sections(docs, i - 1) + doc_section(docs[i - 1], i - 1)
    }
}

/// The sections of the documents from `i` on.
pub open spec fn sections_from(docs: Seq<DocModel>, i: int) -> Seq<char>
    decreases docs.len() - i,
{
    if i < 0 || i >= docs.len() {
        Seq::empty()
    } else {
        doc_section(docs[i], i) + sections_from(docs, i + 1)
    }
}

proof fn lemma_sections_eq(docs: Seq<DocModel>, i: int)
    requires
        0 <= i <= docs.len(),
    ensures
        partial_sections(docs, i) + sections_from(docs, i) == partial_sections(
            docs,
            docs.len() as int,
        ),
    decreases docs.len() - i,
{
    if i < docs.len() {
        lemma_sections_eq(docs, i + 1);
        assert(partial_sections(docs, i + 1) == partial_sections(docs, i) + doc_section(
            docs[i],
            i,
        ));
        assert(partial_sections(docs, i) + (doc_section(docs[i], i) + sections_from(
            docs,
            i + 1,
        )) =~= (partial_sections(docs, i) + doc_section(docs[i], i)) + sections_from(
            docs,
            i + 1,
        ));
    } else {
        assert(sections_from(docs, i) =~= Seq::<char>::empty());
        assert(partial_sections(docs, i) + Seq::<char>::empty() =~= partial_sections(docs, i));
    }
}

proof fn lemma_sections_all(docs: Seq<DocModel>)
    ensures
        partial_sections(docs, docs.len() as int) == sections_from(docs, 0),
{
    lemma_sections_eq(docs, 0);
    assert(partial_sections(docs, 0) + sections_from(docs, 0) =~= sections_from(docs, 0));
}

/// The full formatted text: the heading, then every section in order.
pub open spec fn formatted_docs(docs: Seq<DocModel>) -> Seq<char> {
    csq("# Local Technical Documentation\n\n") + sections_from(docs, 0)
}

} // verus!

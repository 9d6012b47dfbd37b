//! Knowledge synchronization: the decision whether external documentation
//! must be re-ingested, the plan of files to process, and the assembly of
//! the cached knowledge base into one text for the reasoning service.
//! Reading files, clocks and the persisted record is the caller's work;
//! every decision here is a function of the plain values handed in.

use vstd::prelude::*;
use vstd::string::*;

use crate::docs::{DocModel, LocalDocMetadata, docs_view, file_type_tag, type_tag};
use crate::scan::{csq, dec_str_of, dec_string};

verus! {

/// The timestamps of a documentation store are unix seconds.
/// What chrono renders a unix-seconds timestamp as, in UTC: a function of
/// the seconds value alone.
pub uninterp spec fn utc_display_of(secs: int) -> Seq<char>;

/// Relies on chrono's `DateTime::from_timestamp` and `format`: the
/// rendered UTC time depends on the seconds value alone; a value outside
/// chrono's range renders as the empty string.
#[verifier::external_body]
pub fn format_utc(secs: i64) -> (r: String)
    ensures
        r@ == utc_display_of(secs as int),
{
    match chrono::DateTime::from_timestamp(secs, 0) {
        Some(dt) => format!("{}", dt.format("%Y-%m-%d %H:%M:%S UTC")),
        None => String::new(),
    }
}

/// Where local documentation comes from and how it is watched.
pub struct LocalDocsConfig {
    pub enabled: bool,
    pub watch_for_changes: bool,
    pub cache_dir: Option<String>,
    pub pdf_paths: Vec<String>,
    pub markdown_paths: Vec<String>,
    pub text_paths: Vec<String>,
}

/// Mathematical model of a [`KnowledgeMetadata`].
#[verifier::ext_equal]
pub struct KnowledgeModel {
    pub last_synced: int,
    pub local_docs: Seq<DocModel>,
}

/// The persisted record of a completed sync: when it ran, and every
/// document it processed.
#[derive(Debug)]
pub struct KnowledgeMetadata {
    pub last_synced: i64,
    pub local_docs: Vec<LocalDocMetadata>,
}

impl View for KnowledgeMetadata {
    type V = KnowledgeModel;

    open spec fn view(&self) -> KnowledgeModel {
        KnowledgeModel {
            last_synced: self.last_synced as int,
            local_docs: docs_view(self.local_docs@),
        }
    }
}

/// Syncs external knowledge sources to the local cache.
pub struct KnowledgeSyncer {
    pub local_docs: Option<LocalDocsConfig>,
    pub language_label: String,
}

/// The staleness decision: sync when the integration is enabled and either
/// no readable record exists, or change-watching is on and some source
/// file was modified after the recorded sync time.
pub open spec fn should_sync_spec(
    enabled: Option<(bool, bool)>,
    metadata: Option<KnowledgeModel>,
    mtimes: Seq<Option<int>>,
) -> bool {
    match enabled {
        Some((en, watch)) => en && (match metadata {
            None => true,
            Some(m) => watch && exists|i: int|
                0 <= i < mtimes.len() && ((#[trigger] mtimes[i]) matches Some(t) && t
                    > m.last_synced),
        }),
        None => false,
    }
}

/// The unix-seconds view of optional modification times.
pub open spec fn mtimes_view(v: Seq<Option<i64>>) -> Seq<Option<int>> {
    v.map_values(
        |t: Option<i64>|
            match t {
                Some(v) => Some(v as int),
                None => None,
            },
    )
}

/// The flags of the configured integration, if one is configured.
pub open spec fn config_flags(s: KnowledgeSyncer) -> Option<(bool, bool)> {
    match s.local_docs {
        Some(cfg) => Some((cfg.enabled, cfg.watch_for_changes)),
        None => None,
    }
}

impl KnowledgeSyncer {
    /// A syncer over the given integration configuration, labelled with
    /// the display name of the target language. Construction never fails,
    /// and the syncer holds the given configuration unchanged.
    pub fn new(local_docs: Option<LocalDocsConfig>, language_label: String) -> (r: Result<
        KnowledgeSyncer,
        String,
    >)
        ensures
            r matches Ok(s) && s.local_docs == local_docs && s.language_label
                == language_label,
    {
        Ok(KnowledgeSyncer { local_docs, language_label })
    }

    /// Whether knowledge must be re-synced. `metadata` is the persisted
    /// record, absent when missing or unreadable; `doc_mtimes` holds, for
    /// each recorded document, the source file's modification time in unix
    /// seconds, absent when the file is gone or unreadable.
    pub fn should_sync(
        &self,
        metadata: Option<&KnowledgeMetadata>,
        doc_mtimes: &Vec<Option<i64>>,
    ) -> (r: bool)
        ensures
            r == should_sync_spec(
                config_flags(*self),
                match metadata {
                    Some(m) => Some(m@),
                    None => None,
                },
                mtimes_view(doc_mtimes@),
            ),
    {
        let cfg = match &self.local_docs {
            Some(cfg) => cfg,
            None => {
                return false;
            },
        };
        if !cfg.enabled {
            return false;
        }
        let m = match metadata {
            Some(m) => m,
            None => {
                return true;
            },
        };
        if !cfg.watch_for_changes {
            return false;
        }
        let ghost mts = mtimes_view(doc_mtimes@);
        let mut i: usize = 0;
        while i < doc_mtimes.len()
            invariant
                0 <= i <= doc_mtimes@.len(),
                mts == mtimes_view(doc_mtimes@),
                config_flags(*self) matches Some(fl) && fl.0 && fl.1,
                metadata matches Some(mm) && mm == m,
                forall|k: int|
                    0 <= k < i ==> !((#[trigger] mts[k]) matches Some(t) && t
                        > m@.last_synced),
            decreases doc_mtimes@.len() - i,
        {
            match doc_mtimes[i] {
                Some(t) => {
                    if t > m.last_synced {
                        proof {
                            assert(mts[i as int] matches Some(v) && v > m@.last_synced);
                        }
                        return true;
                    }
                },
                None => {},
            }
            proof {
                assert(!(mts[i as int] matches Some(t) && t > m@.last_synced));
            }
            i = i + 1;
        }
        false
    }

    /// The record a completed sync persists: the sync time and the
    /// processed documents.
    pub fn build_metadata(local_docs: Vec<LocalDocMetadata>, now: i64) -> (r: KnowledgeMetadata)
        ensures
            r@.last_synced == now as int,
            r@.local_docs == docs_view(local_docs@),
    {
        KnowledgeMetadata { last_synced: now, local_docs }
    }

    /// The files one sync pass processes, in order: the PDF paths, then
    /// the markdown paths, then the text paths; nothing when the
    /// integration is absent or disabled.
    pub fn sync_plan(&self) -> (r: Option<Vec<String>>)
        ensures
            match r {
                Some(paths) => (match config_flags(*self) {
                    Some((en, _)) => en,
                    None => false,
                }) && paths@.map_values(|p: String| p@) == (match self.local_docs {
                    Some(cfg) => cfg.pdf_paths@.map_values(|p: String| p@)
                        + cfg.markdown_paths@.map_values(|p: String| p@)
                        + cfg.text_paths@.map_values(|p: String| p@),
                    None => Seq::<Seq<char>>::empty(),
                }),
                None => (match config_flags(*self) {
                    Some((en, _)) => !en,
                    None => true,
                }),
            },
    {
        let cfg = match &self.local_docs {
            Some(cfg) => cfg,
            None => {
                return None;
            },
        };
        if !cfg.enabled {
            return None;
        }
        let mut paths: Vec<String> = Vec::new();
        append_paths(&cfg.pdf_paths, &mut paths);
        append_paths(&cfg.markdown_paths, &mut paths);
        append_paths(&cfg.text_paths, &mut paths);
        proof {
            assert(Seq::<Seq<char>>::empty() + cfg.pdf_paths@.map_values(|p: String| p@)
                =~= cfg.pdf_paths@.map_values(|p: String| p@));
        }
        Some(paths)
    }

    /// The cached knowledge base as one text: nothing when the
    /// integration is absent or disabled, when no record exists, or when
    /// the record holds no documents; otherwise the combined content of
    /// every recorded document under a language-labelled heading.
    pub fn load_cached_knowledge(&self, metadata: Option<&KnowledgeMetadata>) -> (r: Option<
        String,
    >)
        ensures
            match r {
                Some(text) => (match config_flags(*self) {
                    Some((en, _)) => en,
                    None => false,
                }) && (match metadata {
                    Some(m) => m@.local_docs.len() > 0 && text@ == combined_knowledge(
                        self.language_label@,
                        m@,
                    ),
                    None => false,
                }),
                None => (match config_flags(*self) {
                    Some((en, _)) => !en,
                    None => true,
                }) || (match metadata {
                    Some(m) => m@.local_docs.len() == 0,
                    None => true,
                }),
            },
    {
        let cfg = match &self.local_docs {
            Some(cfg) => cfg,
            None => {
                return None;
            },
        };
        if !cfg.enabled {
            return None;
        }
        let m = match metadata {
            Some(m) => m,
            None => {
                return None;
            },
        };
        if m.local_docs.len() == 0 {
            return None;
        }
        let mut out = String::from_str("# Local Documentation (");
        out.append(self.language_label.as_str());
        out.append(")\n\nLast processed: ");
        let stamp = format_utc(m.last_synced);
        out.append(stamp.as_str());
        out.append("\nTotal documents: ");
        let count = dec_string(m.local_docs.len());
        out.append(count.as_str());
        out.append("\n\n");
        let ghost head = combined_head(self.language_label@, m@);
        proof {
            assert(out@ =~= head + doc_blocks_partial(m@.local_docs, 0));
        }
        let mut i: usize = 0;
        while i < m.local_docs.len()
            invariant
                0 <= i <= m.local_docs@.len(),
                out@ == combined_head(self.language_label@, m@) + doc_blocks_partial(
                    m@.local_docs,
                    i as int,
                ),
                m@.local_docs == docs_view(m.local_docs@),
            decreases m.local_docs@.len() - i,
        {
            let ghost dv = m@.local_docs;
            let d = &m.local_docs[i];
            out.append("\n---\n\n# ");
            out.append(d.file_path.as_str());
            out.append("\n\nType: ");
            out.append(file_type_tag(d.file_type));
            out.append("\nLast Modified: ");
            out.append(d.last_modified.as_str());
            out.append("\n\n");
            out.append(d.processed_content.as_str());
            out.append("\n\n");
            proof {
                assert(dv[i as int] == m.local_docs@[i as int]@);
                assert(out@ =~= combined_head(self.language_label@, m@) + (doc_blocks_partial(
                    dv,
                    i as int,
                ) + doc_block(dv[i as int])));
                assert(doc_blocks_partial(dv, i + 1) == doc_blocks_partial(dv, i as int)
                    + doc_block(dv[i as int]));
            }
            i = i + 1;
        }
        proof {
            lemma_doc_blocks_all(m@.local_docs);
        }
        Some(out)
    }
}

fn append_paths(src: &Vec<String>, out: &mut Vec<String>)
    ensures
        final(out)@.map_values(|p: String| p@) == old(out)@.map_values(|p: String| p@)
            + src@.map_values(|p: String| p@),
{
    let ghost pre = out@.map_values(|p: String| p@);
    let mut i: usize = 0;
    while i < src.len()
        invariant
            0 <= i <= src@.len(),
            out@.map_values(|p: String| p@) =~= pre + src@.map_values(|p: String| p@).subrange(
                0,
                i as int,
            ),
        decreases src@.len() - i,
    {
        let ghost cur = out@.map_values(|p: String| p@);
        out.push(String::from_str(src[i].as_str()));
        proof {
            assert(out@.map_values(|p: String| p@) =~= cur.push(src@[i as int]@));
            assert(src@.map_values(|p: String| p@)[i as int] == src@[i as int]@);
            assert(out@.map_values(|p: String| p@) =~= pre + src@.map_values(
                |p: String| p@,
            ).subrange(0, i + 1));
        }
        i = i + 1;
    }
    proof {
        assert(src@.map_values(|p: String| p@).subrange(
            0,
            src@.map_values(|p: String| p@).len() as int,
        ) =~= src@.map_values(|p: String| p@));
    }
}

/// The heading of the combined knowledge text.
pub open spec fn combined_head(label: Seq<char>, m: KnowledgeModel) -> Seq<char> {
    csq("# Local Documentation (") + label + csq(")\n\nLast processed: ") + utc_display_of(
        m.last_synced,
    ) + csq("\nTotal documents: ") + dec_str_of(m.local_docs.len() as int) + csq("\n\n")
}

/// One document's block in the combined knowledge text.
pub open spec fn doc_block(d: DocModel) -> Seq<char> {
    csq("\n---\n\n# ") + d.file_path + csq("\n\nType: ") + type_tag(d.file_type) + csq(
        "\nLast Modified: ",
    ) + d.last_modified + csq("\n\n") + d.processed_content + csq("\n\n")
}

/// The blocks of the first `i` documents.
pub open spec fn doc_blocks_partial(docs: Seq<DocModel>, i: int) -> Seq<char>
    decreases i,
{
    if i <= 0 || i > docs.len() {
        Seq::empty()
    } else {
        doc_blocks_partial(docs, i - 1) + doc_block(docs[i - 1])
    }
}

/// The blocks of the documents from `i` on.
pub open spec fn doc_blocks_from(docs: Seq<DocModel>, i: int) -> Seq<char>
    decreases docs.len() - i,
{
    if i < 0 || i >= docs.len() {
        Seq::empty()
    } else {
        doc_block(docs[i]) + doc_blocks_from(docs, i + 1)
    }
}

proof fn lemma_doc_blocks_eq(docs: Seq<DocModel>, i: int)
    requires
        0 <= i <= docs.len(),
    ensures
        doc_blocks_partial(docs, i) + doc_blocks_from(docs, i) == doc_blocks_partial(
            docs,
            docs.len() as int,
        ),
    decreases docs.len() - i,
{
    if i < docs.len() {
        lemma_doc_blocks_eq(docs, i + 1);
        assert(doc_blocks_partial(docs, i + 1) == doc_blocks_partial(docs, i) + doc_block(
            docs[i],
        ));
        assert(doc_blocks_partial(docs, i) + (doc_block(docs[i]) + doc_blocks_from(
            docs,
            i + 1,
        )) =~= (doc_blocks_partial(docs, i) + doc_block(docs[i])) + doc_blocks_from(
            docs,
            i + 1,
        ));
    } else {
        assert(doc_blocks_from(docs, i) =~= Seq::<char>::empty());
        assert(doc_blocks_partial(docs, i) + Seq::<char>::empty() =~= doc_blocks_partial(
            docs,
            i,
        ));
    }
}

proof fn lemma_doc_blocks_all(docs: Seq<DocModel>)
    ensures
        doc_blocks_partial(docs, docs.len() as int) == doc_blocks_from(docs, 0),
{
    lemma_doc_blocks_eq(docs, 0);
    assert(doc_blocks_partial(docs, 0) + doc_blocks_from(docs, 0) =~= doc_blocks_from(docs, 0));
}

/// The combined knowledge text: the labelled heading, then one block per
/// recorded document.
pub open spec fn combined_knowledge(label: Seq<char>, m: KnowledgeModel) -> Seq<char> {
    combined_head(label, m) + doc_blocks_from(m.local_docs, 0)
}

} // verus!

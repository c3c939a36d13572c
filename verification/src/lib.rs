//! Verified core of a source-tree indexer.
//!
//! The library holds the decision logic of the indexer: which syntax-tree
//! nodes become indexed entities and in what order, how a local directory is
//! diffed against the remote index, which remote records a cascading delete
//! must remove, how entity text is chunked for embedding, and when an
//! ingestion pass is finished. Network and file I/O live outside the library
//! and hand it plain values.

pub mod chunker;
pub mod command;
pub mod deletion;
pub mod extract;
pub mod lang;
pub mod limiter;
pub mod pipeline;
pub mod policy;
pub mod progress;
pub mod staleness;
pub mod update;
pub mod walker;

pub use chunker::MAX_CHUNK_CHARS;
pub use chunker::chunk_entity;
pub use chunker::chunks_of;

pub use command::Command;
pub use command::parse_command;

pub use deletion::DeleteCall;
pub use deletion::DeleteCallView;
pub use deletion::EntityTreeView;
pub use deletion::FileTreeView;
pub use deletion::FolderTreeView;
pub use deletion::RemoteEntityTree;
pub use deletion::RemoteFileTree;
pub use deletion::RemoteFolderTree;
pub use deletion::delete_entities;
pub use deletion::delete_files;
pub use deletion::delete_folder;

pub use extract::CodeEntity;
pub use extract::EntityView;
pub use extract::NodeView;
pub use extract::SyntaxNode;
pub use extract::entities_view;
pub use extract::entity_view;
pub use extract::extract_entities;
pub use extract::ingest_entities;
pub use extract::node_view;
pub use extract::nodes_view;
pub use extract::spec_extract;

pub use lang::LanguageKind;
pub use lang::get_language;
pub use lang::spec_language_for;

pub use limiter::BucketView;
pub use limiter::MS_PER_MINUTE;
pub use limiter::TokenBucket;

pub use pipeline::EmbeddingJob;
pub use pipeline::JobQueue;
pub use pipeline::SubmitOutcome;
pub use pipeline::VectorStore;
pub use pipeline::embeddable_text;
pub use pipeline::jobs_for_entity;
pub use pipeline::spec_get_vector;
pub use pipeline::submit_job;

pub use policy::PolicyEntry;
pub use policy::RetentionPolicy;
pub use policy::normalize_extension;
pub use policy::spec_kinds_retain;
pub use policy::spec_normalize_extension;
pub use policy::spec_policy_kinds;
pub use policy::spec_retains;

pub use progress::ProgressCounters;

pub use staleness::file_current;
pub use staleness::is_stale;
pub use staleness::needs_reextract;
pub use staleness::rfc3339_epoch_seconds;
pub use staleness::spec_file_current;
pub use staleness::spec_is_stale;
pub use staleness::spec_needs_reextract;

pub use update::ActionView;
pub use update::EntryAction;
pub use update::LocalEntry;
pub use update::RemoteFileEntry;
pub use update::RemoteFolderEntry;
pub use update::UpdateError;
pub use update::UpdatePlan;
pub use update::update;
pub use update::update_folder;

pub use walker::PopulateAction;
pub use walker::PopulateActionView;
pub use walker::populate;

use vstd::prelude::*;

verus! {

/// Dimension of the vectors produced by the embedding model.
pub const EMBEDDING_DIM: usize = 384;
/// Number of passages embedded per model call.
pub const FASTEMBED_BATCH_SIZE: usize = 32;

/// Longest accepted memory name, in bytes.
pub const MAX_MEMORY_NAME_LEN: usize = 80;
/// Longest accepted memory description, in bytes.
pub const MAX_MEMORY_DESCRIPTION_LEN: usize = 500;
/// Longest accepted memory body, in bytes.
pub const MAX_MEMORY_BODY_LEN: usize = 20_000;
/// Body length from which a body is embedded chunk by chunk.
pub const MAX_BODY_CHARS_BEFORE_CHUNK: usize = 8_000;

/// Retries on a busy database.
pub const MAX_SQLITE_BUSY_RETRIES: u32 = 5;
/// Timeout of a single query, in milliseconds.
pub const QUERY_TIMEOUT_MILLIS: u64 = 5_000;

/// Number of hops the entity graph is walked by default.
pub const MAX_GRAPH_HOPS: u32 = 2;

/// Memories returned by a search by default.
pub const K_MEMORIES_DEFAULT: usize = 10;
/// Entities returned by an entity search.
pub const K_ENTITIES_SEARCH: usize = 5;
/// Entities that one memory may carry.
pub const MAX_ENTITIES_PER_MEMORY: usize = 30;
/// Relationships that one memory may carry.
pub const MAX_RELATIONSHIPS_PER_MEMORY: usize = 50;

/// SQLite busy timeout, in milliseconds.
pub const BUSY_TIMEOUT_MILLIS: i32 = 5_000;
/// SQLite page cache size (negative: kibibytes).
pub const CACHE_SIZE_KB: i32 = -64_000;
/// SQLite memory-map size, in bytes.
pub const MMAP_SIZE_BYTES: i64 = 268_435_456;
/// Pages after which the write-ahead log is checkpointed.
pub const WAL_AUTOCHECKPOINT_PAGES: i32 = 1_000;

/// Rank constant of reciprocal rank fusion.
pub const RRF_K_DEFAULT: u32 = 60;
/// Size of one chunk, in model tokens.
pub const CHUNK_SIZE_TOKENS: usize = 400;
/// Overlap between consecutive chunks, in model tokens.
pub const CHUNK_OVERLAP_TOKENS: usize = 50;
/// How long a daemon ping waits, in milliseconds.
pub const DAEMON_PING_TIMEOUT_MS: u64 = 10;
/// Idle time after which a daemon shuts down, in seconds.
pub const DAEMON_IDLE_SHUTDOWN_SECS: u64 = 600;

/// Prefix put before a text embedded as a passage.
pub const PASSAGE_PREFIX: &'static str = "passage: ";
/// Prefix put before a text embedded as a query.
pub const QUERY_PREFIX: &'static str = "query: ";
/// Name of the default embedding model.
pub const FASTEMBED_MODEL_DEFAULT: &'static str = "multilingual-e5-small";

/// Days after which soft-deleted memories are purged by default.
pub const PURGE_RETENTION_DAYS_DEFAULT: u32 = 90;
/// Namespaces that may hold live memories at once.
pub const MAX_NAMESPACES_ACTIVE: usize = 100;
/// Input limit of the embedding model, in tokens.
pub const EMBEDDING_MAX_TOKENS: usize = 512;
/// Graph matches returned by a recall at most.
pub const K_GRAPH_MATCHES_LIMIT: usize = 20;
/// Memories listed by default.
pub const K_LIST_DEFAULT_LIMIT: usize = 100;
/// Entities exported by the graph command by default.
pub const K_GRAPH_ENTITIES_DEFAULT_LIMIT: usize = 50;
/// Related memories returned by default.
pub const K_RELATED_DEFAULT_LIMIT: usize = 10;
/// Versions shown by the history command by default.
pub const K_HISTORY_DEFAULT_LIMIT: usize = 20;
/// Characters of a body shown in a text preview.
pub const TEXT_BODY_PREVIEW_LEN: usize = 200;
/// Exit code of a batch of which some items failed.
pub const BATCH_PARTIAL_FAILURE_EXIT_CODE: i32 = 13;
/// Exit code of a busy database.
pub const DB_BUSY_EXIT_CODE: i32 = 15;

/// Pattern that a memory name must match: one lowercase letter or digit,
/// or a lowercase letter followed by up to 78 lowercase letters, digits or
/// hyphens and a final lowercase letter or digit. `commands::rename`
/// states it as `is_name_slug`.
pub const NAME_SLUG_REGEX: &'static str = "^[a-z][a-z0-9-]{0,78}[a-z0-9]$|^[a-z0-9]$";

} // verus!

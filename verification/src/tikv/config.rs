//! The settings of the distributed backend, from the raw values of its environment
//! variables, and the schema check it makes when it starts.
//!
//! A variable that is unset or holds only white space counts as unset, so that a line
//! `X=` in a settings file falls back to the default rather than to an empty setting.
//! A value that does not parse falls back to the default too.

use vstd::prelude::*;
use vstd::string::{StrSliceExecFns, StringExecFns};

use super::keys::garbage;
use crate::models::{AppError, TableId, SCHEMA_VERSION};
use crate::text::{nonempty_pieces, parse_u64, parse_unsigned, parse_usize, pieces_from, trim, trimmed};

verus! {

/// The placement driver reached when none is configured.
pub const DEFAULT_PD_ENDPOINTS: &'static str = "127.0.0.1:2379";

/// The deadline of every store request. The client's own default of two seconds turns
/// requests that are merely slow on a busy node into failures, and retrying them adds
/// to the load; the locks the client takes live twenty seconds, so this stays near that.
pub const DEFAULT_REQUEST_TIMEOUT_SECS: u64 = 30;

/// The largest gRPC message accepted, well above what one batched request carries.
pub const DEFAULT_GRPC_MAX_DECODING_MESSAGE_SIZE: usize = 16777216;

/// Rows deleted per transaction when a retired table is swept.
pub const SWEEP_CHUNK: u32 = 1024;

/// Chunks one sweep spends on one table; the rest waits for the next sweep.
pub const MAX_CHUNKS_PER_TABLE: usize = 16;

pub const DEFAULT_SWEEP_INTERVAL_SECS: u64 = 60;

/// The pause between chunks: sweeping goes through the same path as user writes and
/// must not starve them.
pub const CHUNK_DELAY_MS: u64 = 200;

/// How long old versions are kept. It must outlast every running read.
pub const DEFAULT_MVCC_RETENTION_SECS: u64 = 600;

/// The shortest interval between two advances of the safepoint.
pub const MIN_MVCC_INTERVAL_SECS: u64 = 60;

pub const DEFAULT_SHARD_CACHE_MAX_BYTES: u64 = 268435456;

pub const DEFAULT_SHARD_CACHE_TTL_MS: u64 = 500;

/// The value of a variable, or `None` when it is unset or blank.
pub open spec fn spec_env_value(raw: Option<Seq<char>>) -> Option<Seq<char>> {
    match raw {
        Some(s) => if trimmed(s).len() > 0 {
            Some(s)
        } else {
            None
        },
        None => None,
    }
}

pub open spec fn opt_chars(raw: Option<&str>) -> Option<Seq<char>> {
    match raw {
        Some(s) => Some(s@),
        None => None,
    }
}

/// The value of a variable, or `None` when it is unset or holds only white space.
pub fn env_str(raw: Option<&str>) -> (r: Option<&str>)
    ensures
        opt_chars(r) == spec_env_value(opt_chars(raw)),
{
    match raw {
        Some(s) => {
            if trim(s).unicode_len() > 0 {
                Some(s)
            } else {
                None
            }
        },
        None => None,
    }
}

/// A number setting: the value, trimmed and parsed, or `default` when it is unset,
/// blank or not a number.
pub open spec fn spec_env_parsed(raw: Option<Seq<char>>, default: nat, max: nat) -> nat {
    match raw {
        Some(s) => match parse_unsigned(trimmed(s), max) {
            Some(v) => v,
            None => default,
        },
        None => default,
    }
}

/// A number setting: the value, trimmed and parsed, or `default` when it is unset,
/// blank or not a number.
pub fn env_parsed(raw: Option<&str>, default: u64) -> (v: u64)
    ensures
        v == spec_env_parsed(opt_chars(raw), default as nat, u64::MAX as nat),
{
    match raw {
        Some(s) => match parse_u64(trim(s)) {
            Some(v) => v,
            None => default,
        },
        None => default,
    }
}

/// A size setting: as [`env_parsed`], for a value that must fit in `usize`.
pub fn env_parsed_usize(raw: Option<&str>, default: usize) -> (v: usize)
    ensures
        v == spec_env_parsed(opt_chars(raw), default as nat, usize::MAX as nat),
{
    match raw {
        Some(s) => match parse_usize(trim(s)) {
            Some(v) => v,
            None => default,
        },
        None => default,
    }
}

/// The request deadline in seconds. `0` is a mistake rather than "never wait", so it
/// falls back to the default.
pub fn request_timeout_from_env(raw: Option<&str>) -> (secs: u64)
    ensures
        secs == if spec_env_parsed(opt_chars(raw), DEFAULT_REQUEST_TIMEOUT_SECS as nat, u64::MAX as nat) == 0 {
            DEFAULT_REQUEST_TIMEOUT_SECS as nat
        } else {
            spec_env_parsed(opt_chars(raw), DEFAULT_REQUEST_TIMEOUT_SECS as nat, u64::MAX as nat)
        },
{
    match env_parsed(raw, DEFAULT_REQUEST_TIMEOUT_SECS) {
        0 => DEFAULT_REQUEST_TIMEOUT_SECS,
        secs => secs,
    }
}

/// How the sweeper of retired tables and the collector of old versions run.
pub struct GcConfig {
    /// How long old versions are kept; zero turns their collection off.
    pub mvcc_retention_secs: u64,
    /// The interval between sweeps; zero turns sweeping off.
    pub interval_secs: u64,
    /// Chunks one sweep spends on one table.
    pub max_chunks_per_table: usize,
    /// The pause between chunks, in milliseconds.
    pub chunk_delay_ms: u64,
}

impl GcConfig {
    /// The settings from the raw values of the retention and interval variables.
    pub fn from_env(retention_raw: Option<&str>, interval_raw: Option<&str>) -> (c: GcConfig)
        ensures
            c.mvcc_retention_secs == spec_env_parsed(
                opt_chars(retention_raw),
                DEFAULT_MVCC_RETENTION_SECS as nat,
                u64::MAX as nat,
            ),
            c.interval_secs == spec_env_parsed(
                opt_chars(interval_raw),
                DEFAULT_SWEEP_INTERVAL_SECS as nat,
                u64::MAX as nat,
            ),
            c.max_chunks_per_table == MAX_CHUNKS_PER_TABLE,
            c.chunk_delay_ms == CHUNK_DELAY_MS,
    {
        GcConfig {
            mvcc_retention_secs: env_parsed(retention_raw, DEFAULT_MVCC_RETENTION_SECS),
            interval_secs: env_parsed(interval_raw, DEFAULT_SWEEP_INTERVAL_SECS),
            max_chunks_per_table: MAX_CHUNKS_PER_TABLE,
            chunk_delay_ms: CHUNK_DELAY_MS,
        }
    }

    /// For tests: sweep at once and without pauses, and collect no old versions.
    pub fn eager() -> (c: GcConfig)
        ensures
            c.mvcc_retention_secs == 0,
            c.interval_secs == DEFAULT_SWEEP_INTERVAL_SECS,
            c.max_chunks_per_table == 64,
            c.chunk_delay_ms == 0,
    {
        GcConfig {
            mvcc_retention_secs: 0,
            interval_secs: DEFAULT_SWEEP_INTERVAL_SECS,
            max_chunks_per_table: 64,
            chunk_delay_ms: 0,
        }
    }

    /// The interval between two advances of the safepoint, in milliseconds: half the
    /// retention, but never under a minute.
    pub fn mvcc_interval_ms(&self) -> (ms: u128)
        ensures
            ms == if self.mvcc_retention_secs * 500 < MIN_MVCC_INTERVAL_SECS * 1000 {
                MIN_MVCC_INTERVAL_SECS * 1000
            } else {
                self.mvcc_retention_secs * 500
            },
    {
        let half = (self.mvcc_retention_secs as u128) * 500;
        let floor = (MIN_MVCC_INTERVAL_SECS as u128) * 1000;
        if half < floor {
            floor
        } else {
            half
        }
    }
}

/// The row that queues a retired table for sweeping: its key, and a value that only
/// marks presence.
pub fn retire(table_id: TableId) -> (row: (Vec<u8>, Vec<u8>))
    ensures
        row.0@ == seq![super::keys::Ns::Garbage.spec_tag()] + table_id@,
        row.1@ == seq![0x31u8],
{
    let mut queued: Vec<u8> = Vec::new();
    queued.push(0x31u8);
    (garbage(table_id), queued)
}

/// The files of the client certificate, in one directory.
pub struct TikvSecurity {
    pub ca_path: String,
    pub cert_path: String,
    pub key_path: String,
}

/// `name` in the directory `dir`, as `Path::join` writes it on Unix for a relative
/// name: a separator goes between them unless `dir` is empty or already ends in one.
pub open spec fn spec_join(dir: Seq<char>, name: Seq<char>) -> Seq<char> {
    if dir.len() == 0 || dir.last() == '/' {
        dir + name
    } else {
        dir + seq!['/'] + name
    }
}

/// `name` in the directory `dir`.
pub fn join_path(dir: &str, name: &str) -> (p: String)
    ensures
        p@ == spec_join(dir@, name@),
{
    let n = dir.unicode_len();
    let mut p = String::from_str(dir);
    if n > 0 && dir.get_char(n - 1) != '/' {
        p.append("/");
        proof {
            reveal_strlit("/");
        }
    }
    p.append(name);
    p
}

impl TikvSecurity {
    /// The three files in `dir`.
    pub fn in_dir(dir: &str) -> (s: TikvSecurity)
        ensures
            s.ca_path@ == spec_join(dir@, "ca.crt"@),
            s.cert_path@ == spec_join(dir@, "client.crt"@),
            s.key_path@ == spec_join(dir@, "client.key"@),
    {
        TikvSecurity {
            ca_path: join_path(dir, "ca.crt"),
            cert_path: join_path(dir, "client.crt"),
            key_path: join_path(dir, "client.key"),
        }
    }

    /// TLS is used when the directory variable is set and all three files are there
    /// (`present` tells, in the order of [`TikvSecurity::in_dir`], which are).
    pub fn from_env(dir_raw: Option<&str>, present: [bool; 3]) -> (r: Option<TikvSecurity>)
        ensures
            r is Some <==> spec_env_value(opt_chars(dir_raw)) is Some && present[0] && present[1] && present[2],
            r matches Some(s) ==> {
                &&& s.ca_path@ == spec_join(dir_raw->0@, "ca.crt"@)
                &&& s.cert_path@ == spec_join(dir_raw->0@, "client.crt"@)
                &&& s.key_path@ == spec_join(dir_raw->0@, "client.key"@)
            },
    {
        match env_str(dir_raw) {
            Some(dir) => {
                if present[0] && present[1] && present[2] {
                    Some(TikvSecurity::in_dir(dir))
                } else {
                    None
                }
            },
            None => None,
        }
    }
}

/// How to reach the cluster.
pub struct TikvConfig {
    pub pd_endpoints: Vec<String>,
    pub security: Option<TikvSecurity>,
    pub request_timeout_secs: u64,
    pub grpc_max_decoding_message_size: usize,
}

/// The endpoints a comma-separated list names: its trimmed, non-empty pieces, or the
/// default endpoint when there are none.
pub open spec fn spec_endpoints(raw: Seq<char>) -> Seq<Seq<char>> {
    if pieces_from(raw, 0).len() == 0 {
        seq![DEFAULT_PD_ENDPOINTS@]
    } else {
        pieces_from(raw, 0)
    }
}

impl TikvConfig {
    /// The settings from a comma-separated list of endpoints and the other settings'
    /// raw values. White space around an endpoint is dropped, and an empty list
    /// reaches the default endpoint.
    pub fn from_endpoints(
        raw: &str,
        security: Option<TikvSecurity>,
        timeout_raw: Option<&str>,
        grpc_raw: Option<&str>,
    ) -> (c: TikvConfig)
        ensures
            c.pd_endpoints@.map_values(|p: String| p@) == spec_endpoints(raw@),
            c.security == security,
            c.request_timeout_secs == if spec_env_parsed(
                opt_chars(timeout_raw),
                DEFAULT_REQUEST_TIMEOUT_SECS as nat,
                u64::MAX as nat,
            ) == 0 {
                DEFAULT_REQUEST_TIMEOUT_SECS as nat
            } else {
                spec_env_parsed(opt_chars(timeout_raw), DEFAULT_REQUEST_TIMEOUT_SECS as nat, u64::MAX as nat)
            },
            c.grpc_max_decoding_message_size == spec_env_parsed(
                opt_chars(grpc_raw),
                DEFAULT_GRPC_MAX_DECODING_MESSAGE_SIZE as nat,
                usize::MAX as nat,
            ),
    {
        let mut pd_endpoints = nonempty_pieces(raw);
        if pd_endpoints.len() == 0 {
            pd_endpoints.push(String::from_str(DEFAULT_PD_ENDPOINTS));
            assert(pd_endpoints@.map_values(|p: String| p@) =~= seq![DEFAULT_PD_ENDPOINTS@]);
        }
        TikvConfig {
            pd_endpoints,
            security,
            request_timeout_secs: request_timeout_from_env(timeout_raw),
            grpc_max_decoding_message_size: env_parsed_usize(grpc_raw, DEFAULT_GRPC_MAX_DECODING_MESSAGE_SIZE),
        }
    }

    /// As [`TikvConfig::from_endpoints`], with the endpoints variable's raw value
    /// (unset reaches the default endpoint).
    pub fn from_env(
        endpoints_raw: Option<&str>,
        security: Option<TikvSecurity>,
        timeout_raw: Option<&str>,
        grpc_raw: Option<&str>,
    ) -> (c: TikvConfig)
        ensures
            c.pd_endpoints@.map_values(|p: String| p@) == spec_endpoints(
                match endpoints_raw {
                    Some(s) => s@,
                    None => Seq::empty(),
                },
            ),
            c.security == security,
    {
        match endpoints_raw {
            Some(raw) => TikvConfig::from_endpoints(raw, security, timeout_raw, grpc_raw),
            None => {
                proof {
                    reveal_strlit("");
                }
                TikvConfig::from_endpoints("", security, timeout_raw, grpc_raw)
            },
        }
    }
}

/// The size and freshness of the shared shard cache.
pub struct ShardCacheConfig {
    /// The total size of cached shards, in bytes; zero turns the cache off.
    pub max_bytes: u64,
    /// How stale a shard written by another instance may be read; zero turns the cache
    /// off.
    pub ttl_ms: u64,
}

impl ShardCacheConfig {
    pub fn from_env(max_bytes_raw: Option<&str>, ttl_raw: Option<&str>) -> (c: ShardCacheConfig)
        ensures
            c.max_bytes == spec_env_parsed(
                opt_chars(max_bytes_raw),
                DEFAULT_SHARD_CACHE_MAX_BYTES as nat,
                u64::MAX as nat,
            ),
            c.ttl_ms == spec_env_parsed(opt_chars(ttl_raw), DEFAULT_SHARD_CACHE_TTL_MS as nat, u64::MAX as nat),
    {
        ShardCacheConfig {
            max_bytes: env_parsed(max_bytes_raw, DEFAULT_SHARD_CACHE_MAX_BYTES),
            ttl_ms: env_parsed(ttl_raw, DEFAULT_SHARD_CACHE_TTL_MS),
        }
    }

    /// Whether the cache is used at all.
    pub fn is_enabled(&self) -> (b: bool)
        ensures
            b == (self.max_bytes != 0 && self.ttl_ms != 0),
    {
        self.max_bytes != 0 && self.ttl_ms != 0
    }
}

/// The error for a store whose format version is not the one this build reads.
pub fn mismatch(found: Option<u32>) -> (e: AppError)
    ensures
        e == mismatch_error(found),
{
    AppError::SchemaVersionMismatch { found, expected: SCHEMA_VERSION }
}

/// What starting on a store finds: the stored format version and whether the cluster
/// was initialised. The current version is ready to use; another version, or an
/// initialised cluster with no version (written before versions were recorded), is
/// refused; an empty cluster must be initialised (`Ok(true)`).
pub fn initialization_needed(version: Option<u32>, initialized: bool) -> (r: Result<bool, AppError>)
    ensures
        version == Some(SCHEMA_VERSION) ==> r == Ok::<bool, AppError>(false),
        version is Some && version != Some(SCHEMA_VERSION) ==> r == Err::<bool, AppError>(mismatch_error(version)),
        version is None && initialized ==> r == Err::<bool, AppError>(mismatch_error(version)),
        version is None && !initialized ==> r == Ok::<bool, AppError>(true),
{
    match version {
        Some(v) => {
            if v == SCHEMA_VERSION {
                Ok(false)
            } else {
                Err(mismatch(version))
            }
        },
        None => {
            if initialized {
                Err(mismatch(version))
            } else {
                Ok(true)
            }
        },
    }
}

pub open spec fn mismatch_error(found: Option<u32>) -> AppError {
    AppError::SchemaVersionMismatch { found, expected: SCHEMA_VERSION }
}

/// The stored format version: none when the marker is absent, its four little-endian
/// bytes otherwise; a marker of another length is an internal error.
pub fn decode_schema_version(stored: Option<&[u8]>) -> (r: Result<Option<u32>, AppError>)
    ensures
        stored is None ==> r == Ok::<Option<u32>, AppError>(None),
        stored matches Some(b) ==> (r is Ok <==> b@.len() == 4),
        stored matches Some(b) ==> b@.len() == 4 ==> r == Ok::<Option<u32>, AppError>(
            Some(vstd::bytes::spec_u32_from_le_bytes(b@)),
        ),
        r matches Err(e) ==> e is InternalError,
{
    match stored {
        None => Ok(None),
        Some(b) => {
            if b.len() != 4 {
                Err(AppError::InternalError("schema version marker is not four bytes".to_string()))
            } else {
                Ok(Some(vstd::bytes::u32_from_le_bytes(b)))
            }
        },
    }
}

/// The rows that mark a cluster initialised: the marker, and the format version as
/// four little-endian bytes.
pub fn version_marker() -> (v: Vec<u8>)
    ensures
        v@ == vstd::bytes::spec_u32_to_le_bytes(SCHEMA_VERSION),
{
    vstd::bytes::u32_to_le_bytes(SCHEMA_VERSION)
}

/// What initialising the cluster does, from what it finds under its locks.
#[derive(Debug, Clone, Copy, PartialEq, Eq)]
pub enum ClusterInit {
    /// Another instance initialised it first: nothing to do.
    AlreadyDone,
    /// Write the markers; create the default user first when `create_user`.
    Initialize { create_user: bool },
}

/// Initialisation is decided by the initialised marker, not by whether the default
/// user exists: an administrator who removed that user must not come back with the
/// default password. A user left by an interrupted earlier run is not created again.
pub fn cluster_init(marker_present: bool, user_present: bool) -> (r: ClusterInit)
    ensures
        marker_present ==> r == ClusterInit::AlreadyDone,
        !marker_present ==> r == (ClusterInit::Initialize { create_user: !user_present }),
{
    if marker_present {
        ClusterInit::AlreadyDone
    } else {
        ClusterInit::Initialize { create_user: !user_present }
    }
}

} // verus!

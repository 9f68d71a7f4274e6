//! A verified model of a multi-station SHOUTcast/ICY streaming server core:
//! the station frame engine, the playlist source tree with its shuffle
//! adapter, the per-listener pacing stream, and the ICY metadata writer.

mod cache_meta;
mod child;
mod config;
mod context;
mod errors;
mod frame;
mod http;
mod icy;
mod pacer;
mod provider;
mod shuffle;
mod station;
mod strings;
mod track;

pub use cache_meta::{
    lemma_meta_json_round_trip, meta_from_json, meta_to_json, resource_to_filepath, sha256_of,
    spec_file_metadata_json, spec_json_string, spec_meta_json, spec_meta_parse, spec_meta_parts,
    spec_resource_filename, spec_resource_filepath, FileMetadata, Meta, SpecMetaParts,
};
pub use child::{
    spec_silent_clip, spec_track_artist, spec_track_title, LocalFileTrack, PlaylistChildList,
    Silent, TrackProbe, SILENT_FRAME_COUNT, SILENT_FRAME_LEN,
};
pub use config::{
    check_outputs, config_value_to_string, fail_over_child, find_file_provider, find_playlist,
    normalize_path, spec_fail_over, spec_digits, spec_normalize_path,
    spec_same_route, u64_to_string, AwsS3ConfigKeys, ClapArgs, ConfigValue, FileProviderConfig,
    GlobalConfig, GoogleCloudStorageConfigKeys, LogLevel, PlaylistChildConfig, PlaylistConfig,
    ShoutCastOutput,
};
pub use context::Context;
pub use errors::StreamError;
pub use frame::{
    chunk_duration, chunk_track_bytes, spec_chunk_at, spec_chunk_count, spec_chunk_duration,
    ByteRate, FrameWithMeta, DEFAULT_FRAME_SIZE,
};
pub use http::{decode, spec_decode, HttpRequest, SpecDecode, SpecHeaders};
pub use icy::{
    end_of_stream_block, header_value, lemma_metadata_cadence, meta_data_support, metadata_block,
    push_bytes,
    session_id_header, spec_header_first, spec_headers_view, spec_metadata_block,
    spec_start_response, spec_stream_title_text, spec_write_frame, start_response, write_frame,
    MAX_META_DATA_SIZE, META_DATA_INTERVAL,
};
pub use pacer::{
    lemma_write_ahead_cap, sum_durations, PacerAction, PacerPhase, PlaylistFrameStream,
    WRITE_AHEAD_BACKOFF,
};
pub use provider::{LocalDownloader, LocalFileProvider, Options};
pub use shuffle::{DrainStep, InfiniteShuffleStream, MAX_STORED_DATA, RAND_DENOMINATOR};
pub use station::{
    lemma_frame_ids_increase, lemma_head_behind_listeners, listener_live, marker_live,
    session_live, ChildEvent, ListenerEntry, ListenerFrameData, ListenerID, LiveMarker, Playlist,
    PreparedFrame, SessionEntry, LISTENER_ID_KEEP_ALIVE_DURATION, MAX_WRITE_AHEAD_DURATION,
};
pub use track::{
    get_content_type_from_path, get_ext, lemma_split_basename_idempotent, spec_basename,
    spec_content_type_from_path, spec_get_ext, spec_split_basename, spec_stem, spec_trim,
    split_basename,
};

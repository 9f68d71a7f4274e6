//! The typed configuration: stations, file providers, outputs, and logging,
//! with the startup rule that no two outputs may share one route.

use vstd::prelude::*;
use crate::errors::StreamError;
use crate::strings::{str_eq, string_push};

verus! {

/// The logging verbosity levels the server accepts.
#[derive(Clone, Copy, PartialEq, Eq, Structural, Debug)]
pub enum LogLevel {
    Off,
    Error,
    Warn,
    Info,
    Debug,
    Trace,
}

/// The command line: the configuration path and the optional logging
/// overrides.
pub struct ClapArgs {
    pub config: String,
    pub log_level: Option<LogLevel>,
    pub log_file: Vec<String>,
}

/// One source tree node of a station's configuration. `fail_over` names an
/// alternative used when the primary cannot be constructed.
pub enum PlaylistChildConfig {
    Silent,
    LocalFolder {
        folder: String,
        repeat: Option<bool>,
        shuffle: Option<bool>,
        recursive: Option<bool>,
        fail_over: Option<Box<PlaylistChildConfig>>,
    },
    LocalFiles {
        files: Vec<String>,
        repeat: Option<bool>,
        shuffle: Option<bool>,
        fail_over: Option<Box<PlaylistChildConfig>>,
    },
    RemoteFolder {
        folder: String,
        remote_client: String,
        repeat: Option<bool>,
        shuffle: Option<bool>,
        recursive: Option<bool>,
        fail_over: Option<Box<PlaylistChildConfig>>,
    },
    RemoteFiles {
        files: Vec<String>,
        remote_client: String,
        repeat: Option<bool>,
        shuffle: Option<bool>,
        fail_over: Option<Box<PlaylistChildConfig>>,
    },
    Playlists {
        children: Vec<PlaylistChildConfig>,
        repeat: Option<bool>,
        shuffle: Option<bool>,
        fail_over: Option<Box<PlaylistChildConfig>>,
    },
}

/// One configured station: its source tree and its display name.
pub struct PlaylistConfig {
    pub child: PlaylistChildConfig,
    pub name: String,
}

/// One listening endpoint: where to bind and which station to serve there.
pub struct ShoutCastOutput {
    pub host: String,
    pub port: u16,
    pub path: String,
    pub playlist: String,
}

/// The settings an S3 file provider recognizes.
#[derive(Clone, Copy, PartialEq, Eq, Structural, Debug)]
pub enum AwsS3ConfigKeys {
    Bucket,
    Region,
    AccessKeyId,
    SecretAccessKey,
    DefaultRegion,
    Endpoint,
    Token,
    ImdsV1Fallback,
    VirtualHostedStyleRequest,
    UnsignedPayload,
    Checksum,
    MetadataEndpoint,
    ContainerCredentialsRelativeUri,
    SkipSignature,
    S3Express,
    RequestPayer,
}

/// The settings a Google Cloud Storage file provider recognizes.
#[derive(Clone, Copy, PartialEq, Eq, Structural, Debug)]
pub enum GoogleCloudStorageConfigKeys {
    ServiceAccount,
    ServiceAccountKey,
    Bucket,
    ApplicationCredentials,
}

/// A configuration value as it stands in the file: null, boolean, integer,
/// or text.
pub enum ConfigValue {
    Null,
    Bool(bool),
    Integer(u64),
    Text(String),
}

/// One remote file provider: its kind and its settings, in file order.
pub enum FileProviderConfig {
    AwsS3(Vec<(AwsS3ConfigKeys, ConfigValue)>),
    GoogleCloudStorage(Vec<(GoogleCloudStorageConfigKeys, ConfigValue)>),
}

/// The whole configuration file, typed.
pub struct GlobalConfig {
    pub playlists: Vec<(String, PlaylistConfig)>,
    pub file_provider: Vec<(String, FileProviderConfig)>,
    pub outputs: Vec<ShoutCastOutput>,
    pub log_level: Option<LogLevel>,
    pub log_file: Vec<String>,
    pub cache_dir: Option<String>,
}

impl GlobalConfig {
    /// Applies the command-line overrides: a level given on the command
    /// line replaces the file's, and a non-empty list of log files replaces
    /// the file's list; everything else stands.
    pub fn apply_clap_args(&mut self, log_level: Option<LogLevel>, log_file: Vec<String>)
        ensures
            final(self).playlists == old(self).playlists,
            final(self).file_provider == old(self).file_provider,
            final(self).outputs == old(self).outputs,
            final(self).cache_dir == old(self).cache_dir,
            final(self).log_level == (if log_level is Some {
                log_level
            } else {
                old(self).log_level
            }),
            final(self).log_file == (if log_file@.len() > 0 {
                log_file
            } else {
                old(self).log_file
            }),
    {
        if let Some(level) = log_level {
            self.log_level = Some(level);
        }
        if log_file.len() > 0 {
            self.log_file = log_file;
        }
    }
}

impl AwsS3ConfigKeys {
    /// The name of the key as it stands in the configuration file.
    pub fn key_name(&self) -> (r: &'static str)
        ensures
            r@ == self.spec_key_name(),
    {
        match self {
            AwsS3ConfigKeys::Bucket => "bucket",
            AwsS3ConfigKeys::Region => "region",
            AwsS3ConfigKeys::AccessKeyId => "access_key_id",
            AwsS3ConfigKeys::SecretAccessKey => "secret_access_key",
            AwsS3ConfigKeys::DefaultRegion => "default_region",
            AwsS3ConfigKeys::Endpoint => "endpoint",
            AwsS3ConfigKeys::Token => "token",
            AwsS3ConfigKeys::ImdsV1Fallback => "imds_v1_fallback",
            AwsS3ConfigKeys::VirtualHostedStyleRequest => "virtual_hosted_style_request",
            AwsS3ConfigKeys::UnsignedPayload => "unsigned_payload",
            AwsS3ConfigKeys::Checksum => "checksum",
            AwsS3ConfigKeys::MetadataEndpoint => "metadata_endpoint",
            AwsS3ConfigKeys::ContainerCredentialsRelativeUri => "container_credentials_relative_uri",
            AwsS3ConfigKeys::SkipSignature => "skip_signature",
            AwsS3ConfigKeys::S3Express => "s3_express",
            AwsS3ConfigKeys::RequestPayer => "request_payer",
        }
    }

    /// The key's configuration-file name, at the specification level.
    pub open spec fn spec_key_name(&self) -> Seq<char> {
        match self {
            AwsS3ConfigKeys::Bucket => "bucket"@,
            AwsS3ConfigKeys::Region => "region"@,
            AwsS3ConfigKeys::AccessKeyId => "access_key_id"@,
            AwsS3ConfigKeys::SecretAccessKey => "secret_access_key"@,
            AwsS3ConfigKeys::DefaultRegion => "default_region"@,
            AwsS3ConfigKeys::Endpoint => "endpoint"@,
            AwsS3ConfigKeys::Token => "token"@,
            AwsS3ConfigKeys::ImdsV1Fallback => "imds_v1_fallback"@,
            AwsS3ConfigKeys::VirtualHostedStyleRequest => "virtual_hosted_style_request"@,
            AwsS3ConfigKeys::UnsignedPayload => "unsigned_payload"@,
            AwsS3ConfigKeys::Checksum => "checksum"@,
            AwsS3ConfigKeys::MetadataEndpoint => "metadata_endpoint"@,
            AwsS3ConfigKeys::ContainerCredentialsRelativeUri => "container_credentials_relative_uri"@,
            AwsS3ConfigKeys::SkipSignature => "skip_signature"@,
            AwsS3ConfigKeys::S3Express => "s3_express"@,
            AwsS3ConfigKeys::RequestPayer => "request_payer"@,
        }
    }
}

impl GoogleCloudStorageConfigKeys {
    /// The name of the key as it stands in the configuration file.
    pub fn key_name(&self) -> (r: &'static str)
        ensures
            r@ == self.spec_key_name(),
    {
        match self {
            GoogleCloudStorageConfigKeys::ServiceAccount => "service_account",
            GoogleCloudStorageConfigKeys::ServiceAccountKey => "service_account_key",
            GoogleCloudStorageConfigKeys::Bucket => "bucket",
            GoogleCloudStorageConfigKeys::ApplicationCredentials => "application_credentials",
        }
    }

    /// The key's configuration-file name, at the specification level.
    pub open spec fn spec_key_name(&self) -> Seq<char> {
        match self {
            GoogleCloudStorageConfigKeys::ServiceAccount => "service_account"@,
            GoogleCloudStorageConfigKeys::ServiceAccountKey => "service_account_key"@,
            GoogleCloudStorageConfigKeys::Bucket => "bucket"@,
            GoogleCloudStorageConfigKeys::ApplicationCredentials => "application_credentials"@,
        }
    }
}

/// A configuration value written out as the text a provider builder takes:
/// nothing for null, `true`/`false`, the decimal digits, or the text
/// itself.
pub fn config_value_to_string(value: &ConfigValue) -> (r: String)
    ensures
        r@ == spec_config_value_string(value),
{
    match value {
        ConfigValue::Null => String::new(),
        ConfigValue::Bool(b) => {
            if *b {
                "true".to_owned()
            } else {
                "false".to_owned()
            }
        },
        ConfigValue::Integer(n) => u64_to_string(*n),
        ConfigValue::Text(s) => crate::strings::clone_string(s),
    }
}

/// The text form of a configuration value.
pub open spec fn spec_config_value_string(value: &ConfigValue) -> Seq<char> {
    match value {
        ConfigValue::Null => Seq::empty(),
        ConfigValue::Bool(b) => if *b {
            "true"@
        } else {
            "false"@
        },
        ConfigValue::Integer(n) => spec_digits(*n as int),
        ConfigValue::Text(s) => s@,
    }
}

/// The decimal digits of a non-negative integer, most significant first.
pub open spec fn spec_digits(n: int) -> Seq<char>
    decreases n,
{
    if n < 0 {
        Seq::empty()
    } else if n < 10 {
        seq![spec_digit_char(n)]
    } else {
        spec_digits(n / 10).push(spec_digit_char(n % 10))
    }
}

/// One decimal digit as a character.
pub open spec fn spec_digit_char(d: int) -> char {
    ((48 + d) as u8) as char
}

/// Writes `n` in decimal.
pub fn u64_to_string(n: u64) -> (r: String)
    ensures
        r@ == spec_digits(n as int),
    decreases n,
{
    if n < 10 {
        let mut s = String::new();
        string_push(&mut s, (48 + (n as u8)) as char);
        proof {
            assert(s@ =~= seq![spec_digit_char(n as int)]);
        }
        return s;
    }
    let mut s = u64_to_string(n / 10);
    string_push(&mut s, (48 + ((n % 10) as u8)) as char);
    s
}

/// The first character of the path that is not a slash, or its length.
pub open spec fn spec_first_non_slash(s: Seq<char>) -> int
    decreases s.len(),
{
    if s.len() == 0 {
        0
    } else if s.first() == '/' {
        1 + spec_first_non_slash(s.drop_first())
    } else {
        0
    }
}

/// The last character of the path that is not a slash, or -1.
pub open spec fn spec_last_non_slash(s: Seq<char>) -> int
    decreases s.len(),
{
    if s.len() == 0 {
        -1
    } else if s.last() == '/' {
        spec_last_non_slash(s.drop_last())
    } else {
        s.len() - 1
    }
}

/// A route path with its surrounding slashes removed: how paths compare
/// across outputs and how requests are routed.
pub open spec fn spec_normalize_path(s: Seq<char>) -> Seq<char> {
    if spec_first_non_slash(s) == s.len() {
        Seq::empty()
    } else {
        s.subrange(spec_first_non_slash(s), spec_last_non_slash(s) + 1)
    }
}

/// Two outputs claim the same route when host, port, and normalized path
/// all agree.
pub open spec fn spec_same_route(a: &ShoutCastOutput, b: &ShoutCastOutput) -> bool {
    a.host@ == b.host@ && a.port == b.port && spec_normalize_path(a.path@) == spec_normalize_path(
        b.path@,
    )
}

/// What `spec_first_non_slash` returns.
proof fn lemma_first_non_slash(s: Seq<char>)
    ensures
        0 <= spec_first_non_slash(s) <= s.len(),
        spec_first_non_slash(s) < s.len() ==> s[spec_first_non_slash(s)] != '/',
        forall|k: int| 0 <= k < spec_first_non_slash(s) ==> s[k] == '/',
    decreases s.len(),
{
    if s.len() > 0 && s.first() == '/' {
        lemma_first_non_slash(s.drop_first());
        let j = spec_first_non_slash(s);
        assert forall|k: int| 0 <= k < j implies s[k] == '/' by {
            if k > 0 {
                assert(s.drop_first()[k - 1] == '/');
            }
        }
    }
}

/// What `spec_last_non_slash` returns.
proof fn lemma_last_non_slash(s: Seq<char>)
    ensures
        -1 <= spec_last_non_slash(s) < s.len(),
        spec_last_non_slash(s) >= 0 ==> s[spec_last_non_slash(s)] != '/',
        forall|k: int| spec_last_non_slash(s) < k < s.len() ==> s[k] == '/',
    decreases s.len(),
{
    if s.len() > 0 && s.last() == '/' {
        lemma_last_non_slash(s.drop_last());
        let j = spec_last_non_slash(s);
        assert forall|k: int| j < k < s.len() implies s[k] == '/' by {
            if k < s.len() - 1 {
                assert(s.drop_last()[k] == '/');
            }
        }
    }
}

/// The route path with its surrounding slashes removed.
pub fn normalize_path(s: &str) -> (r: String)
    ensures
        r@ == spec_normalize_path(s@),
{
    let n = s.unicode_len();
    let mut a: usize = 0;
    while a < n && s.get_char(a) == '/'
        invariant
            a <= n,
            n == s@.len(),
            forall|k: int| 0 <= k < a ==> s@[k] == '/',
        decreases n - a,
    {
        a = a + 1;
    }
    proof {
        lemma_first_non_slash(s@);
        let j = spec_first_non_slash(s@);
        if j < a {
            assert(s@[j] == '/');
        }
        if a < n && j > a {
            assert(s@[a as int] == '/');
        }
    }
    if a == n {
        return String::new();
    }
    let mut b: usize = n - 1;
    while b > a && s.get_char(b) == '/'
        invariant
            a <= b < n,
            n == s@.len(),
            forall|k: int| b < k < n ==> s@[k] == '/',
        decreases b,
    {
        b = b - 1;
    }
    proof {
        lemma_first_non_slash(s@);
        lemma_last_non_slash(s@);
        let j = spec_last_non_slash(s@);
        if j < b {
            assert(s@[b as int] == '/');
        }
        if j > b {
            assert(s@[j] == '/');
        }
    }
    s.substring_char(a, b + 1).to_owned()
}

/// Checks the startup invariant that every output's route is unique: the
/// configuration is rejected exactly when two outputs share their host,
/// port, and normalized path.
pub fn check_outputs(outputs: &Vec<ShoutCastOutput>) -> (r: Result<(), StreamError>)
    ensures
        r is Err <==> exists|i: int, j: int|
            0 <= i < j < outputs@.len() && spec_same_route(&outputs@[i], &outputs@[j]),
        r matches Err(e) ==> e is ConfigError,
{
    let n = outputs.len();
    let mut i: usize = 0;
    while i < n
        invariant
            i <= n,
            n == outputs@.len(),
            forall|a: int, b: int|
                #![trigger outputs@[a], outputs@[b]]
                0 <= a < b < outputs@.len() && a < i ==> !spec_same_route(
                    &outputs@[a],
                    &outputs@[b],
                ),
        decreases n - i,
    {
        let mut j: usize = i + 1;
        while j < n
            invariant
                i < j <= n || (i + 1 == j && j > n),
                i < n,
                n == outputs@.len(),
                forall|a: int, b: int|
                    #![trigger outputs@[a], outputs@[b]]
                    0 <= a < b < outputs@.len() && a < i ==> !spec_same_route(
                        &outputs@[a],
                        &outputs@[b],
                    ),
                forall|b: int|
                    i < b < j ==> !spec_same_route(&outputs@[i as int], #[trigger] &outputs@[b]),
            decreases n - j,
        {
            let same_host = str_eq(outputs[i].host.as_str(), outputs[j].host.as_str());
            let same_port = outputs[i].port == outputs[j].port;
            let pa = normalize_path(outputs[i].path.as_str());
            let pb = normalize_path(outputs[j].path.as_str());
            let same_path = str_eq(pa.as_str(), pb.as_str());
            if same_host && same_port && same_path {
                proof {
                    assert(spec_same_route(&outputs@[i as int], &outputs@[j as int]));
                    assert(exists|a: int, b: int|
                        0 <= a < b < outputs@.len() && spec_same_route(
                            &outputs@[a],
                            &outputs@[b],
                        ));
                }
                return Err(
                    StreamError::ConfigError(
                        "the same URL path is configured twice on the same server".to_owned(),
                    ),
                );
            }
            j = j + 1;
        }
        i = i + 1;
    }
    Ok(())
}

/// Finds the remote file provider a child names. The configuration is
/// rejected exactly when no provider of that name exists.
pub fn find_file_provider(
    file_provider: &Vec<(String, FileProviderConfig)>,
    remote_client: &str,
) -> (r: Result<usize, StreamError>)
    ensures
        match r {
            Ok(i) => i < file_provider@.len() && file_provider@[i as int].0@ == remote_client@,
            Err(e) => e is ConfigError && forall|k: int|
                0 <= k < file_provider@.len() ==> (#[trigger] file_provider@[k]).0@
                    != remote_client@,
        },
{
    let n = file_provider.len();
    let mut i: usize = 0;
    while i < n
        invariant
            i <= n,
            n == file_provider@.len(),
            forall|k: int| 0 <= k < i ==> (#[trigger] file_provider@[k]).0@ != remote_client@,
        decreases n - i,
    {
        if str_eq(file_provider[i].0.as_str(), remote_client) {
            return Ok(i);
        }
        i = i + 1;
    }
    Err(StreamError::ConfigError("no file provider found for the remote client".to_owned()))
}

/// Finds the station an output serves. The configuration is rejected
/// exactly when no playlist of that name was configured.
pub fn find_playlist(
    playlists: &Vec<(String, PlaylistConfig)>,
    name: &str,
) -> (r: Result<usize, StreamError>)
    ensures
        match r {
            Ok(i) => i < playlists@.len() && playlists@[i as int].0@ == name@,
            Err(e) => e is ConfigError && forall|k: int|
                0 <= k < playlists@.len() ==> (#[trigger] playlists@[k]).0@ != name@,
        },
{
    let n = playlists.len();
    let mut i: usize = 0;
    while i < n
        invariant
            i <= n,
            n == playlists@.len(),
            forall|k: int| 0 <= k < i ==> (#[trigger] playlists@[k]).0@ != name@,
        decreases n - i,
    {
        if str_eq(playlists[i].0.as_str(), name) {
            return Ok(i);
        }
        i = i + 1;
    }
    Err(StreamError::ConfigError("playlist not found".to_owned()))
}

/// The configured alternative of a child, at the specification level.
pub open spec fn spec_fail_over(child: PlaylistChildConfig) -> Option<Box<PlaylistChildConfig>> {
    match child {
        PlaylistChildConfig::Silent => None,
        PlaylistChildConfig::LocalFolder { fail_over, .. } => fail_over,
        PlaylistChildConfig::LocalFiles { fail_over, .. } => fail_over,
        PlaylistChildConfig::RemoteFolder { fail_over, .. } => fail_over,
        PlaylistChildConfig::RemoteFiles { fail_over, .. } => fail_over,
        PlaylistChildConfig::Playlists { fail_over, .. } => fail_over,
    }
}

/// The child to fall back on when the primary fails to construct: exactly
/// the configured `fail_over`, and nothing when none was given (the silent
/// terminal is only ever engaged through configuration).
pub fn fail_over_child(child: &PlaylistChildConfig) -> (r: Option<&PlaylistChildConfig>)
    ensures
        match r {
            Some(f) => spec_fail_over(*child) matches Some(b) && *f == *b,
            None => spec_fail_over(*child) is None,
        },
{
    match child {
        PlaylistChildConfig::Silent => None,
        PlaylistChildConfig::LocalFolder { fail_over, .. } => match fail_over {
            Some(b) => Some(&**b),
            None => None,
        },
        PlaylistChildConfig::LocalFiles { fail_over, .. } => match fail_over {
            Some(b) => Some(&**b),
            None => None,
        },
        PlaylistChildConfig::RemoteFolder { fail_over, .. } => match fail_over {
            Some(b) => Some(&**b),
            None => None,
        },
        PlaylistChildConfig::RemoteFiles { fail_over, .. } => match fail_over {
            Some(b) => Some(&**b),
            None => None,
        },
        PlaylistChildConfig::Playlists { fail_over, .. } => match fail_over {
            Some(b) => Some(&**b),
            None => None,
        },
    }
}

} // verus!

//! The settings that every command needs.

use crate::errors::CliError;
use crate::text::opt_view;
use vstd::prelude::*;

verus! {

/// What the client needs to reach a bucket.
#[derive(Debug)]
pub struct Settings {
    pub key_id: String,
    pub key_secret: String,
    pub endpoint: String,
    pub bucket: String,
}

/// The first of the four settings that is missing, by the name of its
/// variable in the environment.
pub open spec fn first_missing(
    key_id: Option<Seq<char>>,
    key_secret: Option<Seq<char>>,
    endpoint: Option<Seq<char>>,
    bucket: Option<Seq<char>>,
) -> Option<Seq<char>> {
    if key_id is None {
        Some("ALIYUN_KEY_ID"@)
    } else if key_secret is None {
        Some("ALIYUN_KEY_SECRET"@)
    } else if endpoint is None {
        Some("ALIYUN_ENDPOINT"@)
    } else if bucket is None {
        Some("ALIYUN_BUCKET"@)
    } else {
        None
    }
}

/// Gathers the settings of the client from what the environment holds of
/// them. All four are needed: the first that is missing is reported by the
/// name of its variable.
pub fn init_client(
    key_id: Option<String>,
    key_secret: Option<String>,
    endpoint: Option<String>,
    bucket: Option<String>,
) -> (r: Result<Settings, CliError>)
    ensures
        r is Ok <==> first_missing(
            opt_view(key_id),
            opt_view(key_secret),
            opt_view(endpoint),
            opt_view(bucket),
        ) is None,
        r matches Ok(s) ==> Some(s.key_id) == key_id && Some(s.key_secret) == key_secret && Some(
            s.endpoint,
        ) == endpoint && Some(s.bucket) == bucket,
        r matches Err(e) ==> e is VarError && Some(e.detail()) == first_missing(
            opt_view(key_id),
            opt_view(key_secret),
            opt_view(endpoint),
            opt_view(bucket),
        ),
{
    match (key_id, key_secret, endpoint, bucket) {
        (Some(key_id), Some(key_secret), Some(endpoint), Some(bucket)) => Ok(
            Settings { key_id, key_secret, endpoint, bucket },
        ),
        (None, _, _, _) => Err(CliError::VarError(String::from_str("ALIYUN_KEY_ID"))),
        (_, None, _, _) => Err(CliError::VarError(String::from_str("ALIYUN_KEY_SECRET"))),
        (_, _, None, _) => Err(CliError::VarError(String::from_str("ALIYUN_ENDPOINT"))),
        (_, _, _, None) => Err(CliError::VarError(String::from_str("ALIYUN_BUCKET"))),
    }
}

} // verus!

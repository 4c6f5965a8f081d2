//! The server's settings: built-in defaults, which a TOML file and the
//! environment override.

use vstd::prelude::*;

use crate::files::{join_path, join_path_spec};
use crate::text::{str_eq, to_owned_string};

verus! {

/// The server's settings. `bind` is a socket address in text
/// (`host:port`); paths are in text too.
#[derive(Debug)]
pub struct Config {
    pub bind: String,
    pub data_dir: String,
    pub max_upload_bytes: u64,
    pub max_attachments_per_message: u32,
    pub allow_registration: bool,
    /// Image types accepted for upload (`png`, `jpeg`, `gif`, `webp`).
    pub allowed_image_types: Vec<String>,
    pub cors_origins: Vec<String>,
    pub secure_cookies: bool,
    /// Directory of the built web client, served when set.
    pub web_dist: Option<String>,
}

/// 20 MiB.
pub const DEFAULT_MAX_UPLOAD_BYTES: u64 = 20971520;

pub const DEFAULT_MAX_ATTACHMENTS: u32 = 9;

impl Default for Config {
    fn default() -> (c: Self)
        ensures
            c.bind@ == "127.0.0.1:7420"@,
            c.data_dir@ == "data"@,
            c.max_upload_bytes == DEFAULT_MAX_UPLOAD_BYTES,
            c.max_attachments_per_message == DEFAULT_MAX_ATTACHMENTS,
            c.allow_registration,
            c.allowed_image_types@.len() == 4,
            c.allowed_image_types@[0]@ == "png"@,
            c.allowed_image_types@[1]@ == "jpeg"@,
            c.allowed_image_types@[2]@ == "gif"@,
            c.allowed_image_types@[3]@ == "webp"@,
            c.cors_origins@.len() == 0,
            !c.secure_cookies,
            c.web_dist is None,
    {
        let mut types: Vec<String> = Vec::new();
        types.push(to_owned_string("png"));
        types.push(to_owned_string("jpeg"));
        types.push(to_owned_string("gif"));
        types.push(to_owned_string("webp"));
        Config {
            bind: to_owned_string("127.0.0.1:7420"),
            data_dir: to_owned_string("data"),
            max_upload_bytes: DEFAULT_MAX_UPLOAD_BYTES,
            max_attachments_per_message: DEFAULT_MAX_ATTACHMENTS,
            allow_registration: true,
            allowed_image_types: types,
            cors_origins: Vec::new(),
            secure_cookies: false,
            web_dist: None,
        }
    }
}

/// How the environment switches registration: `1`, `true` and `yes` turn
/// it on, anything else off.
pub fn registration_flag(v: &str) -> (on: bool)
    ensures
        on == (v@ == "1"@ || v@ == "true"@ || v@ == "yes"@),
{
    str_eq(v, "1") || str_eq(v, "true") || str_eq(v, "yes")
}

// ---------- command line and layout ----------

/// What the server's command line asks for: `--print-openapi` anywhere,
/// and the value after the first `--config`.
#[derive(Debug)]
pub struct ServerArgs {
    pub print_openapi: bool,
    pub config: Option<String>,
}

pub open spec fn config_arg_spec(args: Seq<Seq<char>>) -> Option<Seq<char>>
    decreases args.len(),
{
    if args.len() < 2 {
        None
    } else if args[0] == "--config"@ {
        Some(args[1])
    } else {
        config_arg_spec(args.drop_first())
    }
}

pub fn server_args(args: &Vec<String>) -> (a: ServerArgs)
    ensures
        a.print_openapi == exists|i: int| 0 <= i < args@.len() && (#[trigger] args@[i])@
            == "--print-openapi"@,
        match a.config {
            Some(c) => config_arg_spec(args.deep_view()) == Some(c@),
            None => config_arg_spec(args.deep_view()) is None,
        },
{
    let mut print_openapi = false;
    let mut i: usize = 0;
    while i < args.len()
        invariant
            i <= args@.len(),
            print_openapi == exists|j: int| 0 <= j < i && (#[trigger] args@[j])@
                == "--print-openapi"@,
        decreases args.len() - i,
    {
        if str_eq(args[i].as_str(), "--print-openapi") {
            print_openapi = true;
        }
        i = i + 1;
    }
    let ghost dv = args.deep_view();
    let mut k: usize = 0;
    assert(dv.skip(0) =~= dv);
    while k < args.len() && k + 1 < args.len() && !str_eq(args[k].as_str(), "--config")
        invariant
            k <= args@.len(),
            dv == args.deep_view(),
            config_arg_spec(dv) == config_arg_spec(dv.skip(k as int)),
        decreases args.len() - k,
    {
        assert(dv.skip(k as int).drop_first() =~= dv.skip(k + 1));
        k = k + 1;
    }
    if k < args.len() && k + 1 < args.len() {
        assert(dv.skip(k as int)[0] == dv[k as int]);
        assert(dv.skip(k as int)[1] == dv[k + 1]);
        ServerArgs { print_openapi, config: Some(args[k + 1].clone()) }
    } else {
        ServerArgs { print_openapi, config: None }
    }
}

/// Where uploaded blobs live: `uploads` in the data directory.
pub fn uploads_dir(data_dir: &str) -> (p: String)
    ensures
        p@ == join_path_spec(data_dir@, "uploads"@),
{
    join_path(data_dir, "uploads")
}

/// The database file: `folkmoot.db` in the data directory.
pub fn database_file(data_dir: &str) -> (p: String)
    ensures
        p@ == join_path_spec(data_dir@, "folkmoot.db"@),
{
    join_path(data_dir, "folkmoot.db")
}

} // verus!

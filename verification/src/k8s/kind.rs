//! The command line that starts a local cluster.
use crate::text::{append_chars, from_chars, to_chars};
use vstd::prelude::*;

verus! {

/// How the cluster is to be: the version of its node image, the path of a
/// configuration file if there is one, and the name of its context.
pub struct KindConfig {
    pub version: String,
    pub config: Option<String>,
    pub context: String,
}

impl Default for KindConfig {
    /// Version 1.22.15, no configuration file, the context `kind`.
    fn default() -> (config: KindConfig)
        ensures
            config.version@ == "1.22.15"@,
            config.config is None,
            config.context@ == "kind"@,
    {
        KindConfig { version: "1.22.15".to_owned(), config: None, context: "kind".to_owned() }
    }
}

/// What `{:?}` prints for a path that may be missing.
pub uninterp spec fn debug_text(path: Option<Seq<char>>) -> Seq<char>;

/// The view of a string that may be missing.
pub open spec fn option_view(s: Option<String>) -> Option<Seq<char>> {
    match s {
        Some(s) => Some(s@),
        None => None,
    }
}

/// The `Debug` form of `Option<PathBuf>` in the standard library, as
/// `format!` prints it with `{:?}`. The contract claims no more than that the
/// text depends on the path alone.
#[verifier::external_body]
fn debug_of(path: &Option<String>) -> (text: String)
    ensures
        text@ == debug_text(option_view(*path)),
{
    let path: Option<std::path::PathBuf> = path.as_ref().map(std::path::PathBuf::from);
    format!("{:?}", path)
}

/// The command line that starts a cluster: the node image of the version,
/// and, where a configuration file is given, `--config` with the path as
/// `{:?}` prints it, put right behind the image.
pub open spec fn start_command(version: Seq<char>, config: Option<Seq<char>>) -> Seq<char> {
    "kind create cluster"@ + " --image=kindest/node:v"@ + version + if config is Some {
        "--config "@ + debug_text(config)
    } else {
        Seq::<char>::empty()
    }
}

/// The command line that starts the cluster that `config` describes.
pub fn start(config: KindConfig) -> (command: String)
    ensures
        command@ == start_command(config.version@, option_view(config.config)),
{
    let mut out: Vec<char> = Vec::new();
    append_chars(&mut out, &to_chars("kind create cluster"));
    append_chars(&mut out, &to_chars(" --image=kindest/node:v"));
    append_chars(&mut out, &to_chars(config.version.as_str()));
    if config.config.is_some() {
        append_chars(&mut out, &to_chars("--config "));
        append_chars(&mut out, &to_chars(debug_of(&config.config).as_str()));
    }
    assert(out@ =~= start_command(config.version@, option_view(config.config)));
    from_chars(&out)
}

} // verus!

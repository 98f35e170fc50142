//! Where store files live.
use vstd::prelude::*;

verus! {

/// The workspace directory, under the home directory unless a base path is
/// given.
pub const DEFAULT_WORKSPACE_PATH: &'static str = ".microkv/";

/// The extension of a store file.
pub const DB_EXTENSION: &'static str = "kv";

/// The path that `Path::join` makes of a base and a name.
pub uninterp spec fn joined(base: Seq<char>, name: Seq<char>) -> Seq<char>;

/// The path that `Path::with_extension` makes of a path and an extension.
pub uninterp spec fn extended(path: Seq<char>, ext: Seq<char>) -> Seq<char>;

/// Relies on `Path::join`: the result depends on the two paths alone.
#[verifier::external_body]
fn join_path(base: &str, name: &str) -> (r: String)
    ensures
        r@ == joined(base@, name@),
{
    std::path::Path::new(base).join(name).to_string_lossy().into_owned()
}

/// Relies on `Path::with_extension`: the result depends on the path and the
/// extension alone.
#[verifier::external_body]
fn with_extension(path: &str, ext: &str) -> (r: String)
    ensures
        r@ == extended(path@, ext@),
{
    std::path::Path::new(path).with_extension(ext).to_string_lossy().into_owned()
}

/// Relies on `dirs::home_dir`: the current user's home directory, if one is
/// known; it depends on the environment.
#[verifier::external_body]
pub fn get_home_dir() -> (r: Option<String>) {
    dirs::home_dir().map(|p| p.to_string_lossy().into_owned())
}

/// The path of store `name` under `base`: `<base>/<name>.kv`.
pub open spec fn db_path(name: Seq<char>, base: Seq<char>) -> Seq<char> {
    extended(joined(base, name), DB_EXTENSION@)
}

/// The workspace under a home directory, or relative to the working
/// directory where no home directory is known.
pub open spec fn workspace_under(home: Option<Seq<char>>) -> Seq<char> {
    match home {
        Some(h) => joined(h, DEFAULT_WORKSPACE_PATH@),
        None => DEFAULT_WORKSPACE_PATH@,
    }
}

/// The default workspace directory.
pub fn default_workspace() -> (r: String)
    ensures
        exists|h: Option<Seq<char>>| r@ == workspace_under(h),
{
    match get_home_dir() {
        Some(h) => {
            let r = join_path(h.as_str(), DEFAULT_WORKSPACE_PATH);
            assert(r@ == workspace_under(Some(h@)));
            r
        },
        None => {
            let r = DEFAULT_WORKSPACE_PATH.to_owned();
            assert(r@ == workspace_under(None));
            r
        },
    }
}

/// The path of store `name` in the default workspace.
pub fn get_db_path(name: &str) -> (r: String)
    ensures
        exists|h: Option<Seq<char>>| r@ == db_path(name@, workspace_under(h)),
{
    let base = default_workspace();
    get_db_path_with_base_path(name, base.as_str())
}

/// The path of store `name` under `base_path`.
pub fn get_db_path_with_base_path(name: &str, base_path: &str) -> (r: String)
    ensures
        r@ == db_path(name@, base_path@),
{
    let joined_path = join_path(base_path, name);
    with_extension(joined_path.as_str(), DB_EXTENSION)
}

} // verus!

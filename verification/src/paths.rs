//! Well-known filesystem locations. All privileged state lives under
//! `%ProgramData%\Sanctum`, which the service ACL-locks so a standard user
//! cannot hand-edit it during a locked session.
//!
//! Paths are Windows paths, joined with `\`. The environment is read by the
//! caller, which hands in the values of `%ProgramData%` and `%SystemRoot%`
//! (or `None` where a variable is unset).

use vstd::prelude::*;
use crate::text::{chars_of, push_str, string_of};

verus! {

/// The named-pipe address the service listens on for the UI.
pub const PIPE_NAME: &'static str = "\\\\.\\pipe\\sanctum-service";

/// Where `%ProgramData%` points when it is unset.
pub const DEFAULT_PROGRAM_DATA: &'static str = "C:\\ProgramData";

/// Where `%SystemRoot%` points when it is unset.
pub const DEFAULT_SYSTEM_ROOT: &'static str = "C:\\Windows";

/// `rel` appended to `base` as a path component: a `\` goes between them
/// unless `base` is empty or already ends in a separator.
pub open spec fn join_spec(base: Seq<char>, rel: Seq<char>) -> Seq<char> {
    if base.len() == 0 {
        rel
    } else if base.last() == '\\' || base.last() == '/' {
        base + rel
    } else {
        base + seq!['\\'] + rel
    }
}

/// `rel` appended to `base` as a path component.
pub fn join(base: &str, rel: &str) -> (r: String)
    ensures
        r@ == join_spec(base@, rel@),
{
    let b = chars_of(base);
    let mut out: Vec<char> = Vec::new();
    push_str(&mut out, base);
    if b.len() > 0 && b[b.len() - 1] != '\\' && b[b.len() - 1] != '/' {
        out.push('\\');
    }
    push_str(&mut out, rel);
    assert(out@ =~= join_spec(base@, rel@));
    string_of(&out)
}

/// `%ProgramData%` (e.g. `C:\ProgramData`), falling back sensibly.
pub fn program_data(var: Option<&str>) -> (r: String)
    ensures
        r@ == match var {
            Some(v) => v@,
            None => DEFAULT_PROGRAM_DATA@,
        },
{
    match var {
        Some(v) => v.to_string(),
        None => DEFAULT_PROGRAM_DATA.to_string(),
    }
}

/// `%SystemRoot%` (e.g. `C:\Windows`), falling back sensibly.
pub fn system_root(var: Option<&str>) -> (r: String)
    ensures
        r@ == match var {
            Some(v) => v@,
            None => DEFAULT_SYSTEM_ROOT@,
        },
{
    match var {
        Some(v) => v.to_string(),
        None => DEFAULT_SYSTEM_ROOT.to_string(),
    }
}

pub open spec fn data_dir_spec(program_data: Seq<char>) -> Seq<char> {
    join_spec(program_data, "Sanctum"@)
}

/// `%ProgramData%\Sanctum`: the ACL-locked data root.
pub fn data_dir(program_data: &str) -> (r: String)
    ensures
        r@ == data_dir_spec(program_data@),
{
    join(program_data, "Sanctum")
}

/// The SQLite database file, inside the data root.
pub fn db_path(program_data: &str) -> (r: String)
    ensures
        r@ == join_spec(data_dir_spec(program_data@), "sanctum.db"@),
        r@.len() > data_dir_spec(program_data@).len(),
        r@.take(data_dir_spec(program_data@).len() as int) == data_dir_spec(program_data@),
{
    let d = data_dir(program_data);
    proof {
        reveal_strlit("Sanctum");
        reveal_strlit("sanctum.db");
    }
    let r = join(d.as_str(), "sanctum.db");
    assert(r@.take(d@.len() as int) =~= d@);
    r
}

/// Directory holding the effective blocklists the service loads at runtime.
pub fn blocklist_dir(program_data: &str) -> (r: String)
    ensures
        r@ == join_spec(data_dir_spec(program_data@), "blocklist"@),
{
    let d = data_dir(program_data);
    join(d.as_str(), "blocklist")
}

/// The Windows hosts file.
pub fn hosts_path(system_root: &str) -> (r: String)
    ensures
        r@ == join_spec(system_root@, "System32\\drivers\\etc\\hosts"@),
{
    join(system_root, "System32\\drivers\\etc\\hosts")
}

} // verus!

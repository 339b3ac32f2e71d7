//! Naming for the atomic-write discipline: the timestamped temporary and
//! backup siblings of a file, and the proof that writing them can never
//! touch the file itself.

use vstd::prelude::*;

verus! {

/// The name of the temporary sibling: `.<name>.tmp-<ts>`.
pub open spec fn spec_temp_name(name: Seq<char>, ts: Seq<char>) -> Seq<char> {
    "."@ + name + ".tmp-"@ + ts
}

/// The name of the backup sibling: `.<name>.backup-<ts>`.
pub open spec fn spec_backup_name(name: Seq<char>, ts: Seq<char>) -> Seq<char> {
    "."@ + name + ".backup-"@ + ts
}

/// Builds the temporary sibling name for a file name and a timestamp.
pub fn temp_file_name(name: &str, ts: &str) -> (r: String)
    ensures
        r@ == spec_temp_name(name@, ts@),
{
    let mut s = String::from_str(".");
    s.append(name);
    s.append(".tmp-");
    s.append(ts);
    proof {
        assert(s@ =~= spec_temp_name(name@, ts@));
    }
    s
}

/// Builds the backup sibling name for a file name and a timestamp.
pub fn backup_file_name(name: &str, ts: &str) -> (r: String)
    ensures
        r@ == spec_backup_name(name@, ts@),
{
    let mut s = String::from_str(".");
    s.append(name);
    s.append(".backup-");
    s.append(ts);
    proof {
        assert(s@ =~= spec_backup_name(name@, ts@));
    }
    s
}

/// Joins a folder path and a base name with a `/`.
pub fn join_path(folder: &str, name: &str) -> (r: String)
    ensures
        r@ == folder@ + "/"@ + name@,
{
    let mut s = String::from_str(folder);
    s.append("/");
    s.append(name);
    proof {
        assert(s@ =~= folder@ + "/"@ + name@);
    }
    s
}

/// The temporary and backup names differ from the file name and from each
/// other, whatever the timestamp: so the only step that can change the
/// target file is the final rename of the finished temporary, and a
/// failure before it leaves the original untouched.
pub proof fn lemma_sibling_names_fresh(name: Seq<char>, ts: Seq<char>)
    ensures
        spec_temp_name(name, ts) != name,
        spec_backup_name(name, ts) != name,
        spec_temp_name(name, ts) != spec_backup_name(name, ts),
{
    reveal_strlit(".");
    reveal_strlit(".tmp-");
    reveal_strlit(".backup-");
    assert(spec_temp_name(name, ts).len() == name.len() + 6 + ts.len());
    assert(spec_backup_name(name, ts).len() == name.len() + 9 + ts.len());
}

/// The full sibling paths differ from the full target path as well, for
/// any folder: joining with the same folder keeps distinct names distinct.
pub proof fn lemma_sibling_paths_fresh(folder: Seq<char>, name: Seq<char>, ts: Seq<char>)
    ensures
        folder + "/"@ + spec_temp_name(name, ts) != folder + "/"@ + name,
        folder + "/"@ + spec_backup_name(name, ts) != folder + "/"@ + name,
{
    reveal_strlit(".");
    reveal_strlit(".tmp-");
    reveal_strlit(".backup-");
    reveal_strlit("/");
    assert((folder + "/"@ + spec_temp_name(name, ts)).len() == folder.len() + 1 + name.len() + 6
        + ts.len());
    assert((folder + "/"@ + spec_backup_name(name, ts)).len() == folder.len() + 1 + name.len() + 9
        + ts.len());
    assert((folder + "/"@ + name).len() == folder.len() + 1 + name.len());
}

/// The timestamp token for sibling names, at second granularity.
///
/// Relies on `chrono::Local::now` and its `%Y%m%d%H%M%S` format: every
/// field is a zero-padded number, so the rendering is at least 14
/// characters, each a decimal digit or a sign that a far-out-of-range
/// year would carry. The value depends on the clock, so nothing further
/// is claimed of it.
#[verifier::external_body]
pub fn timestamp_token() -> (r: String)
    ensures
        r@.len() >= 14,
        forall|i: int|
            0 <= i < r@.len() ==> (('0' <= r@[i] && r@[i] <= '9') || r@[i] == '-' || r@[i] == '+'),
{
    format!("{}", chrono::Local::now().format("%Y%m%d%H%M%S"))
}

} // verus!

//! Arguments of the command-line diagnostics tool.

use vstd::prelude::*;
use crate::order::str_equal;

verus! {

/// The profile inspected when none is named.
pub const DEFAULT_PROFILE: &'static str = "product-zlzhg";

/// The command word that asks for a snapshot.
pub const SNAPSHOT_COMMAND: &'static str = "snapshot";

/// The error when only one of the two explicit paths is given.
pub const PATHS_TOGETHER: &'static str =
    "DIAGNOSTICS_ARGUMENTS: --core and --profile-path must be used together";

/// Whether `args[i]` is `name` with a value after it.
pub open spec fn names_at(args: Seq<Seq<char>>, name: Seq<char>, i: int) -> bool {
    0 <= i && i + 1 < args.len() && args[i] == name
}

/// The value of option `name`: the argument after its first occurrence that
/// has one.
pub open spec fn option_value(args: Seq<Seq<char>>, name: Seq<char>) -> Option<Seq<char>> {
    if exists|i: int| names_at(args, name, i) {
        let i = choose|i: int|
            names_at(args, name, i) && forall|j: int| 0 <= j < i ==> !names_at(args, name, j);
        Some(args[i + 1])
    } else {
        None
    }
}

/// The value that follows the first `name` among `args` (a `name` in last
/// place has none).
pub fn argument(args: &Vec<String>, name: &str) -> (res: Option<String>)
    ensures
        match res {
            Some(v) => option_value(args@.map_values(|a: String| a@), name@) == Some(v@),
            None => option_value(args@.map_values(|a: String| a@), name@) is None,
        },
{
    let ghost av = args@.map_values(|a: String| a@);
    let mut i: usize = 0;
    while i < args.len() && i + 1 < args.len()
        invariant
            i <= args.len(),
            av == args@.map_values(|a: String| a@),
            forall|j: int| 0 <= j < i ==> !names_at(av, name@, j),
        decreases args.len() - i,
    {
        if str_equal(args[i].as_str(), name) {
            proof {
                assert(names_at(av, name@, i as int));
                let k = choose|k: int|
                    names_at(av, name@, k) && forall|j: int| 0 <= j < k ==> !names_at(av, name@, j);
                if k < i {
                } else if k > i {
                    assert(!names_at(av, name@, i as int));
                }
            }
            return Some(args[i + 1].clone());
        }
        proof {
            assert(!names_at(av, name@, i as int));
        }
        i = i + 1;
    }
    proof {
        assert forall|j: int| !#[trigger] names_at(av, name@, j) by {
            if 0 <= j < i {
            }
        }
    }
    None
}

/// Where the snapshot is taken from.
#[derive(Debug, Clone, PartialEq, Eq)]
pub enum SnapshotSource {
    /// An explicit core directory and profile directory.
    Paths { core: String, profile_path: String },
    /// The shell's data directory, DSH's home and a profile name.
    Roots,
}

/// Choose the snapshot source: both explicit paths, or neither (then the
/// roots); one without the other is an error.
pub fn snapshot_source(core: Option<String>, profile_path: Option<String>) -> (res: Result<
    SnapshotSource,
    String,
>)
    ensures
        match (core, profile_path) {
            (Some(c), Some(p)) => res matches Ok(SnapshotSource::Paths { core, profile_path }) && core
                == c && profile_path == p,
            (None, None) => res == Ok::<SnapshotSource, String>(SnapshotSource::Roots),
            _ => res matches Err(e) && e@ == PATHS_TOGETHER@,
        },
{
    match (core, profile_path) {
        (Some(c), Some(p)) => Ok(SnapshotSource::Paths { core: c, profile_path: p }),
        (None, None) => Ok(SnapshotSource::Roots),
        _ => Err(String::from_str(PATHS_TOGETHER)),
    }
}

/// Whether the command line asks for a snapshot.
pub fn is_snapshot_command(args: &Vec<String>) -> (res: bool)
    ensures
        res == (args.len() > 0 && args@[0]@ == SNAPSHOT_COMMAND@),
{
    args.len() > 0 && str_equal(args[0].as_str(), SNAPSHOT_COMMAND)
}

} // verus!

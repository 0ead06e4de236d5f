//! Picking the input file out of the command-line arguments.
//!
//! The second argument must name a file with a `csv` extension: in its
//! final path component (after the last `/`) there must be a `.` that is
//! neither the component's first character nor missing, and the part after
//! the last such `.` must be exactly `csv`.

use vstd::prelude::*;
use vstd::string::StrSliceExecFns;

use crate::text::str_eq;

verus! {

/// Why the command-line arguments were rejected.
#[derive(Clone, Debug, PartialEq, Eq)]
pub enum EnvArgsParseError {
    /// Fewer than two arguments were given.
    ArgumentsTooShort,
    /// The named file does not end in a `csv` extension.
    ExpectedCsvFile { passed: String },
}

/// Index just after the last `/` of a path (zero when it has none): where
/// its final component starts.
pub open spec fn file_name_start(s: Seq<char>) -> int
    decreases s.len(),
{
    if s.len() == 0 {
        0
    } else if s.last() == '/' {
        s.len() as int
    } else {
        file_name_start(s.drop_last())
    }
}

/// Index of the last `.` of a name, or `-1` when it has none.
pub open spec fn last_dot_index(s: Seq<char>) -> int
    decreases s.len(),
{
    if s.len() == 0 {
        -1
    } else if s.last() == '.' {
        s.len() - 1
    } else {
        last_dot_index(s.drop_last())
    }
}

/// The extension of a path: what follows the last `.` of its final
/// component, provided that `.` is not the component's first character.
pub open spec fn extension(s: Seq<char>) -> Option<Seq<char>> {
    let name = s.skip(file_name_start(s));
    let j = last_dot_index(name);
    if j >= 1 {
        Some(name.skip(j + 1))
    } else {
        None
    }
}

/// Whether a path's extension is exactly `csv`.
pub open spec fn has_csv_extension(s: Seq<char>) -> bool {
    match extension(s) {
        Some(e) => e == "csv"@,
        None => false,
    }
}

proof fn lemma_file_name_start_at(s: Seq<char>, m: int)
    requires
        0 <= m <= s.len(),
        forall|k: int| m <= k < s.len() ==> s[k] != '/',
        m > 0 ==> s[m - 1] == '/',
    ensures
        file_name_start(s) == m,
    decreases s.len(),
{
    if s.len() > 0 && s.last() != '/' {
        lemma_file_name_start_at(s.drop_last(), m);
    }
}

proof fn lemma_last_dot_index_at(s: Seq<char>, j: int)
    requires
        -1 <= j < s.len(),
        forall|k: int| j < k < s.len() ==> s[k] != '.',
        j >= 0 ==> s[j] == '.',
    ensures
        last_dot_index(s) == j,
    decreases s.len(),
{
    if s.len() > 0 && s.last() != '.' {
        lemma_last_dot_index_at(s.drop_last(), j);
    }
}

/// Returns the file named by the second command-line argument, requiring
/// it to carry a `csv` extension.
#[verifier::loop_isolation(false)]
pub fn env_args_parse_file(args: Vec<String>) -> (r: Result<String, EnvArgsParseError>)
    ensures
        args@.len() < 2 ==> r == Err::<String, EnvArgsParseError>(
            EnvArgsParseError::ArgumentsTooShort,
        ),
        args@.len() >= 2 ==> match r {
            Ok(f) => f@ == args@[1]@ && has_csv_extension(args@[1]@),
            Err(e) => {
                &&& !has_csv_extension(args@[1]@)
                &&& e matches EnvArgsParseError::ExpectedCsvFile { passed } && passed@ == args@[1]@
            },
        },
{
    if args.len() < 2 {
        return Err(EnvArgsParseError::ArgumentsTooShort);
    }
    let file_arg: &String = &args[1];
    let path = file_arg.as_str();
    let n = path.unicode_len();

    // where the final path component begins
    let mut name_start: usize = n;
    while name_start > 0 && path.get_char(name_start - 1) != '/'
        invariant
            name_start <= n,
            forall|k: int| name_start <= k < n ==> path@[k] != '/',
        decreases name_start,
    {
        name_start = name_start - 1;
    }
    proof {
        lemma_file_name_start_at(path@, name_start as int);
    }
    let ghost name = path@.skip(name_start as int);

    // where the last point of that component sits (at `dot_end - 1`)
    let mut dot_end: usize = n;
    while dot_end > name_start && path.get_char(dot_end - 1) != '.'
        invariant
            name_start <= dot_end <= n,
            forall|k: int| dot_end <= k < n ==> path@[k] != '.',
        decreases dot_end,
    {
        dot_end = dot_end - 1;
    }
    proof {
        assert forall|k: int|
            (dot_end - name_start) - 1 < k < name.len() implies name[k] != '.' by {
            assert(name[k] == path@[k + name_start]);
        }
        if dot_end > name_start {
            assert(name[dot_end - name_start - 1] == path@[dot_end - 1]);
        }
        lemma_last_dot_index_at(name, dot_end - name_start as int - 1);
    }

    if dot_end > name_start && dot_end - 1 > name_start {
        // the component has a point that is not its first character
        let ext = path.substring_char(dot_end, n);
        proof {
            assert(ext@ =~= name.skip(dot_end - name_start as int));
        }
        if str_eq(ext, "csv") {
            return Ok(file_arg.clone());
        }
    }
    Err(EnvArgsParseError::ExpectedCsvFile { passed: file_arg.clone() })
}

} // verus!

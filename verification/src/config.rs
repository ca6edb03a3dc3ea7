//! Storage locations and sequence-number allocation.
//!
//! The playground root lives under the user's home directory; each project
//! category has a subdirectory of its own. Auto-named projects carry a
//! zero-padded three-digit sequence number prefix (`pNNN_`); the next free
//! number is `max(existing numbers) + 1`, starting at 1 when no entry
//! carries a number.

use vstd::prelude::*;
use vstd::string::*;

use crate::errors::RpError;

verus! {

/// The two project categories. The category decides the storage
/// subdirectory and whether the bulk cleanup command may delete a project.
#[derive(Debug, Clone, Copy, PartialEq, Eq, Structural)]
pub enum ProjectType {
    /// Practice project: stored under `temp`, removed by cleanup.
    Temp,
    /// Permanent project: stored under `keep`, never removed in bulk.
    Keep,
}

/// The directory name a category uses, as a sequence of characters.
pub open spec fn spec_dir_name(t: ProjectType) -> Seq<char> {
    match t {
        ProjectType::Temp => "temp"@,
        ProjectType::Keep => "keep"@,
    }
}

impl ProjectType {
    /// The name of the subdirectory that stores this category's projects.
    pub fn dir_name(&self) -> (r: &'static str)
        ensures
            r@ == spec_dir_name(*self),
    {
        match self {
            ProjectType::Temp => "temp",
            ProjectType::Keep => "keep",
        }
    }
}

/// The playground root under a given home directory.
pub open spec fn spec_playground_dir(home: Seq<char>) -> Seq<char> {
    home + "/rust-playground"@
}

/// The directory of one category under a given playground root.
pub open spec fn spec_category_dir(root: Seq<char>, t: ProjectType) -> Seq<char> {
    root + "/"@ + spec_dir_name(t)
}

/// Relies on `dirs::home_dir` for the location of the user's home
/// directory, if the system knows one. The result depends on the
/// environment, so nothing is promised of it.
#[verifier::external_body]
fn home_dir_string() -> Option<String> {
    dirs::home_dir().map(|p| p.to_string_lossy().into_owned())
}

/// Appends the playground directory name to a home directory path.
pub fn playground_dir_of(home: &str) -> (r: String)
    ensures
        r@ == spec_playground_dir(home@),
{
    let mut s = home.to_owned();
    s.append("/rust-playground");
    s
}

/// Appends a category's directory name to a playground root path.
pub fn category_dir_of(root: &str, project_type: ProjectType) -> (r: String)
    ensures
        r@ == spec_category_dir(root@, project_type),
{
    let mut s = root.to_owned();
    s.append("/");
    s.append(project_type.dir_name());
    s
}

/// The playground root directory, or an environment error when no home
/// directory can be determined.
pub fn get_playground_dir() -> (r: Result<String, RpError>)
    ensures
        r matches Ok(p) ==> exists|home: Seq<char>| p@ == #[trigger] spec_playground_dir(home),
        r matches Err(e) ==> e == RpError::Environment,
{
    match home_dir_string() {
        Some(h) => {
            let p = playground_dir_of(h.as_str());
            proof {
                assert(p@ == spec_playground_dir(h@));
            }
            Ok(p)
        },
        None => Err(RpError::Environment),
    }
}

/// The directory of one category, or an environment error when no home
/// directory can be determined.
pub fn get_project_type_dir(project_type: ProjectType) -> (r: Result<String, RpError>)
    ensures
        r matches Ok(p) ==> exists|home: Seq<char>|
            p@ == #[trigger] spec_category_dir(spec_playground_dir(home), project_type),
        r matches Err(e) ==> e == RpError::Environment,
{
    match get_playground_dir() {
        Ok(root) => {
            let p = category_dir_of(root.as_str(), project_type);
            Ok(p)
        },
        Err(e) => Err(e),
    }
}

/// Whether `c` is a decimal digit.
pub open spec fn is_digit(c: char) -> bool {
    '0' as u32 <= c as u32 <= '9' as u32
}

/// The numeric value of a decimal digit character.
pub open spec fn digit_val(c: char) -> int {
    c as u32 - '0' as u32
}

/// Whether a directory entry name carries a sequence number: it starts
/// with `p` followed by three decimal digits and is at least four
/// characters long.
pub open spec fn is_indexed_name(n: Seq<char>) -> bool {
    n.len() >= 4 && n[0] == 'p' && is_digit(n[1]) && is_digit(n[2]) && is_digit(n[3])
}

/// The sequence number carried by an indexed entry name.
pub open spec fn name_index(n: Seq<char>) -> int
    recommends
        is_indexed_name(n),
{
    100 * digit_val(n[1]) + 10 * digit_val(n[2]) + digit_val(n[3])
}

/// The largest sequence number among a directory's entry names; 0 when no
/// entry carries one.
pub open spec fn max_index(names: Seq<Seq<char>>) -> int
    decreases names.len(),
{
    if names.len() == 0 {
        0
    } else {
        let rest = max_index(names.drop_last());
        let last = names.last();
        if is_indexed_name(last) && name_index(last) > rest {
            name_index(last)
        } else {
            rest
        }
    }
}

/// The next free sequence number: one more than the largest in use.
pub open spec fn spec_next_index(names: Seq<Seq<char>>) -> int {
    max_index(names) + 1
}

/// The largest sequence number a three-digit prefix can carry.
pub proof fn lemma_max_index_bound(names: Seq<Seq<char>>)
    ensures
        0 <= max_index(names) <= 999,
    decreases names.len(),
{
    if names.len() != 0 {
        lemma_max_index_bound(names.drop_last());
    }
}

/// The largest sequence number is at least any number in use.
pub proof fn lemma_max_index_ge(names: Seq<Seq<char>>, k: int)
    requires
        0 <= k < names.len(),
        is_indexed_name(names[k]),
    ensures
        max_index(names) >= name_index(names[k]),
    decreases names.len(),
{
    if k < names.len() - 1 {
        lemma_max_index_ge(names.drop_last(), k);
        assert(names.drop_last()[k] == names[k]);
    }
}

/// The largest sequence number does not exceed a bound that every number
/// in use respects.
pub proof fn lemma_max_index_le(names: Seq<Seq<char>>, n: int)
    requires
        0 <= n,
        forall|k: int|
            0 <= k < names.len() && is_indexed_name(#[trigger] names[k]) ==> name_index(names[k])
                <= n,
    ensures
        max_index(names) <= n,
    decreases names.len(),
{
    if names.len() != 0 {
        assert forall|k: int|
            0 <= k < names.drop_last().len() && is_indexed_name(
                #[trigger] names.drop_last()[k],
            ) implies name_index(names.drop_last()[k]) <= n by {
            assert(names.drop_last()[k] == names[k]);
        }
        lemma_max_index_le(names.drop_last(), n);
        assert(names.last() == names[names.len() - 1]);
    }
}

/// A directory whose numbered entries run up to `n` — every numbered
/// entry carries a number of at most `n`, at least one carries exactly
/// `n`, and any other entries carry no number at all — allocates `n + 1`
/// next, whatever order the entries were listed in.
pub proof fn lemma_next_index_complete_run(names: Seq<Seq<char>>, n: int)
    requires
        0 <= n <= 999,
        exists|k: int|
            0 <= k < names.len() && is_indexed_name(#[trigger] names[k]) && name_index(names[k])
                == n,
        forall|k: int|
            0 <= k < names.len() && is_indexed_name(#[trigger] names[k]) ==> name_index(names[k])
                <= n,
    ensures
        spec_next_index(names) == n + 1,
{
    let k = choose|k: int|
        0 <= k < names.len() && is_indexed_name(#[trigger] names[k]) && name_index(names[k]) == n;
    lemma_max_index_ge(names, k);
    lemma_max_index_le(names, n);
}

/// Reads the sequence number of one directory entry name, if it carries
/// one.
fn name_sequence_index(name: &str) -> (r: Option<u32>)
    ensures
        match r {
            Some(v) => is_indexed_name(name@) && v == name_index(name@),
            None => !is_indexed_name(name@),
        },
{
    if name.unicode_len() < 4 {
        return None;
    }
    if name.get_char(0) != 'p' {
        return None;
    }
    let c1 = name.get_char(1);
    let c2 = name.get_char(2);
    let c3 = name.get_char(3);
    let zero = '0' as u32;
    if (c1 as u32) < zero || (c1 as u32) > '9' as u32 {
        return None;
    }
    if (c2 as u32) < zero || (c2 as u32) > '9' as u32 {
        return None;
    }
    if (c3 as u32) < zero || (c3 as u32) > '9' as u32 {
        return None;
    }
    Some(100 * (c1 as u32 - zero) + 10 * (c2 as u32 - zero) + (c3 as u32 - zero))
}

/// The next free sequence number for a directory with the given entry
/// names. A missing directory is an empty listing, so it yields 1; entry
/// names that do not carry a number are skipped.
pub fn get_next_index(names: &Vec<String>) -> (i: u32)
    ensures
        i == spec_next_index(names.deep_view()),
        1 <= i <= 1000,
        names@.len() == 0 ==> i == 1,
{
    let ghost dv = names.deep_view();
    proof {
        assert(dv.len() == names@.len());
    }
    let mut mx: u32 = 0;
    let mut t: usize = 0;
    while t < names.len()
        invariant
            dv == names.deep_view(),
            dv.len() == names@.len(),
            0 <= t <= names@.len(),
            mx == max_index(dv.take(t as int)),
            0 <= mx <= 999,
        decreases names@.len() - t,
    {
        proof {
            assert(dv[t as int] == names@[t as int]@);
            assert(dv.take(t + 1).drop_last() =~= dv.take(t as int));
            assert(dv.take(t + 1).last() == dv[t as int]);
            lemma_max_index_bound(dv.take(t + 1));
        }
        match name_sequence_index(names[t].as_str()) {
            Some(v) => {
                if v > mx {
                    mx = v;
                }
            },
            None => {},
        }
        t = t + 1;
    }
    proof {
        assert(dv.take(dv.len() as int) =~= dv);
    }
    mx + 1
}

} // verus!

//! The project registry: the directory listing itself is the record of
//! which projects exist. This module derives names for new projects,
//! enumerates existing ones in sorted order, and filters them by
//! substring.

use vstd::prelude::*;
use vstd::string::*;

use crate::config::{
    get_next_index, is_indexed_name, name_index, spec_next_index, ProjectType,
};
use crate::text::{
    contains_seq, lex_leq, lemma_lex_leq_refl, lemma_lex_leq_total, lemma_lex_leq_trans,
    str_contains, str_le,
};

verus! {

/// One direct child of a category directory, as the caller read it from
/// the filesystem: its name and whether it is a directory.
pub struct FsEntry {
    pub name: String,
    pub is_dir: bool,
}

/// One project: the literal directory name and the category it was found
/// in.
pub struct ProjectInfo {
    pub name: String,
    pub project_type: ProjectType,
}

/// The mathematical model of a project: its name as a character sequence
/// and its category.
pub ghost struct ProjectModel {
    pub name: Seq<char>,
    pub project_type: ProjectType,
}

impl View for ProjectInfo {
    type V = ProjectModel;

    open spec fn view(&self) -> ProjectModel {
        ProjectModel { name: self.name@, project_type: self.project_type }
    }
}

/// The models of a sequence of projects.
pub open spec fn models(s: Seq<ProjectInfo>) -> Seq<ProjectModel> {
    s.map_values(|e: ProjectInfo| e@)
}

/// The names of the entries of a directory listing that are themselves
/// directories, in listing order.
pub open spec fn spec_dir_names(entries: Seq<FsEntry>) -> Seq<Seq<char>>
    decreases entries.len(),
{
    if entries.len() == 0 {
        Seq::empty()
    } else {
        let rest = spec_dir_names(entries.drop_last());
        if entries.last().is_dir {
            rest.push(entries.last().name@)
        } else {
            rest
        }
    }
}

/// The names stand in ascending lexicographic order.
pub open spec fn sorted_names(s: Seq<Seq<char>>) -> bool {
    forall|i: int, j: int| 0 <= i < j < s.len() ==> lex_leq(#[trigger] s[i], #[trigger] s[j])
}

/// Sorts names in ascending lexicographic order, keeping every name
/// exactly as often as it came in.
pub fn sort_names(names: Vec<String>) -> (r: Vec<String>)
    ensures
        sorted_names(r.deep_view()),
        r.deep_view().to_multiset() == names.deep_view().to_multiset(),
{
    let ghost orig = names.deep_view();
    let mut v = names;
    let mut out: Vec<String> = Vec::new();
    proof {
        assert(out.deep_view() =~= Seq::<Seq<char>>::empty());
        out.deep_view().to_multiset_ensures();
        v.deep_view().to_multiset_ensures();
        assert(out.deep_view().to_multiset().add(v.deep_view().to_multiset()) =~= orig.to_multiset());
    }
    while v.len() > 0
        invariant
            out.deep_view().to_multiset().add(v.deep_view().to_multiset()) == orig.to_multiset(),
            sorted_names(out.deep_view()),
            forall|x: int, y: int|
                0 <= x < out.deep_view().len() && 0 <= y < v.deep_view().len() ==> lex_leq(
                    #[trigger] out.deep_view()[x],
                    #[trigger] v.deep_view()[y],
                ),
        decreases v.len(),
    {
        let m = min_name_at(&v);
        let ghost old_v = v.deep_view();
        let ghost old_out = out.deep_view();
        let s = v.remove(m);
        proof {
            assert(v.deep_view() =~= old_v.remove(m as int));
            old_v.to_multiset_ensures();
        }
        out.push(s);
        proof {
            assert(out.deep_view() =~= old_out.push(old_v[m as int]));
            old_out.to_multiset_ensures();
            assert(out.deep_view().to_multiset().add(v.deep_view().to_multiset()) =~= orig.to_multiset());
        }
    }
    proof {
        assert(v.deep_view() =~= Seq::<Seq<char>>::empty());
        v.deep_view().to_multiset_ensures();
        assert(out.deep_view().to_multiset() =~= orig.to_multiset());
    }
    out
}

/// The position of a lexicographically least name.
fn min_name_at(v: &Vec<String>) -> (m: usize)
    requires
        v@.len() > 0,
    ensures
        0 <= m < v@.len(),
        forall|k: int|
            0 <= k < v.deep_view().len() ==> lex_leq(v.deep_view()[m as int], #[trigger] v.deep_view()[k]),
{
    let mut m: usize = 0;
    let mut j: usize = 1;
    proof {
        lemma_lex_leq_refl(v.deep_view()[0]);
    }
    while j < v.len()
        invariant
            0 <= m < j <= v@.len(),
            v@.len() == v.deep_view().len(),
            forall|k: int|
                0 <= k < j ==> lex_leq(v.deep_view()[m as int], #[trigger] v.deep_view()[k]),
        decreases v@.len() - j,
    {
        if str_le(v[j].as_str(), v[m].as_str()) {
            proof {
                assert forall|k: int| 0 <= k < j implies lex_leq(
                    v.deep_view()[j as int],
                    #[trigger] v.deep_view()[k],
                ) by {
                    lemma_lex_leq_trans(v.deep_view()[j as int], v.deep_view()[m as int], v.deep_view()[k]);
                }
                lemma_lex_leq_refl(v.deep_view()[j as int]);
            }
            m = j;
        } else {
            proof {
                lemma_lex_leq_total(v.deep_view()[m as int], v.deep_view()[j as int]);
            }
        }
        j = j + 1;
    }
    m
}

/// The sorted names of the directories among a category directory's
/// entries. A missing directory is an empty listing, so it yields an
/// empty sequence; entries that are not directories are excluded.
pub fn list_category(entries: &Vec<FsEntry>) -> (r: Vec<String>)
    ensures
        sorted_names(r.deep_view()),
        r.deep_view().to_multiset() == spec_dir_names(entries@).to_multiset(),
{
    let mut names: Vec<String> = Vec::new();
    let mut i: usize = 0;
    proof {
        assert(names.deep_view() =~= spec_dir_names(entries@.take(0)));
    }
    while i < entries.len()
        invariant
            0 <= i <= entries@.len(),
            names.deep_view() == spec_dir_names(entries@.take(i as int)),
        decreases entries@.len() - i,
    {
        let ghost old_names = names.deep_view();
        if entries[i].is_dir {
            let n = entries[i].name.clone();
            names.push(n);
            proof {
                assert(names.deep_view() =~= old_names.push(entries@[i as int].name@));
            }
        }
        proof {
            assert(entries@.take(i + 1).drop_last() =~= entries@.take(i as int));
            assert(entries@.take(i + 1).last() == entries@[i as int]);
            assert(names.deep_view() =~= spec_dir_names(entries@.take(i + 1)));
        }
        i = i + 1;
    }
    proof {
        assert(entries@.take(entries@.len() as int) =~= entries@);
    }
    sort_names(names)
}

/// The projects whose names contain the keyword, in their original
/// order. The empty keyword keeps every project.
pub open spec fn spec_filter_entries(s: Seq<ProjectModel>, k: Seq<char>) -> Seq<ProjectModel>
    decreases s.len(),
{
    if s.len() == 0 {
        Seq::empty()
    } else {
        let rest = spec_filter_entries(s.drop_last(), k);
        if contains_seq(s.last().name, k) {
            rest.push(s.last())
        } else {
            rest
        }
    }
}

/// Keeps the projects whose names contain `keyword` as a substring
/// (case-sensitive), preserving their order. The empty keyword keeps
/// everything.
pub fn filter(entries: &Vec<ProjectInfo>, keyword: &str) -> (r: Vec<ProjectInfo>)
    ensures
        models(r@) == spec_filter_entries(models(entries@), keyword@),
{
    let mut r: Vec<ProjectInfo> = Vec::new();
    let mut i: usize = 0;
    proof {
        assert(models(r@) =~= spec_filter_entries(models(entries@.take(0)), keyword@));
    }
    while i < entries.len()
        invariant
            0 <= i <= entries@.len(),
            models(r@) == spec_filter_entries(models(entries@.take(i as int)), keyword@),
        decreases entries@.len() - i,
    {
        let ghost old_models = models(r@);
        if str_contains(entries[i].name.as_str(), keyword) {
            let e = ProjectInfo {
                name: entries[i].name.clone(),
                project_type: entries[i].project_type,
            };
            r.push(e);
            proof {
                assert(models(r@) =~= old_models.push(entries@[i as int]@));
            }
        }
        proof {
            assert(models(entries@.take(i + 1)).drop_last() =~= models(entries@.take(i as int)));
            assert(models(entries@.take(i + 1)).last() == entries@[i as int]@);
            assert(models(r@) =~= spec_filter_entries(models(entries@.take(i + 1)), keyword@));
        }
        i = i + 1;
    }
    proof {
        assert(entries@.take(entries@.len() as int) =~= entries@);
    }
    r
}

/// Filtering with the empty keyword returns the entries unchanged, in
/// their original order.
pub proof fn lemma_filter_empty_keyword(s: Seq<ProjectModel>, k: Seq<char>)
    requires
        k.len() == 0,
    ensures
        spec_filter_entries(s, k) == s,
    decreases s.len(),
{
    if s.len() != 0 {
        lemma_filter_empty_keyword(s.drop_last(), k);
        assert(s.last().name.subrange(0, 0 + k.len() as int) =~= k);
        assert(contains_seq(s.last().name, k));
        assert(spec_filter_entries(s, k) =~= s.drop_last().push(s.last()));
        assert(s.drop_last().push(s.last()) =~= s);
    }
}

/// Gathers every project of both categories: the temporary ones first,
/// then the kept ones, each group in ascending name order. The two
/// arguments are the raw directory listings of the two category
/// directories; entries that are not directories are excluded.
pub fn collect_projects(temp_entries: &Vec<FsEntry>, keep_entries: &Vec<FsEntry>) -> (r: Vec<
    ProjectInfo,
>)
    ensures
        ({
            let tn = spec_dir_names(temp_entries@);
            let kn = spec_dir_names(keep_entries@);
            let ms = models(r@);
            let names = ms.map_values(|m: ProjectModel| m.name);
            &&& ms.len() == tn.len() + kn.len()
            &&& forall|i: int|
                0 <= i < tn.len() ==> (#[trigger] ms[i]).project_type == ProjectType::Temp
            &&& forall|i: int|
                tn.len() <= i < ms.len() ==> (#[trigger] ms[i]).project_type == ProjectType::Keep
            &&& sorted_names(names.take(tn.len() as int))
            &&& sorted_names(names.skip(tn.len() as int))
            &&& names.take(tn.len() as int).to_multiset() == tn.to_multiset()
            &&& names.skip(tn.len() as int).to_multiset() == kn.to_multiset()
        }),
{
    let t_names = list_category(temp_entries);
    let k_names = list_category(keep_entries);
    let mut r: Vec<ProjectInfo> = Vec::new();
    let ghost tdv = t_names.deep_view();
    let ghost kdv = k_names.deep_view();
    proof {
        tdv.to_multiset_ensures();
        spec_dir_names(temp_entries@).to_multiset_ensures();
        kdv.to_multiset_ensures();
        spec_dir_names(keep_entries@).to_multiset_ensures();
    }
    let mut i: usize = 0;
    while i < t_names.len()
        invariant
            0 <= i <= t_names@.len(),
            tdv == t_names.deep_view(),
            t_names@.len() == tdv.len(),
            models(r@).len() == i,
            forall|x: int|
                0 <= x < i ==> (#[trigger] models(r@)[x]) == (ProjectModel {
                    name: tdv[x],
                    project_type: ProjectType::Temp,
                }),
        decreases t_names@.len() - i,
    {
        let ghost old_ms = models(r@);
        let e = ProjectInfo { name: t_names[i].clone(), project_type: ProjectType::Temp };
        proof {
            assert(e@.name == tdv[i as int]);
        }
        r.push(e);
        proof {
            assert(models(r@) =~= old_ms.push(e@));
        }
        i = i + 1;
    }
    let mut j: usize = 0;
    while j < k_names.len()
        invariant
            0 <= j <= k_names@.len(),
            tdv == t_names.deep_view(),
            kdv == k_names.deep_view(),
            t_names@.len() == tdv.len(),
            k_names@.len() == kdv.len(),
            models(r@).len() == tdv.len() + j,
            forall|x: int|
                0 <= x < tdv.len() ==> (#[trigger] models(r@)[x]) == (ProjectModel {
                    name: tdv[x],
                    project_type: ProjectType::Temp,
                }),
            forall|x: int|
                tdv.len() <= x < tdv.len() + j ==> (#[trigger] models(r@)[x]) == (ProjectModel {
                    name: kdv[x - tdv.len()],
                    project_type: ProjectType::Keep,
                }),
        decreases k_names@.len() - j,
    {
        let ghost old_ms = models(r@);
        let e = ProjectInfo { name: k_names[j].clone(), project_type: ProjectType::Keep };
        proof {
            assert(e@.name == kdv[j as int]);
        }
        r.push(e);
        proof {
            assert(models(r@) =~= old_ms.push(e@));
        }
        j = j + 1;
    }
    proof {
        let ms = models(r@);
        let names = ms.map_values(|m: ProjectModel| m.name);
        assert(names.take(tdv.len() as int) =~= tdv);
        assert(names.skip(tdv.len() as int) =~= kdv);
    }
    r
}

/// Relies on chrono's local clock and datetime formatting for a sortable
/// local timestamp with second resolution (`YYYYMMDD_HHMMSS`). The result
/// depends on the clock, so nothing is promised of it.
#[verifier::external_body]
fn now_timestamp() -> String {
    chrono::Local::now().format("%Y%m%d_%H%M%S").to_string()
}

/// A one-character string for a decimal digit.
fn digit_str(d: u32) -> (r: &'static str)
    requires
        d <= 9,
    ensures
        r@.len() == 1,
        r@[0] as u32 == '0' as u32 + d,
{
    let r: &'static str = match d {
        0 => "0",
        1 => "1",
        2 => "2",
        3 => "3",
        4 => "4",
        5 => "5",
        6 => "6",
        7 => "7",
        8 => "8",
        _ => "9",
    };
    proof {
        reveal_strlit("0");
        reveal_strlit("1");
        reveal_strlit("2");
        reveal_strlit("3");
        reveal_strlit("4");
        reveal_strlit("5");
        reveal_strlit("6");
        reveal_strlit("7");
        reveal_strlit("8");
        reveal_strlit("9");
    }
    r
}

/// `r` is the name `p{i:03}_{suffix}`: the letter `p`, the sequence
/// number `i` zero-padded to three digits, a separating underscore, and
/// the suffix. A number of 1000 — one past the largest three-digit
/// number — widens the prefix to four digits, as zero-padded formatting
/// does.
pub open spec fn is_numbered_name(r: Seq<char>, i: int, suffix: Seq<char>) -> bool {
    if i <= 999 {
        &&& r.len() == 5 + suffix.len()
        &&& is_indexed_name(r)
        &&& name_index(r) == i
        &&& r[4] == '_'
        &&& r.subrange(5, r.len() as int) == suffix
    } else {
        r == "p1000_"@ + suffix
    }
}

/// Builds the name `p{index:03}_{suffix}`.
fn format_indexed_name(index: u32, suffix: &str) -> (r: String)
    requires
        1 <= index <= 1000,
    ensures
        is_numbered_name(r@, index as int, suffix@),
{
    if index == 1000 {
        let mut s = "p1000_".to_owned();
        s.append(suffix);
        return s;
    }
    let d1 = index / 100;
    let d2 = (index / 10) % 10;
    let d3 = index % 10;
    let mut s = "p".to_owned();
    s.append(digit_str(d1));
    s.append(digit_str(d2));
    s.append(digit_str(d3));
    s.append("_");
    s.append(suffix);
    proof {
        reveal_strlit("p");
        reveal_strlit("_");
        assert(s@.len() == 5 + suffix@.len());
        assert(s@[0] == 'p');
        assert(s@[1] as u32 == '0' as u32 + d1);
        assert(s@[2] as u32 == '0' as u32 + d2);
        assert(s@[3] as u32 == '0' as u32 + d3);
        assert(s@[4] == '_');
        assert(s@.subrange(5, s@.len() as int) =~= suffix@);
        assert(100 * d1 + 10 * d2 + d3 == index);
        assert(name_index(s@) == index);
    }
    s
}

/// Derives the name for a new project.
///
/// A kept project uses the caller's name verbatim, whatever the directory
/// already holds. A temporary project gets the next free sequence number
/// as a `pNNN_` prefix, before the caller's name when one was given and
/// before a timestamp from the local clock otherwise. `existing` holds
/// the names of the entries already in the target directory.
pub fn generate_project_name(name: Option<String>, existing: &Vec<String>, keep: bool) -> (r:
    String)
    requires
        keep ==> name is Some,
    ensures
        keep ==> (name matches Some(n) && r@ == n@),
        !keep ==> match name {
            Some(n) => is_numbered_name(r@, spec_next_index(existing.deep_view()), n@),
            None => exists|ts: Seq<char>|
                #[trigger] is_numbered_name(r@, spec_next_index(existing.deep_view()), ts),
        },
{
    match name {
        Some(n) => {
            if keep {
                n
            } else {
                let i = get_next_index(existing);
                format_indexed_name(i, n.as_str())
            }
        },
        None => {
            let i = get_next_index(existing);
            let ts = now_timestamp();
            let r = format_indexed_name(i, ts.as_str());
            proof {
                assert(is_numbered_name(r@, spec_next_index(existing.deep_view()), ts@));
            }
            r
        },
    }
}

/// Sequence numbers strictly increase across creations: once a generated
/// name with the next free number is added to the directory, the next
/// free number afterwards is one greater. This needs the new number to
/// still fit in three digits: a directory already holding a `p999` entry
/// produces a four-digit prefix that the three-digit scan does not read
/// back.
pub proof fn lemma_generated_indices_increase(
    names: Seq<Seq<char>>,
    created: Seq<char>,
    suffix: Seq<char>,
)
    requires
        spec_next_index(names) <= 999,
        is_numbered_name(created, spec_next_index(names), suffix),
    ensures
        spec_next_index(names.push(created)) == spec_next_index(names) + 1,
{
    assert(names.push(created).drop_last() =~= names);
    assert(names.push(created).last() == created);
}

} // verus!

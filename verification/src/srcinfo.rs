//! The build-manifest dependency extractor: collect the dependency
//! declarations of one manifest, and combine several manifests into one
//! sorted, deduplicated target list.

use vstd::prelude::*;
use vstd::string::*;
use crate::strutil::{
    trim, trim_spec, str_eq, str_cmp, lex_cmp, first_occ, find_char_from, split_lines,
    split_lines_spec, lemma_first_occ_none, lemma_first_occ_unique,
};

verus! {

/// The value a manifest line contributes: for `key = value` lines whose key
/// is a dependency key, the first `=` splits the line and the whole trimmed
/// remainder is the value; nothing otherwise.
pub open spec fn dep_line_value(line: Seq<char>) -> Option<Seq<char>> {
    match first_occ(line, '=') {
        None => None,
        Some(i) => {
            let key = trim_spec(line.take(i as int));
            if key == "depends"@ || key == "checkdepends"@ || key == "makedepends"@ {
                Some(trim_spec(line.skip(i as int + 1)))
            } else {
                None
            }
        },
    }
}

/// The dependency values of a manifest's lines, in order.
pub open spec fn srcinfo_deps(lines: Seq<Seq<char>>) -> Seq<Seq<char>>
    decreases lines.len(),
{
    if lines.len() == 0 {
        Seq::empty()
    } else {
        srcinfo_deps(lines.drop_last()) + (match dep_line_value(lines.last()) {
            Some(v) => seq![v],
            None => Seq::<Seq<char>>::empty(),
        })
    }
}

/// Collect the dependency declarations of one manifest, line by line.
pub fn get_dependencies_from_srcinfo(contents: &str) -> (r: Vec<String>)
    ensures
        r.deep_view() == srcinfo_deps(split_lines_spec(contents@)),
{
    let lines = split_lines(contents);
    let ghost lv = lines.deep_view();
    let mut deps: Vec<String> = Vec::new();
    let n = lines.len();
    let mut i: usize = 0;
    proof {
        assert(lv.take(0) =~= Seq::<Seq<char>>::empty());
        assert(deps.deep_view() =~= srcinfo_deps(lv.take(0)));
        assert(lv.len() == lines@.len());
    }
    while i < n
        invariant
            n == lines@.len(),
            lv == lines.deep_view(),
            lv.len() == n,
            0 <= i <= n,
            deps.deep_view() == srcinfo_deps(lv.take(i as int)),
        decreases n - i,
    {
        proof {
            assert(lv.take(i + 1).drop_last() =~= lv.take(i as int));
            assert(lv.take(i + 1).last() == lv[i as int]);
            assert(lv[i as int] == lines@[i as int]@);
        }
        let line = lines[i].as_str();
        let nl = line.unicode_len();
        let ghost sline = lv[i as int];
        let ghost prev = deps.deep_view();
        match find_char_from(line, 0, '=') {
            None => {
                proof {
                    lemma_first_occ_none(sline, '=');
                    assert(deps.deep_view() =~= srcinfo_deps(lv.take(i + 1)));
                }
            },
            Some(e1) => {
                proof {
                    lemma_first_occ_unique(sline, '=', e1 as nat);
                }
                let key = trim(line.substring_char(0, e1));
                proof {
                    assert(sline.take(e1 as int) =~= sline.subrange(0, e1 as int));
                }
                if str_eq(key, "depends") || str_eq(key, "checkdepends") || str_eq(
                    key,
                    "makedepends",
                ) {
                    proof {
                        assert(sline.skip(e1 as int + 1) =~= sline.subrange(
                            e1 as int + 1,
                            nl as int,
                        ));
                    }
                    let val = trim(line.substring_char(e1 + 1, nl));
                    deps.push(String::from_str(val));
                    proof {
                        assert(deps.deep_view() =~= prev.push(val@));
                        assert(prev.push(val@) =~= prev + seq![val@]);
                        assert(deps.deep_view() =~= srcinfo_deps(lv.take(i + 1)));
                    }
                } else {
                    proof {
                        assert(deps.deep_view() =~= srcinfo_deps(lv.take(i + 1)));
                    }
                }
            },
        }
        i = i + 1;
    }
    proof {
        assert(lv.take(n as int) =~= lv);
    }
    deps
}

// ---------------------------------------------------------------------------
// Target lists: truncate, sort, deduplicate
// ---------------------------------------------------------------------------

/// Length of the prefix of `s` before its first `<` or `>`.
pub open spec fn constraint_pos(s: Seq<char>) -> nat
    decreases s.len(),
{
    if s.len() == 0 {
        0
    } else if s[0] == '<' || s[0] == '>' {
        0
    } else {
        1 + constraint_pos(s.drop_first())
    }
}

/// `s` with any version-constraint suffix (`<`/`>` and what follows)
/// dropped.  A value that begins with a constraint becomes empty.
pub open spec fn cut_constraint(s: Seq<char>) -> Seq<char> {
    s.take(constraint_pos(s) as int)
}

proof fn lemma_constraint_pos(s: Seq<char>)
    ensures
        constraint_pos(s) <= s.len(),
        forall|j: int| 0 <= j < constraint_pos(s) ==> s[j] != '<' && s[j] != '>',
        constraint_pos(s) < s.len() ==> (s[constraint_pos(s) as int] == '<' || s[constraint_pos(
            s,
        ) as int] == '>'),
    decreases s.len(),
{
    if s.len() > 0 && !(s[0] == '<' || s[0] == '>') {
        lemma_constraint_pos(s.drop_first());
        assert(forall|j: int| 0 < j < s.len() ==> #[trigger] s[j] == s.drop_first()[j - 1]);
    }
}

/// Drop the version-constraint suffix of one dependency value.
pub fn cut_dep(s: &str) -> (r: &str)
    ensures
        r@ == cut_constraint(s@),
{
    let n = s.unicode_len();
    let mut i: usize = 0;
    while i < n && s.get_char(i) != '<' && s.get_char(i) != '>'
        invariant
            n == s@.len(),
            0 <= i <= n,
            forall|j: int| 0 <= j < i ==> s@[j] != '<' && s@[j] != '>',
        decreases n - i,
    {
        i = i + 1;
    }
    proof {
        lemma_constraint_pos(s@);
        assert(s@.take(constraint_pos(s@) as int) =~= s@.subrange(0, i as int));
    }
    s.substring_char(0, i)
}

/// The truncated dependency values of several manifests, concatenated in
/// order.
pub open spec fn files_deps(files: Seq<Seq<char>>) -> Seq<Seq<char>>
    decreases files.len(),
{
    if files.len() == 0 {
        Seq::empty()
    } else {
        files_deps(files.drop_last()) + srcinfo_deps(split_lines_spec(files.last())).map_values(
            |d: Seq<char>| cut_constraint(d),
        )
    }
}

/// Whether `a` sorts at or before `b`.
pub open spec fn str_le(a: Seq<char>, b: Seq<char>) -> bool {
    lex_cmp(a, b) != core::cmp::Ordering::Greater
}

/// `x` inserted into `s` behind every entry at or before it.
pub open spec fn insert_str(x: Seq<char>, s: Seq<Seq<char>>) -> Seq<Seq<char>>
    decreases s.len(),
{
    if s.len() == 0 {
        seq![x]
    } else if str_le(s.last(), x) {
        s.push(x)
    } else {
        insert_str(x, s.drop_last()).push(s.last())
    }
}

/// Insertion sort of a string sequence.
pub open spec fn sort_strs(s: Seq<Seq<char>>) -> Seq<Seq<char>>
    decreases s.len(),
{
    if s.len() == 0 {
        Seq::empty()
    } else {
        insert_str(s.last(), sort_strs(s.drop_last()))
    }
}

/// `s` with every run of equal adjacent entries collapsed to one.
pub open spec fn dedup_adjacent(s: Seq<Seq<char>>) -> Seq<Seq<char>>
    decreases s.len(),
{
    if s.len() == 0 {
        Seq::empty()
    } else if s.len() >= 2 && s[s.len() - 1] == s[s.len() - 2] {
        dedup_adjacent(s.drop_last())
    } else {
        dedup_adjacent(s.drop_last()).push(s.last())
    }
}

proof fn lemma_insert_str_at(x: Seq<char>, s: Seq<Seq<char>>, p: int)
    requires
        0 <= p <= s.len(),
        p > 0 ==> str_le(s[p - 1], x),
        forall|j: int| p <= j < s.len() ==> !str_le(s[j], x),
    ensures
        insert_str(x, s) == s.take(p) + seq![x] + s.skip(p),
    decreases s.len(),
{
    if s.len() == 0 {
        assert(s.take(0) + seq![x] + s.skip(0) =~= seq![x]);
    } else if str_le(s.last(), x) {
        assert(p == s.len());
        assert(s.take(p) + seq![x] + s.skip(p) =~= s.push(x));
    } else {
        assert(forall|j: int| 0 <= j < s.len() - 1 ==> s.drop_last()[j] == s[j]);
        lemma_insert_str_at(x, s.drop_last(), p);
        assert((s.drop_last().take(p) + seq![x] + s.drop_last().skip(p)).push(s.last()) =~= s.take(
            p,
        ) + seq![x] + s.skip(p));
    }
}

/// The deep view of a vector of strings, element by element.
proof fn lemma_str_dv(v: Vec<String>)
    ensures
        v.deep_view().len() == v@.len(),
        forall|i: int| 0 <= i < v@.len() ==> v.deep_view()[i] == v@[i]@,
{
    assert forall|i: int| 0 <= i < v@.len() implies v.deep_view()[i] == v@[i]@ by {}
}

/// Sort strings into a fresh vector, stably.
fn sort_string_vec(v: Vec<String>) -> (r: Vec<String>)
    ensures
        r.deep_view() == sort_strs(v.deep_view()),
{
    let ghost input = v.deep_view();
    let mut rest = v;
    let mut out: Vec<String> = Vec::new();
    proof {
        lemma_str_dv(rest);
        assert(out.deep_view() =~= sort_strs(input.take(0)));
    }
    let ghost mut k: int = 0;
    loop
        invariant
            0 <= k <= input.len(),
            rest.deep_view() =~= input.skip(k),
            out.deep_view() == sort_strs(input.take(k)),
        ensures
            out.deep_view() == sort_strs(input),
        decreases input.len() - k,
    {
        proof {
            lemma_str_dv(rest);
        }
        if rest.len() == 0 {
            proof {
                assert(k == input.len());
                assert(input.take(k) =~= input);
            }
            break;
        }
        let ghost v_old = rest@;
        let ghost dv_old = rest.deep_view();
        proof {
            assert(k < input.len());
        }
        let x = rest.remove(0);
        let ghost xv = x@;
        proof {
            lemma_str_dv(rest);
            assert(dv_old[0] == input.skip(k)[0]);
            assert(input.skip(k)[0] == input[k]);
            assert(xv == input[k]);
            assert forall|j: int| 0 <= j < rest@.len() implies rest.deep_view()[j] == input.skip(
                k + 1,
            )[j] by {
                assert(rest@[j] == v_old[j + 1]);
                assert(rest.deep_view()[j] == rest@[j]@);
                assert(v_old[j + 1]@ == dv_old[j + 1]);
                assert(dv_old[j + 1] == input.skip(k)[j + 1]);
                assert(input.skip(k)[j + 1] == input[k + 1 + j]);
                assert(input.skip(k + 1)[j] == input[k + 1 + j]);
            }
            assert(rest.deep_view() =~= input.skip(k + 1));
        }
        let mut p: usize = out.len();
        proof {
            lemma_str_dv(out);
        }
        while p > 0 && matches!(
            str_cmp(out[p - 1].as_str(), x.as_str()),
            core::cmp::Ordering::Greater
        )
            invariant
                0 <= p <= out@.len(),
                forall|j: int| p <= j < out@.len() ==> !str_le(out.deep_view()[j], xv),
                xv == x@,
            decreases p,
        {
            proof {
                lemma_str_dv(out);
                assert(out.deep_view()[p - 1] == out@[p - 1]@);
            }
            p = p - 1;
        }
        let ghost prev = out.deep_view();
        proof {
            lemma_str_dv(out);
            if p > 0 {
                assert(prev[p - 1] == out@[p - 1]@);
            }
        }
        out.insert(p, x);
        proof {
            lemma_str_dv(out);
            let ghost inserted = prev.take(p as int) + seq![xv] + prev.skip(p as int);
            assert forall|j: int| 0 <= j < out@.len() implies out.deep_view()[j] == inserted[j] by {}
            assert(out.deep_view() =~= inserted);
            lemma_insert_str_at(xv, prev, p as int);
            assert(input.take(k + 1).drop_last() =~= input.take(k));
            assert(input.take(k + 1).last() == input[k]);
            assert(out.deep_view() == sort_strs(input.take(k + 1)));
        }
        proof {
            k = k + 1;
        }
    }
    out
}

/// Collapse equal adjacent strings.
fn dedup_string_vec(v: Vec<String>) -> (r: Vec<String>)
    ensures
        r.deep_view() == dedup_adjacent(v.deep_view()),
{
    let ghost input = v.deep_view();
    let mut out: Vec<String> = Vec::new();
    let n = v.len();
    let mut i: usize = 0;
    proof {
        lemma_str_dv(v);
        assert(input.take(0) =~= Seq::<Seq<char>>::empty());
        assert(out.deep_view() =~= dedup_adjacent(input.take(0)));
    }
    while i < n
        invariant
            n == v@.len(),
            input == v.deep_view(),
            input.len() == n,
            0 <= i <= n,
            out.deep_view() == dedup_adjacent(input.take(i as int)),
        decreases n - i,
    {
        proof {
            lemma_str_dv(v);
            assert(input.take(i + 1).drop_last() =~= input.take(i as int));
            assert(input.take(i + 1).last() == input[i as int]);
            assert(input[i as int] == v@[i as int]@);
            if i >= 1 {
                assert(input.take(i + 1)[i - 1] == input[i - 1]);
                assert(input[i - 1] == v@[i - 1]@);
            }
        }
        let ghost prev = out.deep_view();
        if i > 0 && str_eq(v[i].as_str(), v[i - 1].as_str()) {
            proof {
                assert(out.deep_view() =~= dedup_adjacent(input.take(i + 1)));
            }
        } else {
            out.push(v[i].clone());
            proof {
                assert(out.deep_view() =~= prev.push(input[i as int]));
                assert(out.deep_view() =~= dedup_adjacent(input.take(i + 1)));
            }
        }
        i = i + 1;
    }
    proof {
        assert(input.take(n as int) =~= input);
    }
    out
}

/// Extract every dependency of the given manifests, drop the version
/// constraints, and return the names sorted and deduplicated.
pub fn load_targets_from_files(srcinfos: &Vec<String>) -> (r: Vec<String>)
    ensures
        r.deep_view() == dedup_adjacent(sort_strs(files_deps(srcinfos.deep_view()))),
{
    let ghost fv = srcinfos.deep_view();
    let mut all: Vec<String> = Vec::new();
    let n = srcinfos.len();
    let mut i: usize = 0;
    proof {
        lemma_str_dv(*srcinfos);
        assert(fv.take(0) =~= Seq::<Seq<char>>::empty());
        assert(all.deep_view() =~= files_deps(fv.take(0)));
    }
    while i < n
        invariant
            n == srcinfos@.len(),
            fv == srcinfos.deep_view(),
            fv.len() == n,
            0 <= i <= n,
            all.deep_view() == files_deps(fv.take(i as int)),
        decreases n - i,
    {
        proof {
            lemma_str_dv(*srcinfos);
            assert(fv.take(i + 1).drop_last() =~= fv.take(i as int));
            assert(fv.take(i + 1).last() == fv[i as int]);
            assert(fv[i as int] == srcinfos@[i as int]@);
        }
        let deps = get_dependencies_from_srcinfo(srcinfos[i].as_str());
        let ghost dv = deps.deep_view();
        let ghost cut = dv.map_values(|d: Seq<char>| cut_constraint(d));
        let m = deps.len();
        let mut j: usize = 0;
        let ghost before = all.deep_view();
        proof {
            lemma_str_dv(deps);
            assert(cut.take(0) =~= Seq::<Seq<char>>::empty());
            assert(all.deep_view() =~= before + cut.take(0));
        }
        while j < m
            invariant
                m == deps@.len(),
                dv == deps.deep_view(),
                dv.len() == m,
                cut == dv.map_values(|d: Seq<char>| cut_constraint(d)),
                0 <= j <= m,
                all.deep_view() == before + cut.take(j as int),
            decreases m - j,
        {
            proof {
                lemma_str_dv(deps);
                assert(dv[j as int] == deps@[j as int]@);
                assert(cut[j as int] == cut_constraint(dv[j as int]));
            }
            let piece = cut_dep(deps[j].as_str());
            let ghost prev = all.deep_view();
            all.push(String::from_str(piece));
            proof {
                assert(all.deep_view() =~= prev.push(cut[j as int]));
                assert(cut.take(j + 1) =~= cut.take(j as int).push(cut[j as int]));
                assert(all.deep_view() =~= before + cut.take(j + 1));
            }
            j = j + 1;
        }
        proof {
            assert(cut.take(m as int) =~= cut);
            assert(all.deep_view() =~= files_deps(fv.take(i + 1)));
        }
        i = i + 1;
    }
    proof {
        assert(fv.take(n as int) =~= fv);
    }
    let sorted = sort_string_vec(all);
    dedup_string_vec(sorted)
}

} // verus!

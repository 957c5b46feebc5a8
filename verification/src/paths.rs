use vstd::prelude::*;
use vstd::string::StrSliceExecFns;
use vstd::string::StringExecFns;

use crate::strutil::eq_ignore_ascii_case_spec;
use crate::strutil::str_eq;
use crate::strutil::str_eq_ignore_ascii_case;

verus! {

// Attachment files live in a year/month tree under a base directory.
// Paths recorded by another machine are remapped into the local tree:
// first by rebasing the part after the attachment directory's name,
// falling back to a match on the file name alone. Paths are handled as
// text, with `/` and `\` as separators; remapped paths are joined with
// `/`.

pub open spec fn is_sep(c: char) -> bool {
    c == '/' || c == '\\'
}

/// The components of a path: the pending run of non-separator characters
/// is `cur`, the finished ones are `done`.
pub open spec fn split_acc(s: Seq<char>, i: int, cur: Seq<char>, done: Seq<Seq<char>>) -> Seq<
    Seq<char>,
>
    decreases s.len() - i,
{
    if i >= s.len() {
        if cur.len() > 0 {
            done.push(cur)
        } else {
            done
        }
    } else if is_sep(s[i]) {
        if cur.len() > 0 {
            split_acc(s, i + 1, Seq::empty(), done.push(cur))
        } else {
            split_acc(s, i + 1, cur, done)
        }
    } else {
        split_acc(s, i + 1, cur.push(s[i]), done)
    }
}

/// The components of a path: maximal runs of non-separator characters.
pub open spec fn split_path(s: Seq<char>) -> Seq<Seq<char>> {
    split_acc(s, 0, Seq::empty(), Seq::empty())
}

/// The views of a vector of strings.
pub open spec fn seq_views(v: Seq<String>) -> Seq<Seq<char>> {
    v.map_values(|s: String| s@)
}

/// Split a path into its components.
pub fn split_path_exec(path: &str) -> (r: Vec<String>)
    ensures
        seq_views(r@) == split_path(path@),
{
    let n = path.unicode_len();
    let mut done: Vec<String> = Vec::new();
    let mut start: usize = 0;
    let mut i: usize = 0;
    proof {
        assert(path@.subrange(0, 0) =~= Seq::<char>::empty());
        assert(seq_views(done@) =~= Seq::<Seq<char>>::empty());
    }
    while i < n
        invariant
            start <= i <= n,
            n == path@.len(),
            split_path(path@) == split_acc(
                path@,
                i as int,
                path@.subrange(start as int, i as int),
                seq_views(done@),
            ),
        decreases n - i,
    {
        let ghost cur = path@.subrange(start as int, i as int);
        let ghost dv = seq_views(done@);
        let c = path.get_char(i);
        if c == '/' || c == '\\' {
            proof {
                assert(is_sep(path@[i as int]));
                if cur.len() > 0 {
                    assert(split_acc(path@, i as int, cur, dv) == split_acc(
                        path@,
                        i as int + 1,
                        Seq::<char>::empty(),
                        dv.push(cur),
                    ));
                } else {
                    assert(split_acc(path@, i as int, cur, dv) == split_acc(
                        path@,
                        i as int + 1,
                        cur,
                        dv,
                    ));
                    assert(cur =~= Seq::<char>::empty());
                }
            }
            if i > start {
                let comp = path.substring_char(start, i).to_owned();
                proof {
                    assert(comp@ == cur);
                    assert(seq_views(done@.push(comp)) =~= dv.push(cur));
                }
                done.push(comp);
            }
            i = i + 1;
            start = i;
            proof {
                assert(path@.subrange(start as int, i as int) =~= Seq::<char>::empty());
            }
        } else {
            proof {
                assert(!is_sep(path@[i as int]));
                assert(split_acc(path@, i as int, cur, dv) == split_acc(
                    path@,
                    i as int + 1,
                    cur.push(path@[i as int]),
                    dv,
                ));
                assert(cur.push(path@[i as int]) =~= path@.subrange(start as int, i as int + 1));
            }
            i = i + 1;
        }
    }
    let ghost cur = path@.subrange(start as int, i as int);
    let ghost dv = seq_views(done@);
    proof {
        if cur.len() > 0 {
            assert(split_acc(path@, i as int, cur, dv) == dv.push(cur));
        } else {
            assert(split_acc(path@, i as int, cur, dv) == dv);
        }
    }
    if i > start {
        let comp = path.substring_char(start, i).to_owned();
        proof {
            assert(comp@ == cur);
            assert(seq_views(done@.push(comp)) =~= dv.push(cur));
        }
        done.push(comp);
    }
    done
}

/// Join components with `/`.
pub open spec fn join_path(comps: Seq<Seq<char>>) -> Seq<char>
    decreases comps.len(),
{
    if comps.len() == 0 {
        Seq::empty()
    } else if comps.len() == 1 {
        comps[0]
    } else {
        comps[0] + seq!['/'] + join_path(comps.skip(1))
    }
}

proof fn lemma_join_path_push(comps: Seq<Seq<char>>, x: Seq<char>)
    requires
        comps.len() > 0,
    ensures
        join_path(comps.push(x)) == join_path(comps) + seq!['/'] + x,
    decreases comps.len(),
{
    if comps.len() == 1 {
        assert(comps.push(x).skip(1) =~= seq![x]);
        assert(join_path(seq![x]) == x);
        assert(join_path(comps.push(x)) == comps[0] + seq!['/'] + x);
    } else {
        lemma_join_path_push(comps.skip(1), x);
        assert(comps.push(x).skip(1) =~= comps.skip(1).push(x));
        assert(join_path(comps.push(x)) == comps[0] + seq!['/'] + join_path(comps.skip(1).push(x)));
        assert(comps[0] + seq!['/'] + (join_path(comps.skip(1)) + seq!['/'] + x) =~= (comps[0]
            + seq!['/'] + join_path(comps.skip(1))) + seq!['/'] + x);
    }
}

/// Join a range of string components with `/`.
fn join_range(comps: &Vec<String>, from: usize) -> (r: String)
    requires
        from <= comps@.len(),
    ensures
        r@ == join_path(seq_views(comps@).skip(from as int)),
{
    let mut out = String::new();
    let mut i: usize = from;
    proof {
        assert(seq_views(comps@).skip(from as int).take(0) =~= Seq::<Seq<char>>::empty());
    }
    while i < comps.len()
        invariant
            from <= i <= comps@.len(),
            out@ == join_path(seq_views(comps@).skip(from as int).take((i - from) as int)),
        decreases comps@.len() - i,
    {
        let ghost pre = seq_views(comps@).skip(from as int).take((i - from) as int);
        if i > from {
            out.append("/");
        }
        out.append(comps[i].as_str());
        proof {
            let all = seq_views(comps@).skip(from as int);
            assert(all.take((i + 1 - from) as int) =~= pre.push(comps@[i as int]@));
            if i > from {
                lemma_join_path_push(pre, comps@[i as int]@);
                reveal_strlit("/");
                assert("/"@ =~= seq!['/']);
            } else {
                assert(pre.len() == 0);
                assert(join_path(seq![comps@[i as int]@]) == comps@[i as int]@);
                assert(pre.push(comps@[i as int]@) =~= seq![comps@[i as int]@]);
                assert(out@ =~= Seq::<char>::empty() + comps@[i as int]@) by {
                    assert(join_path(pre) =~= Seq::<char>::empty());
                }
            }
        }
        i = i + 1;
    }
    proof {
        assert(seq_views(comps@).skip(from as int).take((i - from) as int) =~= seq_views(
            comps@,
        ).skip(from as int));
    }
    out
}

/// First component index that names the attachment directory, up to
/// ASCII case; `-1` when there is none.
pub open spec fn find_dir_ci(comps: Seq<Seq<char>>, dir: Seq<char>) -> int
    decreases comps.len(),
{
    if comps.len() == 0 {
        -1
    } else if eq_ignore_ascii_case_spec(comps[0], dir) {
        0
    } else {
        let r = find_dir_ci(comps.skip(1), dir);
        if r == -1 {
            -1
        } else {
            r + 1
        }
    }
}

proof fn lemma_find_dir_ci(comps: Seq<Seq<char>>, dir: Seq<char>)
    ensures
        -1 <= find_dir_ci(comps, dir) < comps.len(),
        find_dir_ci(comps, dir) >= 0 ==> eq_ignore_ascii_case_spec(
            comps[find_dir_ci(comps, dir)],
            dir,
        ),
        find_dir_ci(comps, dir) >= 0 ==> forall|k: int|
            0 <= k < find_dir_ci(comps, dir) ==> !eq_ignore_ascii_case_spec(#[trigger] comps[k], dir),
        find_dir_ci(comps, dir) == -1 ==> forall|k: int|
            0 <= k < comps.len() ==> !eq_ignore_ascii_case_spec(#[trigger] comps[k], dir),
    decreases comps.len(),
{
    if comps.len() > 0 && !eq_ignore_ascii_case_spec(comps[0], dir) {
        lemma_find_dir_ci(comps.skip(1), dir);
        assert(forall|k: int| 1 <= k < comps.len() ==> comps.skip(1)[k - 1] == comps[k]);
    }
}

/// First string in the list equal to `x`; `-1` when there is none.
pub open spec fn find_str(files: Seq<Seq<char>>, x: Seq<char>) -> int
    decreases files.len(),
{
    if files.len() == 0 {
        -1
    } else if files[0] == x {
        0
    } else {
        let r = find_str(files.skip(1), x);
        if r == -1 {
            -1
        } else {
            r + 1
        }
    }
}

pub(crate) proof fn lemma_find_str(files: Seq<Seq<char>>, x: Seq<char>)
    ensures
        -1 <= find_str(files, x) < files.len(),
        find_str(files, x) >= 0 ==> files[find_str(files, x)] == x,
        find_str(files, x) == -1 ==> forall|k: int|
            0 <= k < files.len() ==> (#[trigger] files[k]) != x,
    decreases files.len(),
{
    if files.len() > 0 && files[0] != x {
        lemma_find_str(files.skip(1), x);
        assert(forall|k: int| 1 <= k < files.len() ==> files.skip(1)[k - 1] == files[k]);
    }
}

/// The final component of a path; empty when the path has none.
pub open spec fn file_name(s: Seq<char>) -> Seq<char> {
    let comps = split_path(s);
    if comps.len() > 0 {
        comps[comps.len() - 1]
    } else {
        Seq::empty()
    }
}

/// First listed file whose name is `name`; `-1` when there is none.
/// Earlier files win, as in a first-come name index.
pub open spec fn find_by_file_name(files: Seq<Seq<char>>, name: Seq<char>) -> int
    decreases files.len(),
{
    if files.len() == 0 {
        -1
    } else if file_name(files[0]) == name && name.len() > 0 {
        0
    } else {
        let r = find_by_file_name(files.skip(1), name);
        if r == -1 {
            -1
        } else {
            r + 1
        }
    }
}

proof fn lemma_find_by_file_name(files: Seq<Seq<char>>, name: Seq<char>)
    ensures
        -1 <= find_by_file_name(files, name) < files.len(),
        find_by_file_name(files, name) >= 0 ==> file_name(files[find_by_file_name(files, name)])
            == name && name.len() > 0,
        find_by_file_name(files, name) >= 0 ==> forall|k: int|
            0 <= k < find_by_file_name(files, name) ==> !(file_name(#[trigger] files[k]) == name
                && name.len() > 0),
        find_by_file_name(files, name) == -1 ==> forall|k: int|
            0 <= k < files.len() ==> !(file_name(#[trigger] files[k]) == name && name.len() > 0),
    decreases files.len(),
{
    if files.len() > 0 && !(file_name(files[0]) == name && name.len() > 0) {
        lemma_find_by_file_name(files.skip(1), name);
        assert(forall|k: int| 1 <= k < files.len() ==> files.skip(1)[k - 1] == files[k]);
    }
}

/// The relative path under which a foreign attachment path can be
/// rebased: the part after the attachment directory's name, when that
/// relative path is among the local files.
pub open spec fn rebased_rel(path: Seq<char>, files: Seq<Seq<char>>) -> Option<Seq<char>> {
    let comps = split_path(path);
    let bi = find_dir_ci(comps, "Belege"@);
    if bi >= 0 && bi + 1 < comps.len() {
        let rel = join_path(comps.skip(bi + 1));
        if find_str(files, rel) >= 0 {
            Some(rel)
        } else {
            None
        }
    } else {
        None
    }
}

/// Where a foreign attachment path lands in the local tree, if anywhere:
/// the part after the attachment directory's name, rebased under `base`,
/// when that relative path is among the local files; otherwise the first
/// local file sharing the path's file name. Local files are given as
/// `/`-joined paths relative to `base`.
pub open spec fn map_receipt_path_spec(
    path: Seq<char>,
    base: Seq<char>,
    files: Seq<Seq<char>>,
) -> Option<Seq<char>> {
    match rebased_rel(path, files) {
        Some(rel) => Some(base + seq!['/'] + rel),
        None => {
            let ni = find_by_file_name(files, file_name(path));
            if ni >= 0 {
                Some(base + seq!['/'] + files[ni])
            } else {
                None
            }
        },
    }
}

/// Concatenate `base`, `/` and `rel`.
pub fn join_base(base: &str, rel: &str) -> (r: String)
    ensures
        r@ == base@ + seq!['/'] + rel@,
{
    let mut out = base.to_owned();
    out.append("/");
    out.append(rel);
    proof {
        reveal_strlit("/");
        assert("/"@ =~= seq!['/']);
    }
    out
}

/// First component naming the attachment directory, up to ASCII case.
fn find_attachment_dir_index(comps: &Vec<String>) -> (r: Option<usize>)
    ensures
        match r {
            Some(i) => i < comps@.len() && find_dir_ci(seq_views(comps@), "Belege"@) == i,
            None => find_dir_ci(seq_views(comps@), "Belege"@) == -1,
        },
{
    proof {
        lemma_find_dir_ci(seq_views(comps@), "Belege"@);
    }
    let mut i: usize = 0;
    while i < comps.len()
        invariant
            i <= comps@.len(),
            forall|k: int|
                0 <= k < i ==> !eq_ignore_ascii_case_spec(
                    #[trigger] seq_views(comps@)[k],
                    "Belege"@,
                ),
        decreases comps@.len() - i,
    {
        proof {
            lemma_seq_views_index(comps@, i as int);
        }
        if str_eq_ignore_ascii_case(comps[i].as_str(), "Belege") {
            proof {
                lemma_find_dir_ci(seq_views(comps@), "Belege"@);
                assert(eq_ignore_ascii_case_spec(seq_views(comps@)[i as int], "Belege"@));
            }
            return Some(i);
        }
        i = i + 1;
    }
    proof {
        lemma_find_dir_ci(seq_views(comps@), "Belege"@);
    }
    None
}

proof fn lemma_seq_views_index(v: Seq<String>, i: int)
    requires
        0 <= i < v.len(),
    ensures
        seq_views(v).len() == v.len(),
        seq_views(v)[i] == v[i]@,
{
}

/// Remap a foreign attachment path into the local tree.
pub fn map_receipt_path(path: &str, receipt_base: &str, local_files: &Vec<String>) -> (r: Option<
    String,
>)
    ensures
        match r {
            Some(p) => map_receipt_path_spec(path@, receipt_base@, seq_views(local_files@))
                == Some(p@),
            None => map_receipt_path_spec(path@, receipt_base@, seq_views(local_files@)) is None,
        },
{
    let comps = split_path_exec(path);
    let ghost cvs = split_path(path@);
    let ghost fvs = seq_views(local_files@);
    // Rebase after the attachment directory's component, if present.
    let bi_found = find_attachment_dir_index(&comps);
    if let Some(bi) = bi_found {
        assert(find_dir_ci(cvs, "Belege"@) == bi);
        let clen = comps.len();
        if bi + 1 < clen {
            let rel = join_range(&comps, bi + 1);
            proof {
                lemma_find_str(fvs, rel@);
                assert(cvs.len() == comps@.len());
            }
            let mut j: usize = 0;
            while j < local_files.len()
                invariant
                    j <= local_files@.len(),
                    fvs == seq_views(local_files@),
                    cvs == split_path(path@),
                    find_dir_ci(cvs, "Belege"@) == bi as int,
                    bi + 1 < cvs.len(),
                    rel@ == join_path(cvs.skip(bi as int + 1)),
                    forall|k: int| 0 <= k < j ==> (#[trigger] fvs[k]) != rel@,
                decreases local_files@.len() - j,
            {
                proof {
                    lemma_seq_views_index(local_files@, j as int);
                    lemma_find_str(fvs, rel@);
                }
                if str_eq(local_files[j].as_str(), rel.as_str()) {
                    assert(fvs[j as int] == rel@);
                    assert(find_str(fvs, rel@) >= 0);
                    assert(rebased_rel(path@, fvs) == Some(rel@));
                    return Some(join_base(receipt_base, rel.as_str()));
                }
                j = j + 1;
            }
            assert(find_str(fvs, rel@) == -1);
        }
    } else {
        assert(find_dir_ci(cvs, "Belege"@) == -1);
    }
    // Fall back to a match on the file name alone.
    assert(rebased_rel(path@, fvs) is None);
    let ghost name = file_name(path@);
    proof {
        lemma_find_by_file_name(fvs, name);
        assert(cvs.len() == comps@.len());
    }
    if comps.len() == 0 {
        assert(name.len() == 0);
        assert(find_by_file_name(fvs, name) == -1);
        return None;
    }
    let fname = &comps[comps.len() - 1];
    proof {
        lemma_seq_views_index(comps@, comps@.len() - 1);
        assert(cvs == seq_views(comps@));
        assert(cvs.len() == comps@.len());
    }
    assert(fname@ == name);
    let mut j: usize = 0;
    while j < local_files.len()
        invariant
            j <= local_files@.len(),
            fvs == seq_views(local_files@),
            name == file_name(path@),
            fname@ == name,
            split_path(path@).len() > 0,
            rebased_rel(path@, fvs) is None,
            forall|k: int|
                0 <= k < j ==> !(file_name(#[trigger] fvs[k]) == name && name.len() > 0),
        decreases local_files@.len() - j,
    {
        let cand = &local_files[j];
        proof {
            lemma_seq_views_index(local_files@, j as int);
            lemma_find_by_file_name(fvs, name);
            // A split component is a maximal non-empty run.
            lemma_split_components_nonempty(path@);
        }
        let cand_comps = split_path_exec(cand.as_str());
        let matches_name: bool;
        if cand_comps.len() == 0 {
            matches_name = false;
            assert(file_name(fvs[j as int]).len() == 0);
            assert(fname@.len() > 0);
        } else {
            proof {
                lemma_seq_views_index(cand_comps@, cand_comps@.len() - 1);
            }
            matches_name = str_eq(cand_comps[cand_comps.len() - 1].as_str(), fname.as_str());
            proof {
                assert(seq_views(cand_comps@) == split_path(cand@));
                assert(split_path(fvs[j as int]).len() == cand_comps@.len());
                assert(fname@.len() > 0);
            }
        }
        if matches_name {
            assert(file_name(fvs[j as int]) == name && name.len() > 0);
            assert(find_by_file_name(fvs, name) == j) by {
                lemma_find_by_file_name(fvs, name);
            }
            assert(fvs[j as int] == cand@);
            return Some(join_base(receipt_base, cand.as_str()));
        }
        j = j + 1;
    }
    assert(find_by_file_name(fvs, name) == -1);
    None
}

/// The remote attachment files a sync copies in: those whose relative
/// path is not already present locally, in remote order. Existing local
/// files are never among them, so none is ever overwritten.
pub open spec fn missing_files_spec(remote: Seq<Seq<char>>, local: Seq<Seq<char>>) -> Seq<
    Seq<char>,
>
    decreases remote.len(),
{
    if remote.len() == 0 {
        Seq::empty()
    } else if find_str(local, remote[0]) >= 0 {
        missing_files_spec(remote.skip(1), local)
    } else {
        seq![remote[0]] + missing_files_spec(remote.skip(1), local)
    }
}

/// Whether the list holds exactly this path.
pub(crate) fn files_contain(files: &Vec<String>, x: &str) -> (r: bool)
    ensures
        r == (find_str(seq_views(files@), x@) >= 0),
{
    proof {
        lemma_find_str(seq_views(files@), x@);
    }
    let mut i: usize = 0;
    while i < files.len()
        invariant
            i <= files@.len(),
            forall|k: int| 0 <= k < i ==> (#[trigger] seq_views(files@)[k]) != x@,
        decreases files@.len() - i,
    {
        proof {
            lemma_seq_views_index(files@, i as int);
            lemma_find_str(seq_views(files@), x@);
        }
        if str_eq(files[i].as_str(), x) {
            return true;
        }
        i = i + 1;
    }
    proof {
        lemma_find_str(seq_views(files@), x@);
    }
    false
}

/// Plan which remote attachment files to copy in: exactly those whose
/// relative path is absent locally. Both lists are `/`-joined paths
/// relative to their attachment roots.
pub fn missing_receipt_files(remote_files: Vec<String>, local_files: &Vec<String>) -> (r: Vec<
    String,
>)
    ensures
        seq_views(r@) == missing_files_spec(seq_views(remote_files@), seq_views(local_files@)),
{
    let ghost remote0 = seq_views(remote_files@);
    let ghost locals = seq_views(local_files@);
    let mut rem = remote_files;
    let mut out: Vec<String> = Vec::new();
    proof {
        assert(seq_views(rem@) =~= remote0);
        assert(seq_views(out@) =~= Seq::<Seq<char>>::empty());
        assert(seq_views(out@) + missing_files_spec(seq_views(rem@), locals) =~= missing_files_spec(
            remote0,
            locals,
        ));
    }
    while rem.len() > 0
        invariant
            locals == seq_views(local_files@),
            missing_files_spec(remote0, locals) == seq_views(out@) + missing_files_spec(
                seq_views(rem@),
                locals,
            ),
        decreases rem@.len(),
    {
        let ghost rem_old = seq_views(rem@);
        let ghost out_old = seq_views(out@);
        let f = rem.remove(0);
        proof {
            assert(seq_views(rem@) =~= rem_old.skip(1)) by {
                assert(forall|k: int|
                    0 <= k < rem@.len() ==> seq_views(rem@)[k] == (#[trigger] rem@[k])@);
                assert(forall|k: int|
                    0 <= k < rem@.len() ==> rem_old.skip(1)[k] == (#[trigger] rem@[k])@);
            }
            assert(rem_old[0] == f@);
        }
        if !files_contain(local_files, f.as_str()) {
            proof {
                assert(missing_files_spec(rem_old, locals) == seq![f@] + missing_files_spec(
                    rem_old.skip(1),
                    locals,
                ));
                assert(out_old + (seq![f@] + missing_files_spec(rem_old.skip(1), locals))
                    =~= out_old.push(f@) + missing_files_spec(rem_old.skip(1), locals));
                assert(seq_views(out@.push(f)) =~= out_old.push(f@));
            }
            out.push(f);
        } else {
            proof {
                assert(missing_files_spec(rem_old, locals) == missing_files_spec(
                    rem_old.skip(1),
                    locals,
                ));
            }
        }
    }
    proof {
        assert(seq_views(rem@).len() == 0);
        assert(missing_files_spec(seq_views(rem@), locals) =~= Seq::<Seq<char>>::empty());
        assert(seq_views(out@) + Seq::<Seq<char>>::empty() =~= seq_views(out@));
    }
    out
}

/// Every component a split yields is non-empty: the pending run is only
/// ever appended when it is non-empty.
proof fn lemma_split_acc_nonempty(s: Seq<char>, i: int, cur: Seq<char>, done: Seq<Seq<char>>)
    requires
        forall|k: int| 0 <= k < done.len() ==> (#[trigger] done[k]).len() > 0,
    ensures
        forall|k: int|
            0 <= k < split_acc(s, i, cur, done).len() ==> (#[trigger] split_acc(
                s,
                i,
                cur,
                done,
            )[k]).len() > 0,
    decreases s.len() - i,
{
    if i >= s.len() {
        if cur.len() > 0 {
            assert forall|k: int|
                0 <= k < split_acc(s, i, cur, done).len() implies (#[trigger] split_acc(
                s,
                i,
                cur,
                done,
            )[k]).len() > 0 by {
                assert(split_acc(s, i, cur, done) == done.push(cur));
                if k < done.len() {
                    assert(done.push(cur)[k] == done[k]);
                } else {
                    assert(done.push(cur)[k] == cur);
                }
            }
        }
    } else if is_sep(s[i]) {
        if cur.len() > 0 {
            assert forall|k: int| 0 <= k < done.push(cur).len() implies (#[trigger] done.push(
                cur,
            )[k]).len() > 0 by {
                if k < done.len() {
                    assert(done.push(cur)[k] == done[k]);
                } else {
                    assert(done.push(cur)[k] == cur);
                }
            }
            lemma_split_acc_nonempty(s, i + 1, Seq::empty(), done.push(cur));
            assert(split_acc(s, i, cur, done) == split_acc(s, i + 1, Seq::empty(), done.push(cur)));
        } else {
            lemma_split_acc_nonempty(s, i + 1, cur, done);
            assert(split_acc(s, i, cur, done) == split_acc(s, i + 1, cur, done));
        }
    } else {
        lemma_split_acc_nonempty(s, i + 1, cur.push(s[i]), done);
        assert(split_acc(s, i, cur, done) == split_acc(s, i + 1, cur.push(s[i]), done));
    }
}

/// Every component of a split path is non-empty.
pub proof fn lemma_split_components_nonempty(s: Seq<char>)
    ensures
        forall|k: int| 0 <= k < split_path(s).len() ==> (#[trigger] split_path(s)[k]).len() > 0,
{
    lemma_split_acc_nonempty(s, 0, Seq::empty(), Seq::empty());
}

} // verus!

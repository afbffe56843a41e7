use vstd::prelude::*;

use crate::text::{contains, occurs_in, same_text};

verus! {

/// A file to consider: its path as given or found, its canonical absolute
/// path, where the file exists and that path is valid Unicode, and the
/// caller's own number for it, carried through unchanged.
pub struct Candidate {
    pub path: String,
    pub canonical: Option<String>,
    pub index: usize,
}

/// The names whose presence anywhere in a canonical path keeps the file out:
/// lockfiles, package manifests, version-control and build leftovers.
pub open spec fn ignored_names() -> Seq<Seq<char>> {
    seq![
        "node_modules"@,
        "package.json"@,
        "package_lock.json"@,
        ".DS_Store"@,
        "npm-debug.log"@,
        ".svn"@,
        "CVS"@,
        "config.gypi"@,
        ".lock-wscript"@,
        "package-lock.json"@,
        "npm-shrinkwrap.json"@,
    ]
}

/// The ignored names, in order.
pub fn ignored_files() -> (r: Vec<&'static str>)
    ensures
        r@.len() == ignored_names().len(),
        forall|i: int| 0 <= i < r@.len() ==> (#[trigger] r@[i])@ == ignored_names()[i],
{
    let mut r: Vec<&'static str> = Vec::new();
    r.push("node_modules");
    r.push("package.json");
    r.push("package_lock.json");
    r.push(".DS_Store");
    r.push("npm-debug.log");
    r.push(".svn");
    r.push("CVS");
    r.push("config.gypi");
    r.push(".lock-wscript");
    r.push("package-lock.json");
    r.push("npm-shrinkwrap.json");
    r
}

/// A file is ignored when its canonical path holds one of the ignored names.
pub open spec fn ignored(canonical: Option<String>) -> bool {
    canonical matches Some(c) && exists|k: int|
        0 <= k < ignored_names().len() && occurs_in(c@, #[trigger] ignored_names()[k])
}

/// Two candidates are the same file: both exist, with one canonical path.
pub open spec fn same_file(a: Candidate, b: Candidate) -> bool {
    a.canonical matches Some(x) && b.canonical matches Some(y) && x@ == y@
}

/// The candidate is the same file as one of `accepted`.
pub open spec fn already_in(accepted: Seq<Candidate>, c: Candidate) -> bool {
    exists|i: int| 0 <= i < accepted.len() && same_file(#[trigger] accepted[i], c)
}

/// The files to sort, in order: each candidate that is not ignored and is
/// not the same file as one taken before it.
pub open spec fn collected(cs: Seq<Candidate>) -> Seq<Candidate>
    decreases cs.len(),
{
    if cs.len() == 0 {
        seq![]
    } else {
        let prev = collected(cs.drop_last());
        let c = cs.last();
        if ignored(c.canonical) || already_in(prev, c) {
            prev
        } else {
            prev.push(c)
        }
    }
}

/// Whether a canonical path holds one of the ignored names.
pub fn is_ignored(canonical: &Option<String>) -> (r: bool)
    ensures
        r == ignored(*canonical),
{
    match canonical {
        None => false,
        Some(c) => {
            let names = ignored_files();
            let mut k: usize = 0;
            while k < names.len()
                invariant
                    *canonical == Some(*c),
                    k <= names.len(),
                    names@.len() == ignored_names().len(),
                    forall|i: int| 0 <= i < names@.len() ==> (#[trigger] names@[i])@ == ignored_names()[i],
                    forall|i: int| 0 <= i < k ==> !occurs_in(c@, #[trigger] ignored_names()[i]),
                decreases names.len() - k,
            {
                if contains(c.as_str(), names[k]) {
                    assert(occurs_in(c@, ignored_names()[k as int]));
                    return true;
                }
                k = k + 1;
            }
            false
        },
    }
}

/// Whether `c` is the same file as one of `list`.
pub fn path_in_vec(c: &Candidate, list: &Vec<Candidate>) -> (r: bool)
    ensures
        r == already_in(list@, *c),
{
    let x = match &c.canonical {
        None => {
            return false;
        },
        Some(x) => x,
    };
    let mut i: usize = 0;
    while i < list.len()
        invariant
            i <= list.len(),
            c.canonical == Some(*x),
            forall|k: int| 0 <= k < i ==> !same_file(#[trigger] list@[k], *c),
        decreases list.len() - i,
    {
        match &list[i].canonical {
            Some(y) => {
                if same_text(y.as_str(), x.as_str()) {
                    assert(same_file(list@[i as int], *c));
                    return true;
                }
            },
            None => {},
        }
        i = i + 1;
    }
    false
}

/// The files to sort: the candidates in order, without ignored files and
/// without a second copy of a file already taken. Files that do not exist
/// are never taken for copies of one another.
pub fn collect_sortables(candidates: Vec<Candidate>) -> (r: Vec<Candidate>)
    ensures
        r@ == collected(candidates@),
        forall|i: int, j: int|
            0 <= i < j < r@.len() ==> !same_file(#[trigger] r@[i], #[trigger] r@[j]),
        forall|i: int|
            0 <= i < candidates@.len() && !ignored(#[trigger] candidates@[i].canonical) ==> (
            candidates@[i].canonical is None ==> r@.contains(candidates@[i])) && (
            candidates@[i].canonical is Some ==> already_in(r@, candidates@[i])),
{
    let ghost src = candidates@;
    let mut results: Vec<Candidate> = Vec::new();
    for c in it: candidates.into_iter()
        invariant
            it.seq() == src,
            results@ == collected(src.take(it.index() as int)),
    {
        let ghost k = it.index() as int;
        proof {
            assert(src.take(k + 1).drop_last() =~= src.take(k));
        }
        if !is_ignored(&c.canonical) && !path_in_vec(&c, &results) {
            results.push(c);
        }
    }
    proof {
        assert(src.take(src.len() as int) =~= src);
        lemma_collected_facts(src);
    }
    results
}

/// What the collection keeps: no two entries are one file, and each
/// candidate that is not ignored is there, or its file is.
pub proof fn lemma_collected_facts(cs: Seq<Candidate>)
    ensures
        forall|i: int, j: int|
            0 <= i < j < collected(cs).len() ==> !same_file(
                #[trigger] collected(cs)[i],
                #[trigger] collected(cs)[j],
            ),
        forall|i: int|
            0 <= i < cs.len() && !ignored(#[trigger] cs[i].canonical) ==> (cs[i].canonical is None
                ==> collected(cs).contains(cs[i])) && (cs[i].canonical is Some ==> already_in(
                collected(cs),
                cs[i],
            )),
    decreases cs.len(),
{
    if cs.len() > 0 {
        let d = cs.drop_last();
        lemma_collected_facts(d);
        let prev = collected(d);
        let r = collected(cs);
        let c = cs.last();
        if !(ignored(c.canonical) || already_in(prev, c)) {
            assert(r == prev.push(c));
            assert forall|i: int, j: int| 0 <= i < j < r.len() implies !same_file(
                #[trigger] r[i],
                #[trigger] r[j],
            ) by {
                if j == r.len() - 1 {
                    assert(r[i] == prev[i]);
                    if same_file(r[i], r[j]) {
                        assert(same_file(prev[i], c));
                    }
                } else {
                    assert(r[i] == prev[i] && r[j] == prev[j]);
                }
            }
        }
        assert forall|i: int| 0 <= i < cs.len() && !ignored(#[trigger] cs[i].canonical) implies (
        cs[i].canonical is None ==> r.contains(cs[i])) && (cs[i].canonical is Some ==> already_in(
            r,
            cs[i],
        )) by {
            if i < d.len() {
                assert(cs[i] == d[i]);
                if cs[i].canonical is None {
                    let k = choose|k: int| 0 <= k < prev.len() && prev[k] == d[i];
                    assert(r[k] == prev[k]);
                } else {
                    let k = choose|k: int| 0 <= k < prev.len() && same_file(prev[k], d[i]);
                    assert(r[k] == prev[k]);
                }
            } else {
                assert(cs[i] == c);
                if already_in(prev, c) {
                    let k = choose|k: int| 0 <= k < prev.len() && same_file(prev[k], c);
                    assert(r[k] == prev[k]);
                } else {
                    assert(r[r.len() - 1] == c);
                    if c.canonical is Some {
                        assert(same_file(r[r.len() - 1], c));
                    }
                }
            }
        }
    }
}

} // verus!

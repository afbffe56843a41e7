use vstd::prelude::*;

use crate::text::chars_of;

verus! {

/// `s` with every occurrence of `pat` taken out, scanning from the left;
/// an empty `pat` takes nothing out.
pub open spec fn removed_all(s: Seq<char>, pat: Seq<char>) -> Seq<char>
    decreases s.len(),
{
    if pat.len() == 0 || s.len() == 0 {
        s
    } else if pat.len() <= s.len() && s.take(pat.len() as int) == pat {
        removed_all(s.skip(pat.len() as int), pat)
    } else {
        seq![s[0]] + removed_all(s.drop_first(), pat)
    }
}

/// `s` without one leading `./`.
pub open spec fn without_dot_slash(s: Seq<char>) -> Seq<char> {
    if s.len() >= 2 && s[0] == '.' && s[1] == '/' {
        s.skip(2)
    } else {
        s
    }
}

/// How a file is named in the report: `.` and its canonical path with the
/// working directory taken out, where both are known; else `./` and the
/// path as given, without a leading `./` of its own.
pub open spec fn relative_label_of(
    full: Option<Seq<char>>,
    current: Option<Seq<char>>,
    raw: Seq<char>,
) -> Seq<char> {
    match (full, current) {
        (Some(f), Some(c)) => seq!['.'] + removed_all(f, c),
        _ => seq!['.', '/'] + without_dot_slash(raw),
    }
}

/// Relies on `regex::Regex::new` and `Regex::replace_all`: the pattern
/// `^\./` is valid and matches only a `./` at the very start, so replacing
/// all its matches by nothing drops that one prefix and keeps the rest.
#[verifier::external_body]
fn regex_replace_all(pattern: &str, text: &str, rep: &str) -> (r: Option<String>)
    ensures
        r matches Some(t) ==> (pattern@ == seq!['^', '\\', '.', '/'] && rep@.len() == 0 ==> t@ == without_dot_slash(text@)),
        pattern@ == seq!['^', '\\', '.', '/'] ==> r is Some,
{
    regex::Regex::new(pattern).ok().map(|re| re.replace_all(text, rep).into_owned())
}

/// `s` with every occurrence of `pat` taken out (see `removed_all`).
pub fn remove_all(s: &str, pat: &str) -> (r: String)
    ensures
        r@ == removed_all(s@, pat@),
{
    let cs = chars_of(s);
    let ps = chars_of(pat);
    let n = cs.len();
    let m = ps.len();
    let mut out = String::new();
    if m == 0 {
        out.append(s);
        return out;
    }
    let mut i: usize = 0;
    proof {
        assert(s@.skip(0) =~= s@);
        assert(out@ + removed_all(s@, pat@) =~= removed_all(s@, pat@));
    }
    while i < n
        invariant
            cs@ == s@,
            ps@ == pat@,
            n == cs.len(),
            m == ps.len(),
            m > 0,
            i <= n,
            out@ + removed_all(s@.skip(i as int), pat@) == removed_all(s@, pat@),
        decreases n - i,
    {
        let ghost rest = s@.skip(i as int);
        let mut same = m <= n - i;
        let mut j: usize = 0;
        while same && j < m
            invariant
                cs@ == s@,
                ps@ == pat@,
                n == cs.len(),
                m == ps.len(),
                i < n,
                j <= m,
                same ==> m <= n - i,
                same ==> forall|k: int| 0 <= k < j ==> cs@[i + k] == ps@[k],
                !same ==> !(m <= n - i && s@.subrange(i as int, i + m) == pat@),
            decreases m - j,
        {
            if cs[i + j] != ps[j] {
                same = false;
                proof {
                    if m <= n - i && s@.subrange(i as int, i + m) == pat@ {
                        assert(s@.subrange(i as int, i + m)[j as int] == cs@[i + j]);
                    }
                }
            }
            j = j + 1;
        }
        if same {
            proof {
                assert(rest.take(m as int) =~= pat@);
                assert(rest.skip(m as int) =~= s@.skip(i + m));
            }
            i = i + m;
        } else {
            proof {
                assert(!(m <= rest.len() && rest.take(m as int) == pat@)) by {
                    if m <= rest.len() && rest.take(m as int) == pat@ {
                        assert(s@.subrange(i as int, i + m) =~= rest.take(m as int));
                    }
                }
                assert(rest.drop_first() =~= s@.skip(i + 1));
            }
            let piece = s.substring_char(i, i + 1);
            out.append(piece);
            proof {
                assert(piece@ =~= seq![rest[0]]);
            }
            i = i + 1;
        }
    }
    proof {
        assert(s@.skip(n as int) =~= Seq::<char>::empty());
        assert(out@ + Seq::<char>::empty() =~= out@);
    }
    out
}

/// How a file is named in the report (see `relative_label_of`), from its
/// canonical path, the canonical working directory, and the path as given.
pub fn relative_label(full: &Option<String>, current: &Option<String>, raw: &str) -> (r: String)
    ensures
        r@ == relative_label_of(
            match full {
                Some(f) => Some(f@),
                None => None,
            },
            match current {
                Some(c) => Some(c@),
                None => None,
            },
            raw@,
        ),
{
    proof {
        reveal_strlit(".");
        reveal_strlit("./");
        reveal_strlit("^\\./");
        reveal_strlit("");
    }
    match (full, current) {
        (Some(f), Some(c)) => {
            let mut out = String::from_str(".");
            let rest = remove_all(f.as_str(), c.as_str());
            out.append(rest.as_str());
            assert("."@ =~= seq!['.']);
            out
        },
        _ => {
            let mut out = String::from_str("./");
            assert("^\\./"@ =~= seq!['^', '\\', '.', '/']);
            let stripped = regex_replace_all("^\\./", raw, "");
            match stripped {
                Some(t) => out.append(t.as_str()),
                None => {},
            }
            assert("./"@ =~= seq!['.', '/']);
            out
        },
    }
}

} // verus!

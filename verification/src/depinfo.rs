//! Parsing of the compiler's two probe outputs: the Makefile-like dep-info
//! file that lists the source inputs, and the file-name print that lists
//! the output basenames.  Also the path join both of them need.

use vstd::prelude::*;

verus! {

use vstd::relations::sorted_by;
use vstd::string::StrSliceExecFns;
use vstd::string::StringExecFns;
use crate::strkit::{first_index_of, lemma_first_index_of, split_on, str_find_char, str_leq,
    str_split, str_trim, substr, trim_spec};
use crate::order::{sort_strings, views};

/// Whether a path is absolute.
pub open spec fn is_absolute(p: Seq<char>) -> bool {
    p.len() > 0 && p[0] == '/'
}

/// Joining `p` onto `cwd`: an absolute `p` wins; otherwise `p` follows
/// `cwd`, with a separator inserted when `cwd` does not already end in one.
pub open spec fn join_path(cwd: Seq<char>, p: Seq<char>) -> Seq<char> {
    if is_absolute(p) {
        p
    } else if cwd.len() == 0 {
        p
    } else if cwd[cwd.len() - 1] == '/' {
        cwd + p
    } else {
        cwd + seq!['/'] + p
    }
}

/// An absolute path is preserved by the join, whatever the working
/// directory.
pub proof fn lemma_join_absolute(cwd: Seq<char>, p: Seq<char>)
    requires
        is_absolute(p),
    ensures
        join_path(cwd, p) == p,
{
}

/// A relative path is prefixed with the working directory, separator
/// included.
pub proof fn lemma_join_relative(cwd: Seq<char>, p: Seq<char>)
    requires
        !is_absolute(p),
        cwd.len() > 0,
    ensures
        cwd[cwd.len() - 1] == '/' ==> join_path(cwd, p) == cwd + p,
        cwd[cwd.len() - 1] != '/' ==> join_path(cwd, p) == cwd + seq!['/'] + p,
        cwd.is_prefix_of(join_path(cwd, p)),
{
    if cwd[cwd.len() - 1] == '/' {
        assert((cwd + p).take(cwd.len() as int) =~= cwd);
    } else {
        assert((cwd + seq!['/'] + p).take(cwd.len() as int) =~= cwd);
    }
}

/// Joins `p` onto `cwd`.
pub fn join_path_exec(cwd: &str, p: &str) -> (r: String)
    ensures
        r@ == join_path(cwd@, p@),
{
    let lp: usize = p.unicode_len();
    if lp > 0 && p.get_char(0) == '/' {
        return String::from_str(p);
    }
    let lc: usize = cwd.unicode_len();
    if lc == 0 {
        return String::from_str(p);
    }
    let mut r = String::from_str(cwd);
    if cwd.get_char(lc - 1) != '/' {
        r.append("/");
        proof {
            reveal_strlit("/");
            assert(r@ =~= cwd@ + seq!['/']);
        }
    }
    r.append(p);
    proof {
        assert(r@ =~= join_path(cwd@, p@));
    }
    r
}

/// A line with one trailing carriage return removed, as `str::lines`
/// yields it.
pub open spec fn strip_cr(l: Seq<char>) -> Seq<char> {
    if l.len() > 0 && l[l.len() - 1] == '\r' {
        l.drop_last()
    } else {
        l
    }
}

fn strip_cr_exec(l: &str) -> (r: String)
    ensures
        r@ == strip_cr(l@),
{
    let n: usize = l.unicode_len();
    if n > 0 && l.get_char(n - 1) == '\r' {
        let r = substr(l, 0, n - 1);
        proof {
            assert(r@ =~= l@.drop_last());
        }
        r
    } else {
        String::from_str(l)
    }
}

/// The first line of `s`: up to the first newline, carriage return
/// stripped.
pub open spec fn first_line(s: Seq<char>) -> Seq<char> {
    match first_index_of(s, '\n') {
        Some(i) => strip_cr(s.take(i)),
        None => strip_cr(s),
    }
}

fn first_line_exec(s: &str) -> (r: String)
    ensures
        r@ == first_line(s@),
{
    proof {
        lemma_first_index_of(s@, '\n');
    }
    match str_find_char(s, '\n') {
        Some(i) => {
            let raw = substr(s, 0, i);
            proof {
                assert(raw@ =~= s@.take(i as int));
            }
            strip_cr_exec(raw.as_str())
        },
        None => strip_cr_exec(s),
    }
}

/// The position of the first `": "` in `line`, if any.
pub open spec fn find_colon_space(line: Seq<char>) -> Option<int>
    decreases line.len(),
{
    if line.len() < 2 {
        None
    } else if line[0] == ':' && line[1] == ' ' {
        Some(0int)
    } else {
        match find_colon_space(line.drop_first()) {
            None => None,
            Some(i) => Some(i + 1),
        }
    }
}

proof fn lemma_find_colon_space(line: Seq<char>)
    ensures
        match find_colon_space(line) {
            Some(i) => 0 <= i && i + 2 <= line.len() && line[i] == ':' && line[i + 1] == ' '
                && forall|j: int| 0 <= j < i ==> !(#[trigger] line[j] == ':' && line[j + 1] == ' '),
            None => forall|j: int| 0 <= j && j + 1 < line.len() ==> !(#[trigger] line[j] == ':' && line[j + 1] == ' '),
        },
    decreases line.len(),
{
    if line.len() >= 2 && !(line[0] == ':' && line[1] == ' ') {
        let d = line.drop_first();
        lemma_find_colon_space(d);
        match find_colon_space(d) {
            Some(i) => {
                assert forall|j: int| 0 <= j < i + 1 implies !(#[trigger] line[j] == ':' && line[j
                    + 1] == ' ') by {
                    if j > 0 {
                        assert(d[j - 1] == line[j]);
                        assert(d[j] == line[j + 1]);
                    }
                }
            },
            None => {
                assert forall|j: int| 0 <= j && j + 1 < line.len() implies !(#[trigger] line[j]
                    == ':' && line[j + 1] == ' ') by {
                    if j > 0 {
                        assert(d[j - 1] == line[j]);
                        assert(d[j] == line[j + 1]);
                    }
                }
            },
        }
    }
}

fn find_colon_space_exec(line: &str) -> (r: Option<usize>)
    ensures
        match r {
            Some(i) => find_colon_space(line@) == Some(i as int),
            None => find_colon_space(line@) is None,
        },
{
    proof {
        lemma_find_colon_space(line@);
    }
    let n: usize = line.unicode_len();
    if n < 2 {
        return None;
    }
    let mut i: usize = 0;
    while i + 1 < n
        invariant
            i + 1 <= n,
            n == line@.len(),
            forall|j: int| 0 <= j < i ==> !(#[trigger] line@[j] == ':' && line@[j + 1] == ' '),
            match find_colon_space(line@) {
                Some(k) => 0 <= k && k + 2 <= line@.len() && line@[k] == ':' && line@[k + 1] == ' '
                    && forall|j: int| 0 <= j < k ==> !(#[trigger] line@[j] == ':' && line@[j + 1] == ' '),
                None => forall|j: int|
                    0 <= j && j + 1 < line@.len() ==> !(#[trigger] line@[j] == ':' && line@[j + 1]
                        == ' '),
            },
        decreases n - i,
    {
        if line.get_char(i) == ':' && line.get_char(i + 1) == ' ' {
            return Some(i);
        }
        i = i + 1;
    }
    None
}

/// Trims every token, drops the empty ones, and joins each survivor onto
/// the working directory, in order.
pub open spec fn clean_toks(toks: Seq<Seq<char>>, cwd: Seq<char>) -> Seq<Seq<char>>
    decreases toks.len(),
{
    if toks.len() == 0 {
        Seq::empty()
    } else {
        let t = trim_spec(toks[0]);
        let rest = clean_toks(toks.drop_first(), cwd);
        if t.len() > 0 {
            seq![join_path(cwd, t)] + rest
        } else {
            rest
        }
    }
}

/// What dep-info parsing returns: nothing for an empty file or a first
/// line without `": "`; otherwise the dependency field of the first line,
/// split on spaces, cleaned, joined onto `cwd`, and sorted.
pub open spec fn parse_dep_info_spec(dep: Seq<char>, cwd: Seq<char>) -> Seq<Seq<char>> {
    if dep.len() == 0 {
        Seq::empty()
    } else {
        let line = first_line(dep);
        match find_colon_space(line) {
            None => Seq::empty(),
            Some(p) => clean_toks(split_on(line.skip(p + 2), ' '), cwd).sort_by(str_leq()),
        }
    }
}

/// Parses a dep-info file body against a working directory.
pub fn parse_dep_info(dep_info: &str, cwd: &str) -> (r: Vec<String>)
    ensures
        views(r@) == parse_dep_info_spec(dep_info@, cwd@),
{
    let n: usize = dep_info.unicode_len();
    if n == 0 {
        let r: Vec<String> = Vec::new();
        proof {
            assert(views(r@) =~~= parse_dep_info_spec(dep_info@, cwd@));
        }
        return r;
    }
    let line = first_line_exec(dep_info);
    match find_colon_space_exec(line.as_str()) {
        None => {
            let r: Vec<String> = Vec::new();
            proof {
                assert(views(r@) =~~= parse_dep_info_spec(dep_info@, cwd@));
            }
            r
        },
        Some(p) => {
            let ll: usize = line.as_str().unicode_len();
            proof {
                lemma_find_colon_space(line@);
            }
            let field = substr(line.as_str(), p + 2, ll);
            proof {
                assert(field@ =~= line@.skip(p as int + 2));
            }
            let toks = str_split(field.as_str(), ' ');
            let ghost tv = toks@.map_values(|t: String| t@);
            let mut cleaned: Vec<String> = Vec::new();
            let mut k: usize = 0;
            proof {
                assert(tv.skip(0) =~~= tv);
                assert(views(cleaned@) =~~= Seq::<Seq<char>>::empty());
            }
            while k < toks.len()
                invariant
                    k <= toks@.len(),
                    tv == toks@.map_values(|t: String| t@),
                    views(cleaned@) + clean_toks(tv.skip(k as int), cwd@) =~~= clean_toks(
                        tv,
                        cwd@,
                    ),
                decreases toks@.len() - k,
            {
                let ghost rem = tv.skip(k as int);
                proof {
                    assert(rem[0] == tv[k as int]);
                    assert(rem.drop_first() =~~= tv.skip(k as int + 1));
                }
                let t = str_trim(toks[k].as_str());
                if t.as_str().unicode_len() > 0 {
                    let joined = join_path_exec(cwd, t.as_str());
                    proof {
                        assert(views(cleaned@.push(joined)) =~~= views(cleaned@).push(joined@));
                    }
                    cleaned.push(joined);
                }
                k = k + 1;
            }
            proof {
                assert(tv.skip(k as int) =~~= Seq::<Seq<char>>::empty());
                assert(clean_toks(tv.skip(k as int), cwd@) =~~= Seq::<Seq<char>>::empty());
                assert(views(cleaned@) =~~= clean_toks(tv, cwd@));
            }
            let r = sort_strings(&cleaned);
            proof {
                assert(views(r@) == parse_dep_info_spec(dep_info@, cwd@));
            }
            r
        },
    }
}

/// Dep-info parsing reads nothing but the first line: bodies with the same
/// first line parse the same, so blank or colon-only trailing lines are
/// ignored.
pub proof fn lemma_dep_info_first_line_only(dep1: Seq<char>, dep2: Seq<char>, cwd: Seq<char>)
    requires
        dep1.len() > 0,
        dep2.len() > 0,
        first_line(dep1) == first_line(dep2),
    ensures
        parse_dep_info_spec(dep1, cwd) == parse_dep_info_spec(dep2, cwd),
{
}

/// The parsed dependency list is sorted.
pub proof fn lemma_dep_info_sorted(dep: Seq<char>, cwd: Seq<char>)
    ensures
        sorted_by(parse_dep_info_spec(dep, cwd), str_leq()),
{
    crate::strkit::lemma_str_le_total_ordering();
    if dep.len() > 0 {
        let line = first_line(dep);
        match find_colon_space(line) {
            None => {},
            Some(p) => {
                let cleaned = clean_toks(split_on(line.skip(p + 2), ' '), cwd);
                cleaned.lemma_sort_by_ensures(str_leq());
            },
        }
    }
}

/// The non-empty lines of the file-name print, carriage returns stripped.
pub open spec fn clean_lines(ls: Seq<Seq<char>>) -> Seq<Seq<char>>
    decreases ls.len(),
{
    if ls.len() == 0 {
        Seq::empty()
    } else {
        let t = strip_cr(ls[0]);
        let rest = clean_lines(ls.drop_first());
        if t.len() > 0 {
            seq![t] + rest
        } else {
            rest
        }
    }
}

/// What the output enumeration returns: one basename per non-empty line of
/// the compiler's file-name print.
pub open spec fn file_names_spec(out: Seq<char>) -> Seq<Seq<char>> {
    clean_lines(split_on(out, '\n'))
}

/// Parses the compiler's file-name print: one basename per non-empty line.
pub fn parse_file_names(out: &str) -> (r: Vec<String>)
    ensures
        views(r@) == file_names_spec(out@),
{
    let ls = str_split(out, '\n');
    let ghost lv = ls@.map_values(|t: String| t@);
    let mut r: Vec<String> = Vec::new();
    let mut k: usize = 0;
    proof {
        assert(lv.skip(0) =~~= lv);
        assert(views(r@) =~~= Seq::<Seq<char>>::empty());
    }
    while k < ls.len()
        invariant
            k <= ls@.len(),
            lv == ls@.map_values(|t: String| t@),
            views(r@) + clean_lines(lv.skip(k as int)) =~~= clean_lines(lv),
        decreases ls@.len() - k,
    {
        let ghost rem = lv.skip(k as int);
        proof {
            assert(rem[0] == lv[k as int]);
            assert(rem.drop_first() =~~= lv.skip(k as int + 1));
        }
        let t = strip_cr_exec(ls[k].as_str());
        if t.as_str().unicode_len() > 0 {
            proof {
                assert(views(r@.push(t)) =~~= views(r@).push(t@));
            }
            r.push(t);
        }
        k = k + 1;
    }
    proof {
        assert(lv.skip(k as int) =~~= Seq::<Seq<char>>::empty());
        assert(clean_lines(lv.skip(k as int)) =~~= Seq::<Seq<char>>::empty());
        assert(views(r@) =~~= clean_lines(lv));
    }
    r
}

} // verus!

//! Lexical dependency scan for SQL scripts: table references after the
//! clause keywords, and stored-procedure calls after an execute keyword.
//! Matching is case-insensitive on the keyword, and the referenced name is
//! the first token after it, stripped of punctuation.

use vstd::prelude::*;
use vstd::string::*;

use crate::facts::{DepModel, Dependency, deps_view};
use crate::projectfiles::make_dep;
use crate::scan::{
    char_len, contains_upper, csq, find_sub_upper, is_ws, lines_of, split_lines,
    starts_with, str_contains_upper, str_find_sub_upper, str_starts_with, substr, trimmed,
    trimmed_of, ws_end, ws_end_at,
};

verus! {

/// Characters kept in a referenced SQL name; everything else is stripped
/// from the token's ends.
pub open spec fn sql_name_char(c: char) -> bool {
    ('a' <= c && c <= 'z') || ('A' <= c && c <= 'Z') || ('0' <= c && c <= '9') || c == '.'
        || c == '_' || c == '[' || c == ']'
}

fn char_is_sql_name(c: char) -> (r: bool)
    ensures
        r == sql_name_char(c),
{
    let u = c as u32;
    (97 <= u && u <= 122) || (65 <= u && u <= 90) || (48 <= u && u <= 57) || c == '.' || c == '_'
        || c == '[' || c == ']'
}

/// End of the whitespace-delimited token starting at `i`.
pub open spec fn token_end(s: Seq<char>, i: int) -> int
    decreases s.len() - i,
{
    if i < 0 || i >= s.len() {
        i
    } else if !is_ws(s[i]) {
        token_end(s, i + 1)
    } else {
        i
    }
}

pub proof fn lemma_token_end_bounds(s: Seq<char>, i: int)
    requires
        0 <= i <= s.len(),
    ensures
        i <= token_end(s, i) <= s.len(),
    decreases s.len() - i,
{
    if i < s.len() && !is_ws(s[i]) {
        lemma_token_end_bounds(s, i + 1);
    }
}

/// First index at or after `i` holding a kept name character.
pub open spec fn keep_start(s: Seq<char>, i: int) -> int
    decreases s.len() - i,
{
    if i < 0 || i >= s.len() {
        i
    } else if !sql_name_char(s[i]) {
        keep_start(s, i + 1)
    } else {
        i
    }
}

proof fn lemma_keep_start_bounds(s: Seq<char>, i: int)
    requires
        0 <= i <= s.len(),
    ensures
        i <= keep_start(s, i) <= s.len(),
    decreases s.len() - i,
{
    if i < s.len() && !sql_name_char(s[i]) {
        lemma_keep_start_bounds(s, i + 1);
    }
}

/// Least prefix length of `s.subrange(0, i)` discarding trailing stripped
/// characters.
pub open spec fn keep_back(s: Seq<char>, i: int) -> int
    decreases i,
{
    if i <= 0 || i > s.len() {
        0
    } else if !sql_name_char(s[i - 1]) {
        keep_back(s, i - 1)
    } else {
        i
    }
}

proof fn lemma_keep_back_bounds(s: Seq<char>, i: int)
    requires
        0 <= i <= s.len(),
    ensures
        0 <= keep_back(s, i) <= i,
    decreases i,
{
    if 0 < i && !sql_name_char(s[i - 1]) {
        lemma_keep_back_bounds(s, i - 1);
    }
}

/// The referenced name found at or after `i`: the first
/// whitespace-delimited token, stripped at both ends of everything but name
/// characters.
pub open spec fn sql_name_at(s: Seq<char>, i: int) -> Seq<char> {
    let a = ws_end(s, i);
    let b = token_end(s, a);
    let tok = if a >= b {
        Seq::<char>::empty()
    } else {
        s.subrange(a, b)
    };
    let lo = keep_start(tok, 0);
    let hi = keep_back(tok, tok.len() as int);
    if lo >= hi {
        Seq::<char>::empty()
    } else {
        tok.subrange(lo, hi)
    }
}

/// The stripped first token at or after `i`, executable form.
fn sql_name_from(s: &str, n: usize, i: usize) -> (r: String)
    requires
        n == s@.len(),
        i <= n,
    ensures
        r@ == sql_name_at(s@, i as int),
{
    let a = ws_end_at(s, n, i);
    let mut b = a;
    while b < n && !crate::scan::char_is_ws(s.get_char(b))
        invariant
            a <= b <= n,
            n == s@.len(),
            token_end(s@, a as int) == token_end(s@, b as int),
        decreases n - b,
    {
        b = b + 1;
    }
    proof {
        lemma_token_end_bounds(s@, b as int);
    }
    if a >= b {
        let ghost tok = Seq::<char>::empty();
        proof {
            assert(keep_start(tok, 0) == 0);
            assert(keep_back(tok, 0) == 0);
        }
        return String::new();
    }
    let ghost tok = s@.subrange(a as int, b as int);
    let mut lo = a;
    while lo < b && !char_is_sql_name(s.get_char(lo))
        invariant
            a <= lo <= b <= n,
            n == s@.len(),
            tok == s@.subrange(a as int, b as int),
            keep_start(tok, 0) == keep_start(tok, lo - a),
        decreases b - lo,
    {
        proof {
            assert(tok[lo - a] == s@[lo as int]);
        }
        lo = lo + 1;
    }
    proof {
        lemma_keep_start_bounds(tok, lo - a);
        if lo < b {
            assert(keep_start(tok, lo - a) == lo - a);
        }
    }
    let mut hi = b;
    while hi > lo && !char_is_sql_name(s.get_char(hi - 1))
        invariant
            a <= lo <= hi <= b <= n,
            n == s@.len(),
            tok == s@.subrange(a as int, b as int),
            keep_back(tok, b - a) == keep_back(tok, hi - a),
        decreases hi,
    {
        proof {
            assert(0 <= hi - 1 - a < b - a);
            assert(s@.subrange(a as int, b as int)[hi - 1 - a] == s@[hi - 1]);
            assert(tok[hi - 1 - a] == s@[hi - 1]);
        }
        hi = hi - 1;
    }
    proof {
        lemma_keep_back_bounds(tok, hi - a);
        if hi > lo {
            assert(keep_back(tok, hi - a) == hi - a);
        }
        if lo >= hi {
            assert(keep_start(tok, 0) >= keep_back(tok, b - a));
        } else {
            assert(tok.subrange(lo - a, hi - a) =~= s@.subrange(lo as int, hi as int));
        }
    }
    substr(s, lo, hi)
}

/// What one clause keyword contributes: the table reference after the first
/// occurrence of `marker` (compared after uppercase folding), when its
/// stripped name is non-empty.
pub open spec fn sql_rule(
    line: Seq<char>,
    path: Seq<char>,
    ln: int,
    marker: Seq<char>,
    dep_type: Seq<char>,
) -> Seq<DepModel> {
    match find_sub_upper(line, 0, marker) {
        Some(pos) => {
            let name = sql_name_at(line, pos + marker.len());
            if name.len() > 0 {
                seq![
                    DepModel {
                        name,
                        source_path: path,
                        is_external: false,
                        line_number: Some(ln),
                        dependency_type: dep_type,
                        version: None,
                    },
                ]
            } else {
                Seq::empty()
            }
        },
        None => Seq::empty(),
    }
}

fn apply_sql_rule(
    line: &str,
    n: usize,
    source_path: &str,
    lineno: usize,
    marker: &str,
    dep_type: &str,
    out: &mut Vec<Dependency>,
)
    requires
        lineno >= 1,
        n == line@.len(),
    ensures
        deps_view(final(out)@) == deps_view(old(out)@) + sql_rule(
            line@,
            source_path@,
            lineno as int,
            marker@,
            dep_type@,
        ),
{
    let ghost acc0 = deps_view(out@);
    let m = char_len(marker);
    match str_find_sub_upper(line, n, 0, marker, m) {
        Some(pos) => {
            let name = sql_name_from(line, n, pos + m);
            if name.as_str().is_empty() {
                proof {
                    assert(deps_view(out@) =~= acc0 + sql_rule(
                        line@,
                        source_path@,
                        lineno as int,
                        marker@,
                        dep_type@,
                    ));
                }
            } else {
                let d = make_dep(name, source_path, false, lineno, dep_type, None);
                out.push(d);
                proof {
                    assert(deps_view(out@) =~= acc0 + sql_rule(
                        line@,
                        source_path@,
                        lineno as int,
                        marker@,
                        dep_type@,
                    ));
                }
            }
        },
        None => {},
    }
}

/// The stored-procedure rule: the name after `EXECUTE ` (or, failing that,
/// `EXEC `), unless it is empty or a local variable marked with `@`.
pub open spec fn sql_exec_rule(line: Seq<char>, path: Seq<char>, ln: int) -> Seq<DepModel> {
    let pos = if find_sub_upper(line, 0, csq("EXECUTE ")) is Some {
        Some(find_sub_upper(line, 0, csq("EXECUTE ")).unwrap() + 8)
    } else if find_sub_upper(line, 0, csq("EXEC ")) is Some {
        Some(find_sub_upper(line, 0, csq("EXEC ")).unwrap() + 5)
    } else {
        None
    };
    match pos {
        Some(p) => {
            let name = sql_name_at(line, p);
            if name.len() > 0 && name[0] != '@' {
                seq![
                    DepModel {
                        name,
                        source_path: path,
                        is_external: false,
                        line_number: Some(ln),
                        dependency_type: csq("stored_procedure_call"),
                        version: None,
                    },
                ]
            } else {
                Seq::empty()
            }
        },
        None => Seq::empty(),
    }
}

fn apply_sql_exec_rule(
    line: &str,
    n: usize,
    source_path: &str,
    lineno: usize,
    out: &mut Vec<Dependency>,
)
    requires
        lineno >= 1,
        n == line@.len(),
    ensures
        deps_view(final(out)@) == deps_view(old(out)@) + sql_exec_rule(
            line@,
            source_path@,
            lineno as int,
        ),
{
    let ghost acc0 = deps_view(out@);
    proof {
        reveal_strlit("EXECUTE ");
        reveal_strlit("EXEC ");
    }
    let pos: Option<usize> = match str_find_sub_upper(line, n, 0, "EXECUTE ", char_len(
        "EXECUTE ",
    )) {
        Some(p) => Some(p + 8),
        None => {
            match str_find_sub_upper(line, n, 0, "EXEC ", char_len("EXEC ")) {
                Some(p) => Some(p + 5),
                None => None,
            }
        },
    };
    match pos {
        Some(p) => {
            let name = sql_name_from(line, n, p);
            let nn = char_len(name.as_str());
            if nn > 0 && name.as_str().get_char(0) != '@' {
                let d = make_dep(name, source_path, false, lineno, "stored_procedure_call", None);
                out.push(d);
                proof {
                    assert(deps_view(out@) =~= acc0 + sql_exec_rule(
                        line@,
                        source_path@,
                        lineno as int,
                    ));
                }
            } else {
                proof {
                    assert(deps_view(out@) =~= acc0 + sql_exec_rule(
                        line@,
                        source_path@,
                        lineno as int,
                    ));
                }
            }
        },
        None => {},
    }
}

/// All dependencies of one SQL line: nothing for a comment line, else the
/// clause rules in order, then the stored-procedure rule. The update rule
/// is suppressed for statistics maintenance statements.
pub open spec fn sql_line_deps(line: Seq<char>, path: Seq<char>, ln: int) -> Seq<DepModel> {
    let t = trimmed(line);
    if starts_with(t, csq("--")) || starts_with(t, csq("/*")) {
        Seq::empty()
    } else {
        sql_rule(line, path, ln, csq(" FROM "), csq("table_reference")) + sql_rule(
            line,
            path,
            ln,
            csq(" JOIN "),
            csq("table_reference"),
        ) + sql_rule(line, path, ln, csq("INSERT INTO "), csq("table_reference")) + (if
        contains_upper(line, csq("UPDATE STATISTICS")) {
            Seq::<DepModel>::empty()
        } else {
            sql_rule(line, path, ln, csq("UPDATE "), csq("table_reference"))
        }) + sql_rule(line, path, ln, csq("DELETE FROM "), csq("table_reference"))
            + sql_exec_rule(line, path, ln)
    }
}

pub open spec fn sql_deps_from(lines: Seq<Seq<char>>, path: Seq<char>, i: int) -> Seq<DepModel>
    decreases lines.len() - i,
{
    if i < 0 || i >= lines.len() {
        Seq::empty()
    } else {
        sql_line_deps(lines[i], path, i + 1) + sql_deps_from(lines, path, i + 1)
    }
}

/// The dependency records of a whole SQL script.
pub open spec fn sql_deps(content: Seq<char>, path: Seq<char>) -> Seq<DepModel> {
    sql_deps_from(lines_of(content), path, 0)
}

#[verifier::rlimit(80)]
fn scan_sql_line(line: &str, source_path: &str, lineno: usize, out: &mut Vec<Dependency>)
    requires
        lineno >= 1,
    ensures
        deps_view(final(out)@) == deps_view(old(out)@) + sql_line_deps(
            line@,
            source_path@,
            lineno as int,
        ),
{
    let ghost acc0 = deps_view(out@);
    let n = char_len(line);
    let t = trimmed_of(line, n);
    let ts = t.as_str();
    let tn = char_len(ts);
    if str_starts_with(ts, tn, "--", char_len("--")) || str_starts_with(
        ts,
        tn,
        "/*",
        char_len("/*"),
    ) {
        proof {
            assert(deps_view(out@) =~= acc0 + sql_line_deps(
                line@,
                source_path@,
                lineno as int,
            ));
        }
        return ;
    }
    apply_sql_rule(line, n, source_path, lineno, " FROM ", "table_reference", out);
    apply_sql_rule(line, n, source_path, lineno, " JOIN ", "table_reference", out);
    apply_sql_rule(line, n, source_path, lineno, "INSERT INTO ", "table_reference", out);
    if !str_contains_upper(line, n, "UPDATE STATISTICS", char_len("UPDATE STATISTICS")) {
        apply_sql_rule(line, n, source_path, lineno, "UPDATE ", "table_reference", out);
    }
    apply_sql_rule(line, n, source_path, lineno, "DELETE FROM ", "table_reference", out);
    apply_sql_exec_rule(line, n, source_path, lineno, out);
    proof {
        assert(deps_view(out@) =~= acc0 + sql_line_deps(line@, source_path@, lineno as int));
    }
}

/// Dependencies of a SQL script: table references from the query clauses
/// and stored-procedure calls.
pub fn extract_sql_dependencies(content: &str, source_path: &str) -> (r: Vec<Dependency>)
    ensures
        deps_view(r@) == sql_deps(content@, source_path@),
{
    let lines = split_lines(content);
    let mut out: Vec<Dependency> = Vec::new();
    let mut i: usize = 0;
    while i < lines.len()
        invariant
            0 <= i <= lines.len(),
            lines@.map_values(|l: String| l@) == lines_of(content@),
            sql_deps(content@, source_path@) =~= deps_view(out@) + sql_deps_from(
                lines_of(content@),
                source_path@,
                i as int,
            ),
        decreases lines.len() - i,
    {
        proof {
            assert(lines_of(content@)[i as int] == lines@[i as int]@);
        }
        scan_sql_line(lines[i].as_str(), source_path, i + 1, &mut out);
        i = i + 1;
    }
    proof {
        assert(sql_deps(content@, source_path@) =~= deps_view(out@));
    }
    out
}

} // verus!

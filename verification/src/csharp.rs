//! The C# language processor: the per-extension dispatch between the
//! declaration scan and the manifest-style block scanners, the using and
//! namespace edges of a source file, whole-file classification, and the
//! important-line filter used by downstream summarization.

use vstd::prelude::*;
use vstd::string::*;

use crate::csdecl::{cs_ifaces, extract_cs_interfaces};
use crate::facts::{DepModel, Dependency, InterfaceInfo, deps_view, ifaces_view};
use crate::projectfiles::{
    csproj_deps, extract_csproj_dependencies, extract_sln_dependencies,
    extract_sqlproj_dependencies, make_dep, sln_deps, sqlproj_deps,
};
use crate::scan::{
    char_len, contains_sub, contains_upper, csq, ends_with, find_char_from, find_from,
    last_char_before, last_segment, lines_of, matches_at, rfind_char, split_lines, starts_with,
    str_contains, str_contains_upper, str_ends_with, str_matches_at, str_starts_with, substr,
    trimmed, trimmed_of, file_name_of, ws_end, ws_end_at,
};
use crate::sqlscan::{extract_sql_dependencies, sql_deps};

verus! {

// ------------------------------------------------------------------
// The using and namespace edges of a C# source line.
// ------------------------------------------------------------------

/// The target of a using directive: the text between the keyword and the
/// semicolon, when the line has that shape.
pub open spec fn using_capture(line: Seq<char>) -> Option<Seq<char>> {
    let i = ws_end(line, 0);
    if matches_at(line, i, csq("using")) {
        let j0 = i + csq("using").len();
        let j = ws_end(line, j0);
        if j > j0 {
            let k = find_from(line, j, ';');
            if j < k && k < line.len() {
                Some(line.subrange(j, k))
            } else {
                None
            }
        } else {
            None
        }
    } else {
        None
    }
}

/// The last dot-separated piece of a using target: the innermost namespace
/// name.
pub open spec fn last_dot_segment(s: Seq<char>) -> Seq<char> {
    s.subrange(last_char_before(s, s.len() as int, '.') + 1, s.len() as int)
}

/// What a using directive contributes: nothing for static usings and
/// aliases; otherwise one edge named by the innermost namespace, external
/// when the target is a platform namespace or has no dot at all.
pub open spec fn using_deps(line: Seq<char>, path: Seq<char>, ln: int) -> Seq<DepModel> {
    match using_capture(line) {
        Some(raw) => {
            let u = trimmed(raw);
            if starts_with(u, csq("static ")) || contains_sub(u, csq(" = ")) {
                Seq::empty()
            } else {
                seq![
                    DepModel {
                        name: last_dot_segment(u),
                        source_path: path,
                        is_external: starts_with(u, csq("System")) || starts_with(
                            u,
                            csq("Microsoft"),
                        ) || find_from(u, 0, '.') >= u.len(),
                        line_number: Some(ln),
                        dependency_type: csq("using"),
                        version: None,
                    },
                ]
            }
        },
        None => Seq::empty(),
    }
}

/// The target of a namespace declaration: the text after the keyword, up
/// to a semicolon or opening brace.
pub open spec fn namespace_capture(line: Seq<char>) -> Option<Seq<char>> {
    let i = ws_end(line, 0);
    if matches_at(line, i, csq("namespace")) {
        let j0 = i + csq("namespace").len();
        let j = ws_end(line, j0);
        if j > j0 {
            let k1 = find_from(line, j, ';');
            let k2 = find_from(line, j, '{');
            let k = if k1 < k2 {
                k1
            } else {
                k2
            };
            if j < k {
                Some(line.subrange(j, k))
            } else {
                None
            }
        } else {
            None
        }
    } else {
        None
    }
}

/// What a namespace declaration contributes: one internal edge named by
/// the trimmed namespace path.
pub open spec fn namespace_deps(line: Seq<char>, path: Seq<char>, ln: int) -> Seq<DepModel> {
    match namespace_capture(line) {
        Some(raw) => seq![
            DepModel {
                name: trimmed(raw),
                source_path: path,
                is_external: false,
                line_number: Some(ln),
                dependency_type: csq("namespace"),
                version: None,
            },
        ],
        None => Seq::empty(),
    }
}

/// All dependency edges of one C# source line.
pub open spec fn cs_line_deps(line: Seq<char>, path: Seq<char>, ln: int) -> Seq<DepModel> {
    using_deps(line, path, ln) + namespace_deps(line, path, ln)
}

pub open spec fn cs_deps_from(lines: Seq<Seq<char>>, path: Seq<char>, i: int) -> Seq<DepModel>
    decreases lines.len() - i,
{
    if i < 0 || i >= lines.len() {
        Seq::empty()
    } else {
        cs_line_deps(lines[i], path, i + 1) + cs_deps_from(lines, path, i + 1)
    }
}

/// The dependency edges of a whole C# source text.
pub open spec fn cs_deps(content: Seq<char>, path: Seq<char>) -> Seq<DepModel> {
    cs_deps_from(lines_of(content), path, 0)
}

#[verifier::rlimit(60)]
fn scan_cs_line(line: &str, source_path: &str, lineno: usize, out: &mut Vec<Dependency>)
    requires
        lineno >= 1,
    ensures
        deps_view(final(out)@) == deps_view(old(out)@) + cs_line_deps(
            line@,
            source_path@,
            lineno as int,
        ),
{
    let ghost ln = lineno as int;
    let ghost acc0 = deps_view(out@);
    let n = char_len(line);
    let i = ws_end_at(line, n, 0);
    if str_matches_at(line, n, i, "using", char_len("using")) {
        let j0 = i + char_len("using");
        let j = ws_end_at(line, n, j0);
        if j > j0 {
            let k = find_char_from(line, n, j, ';');
            if j < k && k < n {
                let raw = substr(line, j, k);
                let u = trimmed_of(raw.as_str(), char_len(raw.as_str()));
                let us = u.as_str();
                let un = char_len(us);
                if str_starts_with(us, un, "static ", char_len("static ")) || str_contains(
                    us,
                    un,
                    " = ",
                    char_len(" = "),
                ) {
                    // a static using or a using alias: no edge
                } else {
                    let is_external = str_starts_with(us, un, "System", char_len("System"))
                        || str_starts_with(us, un, "Microsoft", char_len("Microsoft"))
                        || find_char_from(us, un, 0, '.') >= un;
                    let name = match rfind_char(us, un, '.') {
                        Some(d) => substr(us, d + 1, un),
                        None => String::from_str(us),
                    };
                    proof {
                        if last_char_before(u@, un as int, '.') == -1 {
                            assert(u@.subrange(0, un as int) =~= u@);
                        }
                    }
                    let d = make_dep(name, source_path, is_external, lineno, "using", None);
                    out.push(d);
                }
            }
        }
    }
    let ghost acc1 = deps_view(out@);
    proof {
        assert(acc1 =~= acc0 + using_deps(line@, source_path@, ln));
    }
    if str_matches_at(line, n, i, "namespace", char_len("namespace")) {
        let j0 = i + char_len("namespace");
        let j = ws_end_at(line, n, j0);
        if j > j0 {
            let k1 = find_char_from(line, n, j, ';');
            let k2 = find_char_from(line, n, j, '{');
            let k = if k1 < k2 {
                k1
            } else {
                k2
            };
            if j < k {
                let raw = substr(line, j, k);
                let name = trimmed_of(raw.as_str(), char_len(raw.as_str()));
                let d = make_dep(name, source_path, false, lineno, "namespace", None);
                out.push(d);
            }
        }
    }
    proof {
        assert(deps_view(out@) =~= acc1 + namespace_deps(line@, source_path@, ln));
        assert(deps_view(out@) =~= acc0 + cs_line_deps(line@, source_path@, ln));
    }
}

/// Dependency edges of a C# source text: using directives and namespace
/// declarations.
pub fn extract_cs_dependencies(content: &str, source_path: &str) -> (r: Vec<Dependency>)
    ensures
        deps_view(r@) == cs_deps(content@, source_path@),
{
    let lines = split_lines(content);
    let mut out: Vec<Dependency> = Vec::new();
    let mut i: usize = 0;
    while i < lines.len()
        invariant
            0 <= i <= lines.len(),
            lines@.map_values(|l: String| l@) == lines_of(content@),
            cs_deps(content@, source_path@) =~= deps_view(out@) + cs_deps_from(
                lines_of(content@),
                source_path@,
                i as int,
            ),
        decreases lines.len() - i,
    {
        proof {
            assert(lines_of(content@)[i as int] == lines@[i as int]@);
        }
        scan_cs_line(lines[i].as_str(), source_path, i + 1, &mut out);
        i = i + 1;
    }
    proof {
        assert(cs_deps(content@, source_path@) =~= deps_view(out@));
    }
    out
}

// ------------------------------------------------------------------
// Extensions and dispatch.
// ------------------------------------------------------------------

/// The extension of a path: what follows the last dot of its file name, or
/// nothing when the file name has no dot past its first character.
pub open spec fn extension_of(path: Seq<char>) -> Option<Seq<char>> {
    let f = last_segment(path);
    let d = last_char_before(f, f.len() as int, '.');
    if d > 0 {
        Some(f.subrange(d + 1, f.len() as int))
    } else {
        None
    }
}

/// The extension of a path, executable form.
pub fn path_extension(path: &str) -> (r: Option<String>)
    ensures
        match r {
            Some(v) => extension_of(path@) == Some(v@),
            None => extension_of(path@) is None,
        },
{
    let f = file_name_of(path);
    let fs = f.as_str();
    let fn_len = char_len(fs);
    match rfind_char(fs, fn_len, '.') {
        Some(d) => {
            if d > 0 {
                Some(substr(fs, d + 1, fn_len))
            } else {
                None
            }
        },
        None => None,
    }
}

/// The dependency records of a source text, by the file kind its extension
/// names: the dedicated block scanners for project, database-project,
/// solution and SQL files, and the per-line C# scan for everything else.
pub open spec fn file_deps(content: Seq<char>, path: Seq<char>) -> Seq<DepModel> {
    if extension_of(path) == Some(csq("csproj")) {
        csproj_deps(content, path)
    } else if extension_of(path) == Some(csq("sqlproj")) {
        sqlproj_deps(content, path)
    } else if extension_of(path) == Some(csq("sln")) {
        sln_deps(content, path)
    } else if extension_of(path) == Some(csq("sql")) {
        sql_deps(content, path)
    } else {
        cs_deps(content, path)
    }
}

/// The C# language processor. It is stateless: the lexical grammar it
/// applies is fixed.
pub struct CSharpProcessor {
}

impl CSharpProcessor {
    /// A new processor instance.
    pub fn new() -> (r: CSharpProcessor)
        ensures
            true,
    {
        CSharpProcessor {  }
    }

    /// The file extensions this processor claims.
    pub fn supported_extensions(&self) -> (r: Vec<String>)
        ensures
            r@.len() == 5,
            r@[0]@ == csq("cs"),
            r@[1]@ == csq("csproj"),
            r@[2]@ == csq("sln"),
            r@[3]@ == csq("sqlproj"),
            r@[4]@ == csq("sql"),
    {
        let mut r: Vec<String> = Vec::new();
        r.push(String::from_str("cs"));
        r.push(String::from_str("csproj"));
        r.push(String::from_str("sln"));
        r.push(String::from_str("sqlproj"));
        r.push(String::from_str("sql"));
        r
    }

    /// The display label of the language.
    pub fn language_name(&self) -> (r: &'static str)
        ensures
            r@ == csq("C#"),
    {
        "C#"
    }

    /// The dependency records of one file, dispatched on its extension.
    /// Never fails: a text in which no pattern matches yields the empty
    /// sequence.
    pub fn extract_dependencies(&self, content: &str, file_path: &str) -> (r: Vec<Dependency>)
        ensures
            deps_view(r@) == file_deps(content@, file_path@),
    {
        let ext = path_extension(file_path);
        match ext {
            Some(e) => {
                let es = e.as_str();
                if crate::scan::str_eq(es, "csproj") {
                    extract_csproj_dependencies(content, file_path)
                } else if crate::scan::str_eq(es, "sqlproj") {
                    extract_sqlproj_dependencies(content, file_path)
                } else if crate::scan::str_eq(es, "sln") {
                    extract_sln_dependencies(content, file_path)
                } else if crate::scan::str_eq(es, "sql") {
                    extract_sql_dependencies(content, file_path)
                } else {
                    extract_cs_dependencies(content, file_path)
                }
            },
            None => extract_cs_dependencies(content, file_path),
        }
    }

    /// The declared symbols of one file. Never fails: a text in which no
    /// pattern matches yields the empty sequence.
    pub fn extract_interfaces(&self, content: &str, _file_path: &str) -> (r: Vec<
        InterfaceInfo,
    >)
        ensures
            ifaces_view(r@) == cs_ifaces(content@),
    {
        extract_cs_interfaces(content)
    }

    /// One tag classifying the whole file, from its name and content
    /// markers; the most specific match wins, with a generic fallback.
    pub fn determine_component_type(&self, file_path: &str, content: &str) -> (r: String)
        ensures
            r@ == component_type_of(file_path@, content@),
    {
        let f = file_name_of(file_path);
        let fs = f.as_str();
        let fn_len = char_len(fs);
        let n = char_len(content);
        if str_ends_with(fs, fn_len, ".csproj", char_len(".csproj")) {
            if str_contains(content, n, "Microsoft.NET.Sdk.Web", char_len(
                "Microsoft.NET.Sdk.Web",
            )) {
                String::from_str("csharp_web_project")
            } else if str_contains(content, n, "<OutputType>Exe</OutputType>", char_len(
                "<OutputType>Exe</OutputType>",
            )) {
                String::from_str("csharp_console_project")
            } else if str_contains(content, n, "<OutputType>Library</OutputType>", char_len(
                "<OutputType>Library</OutputType>",
            )) || str_contains(content, n, "Microsoft.NET.Sdk", char_len("Microsoft.NET.Sdk")) {
                String::from_str("csharp_library_project")
            } else if str_contains(content, n, "Microsoft.NET.Test.Sdk", char_len(
                "Microsoft.NET.Test.Sdk",
            )) || str_contains(fs, fn_len, "Test", char_len("Test")) {
                String::from_str("csharp_test_project")
            } else {
                String::from_str("csharp_project")
            }
        } else if str_ends_with(fs, fn_len, ".sqlproj", char_len(".sqlproj")) {
            String::from_str("sql_database_project")
        } else if str_ends_with(fs, fn_len, ".sln", char_len(".sln")) {
            String::from_str("csharp_solution")
        } else if str_ends_with(fs, fn_len, ".sql", char_len(".sql")) {
            if str_contains_upper(content, n, "CREATE TABLE", char_len("CREATE TABLE"))
                || str_contains_upper(content, n, "ALTER TABLE", char_len("ALTER TABLE")) {
                String::from_str("sql_table_definition")
            } else if str_contains_upper(content, n, "CREATE PROCEDURE", char_len(
                "CREATE PROCEDURE",
            )) || str_contains_upper(content, n, "ALTER PROCEDURE", char_len("ALTER PROCEDURE")) {
                String::from_str("sql_stored_procedure")
            } else if str_contains_upper(content, n, "CREATE VIEW", char_len("CREATE VIEW"))
                || str_contains_upper(content, n, "ALTER VIEW", char_len("ALTER VIEW")) {
                String::from_str("sql_view")
            } else if str_contains_upper(content, n, "CREATE FUNCTION", char_len(
                "CREATE FUNCTION",
            )) || str_contains_upper(content, n, "ALTER FUNCTION", char_len("ALTER FUNCTION")) {
                String::from_str("sql_function")
            } else if str_contains_upper(content, n, "CREATE TRIGGER", char_len(
                "CREATE TRIGGER",
            )) {
                String::from_str("sql_trigger")
            } else {
                String::from_str("sql_script")
            }
        } else if str_ends_with(fs, fn_len, "Test.cs", char_len("Test.cs")) || str_ends_with(
            fs,
            fn_len,
            "Tests.cs",
            char_len("Tests.cs"),
        ) || str_contains(content, n, "[Test]", char_len("[Test]")) || str_contains(
            content,
            n,
            "[TestMethod]",
            char_len("[TestMethod]"),
        ) {
            String::from_str("csharp_test")
        } else if str_contains(content, n, "interface ", char_len("interface ")) {
            String::from_str("csharp_interface")
        } else if str_contains(content, n, "enum ", char_len("enum ")) {
            String::from_str("csharp_enum")
        } else if str_contains(content, n, "struct ", char_len("struct ")) {
            String::from_str("csharp_struct")
        } else if str_contains(content, n, "abstract class", char_len("abstract class")) {
            String::from_str("csharp_abstract_class")
        } else if str_contains(content, n, "static class", char_len("static class")) {
            String::from_str("csharp_static_class")
        } else if str_contains(content, n, "sealed class", char_len("sealed class")) {
            String::from_str("csharp_sealed_class")
        } else if str_contains(content, n, "partial class", char_len("partial class")) {
            String::from_str("csharp_partial_class")
        } else if str_contains(content, n, "class ", char_len("class ")) {
            String::from_str("csharp_class")
        } else {
            String::from_str("csharp_file")
        }
    }

    /// Whether a line should survive downstream summarization: declaration
    /// lines, visibility-qualified statements, attributes, and flagged
    /// comments.
    pub fn is_important_line(&self, line: &str) -> (r: bool)
        ensures
            r == important_line(line@),
    {
        let n = char_len(line);
        let t = trimmed_of(line, n);
        let ts = t.as_str();
        let tn = char_len(ts);
        if str_starts_with(ts, tn, "public class ", char_len("public class ")) || str_starts_with(
            ts,
            tn,
            "class ",
            char_len("class "),
        ) || str_starts_with(ts, tn, "interface ", char_len("interface ")) || str_starts_with(
            ts,
            tn,
            "enum ",
            char_len("enum "),
        ) || str_starts_with(ts, tn, "struct ", char_len("struct ")) || str_starts_with(
            ts,
            tn,
            "public ",
            char_len("public "),
        ) || str_starts_with(ts, tn, "private ", char_len("private ")) || str_starts_with(
            ts,
            tn,
            "protected ",
            char_len("protected "),
        ) || str_starts_with(ts, tn, "internal ", char_len("internal ")) || str_starts_with(
            ts,
            tn,
            "using ",
            char_len("using "),
        ) || str_starts_with(ts, tn, "namespace ", char_len("namespace ")) {
            return true;
        }
        if tn > 0 && ts.get_char(0) == '[' && find_char_from(ts, tn, 0, ']') < tn {
            return true;
        }
        if str_contains(ts, tn, "TODO", char_len("TODO")) || str_contains(ts, tn, "FIXME",
            char_len("FIXME")) || str_contains(ts, tn, "NOTE", char_len("NOTE")) || str_contains(
            ts,
            tn,
            "HACK",
            char_len("HACK"),
        ) {
            return true;
        }
        false
    }
}

proof fn lemma_cs_deps_wf(lines: Seq<Seq<char>>, path: Seq<char>, i: int)
    requires
        i >= 0,
    ensures
        forall|k: int|
            0 <= k < cs_deps_from(lines, path, i).len() ==> (#[trigger] cs_deps_from(
                lines,
                path,
                i,
            )[k]).wf(),
    decreases lines.len() - i,
{
    if 0 <= i < lines.len() {
        lemma_cs_deps_wf(lines, path, i + 1);
        let lp = cs_line_deps(lines[i], path, i + 1);
        assert forall|k: int| 0 <= k < lp.len() implies (#[trigger] lp[k]).wf() by {
            let u = using_deps(lines[i], path, i + 1);
            if k < u.len() {
                assert(lp[k] == u[k]);
            } else {
                assert(lp[k] == namespace_deps(lines[i], path, i + 1)[k - u.len()]);
            }
        }
        assert forall|k: int|
            0 <= k < cs_deps_from(lines, path, i).len() implies (#[trigger] cs_deps_from(
            lines,
            path,
            i,
        )[k]).wf() by {
            if k < lp.len() {
                assert(cs_deps_from(lines, path, i)[k] == lp[k]);
            } else {
                assert(cs_deps_from(lines, path, i)[k] == cs_deps_from(lines, path, i + 1)[k
                    - lp.len()]);
            }
        }
    }
}

proof fn lemma_csproj_deps_wf(lines: Seq<Seq<char>>, path: Seq<char>, i: int)
    requires
        i >= 0,
    ensures
        forall|k: int|
            0 <= k < crate::projectfiles::csproj_deps_from(lines, path, i).len() ==> (
            #[trigger] crate::projectfiles::csproj_deps_from(lines, path, i)[k]).wf(),
    decreases lines.len() - i,
{
    if 0 <= i < lines.len() {
        lemma_csproj_deps_wf(lines, path, i + 1);
        let lp = crate::projectfiles::csproj_line_deps(lines[i], path, i + 1);
        assert forall|k: int| 0 <= k < lp.len() implies (#[trigger] lp[k]).wf() by {
            let t = crate::scan::trimmed(lines[i]);
            let p0 = crate::projectfiles::csproj_pkg(t, path, i + 1);
            let p1 = crate::projectfiles::csproj_proj(t, path, i + 1);
            if k < p0.len() {
                assert(lp[k] == p0[k]);
            } else if k < p0.len() + p1.len() {
                assert(lp[k] == p1[k - p0.len()]);
            } else {
                assert(lp[k] == crate::projectfiles::csproj_fw(t, path, i + 1)[k - p0.len() - p1.len()]);
            }
        }
        assert forall|k: int|
            0 <= k < crate::projectfiles::csproj_deps_from(lines, path, i).len() implies (#[trigger] crate::projectfiles::csproj_deps_from(
            lines,
            path,
            i,
        )[k]).wf() by {
            if k < lp.len() {
                assert(crate::projectfiles::csproj_deps_from(lines, path, i)[k] == lp[k]);
            } else {
                assert(crate::projectfiles::csproj_deps_from(lines, path, i)[k] == crate::projectfiles::csproj_deps_from(lines, path, i + 1)[k
                    - lp.len()]);
            }
        }
    }
}

proof fn lemma_sln_deps_wf(lines: Seq<Seq<char>>, path: Seq<char>, i: int)
    requires
        i >= 0,
    ensures
        forall|k: int|
            0 <= k < crate::projectfiles::sln_deps_from(lines, path, i).len() ==> (
            #[trigger] crate::projectfiles::sln_deps_from(lines, path, i)[k]).wf(),
    decreases lines.len() - i,
{
    if 0 <= i < lines.len() {
        lemma_sln_deps_wf(lines, path, i + 1);
        let lp = crate::projectfiles::sln_line_deps(lines[i], path, i + 1);
        assert forall|k: int| 0 <= k < lp.len() implies (#[trigger] lp[k]).wf() by {

        }
        assert forall|k: int|
            0 <= k < crate::projectfiles::sln_deps_from(lines, path, i).len() implies (#[trigger] crate::projectfiles::sln_deps_from(
            lines,
            path,
            i,
        )[k]).wf() by {
            if k < lp.len() {
                assert(crate::projectfiles::sln_deps_from(lines, path, i)[k] == lp[k]);
            } else {
                assert(crate::projectfiles::sln_deps_from(lines, path, i)[k] == crate::projectfiles::sln_deps_from(lines, path, i + 1)[k
                    - lp.len()]);
            }
        }
    }
}

proof fn lemma_sqlproj_deps_wf(lines: Seq<Seq<char>>, path: Seq<char>, i: int)
    requires
        i >= 0,
    ensures
        forall|k: int|
            0 <= k < crate::projectfiles::sqlproj_deps_from(lines, path, i).len() ==> (
            #[trigger] crate::projectfiles::sqlproj_deps_from(lines, path, i)[k]).wf(),
    decreases lines.len() - i,
{
    if 0 <= i < lines.len() {
        lemma_sqlproj_deps_wf(lines, path, i + 1);
        let lp = crate::projectfiles::sqlproj_line_deps(lines[i], path, i + 1);
        assert forall|k: int| 0 <= k < lp.len() implies (#[trigger] lp[k]).wf() by {
            let t = crate::scan::trimmed(lines[i]);
            let p0 = crate::projectfiles::sqlproj_build(t, path, i + 1);
            let p1 = crate::projectfiles::sqlproj_projref(t, path, i + 1);
            if k < p0.len() {
                assert(lp[k] == p0[k]);
            } else if k < p0.len() + p1.len() {
                assert(lp[k] == p1[k - p0.len()]);
            } else {
                assert(lp[k] == crate::projectfiles::sqlproj_artifact(t, path, i + 1)[k - p0.len() - p1.len()]);
            }
        }
        assert forall|k: int|
            0 <= k < crate::projectfiles::sqlproj_deps_from(lines, path, i).len() implies (#[trigger] crate::projectfiles::sqlproj_deps_from(
            lines,
            path,
            i,
        )[k]).wf() by {
            if k < lp.len() {
                assert(crate::projectfiles::sqlproj_deps_from(lines, path, i)[k] == lp[k]);
            } else {
                assert(crate::projectfiles::sqlproj_deps_from(lines, path, i)[k] == crate::projectfiles::sqlproj_deps_from(lines, path, i + 1)[k
                    - lp.len()]);
            }
        }
    }
}

proof fn lemma_sql_deps_wf(lines: Seq<Seq<char>>, path: Seq<char>, i: int)
    requires
        i >= 0,
    ensures
        forall|k: int|
            0 <= k < crate::sqlscan::sql_deps_from(lines, path, i).len() ==> (
            #[trigger] crate::sqlscan::sql_deps_from(lines, path, i)[k]).wf(),
    decreases lines.len() - i,
{
    if 0 <= i < lines.len() {
        lemma_sql_deps_wf(lines, path, i + 1);
        let lp = crate::sqlscan::sql_line_deps(lines[i], path, i + 1);
        assert forall|k: int| 0 <= k < lp.len() implies (#[trigger] lp[k]).wf() by {

        }
        assert forall|k: int|
            0 <= k < crate::sqlscan::sql_deps_from(lines, path, i).len() implies (#[trigger] crate::sqlscan::sql_deps_from(
            lines,
            path,
            i,
        )[k]).wf() by {
            if k < lp.len() {
                assert(crate::sqlscan::sql_deps_from(lines, path, i)[k] == lp[k]);
            } else {
                assert(crate::sqlscan::sql_deps_from(lines, path, i)[k] == crate::sqlscan::sql_deps_from(lines, path, i + 1)[k
                    - lp.len()]);
            }
        }
    }
}

/// The extracted facts keep the data-model invariant: every dependency
/// record's line number, whichever file kind produced it, is present and
/// 1-based.
pub proof fn lemma_file_deps_wf(content: Seq<char>, path: Seq<char>)
    ensures
        forall|k: int|
            0 <= k < file_deps(content, path).len() ==> (#[trigger] file_deps(
                content,
                path,
            )[k]).wf(),
{
    let lines = lines_of(content);
    lemma_cs_deps_wf(lines, path, 0);
    lemma_csproj_deps_wf(lines, path, 0);
    lemma_sln_deps_wf(lines, path, 0);
    lemma_sqlproj_deps_wf(lines, path, 0);
    lemma_sql_deps_wf(lines, path, 0);
}

/// The whole-file classification tag.
pub open spec fn component_type_of(path: Seq<char>, content: Seq<char>) -> Seq<char> {
    let f = last_segment(path);
    if ends_with(f, csq(".csproj")) {
        if contains_sub(content, csq("Microsoft.NET.Sdk.Web")) {
            csq("csharp_web_project")
        } else if contains_sub(content, csq("<OutputType>Exe</OutputType>")) {
            csq("csharp_console_project")
        } else if contains_sub(content, csq("<OutputType>Library</OutputType>")) || contains_sub(
            content,
            csq("Microsoft.NET.Sdk"),
        ) {
            csq("csharp_library_project")
        } else if contains_sub(content, csq("Microsoft.NET.Test.Sdk")) || contains_sub(
            f,
            csq("Test"),
        ) {
            csq("csharp_test_project")
        } else {
            csq("csharp_project")
        }
    } else if ends_with(f, csq(".sqlproj")) {
        csq("sql_database_project")
    } else if ends_with(f, csq(".sln")) {
        csq("csharp_solution")
    } else if ends_with(f, csq(".sql")) {
        if contains_upper(content, csq("CREATE TABLE")) || contains_upper(
            content,
            csq("ALTER TABLE"),
        ) {
            csq("sql_table_definition")
        } else if contains_upper(content, csq("CREATE PROCEDURE")) || contains_upper(
            content,
            csq("ALTER PROCEDURE"),
        ) {
            csq("sql_stored_procedure")
        } else if contains_upper(content, csq("CREATE VIEW")) || contains_upper(
            content,
            csq("ALTER VIEW"),
        ) {
            csq("sql_view")
        } else if contains_upper(content, csq("CREATE FUNCTION")) || contains_upper(
            content,
            csq("ALTER FUNCTION"),
        ) {
            csq("sql_function")
        } else if contains_upper(content, csq("CREATE TRIGGER")) {
            csq("sql_trigger")
        } else {
            csq("sql_script")
        }
    } else if ends_with(f, csq("Test.cs")) || ends_with(f, csq("Tests.cs")) || contains_sub(
        content,
        csq("[Test]"),
    ) || contains_sub(content, csq("[TestMethod]")) {
        csq("csharp_test")
    } else if contains_sub(content, csq("interface ")) {
        csq("csharp_interface")
    } else if contains_sub(content, csq("enum ")) {
        csq("csharp_enum")
    } else if contains_sub(content, csq("struct ")) {
        csq("csharp_struct")
    } else if contains_sub(content, csq("abstract class")) {
        csq("csharp_abstract_class")
    } else if contains_sub(content, csq("static class")) {
        csq("csharp_static_class")
    } else if contains_sub(content, csq("sealed class")) {
        csq("csharp_sealed_class")
    } else if contains_sub(content, csq("partial class")) {
        csq("csharp_partial_class")
    } else if contains_sub(content, csq("class ")) {
        csq("csharp_class")
    } else {
        csq("csharp_file")
    }
}

/// Whether the trimmed line is a declaration, a visibility-qualified
/// statement, an attribute, or a flagged comment.
pub open spec fn important_line(line: Seq<char>) -> bool {
    let t = trimmed(line);
    starts_with(t, csq("public class ")) || starts_with(t, csq("class ")) || starts_with(
        t,
        csq("interface "),
    ) || starts_with(t, csq("enum ")) || starts_with(t, csq("struct ")) || starts_with(
        t,
        csq("public "),
    ) || starts_with(t, csq("private ")) || starts_with(t, csq("protected ")) || starts_with(
        t,
        csq("internal "),
    ) || starts_with(t, csq("using ")) || starts_with(t, csq("namespace ")) || (t.len() > 0
        && t[0] == '[' && find_from(t, 0, ']') < t.len()) || contains_sub(t, csq("TODO"))
        || contains_sub(t, csq("FIXME")) || contains_sub(t, csq("NOTE")) || contains_sub(
        t,
        csq("HACK"),
    )
}

} // verus!

//! Block scanners for the manifest-style file kinds: project files,
//! solution files and database project files. These bypass the per-line
//! declaration scan and look only for marker tokens followed by a quoted
//! value, one reference per matching line.

use vstd::prelude::*;
use vstd::string::*;

use crate::facts::{DepModel, Dependency, deps_view};
use crate::scan::{
    char_len, contains_sub, csq, last_segment, lines_of, path_pieces, path_pieces_from,
    quoted_after, quoted_value_after, starts_with, str_contains, str_starts_with,
    strip_suffix_all, strip_suffix_rep, file_name_of, split_lines, trimmed, trimmed_of,
};

verus! {

/// One dependency record, with the given fields.
pub fn make_dep(
    name: String,
    source_path: &str,
    is_external: bool,
    lineno: usize,
    dep_type: &str,
    version: Option<String>,
) -> (d: Dependency)
    ensures
        d@ == (DepModel {
            name: name@,
            source_path: source_path@,
            is_external,
            line_number: Some(lineno as int),
            dependency_type: dep_type@,
            version: match version {
                Some(v) => Some(v@),
                None => None,
            },
        }),
{
    let d = Dependency {
        name,
        source_path: String::from_str(source_path),
        is_external,
        line_number: Some(lineno),
        dependency_type: String::from_str(dep_type),
        version,
    };
    d
}

/// What a `PackageReference` line contributes: one external dependency named
/// by its `Include` value, carrying the `Version` value when one is present.
pub open spec fn csproj_pkg(t: Seq<char>, path: Seq<char>, ln: int) -> Seq<DepModel> {
    if starts_with(t, csq("<PackageReference")) && contains_sub(t, csq("Include=")) {
        match quoted_after(t, csq("Include=\"")) {
            Some(name) => seq![
                DepModel {
                    name,
                    source_path: path,
                    is_external: true,
                    line_number: Some(ln),
                    dependency_type: csq("nuget_package"),
                    version: quoted_after(t, csq("Version=\"")),
                },
            ],
            None => Seq::empty(),
        }
    } else {
        Seq::empty()
    }
}

/// What a `ProjectReference` line contributes: one internal dependency named
/// by the file name of the referenced project, without its extension.
pub open spec fn csproj_proj(t: Seq<char>, path: Seq<char>, ln: int) -> Seq<DepModel> {
    if starts_with(t, csq("<ProjectReference")) && contains_sub(t, csq("Include=")) {
        match quoted_after(t, csq("Include=\"")) {
            Some(p) => seq![
                DepModel {
                    name: strip_suffix_rep(last_segment(p), csq(".csproj")),
                    source_path: path,
                    is_external: false,
                    line_number: Some(ln),
                    dependency_type: csq("project_reference"),
                    version: None,
                },
            ],
            None => Seq::empty(),
        }
    } else {
        Seq::empty()
    }
}

/// What a `FrameworkReference` line contributes.
pub open spec fn csproj_fw(t: Seq<char>, path: Seq<char>, ln: int) -> Seq<DepModel> {
    if starts_with(t, csq("<FrameworkReference")) && contains_sub(t, csq("Include=")) {
        match quoted_after(t, csq("Include=\"")) {
            Some(name) => seq![
                DepModel {
                    name,
                    source_path: path,
                    is_external: true,
                    line_number: Some(ln),
                    dependency_type: csq("framework_reference"),
                    version: None,
                },
            ],
            None => Seq::empty(),
        }
    } else {
        Seq::empty()
    }
}

/// All dependencies of one project-file line, in rule order.
pub open spec fn csproj_line_deps(line: Seq<char>, path: Seq<char>, ln: int) -> Seq<DepModel> {
    let t = trimmed(line);
    csproj_pkg(t, path, ln) + csproj_proj(t, path, ln) + csproj_fw(t, path, ln)
}

pub open spec fn csproj_deps_from(
    lines: Seq<Seq<char>>,
    path: Seq<char>,
    i: int,
) -> Seq<DepModel>
    decreases lines.len() - i,
{
    if i < 0 || i >= lines.len() {
        Seq::empty()
    } else {
        csproj_line_deps(lines[i], path, i + 1) + csproj_deps_from(lines, path, i + 1)
    }
}

/// The dependency records of a whole project file: package, project and
/// framework references, with 1-based line numbers.
pub open spec fn csproj_deps(content: Seq<char>, path: Seq<char>) -> Seq<DepModel> {
    csproj_deps_from(lines_of(content), path, 0)
}

fn scan_csproj_line(line: &str, source_path: &str, lineno: usize, out: &mut Vec<Dependency>)
    requires
        lineno >= 1,
    ensures
        deps_view(final(out)@) == deps_view(old(out)@) + csproj_line_deps(
            line@,
            source_path@,
            lineno as int,
        ),
{
    let ghost ln = lineno as int;
    let t = trimmed_of(line, char_len(line));
    let ts = t.as_str();
    let tn = char_len(ts);
    let ghost t0 = trimmed(line@);
    let ghost acc0 = deps_view(out@);
    if str_starts_with(ts, tn, "<PackageReference", char_len("<PackageReference"))
        && str_contains(ts, tn, "Include=", char_len("Include=")) {
        match quoted_value_after(ts, tn, "Include=\"", char_len("Include=\"")) {
            Some(name) => {
                let version = quoted_value_after(ts, tn, "Version=\"", char_len("Version=\""));
                let d = make_dep(name, source_path, true, lineno, "nuget_package", version);
                out.push(d);
                proof {
                    assert(deps_view(out@) =~= acc0 + csproj_pkg(t0, source_path@, ln));
                }
            },
            None => {},
        }
    }
    let ghost acc1 = deps_view(out@);
    proof {
        assert(acc1 =~= acc0 + csproj_pkg(t0, source_path@, ln));
    }
    if str_starts_with(ts, tn, "<ProjectReference", char_len("<ProjectReference"))
        && str_contains(ts, tn, "Include=", char_len("Include=")) {
        match quoted_value_after(ts, tn, "Include=\"", char_len("Include=\"")) {
            Some(p) => {
                let name = strip_suffix_all(file_name_of(p.as_str()).as_str(), ".csproj");
                let d = make_dep(name, source_path, false, lineno, "project_reference", None);
                out.push(d);
                proof {
                    assert(deps_view(out@) =~= acc1 + csproj_proj(t0, source_path@, ln));
                }
            },
            None => {},
        }
    }
    let ghost acc2 = deps_view(out@);
    proof {
        assert(acc2 =~= acc1 + csproj_proj(t0, source_path@, ln));
    }
    if str_starts_with(ts, tn, "<FrameworkReference", char_len("<FrameworkReference"))
        && str_contains(ts, tn, "Include=", char_len("Include=")) {
        match quoted_value_after(ts, tn, "Include=\"", char_len("Include=\"")) {
            Some(name) => {
                let d = make_dep(name, source_path, true, lineno, "framework_reference", None);
                out.push(d);
                proof {
                    assert(deps_view(out@) =~= acc2 + csproj_fw(t0, source_path@, ln));
                }
            },
            None => {},
        }
    }
    proof {
        assert(deps_view(out@) =~= acc2 + csproj_fw(t0, source_path@, ln));
        assert(deps_view(out@) =~= acc0 + csproj_line_deps(line@, source_path@, ln));
    }
}

/// Dependencies of a project file: NuGet package references, project
/// references and framework references.
pub fn extract_csproj_dependencies(content: &str, source_path: &str) -> (r: Vec<Dependency>)
    ensures
        deps_view(r@) == csproj_deps(content@, source_path@),
{
    let lines = split_lines(content);
    let mut out: Vec<Dependency> = Vec::new();
    let mut i: usize = 0;
    while i < lines.len()
        invariant
            0 <= i <= lines.len(),
            lines@.map_values(|l: String| l@) == lines_of(content@),
            csproj_deps(content@, source_path@) =~= deps_view(out@) + csproj_deps_from(
                lines_of(content@),
                source_path@,
                i as int,
            ),
        decreases lines.len() - i,
    {
        let ghost pre = deps_view(out@);
        proof {
            assert(lines_of(content@)[i as int] == lines@[i as int]@);
        }
        scan_csproj_line(lines[i].as_str(), source_path, i + 1, &mut out);
        i = i + 1;
    }
    proof {
        assert(csproj_deps(content@, source_path@) =~= deps_view(out@));
    }
    out
}

/// What one solution-file line contributes: the project name quoted after
/// the equals sign of a `Project(...)` entry that points at a project file.
pub open spec fn sln_line_deps(line: Seq<char>, path: Seq<char>, ln: int) -> Seq<DepModel> {
    let t = trimmed(line);
    if starts_with(t, csq("Project(")) && contains_sub(t, csq(".csproj")) {
        match quoted_after(t, csq("= \"")) {
            Some(name) => seq![
                DepModel {
                    name,
                    source_path: path,
                    is_external: false,
                    line_number: Some(ln),
                    dependency_type: csq("solution_project"),
                    version: None,
                },
            ],
            None => Seq::empty(),
        }
    } else {
        Seq::empty()
    }
}

pub open spec fn sln_deps_from(lines: Seq<Seq<char>>, path: Seq<char>, i: int) -> Seq<DepModel>
    decreases lines.len() - i,
{
    if i < 0 || i >= lines.len() {
        Seq::empty()
    } else {
        sln_line_deps(lines[i], path, i + 1) + sln_deps_from(lines, path, i + 1)
    }
}

/// The project entries of a whole solution file.
pub open spec fn sln_deps(content: Seq<char>, path: Seq<char>) -> Seq<DepModel> {
    sln_deps_from(lines_of(content), path, 0)
}

/// Project entries of a solution file.
pub fn extract_sln_dependencies(content: &str, source_path: &str) -> (r: Vec<Dependency>)
    ensures
        deps_view(r@) == sln_deps(content@, source_path@),
{
    let lines = split_lines(content);
    let mut out: Vec<Dependency> = Vec::new();
    let mut i: usize = 0;
    while i < lines.len()
        invariant
            0 <= i <= lines.len(),
            lines@.map_values(|l: String| l@) == lines_of(content@),
            sln_deps(content@, source_path@) =~= deps_view(out@) + sln_deps_from(
                lines_of(content@),
                source_path@,
                i as int,
            ),
        decreases lines.len() - i,
    {
        let ghost pre = deps_view(out@);
        proof {
            assert(lines_of(content@)[i as int] == lines@[i as int]@);
        }
        let line = lines[i].as_str();
        let ghost ln = i + 1int;
        let t = trimmed_of(line, char_len(line));
        let ts = t.as_str();
        let tn = char_len(ts);
        let ghost t0 = trimmed(line@);
        if str_starts_with(ts, tn, "Project(", char_len("Project(")) && str_contains(
            ts,
            tn,
            ".csproj",
            char_len(".csproj"),
        ) {
            match quoted_value_after(ts, tn, "= \"", char_len("= \"")) {
                Some(name) => {
                    let d = make_dep(name, source_path, false, i + 1, "solution_project", None);
                    out.push(d);
                    proof {
                        assert(deps_view(out@) =~= pre + sln_line_deps(line@, source_path@, ln));
                    }
                },
                None => {},
            }
        }
        proof {
            assert(deps_view(out@) =~= pre + sln_line_deps(line@, source_path@, ln));
        }
        i = i + 1;
    }
    proof {
        assert(sln_deps(content@, source_path@) =~= deps_view(out@));
    }
    out
}

/// What a build-item line of a database project contributes: the referenced
/// object, named by the next-to-last path piece, typed by the piece before
/// it (the containing folder, e.g. a tables or procedures folder).
pub open spec fn sqlproj_build(t: Seq<char>, path: Seq<char>, ln: int) -> Seq<DepModel> {
    if (starts_with(t, csq("<Build")) || starts_with(t, csq("<PreDeploy")) || starts_with(
        t,
        csq("<PostDeploy"),
    )) && contains_sub(t, csq("Include=")) {
        match quoted_after(t, csq("Include=\"")) {
            Some(p) => {
                let pieces = path_pieces_from(p, 0);
                seq![
                    DepModel {
                        name: if pieces.len() >= 2 {
                            pieces[pieces.len() - 2]
                        } else {
                            csq("unknown")
                        },
                        source_path: path,
                        is_external: false,
                        line_number: Some(ln),
                        dependency_type: if pieces.len() > 2 {
                            pieces[pieces.len() - 3]
                        } else {
                            csq("sql_object")
                        },
                        version: None,
                    },
                ]
            },
            None => Seq::empty(),
        }
    } else {
        Seq::empty()
    }
}

/// What a project-reference line of a database project contributes.
pub open spec fn sqlproj_projref(t: Seq<char>, path: Seq<char>, ln: int) -> Seq<DepModel> {
    if starts_with(t, csq("<ProjectReference")) && contains_sub(t, csq("Include=")) {
        match quoted_after(t, csq("Include=\"")) {
            Some(p) => seq![
                DepModel {
                    name: strip_suffix_rep(last_segment(p), csq(".sqlproj")),
                    source_path: path,
                    is_external: false,
                    line_number: Some(ln),
                    dependency_type: csq("database_reference"),
                    version: None,
                },
            ],
            None => Seq::empty(),
        }
    } else {
        Seq::empty()
    }
}

/// What a packaged-artifact reference line of a database project
/// contributes.
pub open spec fn sqlproj_artifact(t: Seq<char>, path: Seq<char>, ln: int) -> Seq<DepModel> {
    if starts_with(t, csq("<ArtifactReference")) && contains_sub(t, csq("Include=")) {
        match quoted_after(t, csq("Include=\"")) {
            Some(p) => seq![
                DepModel {
                    name: strip_suffix_rep(last_segment(p), csq(".dacpac")),
                    source_path: path,
                    is_external: true,
                    line_number: Some(ln),
                    dependency_type: csq("dacpac_reference"),
                    version: None,
                },
            ],
            None => Seq::empty(),
        }
    } else {
        Seq::empty()
    }
}

/// All dependencies of one database-project line, in rule order.
pub open spec fn sqlproj_line_deps(line: Seq<char>, path: Seq<char>, ln: int) -> Seq<
    DepModel,
> {
    let t = trimmed(line);
    sqlproj_build(t, path, ln) + sqlproj_projref(t, path, ln) + sqlproj_artifact(t, path, ln)
}

pub open spec fn sqlproj_deps_from(
    lines: Seq<Seq<char>>,
    path: Seq<char>,
    i: int,
) -> Seq<DepModel>
    decreases lines.len() - i,
{
    if i < 0 || i >= lines.len() {
        Seq::empty()
    } else {
        sqlproj_line_deps(lines[i], path, i + 1) + sqlproj_deps_from(lines, path, i + 1)
    }
}

/// The dependency records of a whole database project file.
pub open spec fn sqlproj_deps(content: Seq<char>, path: Seq<char>) -> Seq<DepModel> {
    sqlproj_deps_from(lines_of(content), path, 0)
}

fn scan_sqlproj_line(line: &str, source_path: &str, lineno: usize, out: &mut Vec<Dependency>)
    requires
        lineno >= 1,
    ensures
        deps_view(final(out)@) == deps_view(old(out)@) + sqlproj_line_deps(
            line@,
            source_path@,
            lineno as int,
        ),
{
    let ghost ln = lineno as int;
    let t = trimmed_of(line, char_len(line));
    let ts = t.as_str();
    let tn = char_len(ts);
    let ghost t0 = trimmed(line@);
    let ghost acc0 = deps_view(out@);
    if (str_starts_with(ts, tn, "<Build", char_len("<Build")) || str_starts_with(
        ts,
        tn,
        "<PreDeploy",
        char_len("<PreDeploy"),
    ) || str_starts_with(ts, tn, "<PostDeploy", char_len("<PostDeploy"))) && str_contains(
        ts,
        tn,
        "Include=",
        char_len("Include="),
    ) {
        match quoted_value_after(ts, tn, "Include=\"", char_len("Include=\"")) {
            Some(p) => {
                let pieces = path_pieces(p.as_str());
                let np = pieces.len();
                let name = if np >= 2 {
                    String::from_str(pieces[np - 2].as_str())
                } else {
                    String::from_str("unknown")
                };
                let dep_type_owned = if np > 2 {
                    String::from_str(pieces[np - 3].as_str())
                } else {
                    String::from_str("sql_object")
                };
                proof {
                    assert(pieces@.map_values(|q: String| q@).len() == np);
                    if np >= 2 {
                        assert(pieces@.map_values(|q: String| q@)[np - 2] == pieces@[np - 2]@);
                    }
                    if np > 2 {
                        assert(pieces@.map_values(|q: String| q@)[np - 3] == pieces@[np - 3]@);
                    }
                }
                let d = Dependency {
                    name,
                    source_path: String::from_str(source_path),
                    is_external: false,
                    line_number: Some(lineno),
                    dependency_type: dep_type_owned,
                    version: None,
                };
                out.push(d);
                proof {
                    assert(deps_view(out@) =~= acc0 + sqlproj_build(t0, source_path@, ln));
                }
            },
            None => {},
        }
    }
    let ghost acc1 = deps_view(out@);
    proof {
        assert(acc1 =~= acc0 + sqlproj_build(t0, source_path@, ln));
    }
    if str_starts_with(ts, tn, "<ProjectReference", char_len("<ProjectReference"))
        && str_contains(ts, tn, "Include=", char_len("Include=")) {
        match quoted_value_after(ts, tn, "Include=\"", char_len("Include=\"")) {
            Some(p) => {
                let name = strip_suffix_all(file_name_of(p.as_str()).as_str(), ".sqlproj");
                let d = make_dep(name, source_path, false, lineno, "database_reference", None);
                out.push(d);
                proof {
                    assert(deps_view(out@) =~= acc1 + sqlproj_projref(t0, source_path@, ln));
                }
            },
            None => {},
        }
    }
    let ghost acc2 = deps_view(out@);
    proof {
        assert(acc2 =~= acc1 + sqlproj_projref(t0, source_path@, ln));
    }
    if str_starts_with(ts, tn, "<ArtifactReference", char_len("<ArtifactReference"))
        && str_contains(ts, tn, "Include=", char_len("Include=")) {
        match quoted_value_after(ts, tn, "Include=\"", char_len("Include=\"")) {
            Some(p) => {
                let name = strip_suffix_all(file_name_of(p.as_str()).as_str(), ".dacpac");
                let d = make_dep(name, source_path, true, lineno, "dacpac_reference", None);
                out.push(d);
                proof {
                    assert(deps_view(out@) =~= acc2 + sqlproj_artifact(t0, source_path@, ln));
                }
            },
            None => {},
        }
    }
    proof {
        assert(deps_view(out@) =~= acc2 + sqlproj_artifact(t0, source_path@, ln));
        assert(deps_view(out@) =~= acc0 + sqlproj_line_deps(line@, source_path@, ln));
    }
}

/// Dependencies of a database project file: build items, project references
/// and packaged-artifact references.
pub fn extract_sqlproj_dependencies(content: &str, source_path: &str) -> (r: Vec<Dependency>)
    ensures
        deps_view(r@) == sqlproj_deps(content@, source_path@),
{
    let lines = split_lines(content);
    let mut out: Vec<Dependency> = Vec::new();
    let mut i: usize = 0;
    while i < lines.len()
        invariant
            0 <= i <= lines.len(),
            lines@.map_values(|l: String| l@) == lines_of(content@),
            sqlproj_deps(content@, source_path@) =~= deps_view(out@) + sqlproj_deps_from(
                lines_of(content@),
                source_path@,
                i as int,
            ),
        decreases lines.len() - i,
    {
        proof {
            assert(lines_of(content@)[i as int] == lines@[i as int]@);
        }
        scan_sqlproj_line(lines[i].as_str(), source_path, i + 1, &mut out);
        i = i + 1;
    }
    proof {
        assert(sqlproj_deps(content@, source_path@) =~= deps_view(out@));
    }
    out
}

} // verus!

use archlens::csharp::CSharpProcessor;
use archlens::docs::{DocFileType, LocalDocsProcessor};

#[test]
fn test_detect_file_type() {
    assert_eq!(
        LocalDocsProcessor::detect_file_type("doc.pdf").unwrap(),
        DocFileType::Pdf
    );
    assert_eq!(
        LocalDocsProcessor::detect_file_type("readme.md").unwrap(),
        DocFileType::Markdown
    );
    assert_eq!(
        LocalDocsProcessor::detect_file_type("notes.txt").unwrap(),
        DocFileType::Text
    );
}

#[test]
fn detect_file_type_is_case_insensitive_and_rejects_unknown() {
    assert_eq!(
        LocalDocsProcessor::detect_file_type("SPEC.PDF").unwrap(),
        DocFileType::Pdf
    );
    assert_eq!(
        LocalDocsProcessor::detect_file_type("guide.markdown").unwrap(),
        DocFileType::Markdown
    );
    assert_eq!(
        LocalDocsProcessor::detect_file_type("a/b/plain.text").unwrap(),
        DocFileType::Text
    );
    let err = LocalDocsProcessor::detect_file_type("archive.zip").unwrap_err();
    assert_eq!(err, "Unsupported file type: zip");
    let err = LocalDocsProcessor::detect_file_type("no_extension").unwrap_err();
    assert_eq!(err, "No file extension found");
}

#[test]
fn using_line_yields_one_external_dependency() {
    let p = CSharpProcessor::new();
    let deps = p.extract_dependencies("using System.Collections.Generic;\n", "Foo.cs");
    assert_eq!(deps.len(), 1);
    assert_eq!(deps[0].name, "Generic");
    assert!(deps[0].is_external);
    assert_eq!(deps[0].dependency_type, "using");
    assert_eq!(deps[0].line_number, Some(1));
}

#[test]
fn class_line_yields_one_interface_record() {
    let p = CSharpProcessor::new();
    let ifaces = p.extract_interfaces("public class Foo : Bar\n", "Foo.cs");
    assert_eq!(ifaces.len(), 1);
    assert_eq!(ifaces[0].name, "Foo");
    assert_eq!(ifaces[0].interface_type, "class");
    assert_eq!(ifaces[0].visibility, "public");
}

#[test]
fn package_reference_yields_versioned_nuget_dependency() {
    let p = CSharpProcessor::new();
    let line = "  <PackageReference Include=\"Newtonsoft.Json\" Version=\"13.0.1\" />\n";
    let deps = p.extract_dependencies(line, "App.csproj");
    assert_eq!(deps.len(), 1);
    assert_eq!(deps[0].name, "Newtonsoft.Json");
    assert!(deps[0].is_external);
    assert_eq!(deps[0].dependency_type, "nuget_package");
    assert_eq!(deps[0].version.as_deref(), Some("13.0.1"));
}

#[test]
fn project_and_framework_references() {
    let p = CSharpProcessor::new();
    let content = "<ProjectReference Include=\"..\\Other.Project\\Other.Project.csproj\" />\n\
                   <FrameworkReference Include=\"Microsoft.AspNetCore.App\" />\n";
    let deps = p.extract_dependencies(content, "App.csproj");
    assert_eq!(deps.len(), 2);
    assert_eq!(deps[0].name, "Other.Project");
    assert!(!deps[0].is_external);
    assert_eq!(deps[0].dependency_type, "project_reference");
    assert_eq!(deps[1].name, "Microsoft.AspNetCore.App");
    assert!(deps[1].is_external);
    assert_eq!(deps[1].dependency_type, "framework_reference");
}

#[test]
fn solution_file_lists_projects() {
    let p = CSharpProcessor::new();
    let content = "Project(\"{FAE04EC0-301F-11D3-BF4B-00C04F79EFBC}\") = \"ProjectName\", \"Path\\ProjectName.csproj\", \"{GUID}\"\n";
    let deps = p.extract_dependencies(content, "All.sln");
    assert_eq!(deps.len(), 1);
    assert_eq!(deps[0].name, "ProjectName");
    assert_eq!(deps[0].dependency_type, "solution_project");
    assert!(!deps[0].is_external);
}

#[test]
fn sqlproj_build_items_and_references() {
    let p = CSharpProcessor::new();
    let content = "<Build Include=\"dbo\\Tables\\Users.sql\" />\n\
                   <ProjectReference Include=\"..\\OtherDatabase\\OtherDatabase.sqlproj\" />\n\
                   <ArtifactReference Include=\"..\\..\\Packages\\DatabaseName.dacpac\" />\n";
    let deps = p.extract_dependencies(content, "Db.sqlproj");
    assert_eq!(deps.len(), 3);
    assert_eq!(deps[0].name, "Users");
    assert_eq!(deps[0].dependency_type, "Tables");
    assert_eq!(deps[1].name, "OtherDatabase");
    assert_eq!(deps[1].dependency_type, "database_reference");
    assert_eq!(deps[2].name, "DatabaseName");
    assert_eq!(deps[2].dependency_type, "dacpac_reference");
    assert!(deps[2].is_external);
}

#[test]
fn sql_table_references_and_procedure_calls() {
    let p = CSharpProcessor::new();
    let content = "SELECT * FROM dbo.Users WHERE Id = 1\n\
                   -- from a comment, nothing\n\
                   EXEC dbo.GetUser @id\n";
    let deps = p.extract_dependencies(content, "query.sql");
    assert_eq!(deps.len(), 2);
    assert_eq!(deps[0].name, "dbo.Users");
    assert_eq!(deps[0].dependency_type, "table_reference");
    assert_eq!(deps[0].line_number, Some(1));
    assert_eq!(deps[1].name, "dbo.GetUser");
    assert_eq!(deps[1].dependency_type, "stored_procedure_call");
    assert_eq!(deps[1].line_number, Some(3));
}

#[test]
fn namespace_line_yields_internal_dependency() {
    let p = CSharpProcessor::new();
    let deps = p.extract_dependencies("namespace My.App {\n", "Foo.cs");
    assert_eq!(deps.len(), 1);
    assert_eq!(deps[0].name, "My.App");
    assert!(!deps[0].is_external);
    assert_eq!(deps[0].dependency_type, "namespace");
}

#[test]
fn static_usings_and_aliases_are_skipped() {
    let p = CSharpProcessor::new();
    let content = "using static System.Math;\nusing Alias = System.Text.StringBuilder;\n";
    let deps = p.extract_dependencies(content, "Foo.cs");
    assert_eq!(deps.len(), 0);
}

#[test]
fn malformed_and_truncated_input_yields_empty_results() {
    let p = CSharpProcessor::new();
    for content in ["", "using", "<PackageReference Include=\"broken", "\u{1F600}((("] {
        for path in ["x.cs", "x.csproj", "x.sln", "x.sqlproj", "x.sql"] {
            assert_eq!(p.extract_dependencies(content, path).len(), 0);
            assert_eq!(p.extract_interfaces(content, path).len(), 0);
        }
    }
}

#[test]
fn method_with_parameters_and_doc_comment() {
    let p = CSharpProcessor::new();
    let content = "\
/// <summary>Adds a user.</summary>\n\
/// Returns the new id.\n\
public static int AddUser(string name, int age = 3, ref int count)\n";
    let ifaces = p.extract_interfaces(content, "Foo.cs");
    assert_eq!(ifaces.len(), 1);
    let m = &ifaces[0];
    assert_eq!(m.name, "AddUser");
    assert_eq!(m.interface_type, "static_method");
    assert_eq!(m.return_type.as_deref(), Some("int"));
    assert_eq!(m.description.as_deref(), Some("Adds a user. Returns the new id."));
    assert_eq!(m.parameters.len(), 3);
    assert_eq!(m.parameters[0].name, "name");
    assert_eq!(m.parameters[0].declared_type, "string");
    assert!(!m.parameters[0].is_optional);
    assert_eq!(m.parameters[1].name, "age");
    assert!(m.parameters[1].is_optional);
    assert_eq!(m.parameters[2].name, "count");
    assert_eq!(m.parameters[2].declared_type, "int");
}

#[test]
fn property_constructor_enum_and_struct_records() {
    let p = CSharpProcessor::new();
    let content = "\
public int Count { get; set; }\n\
public Foo(int x)\n\
internal enum Color\n\
public readonly struct Point\n\
partial interface IThing\n";
    let ifaces = p.extract_interfaces(content, "Foo.cs");
    let kinds: Vec<&str> = ifaces.iter().map(|i| i.interface_type.as_str()).collect();
    assert_eq!(
        kinds,
        vec!["property", "constructor", "enum", "readonly_struct", "partial_interface"]
    );
    assert_eq!(ifaces[0].name, "Count");
    assert_eq!(ifaces[0].return_type.as_deref(), Some("int"));
    assert_eq!(ifaces[1].name, "Foo");
    assert_eq!(ifaces[1].parameters.len(), 1);
    assert_eq!(ifaces[4].visibility, "private");
}

#[test]
fn control_flow_keywords_are_not_methods() {
    let p = CSharpProcessor::new();
    let ifaces = p.extract_interfaces("    if (x > 0) DoThing(y)\n", "Foo.cs");
    assert_eq!(ifaces.len(), 0);
}

#[test]
fn component_type_classification() {
    let p = CSharpProcessor::new();
    assert_eq!(
        p.determine_component_type("a/App.csproj", "<Project Sdk=\"Microsoft.NET.Sdk.Web\">"),
        "csharp_web_project"
    );
    assert_eq!(
        p.determine_component_type("a/App.csproj", "<OutputType>Exe</OutputType>"),
        "csharp_console_project"
    );
    assert_eq!(p.determine_component_type("Db.sqlproj", ""), "sql_database_project");
    assert_eq!(p.determine_component_type("All.sln", ""), "csharp_solution");
    assert_eq!(
        p.determine_component_type("t.sql", "create table Users (Id int)"),
        "sql_table_definition"
    );
    assert_eq!(p.determine_component_type("FooTests.cs", "class FooTests"), "csharp_test");
    assert_eq!(p.determine_component_type("IFoo.cs", "interface IFoo"), "csharp_interface");
    assert_eq!(p.determine_component_type("Foo.cs", "class Foo"), "csharp_class");
    assert_eq!(p.determine_component_type("Notes.cs", "// nothing"), "csharp_file");
}

#[test]
fn important_line_filter() {
    let p = CSharpProcessor::new();
    assert!(p.is_important_line("  public void Run()"));
    assert!(p.is_important_line("using System;"));
    assert!(p.is_important_line("[TestMethod]"));
    assert!(p.is_important_line("// TODO: fix rounding"));
    assert!(!p.is_important_line("    x += 1;"));
    assert!(!p.is_important_line(""));
}

#[test]
fn supported_extensions_and_language_name() {
    let p = CSharpProcessor::new();
    let exts = p.supported_extensions();
    assert_eq!(exts, vec!["cs", "csproj", "sln", "sqlproj", "sql"]);
    assert_eq!(p.language_name(), "C#");
}

#[test]
fn registry_dispatches_by_extension() {
    let registry = archlens::registry::ProcessorRegistry::new();
    assert!(registry.supports("cs"));
    assert!(!registry.supports("py"));
    let r = registry.process_file("using System.Linq;\n", "a/Foo.cs");
    let (deps, _) = r.expect("a claimed extension is processed");
    assert_eq!(deps.len(), 1);
    assert_eq!(deps[0].name, "Linq");
    assert!(registry.process_file("print('hi')", "a/foo.py").is_none());
}

//! The processor registry: maps a file extension to the language processor
//! that claims it and dispatches extraction per file. Registration order
//! decides collisions — the first processor to claim an extension wins —
//! so implementers must keep their extension sets disjoint.

use vstd::prelude::*;
use vstd::string::*;

use crate::csharp::{CSharpProcessor, extension_of, file_deps, path_extension};
use crate::csdecl::cs_ifaces;
use crate::facts::{Dependency, InterfaceInfo, deps_view, ifaces_view};
use crate::scan::{csq, str_eq};

verus! {

/// The registry over every registered language processor.
pub struct ProcessorRegistry {
    processor: CSharpProcessor,
    extensions: Vec<String>,
}

/// Whether some registered processor claims the extension.
pub open spec fn claimed(ext: Seq<char>) -> bool {
    ext == csq("cs") || ext == csq("csproj") || ext == csq("sln") || ext == csq("sqlproj")
        || ext == csq("sql")
}

impl ProcessorRegistry {
    /// Every registered extension, in registration order.
    pub closed spec fn registered(self) -> Seq<Seq<char>> {
        self.extensions@.map_values(|e: String| e@)
    }

    /// A well-formed registry holds exactly the registered processor's
    /// extension claims, in registration order.
    pub closed spec fn wf(self) -> bool {
        self.registered() == seq![
            csq("cs"),
            csq("csproj"),
            csq("sln"),
            csq("sqlproj"),
            csq("sql"),
        ]
    }

    /// A registry with every known processor registered: it claims an
    /// extension exactly when [`claimed`] holds of it.
    pub fn new() -> (r: ProcessorRegistry)
        ensures
            r.wf(),
            forall|e: Seq<char>| r.registered().contains(e) == claimed(e),
    {
        let processor = CSharpProcessor::new();
        let extensions = processor.supported_extensions();
        let r = ProcessorRegistry { processor, extensions };
        proof {
            assert(r.registered() =~= seq![
                csq("cs"),
                csq("csproj"),
                csq("sln"),
                csq("sqlproj"),
                csq("sql"),
            ]);
            assert forall|e: Seq<char>| r.registered().contains(e) == claimed(e) by {
                if claimed(e) {
                    if e == csq("cs") {
                        assert(r.registered()[0] == e);
                    } else if e == csq("csproj") {
                        assert(r.registered()[1] == e);
                    } else if e == csq("sln") {
                        assert(r.registered()[2] == e);
                    } else if e == csq("sqlproj") {
                        assert(r.registered()[3] == e);
                    } else {
                        assert(r.registered()[4] == e);
                    }
                }
            }
        }
        r
    }

    /// Whether some registered processor claims this extension: the
    /// registered list is consulted, in registration order.
    pub fn supports(&self, ext: &str) -> (r: bool)
        requires
            self.wf(),
        ensures
            r == claimed(ext@),
            r == self.registered().contains(ext@),
    {
        let mut i: usize = 0;
        while i < self.extensions.len()
            invariant
                0 <= i <= self.extensions@.len(),
                self.wf(),
                forall|t: int| 0 <= t < i ==> self.registered()[t] != ext@,
            decreases self.extensions@.len() - i,
        {
            if str_eq(self.extensions[i].as_str(), ext) {
                proof {
                    assert(self.registered()[i as int] == ext@);
                    assert(self.registered().contains(ext@));
                }
                return true;
            }
            proof {
                assert(self.registered()[i as int] == self.extensions@[i as int]@);
            }
            i = i + 1;
        }
        proof {
            if self.registered().contains(ext@) {
                let t = choose|t: int|
                    0 <= t < self.registered().len() && self.registered()[t] == ext@;
                assert(false);
            }
            assert(!claimed(ext@)) by {
                assert(self.registered()[0] == csq("cs"));
                assert(self.registered()[1] == csq("csproj"));
                assert(self.registered()[2] == csq("sln"));
                assert(self.registered()[3] == csq("sqlproj"));
                assert(self.registered()[4] == csq("sql"));
            }
        }
        false
    }

    /// Extract the facts of one file: its dependency edges and declared
    /// symbols. Nothing for a file whose extension no processor claims —
    /// an unsupported file kind is skipped, never an error.
    pub fn process_file(&self, content: &str, file_path: &str) -> (r: Option<
        (Vec<Dependency>, Vec<InterfaceInfo>),
    >)
        requires
            self.wf(),
        ensures
            match r {
                Some(t) => (match extension_of(file_path@) {
                    Some(e) => claimed(e),
                    None => false,
                }) && deps_view(t.0@) == file_deps(content@, file_path@) && ifaces_view(t.1@)
                    == cs_ifaces(content@),
                None => match extension_of(file_path@) {
                    Some(e) => !claimed(e),
                    None => true,
                },
            },
    {
        match path_extension(file_path) {
            Some(e) => {
                if self.supports(e.as_str()) {
                    let deps = self.processor.extract_dependencies(content, file_path);
                    let ifaces = self.processor.extract_interfaces(content, file_path);
                    Some((deps, ifaces))
                } else {
                    None
                }
            },
            None => None,
        }
    }
}

} // verus!

//! The normalized fact model produced by extraction: one `Dependency` per
//! detected edge to a named unit, one `InterfaceInfo` per declared symbol.

use vstd::prelude::*;

verus! {

/// Mathematical model of a [`Dependency`], with string fields as `Seq<char>`.
#[verifier::ext_equal]
pub struct DepModel {
    pub name: Seq<char>,
    pub source_path: Seq<char>,
    pub is_external: bool,
    pub line_number: Option<int>,
    pub dependency_type: Seq<char>,
    pub version: Option<Seq<char>>,
}

/// One directed edge from a source file to a named external or internal unit
/// (an import, a package reference, a table reference, and so on).
/// Duplicates across lines are expected and meaningful: each is a usage site.
#[derive(Debug)]
pub struct Dependency {
    pub name: String,
    pub source_path: String,
    pub is_external: bool,
    pub line_number: Option<usize>,
    pub dependency_type: String,
    pub version: Option<String>,
}

impl View for Dependency {
    type V = DepModel;

    open spec fn view(&self) -> DepModel {
        DepModel {
            name: self.name@,
            source_path: self.source_path@,
            is_external: self.is_external,
            line_number: match self.line_number {
                Some(n) => Some(n as int),
                None => None,
            },
            dependency_type: self.dependency_type@,
            version: match self.version {
                Some(ref v) => Some(v@),
                None => None,
            },
        }
    }
}

impl DepModel {
    /// A dependency's line number, when present, is 1-based.
    pub open spec fn wf(self) -> bool {
        match self.line_number {
            Some(n) => n >= 1,
            None => true,
        }
    }
}

/// Mathematical model of a [`ParameterInfo`].
#[verifier::ext_equal]
pub struct ParamModel {
    pub name: Seq<char>,
    pub declared_type: Seq<char>,
    pub is_optional: bool,
    pub description: Option<Seq<char>>,
}

/// A formal parameter of an extracted callable.
#[derive(Debug)]
pub struct ParameterInfo {
    pub name: String,
    pub declared_type: String,
    pub is_optional: bool,
    pub description: Option<String>,
}

impl View for ParameterInfo {
    type V = ParamModel;

    open spec fn view(&self) -> ParamModel {
        ParamModel {
            name: self.name@,
            declared_type: self.declared_type@,
            is_optional: self.is_optional,
            description: match self.description {
                Some(ref d) => Some(d@),
                None => None,
            },
        }
    }
}

/// Mathematical model of an [`InterfaceInfo`].
#[verifier::ext_equal]
pub struct IfaceModel {
    pub name: Seq<char>,
    pub interface_type: Seq<char>,
    pub visibility: Seq<char>,
    pub parameters: Seq<ParamModel>,
    pub return_type: Option<Seq<char>>,
    pub description: Option<Seq<char>>,
}

/// One declared symbol. `interface_type` and `visibility` are open string
/// tags, not a closed enumeration, so new language constructs can be added
/// without touching shared code.
#[derive(Debug)]
pub struct InterfaceInfo {
    pub name: String,
    pub interface_type: String,
    pub visibility: String,
    pub parameters: Vec<ParameterInfo>,
    pub return_type: Option<String>,
    pub description: Option<String>,
}

impl View for InterfaceInfo {
    type V = IfaceModel;

    open spec fn view(&self) -> IfaceModel {
        IfaceModel {
            name: self.name@,
            interface_type: self.interface_type@,
            visibility: self.visibility@,
            parameters: self.parameters@.map_values(|p: ParameterInfo| p@),
            return_type: match self.return_type {
                Some(ref r) => Some(r@),
                None => None,
            },
            description: match self.description {
                Some(ref d) => Some(d@),
                None => None,
            },
        }
    }
}

impl IfaceModel {
    /// A declared symbol's `interface_type` tag must be non-empty.
    pub open spec fn wf(self) -> bool {
        self.interface_type.len() > 0
    }
}

/// The view of a whole extraction result.
pub open spec fn deps_view(v: Seq<Dependency>) -> Seq<DepModel> {
    v.map_values(|d: Dependency| d@)
}

/// The view of a whole interface-extraction result.
pub open spec fn ifaces_view(v: Seq<InterfaceInfo>) -> Seq<IfaceModel> {
    v.map_values(|i: InterfaceInfo| i@)
}

} // verus!

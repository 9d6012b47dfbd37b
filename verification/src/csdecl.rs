//! Declaration matchers for C# source lines: type, member and constructor
//! declarations, their parameter lists, and the attachment of the nearest
//! preceding documentation-comment block. The spec functions here are the
//! lexical grammar; each matcher is proved equal to it.

use vstd::prelude::*;
use vstd::string::*;

use crate::facts::{IfaceModel, InterfaceInfo, ParamModel, ParameterInfo, ifaces_view};
use crate::scan::{
    char_len, contains_sub, csq, ends_with, find_char_from, find_from, lines_of,
    matches_at, split_lines, starts_with, str_matches_at, str_starts_with, strip_prefix_all,
    strip_prefix_rep, strip_suffix_all, strip_suffix_rep, substr, trimmed, trimmed_of,
    word_end, word_end_at, ws_end, ws_end_at,
};
use crate::sqlscan::token_end;

verus! {

// ------------------------------------------------------------------
// Small shared steps: optional keywords and keyword alternations.
// ------------------------------------------------------------------

/// The visibility keyword found at `i`, if any.
pub open spec fn vis_kw(line: Seq<char>, i: int) -> Option<Seq<char>> {
    if matches_at(line, i, csq("public")) {
        Some(csq("public"))
    } else if matches_at(line, i, csq("private")) {
        Some(csq("private"))
    } else if matches_at(line, i, csq("protected")) {
        Some(csq("protected"))
    } else if matches_at(line, i, csq("internal")) {
        Some(csq("internal"))
    } else {
        None
    }
}

/// Position after an optional visibility keyword and the whitespace behind
/// it.
pub open spec fn after_vis(line: Seq<char>, i: int) -> int {
    match vis_kw(line, i) {
        Some(k) => ws_end(line, i + k.len()),
        None => i,
    }
}

/// The declared visibility: the keyword, or the private default.
pub open spec fn vis_name(line: Seq<char>, i: int) -> Seq<char> {
    match vis_kw(line, i) {
        Some(k) => k,
        None => csq("private"),
    }
}

fn scan_vis(line: &str, n: usize, i: usize) -> (r: (String, usize))
    requires
        n == line@.len(),
        i <= n,
    ensures
        r.0@ == vis_name(line@, i as int),
        r.1 as int == after_vis(line@, i as int),
        i <= r.1 <= n,
{
    if str_matches_at(line, n, i, "public", char_len("public")) {
        let j = ws_end_at(line, n, i + char_len("public"));
        (String::from_str("public"), j)
    } else if str_matches_at(line, n, i, "private", char_len("private")) {
        let j = ws_end_at(line, n, i + char_len("private"));
        (String::from_str("private"), j)
    } else if str_matches_at(line, n, i, "protected", char_len("protected")) {
        let j = ws_end_at(line, n, i + char_len("protected"));
        (String::from_str("protected"), j)
    } else if str_matches_at(line, n, i, "internal", char_len("internal")) {
        let j = ws_end_at(line, n, i + char_len("internal"));
        (String::from_str("internal"), j)
    } else {
        (String::from_str("private"), i)
    }
}

/// One optional keyword followed by optional whitespace: whether it
/// matched, and the position after it.
pub open spec fn opt_kw(line: Seq<char>, i: int, kw: Seq<char>) -> (bool, int) {
    if matches_at(line, i, kw) {
        (true, ws_end(line, i + kw.len()))
    } else {
        (false, i)
    }
}

fn scan_opt_kw(line: &str, n: usize, i: usize, kw: &str, m: usize) -> (r: (bool, usize))
    requires
        n == line@.len(),
        m == kw@.len(),
        i <= n,
    ensures
        (r.0, r.1 as int) == opt_kw(line@, i as int, kw@),
        i <= r.1 <= n,
{
    if str_matches_at(line, n, i, kw, m) {
        let j = ws_end_at(line, n, i + m);
        (true, j)
    } else {
        (false, i)
    }
}

/// The member modifier found at `i`, if any; the empty name when absent.
/// `with_sealed` admits the sealed modifier (methods have it, properties do
/// not).
pub open spec fn mod_kw(line: Seq<char>, i: int, with_sealed: bool) -> Option<Seq<char>> {
    if matches_at(line, i, csq("virtual")) {
        Some(csq("virtual"))
    } else if matches_at(line, i, csq("override")) {
        Some(csq("override"))
    } else if matches_at(line, i, csq("abstract")) {
        Some(csq("abstract"))
    } else if with_sealed && matches_at(line, i, csq("sealed")) {
        Some(csq("sealed"))
    } else {
        None
    }
}

pub open spec fn after_mod(line: Seq<char>, i: int, with_sealed: bool) -> int {
    match mod_kw(line, i, with_sealed) {
        Some(k) => ws_end(line, i + k.len()),
        None => i,
    }
}

pub open spec fn mod_name(line: Seq<char>, i: int, with_sealed: bool) -> Seq<char> {
    match mod_kw(line, i, with_sealed) {
        Some(k) => k,
        None => Seq::empty(),
    }
}

fn scan_mod(line: &str, n: usize, i: usize, with_sealed: bool) -> (r: (String, usize))
    requires
        n == line@.len(),
        i <= n,
    ensures
        r.0@ == mod_name(line@, i as int, with_sealed),
        r.1 as int == after_mod(line@, i as int, with_sealed),
        i <= r.1 <= n,
{
    if str_matches_at(line, n, i, "virtual", char_len("virtual")) {
        let j = ws_end_at(line, n, i + char_len("virtual"));
        (String::from_str("virtual"), j)
    } else if str_matches_at(line, n, i, "override", char_len("override")) {
        let j = ws_end_at(line, n, i + char_len("override"));
        (String::from_str("override"), j)
    } else if str_matches_at(line, n, i, "abstract", char_len("abstract")) {
        let j = ws_end_at(line, n, i + char_len("abstract"));
        (String::from_str("abstract"), j)
    } else if with_sealed && str_matches_at(line, n, i, "sealed", char_len("sealed")) {
        let j = ws_end_at(line, n, i + char_len("sealed"));
        (String::from_str("sealed"), j)
    } else {
        let r = String::new();
        proof {
            assert(r@ =~= mod_name(line@, i as int, with_sealed));
        }
        (r, i)
    }
}

// ------------------------------------------------------------------
// Type declarations: class, interface, struct, enum.
// ------------------------------------------------------------------

/// A declaration-kind keyword followed by at least one whitespace character
/// and a name word: the name's span, if the shape fits.
pub open spec fn kw_name(line: Seq<char>, i: int, kw: Seq<char>) -> Option<Seq<char>> {
    if matches_at(line, i, kw) {
        let j0 = i + kw.len();
        let j = ws_end(line, j0);
        if j > j0 {
            let k = word_end(line, j);
            if k > j {
                Some(line.subrange(j, k))
            } else {
                None
            }
        } else {
            None
        }
    } else {
        None
    }
}

fn scan_kw_name(line: &str, n: usize, i: usize, kw: &str, m: usize) -> (r: Option<String>)
    requires
        n == line@.len(),
        m == kw@.len(),
        i <= n,
    ensures
        match r {
            Some(v) => kw_name(line@, i as int, kw@) == Some(v@),
            None => kw_name(line@, i as int, kw@) is None,
        },
{
    if str_matches_at(line, n, i, kw, m) {
        let j0 = i + m;
        let j = ws_end_at(line, n, j0);
        if j > j0 {
            let k = word_end_at(line, n, j);
            if k > j {
                return Some(substr(line, j, k));
            }
        }
        None
    } else {
        None
    }
}

/// A class declaration: optional visibility, then the static, abstract,
/// sealed and partial modifiers in order, then the class keyword and a
/// name. The result is the name, kind tag and visibility.
pub open spec fn class_match(line: Seq<char>) -> Option<(Seq<char>, Seq<char>, Seq<char>)> {
    let i0 = ws_end(line, 0);
    let i1 = after_vis(line, i0);
    let (st, i2) = opt_kw(line, i1, csq("static"));
    let (ab, i3) = opt_kw(line, i2, csq("abstract"));
    let (se, i4) = opt_kw(line, i3, csq("sealed"));
    let (pa, i5) = opt_kw(line, i4, csq("partial"));
    match kw_name(line, i5, csq("class")) {
        Some(name) => Some(
            (
                name,
                if st {
                    csq("static_class")
                } else if ab {
                    csq("abstract_class")
                } else if se {
                    csq("sealed_class")
                } else if pa {
                    csq("partial_class")
                } else {
                    csq("class")
                },
                vis_name(line, i0),
            ),
        ),
        None => None,
    }
}

fn match_class(line: &str, n: usize) -> (r: Option<(String, String, String)>)
    requires
        n == line@.len(),
    ensures
        match r {
            Some(t) => class_match(line@) == Some((t.0@, t.1@, t.2@)),
            None => class_match(line@) is None,
        },
{
    let i0 = ws_end_at(line, n, 0);
    let (vis, i1) = scan_vis(line, n, i0);
    let (st, i2) = scan_opt_kw(line, n, i1, "static", char_len("static"));
    let (ab, i3) = scan_opt_kw(line, n, i2, "abstract", char_len("abstract"));
    let (se, i4) = scan_opt_kw(line, n, i3, "sealed", char_len("sealed"));
    let (pa, i5) = scan_opt_kw(line, n, i4, "partial", char_len("partial"));
    match scan_kw_name(line, n, i5, "class", char_len("class")) {
        Some(name) => {
            let itype = if st {
                String::from_str("static_class")
            } else if ab {
                String::from_str("abstract_class")
            } else if se {
                String::from_str("sealed_class")
            } else if pa {
                String::from_str("partial_class")
            } else {
                String::from_str("class")
            };
            Some((name, itype, vis))
        },
        None => None,
    }
}

/// An interface declaration: optional visibility and partial modifier, the
/// interface keyword and a name.
pub open spec fn interface_match(line: Seq<char>) -> Option<
    (Seq<char>, Seq<char>, Seq<char>),
> {
    let i0 = ws_end(line, 0);
    let i1 = after_vis(line, i0);
    let (pa, i2) = opt_kw(line, i1, csq("partial"));
    match kw_name(line, i2, csq("interface")) {
        Some(name) => Some(
            (
                name,
                if pa {
                    csq("partial_interface")
                } else {
                    csq("interface")
                },
                vis_name(line, i0),
            ),
        ),
        None => None,
    }
}

fn match_interface(line: &str, n: usize) -> (r: Option<(String, String, String)>)
    requires
        n == line@.len(),
    ensures
        match r {
            Some(t) => interface_match(line@) == Some((t.0@, t.1@, t.2@)),
            None => interface_match(line@) is None,
        },
{
    let i0 = ws_end_at(line, n, 0);
    let (vis, i1) = scan_vis(line, n, i0);
    let (pa, i2) = scan_opt_kw(line, n, i1, "partial", char_len("partial"));
    match scan_kw_name(line, n, i2, "interface", char_len("interface")) {
        Some(name) => {
            let itype = if pa {
                String::from_str("partial_interface")
            } else {
                String::from_str("interface")
            };
            Some((name, itype, vis))
        },
        None => None,
    }
}

/// A struct declaration: optional visibility, readonly and partial
/// modifiers, the struct keyword and a name.
pub open spec fn struct_match(line: Seq<char>) -> Option<(Seq<char>, Seq<char>, Seq<char>)> {
    let i0 = ws_end(line, 0);
    let i1 = after_vis(line, i0);
    let (ro, i2) = opt_kw(line, i1, csq("readonly"));
    let (pa, i3) = opt_kw(line, i2, csq("partial"));
    match kw_name(line, i3, csq("struct")) {
        Some(name) => Some(
            (
                name,
                if ro {
                    csq("readonly_struct")
                } else if pa {
                    csq("partial_struct")
                } else {
                    csq("struct")
                },
                vis_name(line, i0),
            ),
        ),
        None => None,
    }
}

fn match_struct(line: &str, n: usize) -> (r: Option<(String, String, String)>)
    requires
        n == line@.len(),
    ensures
        match r {
            Some(t) => struct_match(line@) == Some((t.0@, t.1@, t.2@)),
            None => struct_match(line@) is None,
        },
{
    let i0 = ws_end_at(line, n, 0);
    let (vis, i1) = scan_vis(line, n, i0);
    let (ro, i2) = scan_opt_kw(line, n, i1, "readonly", char_len("readonly"));
    let (pa, i3) = scan_opt_kw(line, n, i2, "partial", char_len("partial"));
    match scan_kw_name(line, n, i3, "struct", char_len("struct")) {
        Some(name) => {
            let itype = if ro {
                String::from_str("readonly_struct")
            } else if pa {
                String::from_str("partial_struct")
            } else {
                String::from_str("struct")
            };
            Some((name, itype, vis))
        },
        None => None,
    }
}

/// An enum declaration: optional visibility, the enum keyword and a name.
pub open spec fn enum_match(line: Seq<char>) -> Option<(Seq<char>, Seq<char>)> {
    let i0 = ws_end(line, 0);
    let i1 = after_vis(line, i0);
    match kw_name(line, i1, csq("enum")) {
        Some(name) => Some((name, vis_name(line, i0))),
        None => None,
    }
}

fn match_enum(line: &str, n: usize) -> (r: Option<(String, String)>)
    requires
        n == line@.len(),
    ensures
        match r {
            Some(t) => enum_match(line@) == Some((t.0@, t.1@)),
            None => enum_match(line@) is None,
        },
{
    let i0 = ws_end_at(line, n, 0);
    let (vis, i1) = scan_vis(line, n, i0);
    match scan_kw_name(line, n, i1, "enum", char_len("enum")) {
        Some(name) => Some((name, vis)),
        None => None,
    }
}

// ------------------------------------------------------------------
// Members: properties, methods, constructors.
// ------------------------------------------------------------------

/// A property declaration: modifiers, a type word, a name word, and an
/// opening brace followed by a get or set accessor. The result is
/// `(name, kind tag, visibility, declared type)`.
pub open spec fn property_match(line: Seq<char>) -> Option<
    (Seq<char>, Seq<char>, Seq<char>, Seq<char>),
> {
    let i0 = ws_end(line, 0);
    let i1 = after_vis(line, i0);
    let (st, i2) = opt_kw(line, i1, csq("static"));
    let i3 = after_mod(line, i2, false);
    let md = mod_name(line, i2, false);
    let k1 = word_end(line, i3);
    if k1 > i3 {
        let j = ws_end(line, k1);
        if j > k1 {
            let k2 = word_end(line, j);
            if k2 > j {
                let p = ws_end(line, k2);
                if p < line.len() && line[p] == '{' {
                    let q = ws_end(line, p + 1);
                    if matches_at(line, q, csq("get")) || matches_at(line, q, csq("set")) {
                        Some(
                            (
                                line.subrange(j, k2),
                                if st {
                                    csq("static_property")
                                } else if md == csq("virtual") {
                                    csq("virtual_property")
                                } else if md == csq("override") {
                                    csq("override_property")
                                } else if md == csq("abstract") {
                                    csq("abstract_property")
                                } else {
                                    csq("property")
                                },
                                vis_name(line, i0),
                                line.subrange(i3, k1),
                            ),
                        )
                    } else {
                        None
                    }
                } else {
                    None
                }
            } else {
                None
            }
        } else {
            None
        }
    } else {
        None
    }
}

fn match_property(line: &str, n: usize) -> (r: Option<(String, String, String, String)>)
    requires
        n == line@.len(),
    ensures
        match r {
            Some(t) => property_match(line@) == Some((t.0@, t.1@, t.2@, t.3@)),
            None => property_match(line@) is None,
        },
{
    let i0 = ws_end_at(line, n, 0);
    let (vis, i1) = scan_vis(line, n, i0);
    let (st, i2) = scan_opt_kw(line, n, i1, "static", char_len("static"));
    let (md, i3) = scan_mod(line, n, i2, false);
    let k1 = word_end_at(line, n, i3);
    if k1 > i3 {
        let j = ws_end_at(line, n, k1);
        if j > k1 {
            let k2 = word_end_at(line, n, j);
            if k2 > j {
                let p = ws_end_at(line, n, k2);
                if p < n && line.get_char(p) == '{' {
                    let q = ws_end_at(line, n, p + 1);
                    if str_matches_at(line, n, q, "get", char_len("get")) || str_matches_at(
                        line,
                        n,
                        q,
                        "set",
                        char_len("set"),
                    ) {
                        let itype = if st {
                            String::from_str("static_property")
                        } else if crate::scan::str_eq(md.as_str(), "virtual") {
                            String::from_str("virtual_property")
                        } else if crate::scan::str_eq(md.as_str(), "override") {
                            String::from_str("override_property")
                        } else if crate::scan::str_eq(md.as_str(), "abstract") {
                            String::from_str("abstract_property")
                        } else {
                            String::from_str("property")
                        };
                        return Some((substr(line, j, k2), itype, vis, substr(line, i3, k1)));
                    }
                }
            }
        }
    }
    None
}

/// A method declaration: modifiers, a return-type word, a name word, and a
/// parenthesized parameter list. The result is
/// `(return type, name, raw parameter text, kind tag, visibility)`.
pub open spec fn method_match(line: Seq<char>) -> Option<
    (Seq<char>, Seq<char>, Seq<char>, Seq<char>, Seq<char>),
> {
    let i0 = ws_end(line, 0);
    let i1 = after_vis(line, i0);
    let (st, i2) = opt_kw(line, i1, csq("static"));
    let i3 = after_mod(line, i2, true);
    let md = mod_name(line, i2, true);
    let (asy, i4) = opt_kw(line, i3, csq("async"));
    let k1 = word_end(line, i4);
    if k1 > i4 {
        let j = ws_end(line, k1);
        if j > k1 {
            let k2 = word_end(line, j);
            if k2 > j {
                let p = ws_end(line, k2);
                if p < line.len() && line[p] == '(' {
                    let rp = find_from(line, p + 1, ')');
                    if rp < line.len() {
                        Some(
                            (
                                line.subrange(i4, k1),
                                line.subrange(j, k2),
                                line.subrange(p + 1, rp),
                                if st {
                                    csq("static_method")
                                } else if asy {
                                    csq("async_method")
                                } else if md == csq("virtual") {
                                    csq("virtual_method")
                                } else if md == csq("override") {
                                    csq("override_method")
                                } else if md == csq("abstract") {
                                    csq("abstract_method")
                                } else if md == csq("sealed") {
                                    csq("sealed_method")
                                } else {
                                    csq("method")
                                },
                                vis_name(line, i0),
                            ),
                        )
                    } else {
                        None
                    }
                } else {
                    None
                }
            } else {
                None
            }
        } else {
            None
        }
    } else {
        None
    }
}

fn match_method(line: &str, n: usize) -> (r: Option<
    (String, String, String, String, String),
>)
    requires
        n == line@.len(),
    ensures
        match r {
            Some(t) => method_match(line@) == Some((t.0@, t.1@, t.2@, t.3@, t.4@)),
            None => method_match(line@) is None,
        },
{
    let i0 = ws_end_at(line, n, 0);
    let (vis, i1) = scan_vis(line, n, i0);
    let (st, i2) = scan_opt_kw(line, n, i1, "static", char_len("static"));
    let (md, i3) = scan_mod(line, n, i2, true);
    let (asy, i4) = scan_opt_kw(line, n, i3, "async", char_len("async"));
    let k1 = word_end_at(line, n, i4);
    if k1 > i4 {
        let j = ws_end_at(line, n, k1);
        if j > k1 {
            let k2 = word_end_at(line, n, j);
            if k2 > j {
                let p = ws_end_at(line, n, k2);
                if p < n && line.get_char(p) == '(' {
                    let rp = find_char_from(line, n, p + 1, ')');
                    if rp < n {
                        let itype = if st {
                            String::from_str("static_method")
                        } else if asy {
                            String::from_str("async_method")
                        } else if crate::scan::str_eq(md.as_str(), "virtual") {
                            String::from_str("virtual_method")
                        } else if crate::scan::str_eq(md.as_str(), "override") {
                            String::from_str("override_method")
                        } else if crate::scan::str_eq(md.as_str(), "abstract") {
                            String::from_str("abstract_method")
                        } else if crate::scan::str_eq(md.as_str(), "sealed") {
                            String::from_str("sealed_method")
                        } else {
                            String::from_str("method")
                        };
                        return Some(
                            (
                                substr(line, i4, k1),
                                substr(line, j, k2),
                                substr(line, p + 1, rp),
                                itype,
                                vis,
                            ),
                        );
                    }
                }
            }
        }
    }
    None
}

/// A constructor: optional visibility, one name word and a parenthesized
/// parameter list, taken as a constructor only when the name starts with an
/// ASCII capital. The result is `(name, visibility, raw parameter text)`.
pub open spec fn ctor_match(line: Seq<char>) -> Option<(Seq<char>, Seq<char>, Seq<char>)> {
    let i0 = ws_end(line, 0);
    let i1 = after_vis(line, i0);
    let k = word_end(line, i1);
    if k > i1 {
        let p = ws_end(line, k);
        if p < line.len() && line[p] == '(' {
            let rp = find_from(line, p + 1, ')');
            if rp < line.len() {
                let name = line.subrange(i1, k);
                if 'A' <= name[0] && name[0] <= 'Z' {
                    Some((name, vis_name(line, i0), line.subrange(p + 1, rp)))
                } else {
                    None
                }
            } else {
                None
            }
        } else {
            None
        }
    } else {
        None
    }
}

fn match_ctor(line: &str, n: usize) -> (r: Option<(String, String, String)>)
    requires
        n == line@.len(),
    ensures
        match r {
            Some(t) => ctor_match(line@) == Some((t.0@, t.1@, t.2@)),
            None => ctor_match(line@) is None,
        },
{
    let i0 = ws_end_at(line, n, 0);
    let (vis, i1) = scan_vis(line, n, i0);
    let k = word_end_at(line, n, i1);
    if k > i1 {
        let p = ws_end_at(line, n, k);
        if p < n && line.get_char(p) == '(' {
            let rp = find_char_from(line, n, p + 1, ')');
            if rp < n {
                let c0 = line.get_char(i1);
                if 'A' <= c0 && c0 <= 'Z' {
                    return Some((substr(line, i1, k), vis, substr(line, p + 1, rp)));
                }
            }
        }
    }
    None
}

/// Return-type words that are really control-flow keywords: a line whose
/// apparent return type is one of these is not a method declaration.
pub open spec fn cs_keyword(w: Seq<char>) -> bool {
    w == csq("if") || w == csq("for") || w == csq("while") || w == csq("foreach") || w == csq(
        "switch",
    ) || w == csq("try") || w == csq("using") || w == csq("lock")
}

fn is_cs_keyword(w: &str) -> (r: bool)
    ensures
        r == cs_keyword(w@),
{
    crate::scan::str_eq(w, "if") || crate::scan::str_eq(w, "for") || crate::scan::str_eq(
        w,
        "while",
    ) || crate::scan::str_eq(w, "foreach") || crate::scan::str_eq(w, "switch")
        || crate::scan::str_eq(w, "try") || crate::scan::str_eq(w, "using")
        || crate::scan::str_eq(w, "lock")
}

// ------------------------------------------------------------------
// Parameter lists.
// ------------------------------------------------------------------

/// The comma-separated pieces of `s` from `i` on.
pub open spec fn comma_pieces_from(s: Seq<char>, i: int) -> Seq<Seq<char>>
    decreases s.len() - i,
{
    if i < 0 || i > s.len() {
        Seq::empty()
    } else {
        let f = find_from(s, i, ',');
        let p = if f < i {
            i
        } else {
            f
        };
        if p >= s.len() {
            seq![s.subrange(i, s.len() as int)]
        } else {
            seq![s.subrange(i, p)] + comma_pieces_from(s, p + 1)
        }
    }
}

/// The whitespace-delimited tokens of `s` from `i` on.
pub open spec fn ws_tokens_from(s: Seq<char>, i: int) -> Seq<Seq<char>>
    decreases s.len() - i,
{
    if i < 0 || i >= s.len() {
        Seq::empty()
    } else {
        let a0 = ws_end(s, i);
        let a = if a0 < i {
            i
        } else {
            a0
        };
        if a >= s.len() {
            Seq::empty()
        } else {
            let b0 = token_end(s, a);
            let b = if b0 <= a {
                a + 1
            } else {
                b0
            };
            if b >= s.len() {
                seq![s.subrange(a, s.len() as int)]
            } else {
                seq![s.subrange(a, b)] + ws_tokens_from(s, b)
            }
        }
    }
}

fn tokens_of(s: &str) -> (r: Vec<String>)
    ensures
        r@.map_values(|t: String| t@) == ws_tokens_from(s@, 0),
{
    let n = char_len(s);
    let mut r: Vec<String> = Vec::new();
    let mut pos: usize = 0;
    while pos < n
        invariant
            0 <= pos <= n,
            n == s@.len(),
            ws_tokens_from(s@, 0) =~= r@.map_values(|t: String| t@) + ws_tokens_from(
                s@,
                pos as int,
            ),
        decreases n - pos,
    {
        let ghost prefix = r@.map_values(|t: String| t@);
        let a = ws_end_at(s, n, pos);
        proof {
            crate::scan::lemma_ws_end_stop(s@, pos as int);
        }
        if a >= n {
            pos = n;
        } else {
            let mut b = a;
            while b < n && !crate::scan::char_is_ws(s.get_char(b))
                invariant
                    a <= b <= n,
                    n == s@.len(),
                    token_end(s@, a as int) == token_end(s@, b as int),
                decreases n - b,
            {
                b = b + 1;
            }
            proof {
                crate::sqlscan::lemma_token_end_bounds(s@, b as int);
                assert(b > a);
            }
            let tok = substr(s, a, b);
            r.push(tok);
            proof {
                assert(r@.map_values(|t: String| t@) =~= prefix.push(
                    s@.subrange(a as int, b as int),
                ));
            }
            pos = b;
        }
    }
    proof {
        assert(ws_tokens_from(s@, 0) =~= r@.map_values(|t: String| t@));
    }
    r
}

/// What one comma-separated piece of a parameter list contributes: a
/// passing-mode keyword shifts the type and name one token to the right; a
/// default value makes the parameter optional, and the name stops at the
/// equals sign.
pub open spec fn param_of(piece: Seq<char>) -> Seq<ParamModel> {
    let p = trimmed(piece);
    if p.len() == 0 {
        Seq::empty()
    } else {
        let ts = ws_tokens_from(p, 0);
        if ts.len() >= 2 {
            if ts[0] == csq("ref") || ts[0] == csq("out") || ts[0] == csq("in") || ts[0] == csq(
                "params",
            ) {
                if ts.len() >= 3 {
                    seq![
                        ParamModel {
                            name: ts[2],
                            declared_type: ts[1],
                            is_optional: false,
                            description: None,
                        },
                    ]
                } else {
                    Seq::empty()
                }
            } else {
                seq![
                    ParamModel {
                        name: ts[1].subrange(0, find_from(ts[1], 0, '=')),
                        declared_type: ts[0],
                        is_optional: find_from(p, 0, '=') < p.len(),
                        description: None,
                    },
                ]
            }
        } else {
            Seq::empty()
        }
    }
}

pub open spec fn params_from(pieces: Seq<Seq<char>>, i: int) -> Seq<ParamModel>
    decreases pieces.len() - i,
{
    if i < 0 || i >= pieces.len() {
        Seq::empty()
    } else {
        param_of(pieces[i]) + params_from(pieces, i + 1)
    }
}

/// The parameters declared by the raw text between a declaration's
/// parentheses.
pub open spec fn params_of(s: Seq<char>) -> Seq<ParamModel> {
    params_from(comma_pieces_from(s, 0), 0)
}

/// The view of a parameter vector.
pub open spec fn params_view(v: Seq<ParameterInfo>) -> Seq<ParamModel> {
    v.map_values(|p: ParameterInfo| p@)
}

fn comma_split(s: &str) -> (r: Vec<String>)
    ensures
        r@.map_values(|p: String| p@) == comma_pieces_from(s@, 0),
{
    let n = char_len(s);
    let mut r: Vec<String> = Vec::new();
    let mut pos: usize = 0;
    loop
        invariant
            0 <= pos <= n,
            n == s@.len(),
            comma_pieces_from(s@, 0) =~= r@.map_values(|p: String| p@) + comma_pieces_from(
                s@,
                pos as int,
            ),
        decreases n - pos + 1,
    {
        let ghost prefix = r@.map_values(|p: String| p@);
        let p = find_char_from(s, n, pos, ',');
        if p == n {
            let piece = substr(s, pos, n);
            r.push(piece);
            proof {
                assert(r@.map_values(|q: String| q@) =~= prefix.push(
                    s@.subrange(pos as int, n as int),
                ));
                assert(comma_pieces_from(s@, 0) =~= r@.map_values(|q: String| q@));
            }
            return r;
        } else {
            let piece = substr(s, pos, p);
            r.push(piece);
            proof {
                assert(r@.map_values(|q: String| q@) =~= prefix.push(
                    s@.subrange(pos as int, p as int),
                ));
            }
            pos = p + 1;
        }
    }
}

/// Parameters of a C# declaration, parsed from the raw text between its
/// parentheses.
pub fn parse_csharp_parameters(params_str: &str) -> (r: Vec<ParameterInfo>)
    ensures
        params_view(r@) == params_of(params_str@),
{
    let pieces = comma_split(params_str);
    let mut r: Vec<ParameterInfo> = Vec::new();
    let mut i: usize = 0;
    while i < pieces.len()
        invariant
            0 <= i <= pieces.len(),
            pieces@.map_values(|p: String| p@) == comma_pieces_from(params_str@, 0),
            params_of(params_str@) =~= params_view(r@) + params_from(
                comma_pieces_from(params_str@, 0),
                i as int,
            ),
        decreases pieces.len() - i,
    {
        let ghost pre = params_view(r@);
        let ghost piece_seq = pieces@[i as int]@;
        proof {
            assert(comma_pieces_from(params_str@, 0)[i as int] == piece_seq);
        }
        let piece = pieces[i].as_str();
        let t = trimmed_of(piece, char_len(piece));
        let tn = char_len(t.as_str());
        if tn > 0 {
            let ts = tokens_of(t.as_str());
            if ts.len() >= 2 {
                let t0 = ts[0].as_str();
                proof {
                    assert(ws_tokens_from(t@.subrange(0, t@.len() as int), 0) == ws_tokens_from(
                        t@,
                        0,
                    )) by {
                        assert(t@.subrange(0, t@.len() as int) =~= t@);
                    }
                    assert(ts@.map_values(|x: String| x@)[0] == ts@[0]@);
                    assert(ts@.map_values(|x: String| x@)[1] == ts@[1]@);
                    if ts@.len() >= 3 {
                        assert(ts@.map_values(|x: String| x@)[2] == ts@[2]@);
                    }
                }
                if crate::scan::str_eq(t0, "ref") || crate::scan::str_eq(t0, "out")
                    || crate::scan::str_eq(t0, "in") || crate::scan::str_eq(t0, "params") {
                    if ts.len() >= 3 {
                        let pi = ParameterInfo {
                            name: String::from_str(ts[2].as_str()),
                            declared_type: String::from_str(ts[1].as_str()),
                            is_optional: false,
                            description: None,
                        };
                        r.push(pi);
                        proof {
                            assert(params_view(r@) =~= pre + param_of(piece_seq));
                        }
                    }
                } else {
                    let name_tok = ts[1].as_str();
                    let nn = char_len(name_tok);
                    let eqp = find_char_from(name_tok, nn, 0, '=');
                    let has_default = find_char_from(t.as_str(), tn, 0, '=') < tn;
                    let pi = ParameterInfo {
                        name: substr(name_tok, 0, eqp),
                        declared_type: String::from_str(ts[0].as_str()),
                        is_optional: has_default,
                        description: None,
                    };
                    r.push(pi);
                    proof {
                        assert(params_view(r@) =~= pre + param_of(piece_seq));
                    }
                }
            }
        }
        proof {
            assert(params_view(r@) =~= pre + param_of(piece_seq));
        }
        i = i + 1;
    }
    proof {
        assert(params_of(params_str@) =~= params_view(r@));
    }
    r
}

// ------------------------------------------------------------------
// Documentation comments.
// ------------------------------------------------------------------

/// The text one documentation-comment line contributes, if any: summary
/// tags are stripped, and a line that still carries other markup is
/// dropped.
pub open spec fn doc_item(l: Seq<char>) -> Seq<Seq<char>> {
    let content = trimmed(strip_prefix_rep(l, csq("///")));
    if starts_with(content, csq("<summary>")) {
        let text = trimmed(
            strip_suffix_rep(strip_prefix_rep(content, csq("<summary>")), csq("</summary>")),
        );
        if text.len() > 0 {
            seq![text]
        } else {
            Seq::empty()
        }
    } else if ends_with(content, csq("</summary>")) {
        let text = trimmed(strip_suffix_rep(content, csq("</summary>")));
        if text.len() > 0 {
            seq![text]
        } else {
            Seq::empty()
        }
    } else if content.len() > 0 && content[0] != '<' && content[content.len() - 1] != '>' {
        seq![content]
    } else {
        Seq::empty()
    }
}

/// The documentation lines attached to a declaration at line `idx`: walking
/// upward, comment lines contribute, blank lines and attribute lines are
/// skipped, and any other line ends the walk.
pub open spec fn doc_items(lines: Seq<Seq<char>>, idx: int) -> Seq<Seq<char>>
    decreases idx,
{
    if idx <= 0 || idx > lines.len() {
        Seq::empty()
    } else {
        let l = trimmed(lines[idx - 1]);
        if starts_with(l, csq("///")) {
            doc_items(lines, idx - 1) + doc_item(l)
        } else if l.len() == 0 || l[0] == '[' {
            doc_items(lines, idx - 1)
        } else {
            Seq::empty()
        }
    }
}

/// The collected items joined with single spaces.
pub open spec fn joined(items: Seq<Seq<char>>) -> Seq<char>
    decreases items.len(),
{
    if items.len() == 0 {
        Seq::empty()
    } else if items.len() == 1 {
        items[0]
    } else {
        joined(items.drop_last()) + csq(" ") + items.last()
    }
}

/// The description attached to a declaration: the joined documentation
/// block, or nothing when there is none.
pub open spec fn doc_of(lines: Seq<Seq<char>>, idx: int) -> Option<Seq<char>> {
    let items = doc_items(lines, idx);
    if items.len() == 0 {
        None
    } else {
        Some(joined(items))
    }
}

/// The documentation block above line `idx`, executable form.
pub fn extract_xml_doc(lines: &Vec<String>, idx: usize) -> (r: Option<String>)
    requires
        idx <= lines@.len(),
    ensures
        match r {
            Some(v) => doc_of(lines@.map_values(|l: String| l@), idx as int) == Some(v@),
            None => doc_of(lines@.map_values(|l: String| l@), idx as int) is None,
        },
{
    let ghost lseq = lines@.map_values(|l: String| l@);
    let mut items: Vec<String> = Vec::new();
    let mut k = idx;
    let mut done = false;
    while k > 0 && !done
        invariant
            0 <= k <= idx <= lines@.len(),
            lseq == lines@.map_values(|l: String| l@),
            !done ==> doc_items(lseq, idx as int) =~= doc_items(lseq, k as int)
                + items@.map_values(|x: String| x@),
            done ==> doc_items(lseq, idx as int) =~= items@.map_values(|x: String| x@),
        decreases k + (if done {
            0int
        } else {
            1int
        }),
    {
        let ghost pre = items@.map_values(|x: String| x@);
        let raw = lines[k - 1].as_str();
        let l = trimmed_of(raw, char_len(raw));
        let ls = l.as_str();
        let ln = char_len(ls);
        proof {
            assert(lseq[k - 1] == lines@[k - 1]@);
        }
        if str_starts_with(ls, ln, "///", char_len("///")) {
            let content = trimmed_of_string(strip_prefix_all(ls, "///"));
            let cs = content.as_str();
            let cn = char_len(cs);
            let text: Option<String> = if str_starts_with(cs, cn, "<summary>", char_len(
                "<summary>",
            )) {
                let t = trimmed_of_string(
                    strip_suffix_all(strip_prefix_all(cs, "<summary>").as_str(), "</summary>"),
                );
                if char_len(t.as_str()) > 0 {
                    Some(t)
                } else {
                    None
                }
            } else if str_ends_with_owned(cs, cn, "</summary>") {
                let t = trimmed_of_string(strip_suffix_all(cs, "</summary>"));
                if char_len(t.as_str()) > 0 {
                    Some(t)
                } else {
                    None
                }
            } else if cn > 0 && cs.get_char(0) != '<' && cs.get_char(cn - 1) != '>' {
                Some(content)
            } else {
                None
            };
            match text {
                Some(t) => {
                    items.insert(0, t);
                    proof {
                        assert(items@.map_values(|x: String| x@) =~= doc_item(trimmed(
                            lseq[k - 1],
                        )) + pre);
                    }
                },
                None => {
                    proof {
                        assert(doc_item(trimmed(lseq[k - 1])) =~= Seq::<Seq<char>>::empty());
                        assert(doc_item(trimmed(lseq[k - 1])) + pre =~= pre);
                    }
                },
            }
            k = k - 1;
        } else if ln == 0 || ls.get_char(0) == '[' {
            k = k - 1;
        } else {
            done = true;
        }
    }
    proof {
        assert(doc_items(lseq, idx as int) =~= items@.map_values(|x: String| x@));
    }
    if items.len() == 0 {
        None
    } else {
        let mut out = String::new();
        let mut i: usize = 0;
        while i < items.len()
            invariant
                0 <= i <= items@.len(),
                items@.len() > 0,
                out@ == joined(items@.map_values(|x: String| x@).subrange(0, i as int)),
            decreases items@.len() - i,
        {
            let ghost iv = items@.map_values(|x: String| x@);
            if i > 0 {
                out.append(" ");
            }
            out.append(items[i].as_str());
            proof {
                assert(iv.subrange(0, i + 1).drop_last() =~= iv.subrange(0, i as int));
                assert(iv.subrange(0, i + 1).last() == iv[i as int]);
            }
            i = i + 1;
        }
        proof {
            let iv = items@.map_values(|x: String| x@);
            assert(iv.subrange(0, iv.len() as int) =~= iv);
        }
        Some(out)
    }
}

fn trimmed_of_string(s: String) -> (r: String)
    ensures
        r@ == trimmed(s@),
{
    let n = char_len(s.as_str());
    trimmed_of(s.as_str(), n)
}

fn str_ends_with_owned(s: &str, n: usize, pat: &str) -> (r: bool)
    requires
        n == s@.len(),
    ensures
        r == ends_with(s@, pat@),
{
    crate::scan::str_ends_with(s, n, pat, char_len(pat))
}

// ------------------------------------------------------------------
// Whole-file interface extraction.
// ------------------------------------------------------------------

/// The class record a line contributes, if any.
pub open spec fn class_part(line: Seq<char>, desc: Option<Seq<char>>) -> Seq<IfaceModel> {
    match class_match(line) {
        Some(t) => seq![
            IfaceModel {
                name: t.0,
                interface_type: t.1,
                visibility: t.2,
                parameters: Seq::empty(),
                return_type: None,
                description: desc,
            },
        ],
        None => Seq::empty(),
    }
}

/// The interface record a line contributes, if any.
pub open spec fn iface_part(line: Seq<char>, desc: Option<Seq<char>>) -> Seq<IfaceModel> {
    match interface_match(line) {
        Some(t) => seq![
            IfaceModel {
                name: t.0,
                interface_type: t.1,
                visibility: t.2,
                parameters: Seq::empty(),
                return_type: None,
                description: desc,
            },
        ],
        None => Seq::empty(),
    }
}

/// The struct record a line contributes, if any.
pub open spec fn struct_part(line: Seq<char>, desc: Option<Seq<char>>) -> Seq<IfaceModel> {
    match struct_match(line) {
        Some(t) => seq![
            IfaceModel {
                name: t.0,
                interface_type: t.1,
                visibility: t.2,
                parameters: Seq::empty(),
                return_type: None,
                description: desc,
            },
        ],
        None => Seq::empty(),
    }
}

/// The enum record a line contributes, if any.
pub open spec fn enum_part(line: Seq<char>, desc: Option<Seq<char>>) -> Seq<IfaceModel> {
    match enum_match(line) {
        Some(t) => seq![
            IfaceModel {
                name: t.0,
                interface_type: csq("enum"),
                visibility: t.1,
                parameters: Seq::empty(),
                return_type: None,
                description: desc,
            },
        ],
        None => Seq::empty(),
    }
}

/// The property record a line contributes, if any.
pub open spec fn prop_part(line: Seq<char>, desc: Option<Seq<char>>) -> Seq<IfaceModel> {
    match property_match(line) {
        Some(t) => seq![
            IfaceModel {
                name: t.0,
                interface_type: t.1,
                visibility: t.2,
                parameters: Seq::empty(),
                return_type: Some(t.3),
                description: desc,
            },
        ],
        None => Seq::empty(),
    }
}

/// The constructor record a line contributes, if any.
pub open spec fn ctor_part(line: Seq<char>, desc: Option<Seq<char>>) -> Seq<IfaceModel> {
    match ctor_match(line) {
        Some(t) => seq![
            IfaceModel {
                name: t.0,
                interface_type: csq("constructor"),
                visibility: t.1,
                parameters: params_of(t.2),
                return_type: None,
                description: desc,
            },
        ],
        None => Seq::empty(),
    }
}

/// The method and constructor records a line contributes. A method whose
/// apparent return type is a control-flow keyword suppresses both.
pub open spec fn member_part(line: Seq<char>, desc: Option<Seq<char>>) -> Seq<IfaceModel> {
    match method_match(line) {
        Some(t) => if cs_keyword(t.0) {
            Seq::empty()
        } else {
            seq![
                IfaceModel {
                    name: t.1,
                    interface_type: t.3,
                    visibility: t.4,
                    parameters: params_of(t.2),
                    return_type: Some(t.0),
                    description: desc,
                },
            ] + ctor_part(line, desc)
        },
        None => ctor_part(line, desc),
    }
}

/// The type-declaration records of one line, in rule order.
pub open spec fn type_parts(line: Seq<char>, desc: Option<Seq<char>>) -> Seq<IfaceModel> {
    class_part(line, desc) + iface_part(line, desc) + struct_part(line, desc) + enum_part(
        line,
        desc,
    )
}

/// The member-declaration records of one line, in rule order.
pub open spec fn member_parts(line: Seq<char>, desc: Option<Seq<char>>) -> Seq<IfaceModel> {
    prop_part(line, desc) + member_part(line, desc)
}

/// The declared-symbol records one line contributes: every matcher is
/// tried, and each hit carries the documentation block above the line.
pub open spec fn cs_line_ifaces(lines: Seq<Seq<char>>, i: int) -> Seq<IfaceModel> {
    let line = lines[i];
    let desc = doc_of(lines, i);
    type_parts(line, desc) + member_parts(line, desc)
}

pub open spec fn cs_ifaces_from(lines: Seq<Seq<char>>, i: int) -> Seq<IfaceModel>
    decreases lines.len() - i,
{
    if i < 0 || i >= lines.len() {
        Seq::empty()
    } else {
        cs_line_ifaces(lines, i) + cs_ifaces_from(lines, i + 1)
    }
}

/// The declared symbols of a whole C# source text.
pub open spec fn cs_ifaces(content: Seq<char>) -> Seq<IfaceModel> {
    cs_ifaces_from(lines_of(content), 0)
}

/// The view of an optional owned string.
pub open spec fn opt_str_view(o: Option<String>) -> Option<Seq<char>> {
    match o {
        Some(v) => Some(v@),
        None => None,
    }
}

#[verifier::rlimit(100)]
#[verifier::spinoff_prover]
fn scan_iface_line(lines: &Vec<String>, i: usize, out: &mut Vec<InterfaceInfo>)
    requires
        i < lines@.len(),
    ensures
        ifaces_view(final(out)@) == ifaces_view(old(out)@) + cs_line_ifaces(
            lines@.map_values(|l: String| l@),
            i as int,
        ),
{
    let ghost lseq = lines@.map_values(|l: String| l@);
    let ghost acc0 = ifaces_view(out@);
    proof {
        assert(lseq[i as int] == lines@[i as int]@);
    }
    let line = lines[i].as_str();
    let n = char_len(line);
    let desc = extract_xml_doc(lines, i);
    let ghost dmodel = doc_of(lseq, i as int);
    proof {
        match desc {
            Some(ref v) => assert(dmodel == Some(v@)),
            None => assert(dmodel is None),
        }
        assert(dmodel == opt_str_view(desc));
    }
    let ghost lv = lseq[i as int];
    scan_type_decls(line, n, &desc, out);
    let ghost acct = ifaces_view(out@);
    scan_member_decls(line, n, &desc, out);
    proof {
        assert(ifaces_view(out@) =~= acc0 + cs_line_ifaces(lseq, i as int));
    }
}

#[verifier::rlimit(60)]
fn scan_type_decls(line: &str, n: usize, desc: &Option<String>, out: &mut Vec<InterfaceInfo>)
    requires
        n == line@.len(),
    ensures
        ifaces_view(final(out)@) == ifaces_view(old(out)@) + type_parts(
            line@,
            opt_str_view(*desc),
        ),
{
    let ghost dmodel = opt_str_view(*desc);
    let ghost lv = line@;
    let ghost acc0 = ifaces_view(out@);
    match match_class(line, n) {
        Some(t) => {
            let d = clone_opt(&desc);
            out.push(
                InterfaceInfo {
                    name: t.0,
                    interface_type: t.1,
                    visibility: t.2,
                    parameters: Vec::new(),
                    return_type: None,
                    description: d,
                },
            );
        },
        None => {},
    }
    let ghost acc1 = ifaces_view(out@);
    proof {
        assert(acc1 =~~= acc0 + class_part(lv, dmodel));
    }
    match match_interface(line, n) {
        Some(t) => {
            let d = clone_opt(&desc);
            out.push(
                InterfaceInfo {
                    name: t.0,
                    interface_type: t.1,
                    visibility: t.2,
                    parameters: Vec::new(),
                    return_type: None,
                    description: d,
                },
            );
        },
        None => {},
    }
    let ghost acc2 = ifaces_view(out@);
    proof {
        assert(acc2 =~~= acc1 + iface_part(lv, dmodel));
    }
    match match_struct(line, n) {
        Some(t) => {
            let d = clone_opt(&desc);
            out.push(
                InterfaceInfo {
                    name: t.0,
                    interface_type: t.1,
                    visibility: t.2,
                    parameters: Vec::new(),
                    return_type: None,
                    description: d,
                },
            );
        },
        None => {},
    }
    let ghost acc3 = ifaces_view(out@);
    proof {
        assert(acc3 =~~= acc2 + struct_part(lv, dmodel));
    }
    match match_enum(line, n) {
        Some(t) => {
            let d = clone_opt(&desc);
            out.push(
                InterfaceInfo {
                    name: t.0,
                    interface_type: String::from_str("enum"),
                    visibility: t.1,
                    parameters: Vec::new(),
                    return_type: None,
                    description: d,
                },
            );
        },
        None => {},
    }
    let ghost acc4 = ifaces_view(out@);
    proof {
        assert(acc4 =~~= acc3 + enum_part(lv, dmodel));
        assert(acc4 =~= acc0 + type_parts(lv, dmodel));
    }
}

#[verifier::rlimit(60)]
fn scan_member_decls(
    line: &str,
    n: usize,
    desc: &Option<String>,
    out: &mut Vec<InterfaceInfo>,
)
    requires
        n == line@.len(),
    ensures
        ifaces_view(final(out)@) == ifaces_view(old(out)@) + member_parts(
            line@,
            opt_str_view(*desc),
        ),
{
    let ghost dmodel = opt_str_view(*desc);
    let ghost lv = line@;
    let ghost acc4 = ifaces_view(out@);
    match match_property(line, n) {
        Some(t) => {
            let d = clone_opt(&desc);
            out.push(
                InterfaceInfo {
                    name: t.0,
                    interface_type: t.1,
                    visibility: t.2,
                    parameters: Vec::new(),
                    return_type: Some(t.3),
                    description: d,
                },
            );
        },
        None => {},
    }
    let ghost acc5 = ifaces_view(out@);
    proof {
        assert(acc5 =~~= acc4 + prop_part(lv, dmodel));
    }
    let mut keyword_skip = false;
    match match_method(line, n) {
        Some(t) => {
            if is_cs_keyword(t.0.as_str()) {
                keyword_skip = true;
            } else {
                let params = parse_csharp_parameters(t.2.as_str());
                let d = clone_opt(&desc);
                out.push(
                    InterfaceInfo {
                        name: t.1,
                        interface_type: t.3,
                        visibility: t.4,
                        parameters: params,
                        return_type: Some(t.0),
                        description: d,
                    },
                );
            }
        },
        None => {},
    }
    if !keyword_skip {
        match match_ctor(line, n) {
            Some(t) => {
                let params = parse_csharp_parameters(t.2.as_str());
                let d = clone_opt(&desc);
                out.push(
                    InterfaceInfo {
                        name: t.0,
                        interface_type: String::from_str("constructor"),
                        visibility: t.1,
                        parameters: params,
                        return_type: None,
                        description: d,
                    },
                );
                proof {
                    assert(ifaces_view(out@) =~~= acc5 + member_part(lv, dmodel));
                }
            },
            None => {
                proof {
                    assert(ifaces_view(out@) =~~= acc5 + member_part(lv, dmodel));
                }
            },
        }
    } else {
        proof {
            assert(ifaces_view(out@) =~~= acc5 + member_part(lv, dmodel));
        }
    }
    proof {
        assert(ifaces_view(out@) =~~= acc5 + member_part(lv, dmodel));
        assert(ifaces_view(out@) =~= acc4 + member_parts(lv, dmodel));
    }
}

fn clone_opt(o: &Option<String>) -> (r: Option<String>)
    ensures
        match r {
            Some(v) => o is Some && v@ == o->0@,
            None => o is None,
        },
{
    match o {
        Some(s) => Some(String::from_str(s.as_str())),
        None => None,
    }
}

/// The declared symbols of a C# source text: classes, interfaces, structs,
/// enums, properties, methods and constructors, each with the
/// documentation block above it.
pub fn extract_cs_interfaces(content: &str) -> (r: Vec<InterfaceInfo>)
    ensures
        ifaces_view(r@) == cs_ifaces(content@),
{
    let lines = split_lines(content);
    let mut out: Vec<InterfaceInfo> = Vec::new();
    let mut i: usize = 0;
    while i < lines.len()
        invariant
            0 <= i <= lines.len(),
            lines@.map_values(|l: String| l@) == lines_of(content@),
            cs_ifaces(content@) =~= ifaces_view(out@) + cs_ifaces_from(
                lines_of(content@),
                i as int,
            ),
        decreases lines.len() - i,
    {
        scan_iface_line(&lines, i, &mut out);
        i = i + 1;
    }
    proof {
        assert(cs_ifaces(content@) =~= ifaces_view(out@));
    }
    out
}


proof fn lemma_tags_nonempty()
    ensures
        csq("class").len() > 0,
        csq("static_class").len() > 0,
        csq("abstract_class").len() > 0,
        csq("sealed_class").len() > 0,
        csq("partial_class").len() > 0,
        csq("interface").len() > 0,
        csq("partial_interface").len() > 0,
        csq("struct").len() > 0,
        csq("readonly_struct").len() > 0,
        csq("partial_struct").len() > 0,
        csq("enum").len() > 0,
        csq("property").len() > 0,
        csq("static_property").len() > 0,
        csq("virtual_property").len() > 0,
        csq("override_property").len() > 0,
        csq("abstract_property").len() > 0,
        csq("method").len() > 0,
        csq("static_method").len() > 0,
        csq("async_method").len() > 0,
        csq("virtual_method").len() > 0,
        csq("override_method").len() > 0,
        csq("abstract_method").len() > 0,
        csq("sealed_method").len() > 0,
        csq("constructor").len() > 0,
{
    reveal_strlit("class");
    reveal_strlit("static_class");
    reveal_strlit("abstract_class");
    reveal_strlit("sealed_class");
    reveal_strlit("partial_class");
    reveal_strlit("interface");
    reveal_strlit("partial_interface");
    reveal_strlit("struct");
    reveal_strlit("readonly_struct");
    reveal_strlit("partial_struct");
    reveal_strlit("enum");
    reveal_strlit("property");
    reveal_strlit("static_property");
    reveal_strlit("virtual_property");
    reveal_strlit("override_property");
    reveal_strlit("abstract_property");
    reveal_strlit("method");
    reveal_strlit("static_method");
    reveal_strlit("async_method");
    reveal_strlit("virtual_method");
    reveal_strlit("override_method");
    reveal_strlit("abstract_method");
    reveal_strlit("sealed_method");
    reveal_strlit("constructor");
}

proof fn lemma_type_parts_wf(line: Seq<char>, desc: Option<Seq<char>>)
    ensures
        forall|k: int|
            0 <= k < type_parts(line, desc).len() ==> (#[trigger] type_parts(line, desc)[
                k]).wf(),
{
    lemma_tags_nonempty();
    let cp = class_part(line, desc);
    let ip = iface_part(line, desc);
    let sp = struct_part(line, desc);
    let ep = enum_part(line, desc);
    assert forall|k: int| 0 <= k < type_parts(line, desc).len() implies (
    #[trigger] type_parts(line, desc)[k]).wf() by {
        if k < cp.len() {
            assert(type_parts(line, desc)[k] == cp[k]);
        } else if k < cp.len() + ip.len() {
            assert(type_parts(line, desc)[k] == ip[k - cp.len()]);
        } else if k < cp.len() + ip.len() + sp.len() {
            assert(type_parts(line, desc)[k] == sp[k - cp.len() - ip.len()]);
        } else {
            assert(type_parts(line, desc)[k] == ep[k - cp.len() - ip.len() - sp.len()]);
        }
    }
}

proof fn lemma_member_parts_wf(line: Seq<char>, desc: Option<Seq<char>>)
    ensures
        forall|k: int|
            0 <= k < member_parts(line, desc).len() ==> (#[trigger] member_parts(line, desc)[
                k]).wf(),
{
    lemma_tags_nonempty();
    let pp = prop_part(line, desc);
    let mp = member_part(line, desc);
    let cp = ctor_part(line, desc);
    assert forall|k: int| 0 <= k < member_parts(line, desc).len() implies (
    #[trigger] member_parts(line, desc)[k]).wf() by {
        if k < pp.len() {
            assert(member_parts(line, desc)[k] == pp[k]);
        } else {
            let mk = k - pp.len();
            assert(member_parts(line, desc)[k] == mp[mk]);
            match method_match(line) {
                Some(t) => {
                    if !cs_keyword(t.0) {
                        if mk >= 1 {
                            assert(mp[mk] == cp[mk - 1]);
                        }
                    }
                },
                None => {
                    assert(mp[mk] == cp[mk]);
                },
            }
        }
    }
}

proof fn lemma_cs_ifaces_wf_from(lines: Seq<Seq<char>>, i: int)
    requires
        i >= 0,
    ensures
        forall|k: int|
            0 <= k < cs_ifaces_from(lines, i).len() ==> (#[trigger] cs_ifaces_from(lines, i)[
                k]).wf(),
    decreases lines.len() - i,
{
    if 0 <= i < lines.len() {
        lemma_cs_ifaces_wf_from(lines, i + 1);
        let line = lines[i];
        let desc = doc_of(lines, i);
        lemma_type_parts_wf(line, desc);
        lemma_member_parts_wf(line, desc);
        let lp = cs_line_ifaces(lines, i);
        assert forall|k: int| 0 <= k < lp.len() implies (#[trigger] lp[k]).wf() by {
            if k < type_parts(line, desc).len() {
                assert(lp[k] == type_parts(line, desc)[k]);
            } else {
                assert(lp[k] == member_parts(line, desc)[k - type_parts(line, desc).len()]);
            }
        }
        assert forall|k: int|
            0 <= k < cs_ifaces_from(lines, i).len() implies (#[trigger] cs_ifaces_from(
            lines,
            i,
        )[k]).wf() by {
            if k < lp.len() {
                assert(cs_ifaces_from(lines, i)[k] == lp[k]);
            } else {
                assert(cs_ifaces_from(lines, i)[k] == cs_ifaces_from(lines, i + 1)[k
                    - lp.len()]);
            }
        }
    }
}

/// The extracted symbols keep the data-model invariant: every declared
/// record's kind tag is non-empty, whichever construct produced it.
pub proof fn lemma_cs_ifaces_wf(content: Seq<char>)
    ensures
        forall|k: int|
            0 <= k < cs_ifaces(content).len() ==> (#[trigger] cs_ifaces(content)[k]).wf(),
{
    lemma_cs_ifaces_wf_from(lines_of(content), 0);
}

} // verus!

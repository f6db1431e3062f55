//! Dependency specifications: a package name with an optional version
//! constraint expression.
//!
//! The textual form is `name` or `name (constraints)`, where
//! `constraints` is a comma-separated list of items, each an optional
//! comparator (`>=`, `<=`, `>`, `<` or `=`; none means `=`) followed by a
//! version. A constrained specification matches only versions for which
//! every comparator holds against the parsed semantic version; malformed
//! versions never satisfy a constrained specification.

use vstd::prelude::*;

use crate::text::{
    find_char, parse_list, spec_find_char, spec_parse_list, spec_split_top, spec_trim, split_top,
    trim_str,
};
use crate::version::{parse_version, sem_version_of, spec_version_lt, Version};

verus! {

/// A comparison operator of a version constraint.
#[derive(Clone, Copy, Debug, PartialEq, Eq, Structural)]
pub enum CmpOp {
    Lt,
    Le,
    Exact,
    Ge,
    Gt,
}

/// A dependency on `name`, optionally constrained by the expression in
/// `version_req` (without its surrounding parentheses).
#[derive(Debug)]
pub struct PackageDependency {
    pub name: String,
    pub version_req: Option<String>,
    pub is_optional: bool,
}

impl Clone for PackageDependency {
    /// A clone carries every field over unchanged.
    fn clone(&self) -> (r: Self)
        ensures
            r@ == self@,
    {
        PackageDependency {
            name: self.name.clone(),
            version_req: match &self.version_req {
                Some(s) => Some(s.clone()),
                None => None,
            },
            is_optional: self.is_optional,
        }
    }
}

/// Mathematical image of a `PackageDependency`.
pub ghost struct DepV {
    pub name: Seq<char>,
    pub req: Option<Seq<char>>,
    pub optional: bool,
}

impl View for PackageDependency {
    type V = DepV;

    open spec fn view(&self) -> DepV {
        DepV {
            name: self.name@,
            req: match self.version_req {
                Some(ref s) => Some(s@),
                None => None,
            },
            optional: self.is_optional,
        }
    }
}

/// Whether the comparator holds of version `v` against bound `b`.
pub open spec fn spec_cmp_holds(op: CmpOp, v: (u64, u64, u64), b: (u64, u64, u64)) -> bool {
    match op {
        CmpOp::Lt => spec_version_lt(v, b),
        CmpOp::Le => !spec_version_lt(b, v),
        CmpOp::Exact => v == b,
        CmpOp::Ge => !spec_version_lt(v, b),
        CmpOp::Gt => spec_version_lt(b, v),
    }
}

/// One constraint item, already trimmed, taken apart: the comparator
/// prefix and the version text after it (trimmed).
pub open spec fn spec_split_op(item: Seq<char>) -> (CmpOp, Seq<char>) {
    if item.len() >= 2 && item[0] == '>' && item[1] == '=' {
        (CmpOp::Ge, spec_trim(item.skip(2)))
    } else if item.len() >= 2 && item[0] == '<' && item[1] == '=' {
        (CmpOp::Le, spec_trim(item.skip(2)))
    } else if item.len() >= 1 && item[0] == '>' {
        (CmpOp::Gt, spec_trim(item.skip(1)))
    } else if item.len() >= 1 && item[0] == '<' {
        (CmpOp::Lt, spec_trim(item.skip(1)))
    } else if item.len() >= 1 && item[0] == '=' {
        (CmpOp::Exact, spec_trim(item.skip(1)))
    } else {
        (CmpOp::Exact, item)
    }
}

/// The constraint items of an expression: split at commas, trimmed, empty
/// items dropped, each taken apart into comparator and version text.
pub open spec fn spec_constraint_items(req: Seq<char>) -> Seq<(CmpOp, Seq<char>)> {
    spec_parse_list(req).map_values(|p: Seq<char>| spec_split_op(p))
}

/// Whether one constraint item holds of version `v`: its version text
/// must itself parse, and the comparator must hold.
pub open spec fn spec_item_holds(item: (CmpOp, Seq<char>), v: (u64, u64, u64)) -> bool {
    match sem_version_of(item.1) {
        None => false,
        Some(b) => spec_cmp_holds(item.0, v, b),
    }
}

/// Whether version string `ver` satisfies constraint expression `req`:
/// `ver` parses and every constraint item holds of it.
pub open spec fn spec_req_matches(req: Seq<char>, ver: Seq<char>) -> bool {
    match sem_version_of(ver) {
        None => false,
        Some(v) => forall|i: int|
            0 <= i < spec_constraint_items(req).len() ==> spec_item_holds(
                #[trigger] spec_constraint_items(req)[i],
                v,
            ),
    }
}

/// Whether version string `ver` satisfies the optional constraint: no
/// constraint matches anything, a constraint matches per
/// `spec_req_matches`.
pub open spec fn spec_dep_matches(req: Option<Seq<char>>, ver: Seq<char>) -> bool {
    match req {
        None => true,
        Some(r) => spec_req_matches(r, ver),
    }
}

/// The dependency a dependency-specification string denotes, or `None`
/// for a blank string.
pub open spec fn spec_parse_dep(s: Seq<char>) -> Option<DepV> {
    let t = spec_trim(s);
    if t.len() == 0 {
        None
    } else {
        match spec_find_char(t, ' ') {
            None => Some(DepV { name: t, req: None, optional: false }),
            Some(i) => {
                let name = t.take(i);
                let rest = spec_trim(t.skip(i + 1));
                if rest.len() == 0 {
                    Some(DepV { name, req: None, optional: false })
                } else if rest.len() >= 2 && rest[0] == '(' && rest[rest.len() - 1] == ')' {
                    Some(
                        DepV {
                            name,
                            req: Some(spec_trim(rest.subrange(1, rest.len() - 1))),
                            optional: false,
                        },
                    )
                } else {
                    Some(DepV { name, req: Some(rest), optional: false })
                }
            },
        }
    }
}

/// The textual form `name` or `name (req)`.
pub open spec fn spec_dep_string(d: DepV) -> Seq<char> {
    match d.req {
        None => d.name,
        Some(r) => d.name + " ("@ + r + ")"@,
    }
}

fn cmp_holds(op: CmpOp, v: &Version, b: &Version) -> (r: bool)
    ensures
        r == spec_cmp_holds(op, v.triple(), b.triple()),
{
    match op {
        CmpOp::Lt => v.lt(b),
        CmpOp::Le => !b.lt(v),
        CmpOp::Exact => v.major == b.major && v.minor == b.minor && v.patch == b.patch,
        CmpOp::Ge => !v.lt(b),
        CmpOp::Gt => b.lt(v),
    }
}

/// Takes one trimmed constraint item apart.
fn split_op(item: &str) -> (r: (CmpOp, String))
    ensures
        r.0 == spec_split_op(item@).0,
        r.1@ == spec_split_op(item@).1,
{
    let n = item.unicode_len();
    if n >= 2 && item.get_char(0) == '>' && item.get_char(1) == '=' {
        (CmpOp::Ge, trim_str(item.substring_char(2, n)))
    } else if n >= 2 && item.get_char(0) == '<' && item.get_char(1) == '=' {
        (CmpOp::Le, trim_str(item.substring_char(2, n)))
    } else if n >= 1 && item.get_char(0) == '>' {
        (CmpOp::Gt, trim_str(item.substring_char(1, n)))
    } else if n >= 1 && item.get_char(0) == '<' {
        (CmpOp::Lt, trim_str(item.substring_char(1, n)))
    } else if n >= 1 && item.get_char(0) == '=' {
        (CmpOp::Exact, trim_str(item.substring_char(1, n)))
    } else {
        (CmpOp::Exact, item.to_owned())
    }
}

/// Whether version string `ver` satisfies constraint expression `req`.
pub fn req_matches(req: &str, ver: &str) -> (r: bool)
    ensures
        r == spec_req_matches(req@, ver@),
{
    let parsed = parse_version(ver);
    match parsed {
        None => false,
        Some(v) => {
            let items = parse_list(req);
            let ghost gitems = spec_constraint_items(req@);
            proof {
                assert(gitems.len() == items.deep_view().len());
            }
            let mut i: usize = 0;
            while i < items.len()
                invariant
                    0 <= i <= items.len(),
                    items.deep_view() == spec_parse_list(req@),
                    gitems == spec_constraint_items(req@),
                    gitems.len() == items.len(),
                    sem_version_of(ver@) == Some(v.triple()),
                    forall|j: int| 0 <= j < i ==> spec_item_holds(#[trigger] gitems[j], v.triple()),
                decreases items.len() - i,
            {
                proof {
                    assert(items.deep_view()[i as int] == items[i as int]@);
                    assert(gitems[i as int] == spec_split_op(items[i as int]@));
                }
                let (op, vtext) = split_op(items[i].as_str());
                match parse_version(vtext.as_str()) {
                    None => {
                        assert(!spec_item_holds(gitems[i as int], v.triple()));
                        return false;
                    },
                    Some(b) => {
                        if !cmp_holds(op, &v, &b) {
                            assert(!spec_item_holds(gitems[i as int], v.triple()));
                            return false;
                        }
                    },
                }
                i = i + 1;
            }
            true
        },
    }
}

impl PackageDependency {
    /// An unconstrained, required dependency on `name`.
    pub fn new(name: String) -> (r: Self)
        ensures
            r@ == (DepV { name: name@, req: None, optional: false }),
    {
        Self { name, version_req: None, is_optional: false }
    }

    /// A dependency on `name` constrained by `version_req`.
    pub fn with_version_req(name: String, version_req: String) -> (r: Self)
        ensures
            r@ == (DepV { name: name@, req: Some(version_req@), optional: false }),
    {
        Self { name, version_req: Some(version_req), is_optional: false }
    }

    /// The same dependency, marked optional.
    pub fn optional(self) -> (r: Self)
        ensures
            r@ == (DepV { name: self@.name, req: self@.req, optional: true }),
    {
        Self { is_optional: true, ..self }
    }

    /// Whether `version` satisfies this dependency's constraint; a
    /// dependency without one is satisfied by any version.
    pub fn satisfies(&self, version: &str) -> (r: bool)
        ensures
            r == spec_dep_matches(self@.req, version@),
    {
        match &self.version_req {
            None => true,
            Some(req) => req_matches(req.as_str(), version),
        }
    }

    /// Parses a dependency-specification string; `None` on a blank one.
    pub fn from_string(dep_str: &str) -> (r: Option<Self>)
        ensures
            match r {
                None => spec_parse_dep(dep_str@) is None,
                Some(d) => spec_parse_dep(dep_str@) == Some(d@),
            },
    {
        let t = trim_str(dep_str);
        let n = t.as_str().unicode_len();
        if n == 0 {
            return None;
        }
        match find_char(t.as_str(), ' ') {
            None => Some(Self { name: t, version_req: None, is_optional: false }),
            Some(i) => {
                proof {
                    crate::text::lemma_find_char(t@, ' ');
                }
                let name = t.as_str().substring_char(0, i).to_owned();
                let rest = trim_str(t.as_str().substring_char(i + 1, n));
                let m = rest.as_str().unicode_len();
                if m == 0 {
                    Some(Self { name, version_req: None, is_optional: false })
                } else if m >= 2 && rest.as_str().get_char(0) == '(' && rest.as_str().get_char(
                    m - 1,
                ) == ')' {
                    let inner = trim_str(rest.as_str().substring_char(1, m - 1));
                    proof {
                        assert(rest@.subrange(1, rest@.len() - 1) =~= rest@.subrange(
                            1int,
                            m - 1,
                        ));
                    }
                    Some(Self { name, version_req: Some(inner), is_optional: false })
                } else {
                    Some(Self { name, version_req: Some(rest), is_optional: false })
                }
            },
        }
    }

    /// The textual form `name` or `name (req)`.
    pub fn to_string(&self) -> (r: String)
        ensures
            r@ == spec_dep_string(self@),
    {
        match &self.version_req {
            None => self.name.clone(),
            Some(req) => {
                let mut s = self.name.clone();
                s.append(" (");
                s.append(req.as_str());
                s.append(")");
                s
            },
        }
    }
}

} // verus!

//! The metadata parser: turns a repository's package-index document into
//! structured package records.
//!
//! The format is a sequence of stanzas separated by blank lines; each
//! stanza is a sequence of `Key: value` lines. A line whose first
//! character is whitespace continues the previous field and is ignored
//! for the scalar fields kept here; a line that is entirely whitespace
//! separates stanzas. A stanza missing any of the required fields
//! `Package`, `Version` or `Architecture` is silently dropped. On a
//! repeated key the later line wins. `Installed-Size` is given in
//! kilobytes and is converted to bytes; an unparseable or overflowing
//! number counts as absent.

use vstd::prelude::*;

use crate::package_info::{PackageInfo, PackageInfoV};
use crate::text::{
    find_char, is_space, lemma_find_char, parse_list, parse_u64, spec_find_char, spec_parse_list,
    spec_parse_u64, spec_split, spec_trim, split_str, str_equal, trim_str,
};

verus! {

/// One `Key: value` line, structured.
#[derive(Clone, Debug)]
pub struct FieldPair {
    pub key: String,
    pub value: String,
}

impl View for FieldPair {
    type V = (Seq<char>, Seq<char>);

    open spec fn view(&self) -> (Seq<char>, Seq<char>) {
        (self.key@, self.value@)
    }
}

impl DeepView for FieldPair {
    type V = (Seq<char>, Seq<char>);

    open spec fn deep_view(&self) -> (Seq<char>, Seq<char>) {
        self@
    }
}

impl DeepView for PackageInfo {
    type V = PackageInfoV;

    open spec fn deep_view(&self) -> PackageInfoV {
        self@
    }
}

/// The value of field `k`, the later line winning on a repeat.
pub open spec fn spec_field(fields: Seq<(Seq<char>, Seq<char>)>, k: Seq<char>) -> Option<Seq<char>>
    decreases fields.len(),
{
    if fields.len() == 0 {
        None
    } else if fields.last().0 == k {
        Some(fields.last().1)
    } else {
        spec_field(fields.drop_last(), k)
    }
}

/// A list-valued field: absent means empty.
pub open spec fn spec_list_field(fields: Seq<(Seq<char>, Seq<char>)>, k: Seq<char>) -> Seq<
    Seq<char>,
> {
    match spec_field(fields, k) {
        None => Seq::empty(),
        Some(v) => spec_parse_list(v),
    }
}

/// A text-valued field: absent means empty.
pub open spec fn spec_text_field(fields: Seq<(Seq<char>, Seq<char>)>, k: Seq<char>) -> Seq<char> {
    match spec_field(fields, k) {
        None => Seq::empty(),
        Some(v) => v,
    }
}

/// A numeric field: absent, unparseable or out of range means zero.
pub open spec fn spec_num_field(fields: Seq<(Seq<char>, Seq<char>)>, k: Seq<char>) -> u64 {
    match spec_field(fields, k) {
        None => 0,
        Some(v) => match spec_parse_u64(v) {
            None => 0,
            Some(n) => n,
        },
    }
}

/// The `Installed-Size` field, converted from kilobytes to bytes; a
/// value too large for the conversion counts as absent.
pub open spec fn spec_installed_size_field(fields: Seq<(Seq<char>, Seq<char>)>) -> u64 {
    let kb = spec_num_field(fields, "Installed-Size"@);
    if kb <= u64::MAX as u64 / 1024 {
        (kb * 1024) as u64
    } else {
        0
    }
}

/// The record a stanza's fields denote; `None` when a required field is
/// missing.
pub open spec fn spec_make_record(fields: Seq<(Seq<char>, Seq<char>)>) -> Option<PackageInfoV> {
    match (spec_field(fields, "Package"@), spec_field(fields, "Version"@), spec_field(
        fields,
        "Architecture"@,
    )) {
        (Some(name), Some(version), Some(architecture)) => Some(
            PackageInfoV {
                name,
                version,
                architecture,
                description: spec_text_field(fields, "Description"@),
                dependencies: spec_list_field(fields, "Depends"@),
                conflicts: spec_list_field(fields, "Conflicts"@),
                provides: spec_list_field(fields, "Provides"@),
                replaces: spec_list_field(fields, "Replaces"@),
                size: spec_num_field(fields, "Size"@),
                installed_size: spec_installed_size_field(fields),
                maintainer: spec_text_field(fields, "Maintainer"@),
                homepage: spec_field(fields, "Homepage"@),
                section: spec_text_field(fields, "Section"@),
                priority: spec_text_field(fields, "Priority"@),
                filename: spec_text_field(fields, "Filename"@),
                md5sum: spec_text_field(fields, "MD5sum"@),
                sha256: spec_text_field(fields, "SHA256"@),
            },
        ),
        _ => None,
    }
}

/// Parser state: the fields of the stanza being read, and the records
/// already made.
pub ghost struct ParseStV {
    pub cur: Seq<(Seq<char>, Seq<char>)>,
    pub recs: Seq<PackageInfoV>,
}

/// Ends the stanza being read: a nonempty one becomes a record if its
/// required fields are present.
pub open spec fn spec_flush(st: ParseStV) -> Seq<PackageInfoV> {
    if st.cur.len() == 0 {
        st.recs
    } else {
        match spec_make_record(st.cur) {
            None => st.recs,
            Some(r) => st.recs.push(r),
        }
    }
}

/// Processes one line: a blank line ends the stanza, a line starting
/// with whitespace is a continuation and is ignored, a `Key: value` line
/// adds a field, anything else is ignored.
pub open spec fn spec_process_line(st: ParseStV, l: Seq<char>) -> ParseStV {
    if spec_trim(l).len() == 0 {
        ParseStV { cur: Seq::empty(), recs: spec_flush(st) }
    } else if is_space(l[0]) {
        st
    } else {
        match spec_find_char(l, ':') {
            None => st,
            Some(i) => ParseStV {
                cur: st.cur.push((spec_trim(l.take(i)), spec_trim(l.skip(i + 1)))),
                recs: st.recs,
            },
        }
    }
}

/// Folds the lines into the parser state, first line first.
pub open spec fn spec_process_lines(lines: Seq<Seq<char>>, st: ParseStV) -> ParseStV
    decreases lines.len(),
{
    if lines.len() == 0 {
        st
    } else {
        spec_process_lines(lines.drop_first(), spec_process_line(st, lines.first()))
    }
}

/// The records of a whole package-index document.
pub open spec fn spec_parse_packages(doc: Seq<char>) -> Seq<PackageInfoV> {
    spec_flush(
        spec_process_lines(spec_split(doc, '\n'), ParseStV { cur: Seq::empty(), recs: Seq::empty() }),
    )
}

proof fn lemma_process_lines_snoc(lines: Seq<Seq<char>>, l: Seq<char>, st: ParseStV)
    ensures
        spec_process_lines(lines.push(l), st) == spec_process_line(
            spec_process_lines(lines, st),
            l,
        ),
    decreases lines.len(),
{
    if lines.len() == 0 {
        let empty = Seq::<Seq<char>>::empty();
        assert(lines.push(l).drop_first() =~= empty);
        assert(lines.push(l).first() == l);
        assert(spec_process_lines(lines.push(l), st) == spec_process_lines(
            empty,
            spec_process_line(st, l),
        ));
        assert(spec_process_lines(empty, spec_process_line(st, l)) == spec_process_line(st, l));
        assert(spec_process_lines(lines, st) == st);
    } else {
        assert(lines.push(l).first() == lines.first());
        assert(lines.push(l).drop_first() =~= lines.drop_first().push(l));
        lemma_process_lines_snoc(lines.drop_first(), l, spec_process_line(st, lines.first()));
        assert(spec_process_lines(lines.push(l), st) == spec_process_lines(
            lines.drop_first().push(l),
            spec_process_line(st, lines.first()),
        ));
        assert(spec_process_lines(lines, st) == spec_process_lines(
            lines.drop_first(),
            spec_process_line(st, lines.first()),
        ));
    }
}

/// The value of field `key`, the later line winning on a repeat.
pub fn get_field(fields: &Vec<FieldPair>, key: &str) -> (r: Option<String>)
    ensures
        match r {
            None => spec_field(fields.deep_view(), key@) is None,
            Some(v) => spec_field(fields.deep_view(), key@) == Some(v@),
        },
{
    let mut i: usize = fields.len();
    proof {
        assert(fields.deep_view().take(i as int) =~= fields.deep_view());
    }
    while i > 0
        invariant
            0 <= i <= fields.len(),
            fields.deep_view().len() == fields.len(),
            spec_field(fields.deep_view(), key@) == spec_field(
                fields.deep_view().take(i as int),
                key@,
            ),
        decreases i,
    {
        i = i - 1;
        proof {
            assert(fields.deep_view().take(i + 1).last() == fields.deep_view()[i as int]);
            assert(fields.deep_view()[i as int] == fields[i as int]@);
            assert(fields.deep_view().take(i + 1).drop_last() =~= fields.deep_view().take(
                i as int,
            ));
        }
        if str_equal(fields[i].key.as_str(), key) {
            return Some(fields[i].value.clone());
        }
    }
    proof {
        assert(fields.deep_view().take(0) =~= Seq::<(Seq<char>, Seq<char>)>::empty());
    }
    None
}

fn get_text_field(fields: &Vec<FieldPair>, key: &str) -> (r: String)
    ensures
        r@ == spec_text_field(fields.deep_view(), key@),
{
    match get_field(fields, key) {
        None => String::new(),
        Some(v) => v,
    }
}

fn get_list_field(fields: &Vec<FieldPair>, key: &str) -> (r: Vec<String>)
    ensures
        r.deep_view() == spec_list_field(fields.deep_view(), key@),
{
    match get_field(fields, key) {
        None => {
            let r: Vec<String> = Vec::new();
            proof {
                assert(r.deep_view() =~= Seq::<Seq<char>>::empty());
            }
            r
        },
        Some(v) => parse_list(v.as_str()),
    }
}

fn get_num_field(fields: &Vec<FieldPair>, key: &str) -> (r: u64)
    ensures
        r == spec_num_field(fields.deep_view(), key@),
{
    match get_field(fields, key) {
        None => 0,
        Some(v) => match parse_u64(v.as_str()) {
            None => 0,
            Some(n) => n,
        },
    }
}

/// The record a stanza's fields denote; `None` when one of `Package`,
/// `Version` or `Architecture` is missing.
pub fn create_package_info(fields: &Vec<FieldPair>) -> (r: Option<PackageInfo>)
    ensures
        match r {
            None => spec_make_record(fields.deep_view()) is None,
            Some(p) => spec_make_record(fields.deep_view()) == Some(p@),
        },
{
    let name = match get_field(fields, "Package") {
        None => {
            return None;
        },
        Some(v) => v,
    };
    let version = match get_field(fields, "Version") {
        None => {
            return None;
        },
        Some(v) => v,
    };
    let architecture = match get_field(fields, "Architecture") {
        None => {
            return None;
        },
        Some(v) => v,
    };
    let kb = get_num_field(fields, "Installed-Size");
    let installed_size: u64 = if kb <= u64::MAX / 1024 {
        proof {
            assert(kb * 1024 <= u64::MAX) by (nonlinear_arith)
                requires
                    kb <= u64::MAX / 1024,
            ;
        }
        kb * 1024
    } else {
        0
    };
    Some(
        PackageInfo {
            name,
            version,
            architecture,
            description: get_text_field(fields, "Description"),
            dependencies: get_list_field(fields, "Depends"),
            conflicts: get_list_field(fields, "Conflicts"),
            provides: get_list_field(fields, "Provides"),
            replaces: get_list_field(fields, "Replaces"),
            size: get_num_field(fields, "Size"),
            installed_size,
            maintainer: get_text_field(fields, "Maintainer"),
            homepage: get_field(fields, "Homepage"),
            section: get_text_field(fields, "Section"),
            priority: get_text_field(fields, "Priority"),
            filename: get_text_field(fields, "Filename"),
            md5sum: get_text_field(fields, "MD5sum"),
            sha256: get_text_field(fields, "SHA256"),
        },
    )
}

fn flush_stanza(cur: &mut Vec<FieldPair>, recs: &mut Vec<PackageInfo>)
    ensures
        final(recs).deep_view() == spec_flush(
            ParseStV { cur: old(cur).deep_view(), recs: old(recs).deep_view() },
        ),
        final(cur).deep_view() == Seq::<(Seq<char>, Seq<char>)>::empty(),
{
    if cur.len() > 0 {
        match create_package_info(cur) {
            None => {},
            Some(p) => {
                let ghost pre = recs.deep_view();
                let ghost pv = p@;
                recs.push(p);
                proof {
                    assert(recs.deep_view() =~= pre.push(pv));
                }
            },
        }
        cur.clear();
    }
    proof {
        assert(cur.deep_view() =~= Seq::<(Seq<char>, Seq<char>)>::empty());
    }
}

/// Parses a whole package-index document into its records.
pub fn parse_packages_file(content: &str) -> (r: Vec<PackageInfo>)
    ensures
        r.deep_view() == spec_parse_packages(content@),
{
    let lines = split_str(content, '\n');
    let mut cur: Vec<FieldPair> = Vec::new();
    let mut recs: Vec<PackageInfo> = Vec::new();
    let mut i: usize = 0;
    let ghost init = ParseStV { cur: Seq::empty(), recs: Seq::empty() };
    proof {
        assert(cur.deep_view() =~= init.cur);
        assert(recs.deep_view() =~= init.recs);
        assert(lines.deep_view().take(0) =~= Seq::<Seq<char>>::empty());
    }
    while i < lines.len()
        invariant
            0 <= i <= lines.len(),
            lines.deep_view() == spec_split(content@, '\n'),
            lines.deep_view().len() == lines.len(),
            spec_process_lines(lines.deep_view().take(i as int), init) == (ParseStV {
                cur: cur.deep_view(),
                recs: recs.deep_view(),
            }),
        decreases lines.len() - i,
    {
        let ghost pre_st = ParseStV { cur: cur.deep_view(), recs: recs.deep_view() };
        let ghost l = lines.deep_view()[i as int];
        proof {
            assert(l == lines[i as int]@);
            assert(lines.deep_view().take(i + 1) =~= lines.deep_view().take(i as int).push(l));
            lemma_process_lines_snoc(lines.deep_view().take(i as int), l, init);
        }
        let line = &lines[i];
        let t = trim_str(line.as_str());
        if t.as_str().unicode_len() == 0 {
            flush_stanza(&mut cur, &mut recs);
        } else {
            let c0 = line.as_str().get_char(0);
            if c0 == ' ' || c0 == '\t' || c0 == '\r' {
                // continuation line: ignored
            } else {
                match find_char(line.as_str(), ':') {
                    None => {},
                    Some(k) => {
                        proof {
                            lemma_find_char(l, ':');
                        }
                        let n = line.as_str().unicode_len();
                        let key = trim_str(line.as_str().substring_char(0, k));
                        let value = trim_str(line.as_str().substring_char(k + 1, n));
                        let ghost prec = cur.deep_view();
                        cur.push(FieldPair { key, value });
                        proof {
                            assert(cur.deep_view() =~= prec.push(
                                (spec_trim(l.take(k as int)), spec_trim(l.skip(k + 1))),
                            ));
                        }
                    },
                }
            }
        }
        proof {
            assert(spec_process_lines(lines.deep_view().take(i + 1), init) == (ParseStV {
                cur: cur.deep_view(),
                recs: recs.deep_view(),
            }));
        }
        i = i + 1;
    }
    proof {
        assert(lines.deep_view().take(lines.len() as int) =~= lines.deep_view());
    }
    flush_stanza(&mut cur, &mut recs);
    recs
}

/// Key/value pairs of a release document: every `Key: value` line, in
/// order.
pub open spec fn spec_release_pairs(lines: Seq<Seq<char>>) -> Seq<(Seq<char>, Seq<char>)>
    decreases lines.len(),
{
    if lines.len() == 0 {
        Seq::empty()
    } else {
        let rest = spec_release_pairs(lines.drop_first());
        match spec_find_char(lines.first(), ':') {
            None => rest,
            Some(i) => seq![
                (spec_trim(lines.first().take(i)), spec_trim(lines.first().skip(i + 1))),
            ] + rest,
        }
    }
}

/// Parses a release document into its key/value pairs.
pub fn parse_release_file(content: &str) -> (r: Vec<FieldPair>)
    ensures
        r.deep_view() == spec_release_pairs(spec_split(content@, '\n')),
{
    let lines = split_str(content, '\n');
    let mut acc: Vec<FieldPair> = Vec::new();
    let mut i: usize = 0;
    proof {
        assert(lines.deep_view().skip(0) =~= lines.deep_view());
    }
    while i < lines.len()
        invariant
            0 <= i <= lines.len(),
            lines.deep_view() == spec_split(content@, '\n'),
            lines.deep_view().len() == lines.len(),
            acc.deep_view() + spec_release_pairs(lines.deep_view().skip(i as int))
                == spec_release_pairs(lines.deep_view()),
        decreases lines.len() - i,
    {
        let ghost l = lines.deep_view()[i as int];
        proof {
            assert(l == lines[i as int]@);
            assert(lines.deep_view().skip(i as int).first() == l);
            assert(lines.deep_view().skip(i as int).drop_first() =~= lines.deep_view().skip(
                i + 1,
            ));
        }
        let line = &lines[i];
        match find_char(line.as_str(), ':') {
            None => {},
            Some(k) => {
                proof {
                    lemma_find_char(l, ':');
                }
                let n = line.as_str().unicode_len();
                let key = trim_str(line.as_str().substring_char(0, k));
                let value = trim_str(line.as_str().substring_char(k + 1, n));
                let ghost pre = acc.deep_view();
                acc.push(FieldPair { key, value });
                proof {
                    assert(acc.deep_view() =~= pre.push(
                        (spec_trim(l.take(k as int)), spec_trim(l.skip(k + 1))),
                    ));
                    assert(acc.deep_view() + spec_release_pairs(lines.deep_view().skip(i + 1))
                        =~= pre + spec_release_pairs(lines.deep_view().skip(i as int)));
                }
            },
        }
        i = i + 1;
    }
    proof {
        assert(lines.deep_view().skip(lines.len() as int) =~= Seq::<Seq<char>>::empty());
        assert(acc.deep_view() =~= spec_release_pairs(lines.deep_view()));
    }
    acc
}

} // verus!

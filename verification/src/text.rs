//! Verified text utilities: character search, splitting, trimming, and
//! decimal numbers, used by the index parser, the dependency grammar and
//! the durable package records.

use vstd::prelude::*;

verus! {

/// `String::push` appends one character at the end of the string.
pub assume_specification[ String::push ](s: &mut String, ch: char)
    ensures
        final(s)@ == old(s)@.push(ch),
;

/// Horizontal whitespace (and a stray carriage return from CRLF input);
/// never the line separator itself.
pub open spec fn is_space(c: char) -> bool {
    c == ' ' || c == '\t' || c == '\r'
}

/// Index of the first occurrence of `c` in `s`, if any.
pub open spec fn spec_find_char(s: Seq<char>, c: char) -> Option<int>
    decreases s.len(),
{
    if s.len() == 0 {
        None
    } else if s[0] == c {
        Some(0)
    } else {
        match spec_find_char(s.drop_first(), c) {
            None => None,
            Some(i) => Some(i + 1),
        }
    }
}

pub proof fn lemma_find_char(s: Seq<char>, c: char)
    ensures
        match spec_find_char(s, c) {
            None => forall|j: int| 0 <= j < s.len() ==> s[j] != c,
            Some(i) => 0 <= i < s.len() && s[i] == c && (forall|j: int| 0 <= j < i ==> s[j] != c),
        },
    decreases s.len(),
{
    if s.len() > 0 && s[0] != c {
        lemma_find_char(s.drop_first(), c);
        assert forall|j: int| 0 <= j < s.len() && j >= 1 implies s[j] == s.drop_first()[j - 1] by {}
    }
}

/// First index of `c` in `s`, exactly as `spec_find_char` gives it.
pub fn find_char(s: &str, c: char) -> (r: Option<usize>)
    ensures
        match r {
            None => spec_find_char(s@, c) is None,
            Some(i) => spec_find_char(s@, c) == Some(i as int),
        },
{
    let n = s.unicode_len();
    let mut i: usize = 0;
    while i < n
        invariant
            0 <= i <= n,
            n == s@.len(),
            forall|j: int| 0 <= j < i ==> s@[j] != c,
        decreases n - i,
    {
        if s.get_char(i) == c {
            proof {
                lemma_find_char(s@, c);
            }
            return Some(i);
        }
        i = i + 1;
    }
    proof {
        lemma_find_char(s@, c);
    }
    None
}

/// `s` split at every occurrence of `sep`; the separators themselves are
/// dropped, and `n` separators always give `n + 1` (possibly empty) parts.
pub open spec fn spec_split(s: Seq<char>, sep: char) -> Seq<Seq<char>>
    decreases s.len(),
    via spec_split_decreases
{
    match spec_find_char(s, sep) {
        None => seq![s],
        Some(i) => seq![s.take(i)] + spec_split(s.skip(i + 1), sep),
    }
}

#[via_fn]
proof fn spec_split_decreases(s: Seq<char>, sep: char) {
    lemma_find_char(s, sep);
}

/// Splits `s` at every occurrence of `sep`.
pub fn split_str(s: &str, sep: char) -> (r: Vec<String>)
    ensures
        r.deep_view() == spec_split(s@, sep),
{
    let mut acc: Vec<String> = Vec::new();
    let mut cur: &str = s;
    proof {
        assert(acc.deep_view() + spec_split(cur@, sep) == spec_split(s@, sep));
    }
    loop
        invariant
            acc.deep_view() + spec_split(cur@, sep) == spec_split(s@, sep),
        decreases cur@.len() + 1,
    {
        match find_char(cur, sep) {
            None => {
                let ghost pre = acc.deep_view();
                acc.push(cur.to_owned());
                proof {
                    assert(acc.deep_view() =~= pre + seq![cur@]);
                    assert(acc.deep_view() =~= spec_split(s@, sep));
                }
                return acc;
            },
            Some(i) => {
                proof {
                    lemma_find_char(cur@, sep);
                }
                let n = cur.unicode_len();
                let head = cur.substring_char(0, i);
                let ghost pre = acc.deep_view();
                let ghost old_cur = cur@;
                acc.push(head.to_owned());
                cur = cur.substring_char(i + 1, n);
                proof {
                    assert(head@ =~= old_cur.take(i as int));
                    assert(cur@ =~= old_cur.skip(i + 1));
                    assert(acc.deep_view() =~= pre + seq![old_cur.take(i as int)]);
                    assert(acc.deep_view() + spec_split(cur@, sep) =~= pre + spec_split(
                        old_cur,
                        sep,
                    ));
                }
            },
        }
    }
}

/// Index of the first comma of `s` that stands outside parentheses,
/// starting at nesting depth `depth`.
pub open spec fn spec_find_top_comma(s: Seq<char>, depth: int) -> Option<int>
    decreases s.len(),
{
    if s.len() == 0 {
        None
    } else if s[0] == ',' && depth == 0 {
        Some(0)
    } else {
        let d = if s[0] == '(' {
            depth + 1
        } else if s[0] == ')' && depth > 0 {
            depth - 1
        } else {
            depth
        };
        match spec_find_top_comma(s.drop_first(), d) {
            None => None,
            Some(i) => Some(i + 1),
        }
    }
}

pub proof fn lemma_find_top_comma_range(s: Seq<char>, depth: int)
    ensures
        match spec_find_top_comma(s, depth) {
            None => true,
            Some(i) => 0 <= i < s.len(),
        },
    decreases s.len(),
{
    if s.len() > 0 && !(s[0] == ',' && depth == 0) {
        let d = if s[0] == '(' {
            depth + 1
        } else if s[0] == ')' && depth > 0 {
            depth - 1
        } else {
            depth
        };
        lemma_find_top_comma_range(s.drop_first(), d);
    }
}

/// `s` split at every comma that stands outside parentheses.
pub open spec fn spec_split_top(s: Seq<char>) -> Seq<Seq<char>>
    decreases s.len(),
    via spec_split_top_decreases
{
    match spec_find_top_comma(s, 0) {
        None => seq![s],
        Some(i) => seq![s.take(i)] + spec_split_top(s.skip(i + 1)),
    }
}

#[via_fn]
proof fn spec_split_top_decreases(s: Seq<char>) {
    lemma_find_top_comma_range(s, 0);
}

/// Index of the first comma of `s` outside parentheses, exactly as
/// `spec_find_top_comma` gives it.
pub fn find_top_comma(s: &str) -> (r: Option<usize>)
    ensures
        r == match spec_find_top_comma(s@, 0) {
            None => None::<usize>,
            Some(i) => Some(i as usize),
        },
{
    let n = s.unicode_len();
    let mut i: usize = 0;
    let mut depth: usize = 0;
    proof {
        assert(s@.skip(0) =~= s@);
    }
    while i < n
        invariant
            0 <= i <= n,
            n == s@.len(),
            depth <= i,
            match spec_find_top_comma(s@.skip(i as int), depth as int) {
                None => spec_find_top_comma(s@, 0) is None,
                Some(k) => spec_find_top_comma(s@, 0) == Some(k + i),
            },
        decreases n - i,
    {
        let c = s.get_char(i);
        proof {
            assert(s@.skip(i as int)[0] == c);
            assert(s@.skip(i as int).drop_first() =~= s@.skip(i + 1));
        }
        if c == ',' && depth == 0 {
            return Some(i);
        }
        if c == '(' {
            depth = depth + 1;
        } else if c == ')' && depth > 0 {
            depth = depth - 1;
        }
        i = i + 1;
    }
    proof {
        assert(s@.skip(n as int) =~= Seq::<char>::empty());
    }
    None
}

/// Splits `s` at every comma outside parentheses.
pub fn split_top(s: &str) -> (r: Vec<String>)
    ensures
        r.deep_view() == spec_split_top(s@),
{
    let mut acc: Vec<String> = Vec::new();
    let mut cur: &str = s;
    loop
        invariant
            acc.deep_view() + spec_split_top(cur@) == spec_split_top(s@),
        decreases cur@.len() + 1,
    {
        match find_top_comma(cur) {
            None => {
                let ghost pre = acc.deep_view();
                acc.push(cur.to_owned());
                proof {
                    assert(acc.deep_view() =~= pre + seq![cur@]);
                    assert(acc.deep_view() =~= spec_split_top(s@));
                }
                return acc;
            },
            Some(i) => {
                proof {
                    lemma_find_top_comma_range(cur@, 0);
                }
                let n = cur.unicode_len();
                let head = cur.substring_char(0, i);
                let ghost pre = acc.deep_view();
                let ghost old_cur = cur@;
                acc.push(head.to_owned());
                cur = cur.substring_char(i + 1, n);
                proof {
                    assert(head@ =~= old_cur.take(i as int));
                    assert(cur@ =~= old_cur.skip(i + 1));
                    assert(acc.deep_view() =~= pre + seq![old_cur.take(i as int)]);
                    assert(acc.deep_view() + spec_split_top(cur@) =~= pre + spec_split_top(
                        old_cur,
                    ));
                }
            },
        }
    }
}

/// Trims every part and drops the empty ones.
pub open spec fn spec_clean_list(parts: Seq<Seq<char>>) -> Seq<Seq<char>>
    decreases parts.len(),
{
    if parts.len() == 0 {
        Seq::empty()
    } else {
        let h = spec_trim(parts.first());
        let rest = spec_clean_list(parts.drop_first());
        if h.len() == 0 {
            rest
        } else {
            seq![h] + rest
        }
    }
}

/// A comma-separated list value: split outside parentheses, each entry
/// trimmed, empty entries dropped.
pub open spec fn spec_parse_list(s: Seq<char>) -> Seq<Seq<char>> {
    spec_clean_list(spec_split_top(s))
}

/// Parses a comma-separated list value.
pub fn parse_list(s: &str) -> (r: Vec<String>)
    ensures
        r.deep_view() == spec_parse_list(s@),
{
    let parts = split_top(s);
    let mut acc: Vec<String> = Vec::new();
    let mut i: usize = 0;
    proof {
        assert(parts.deep_view().skip(0) =~= parts.deep_view());
    }
    while i < parts.len()
        invariant
            0 <= i <= parts.len(),
            parts.deep_view() == spec_split_top(s@),
            parts.deep_view().len() == parts.len(),
            acc.deep_view() + spec_clean_list(parts.deep_view().skip(i as int)) == spec_parse_list(
                s@,
            ),
        decreases parts.len() - i,
    {
        let t = trim_str(parts[i].as_str());
        proof {
            assert(parts.deep_view().skip(i as int).first() == parts[i as int]@);
            assert(parts.deep_view().skip(i as int).drop_first() =~= parts.deep_view().skip(
                i + 1,
            ));
        }
        if t.unicode_len() > 0 {
            let ghost pre = acc.deep_view();
            acc.push(t);
            proof {
                assert(acc.deep_view() =~= pre + seq![spec_trim(parts[i as int]@)]);
                assert(acc.deep_view() + spec_clean_list(parts.deep_view().skip(i + 1))
                    =~= spec_parse_list(s@));
            }
        }
        i = i + 1;
    }
    proof {
        assert(parts.deep_view().skip(parts.len() as int) =~= Seq::<Seq<char>>::empty());
        assert(acc.deep_view() =~= spec_parse_list(s@));
    }
    acc
}

/// Whether some string of `v` has the view `s`.
pub open spec fn spec_has_string(v: Seq<Seq<char>>, s: Seq<char>) -> bool {
    exists|i: int| 0 <= i < v.len() && v[i] == s
}

/// Whether `v` holds a string equal to `s`.
pub fn vec_contains_string(v: &Vec<String>, s: &str) -> (r: bool)
    ensures
        r == spec_has_string(v.deep_view(), s@),
{
    let mut i: usize = 0;
    while i < v.len()
        invariant
            0 <= i <= v.len(),
            forall|j: int| 0 <= j < i ==> v.deep_view()[j] != s@,
        decreases v.len() - i,
    {
        if str_equal(v[i].as_str(), s) {
            proof {
                assert(v.deep_view()[i as int] == s@);
            }
            return true;
        }
        proof {
            assert(v.deep_view()[i as int] == v[i as int]@);
        }
        i = i + 1;
    }
    false
}

/// Whether `needle` occurs in `hay` as a contiguous substring.
pub open spec fn spec_contains_sub(hay: Seq<char>, needle: Seq<char>) -> bool {
    exists|i: int|
        0 <= i <= hay.len() - needle.len() && #[trigger] hay.subrange(i, i + needle.len())
            == needle
}

/// Whether `needle` occurs in `hay` as a contiguous substring.
pub fn str_contains(hay: &str, needle: &str) -> (r: bool)
    ensures
        r == spec_contains_sub(hay@, needle@),
{
    let n = hay.unicode_len();
    let m = needle.unicode_len();
    if m > n {
        return false;
    }
    if m == 0 {
        proof {
            assert(hay@.subrange(0, 0 + needle@.len() as int) =~= needle@);
        }
        return true;
    }
    let mut i: usize = 0;
    while i <= n - m
        invariant
            0 <= i <= n - m + 1,
            0 < m <= n,
            n == hay@.len(),
            m == needle@.len(),
            forall|k: int| 0 <= k < i ==> #[trigger] hay@.subrange(k, k + m) != needle@,
        decreases n - m - i + 1,
    {
        let mut j: usize = 0;
        let mut hit = true;
        while j < m && hit
            invariant
                0 <= j <= m,
                i + m <= n,
                n == hay@.len(),
                m == needle@.len(),
                hit ==> forall|l: int| 0 <= l < j ==> hay@[i + l] == needle@[l],
                !hit ==> hay@.subrange(i as int, i + m) != needle@,
            decreases m - j + (if hit {
                1int
            } else {
                0int
            }),
        {
            if hay.get_char(i + j) != needle.get_char(j) {
                proof {
                    assert(hay@.subrange(i as int, i + m)[j as int] != needle@[j as int]);
                }
                hit = false;
            } else {
                j = j + 1;
            }
        }
        if hit {
            proof {
                assert(hay@.subrange(i as int, i + m) =~= needle@);
            }
            return true;
        }
        i = i + 1;
    }
    false
}

/// Copies a byte vector.
pub fn clone_bytes(v: &Vec<u8>) -> (r: Vec<u8>)
    ensures
        r@ == v@,
{
    let mut r: Vec<u8> = Vec::new();
    let mut i: usize = 0;
    while i < v.len()
        invariant
            0 <= i <= v.len(),
            r@ =~= v@.take(i as int),
        decreases v.len() - i,
    {
        r.push(v[i]);
        proof {
            assert(r@ =~= v@.take(i + 1));
        }
        i = i + 1;
    }
    proof {
        assert(v@.take(v@.len() as int) =~= v@);
    }
    r
}

/// Clones a vector of strings, keeping its contents.
pub fn clone_strings(v: &Vec<String>) -> (r: Vec<String>)
    ensures
        r.deep_view() == v.deep_view(),
{
    let mut r: Vec<String> = Vec::new();
    let mut i: usize = 0;
    while i < v.len()
        invariant
            0 <= i <= v.len(),
            v.deep_view().len() == v.len(),
            r.deep_view() =~= v.deep_view().take(i as int),
        decreases v.len() - i,
    {
        let ghost pre = r.deep_view();
        r.push(v[i].clone());
        proof {
            assert(r.deep_view() =~= pre.push(v[i as int]@));
            assert(r.deep_view() =~= v.deep_view().take(i + 1));
        }
        i = i + 1;
    }
    proof {
        assert(v.deep_view().take(v.len() as int) =~= v.deep_view());
    }
    r
}

/// The strings of `v` not equal to `needle`, in order.
pub fn filter_strings_keep_ne(v: &Vec<String>, needle: &str) -> (r: Vec<String>)
    ensures
        r.deep_view() == v.deep_view().filter(|c: Seq<char>| c != needle@),
{
    let ghost pred = |c: Seq<char>| c != needle@;
    let mut acc: Vec<String> = Vec::new();
    let mut i: usize = 0;
    proof {
        assert(v.deep_view().take(0) =~= Seq::<Seq<char>>::empty());
        assert(acc.deep_view() =~= v.deep_view().take(0).filter(pred));
    }
    while i < v.len()
        invariant
            0 <= i <= v.len(),
            v.deep_view().len() == v.len(),
            pred == (|c: Seq<char>| c != needle@),
            acc.deep_view() == v.deep_view().take(i as int).filter(pred),
        decreases v.len() - i,
    {
        proof {
            let dv = v.deep_view();
            assert(dv[i as int] == v[i as int]@);
            assert(dv.take(i + 1) =~= dv.take(i as int) + seq![dv[i as int]]);
            Seq::filter_distributes_over_add(dv.take(i as int), seq![dv[i as int]], pred);
            reveal_with_fuel(Seq::filter, 2);
            assert(seq![dv[i as int]].drop_last() =~= Seq::<Seq<char>>::empty());
        }
        if !str_equal(v[i].as_str(), needle) {
            let ghost pre = acc.deep_view();
            acc.push(v[i].clone());
            proof {
                assert(acc.deep_view() =~= pre.push(v.deep_view()[i as int]));
            }
        }
        i = i + 1;
    }
    proof {
        assert(v.deep_view().take(v.len() as int) =~= v.deep_view());
    }
    acc
}

/// Whether two string slices hold the same characters.
pub fn str_equal(a: &str, b: &str) -> (r: bool)
    ensures
        r == (a@ == b@),
{
    let n = a.unicode_len();
    if n != b.unicode_len() {
        return false;
    }
    let mut i: usize = 0;
    while i < n
        invariant
            0 <= i <= n,
            n == a@.len(),
            n == b@.len(),
            forall|j: int| 0 <= j < i ==> a@[j] == b@[j],
        decreases n - i,
    {
        if a.get_char(i) != b.get_char(i) {
            return false;
        }
        i = i + 1;
    }
    proof {
        assert(a@ =~= b@);
    }
    true
}

/// No line separator anywhere in `s`.
pub open spec fn spec_no_newline(s: Seq<char>) -> bool {
    forall|i: int| 0 <= i < s.len() ==> s[i] != '\n'
}

/// The lines joined back into one document, each line closed by a line
/// separator.
pub open spec fn spec_render_lines(lines: Seq<Seq<char>>) -> Seq<char>
    decreases lines.len(),
{
    if lines.len() == 0 {
        Seq::empty()
    } else {
        lines.first() + seq!['\n'] + spec_render_lines(lines.drop_first())
    }
}

/// Splitting a rendered line off the front of a document.
pub proof fn lemma_split_line_prefix(l: Seq<char>, rest: Seq<char>)
    requires
        spec_no_newline(l),
    ensures
        spec_split(l + seq!['\n'] + rest, '\n') == seq![l] + spec_split(rest, '\n'),
{
    let s = l + seq!['\n'] + rest;
    assert(s[l.len() as int] == '\n');
    assert forall|j: int| 0 <= j < l.len() implies s[j] != '\n' by {
        assert(s[j] == l[j]);
    }
    lemma_find_char(s, '\n');
    match spec_find_char(s, '\n') {
        None => {
            assert(false);
        },
        Some(i) => {
            if i < l.len() {
                assert(false);
            }
            if i > l.len() {
                assert(false);
            }
            assert(i == l.len());
            assert(s.take(i) =~= l);
            assert(s.skip(i + 1) =~= rest);
        },
    }
}

/// Splitting a rendered document gives the lines back, plus one empty
/// part after the final separator.
pub proof fn lemma_split_of_render(lines: Seq<Seq<char>>)
    requires
        forall|i: int| 0 <= i < lines.len() ==> spec_no_newline(#[trigger] lines[i]),
    ensures
        spec_split(spec_render_lines(lines), '\n') == lines.push(Seq::empty()),
    decreases lines.len(),
{
    if lines.len() == 0 {
        let empty = Seq::<char>::empty();
        lemma_find_char(empty, '\n');
        assert(spec_split(empty, '\n') == seq![empty]);
        assert(lines.push(empty) =~= seq![empty]);
    } else {
        lemma_split_line_prefix(lines.first(), spec_render_lines(lines.drop_first()));
        lemma_split_of_render(lines.drop_first());
        assert(spec_split(spec_render_lines(lines), '\n') =~= lines.push(Seq::empty()));
    }
}

/// `s` without its leading whitespace.
pub open spec fn spec_trim_front(s: Seq<char>) -> Seq<char>
    decreases s.len(),
{
    if s.len() > 0 && is_space(s[0]) {
        spec_trim_front(s.drop_first())
    } else {
        s
    }
}

/// `s` without its trailing whitespace.
pub open spec fn spec_trim_back(s: Seq<char>) -> Seq<char>
    decreases s.len(),
{
    if s.len() > 0 && is_space(s[s.len() - 1]) {
        spec_trim_back(s.drop_last())
    } else {
        s
    }
}

/// `s` without leading and trailing whitespace.
pub open spec fn spec_trim(s: Seq<char>) -> Seq<char> {
    spec_trim_back(spec_trim_front(s))
}

proof fn lemma_trim_front_skip(s: Seq<char>, k: int)
    requires
        0 <= k <= s.len(),
        forall|j: int| 0 <= j < k ==> is_space(s[j]),
        k == s.len() || !is_space(s[k]),
    ensures
        spec_trim_front(s) == s.skip(k),
    decreases k,
{
    if k == 0 {
        assert(spec_trim_front(s) == s.skip(0)) by {
            assert(s.skip(0) =~= s);
        }
    } else {
        lemma_trim_front_skip(s.drop_first(), k - 1);
        assert(s.drop_first().skip(k - 1) =~= s.skip(k));
    }
}

proof fn lemma_trim_back_take(s: Seq<char>, k: int)
    requires
        0 <= k <= s.len(),
        forall|j: int| k <= j < s.len() ==> is_space(s[j]),
        k == 0 || !is_space(s[k - 1]),
    ensures
        spec_trim_back(s) == s.take(k),
    decreases s.len() - k,
{
    if k == s.len() {
        assert(s.take(k) =~= s);
    } else {
        lemma_trim_back_take(s.drop_last(), k);
        assert(s.drop_last().take(k) =~= s.take(k));
    }
}

fn is_space_exec(c: char) -> (r: bool)
    ensures
        r == is_space(c),
{
    c == ' ' || c == '\t' || c == '\r'
}

/// `s` without leading and trailing whitespace.
pub fn trim_str(s: &str) -> (r: String)
    ensures
        r@ == spec_trim(s@),
{
    let n = s.unicode_len();
    let mut start: usize = 0;
    while start < n && is_space_exec(s.get_char(start))
        invariant
            0 <= start <= n,
            n == s@.len(),
            forall|j: int| 0 <= j < start ==> is_space(s@[j]),
        decreases n - start,
    {
        start = start + 1;
    }
    proof {
        lemma_trim_front_skip(s@, start as int);
    }
    let mut end: usize = n;
    while end > start && is_space_exec(s.get_char(end - 1))
        invariant
            start <= end <= n,
            n == s@.len(),
            forall|j: int| end <= j < n ==> is_space(s@[j]),
            spec_trim_front(s@) == s@.skip(start as int),
        decreases end,
    {
        end = end - 1;
    }
    proof {
        let f = s@.skip(start as int);
        assert forall|j: int| (end - start) <= j < f.len() implies is_space(f[j]) by {
            assert(f[j] == s@[j + start]);
        }
        if end > start {
            assert(f[end - start - 1] == s@[end - 1]);
        }
        lemma_trim_back_take(f, end - start);
        assert(f.take(end - start) =~= s@.subrange(start as int, end as int));
    }
    let r = s.substring_char(start, end);
    r.to_owned()
}

/// A decimal digit.
pub open spec fn is_digit(c: char) -> bool {
    '0' <= c && c <= '9'
}

/// Numeric value of a digit character.
pub open spec fn digit_val(c: char) -> nat {
    (c as nat - '0' as nat) as nat
}

/// Value of a digit string, most significant digit first.
pub open spec fn spec_digits_val(s: Seq<char>) -> nat
    decreases s.len(),
{
    if s.len() == 0 {
        0
    } else {
        spec_digits_val(s.drop_last()) * 10 + digit_val(s.last())
    }
}

/// `s` denotes a `u64`: nonempty, all digits, and within range.
pub open spec fn spec_is_u64_string(s: Seq<char>) -> bool {
    s.len() > 0 && (forall|j: int| 0 <= j < s.len() ==> is_digit(s[j])) && spec_digits_val(s)
        <= u64::MAX
}

/// The `u64` a digit string denotes, or `None` for anything malformed or
/// out of range.
pub open spec fn spec_parse_u64(s: Seq<char>) -> Option<u64> {
    if spec_is_u64_string(s) {
        Some(spec_digits_val(s) as u64)
    } else {
        None
    }
}

/// Appending digits never shrinks the value.
proof fn lemma_digits_val_prefix(s: Seq<char>, k: int)
    requires
        0 <= k <= s.len(),
    ensures
        spec_digits_val(s.take(k)) <= spec_digits_val(s),
    decreases s.len() - k,
{
    if k < s.len() {
        lemma_digits_val_prefix(s, k + 1);
        assert(s.take(k + 1).drop_last() =~= s.take(k));
        assert(spec_digits_val(s.take(k)) <= spec_digits_val(s.take(k + 1)));
    } else {
        assert(s.take(k) =~= s);
    }
}

fn digit_of(c: char) -> (r: u64)
    requires
        is_digit(c),
    ensures
        r == digit_val(c),
{
    (c as u64) - ('0' as u64)
}

/// Parses a decimal `u64`, exactly when `spec_parse_u64` gives one.
pub fn parse_u64(s: &str) -> (r: Option<u64>)
    ensures
        r == spec_parse_u64(s@),
{
    let n = s.unicode_len();
    if n == 0 {
        return None;
    }
    let mut acc: u64 = 0;
    let mut i: usize = 0;
    while i < n
        invariant
            0 <= i <= n,
            n == s@.len(),
            n > 0,
            forall|j: int| 0 <= j < i ==> is_digit(s@[j]),
            acc == spec_digits_val(s@.take(i as int)),
        decreases n - i,
    {
        let c = s.get_char(i);
        if !('0' <= c && c <= '9') {
            return None;
        }
        let d = digit_of(c);
        if acc > (u64::MAX - d) / 10 {
            proof {
                assert(s@.take(i + 1).drop_last() =~= s@.take(i as int));
                assert(spec_digits_val(s@.take(i + 1)) == acc * 10 + digit_val(c));
                assert(acc * 10 + d > u64::MAX) by (nonlinear_arith)
                    requires
                        acc > (u64::MAX - d) / 10,
                        0 <= d <= 9,
                ;
                lemma_digits_val_prefix(s@, i + 1);
            }
            return None;
        }
        proof {
            assert(acc * 10 + d <= u64::MAX) by (nonlinear_arith)
                requires
                    acc <= (u64::MAX - d) / 10,
                    0 <= d <= 9,
            ;
            assert(s@.take(i + 1).drop_last() =~= s@.take(i as int));
        }
        acc = acc * 10 + d;
        i = i + 1;
    }
    proof {
        assert(s@.take(n as int) =~= s@);
    }
    Some(acc)
}

/// The digit character for a value below ten.
pub open spec fn spec_digit_char(n: nat) -> char {
    if n == 0 {
        '0'
    } else if n == 1 {
        '1'
    } else if n == 2 {
        '2'
    } else if n == 3 {
        '3'
    } else if n == 4 {
        '4'
    } else if n == 5 {
        '5'
    } else if n == 6 {
        '6'
    } else if n == 7 {
        '7'
    } else if n == 8 {
        '8'
    } else {
        '9'
    }
}

/// Decimal rendering of `n`, most significant digit first, no leading
/// zeros (except for `n == 0` itself).
pub open spec fn spec_u64_string(n: nat) -> Seq<char>
    decreases n,
{
    if n < 10 {
        seq![spec_digit_char(n)]
    } else {
        spec_u64_string(n / 10).push(spec_digit_char(n % 10))
    }
}

fn digit_char(n: u64) -> (r: char)
    requires
        n < 10,
    ensures
        r == spec_digit_char(n as nat),
{
    if n == 0 {
        '0'
    } else if n == 1 {
        '1'
    } else if n == 2 {
        '2'
    } else if n == 3 {
        '3'
    } else if n == 4 {
        '4'
    } else if n == 5 {
        '5'
    } else if n == 6 {
        '6'
    } else if n == 7 {
        '7'
    } else if n == 8 {
        '8'
    } else {
        '9'
    }
}

/// Renders `n` in decimal.
pub fn u64_to_string(n: u64) -> (r: String)
    ensures
        r@ == spec_u64_string(n as nat),
    decreases n,
{
    if n < 10 {
        let mut s = String::new();
        s.push(digit_char(n));
        s
    } else {
        proof {
            assert(n / 10 < n) by (nonlinear_arith)
                requires
                    n >= 10,
            ;
        }
        let mut s = u64_to_string(n / 10);
        s.push(digit_char(n % 10));
        s
    }
}

/// A rendered number is a well-formed digit string and parses back to
/// the value it was rendered from.
pub proof fn lemma_u64_string_roundtrip(n: nat)
    ensures
        spec_u64_string(n).len() > 0,
        forall|j: int| 0 <= j < spec_u64_string(n).len() ==> is_digit(spec_u64_string(n)[j]),
        spec_digits_val(spec_u64_string(n)) == n,
        n <= u64::MAX ==> spec_parse_u64(spec_u64_string(n)) == Some(n as u64),
    decreases n,
{
    if n < 10 {
        assert(spec_u64_string(n) == seq![spec_digit_char(n)]);
        assert(spec_u64_string(n).drop_last() =~= Seq::<char>::empty());
        assert(digit_val(spec_digit_char(n)) == n);
        assert(is_digit(spec_digit_char(n)));
        assert(spec_digits_val(Seq::<char>::empty()) == 0);
        assert(spec_u64_string(n).last() == spec_digit_char(n));
        assert(spec_digits_val(spec_u64_string(n)) == spec_digits_val(
            spec_u64_string(n).drop_last(),
        ) * 10 + digit_val(spec_u64_string(n).last()));
        assert(spec_digits_val(spec_u64_string(n)) == n);
    } else {
        assert(n / 10 < n) by (nonlinear_arith)
            requires
                n >= 10,
        ;
        lemma_u64_string_roundtrip(n / 10);
        let s = spec_u64_string(n);
        assert(s == spec_u64_string(n / 10).push(spec_digit_char(n % 10)));
        assert(s.drop_last() =~= spec_u64_string(n / 10));
        assert(spec_digits_val(s) == (n / 10) * 10 + n % 10);
        assert((n / 10) * 10 + n % 10 == n) by (nonlinear_arith);
        assert forall|j: int| 0 <= j < s.len() implies is_digit(s[j]) by {
            if j < s.len() - 1 {
                assert(s[j] == spec_u64_string(n / 10)[j]);
            }
        }
    }
}

} // verus!

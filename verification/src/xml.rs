//! The single-document XML source.
//!
//! Title data from this source is published as one XML document: a root
//! element whose children each describe one title, every child holding one
//! field per element as text. This module decodes that document into
//! [`Release`] records and indexes them by title ID.
//!
//! The decoder accepts the shape the feed publishes: an optional
//! `<?...?>` prolog, one root element, record elements whose children are
//! text-only field elements, the five predefined entities, and `/>` for an
//! empty element. Tags may carry attributes, which are skipped. Anything
//! else — mismatched tags, nested markup inside a field, a bare `&` — is a
//! decode failure, reported through [`crate::error::Error`], never a panic.

use vstd::prelude::*;
use crate::error::{Error, ErrorKind};
use crate::index::{TitleIndex, index_of};
use crate::scan::{
    spec_skip_ws, skip_ws, chars_of, string_of, chars_eq, spec_u64_of, u64_of_chars,
};

verus! {

/// A character allowed in an element, attribute or entity name.
pub open spec fn is_name_char(c: char) -> bool {
    (48 <= c as u32 <= 57) || (65 <= c as u32 <= 90) || (97 <= c as u32 <= 122) || c == '_'
        || c == '-' || c == ':' || c == '.'
}

/// Executable name-character test.
fn name_char(c: char) -> (r: bool)
    ensures
        r == is_name_char(c),
{
    let u = c as u32;
    (48 <= u && u <= 57) || (65 <= u && u <= 90) || (97 <= u && u <= 122) || c == '_' || c == '-'
        || c == ':' || c == '.'
}

/// The run of name characters from position `i`.
pub open spec fn spec_name_body(s: Seq<char>, i: int, acc: Seq<char>) -> (Seq<char>, int)
    decreases s.len() - i,
{
    if 0 <= i < s.len() && is_name_char(s[i]) {
        spec_name_body(s, i + 1, acc.push(s[i]))
    } else {
        (acc, i)
    }
}

/// A nonempty name at position `i`.
pub open spec fn spec_name(s: Seq<char>, i: int) -> Option<(Seq<char>, int)> {
    let (n, j) = spec_name_body(s, i, Seq::<char>::empty());
    if n.len() > 0 {
        Some((n, j))
    } else {
        None
    }
}

/// Scans a name, computing exactly [`spec_name`].
fn parse_name(s: &Vec<char>, i: usize) -> (r: Option<(Vec<char>, usize)>)
    requires
        i <= s@.len(),
    ensures
        (r is None) == (spec_name(s@, i as int) is None),
        r matches Some(p) ==> spec_name(s@, i as int) matches Some(q) && p.0@ == q.0 && p.1
            == q.1 && i <= p.1 <= s@.len(),
{
    let mut j = i;
    let mut acc: Vec<char> = Vec::new();
    while j < s.len() && name_char(s[j])
        invariant
            i <= j <= s@.len(),
            spec_name_body(s@, j as int, acc@) == spec_name_body(
                s@,
                i as int,
                Seq::<char>::empty(),
            ),
        decreases s@.len() - j,
    {
        acc.push(s[j]);
        j = j + 1;
    }
    if acc.len() > 0 {
        Some((acc, j))
    } else {
        None
    }
}

/// From just after a tag's name: skips to the closing `>`, telling a
/// self-closing `/>` apart, or fails on a stray `<` or the end of text.
pub open spec fn spec_tag_end(s: Seq<char>, i: int, name_end: int) -> Option<(bool, int)>
    decreases s.len() - i,
{
    if !(0 <= i < s.len()) {
        None
    } else if s[i] == '>' {
        Some((i > name_end && s[i - 1] == '/', i + 1))
    } else if s[i] == '<' {
        None
    } else {
        spec_tag_end(s, i + 1, name_end)
    }
}

/// Scans to a tag's end from the end of its name, computing exactly
/// [`spec_tag_end`] with the name's end as the reference position.
fn parse_tag_end(s: &Vec<char>, i: usize) -> (r: Option<(bool, usize)>)
    requires
        i <= s@.len(),
    ensures
        (r is None) == (spec_tag_end(s@, i as int, i as int) is None),
        r matches Some(p) ==> spec_tag_end(s@, i as int, i as int) matches Some(q) && p.0 == q.0
            && p.1 == q.1 && i < p.1 <= s@.len(),
{
    let mut j = i;
    while j < s.len() && s[j] != '>' && s[j] != '<'
        invariant
            i <= j <= s@.len(),
            spec_tag_end(s@, j as int, i as int) == spec_tag_end(s@, i as int, i as int),
        decreases s@.len() - j,
    {
        j = j + 1;
    }
    if j < s.len() && s[j] == '>' {
        let sc = j > i && s[j - 1] == '/';
        Some((sc, j + 1))
    } else {
        None
    }
}

/// An opening tag at position `i`: `<`, a name, optional attribute text,
/// then `>` or `/>`.
pub open spec fn spec_open_tag(s: Seq<char>, i: int) -> Option<((Seq<char>, bool), int)> {
    if 0 <= i < s.len() && s[i] == '<' {
        match spec_name(s, i + 1) {
            None => None,
            Some((name, j)) => {
                match spec_tag_end(s, j, j) {
                    None => None,
                    Some((sc, j2)) => Some(((name, sc), j2)),
                }
            },
        }
    } else {
        None
    }
}

/// Scans an opening tag, computing exactly [`spec_open_tag`].
fn parse_open_tag(s: &Vec<char>, i: usize) -> (r: Option<((Vec<char>, bool), usize)>)
    requires
        i <= s@.len(),
    ensures
        (r is None) == (spec_open_tag(s@, i as int) is None),
        r matches Some(p) ==> spec_open_tag(s@, i as int) matches Some(q) && p.0.0@ == q.0.0
            && p.0.1 == q.0.1 && p.1 == q.1 && i < p.1 <= s@.len(),
{
    if !(i < s.len() && s[i] == '<') {
        return None;
    }
    match parse_name(s, i + 1) {
        None => None,
        Some((name, j)) => {
            match parse_tag_end(s, j) {
                None => None,
                Some((sc, j2)) => Some(((name, sc), j2)),
            }
        },
    }
}

/// A closing tag at position `i`: `</`, the name, optional whitespace, `>`.
pub open spec fn spec_close_tag(s: Seq<char>, i: int) -> Option<(Seq<char>, int)> {
    if 0 <= i && i + 1 < s.len() && s[i] == '<' && s[i + 1] == '/' {
        match spec_name(s, i + 2) {
            None => None,
            Some((name, j)) => {
                let k = spec_skip_ws(s, j);
                if k < s.len() && s[k] == '>' {
                    Some((name, k + 1))
                } else {
                    None
                }
            },
        }
    } else {
        None
    }
}

/// Scans a closing tag, computing exactly [`spec_close_tag`].
fn parse_close_tag(s: &Vec<char>, i: usize) -> (r: Option<(Vec<char>, usize)>)
    requires
        i <= s@.len(),
    ensures
        (r is None) == (spec_close_tag(s@, i as int) is None),
        r matches Some(p) ==> spec_close_tag(s@, i as int) matches Some(q) && p.0@ == q.0 && p.1
            == q.1 && i < p.1 <= s@.len(),
{
    if !(i < s.len() && s[i] == '<' && i + 1 < s.len() && s[i + 1] == '/') {
        return None;
    }
    match parse_name(s, i + 2) {
        None => None,
        Some((name, j)) => {
            let k = skip_ws(s, j);
            if k < s.len() && s[k] == '>' {
                Some((name, k + 1))
            } else {
                None
            }
        },
    }
}

/// The characters a predefined entity stands for.
pub open spec fn spec_entity(name: Seq<char>) -> Option<char> {
    if name == "amp"@ {
        Some('&')
    } else if name == "lt"@ {
        Some('<')
    } else if name == "gt"@ {
        Some('>')
    } else if name == "quot"@ {
        Some('"')
    } else if name == "apos"@ {
        Some('\'')
    } else {
        None
    }
}

/// Executable entity decoding, computing exactly [`spec_entity`].
fn entity_char(name: &Vec<char>) -> (r: Option<char>)
    ensures
        r == spec_entity(name@),
{
    if chars_eq(name, "amp") {
        Some('&')
    } else if chars_eq(name, "lt") {
        Some('<')
    } else if chars_eq(name, "gt") {
        Some('>')
    } else if chars_eq(name, "quot") {
        Some('"')
    } else if chars_eq(name, "apos") {
        Some('\'')
    } else {
        None
    }
}

/// Text content from position `i` up to the next `<` (not consumed), with
/// the predefined entities decoded; reaching the end of text first, or a
/// malformed entity, is a failure.
pub open spec fn spec_text(s: Seq<char>, i: int, acc: Seq<char>) -> Option<(Seq<char>, int)>
    decreases s.len() - i,
{
    if !(0 <= i < s.len()) {
        None
    } else if s[i] == '<' {
        Some((acc, i))
    } else if s[i] == '&' {
        match spec_name(s, i + 1) {
            None => None,
            Some((en, j)) => {
                if i <= j && j < s.len() && s[j] == ';' {
                    match spec_entity(en) {
                        Some(c) => spec_text(s, j + 1, acc.push(c)),
                        None => None,
                    }
                } else {
                    None
                }
            },
        }
    } else {
        spec_text(s, i + 1, acc.push(s[i]))
    }
}

/// Scans text content, computing exactly [`spec_text`].
fn parse_text(s: &Vec<char>, i: usize) -> (r: Option<(Vec<char>, usize)>)
    requires
        i <= s@.len(),
    ensures
        (r is None) == (spec_text(s@, i as int, Seq::<char>::empty()) is None),
        r matches Some(p) ==> spec_text(s@, i as int, Seq::<char>::empty()) matches Some(q)
            && p.0@ == q.0 && p.1 == q.1 && i <= p.1 <= s@.len(),
{
    let mut j = i;
    let mut acc: Vec<char> = Vec::new();
    loop
        invariant
            i <= j <= s@.len(),
            spec_text(s@, j as int, acc@) == spec_text(s@, i as int, Seq::<char>::empty()),
        decreases s@.len() - j,
    {
        if j >= s.len() {
            return None;
        }
        let c = s[j];
        if c == '<' {
            return Some((acc, j));
        }
        if c == '&' {
            match parse_name(s, j + 1) {
                None => {
                    return None;
                },
                Some((en, k)) => {
                    if !(k < s.len() && s[k] == ';') {
                        return None;
                    }
                    match entity_char(&en) {
                        Some(e) => {
                            acc.push(e);
                            j = k + 1;
                        },
                        None => {
                            return None;
                        },
                    }
                },
            }
        } else {
            acc.push(c);
            j = j + 1;
        }
    }
}

/// A field element at position `i`: an element holding text alone, or a
/// self-closing element standing for empty text. The closing tag must
/// repeat the opening name.
pub open spec fn spec_field(s: Seq<char>, i: int) -> Option<((Seq<char>, Seq<char>), int)> {
    match spec_open_tag(s, i) {
        None => None,
        Some(((name, sc), j)) => {
            if sc {
                Some(((name, Seq::<char>::empty()), j))
            } else {
                match spec_text(s, j, Seq::<char>::empty()) {
                    None => None,
                    Some((t, j2)) => {
                        match spec_close_tag(s, j2) {
                            None => None,
                            Some((cn, j3)) => {
                                if cn == name {
                                    Some(((name, t), j3))
                                } else {
                                    None
                                }
                            },
                        }
                    },
                }
            }
        },
    }
}

/// Scans one field element, computing exactly [`spec_field`].
fn parse_field(s: &Vec<char>, i: usize) -> (r: Option<((Vec<char>, Vec<char>), usize)>)
    requires
        i <= s@.len(),
    ensures
        (r is None) == (spec_field(s@, i as int) is None),
        r matches Some(p) ==> spec_field(s@, i as int) matches Some(q) && p.0.0@ == q.0.0
            && p.0.1@ == q.0.1 && p.1 == q.1 && i < p.1 <= s@.len(),
{
    match parse_open_tag(s, i) {
        None => None,
        Some(((name, sc), j)) => {
            if sc {
                let empty: Vec<char> = Vec::new();
                Some(((name, empty), j))
            } else {
                match parse_text(s, j) {
                    None => None,
                    Some((t, j2)) => {
                        match parse_close_tag(s, j2) {
                            None => None,
                            Some((cn, j3)) => {
                                if vec_chars_eq(&cn, &name) {
                                    Some(((name, t), j3))
                                } else {
                                    None
                                }
                            },
                        }
                    },
                }
            }
        },
    }
}

/// Whether two character vectors hold the same characters.
fn vec_chars_eq(a: &Vec<char>, b: &Vec<char>) -> (r: bool)
    ensures
        r == (a@ == b@),
{
    if a.len() != b.len() {
        proof {
            if a@ == b@ {
                assert(a@.len() == b@.len());
            }
        }
        return false;
    }
    let mut i: usize = 0;
    while i < a.len()
        invariant
            i <= a@.len(),
            a@.len() == b@.len(),
            forall|j: int| 0 <= j < i ==> a@[j] == b@[j],
        decreases a@.len() - i,
    {
        if a[i] != b[i] {
            return false;
        }
        i = i + 1;
    }
    proof {
        assert(a@ =~= b@);
    }
    true
}

/// The field elements of a record, from position `i` up to (not consuming)
/// the record's closing tag.
pub open spec fn spec_fields(s: Seq<char>, i: int) -> Option<(Seq<(Seq<char>, Seq<char>)>, int)>
    decreases s.len() - i,
{
    let j = spec_skip_ws(s, i);
    if j + 1 < s.len() && s[j] == '<' && s[j + 1] == '/' {
        Some((Seq::<(Seq<char>, Seq<char>)>::empty(), j))
    } else {
        match spec_field(s, j) {
            None => None,
            Some((p, j2)) => {
                if i < j2 <= s.len() {
                    match spec_fields(s, j2) {
                        None => None,
                        Some((rest, j3)) => Some((seq![p] + rest, j3)),
                    }
                } else {
                    None
                }
            },
        }
    }
}

/// Scans a record's fields, computing exactly [`spec_fields`].
fn parse_fields(s: &Vec<char>, i: usize) -> (r: Option<(Vec<(Vec<char>, Vec<char>)>, usize)>)
    requires
        i <= s@.len(),
    ensures
        (r is None) == (spec_fields(s@, i as int) is None),
        r matches Some(p) ==> spec_fields(s@, i as int) matches Some(q) && pairs_view(p.0@)
            == q.0 && p.1 == q.1 && i <= p.1 <= s@.len(),
    decreases s@.len() - i,
{
    let j = skip_ws(s, i);
    if j < s.len() && s[j] == '<' && j + 1 < s.len() && s[j + 1] == '/' {
        let out: Vec<(Vec<char>, Vec<char>)> = Vec::new();
        proof {
            assert(pairs_view(out@) =~= Seq::<(Seq<char>, Seq<char>)>::empty());
        }
        Some((out, j))
    } else {
        match parse_field(s, j) {
            None => None,
            Some((p, j2)) => {
                if i < j2 {
                    match parse_fields(s, j2) {
                        None => None,
                        Some((rest, j3)) => {
                            let mut out: Vec<(Vec<char>, Vec<char>)> = Vec::new();
                            out.push(p);
                            let mut rest = rest;
                            out.append(&mut rest);
                            proof {
                                let q = spec_fields(s@, i as int)->Some_0;
                                assert(pairs_view(out@) =~= q.0);
                            }
                            Some((out, j3))
                        },
                    }
                } else {
                    None
                }
            },
        }
    }
}

/// The view of a scanned field list: each name and text as sequences.
pub open spec fn pairs_view(ps: Seq<(Vec<char>, Vec<char>)>) -> Seq<(Seq<char>, Seq<char>)> {
    ps.map_values(|p: (Vec<char>, Vec<char>)| (p.0@, p.1@))
}

/// A record element at position `i`: an element whose children are field
/// elements (none, for a self-closing element).
pub open spec fn spec_record(s: Seq<char>, i: int) -> Option<(Seq<(Seq<char>, Seq<char>)>, int)> {
    match spec_open_tag(s, i) {
        None => None,
        Some(((name, sc), j)) => {
            if sc {
                Some((Seq::<(Seq<char>, Seq<char>)>::empty(), j))
            } else {
                match spec_fields(s, j) {
                    None => None,
                    Some((fs, j2)) => {
                        match spec_close_tag(s, j2) {
                            None => None,
                            Some((cn, j3)) => {
                                if cn == name {
                                    Some((fs, j3))
                                } else {
                                    None
                                }
                            },
                        }
                    },
                }
            }
        },
    }
}

/// Scans one record element, computing exactly [`spec_record`].
fn parse_record(s: &Vec<char>, i: usize) -> (r: Option<(Vec<(Vec<char>, Vec<char>)>, usize)>)
    requires
        i <= s@.len(),
    ensures
        (r is None) == (spec_record(s@, i as int) is None),
        r matches Some(p) ==> spec_record(s@, i as int) matches Some(q) && pairs_view(p.0@)
            == q.0 && p.1 == q.1 && i < p.1 <= s@.len(),
{
    match parse_open_tag(s, i) {
        None => None,
        Some(((name, sc), j)) => {
            if sc {
                let out: Vec<(Vec<char>, Vec<char>)> = Vec::new();
                proof {
                    assert(pairs_view(out@) =~= Seq::<(Seq<char>, Seq<char>)>::empty());
                }
                Some((out, j))
            } else {
                match parse_fields(s, j) {
                    None => None,
                    Some((fs, j2)) => {
                        match parse_close_tag(s, j2) {
                            None => None,
                            Some((cn, j3)) => {
                                if vec_chars_eq(&cn, &name) {
                                    Some((fs, j3))
                                } else {
                                    None
                                }
                            },
                        }
                    },
                }
            }
        },
    }
}

/// The record elements of the root, from position `i` up to (not
/// consuming) the root's closing tag.
pub open spec fn spec_records(s: Seq<char>, i: int) -> Option<
    (Seq<Seq<(Seq<char>, Seq<char>)>>, int),
>
    decreases s.len() - i,
{
    let j = spec_skip_ws(s, i);
    if j + 1 < s.len() && s[j] == '<' && s[j + 1] == '/' {
        Some((Seq::<Seq<(Seq<char>, Seq<char>)>>::empty(), j))
    } else {
        match spec_record(s, j) {
            None => None,
            Some((rec, j2)) => {
                if i < j2 <= s.len() {
                    match spec_records(s, j2) {
                        None => None,
                        Some((rest, j3)) => Some((seq![rec] + rest, j3)),
                    }
                } else {
                    None
                }
            },
        }
    }
}

/// The view of a scanned record list.
pub open spec fn recs_view(os: Seq<Vec<(Vec<char>, Vec<char>)>>) -> Seq<
    Seq<(Seq<char>, Seq<char>)>,
> {
    os.map_values(|o: Vec<(Vec<char>, Vec<char>)>| pairs_view(o@))
}

/// Scans the root's records, computing exactly [`spec_records`].
fn parse_records(s: &Vec<char>, i: usize) -> (r: Option<
    (Vec<Vec<(Vec<char>, Vec<char>)>>, usize),
>)
    requires
        i <= s@.len(),
    ensures
        (r is None) == (spec_records(s@, i as int) is None),
        r matches Some(p) ==> spec_records(s@, i as int) matches Some(q) && recs_view(p.0@)
            == q.0 && p.1 == q.1 && i <= p.1 <= s@.len(),
    decreases s@.len() - i,
{
    let j = skip_ws(s, i);
    if j < s.len() && s[j] == '<' && j + 1 < s.len() && s[j + 1] == '/' {
        let out: Vec<Vec<(Vec<char>, Vec<char>)>> = Vec::new();
        proof {
            assert(recs_view(out@) =~= Seq::<Seq<(Seq<char>, Seq<char>)>>::empty());
        }
        Some((out, j))
    } else {
        match parse_record(s, j) {
            None => None,
            Some((rec, j2)) => {
                if i < j2 {
                    match parse_records(s, j2) {
                        None => None,
                        Some((rest, j3)) => {
                            let mut out: Vec<Vec<(Vec<char>, Vec<char>)>> = Vec::new();
                            out.push(rec);
                            let mut rest = rest;
                            out.append(&mut rest);
                            proof {
                                let q = spec_records(s@, i as int)->Some_0;
                                assert(recs_view(out@) =~= q.0);
                            }
                            Some((out, j3))
                        },
                    }
                } else {
                    None
                }
            },
        }
    }
}

/// The position after the `?>` that ends a `<?...?>` prolog opened
/// before position `i`.
pub open spec fn spec_prolog_end(s: Seq<char>, i: int) -> Option<int>
    decreases s.len() - i,
{
    if !(0 <= i && i + 1 < s.len()) {
        None
    } else if s[i] == '?' && s[i + 1] == '>' {
        Some(i + 2)
    } else {
        spec_prolog_end(s, i + 1)
    }
}

/// Scans to a prolog's end, computing exactly [`spec_prolog_end`].
fn parse_prolog_end(s: &Vec<char>, i: usize) -> (r: Option<usize>)
    requires
        i <= s@.len(),
    ensures
        (r is None) == (spec_prolog_end(s@, i as int) is None),
        r matches Some(j) ==> spec_prolog_end(s@, i as int) == Some(j as int) && i < j
            <= s@.len(),
{
    let mut j = i;
    while j < s.len() && j + 1 < s.len() && !(s[j] == '?' && s[j + 1] == '>')
        invariant
            i <= j <= s@.len(),
            spec_prolog_end(s@, j as int) == spec_prolog_end(s@, i as int),
        decreases s@.len() - j,
    {
        j = j + 1;
    }
    if j < s.len() && j + 1 < s.len() {
        Some(j + 2)
    } else {
        None
    }
}

/// The whole document: optional whitespace and prolog, one root element
/// whose children are the records, optional whitespace, end of text.
pub open spec fn spec_xml_doc(s: Seq<char>) -> Option<Seq<Seq<(Seq<char>, Seq<char>)>>> {
    let i0 = spec_skip_ws(s, 0);
    let start = if i0 + 1 < s.len() && s[i0] == '<' && s[i0 + 1] == '?' {
        spec_prolog_end(s, i0 + 2)
    } else {
        Some(i0)
    };
    match start {
        None => None,
        Some(i1) => {
            let i2 = spec_skip_ws(s, i1);
            match spec_open_tag(s, i2) {
                None => None,
                Some(((root, sc), j)) => {
                    if sc {
                        if spec_skip_ws(s, j) == s.len() {
                            Some(Seq::<Seq<(Seq<char>, Seq<char>)>>::empty())
                        } else {
                            None
                        }
                    } else {
                        match spec_records(s, j) {
                            None => None,
                            Some((rs, j2)) => {
                                match spec_close_tag(s, j2) {
                                    None => None,
                                    Some((cn, j3)) => {
                                        if cn == root && spec_skip_ws(s, j3) == s.len() {
                                            Some(rs)
                                        } else {
                                            None
                                        }
                                    },
                                }
                            },
                        }
                    }
                },
            }
        },
    }
}

/// Scans the whole document, computing exactly [`spec_xml_doc`].
fn parse_xml_doc(s: &Vec<char>) -> (r: Option<Vec<Vec<(Vec<char>, Vec<char>)>>>)
    ensures
        (r is None) == (spec_xml_doc(s@) is None),
        r matches Some(p) ==> spec_xml_doc(s@) matches Some(q) && recs_view(p@) == q,
{
    let i0 = skip_ws(s, 0);
    let start: Option<usize> = if i0 < s.len() && s[i0] == '<' && i0 + 1 < s.len() && s[i0 + 1]
        == '?' {
        parse_prolog_end(s, i0 + 2)
    } else {
        Some(i0)
    };
    match start {
        None => None,
        Some(i1) => {
            let i2 = skip_ws(s, i1);
            match parse_open_tag(s, i2) {
                None => None,
                Some(((root, sc), j)) => {
                    if sc {
                        if skip_ws(s, j) == s.len() {
                            let out: Vec<Vec<(Vec<char>, Vec<char>)>> = Vec::new();
                            proof {
                                assert(recs_view(out@) =~= Seq::<
                                    Seq<(Seq<char>, Seq<char>)>,
                                >::empty());
                            }
                            Some(out)
                        } else {
                            None
                        }
                    } else {
                        match parse_records(s, j) {
                            None => None,
                            Some((rs, j2)) => {
                                match parse_close_tag(s, j2) {
                                    None => None,
                                    Some((cn, j3)) => {
                                        if vec_chars_eq(&cn, &root) && skip_ws(s, j3)
                                            == s.len() {
                                            Some(rs)
                                        } else {
                                            None
                                        }
                                    },
                                }
                            },
                        }
                    }
                },
            }
        },
    }
}

/// The mathematical value of a [`Release`]: its fields as character
/// sequences and integers.
pub struct ReleaseView {
    pub id: Seq<char>,
    pub name: Seq<char>,
    pub publisher: Seq<char>,
    pub region: Seq<char>,
    pub languages: Seq<char>,
    pub group: Seq<char>,
    pub image_size: u64,
    pub serial: Seq<char>,
    pub title_id: Seq<char>,
    pub img_crc: Seq<char>,
    pub filename: Seq<char>,
    pub release_name: Seq<char>,
    pub trimmed_size: u64,
    pub firmware: Seq<char>,
    pub _type: Seq<char>,
    pub card: Seq<char>,
}

/// A 3DS title from the XML source. The title ID is the indexing key but
/// is not guaranteed unique; the two sizes are in bytes.
#[derive(Debug)]
pub struct Release {
    pub id: String,
    pub name: String,
    pub publisher: String,
    pub region: String,
    pub languages: String,
    pub group: String,
    pub image_size: u64,
    pub serial: String,
    pub title_id: String,
    pub img_crc: String,
    pub filename: String,
    pub release_name: String,
    pub trimmed_size: u64,
    pub firmware: String,
    pub _type: String,
    pub card: String,
}

impl View for Release {
    type V = ReleaseView;

    open spec fn view(&self) -> ReleaseView {
        ReleaseView {
            id: self.id@,
            name: self.name@,
            publisher: self.publisher@,
            region: self.region@,
            languages: self.languages@,
            group: self.group@,
            image_size: self.image_size,
            serial: self.serial@,
            title_id: self.title_id@,
            img_crc: self.img_crc@,
            filename: self.filename@,
            release_name: self.release_name@,
            trimmed_size: self.trimmed_size,
            firmware: self.firmware@,
            _type: self._type@,
            card: self.card@,
        }
    }
}

/// A record under construction: each field either absent or already seen.
pub struct PartialView {
    pub id: Option<Seq<char>>,
    pub name: Option<Seq<char>>,
    pub publisher: Option<Seq<char>>,
    pub region: Option<Seq<char>>,
    pub languages: Option<Seq<char>>,
    pub group: Option<Seq<char>>,
    pub image_size: Option<u64>,
    pub serial: Option<Seq<char>>,
    pub title_id: Option<Seq<char>>,
    pub img_crc: Option<Seq<char>>,
    pub filename: Option<Seq<char>>,
    pub release_name: Option<Seq<char>>,
    pub trimmed_size: Option<u64>,
    pub firmware: Option<Seq<char>>,
    pub _type: Option<Seq<char>>,
    pub card: Option<Seq<char>>,
}

/// The partial record with no field seen yet.
pub open spec fn empty_partial() -> PartialView {
    PartialView {
        id: None,
        name: None,
        publisher: None,
        region: None,
        languages: None,
        group: None,
        image_size: None,
        serial: None,
        title_id: None,
        img_crc: None,
        filename: None,
        release_name: None,
        trimmed_size: None,
        firmware: None,
        _type: None,
        card: None,
    }
}

/// The alias table of this source: one field element applied to a partial
/// record. Aliased fields answer both to the wire name and to the
/// canonical field name; a field seen twice, or a size that is not an
/// unsigned decimal number fitting 64 bits, is a malformation; an unknown
/// element is ignored.
pub open spec fn spec_set_field(p: PartialView, k: Seq<char>, v: Seq<char>) -> Option<
    PartialView,
> {
    if k == "id"@ {
        if p.id is None {
            Some(PartialView { id: Some(v), ..p })
        } else {
            None
        }
    } else if k == "name"@ {
        if p.name is None {
            Some(PartialView { name: Some(v), ..p })
        } else {
            None
        }
    } else if k == "publisher"@ {
        if p.publisher is None {
            Some(PartialView { publisher: Some(v), ..p })
        } else {
            None
        }
    } else if k == "region"@ {
        if p.region is None {
            Some(PartialView { region: Some(v), ..p })
        } else {
            None
        }
    } else if k == "languages"@ {
        if p.languages is None {
            Some(PartialView { languages: Some(v), ..p })
        } else {
            None
        }
    } else if k == "group"@ {
        if p.group is None {
            Some(PartialView { group: Some(v), ..p })
        } else {
            None
        }
    } else if k == "imagesize"@ || k == "image_size"@ {
        if p.image_size is None {
            match spec_u64_of(v) {
                Some(n) => Some(PartialView { image_size: Some(n), ..p }),
                None => None,
            }
        } else {
            None
        }
    } else if k == "serial"@ {
        if p.serial is None {
            Some(PartialView { serial: Some(v), ..p })
        } else {
            None
        }
    } else if k == "titleid"@ || k == "title_id"@ {
        if p.title_id is None {
            Some(PartialView { title_id: Some(v), ..p })
        } else {
            None
        }
    } else if k == "imgcrc"@ || k == "img_crc"@ {
        if p.img_crc is None {
            Some(PartialView { img_crc: Some(v), ..p })
        } else {
            None
        }
    } else if k == "filename"@ {
        if p.filename is None {
            Some(PartialView { filename: Some(v), ..p })
        } else {
            None
        }
    } else if k == "releasename"@ || k == "release_name"@ {
        if p.release_name is None {
            Some(PartialView { release_name: Some(v), ..p })
        } else {
            None
        }
    } else if k == "trimmedsize"@ || k == "trimmed_size"@ {
        if p.trimmed_size is None {
            match spec_u64_of(v) {
                Some(n) => Some(PartialView { trimmed_size: Some(n), ..p }),
                None => None,
            }
        } else {
            None
        }
    } else if k == "firmware"@ {
        if p.firmware is None {
            Some(PartialView { firmware: Some(v), ..p })
        } else {
            None
        }
    } else if k == "type"@ || k == "_type"@ {
        if p._type is None {
            Some(PartialView { _type: Some(v), ..p })
        } else {
            None
        }
    } else if k == "card"@ {
        if p.card is None {
            Some(PartialView { card: Some(v), ..p })
        } else {
            None
        }
    } else {
        Some(p)
    }
}

/// Applies every field element of a record, in order, to a partial record.
pub open spec fn spec_fold_fields(p: PartialView, pairs: Seq<(Seq<char>, Seq<char>)>) -> Option<
    PartialView,
>
    decreases pairs.len(),
{
    if pairs.len() == 0 {
        Some(p)
    } else {
        match spec_set_field(p, pairs[0].0, pairs[0].1) {
            None => None,
            Some(p2) => spec_fold_fields(p2, pairs.drop_first()),
        }
    }
}

/// The record a record element decodes to: every field element applied in
/// order, and every field present exactly once.
pub open spec fn spec_release_of(pairs: Seq<(Seq<char>, Seq<char>)>) -> Option<ReleaseView> {
    match spec_fold_fields(empty_partial(), pairs) {
        None => None,
        Some(p) => {
            if p.id is Some && p.name is Some && p.publisher is Some && p.region is Some
                && p.languages is Some && p.group is Some && p.image_size is Some && p.serial
                is Some && p.title_id is Some && p.img_crc is Some && p.filename is Some
                && p.release_name is Some && p.trimmed_size is Some && p.firmware is Some
                && p._type is Some && p.card is Some {
                Some(
                    ReleaseView {
                        id: p.id->Some_0,
                        name: p.name->Some_0,
                        publisher: p.publisher->Some_0,
                        region: p.region->Some_0,
                        languages: p.languages->Some_0,
                        group: p.group->Some_0,
                        image_size: p.image_size->Some_0,
                        serial: p.serial->Some_0,
                        title_id: p.title_id->Some_0,
                        img_crc: p.img_crc->Some_0,
                        filename: p.filename->Some_0,
                        release_name: p.release_name->Some_0,
                        trimmed_size: p.trimmed_size->Some_0,
                        firmware: p.firmware->Some_0,
                        _type: p._type->Some_0,
                        card: p.card->Some_0,
                    },
                )
            } else {
                None
            }
        },
    }
}

/// The record list a document's record elements decode to, or `None` if
/// any record element is malformed.
pub open spec fn spec_releases_of(recs: Seq<Seq<(Seq<char>, Seq<char>)>>) -> Option<
    Seq<ReleaseView>,
>
    decreases recs.len(),
{
    if recs.len() == 0 {
        Some(Seq::<ReleaseView>::empty())
    } else {
        match spec_release_of(recs[0]) {
            None => None,
            Some(r) => {
                match spec_releases_of(recs.drop_first()) {
                    None => None,
                    Some(rest) => Some(seq![r] + rest),
                }
            },
        }
    }
}

/// What a document text decodes to: `Some` exactly when the text is a
/// well-formed document of well-formed title elements.
pub open spec fn spec_decode(s: Seq<char>) -> Option<Seq<ReleaseView>> {
    match spec_xml_doc(s) {
        None => None,
        Some(recs) => spec_releases_of(recs),
    }
}

struct PartialRelease {
    id: Option<String>,
    name: Option<String>,
    publisher: Option<String>,
    region: Option<String>,
    languages: Option<String>,
    group: Option<String>,
    image_size: Option<u64>,
    serial: Option<String>,
    title_id: Option<String>,
    img_crc: Option<String>,
    filename: Option<String>,
    release_name: Option<String>,
    trimmed_size: Option<u64>,
    firmware: Option<String>,
    _type: Option<String>,
    card: Option<String>,
}

spec fn opt_view(o: Option<String>) -> Option<Seq<char>> {
    match o {
        None => None,
        Some(s) => Some(s@),
    }
}

impl PartialRelease {
    spec fn view(&self) -> PartialView {
        PartialView {
            id: opt_view(self.id),
            name: opt_view(self.name),
            publisher: opt_view(self.publisher),
            region: opt_view(self.region),
            languages: opt_view(self.languages),
            group: opt_view(self.group),
            image_size: self.image_size,
            serial: opt_view(self.serial),
            title_id: opt_view(self.title_id),
            img_crc: opt_view(self.img_crc),
            filename: opt_view(self.filename),
            release_name: opt_view(self.release_name),
            trimmed_size: self.trimmed_size,
            firmware: opt_view(self.firmware),
            _type: opt_view(self._type),
            card: opt_view(self.card),
        }
    }
}

/// Applies one field element to the record under construction, computing
/// exactly [`spec_set_field`]; `false` reports the malformation.
fn set_field(p: &mut PartialRelease, k: &Vec<char>, v: &Vec<char>) -> (r: bool)
    ensures
        r == (spec_set_field(old(p).view(), k@, v@) is Some),
        r ==> final(p).view() == spec_set_field(old(p).view(), k@, v@)->Some_0,
{
    if chars_eq(k, "id") {
        if p.id.is_none() {
            p.id = Some(string_of(v));
            true
        } else {
            false
        }
    } else if chars_eq(k, "name") {
        if p.name.is_none() {
            p.name = Some(string_of(v));
            true
        } else {
            false
        }
    } else if chars_eq(k, "publisher") {
        if p.publisher.is_none() {
            p.publisher = Some(string_of(v));
            true
        } else {
            false
        }
    } else if chars_eq(k, "region") {
        if p.region.is_none() {
            p.region = Some(string_of(v));
            true
        } else {
            false
        }
    } else if chars_eq(k, "languages") {
        if p.languages.is_none() {
            p.languages = Some(string_of(v));
            true
        } else {
            false
        }
    } else if chars_eq(k, "group") {
        if p.group.is_none() {
            p.group = Some(string_of(v));
            true
        } else {
            false
        }
    } else if chars_eq(k, "imagesize") || chars_eq(k, "image_size") {
        if p.image_size.is_none() {
            match u64_of_chars(v) {
                Some(n) => {
                    p.image_size = Some(n);
                    true
                },
                None => false,
            }
        } else {
            false
        }
    } else if chars_eq(k, "serial") {
        if p.serial.is_none() {
            p.serial = Some(string_of(v));
            true
        } else {
            false
        }
    } else if chars_eq(k, "titleid") || chars_eq(k, "title_id") {
        if p.title_id.is_none() {
            p.title_id = Some(string_of(v));
            true
        } else {
            false
        }
    } else if chars_eq(k, "imgcrc") || chars_eq(k, "img_crc") {
        if p.img_crc.is_none() {
            p.img_crc = Some(string_of(v));
            true
        } else {
            false
        }
    } else if chars_eq(k, "filename") {
        if p.filename.is_none() {
            p.filename = Some(string_of(v));
            true
        } else {
            false
        }
    } else if chars_eq(k, "releasename") || chars_eq(k, "release_name") {
        if p.release_name.is_none() {
            p.release_name = Some(string_of(v));
            true
        } else {
            false
        }
    } else if chars_eq(k, "trimmedsize") || chars_eq(k, "trimmed_size") {
        if p.trimmed_size.is_none() {
            match u64_of_chars(v) {
                Some(n) => {
                    p.trimmed_size = Some(n);
                    true
                },
                None => false,
            }
        } else {
            false
        }
    } else if chars_eq(k, "firmware") {
        if p.firmware.is_none() {
            p.firmware = Some(string_of(v));
            true
        } else {
            false
        }
    } else if chars_eq(k, "type") || chars_eq(k, "_type") {
        if p._type.is_none() {
            p._type = Some(string_of(v));
            true
        } else {
            false
        }
    } else if chars_eq(k, "card") {
        if p.card.is_none() {
            p.card = Some(string_of(v));
            true
        } else {
            false
        }
    } else {
        true
    }
}

/// Builds the record a record element decodes to, computing exactly
/// [`spec_release_of`] on the element's fields.
fn release_of_fields(pairs: &Vec<(Vec<char>, Vec<char>)>) -> (r: Option<Release>)
    ensures
        (r is None) == (spec_release_of(pairs_view(pairs@)) is None),
        r matches Some(rel) ==> spec_release_of(pairs_view(pairs@)) matches Some(rv) && rel@
            == rv,
{
    let ghost pv = pairs_view(pairs@);
    let mut p = PartialRelease {
        id: None,
        name: None,
        publisher: None,
        region: None,
        languages: None,
        group: None,
        image_size: None,
        serial: None,
        title_id: None,
        img_crc: None,
        filename: None,
        release_name: None,
        trimmed_size: None,
        firmware: None,
        _type: None,
        card: None,
    };
    proof {
        assert(pv.skip(0) =~= pv);
        assert(p.view() == empty_partial());
    }
    let mut i: usize = 0;
    while i < pairs.len()
        invariant
            i <= pairs@.len(),
            pv == pairs_view(pairs@),
            spec_fold_fields(empty_partial(), pv) == spec_fold_fields(
                p.view(),
                pv.skip(i as int),
            ),
        decreases pairs@.len() - i,
    {
        proof {
            assert(pv.skip(i as int)[0] == (pairs@[i as int].0@, pairs@[i as int].1@));
            assert(pv.skip(i as int).drop_first() =~= pv.skip(i as int + 1));
        }
        let pr = &pairs[i];
        let ok = set_field(&mut p, &pr.0, &pr.1);
        if !ok {
            return None;
        }
        i = i + 1;
    }
    proof {
        assert(pv.skip(pairs@.len() as int) =~= Seq::<(Seq<char>, Seq<char>)>::empty());
    }
    let PartialRelease {
        id,
        name,
        publisher,
        region,
        languages,
        group,
        image_size,
        serial,
        title_id,
        img_crc,
        filename,
        release_name,
        trimmed_size,
        firmware,
        _type,
        card,
    } = p;
    if id.is_some() && name.is_some() && publisher.is_some() && region.is_some()
        && languages.is_some() && group.is_some() && image_size.is_some() && serial.is_some()
        && title_id.is_some() && img_crc.is_some() && filename.is_some()
        && release_name.is_some() && trimmed_size.is_some() && firmware.is_some()
        && _type.is_some() && card.is_some() {
        Some(
            Release {
                id: id.unwrap(),
                name: name.unwrap(),
                publisher: publisher.unwrap(),
                region: region.unwrap(),
                languages: languages.unwrap(),
                group: group.unwrap(),
                image_size: image_size.unwrap(),
                serial: serial.unwrap(),
                title_id: title_id.unwrap(),
                img_crc: img_crc.unwrap(),
                filename: filename.unwrap(),
                release_name: release_name.unwrap(),
                trimmed_size: trimmed_size.unwrap(),
                firmware: firmware.unwrap(),
                _type: _type.unwrap(),
                card: card.unwrap(),
            },
        )
    } else {
        None
    }
}

/// The record views of a decoded list.
pub open spec fn releases_view(v: Seq<Release>) -> Seq<ReleaseView> {
    v.map_values(|x: Release| x@)
}

/// Decodes the catalog document text into its record list.
///
/// Succeeds exactly on the texts that [`spec_decode`] accepts, returning
/// exactly the records it describes; every failure is a decode-stage error.
pub fn decode_releases(text: &str) -> (r: Result<Vec<Release>, Error>)
    ensures
        (r is Ok) == (spec_decode(text@) is Some),
        r matches Ok(v) ==> spec_decode(text@) matches Some(rs) && releases_view(v@) == rs,
        r matches Err(e) ==> e@.kind == ErrorKind::Decode,
{
    let s = chars_of(text);
    match parse_xml_doc(&s) {
        None => Err(Error::decode(String::from_str("malformed XML document"))),
        Some(recs) => {
            let ghost rv = recs_view(recs@);
            let mut out: Vec<Release> = Vec::new();
            proof {
                assert(rv.skip(0) =~= rv);
                let ro = spec_releases_of(rv);
                if ro is Some {
                    assert(releases_view(out@) + ro->Some_0 =~= ro->Some_0);
                }
            }
            let mut i: usize = 0;
            while i < recs.len()
                invariant
                    i <= recs@.len(),
                    rv == recs_view(recs@),
                    spec_decode(text@) == spec_releases_of(rv),
                    spec_releases_of(rv) == (match spec_releases_of(rv.skip(i as int)) {
                        None => None::<Seq<ReleaseView>>,
                        Some(rest) => Some(releases_view(out@) + rest),
                    }),
                decreases recs@.len() - i,
            {
                proof {
                    assert(rv.skip(i as int)[0] == pairs_view(recs@[i as int]@));
                    assert(rv.skip(i as int).drop_first() =~= rv.skip(i as int + 1));
                }
                match release_of_fields(&recs[i]) {
                    None => {
                        return Err(
                            Error::decode(String::from_str("title element missing a field")),
                        );
                    },
                    Some(rel) => {
                        let ghost out_old = out@;
                        out.push(rel);
                        proof {
                            assert(releases_view(out@) =~= releases_view(out_old) + seq![
                                rel@,
                            ]);
                            let ro = spec_releases_of(rv.skip(i as int + 1));
                            if ro is Some {
                                let rest = ro->Some_0;
                                assert((releases_view(out_old) + (seq![rel@] + rest)) =~= (
                                releases_view(out@) + rest));
                            }
                        }
                    },
                }
                i = i + 1;
            }
            proof {
                assert(rv.skip(recs@.len() as int) =~= Seq::<Seq<(Seq<char>, Seq<char>)>>::empty());
                assert(releases_view(out@) + Seq::<ReleaseView>::empty() =~= releases_view(
                    out@,
                ));
            }
            Ok(out)
        },
    }
}

/// The key/record pairs a record list is indexed by: each record keyed by
/// its title ID.
pub open spec fn spec_release_pairs(rs: Seq<Release>) -> Seq<(Seq<char>, Release)> {
    rs.map_values(|r: Release| (r.title_id@, r))
}

/// Builds the title-ID index of a record list: records inserted in list
/// order, a later record with the same title ID overwriting an earlier one.
pub fn build_index(releases: Vec<Release>) -> (ix: TitleIndex<Release>)
    ensures
        ix.wf(),
        ix@ == index_of(spec_release_pairs(releases@)),
{
    let total: usize = releases.len();
    let mut pairs: Vec<(String, Release)> = Vec::new();
    let mut rest = releases;
    let mut n: usize = 0;
    while rest.len() > 0
        invariant
            total == releases@.len(),
            n + rest@.len() == total,
            rest@ == releases@.skip(n as int),
            pairs@.len() == n,
            forall|j: int|
                0 <= j < n ==> (#[trigger] pairs@[j]).0@ == releases@[j].title_id@
                    && pairs@[j].1 == releases@[j],
        decreases rest@.len(),
    {
        proof {
            assert(releases@.skip(n as int)[0] == releases@[n as int]);
        }
        let r = rest.remove(0);
        proof {
            assert(rest@ =~= releases@.skip(n as int + 1));
        }
        let key = r.title_id.clone();
        pairs.push((key, r));
        n = n + 1;
    }
    proof {
        assert(pairs@.map_values(|p: (String, Release)| (p.0@, p.1)) =~= spec_release_pairs(
            releases@,
        ));
    }
    TitleIndex::build(pairs)
}

} // verus!

//! The region-partitioned JSON source.
//!
//! Title data from this source is published as one JSON file per region,
//! each an array of flat objects whose fields are all strings. This module
//! holds everything about that source short of the HTTP transport itself:
//! the region enumeration with its canonical codes and request URLs, the
//! decoder from document text to [`Release`] records, and the deterministic
//! fan-in that merges per-region results into one list.
//!
//! The decoder accepts a JSON array of objects with string keys and string
//! values: the shape the feed publishes. Strings may use the escapes
//! `\" \\ \/ \b \f \n \r \t` and `\uXXXX` for code points outside the
//! surrogate range. Anything else — other value types, truncated text,
//! trailing garbage — is a decode failure, reported through
//! [`crate::error::Error`], never a panic.

use vstd::prelude::*;
use crate::error::{Error, ErrorKind};
use crate::index::{TitleIndex, index_of};
use crate::scan::{
    spec_skip_ws, skip_ws, is_hex_digit, hex_val, hex_digit_char, hex_digit_val, char_from_u32,
    chars_of, string_of, chars_eq,
};

verus! {

/// A title region. The five values, in this order, are the canonical
/// region-enumeration order used when fetching all regions.
#[derive(Clone, Copy, Debug, PartialEq, Eq, Structural, Hash)]
pub enum Region {
    GB,
    JP,
    KR,
    TW,
    US,
}

impl Region {
    /// The canonical short code of this region.
    pub open spec fn spec_code(self) -> Seq<char> {
        match self {
            Region::GB => "GB"@,
            Region::JP => "JP"@,
            Region::KR => "KR"@,
            Region::TW => "TW"@,
            Region::US => "US"@,
        }
    }

    /// The canonical short-code string of this region.
    pub fn code(self) -> (r: &'static str)
        ensures
            r@ == self.spec_code(),
    {
        match self {
            Region::GB => "GB",
            Region::JP => "JP",
            Region::KR => "KR",
            Region::TW => "TW",
            Region::US => "US",
        }
    }

    /// The request URL of this region's partition.
    pub open spec fn spec_url(self) -> Seq<char> {
        match self {
            Region::GB => "https://raw.githubusercontent.com/hax0kartik/3dsdb/master/jsons/list_GB.json"@,
            Region::JP => "https://raw.githubusercontent.com/hax0kartik/3dsdb/master/jsons/list_JP.json"@,
            Region::KR => "https://raw.githubusercontent.com/hax0kartik/3dsdb/master/jsons/list_KR.json"@,
            Region::TW => "https://raw.githubusercontent.com/hax0kartik/3dsdb/master/jsons/list_TW.json"@,
            Region::US => "https://raw.githubusercontent.com/hax0kartik/3dsdb/master/jsons/list_US.json"@,
        }
    }

    /// The request URL derived from this region's canonical code.
    pub fn url(self) -> (r: &'static str)
        ensures
            r@ == self.spec_url(),
    {
        match self {
            Region::GB => "https://raw.githubusercontent.com/hax0kartik/3dsdb/master/jsons/list_GB.json",
            Region::JP => "https://raw.githubusercontent.com/hax0kartik/3dsdb/master/jsons/list_JP.json",
            Region::KR => "https://raw.githubusercontent.com/hax0kartik/3dsdb/master/jsons/list_KR.json",
            Region::TW => "https://raw.githubusercontent.com/hax0kartik/3dsdb/master/jsons/list_TW.json",
            Region::US => "https://raw.githubusercontent.com/hax0kartik/3dsdb/master/jsons/list_US.json",
        }
    }
}

/// The fixed region list, in canonical enumeration order.
pub open spec fn spec_all_regions() -> Seq<Region> {
    seq![Region::GB, Region::JP, Region::KR, Region::TW, Region::US]
}

/// All five regions, in canonical enumeration order.
pub fn all_regions() -> (r: Vec<Region>)
    ensures
        r@ == spec_all_regions(),
{
    let mut v: Vec<Region> = Vec::new();
    v.push(Region::GB);
    v.push(Region::JP);
    v.push(Region::KR);
    v.push(Region::TW);
    v.push(Region::US);
    proof {
        assert(v@ =~= spec_all_regions());
    }
    v
}

/// The mathematical value of a [`Release`]: its seven fields as
/// character sequences.
pub struct ReleaseView {
    pub name: Seq<char>,
    pub uid: Seq<char>,
    pub title_id: Seq<char>,
    pub version: Seq<char>,
    pub size: Seq<char>,
    pub product_code: Seq<char>,
    pub publisher: Seq<char>,
}

/// A 3DS title from the JSON source. All fields are free-form strings;
/// the title ID is the indexing key but is not guaranteed unique.
#[derive(Debug)]
pub struct Release {
    pub name: String,
    pub uid: String,
    pub title_id: String,
    pub version: String,
    pub size: String,
    pub product_code: String,
    pub publisher: String,
}

impl View for Release {
    type V = ReleaseView;

    open spec fn view(&self) -> ReleaseView {
        ReleaseView {
            name: self.name@,
            uid: self.uid@,
            title_id: self.title_id@,
            version: self.version@,
            size: self.size@,
            product_code: self.product_code@,
            publisher: self.publisher@,
        }
    }
}

/// The decoded form of a single-character string escape, if the character
/// after the backslash is one that JSON allows there.
pub open spec fn spec_escape(e: char) -> Option<char> {
    if e == '"' {
        Some('"')
    } else if e == '\\' {
        Some('\\')
    } else if e == '/' {
        Some('/')
    } else if e == 'n' {
        Some('\n')
    } else if e == 't' {
        Some('\t')
    } else if e == 'r' {
        Some('\r')
    } else if e == 'b' {
        Some('\u{0008}')
    } else if e == 'f' {
        Some('\u{000C}')
    } else {
        None
    }
}

/// Executable escape decoding, computing exactly [`spec_escape`].
fn escape_char(e: char) -> (r: Option<char>)
    ensures
        r == spec_escape(e),
{
    if e == '"' {
        Some('"')
    } else if e == '\\' {
        Some('\\')
    } else if e == '/' {
        Some('/')
    } else if e == 'n' {
        Some('\n')
    } else if e == 't' {
        Some('\t')
    } else if e == 'r' {
        Some('\r')
    } else if e == 'b' {
        Some('\u{0008}')
    } else if e == 'f' {
        Some('\u{000C}')
    } else {
        None
    }
}

/// The character with the given code point.
pub open spec fn char_of_code(u: int) -> char {
    u as char
}

/// The string scanned from position `i` (just inside the opening quote) to
/// its closing quote: the decoded characters and the position after the
/// quote, or `None` on any malformation.
pub open spec fn spec_string_body(s: Seq<char>, i: int, acc: Seq<char>) -> Option<(Seq<char>, int)>
    decreases s.len() - i,
{
    if !(0 <= i < s.len()) {
        None
    } else if s[i] == '"' {
        Some((acc, i + 1))
    } else if s[i] == '\\' {
        if i + 1 < s.len() {
            let e = s[i + 1];
            if e == 'u' {
                if i + 5 < s.len() && is_hex_digit(s[i + 2]) && is_hex_digit(s[i + 3])
                    && is_hex_digit(s[i + 4]) && is_hex_digit(s[i + 5]) {
                    let u = hex_val(s[i + 2]) * 4096 + hex_val(s[i + 3]) * 256 + hex_val(
                        s[i + 4],
                    ) * 16 + hex_val(s[i + 5]);
                    if u < 0xD800 || u >= 0xE000 {
                        spec_string_body(s, i + 6, acc.push(char_of_code(u)))
                    } else {
                        None
                    }
                } else {
                    None
                }
            } else {
                match spec_escape(e) {
                    Some(c) => spec_string_body(s, i + 2, acc.push(c)),
                    None => None,
                }
            }
        } else {
            None
        }
    } else if s[i] as u32 >= 32 {
        spec_string_body(s, i + 1, acc.push(s[i]))
    } else {
        None
    }
}

/// A JSON string token at position `i`: requires an opening quote there.
pub open spec fn spec_string(s: Seq<char>, i: int) -> Option<(Seq<char>, int)> {
    if 0 <= i < s.len() && s[i] == '"' {
        spec_string_body(s, i + 1, Seq::<char>::empty())
    } else {
        None
    }
}

/// Scans a JSON string token, computing exactly [`spec_string`].
pub fn parse_string(s: &Vec<char>, i: usize) -> (r: Option<(Vec<char>, usize)>)
    requires
        i <= s@.len(),
    ensures
        (r is None) == (spec_string(s@, i as int) is None),
        r matches Some(p) ==> spec_string(s@, i as int) matches Some(q) && p.0@ == q.0 && p.1
            == q.1 && i < p.1 <= s@.len(),
{
    if !(i < s.len() && s[i] == '"') {
        return None;
    }
    let ghost start: int = i as int + 1;
    let mut j: usize = i + 1;
    let mut acc: Vec<char> = Vec::new();
    loop
        invariant
            i + 1 <= j <= s@.len(),
            i < s@.len(),
            s@[i as int] == '"',
            spec_string_body(s@, j as int, acc@) == spec_string_body(
                s@,
                start,
                Seq::<char>::empty(),
            ),
            spec_string(s@, i as int) == spec_string_body(s@, start, Seq::<char>::empty()),
        decreases s@.len() - j,
    {
        if j >= s.len() {
            return None;
        }
        let c = s[j];
        if c == '"' {
            return Some((acc, j + 1));
        }
        if c == '\\' {
            if j + 1 >= s.len() {
                return None;
            }
            let e = s[j + 1];
            if e == 'u' {
                if s.len() - j <= 5 {
                    return None;
                }
                let h1 = s[j + 2];
                let h2 = s[j + 3];
                let h3 = s[j + 4];
                let h4 = s[j + 5];
                if !(hex_digit_char(h1) && hex_digit_char(h2) && hex_digit_char(h3)
                    && hex_digit_char(h4)) {
                    return None;
                }
                let u: u32 = hex_digit_val(h1) * 4096 + hex_digit_val(h2) * 256 + hex_digit_val(
                    h3,
                ) * 16 + hex_digit_val(h4);
                if !(u < 0xD800 || u >= 0xE000) {
                    return None;
                }
                match char_from_u32(u) {
                    Some(c2) => {
                        proof {
                            vstd::utf8::char_u32_cast(c2, u);
                            assert(c2 == char_of_code(u as int));
                        }
                        acc.push(c2);
                        j = j + 6;
                    },
                    None => {
                        proof {
                            assert(false);
                        }
                    },
                }
            } else {
                match escape_char(e) {
                    Some(c2) => {
                        acc.push(c2);
                        j = j + 2;
                    },
                    None => {
                        return None;
                    },
                }
            }
        } else {
            if (c as u32) < 32 {
                return None;
            }
            acc.push(c);
            j = j + 1;
        }
    }
}

/// An object member at position `i`: a string key, a colon, a string value.
pub open spec fn spec_member(s: Seq<char>, i: int) -> Option<((Seq<char>, Seq<char>), int)> {
    match spec_string(s, i) {
        None => None,
        Some((k, j)) => {
            let j2 = spec_skip_ws(s, j);
            if j2 < s.len() && s[j2] == ':' {
                let m = spec_skip_ws(s, j2 + 1);
                match spec_string(s, m) {
                    None => None,
                    Some((v, jj)) => Some(((k, v), jj)),
                }
            } else {
                None
            }
        },
    }
}

/// Scans one object member, computing exactly [`spec_member`].
fn parse_member(s: &Vec<char>, i: usize) -> (r: Option<((Vec<char>, Vec<char>), usize)>)
    requires
        i <= s@.len(),
    ensures
        (r is None) == (spec_member(s@, i as int) is None),
        r matches Some(p) ==> spec_member(s@, i as int) matches Some(q) && p.0.0@ == q.0.0
            && p.0.1@ == q.0.1 && p.1 == q.1 && i < p.1 <= s@.len(),
{
    match parse_string(s, i) {
        None => None,
        Some((k, j)) => {
            let j2 = skip_ws(s, j);
            if j2 < s.len() && s[j2] == ':' {
                let m = skip_ws(s, j2 + 1);
                match parse_string(s, m) {
                    None => None,
                    Some((v, jj)) => Some(((k, v), jj)),
                }
            } else {
                None
            }
        },
    }
}

/// The view of a scanned member list: each key and value as sequences.
pub open spec fn pairs_view(ps: Seq<(Vec<char>, Vec<char>)>) -> Seq<(Seq<char>, Seq<char>)> {
    ps.map_values(|p: (Vec<char>, Vec<char>)| (p.0@, p.1@))
}

/// A non-empty member list from position `i` up to the closing brace:
/// the members in order and the position after the brace.
pub open spec fn spec_members(s: Seq<char>, i: int) -> Option<
    (Seq<(Seq<char>, Seq<char>)>, int),
>
    decreases s.len() - i,
{
    match spec_member(s, i) {
        None => None,
        Some((p, j)) => {
            let j2 = spec_skip_ws(s, j);
            if j2 < s.len() && s[j2] == ',' {
                let m = spec_skip_ws(s, j2 + 1);
                if i < m <= s.len() {
                    match spec_members(s, m) {
                        None => None,
                        Some((rest, jj)) => Some((seq![p] + rest, jj)),
                    }
                } else {
                    None
                }
            } else if j2 < s.len() && s[j2] == '}' {
                Some((seq![p], j2 + 1))
            } else {
                None
            }
        },
    }
}

/// Scans a member list, computing exactly [`spec_members`].
fn parse_members(s: &Vec<char>, i: usize) -> (r: Option<(Vec<(Vec<char>, Vec<char>)>, usize)>)
    requires
        i <= s@.len(),
    ensures
        (r is None) == (spec_members(s@, i as int) is None),
        r matches Some(p) ==> spec_members(s@, i as int) matches Some(q) && pairs_view(p.0@)
            == q.0 && p.1 == q.1 && p.1 <= s@.len(),
    decreases s@.len() - i,
{
    match parse_member(s, i) {
        None => None,
        Some((p, j)) => {
            let j2 = skip_ws(s, j);
            if j2 < s.len() && s[j2] == ',' {
                let m = skip_ws(s, j2 + 1);
                if i < m {
                    match parse_members(s, m) {
                        None => None,
                        Some((rest, jj)) => {
                            let mut out: Vec<(Vec<char>, Vec<char>)> = Vec::new();
                            out.push(p);
                            let mut rest = rest;
                            out.append(&mut rest);
                            proof {
                                let q = spec_members(s@, i as int)->Some_0;
                                assert(pairs_view(out@) =~= q.0);
                            }
                            Some((out, jj))
                        },
                    }
                } else {
                    None
                }
            } else if j2 < s.len() && s[j2] == '}' {
                let mut out: Vec<(Vec<char>, Vec<char>)> = Vec::new();
                out.push(p);
                proof {
                    let q = spec_members(s@, i as int)->Some_0;
                    assert(pairs_view(out@) =~= q.0);
                }
                Some((out, j2 + 1))
            } else {
                None
            }
        },
    }
}

/// An object at position `i`: a brace-delimited, possibly empty member list.
pub open spec fn spec_object(s: Seq<char>, i: int) -> Option<(Seq<(Seq<char>, Seq<char>)>, int)> {
    if 0 <= i < s.len() && s[i] == '{' {
        let j = spec_skip_ws(s, i + 1);
        if j < s.len() && s[j] == '}' {
            Some((Seq::<(Seq<char>, Seq<char>)>::empty(), j + 1))
        } else {
            spec_members(s, j)
        }
    } else {
        None
    }
}

/// Scans one object, computing exactly [`spec_object`].
fn parse_object(s: &Vec<char>, i: usize) -> (r: Option<(Vec<(Vec<char>, Vec<char>)>, usize)>)
    requires
        i <= s@.len(),
    ensures
        (r is None) == (spec_object(s@, i as int) is None),
        r matches Some(p) ==> spec_object(s@, i as int) matches Some(q) && pairs_view(p.0@)
            == q.0 && p.1 == q.1 && p.1 <= s@.len(),
{
    if !(i < s.len() && s[i] == '{') {
        return None;
    }
    let j = skip_ws(s, i + 1);
    if j < s.len() && s[j] == '}' {
        let out: Vec<(Vec<char>, Vec<char>)> = Vec::new();
        proof {
            assert(pairs_view(out@) =~= Seq::<(Seq<char>, Seq<char>)>::empty());
        }
        Some((out, j + 1))
    } else {
        parse_members(s, j)
    }
}

/// The view of a scanned object list.
pub open spec fn objs_view(os: Seq<Vec<(Vec<char>, Vec<char>)>>) -> Seq<
    Seq<(Seq<char>, Seq<char>)>,
> {
    os.map_values(|o: Vec<(Vec<char>, Vec<char>)>| pairs_view(o@))
}

/// A non-empty object list from position `i` up to the closing bracket.
pub open spec fn spec_elements(s: Seq<char>, i: int) -> Option<
    (Seq<Seq<(Seq<char>, Seq<char>)>>, int),
>
    decreases s.len() - i,
{
    match spec_object(s, i) {
        None => None,
        Some((o, j)) => {
            let j2 = spec_skip_ws(s, j);
            if j2 < s.len() && s[j2] == ',' {
                let m = spec_skip_ws(s, j2 + 1);
                if i < m <= s.len() {
                    match spec_elements(s, m) {
                        None => None,
                        Some((rest, jj)) => Some((seq![o] + rest, jj)),
                    }
                } else {
                    None
                }
            } else if j2 < s.len() && s[j2] == ']' {
                Some((seq![o], j2 + 1))
            } else {
                None
            }
        },
    }
}

/// Scans an object list, computing exactly [`spec_elements`].
fn parse_elements(s: &Vec<char>, i: usize) -> (r: Option<
    (Vec<Vec<(Vec<char>, Vec<char>)>>, usize),
>)
    requires
        i <= s@.len(),
    ensures
        (r is None) == (spec_elements(s@, i as int) is None),
        r matches Some(p) ==> spec_elements(s@, i as int) matches Some(q) && objs_view(p.0@)
            == q.0 && p.1 == q.1 && p.1 <= s@.len(),
    decreases s@.len() - i,
{
    match parse_object(s, i) {
        None => None,
        Some((o, j)) => {
            let j2 = skip_ws(s, j);
            if j2 < s.len() && s[j2] == ',' {
                let m = skip_ws(s, j2 + 1);
                if i < m {
                    match parse_elements(s, m) {
                        None => None,
                        Some((rest, jj)) => {
                            let mut out: Vec<Vec<(Vec<char>, Vec<char>)>> = Vec::new();
                            out.push(o);
                            let mut rest = rest;
                            out.append(&mut rest);
                            proof {
                                let q = spec_elements(s@, i as int)->Some_0;
                                assert(objs_view(out@) =~= q.0);
                            }
                            Some((out, jj))
                        },
                    }
                } else {
                    None
                }
            } else if j2 < s.len() && s[j2] == ']' {
                let mut out: Vec<Vec<(Vec<char>, Vec<char>)>> = Vec::new();
                out.push(o);
                proof {
                    let q = spec_elements(s@, i as int)->Some_0;
                    assert(objs_view(out@) =~= q.0);
                }
                Some((out, j2 + 1))
            } else {
                None
            }
        },
    }
}

/// An array at position `i`: a bracket-delimited, possibly empty object list.
pub open spec fn spec_array(s: Seq<char>, i: int) -> Option<
    (Seq<Seq<(Seq<char>, Seq<char>)>>, int),
> {
    if 0 <= i < s.len() && s[i] == '[' {
        let j = spec_skip_ws(s, i + 1);
        if j < s.len() && s[j] == ']' {
            Some((Seq::<Seq<(Seq<char>, Seq<char>)>>::empty(), j + 1))
        } else {
            spec_elements(s, j)
        }
    } else {
        None
    }
}

/// Scans the array, computing exactly [`spec_array`].
fn parse_array(s: &Vec<char>, i: usize) -> (r: Option<(Vec<Vec<(Vec<char>, Vec<char>)>>, usize)>)
    requires
        i <= s@.len(),
    ensures
        (r is None) == (spec_array(s@, i as int) is None),
        r matches Some(p) ==> spec_array(s@, i as int) matches Some(q) && objs_view(p.0@) == q.0
            && p.1 == q.1 && p.1 <= s@.len(),
{
    if !(i < s.len() && s[i] == '[') {
        return None;
    }
    let j = skip_ws(s, i + 1);
    if j < s.len() && s[j] == ']' {
        let out: Vec<Vec<(Vec<char>, Vec<char>)>> = Vec::new();
        proof {
            assert(objs_view(out@) =~= Seq::<Seq<(Seq<char>, Seq<char>)>>::empty());
        }
        Some((out, j + 1))
    } else {
        parse_elements(s, j)
    }
}

/// The whole document: optional whitespace, one array of objects, optional
/// whitespace, end of text.
pub open spec fn spec_doc(s: Seq<char>) -> Option<Seq<Seq<(Seq<char>, Seq<char>)>>> {
    let i = spec_skip_ws(s, 0);
    match spec_array(s, i) {
        None => None,
        Some((objs, j)) => {
            if spec_skip_ws(s, j) == s.len() {
                Some(objs)
            } else {
                None
            }
        },
    }
}

/// Scans the whole document, computing exactly [`spec_doc`].
fn parse_doc(s: &Vec<char>) -> (r: Option<Vec<Vec<(Vec<char>, Vec<char>)>>>)
    ensures
        (r is None) == (spec_doc(s@) is None),
        r matches Some(p) ==> spec_doc(s@) matches Some(q) && objs_view(p@) == q,
{
    let i = skip_ws(s, 0);
    match parse_array(s, i) {
        None => None,
        Some((objs, j)) => {
            let k = skip_ws(s, j);
            if k == s.len() {
                Some(objs)
            } else {
                None
            }
        },
    }
}

/// A record under construction: each field either absent or already seen.
pub struct PartialView {
    pub name: Option<Seq<char>>,
    pub uid: Option<Seq<char>>,
    pub title_id: Option<Seq<char>>,
    pub version: Option<Seq<char>>,
    pub size: Option<Seq<char>>,
    pub product_code: Option<Seq<char>>,
    pub publisher: Option<Seq<char>>,
}

/// The partial record with no field seen yet.
pub open spec fn empty_partial() -> PartialView {
    PartialView {
        name: None,
        uid: None,
        title_id: None,
        version: None,
        size: None,
        product_code: None,
        publisher: None,
    }
}

/// The alias table of this source: one member applied to a partial record.
/// Each field answers both to its canonical name and to its wire alias;
/// a field seen twice is a malformation; an unknown key is ignored.
pub open spec fn spec_set_field(p: PartialView, k: Seq<char>, v: Seq<char>) -> Option<
    PartialView,
> {
    if k == "Name"@ || k == "name"@ {
        if p.name is None {
            Some(PartialView { name: Some(v), ..p })
        } else {
            None
        }
    } else if k == "UID"@ || k == "uid"@ {
        if p.uid is None {
            Some(PartialView { uid: Some(v), ..p })
        } else {
            None
        }
    } else if k == "TitleID"@ || k == "title_id"@ {
        if p.title_id is None {
            Some(PartialView { title_id: Some(v), ..p })
        } else {
            None
        }
    } else if k == "Version"@ || k == "version"@ {
        if p.version is None {
            Some(PartialView { version: Some(v), ..p })
        } else {
            None
        }
    } else if k == "Size"@ || k == "size"@ {
        if p.size is None {
            Some(PartialView { size: Some(v), ..p })
        } else {
            None
        }
    } else if k == "Product Code"@ || k == "product_code"@ {
        if p.product_code is None {
            Some(PartialView { product_code: Some(v), ..p })
        } else {
            None
        }
    } else if k == "Publisher"@ || k == "publisher"@ {
        if p.publisher is None {
            Some(PartialView { publisher: Some(v), ..p })
        } else {
            None
        }
    } else {
        Some(p)
    }
}

/// Applies every member of an object, in order, to a partial record.
pub open spec fn spec_fold_fields(p: PartialView, pairs: Seq<(Seq<char>, Seq<char>)>) -> Option<
    PartialView,
>
    decreases pairs.len(),
{
    if pairs.len() == 0 {
        Some(p)
    } else {
        match spec_set_field(p, pairs[0].0, pairs[0].1) {
            None => None,
            Some(p2) => spec_fold_fields(p2, pairs.drop_first()),
        }
    }
}

/// The record an object decodes to: every member applied in order, and
/// every required field present exactly once.
pub open spec fn spec_release_of(pairs: Seq<(Seq<char>, Seq<char>)>) -> Option<ReleaseView> {
    match spec_fold_fields(empty_partial(), pairs) {
        None => None,
        Some(p) => {
            if p.name is Some && p.uid is Some && p.title_id is Some && p.version is Some
                && p.size is Some && p.product_code is Some && p.publisher is Some {
                Some(
                    ReleaseView {
                        name: p.name->Some_0,
                        uid: p.uid->Some_0,
                        title_id: p.title_id->Some_0,
                        version: p.version->Some_0,
                        size: p.size->Some_0,
                        product_code: p.product_code->Some_0,
                        publisher: p.publisher->Some_0,
                    },
                )
            } else {
                None
            }
        },
    }
}

/// The record list a document's objects decode to, or `None` if any
/// object is malformed.
pub open spec fn spec_releases_of(objs: Seq<Seq<(Seq<char>, Seq<char>)>>) -> Option<
    Seq<ReleaseView>,
>
    decreases objs.len(),
{
    if objs.len() == 0 {
        Some(Seq::<ReleaseView>::empty())
    } else {
        match spec_release_of(objs[0]) {
            None => None,
            Some(r) => {
                match spec_releases_of(objs.drop_first()) {
                    None => None,
                    Some(rest) => Some(seq![r] + rest),
                }
            },
        }
    }
}

/// What a document text decodes to: `Some` exactly when the text is a
/// well-formed array of well-formed title objects.
pub open spec fn spec_decode(s: Seq<char>) -> Option<Seq<ReleaseView>> {
    match spec_doc(s) {
        None => None,
        Some(objs) => spec_releases_of(objs),
    }
}

struct PartialRelease {
    name: Option<String>,
    uid: Option<String>,
    title_id: Option<String>,
    version: Option<String>,
    size: Option<String>,
    product_code: Option<String>,
    publisher: Option<String>,
}

spec fn opt_view(o: Option<String>) -> Option<Seq<char>> {
    match o {
        None => None,
        Some(s) => Some(s@),
    }
}

impl PartialRelease {
    spec fn view(&self) -> PartialView {
        PartialView {
            name: opt_view(self.name),
            uid: opt_view(self.uid),
            title_id: opt_view(self.title_id),
            version: opt_view(self.version),
            size: opt_view(self.size),
            product_code: opt_view(self.product_code),
            publisher: opt_view(self.publisher),
        }
    }
}

/// Applies one member to the record under construction, computing exactly
/// [`spec_set_field`]; `false` reports the duplicate-field malformation.
fn set_field(p: &mut PartialRelease, k: &Vec<char>, v: &Vec<char>) -> (r: bool)
    ensures
        r == (spec_set_field(old(p).view(), k@, v@) is Some),
        r ==> final(p).view() == spec_set_field(old(p).view(), k@, v@)->Some_0,
{
    if chars_eq(k, "Name") || chars_eq(k, "name") {
        if p.name.is_none() {
            p.name = Some(string_of(v));
            true
        } else {
            false
        }
    } else if chars_eq(k, "UID") || chars_eq(k, "uid") {
        if p.uid.is_none() {
            p.uid = Some(string_of(v));
            true
        } else {
            false
        }
    } else if chars_eq(k, "TitleID") || chars_eq(k, "title_id") {
        if p.title_id.is_none() {
            p.title_id = Some(string_of(v));
            true
        } else {
            false
        }
    } else if chars_eq(k, "Version") || chars_eq(k, "version") {
        if p.version.is_none() {
            p.version = Some(string_of(v));
            true
        } else {
            false
        }
    } else if chars_eq(k, "Size") || chars_eq(k, "size") {
        if p.size.is_none() {
            p.size = Some(string_of(v));
            true
        } else {
            false
        }
    } else if chars_eq(k, "Product Code") || chars_eq(k, "product_code") {
        if p.product_code.is_none() {
            p.product_code = Some(string_of(v));
            true
        } else {
            false
        }
    } else if chars_eq(k, "Publisher") || chars_eq(k, "publisher") {
        if p.publisher.is_none() {
            p.publisher = Some(string_of(v));
            true
        } else {
            false
        }
    } else {
        true
    }
}

/// Builds the record an object decodes to, computing exactly
/// [`spec_release_of`] on the object's members.
fn release_of_pairs(pairs: &Vec<(Vec<char>, Vec<char>)>) -> (r: Option<Release>)
    ensures
        (r is None) == (spec_release_of(pairs_view(pairs@)) is None),
        r matches Some(rel) ==> spec_release_of(pairs_view(pairs@)) matches Some(rv) && rel@
            == rv,
{
    let ghost pv = pairs_view(pairs@);
    let mut p = PartialRelease {
        name: None,
        uid: None,
        title_id: None,
        version: None,
        size: None,
        product_code: None,
        publisher: None,
    };
    proof {
        assert(pv.skip(0) =~= pv);
        assert(p.view() == empty_partial());
    }
    let mut i: usize = 0;
    while i < pairs.len()
        invariant
            i <= pairs@.len(),
            pv == pairs_view(pairs@),
            spec_fold_fields(empty_partial(), pv) == spec_fold_fields(
                p.view(),
                pv.skip(i as int),
            ),
        decreases pairs@.len() - i,
    {
        proof {
            assert(pv.skip(i as int)[0] == (pairs@[i as int].0@, pairs@[i as int].1@));
            assert(pv.skip(i as int).drop_first() =~= pv.skip(i as int + 1));
        }
        let pr = &pairs[i];
        let ok = set_field(&mut p, &pr.0, &pr.1);
        if !ok {
            return None;
        }
        i = i + 1;
    }
    proof {
        assert(pv.skip(pairs@.len() as int) =~= Seq::<(Seq<char>, Seq<char>)>::empty());
    }
    let PartialRelease { name, uid, title_id, version, size, product_code, publisher } = p;
    match (name, uid, title_id, version, size, product_code, publisher) {
        (
            Some(name),
            Some(uid),
            Some(title_id),
            Some(version),
            Some(size),
            Some(product_code),
            Some(publisher),
        ) => Some(Release { name, uid, title_id, version, size, product_code, publisher }),
        _ => None,
    }
}

/// The record views of a decoded list.
pub open spec fn releases_view(v: Seq<Release>) -> Seq<ReleaseView> {
    v.map_values(|x: Release| x@)
}

/// Decodes one region partition's document text into its record list.
///
/// Succeeds exactly on the texts that [`spec_decode`] accepts, returning
/// exactly the records it describes; every failure is a decode-stage error.
pub fn decode_releases(text: &str) -> (r: Result<Vec<Release>, Error>)
    ensures
        (r is Ok) == (spec_decode(text@) is Some),
        r matches Ok(v) ==> spec_decode(text@) matches Some(rs) && releases_view(v@) == rs,
        r matches Err(e) ==> e@.kind == ErrorKind::Decode,
{
    let s = chars_of(text);
    match parse_doc(&s) {
        None => Err(Error::decode(String::from_str("malformed JSON document"))),
        Some(objs) => {
            let ghost ov = objs_view(objs@);
            let mut out: Vec<Release> = Vec::new();
            proof {
                assert(ov.skip(0) =~= ov);
                let ro = spec_releases_of(ov);
                if ro is Some {
                    assert(releases_view(out@) + ro->Some_0 =~= ro->Some_0);
                }
            }
            let mut i: usize = 0;
            while i < objs.len()
                invariant
                    i <= objs@.len(),
                    ov == objs_view(objs@),
                    spec_decode(text@) == spec_releases_of(ov),
                    spec_releases_of(ov) == (match spec_releases_of(ov.skip(i as int)) {
                        None => None::<Seq<ReleaseView>>,
                        Some(rest) => Some(releases_view(out@) + rest),
                    }),
                decreases objs@.len() - i,
            {
                proof {
                    assert(ov.skip(i as int)[0] == pairs_view(objs@[i as int]@));
                    assert(ov.skip(i as int).drop_first() =~= ov.skip(i as int + 1));
                }
                match release_of_pairs(&objs[i]) {
                    None => {
                        return Err(
                            Error::decode(String::from_str("title object missing a field")),
                        );
                    },
                    Some(rel) => {
                        let ghost out_old = out@;
                        out.push(rel);
                        proof {
                            assert(releases_view(out@) =~= releases_view(out_old) + seq![
                                rel@,
                            ]);
                            let ro = spec_releases_of(ov.skip(i as int + 1));
                            if ro is Some {
                                let rest = ro->Some_0;
                                assert((releases_view(out_old) + (seq![rel@] + rest)) =~= (
                                releases_view(out@) + rest));
                            }
                        }
                    },
                }
                i = i + 1;
            }
            proof {
                assert(ov.skip(objs@.len() as int) =~= Seq::<Seq<(Seq<char>, Seq<char>)>>::empty());
                assert(releases_view(out@) + Seq::<ReleaseView>::empty() =~= releases_view(
                    out@,
                ));
            }
            Ok(out)
        },
    }
}

/// Every per-region fetch succeeded.
pub open spec fn all_ok(rs: Seq<Result<Vec<Release>, Error>>) -> bool {
    forall|i: int| 0 <= i < rs.len() ==> rs[i] is Ok
}

/// The position of the first failed per-region result.
pub open spec fn spec_first_err(rs: Seq<Result<Vec<Release>, Error>>) -> int
    decreases rs.len(),
{
    if rs.len() == 0 {
        0
    } else if rs[0] is Err {
        0
    } else {
        1 + spec_first_err(rs.drop_first())
    }
}

/// The concatenation of all per-region record lists, in the order the
/// results stand in (canonical region-enumeration order).
pub open spec fn spec_concat_oks(rs: Seq<Result<Vec<Release>, Error>>) -> Seq<Release>
    decreases rs.len(),
{
    if rs.len() == 0 {
        Seq::<Release>::empty()
    } else {
        spec_concat_oks(rs.drop_last()) + rs.last()->Ok_0@
    }
}

/// The first error position is exactly the position of the first `Err`.
proof fn lemma_first_err_at(rs: Seq<Result<Vec<Release>, Error>>, i: int)
    requires
        0 <= i < rs.len(),
        rs[i] is Err,
        forall|j: int| 0 <= j < i ==> rs[j] is Ok,
    ensures
        spec_first_err(rs) == i,
        !all_ok(rs),
    decreases i,
{
    if i > 0 {
        assert forall|j: int| 0 <= j < i - 1 implies rs.drop_first()[j] is Ok by {
            assert(rs.drop_first()[j] == rs[j + 1]);
        }
        lemma_first_err_at(rs.drop_first(), i - 1);
    }
}

/// Where each region's slice starts inside the merged list.
pub open spec fn spec_offset(rs: Seq<Result<Vec<Release>, Error>>, i: int) -> int {
    spec_concat_oks(rs.subrange(0, i)).len() as int
}

/// When every region succeeded, the merged list holds each region's records
/// as one contiguous slice, at that region's position in enumeration order.
/// Fetching a region alone and slicing the all-regions list at that
/// region's offset therefore yield the same records.
pub proof fn lemma_concat_slice(rs: Seq<Result<Vec<Release>, Error>>, i: int)
    requires
        0 <= i < rs.len(),
        all_ok(rs),
    ensures
        0 <= spec_offset(rs, i),
        spec_offset(rs, i) + rs[i]->Ok_0@.len() <= spec_concat_oks(rs).len(),
        spec_concat_oks(rs).subrange(
            spec_offset(rs, i),
            spec_offset(rs, i) + rs[i]->Ok_0@.len(),
        ) == rs[i]->Ok_0@,
    decreases rs.len(),
{
    let off = spec_offset(rs, i);
    let li = rs[i]->Ok_0@.len() as int;
    if i == rs.len() - 1 {
        assert(rs.subrange(0, i) =~= rs.drop_last());
        assert(spec_concat_oks(rs).subrange(off, off + li) =~= rs[i]->Ok_0@);
    } else {
        assert(all_ok(rs.drop_last())) by {
            assert forall|j: int| 0 <= j < rs.drop_last().len() implies rs.drop_last()[j]
                is Ok by {
                assert(rs.drop_last()[j] == rs[j]);
            }
        }
        assert(rs.drop_last().subrange(0, i) =~= rs.subrange(0, i));
        lemma_concat_slice(rs.drop_last(), i);
        assert(rs.drop_last()[i] == rs[i]);
        assert(spec_concat_oks(rs).subrange(off, off + li) =~= spec_concat_oks(
            rs.drop_last(),
        ).subrange(off, off + li));
    }
}

/// Merges the per-region results, one per region in canonical enumeration
/// order, into one flat record list, draining the result buffer.
///
/// All-or-nothing: succeeds exactly when every region succeeded, and then
/// returns the concatenation in the order the results stood in; otherwise
/// fails with the first failed region's error and no records at all.
pub fn merge_region_results(results: &mut Vec<Result<Vec<Release>, Error>>) -> (r: Result<
    Vec<Release>,
    Error,
>)
    ensures
        (r is Ok) == all_ok(old(results)@),
        r matches Ok(v) ==> v@ == spec_concat_oks(old(results)@),
        r matches Err(e) ==> !all_ok(old(results)@) && (old(results)@[spec_first_err(
            old(results)@,
        )] matches Err(e0) && e == e0),
{
    let ghost orig = old(results)@;
    let n = results.len();
    let mut i: usize = 0;
    while i < n
        invariant
            orig == old(results)@,
            n == orig.len(),
            results@ == orig,
            i <= n,
            forall|j: int| 0 <= j < i ==> orig[j] is Ok,
        decreases n - i,
    {
        let found_err = match &results[i] {
            Ok(_) => false,
            Err(_) => true,
        };
        if found_err {
            proof {
                lemma_first_err_at(orig, i as int);
            }
            let item = results.remove(i);
            match item {
                Err(e) => {
                    return Err(e);
                },
                Ok(v) => {
                    proof {
                        assert(false);
                    }
                    return Ok(v);
                },
            }
        }
        i = i + 1;
    }
    let mut out: Vec<Release> = Vec::new();
    let mut k: usize = 0;
    proof {
        assert(orig.skip(0) =~= orig);
        assert(orig.subrange(0, 0) =~= Seq::<Result<Vec<Release>, Error>>::empty());
    }
    while k < n
        invariant
            orig == old(results)@,
            n == orig.len(),
            k <= n,
            results@ == orig.skip(k as int),
            all_ok(orig),
            out@ == spec_concat_oks(orig.subrange(0, k as int)),
        decreases n - k,
    {
        proof {
            assert(orig.skip(k as int)[0] == orig[k as int]);
        }
        let item = results.remove(0);
        proof {
            assert(results@ =~= orig.skip(k as int + 1));
        }
        match item {
            Ok(mut v) => {
                out.append(&mut v);
                proof {
                    assert(orig.subrange(0, k as int + 1).drop_last() =~= orig.subrange(
                        0,
                        k as int,
                    ));
                    assert(orig.subrange(0, k as int + 1).last() == orig[k as int]);
                }
            },
            Err(e) => {
                proof {
                    assert(false);
                }
                return Err(e);
            },
        }
        k = k + 1;
    }
    proof {
        assert(orig.subrange(0, n as int) =~= orig);
    }
    Ok(out)
}

/// The key/record pairs a record list is indexed by: each record keyed by
/// its title ID.
pub open spec fn spec_release_pairs(rs: Seq<Release>) -> Seq<(Seq<char>, Release)> {
    rs.map_values(|r: Release| (r.title_id@, r))
}

/// Builds the title-ID index of a record list: records inserted in list
/// order, a later record with the same title ID overwriting an earlier one.
pub fn build_index(releases: Vec<Release>) -> (ix: TitleIndex<Release>)
    ensures
        ix.wf(),
        ix@ == index_of(spec_release_pairs(releases@)),
{
    let total: usize = releases.len();
    let mut pairs: Vec<(String, Release)> = Vec::new();
    let mut rest = releases;
    let mut n: usize = 0;
    while rest.len() > 0
        invariant
            total == releases@.len(),
            n + rest@.len() == total,
            rest@ == releases@.skip(n as int),
            pairs@.len() == n,
            forall|j: int|
                0 <= j < n ==> (#[trigger] pairs@[j]).0@ == releases@[j].title_id@
                    && pairs@[j].1 == releases@[j],
        decreases rest@.len(),
    {
        proof {
            assert(releases@.skip(n as int)[0] == releases@[n as int]);
        }
        let r = rest.remove(0);
        proof {
            assert(rest@ =~= releases@.skip(n as int + 1));
        }
        let key = r.title_id.clone();
        pairs.push((key, r));
        n = n + 1;
    }
    proof {
        assert(pairs@.map_values(|p: (String, Release)| (p.0@, p.1)) =~= spec_release_pairs(
            releases@,
        ));
    }
    TitleIndex::build(pairs)
}

} // verus!

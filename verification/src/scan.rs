//! Tag event reader: a forward-only scan of the decoded record text that
//! yields, for every start or self-closing tag in document order, its name
//! and its attributes. End tags and non-tag text are consumed silently;
//! structurally broken markup is a fatal error.

use vstd::prelude::*;
use vstd::string::*;
use crate::error::ErrorKind;
use crate::error::ParserError;
use crate::text::copy_range;
use crate::text::is_ws;

verus! {

/// View of a scanned tag: its name and its attributes as key/value pairs,
/// in source order.
pub ghost struct TagV {
    pub name: Seq<char>,
    pub attrs: Seq<(Seq<char>, Seq<char>)>,
}

/// A scanned tag.
pub struct RawTag {
    pub name: Vec<char>,
    pub attrs: Vec<(Vec<char>, Vec<char>)>,
}

impl View for RawTag {
    type V = TagV;

    open spec fn view(&self) -> TagV {
        TagV {
            name: self.name@,
            attrs: self.attrs@.map_values(|a: (Vec<char>, Vec<char>)| (a.0@, a.1@)),
        }
    }
}

/// Clamps a position into a range; the scan specification applies it to
/// recursively computed positions so that its own termination is evident.
pub open spec fn clampi(x: int, lo: int, hi: int) -> int {
    if x < lo {
        lo
    } else if x > hi {
        hi
    } else {
        x
    }
}

/// First position at or after `p` holding a non-whitespace character, or
/// the length.
pub open spec fn skip_ws_pos(t: Seq<char>, p: int) -> int
    decreases t.len() - p,
{
    if p < 0 || p >= t.len() {
        t.len() as int
    } else if is_ws(t[p]) {
        skip_ws_pos(t, p + 1)
    } else {
        p
    }
}

pub proof fn lemma_skip_ws_pos(t: Seq<char>, p: int)
    requires
        0 <= p <= t.len(),
    ensures
        p <= skip_ws_pos(t, p) <= t.len(),
        skip_ws_pos(t, p) < t.len() ==> !is_ws(t[skip_ws_pos(t, p)]),
        forall|k: int| p <= k < skip_ws_pos(t, p) ==> is_ws(t[k]),
    decreases t.len() - p,
{
    if p < t.len() && is_ws(t[p]) {
        lemma_skip_ws_pos(t, p + 1);
    }
}

/// First position at or after `p` holding `'>'`, or the length.
pub open spec fn find_gt(t: Seq<char>, p: int) -> int
    decreases t.len() - p,
{
    if p < 0 || p >= t.len() {
        t.len() as int
    } else if t[p] == '>' {
        p
    } else {
        find_gt(t, p + 1)
    }
}

pub proof fn lemma_find_gt(t: Seq<char>, p: int)
    requires
        0 <= p <= t.len(),
    ensures
        p <= find_gt(t, p) <= t.len(),
        find_gt(t, p) < t.len() ==> t[find_gt(t, p)] == '>',
        forall|k: int| p <= k < find_gt(t, p) ==> t[k] != '>',
    decreases t.len() - p,
{
    if p < t.len() && t[p] != '>' {
        lemma_find_gt(t, p + 1);
    }
}

/// A character that ends a tag name.
pub open spec fn ends_name(c: char) -> bool {
    is_ws(c) || c == '/' || c == '>'
}

/// First position at or after `p` that ends a tag name, or the length.
pub open spec fn name_end(t: Seq<char>, p: int) -> int
    decreases t.len() - p,
{
    if p < 0 || p >= t.len() {
        t.len() as int
    } else if ends_name(t[p]) {
        p
    } else {
        name_end(t, p + 1)
    }
}

pub proof fn lemma_name_end(t: Seq<char>, p: int)
    requires
        0 <= p <= t.len(),
    ensures
        p <= name_end(t, p) <= t.len(),
        name_end(t, p) < t.len() ==> ends_name(t[name_end(t, p)]),
        forall|k: int| p <= k < name_end(t, p) ==> !ends_name(t[k]),
    decreases t.len() - p,
{
    if p < t.len() && !ends_name(t[p]) {
        lemma_name_end(t, p + 1);
    }
}

/// A character that ends an attribute key.
pub open spec fn ends_key(c: char) -> bool {
    is_ws(c) || c == '=' || c == '/' || c == '>'
}

/// First position at or after `p` that ends an attribute key, or the
/// length.
pub open spec fn key_end(t: Seq<char>, p: int) -> int
    decreases t.len() - p,
{
    if p < 0 || p >= t.len() {
        t.len() as int
    } else if ends_key(t[p]) {
        p
    } else {
        key_end(t, p + 1)
    }
}

pub proof fn lemma_key_end(t: Seq<char>, p: int)
    requires
        0 <= p <= t.len(),
    ensures
        p <= key_end(t, p) <= t.len(),
        key_end(t, p) < t.len() ==> ends_key(t[key_end(t, p)]),
        forall|k: int| p <= k < key_end(t, p) ==> !ends_key(t[k]),
    decreases t.len() - p,
{
    if p < t.len() && !ends_key(t[p]) {
        lemma_key_end(t, p + 1);
    }
}

/// First position at or after `p` holding the quote character `qc`, or
/// the length.
pub open spec fn find_quote(t: Seq<char>, p: int, qc: char) -> int
    decreases t.len() - p,
{
    if p < 0 || p >= t.len() {
        t.len() as int
    } else if t[p] == qc {
        p
    } else {
        find_quote(t, p + 1, qc)
    }
}

pub proof fn lemma_find_quote(t: Seq<char>, p: int, qc: char)
    requires
        0 <= p <= t.len(),
    ensures
        p <= find_quote(t, p, qc) <= t.len(),
        find_quote(t, p, qc) < t.len() ==> t[find_quote(t, p, qc)] == qc,
        forall|k: int| p <= k < find_quote(t, p, qc) ==> t[k] != qc,
    decreases t.len() - p,
{
    if p < t.len() && t[p] != qc {
        lemma_find_quote(t, p + 1, qc);
    }
}

/// Reads the attribute list from position `p` (just after the tag name or
/// a previous attribute) to the closing `'>'` or `"/>"`. Returns the
/// attributes and the position after the tag. A bare token is an unnamed
/// attribute: its key is empty and its value is the token. A tag left
/// open at the end of the text is a markup error; an empty key or an
/// unquoted value is an attribute error.
pub open spec fn scan_attrs(t: Seq<char>, p: int) -> Result<
    (Seq<(Seq<char>, Seq<char>)>, int),
    ErrorKind,
>
    decreases t.len() - p,
{
    let q = clampi(skip_ws_pos(t, p), p, t.len() as int);
    if q >= t.len() {
        Err(ErrorKind::Xml)
    } else if t[q] == '>' {
        Ok((Seq::empty(), q + 1))
    } else if t[q] == '/' {
        if q + 1 < t.len() && t[q + 1] == '>' {
            Ok((Seq::empty(), q + 2))
        } else {
            Err(ErrorKind::Xml)
        }
    } else {
        let k = clampi(key_end(t, q), q, t.len() as int);
        if k == q {
            Err(ErrorKind::Attr)
        } else {
            let key = t.subrange(q, k);
            let k2 = clampi(skip_ws_pos(t, k), k, t.len() as int);
            if k2 >= t.len() {
                Err(ErrorKind::Xml)
            } else if t[k2] != '=' {
                match scan_attrs(t, k) {
                    Err(e) => Err(e),
                    Ok((rest, e2)) => Ok((seq![(Seq::<char>::empty(), key)] + rest, e2)),
                }
            } else {
                let k3 = clampi(skip_ws_pos(t, k2 + 1), k2 + 1, t.len() as int);
                if k3 >= t.len() || (t[k3] != '"' && t[k3] != '\'') {
                    Err(ErrorKind::Attr)
                } else {
                    let j = clampi(find_quote(t, k3 + 1, t[k3]), k3 + 1, t.len() as int);
                    if j >= t.len() {
                        Err(ErrorKind::Attr)
                    } else {
                        let value = t.subrange(k3 + 1, j);
                        match scan_attrs(t, j + 1) {
                            Err(e) => Err(e),
                            Ok((rest, e2)) => Ok((seq![(key, value)] + rest, e2)),
                        }
                    }
                }
            }
        }
    }
}

/// Reads one tag whose `'<'` stands at `p`. An end tag, a declaration or
/// a comment yields no tag; a start or self-closing tag yields its name
/// and attributes. Returns the position after the closing `'>'`.
pub open spec fn scan_tag(t: Seq<char>, p: int) -> Result<(Option<TagV>, int), ErrorKind> {
    if p + 1 >= t.len() {
        Err(ErrorKind::Xml)
    } else {
        let c = t[p + 1];
        if c == '/' || c == '!' || c == '?' {
            let j = clampi(find_gt(t, p + 2), p + 2, t.len() as int);
            if j >= t.len() {
                Err(ErrorKind::Xml)
            } else {
                Ok((None, j + 1))
            }
        } else {
            let e = clampi(name_end(t, p + 1), p + 1, t.len() as int);
            if e == p + 1 {
                Err(ErrorKind::Xml)
            } else {
                let name = t.subrange(p + 1, e);
                match scan_attrs(t, e) {
                    Err(err) => Err(err),
                    Ok((attrs, q)) => Ok((Some(TagV { name, attrs }), q)),
                }
            }
        }
    }
}

/// All tags of the text from position `p` on, in document order.
pub open spec fn scan_from(t: Seq<char>, p: int) -> Result<Seq<TagV>, ErrorKind>
    decreases t.len() - p,
{
    if p < 0 {
        Err(ErrorKind::Xml)
    } else if p >= t.len() {
        Ok(Seq::empty())
    } else if t[p] != '<' {
        scan_from(t, p + 1)
    } else {
        match scan_tag(t, p) {
            Err(e) => Err(e),
            Ok((otag, q)) => {
                let q2 = clampi(q, p + 1, t.len() as int);
                match scan_from(t, q2) {
                    Err(e) => Err(e),
                    Ok(rest) => Ok(
                        match otag {
                            Some(tag) => seq![tag] + rest,
                            None => rest,
                        },
                    ),
                }
            },
        }
    }
}

/// Views of a list of scanned attributes.
pub open spec fn attrs_view(attrs: Seq<(Vec<char>, Vec<char>)>) -> Seq<(Seq<char>, Seq<char>)> {
    attrs.map_values(|a: (Vec<char>, Vec<char>)| (a.0@, a.1@))
}

/// Views of a list of scanned tags.
pub open spec fn tags_view(tags: Seq<RawTag>) -> Seq<TagV> {
    tags.map_values(|tg: RawTag| tg@)
}

/// View of an optional scanned tag.
pub open spec fn opt_tag_view(o: Option<RawTag>) -> Option<TagV> {
    match o {
        Some(tg) => Some(tg@),
        None => None,
    }
}

fn skip_ws_exec(t: &Vec<char>, p: usize) -> (q: usize)
    requires
        p <= t@.len(),
    ensures
        q as int == skip_ws_pos(t@, p as int),
        p <= q <= t@.len(),
{
    let mut i: usize = p;
    while i < t.len()
        invariant
            p <= i <= t@.len(),
            skip_ws_pos(t@, p as int) == skip_ws_pos(t@, i as int),
        decreases t@.len() - i,
    {
        let c = t[i];
        if !(c == ' ' || c == '\t' || c == '\r' || c == '\n') {
            return i;
        }
        i = i + 1;
    }
    i
}

fn find_gt_exec(t: &Vec<char>, p: usize) -> (q: usize)
    requires
        p <= t@.len(),
    ensures
        q as int == find_gt(t@, p as int),
        p <= q <= t@.len(),
{
    let mut i: usize = p;
    while i < t.len()
        invariant
            p <= i <= t@.len(),
            find_gt(t@, p as int) == find_gt(t@, i as int),
        decreases t@.len() - i,
    {
        let c = t[i];
        if c == '>' {
            return i;
        }
        i = i + 1;
    }
    i
}

fn name_end_exec(t: &Vec<char>, p: usize) -> (q: usize)
    requires
        p <= t@.len(),
    ensures
        q as int == name_end(t@, p as int),
        p <= q <= t@.len(),
{
    let mut i: usize = p;
    while i < t.len()
        invariant
            p <= i <= t@.len(),
            name_end(t@, p as int) == name_end(t@, i as int),
        decreases t@.len() - i,
    {
        let c = t[i];
        if c == ' ' || c == '\t' || c == '\r' || c == '\n' || c == '/' || c == '>' {
            return i;
        }
        i = i + 1;
    }
    i
}

fn key_end_exec(t: &Vec<char>, p: usize) -> (q: usize)
    requires
        p <= t@.len(),
    ensures
        q as int == key_end(t@, p as int),
        p <= q <= t@.len(),
{
    let mut i: usize = p;
    while i < t.len()
        invariant
            p <= i <= t@.len(),
            key_end(t@, p as int) == key_end(t@, i as int),
        decreases t@.len() - i,
    {
        let c = t[i];
        if c == ' ' || c == '\t' || c == '\r' || c == '\n' || c == '=' || c == '/' || c == '>' {
            return i;
        }
        i = i + 1;
    }
    i
}

fn find_quote_exec(t: &Vec<char>, p: usize, qc: char) -> (q: usize)
    requires
        p <= t@.len(),
    ensures
        q as int == find_quote(t@, p as int, qc),
        p <= q <= t@.len(),
{
    let mut i: usize = p;
    while i < t.len()
        invariant
            p <= i <= t@.len(),
            find_quote(t@, p as int, qc) == find_quote(t@, i as int, qc),
        decreases t@.len() - i,
    {
        let c = t[i];
        if c == qc {
            return i;
        }
        i = i + 1;
    }
    i
}

/// Reads the attribute list that starts at `p`, to just after the
/// closing of the tag.
fn scan_attrs_exec(t: &Vec<char>, p: usize) -> (r: Result<
    (Vec<(Vec<char>, Vec<char>)>, usize),
    ParserError,
>)
    requires
        p <= t@.len(),
    ensures
        match r {
            Ok((attrs, e)) => scan_attrs(t@, p as int) == Ok::<_, ErrorKind>(
                (attrs_view(attrs@), e as int),
            ) && p < e <= t@.len(),
            Err(err) => scan_attrs(t@, p as int) == Err::<(Seq<(Seq<char>, Seq<char>)>, int), _>(
                err.kind(),
            ),
        },
{
    let mut attrs: Vec<(Vec<char>, Vec<char>)> = Vec::new();
    let mut cur: usize = p;
    proof {
        assert(attrs_view(attrs@) =~~= Seq::<(Seq<char>, Seq<char>)>::empty());
    }
    loop
        invariant
            p <= cur <= t@.len(),
            scan_attrs(t@, p as int) == (match scan_attrs(t@, cur as int) {
                Ok((rest, e)) => Ok::<_, ErrorKind>((attrs_view(attrs@) + rest, e)),
                Err(k) => Err(k),
            }),
        decreases t@.len() - cur,
    {
        proof {
            lemma_skip_ws_pos(t@, cur as int);
        }
        let q = skip_ws_exec(t, cur);
        if q >= t.len() {
            return Err(ParserError::Xml(String::from_str("unterminated tag")));
        }
        let c = t[q];
        if c == '>' {
            proof {
                assert(attrs_view(attrs@) + Seq::<(Seq<char>, Seq<char>)>::empty() =~~= attrs_view(
                    attrs@,
                ));
            }
            return Ok((attrs, q + 1));
        }
        if c == '/' {
            if q + 1 < t.len() && t[q + 1] == '>' {
                proof {
                    assert(attrs_view(attrs@) + Seq::<(Seq<char>, Seq<char>)>::empty()
                        =~~= attrs_view(attrs@));
                }
                return Ok((attrs, q + 2));
            } else {
                return Err(ParserError::Xml(String::from_str("unterminated tag")));
            }
        }
        proof {
            lemma_key_end(t@, q as int);
        }
        let k = key_end_exec(t, q);
        if k == q {
            return Err(ParserError::Attr(String::from_str("malformed attribute key")));
        }
        let key = copy_range(t, q, k);
        proof {
            lemma_skip_ws_pos(t@, k as int);
        }
        let k2 = skip_ws_exec(t, k);
        if k2 >= t.len() {
            return Err(ParserError::Xml(String::from_str("unterminated tag")));
        }
        if t[k2] != '=' {
            let ghost kv = (Seq::<char>::empty(), key@);
            proof {
                assert(scan_attrs(t@, cur as int) == (match scan_attrs(t@, k as int) {
                    Err(e) => Err(e),
                    Ok((rest, e2)) => Ok::<_, ErrorKind>((seq![kv] + rest, e2)),
                }));
            }
            let ghost old_attrs = attrs_view(attrs@);
            attrs.push((Vec::new(), key));
            proof {
                assert(attrs_view(attrs@) =~~= old_attrs.push(kv));
                match scan_attrs(t@, k as int) {
                    Err(_) => {},
                    Ok((rest, _)) => {
                        assert(attrs_view(attrs@) + rest =~~= old_attrs + (seq![kv] + rest));
                    },
                }
            }
            cur = k;
            continue;
        }
        proof {
            lemma_skip_ws_pos(t@, k2 as int + 1);
        }
        let k3 = skip_ws_exec(t, k2 + 1);
        if k3 >= t.len() {
            return Err(ParserError::Attr(String::from_str("attribute value not quoted")));
        }
        let qc = t[k3];
        if qc != '"' && qc != '\'' {
            return Err(ParserError::Attr(String::from_str("attribute value not quoted")));
        }
        proof {
            lemma_find_quote(t@, k3 as int + 1, qc);
        }
        let j = find_quote_exec(t, k3 + 1, qc);
        if j >= t.len() {
            return Err(ParserError::Attr(String::from_str("attribute value not closed")));
        }
        let value = copy_range(t, k3 + 1, j);
        let ghost old_attrs = attrs_view(attrs@);
        let ghost kv = (key@, value@);
        proof {
            assert(scan_attrs(t@, cur as int) == (match scan_attrs(t@, j + 1) {
                Err(e) => Err(e),
                Ok((rest, e2)) => Ok::<_, ErrorKind>((seq![kv] + rest, e2)),
            }));
        }
        attrs.push((key, value));
        proof {
            assert(attrs_view(attrs@) =~~= old_attrs.push(kv));
            match scan_attrs(t@, j + 1) {
                Err(e) => {},
                Ok((rest, e2)) => {
                    assert(attrs_view(attrs@) + rest =~~= old_attrs + (seq![kv] + rest));
                },
            }
        }
        cur = j + 1;
    }
}

/// Reads one tag whose `'<'` stands at `p`; returns the tag, when it is a
/// start or self-closing one, and the position after it.
fn scan_tag_exec(t: &Vec<char>, p: usize) -> (r: Result<(Option<RawTag>, usize), ParserError>)
    requires
        p < t@.len(),
        t@[p as int] == '<',
    ensures
        match r {
            Ok((otag, q)) => scan_tag(t@, p as int) == Ok::<_, ErrorKind>(
                (opt_tag_view(otag), q as int),
            ) && p < q <= t@.len() && (otag is Some ==> q >= p + 3),
            Err(err) => scan_tag(t@, p as int) == Err::<(Option<TagV>, int), _>(err.kind()),
        },
{
    let n = t.len();
    if p + 1 >= n {
        return Err(ParserError::Xml(String::from_str("unterminated tag")));
    }
    let c = t[p + 1];
    if c == '/' || c == '!' || c == '?' {
        proof {
            lemma_find_gt(t@, p as int + 2);
        }
        let j = find_gt_exec(t, p + 2);
        if j >= t.len() {
            return Err(ParserError::Xml(String::from_str("unterminated tag")));
        }
        return Ok((None, j + 1));
    }
    proof {
        lemma_name_end(t@, p as int + 1);
    }
    let e = name_end_exec(t, p + 1);
    if e == p + 1 {
        return Err(ParserError::Xml(String::from_str("empty tag name")));
    }
    let name = copy_range(t, p + 1, e);
    match scan_attrs_exec(t, e) {
        Err(err) => Err(err),
        Ok((attrs, q)) => {
            let tag = RawTag { name, attrs };
            proof {
                assert(tag@.name == t@.subrange(p as int + 1, e as int));
            }
            Ok((Some(tag), q))
        },
    }
}

/// Scans the whole decoded text into its sequence of tags; malformed
/// markup is a fatal error.
pub fn scan_all(t: &Vec<char>) -> (r: Result<Vec<RawTag>, ParserError>)
    ensures
        match r {
            Ok(tags) => scan_from(t@, 0) == Ok::<_, ErrorKind>(tags_view(tags@)) && 3 * tags@.len()
                <= t@.len(),
            Err(e) => scan_from(t@, 0) == Err::<Seq<TagV>, _>(e.kind()),
        },
{
    let mut tags: Vec<RawTag> = Vec::new();
    let mut pos: usize = 0;
    proof {
        assert(tags_view(tags@) =~~= Seq::<TagV>::empty());
        match scan_from(t@, 0) {
            Ok(rest) => {
                assert(tags_view(tags@) + rest =~~= rest);
            },
            Err(_) => {},
        }
    }
    while pos < t.len()
        invariant
            pos <= t@.len(),
            3 * tags@.len() <= pos as int,
            scan_from(t@, 0) == (match scan_from(t@, pos as int) {
                Ok(rest) => Ok::<_, ErrorKind>(tags_view(tags@) + rest),
                Err(k) => Err(k),
            }),
        decreases t@.len() - pos,
    {
        let c = t[pos];
        if c != '<' {
            pos = pos + 1;
        } else {
            match scan_tag_exec(t, pos) {
                Err(e) => {
                    return Err(e);
                },
                Ok((otag, q)) => {
                    proof {
                        assert(clampi(q as int, pos as int + 1, t@.len() as int) == q as int);
                    }
                    match otag {
                        Some(tag) => {
                            let ghost old_tags = tags_view(tags@);
                            let ghost tv = tag@;
                            tags.push(tag);
                            proof {
                                assert(tags_view(tags@) =~~= old_tags.push(tv));
                                match scan_from(t@, q as int) {
                                    Ok(rest) => {
                                        assert(tags_view(tags@) + rest =~~= old_tags + (seq![tv]
                                            + rest));
                                    },
                                    Err(_) => {},
                                }
                            }
                        },
                        None => {},
                    }
                    pos = q;
                },
            }
        }
    }
    proof {
        assert(scan_from(t@, pos as int) == Ok::<Seq<TagV>, ErrorKind>(Seq::empty()));
        assert(tags_view(tags@) + Seq::<TagV>::empty() =~~= tags_view(tags@));
    }
    Ok(tags)
}

} // verus!

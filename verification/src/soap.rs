//! Decoding of an inbound SOAP envelope into a Browse request.
//!
//! The decoder scans the envelope for the first element whose tag's local
//! name is `ObjectID`, so namespace prefixes on the envelope, body and
//! payload elements are tolerated. The element's text is taken verbatim;
//! entity references are not expanded.

use vstd::prelude::*;

use crate::error::MediaError;
use crate::strutil::{bytes_to_string, char_pos, find_char_from, lemma_char_pos, str_eq};

verus! {

/// The character may continue a tag name.
pub open spec fn is_name_char(c: char) -> bool {
    !(c == '<' || c == '>' || c == '/' || c == ' ' || c == '\t' || c == '\r' || c == '\n')
}

/// The length of the leading run of name characters.
pub open spec fn name_len(s: Seq<char>) -> int
    decreases s.len(),
{
    if s.len() == 0 || !is_name_char(s[0]) {
        0
    } else {
        1 + name_len(s.skip(1))
    }
}

/// The tag name read at the head of `s`.
pub open spec fn tag_name(s: Seq<char>) -> Seq<char> {
    s.take(name_len(s))
}

/// The part of a tag name after its last colon; the whole name when it
/// carries no namespace prefix.
pub open spec fn local_name(n: Seq<char>) -> Seq<char>
    decreases n.len(),
{
    if n.len() == 0 {
        n
    } else if n[n.len() - 1] == ':' {
        Seq::empty()
    } else {
        local_name(n.take(n.len() - 1)).push(n[n.len() - 1])
    }
}

/// A tag whose local name is `name` opens at the head of `s`.
pub open spec fn tag_match(s: Seq<char>, name: Seq<char>) -> bool {
    s.len() > 0 && s[0] == '<' && local_name(tag_name(s.skip(1))) == name
}

/// The text between the first `>` in `s` and the `<` that follows it.
pub open spec fn elem_text(s: Seq<char>) -> Option<Seq<char>> {
    let g = char_pos(s, '>');
    if g == s.len() {
        None
    } else {
        let t = s.skip(g + 1);
        let l = char_pos(t, '<');
        if l == t.len() {
            None
        } else {
            Some(t.take(l))
        }
    }
}

/// The text content of the first element whose tag's local name is `name`.
pub open spec fn find_elem_text(s: Seq<char>, name: Seq<char>) -> Option<Seq<char>>
    decreases s.len(),
{
    if s.len() == 0 {
        None
    } else if tag_match(s, name) {
        elem_text(s)
    } else {
        find_elem_text(s.skip(1), name)
    }
}

proof fn lemma_name_len_is(s: Seq<char>, i: int)
    requires
        0 <= i <= s.len(),
        forall|k: int| 0 <= k < i ==> is_name_char(s[k]),
        i == s.len() || !is_name_char(s[i]),
    ensures
        name_len(s) == i,
    decreases i,
{
    if i > 0 {
        assert forall|k: int| 0 <= k < i - 1 implies is_name_char(s.skip(1)[k]) by {
            assert(s.skip(1)[k] == s[k + 1]);
        }
        if i < s.len() {
            assert(s.skip(1)[i - 1] == s[i]);
        }
        lemma_name_len_is(s.skip(1), i - 1);
    }
}

proof fn lemma_local_name_is(n: Seq<char>, p: int)
    requires
        0 <= p <= n.len(),
        forall|k: int| p <= k < n.len() ==> n[k] != ':',
        p == 0 || n[p - 1] == ':',
    ensures
        local_name(n) == n.skip(p),
    decreases n.len(),
{
    if p == n.len() {
        if n.len() == 0 {
            assert(local_name(n) =~= n.skip(p));
        } else {
            assert(n[n.len() - 1] == ':');
            assert(local_name(n) =~= n.skip(p));
        }
    } else {
        assert(n[n.len() - 1] != ':');
        let head = n.take(n.len() - 1);
        assert forall|k: int| p <= k < head.len() implies head[k] != ':' by {
            assert(head[k] == n[k]);
        }
        if p > 0 {
            assert(head[p - 1] == n[p - 1]);
        }
        lemma_local_name_is(head, p);
        assert(local_name(n) == local_name(head).push(n[n.len() - 1]));
        assert(head.skip(p).push(n[n.len() - 1]) =~= n.skip(p));
    }
}

/// The suffix of `n` after its last colon.
fn local_part(n: &str) -> (r: String)
    ensures
        r@ == local_name(n@),
{
    let len = n.unicode_len();
    let mut p = len;
    while p > 0 && n.get_char(p - 1) != ':'
        invariant
            p <= len,
            len == n@.len(),
            forall|k: int| p <= k < len ==> n@[k] != ':',
        decreases p,
    {
        p = p - 1;
    }
    proof {
        lemma_local_name_is(n@, p as int);
    }
    n.substring_char(p, len).to_owned()
}

/// Scan `s` for the first element whose tag's local name is `name` and
/// return its text content.
pub fn extract_elem_text(s: &str, name: &str) -> (r: Option<String>)
    ensures
        r is Some <==> find_elem_text(s@, name@) is Some,
        r is Some ==> r.unwrap()@ == find_elem_text(s@, name@).unwrap(),
{
    let len = s.unicode_len();
    let mut i: usize = 0;
    proof {
        assert(s@.skip(0) =~= s@);
    }
    while i < len
        invariant
            i <= len,
            len == s@.len(),
            find_elem_text(s@, name@) == find_elem_text(s@.skip(i as int), name@),
        decreases len - i,
    {
        let ghost rem = s@.skip(i as int);
        proof {
            assert(rem[0] == s@[i as int]);
            assert(rem.skip(1) =~= s@.skip(i as int + 1));
        }
        if s.get_char(i) == '<' {
            let mut j = i + 1;
            while j < len && is_name_char_exec(s.get_char(j))
                invariant
                    i + 1 <= j <= len,
                    len == s@.len(),
                    forall|k: int| i + 1 <= k < j ==> is_name_char(s@[k]),
                decreases len - j,
            {
                j = j + 1;
            }
            proof {
                let tail = s@.skip(i as int + 1);
                assert forall|k: int| 0 <= k < j - i - 1 implies is_name_char(tail[k]) by {
                    assert(tail[k] == s@[k + i + 1]);
                }
                if j < len {
                    assert(tail[j - i - 1] == s@[j as int]);
                }
                lemma_name_len_is(tail, j - i - 1);
                assert(tag_name(tail) =~= s@.subrange(i as int + 1, j as int));
            }
            let tag = s.substring_char(i + 1, j);
            let loc = local_part(tag);
            if str_eq(loc.as_str(), name) {
                proof {
                    assert(tag_match(rem, name@));
                }
                let g = find_char_from(s, i, '>');
                proof {
                    lemma_char_pos(rem, '>');
                    assert forall|k: int| 0 <= k < g - i implies rem[k] != '>' by {
                        assert(rem[k] == s@[k + i]);
                    }
                    if g < len {
                        assert(rem[g - i] == s@[g as int]);
                    }
                    crate::strutil::lemma_char_pos_is(rem, '>', g - i);
                }
                if g == len {
                    return None;
                }
                let t0 = g + 1;
                let l = find_char_from(s, t0, '<');
                proof {
                    let t = rem.skip(g - i + 1);
                    assert(t =~= s@.skip(t0 as int));
                    assert forall|k: int| 0 <= k < l - t0 implies t[k] != '<' by {
                        assert(t[k] == s@[k + t0]);
                    }
                    if l < len {
                        assert(t[l - t0] == s@[l as int]);
                    }
                    crate::strutil::lemma_char_pos_is(t, '<', l - t0);
                }
                if l == len {
                    return None;
                }
                let text = s.substring_char(t0, l).to_owned();
                proof {
                    assert(text@ =~= rem.skip(g - i + 1).take(l - t0));
                }
                return Some(text);
            } else {
                proof {
                    assert(!tag_match(rem, name@));
                }
            }
        } else {
            proof {
                assert(!tag_match(rem, name@));
            }
        }
        i = i + 1;
    }
    proof {
        assert(s@.skip(i as int) =~= Seq::<char>::empty());
    }
    None
}

/// Whether the character may continue a tag name.
fn is_name_char_exec(c: char) -> (r: bool)
    ensures
        r == is_name_char(c),
{
    !(c == '<' || c == '>' || c == '/' || c == ' ' || c == '\t' || c == '\r' || c == '\n')
}

/// A decoded ContentDirectory Browse request.
#[derive(Debug)]
pub struct BrowseRequest {
    pub object_id: String,
}

/// The object id carried by a Browse envelope, when the body is valid
/// UTF-8 and holds an `ObjectID` element.
pub open spec fn browse_request_spec(body: Seq<u8>) -> Option<Seq<char>> {
    if !vstd::utf8::valid_utf8(body) {
        None
    } else {
        find_elem_text(vstd::utf8::decode_utf8(body), "ObjectID"@)
    }
}

/// The message reported when a Browse envelope cannot be decoded; it
/// carries the raw body for diagnostics whenever the body is readable text.
pub open spec fn parse_fail_msg(body: Seq<u8>) -> Seq<char> {
    if !vstd::utf8::valid_utf8(body) {
        "Error parsing xml body."@
    } else {
        "Error parsing xml:\n"@ + vstd::utf8::decode_utf8(body)
    }
}

/// Decode a request body as a SOAP Browse envelope.
pub fn parse_browse_request(body: Vec<u8>) -> (r: Result<BrowseRequest, MediaError>)
    ensures
        r is Ok <==> browse_request_spec(body@) is Some,
        r is Ok ==> r.unwrap().object_id@ == browse_request_spec(body@).unwrap(),
        r is Err ==> (r matches Err(MediaError::Message(m)) && m@ == parse_fail_msg(body@)),
{
    let ghost bytes = body@;
    match bytes_to_string(body) {
        None => Err(MediaError::Message("Error parsing xml body.".to_owned())),
        Some(text) => {
            match extract_elem_text(text.as_str(), "ObjectID") {
                Some(oid) => Ok(BrowseRequest { object_id: oid }),
                None => {
                    let mut msg = "Error parsing xml:\n".to_owned();
                    msg.append(text.as_str());
                    Err(MediaError::Message(msg))
                },
            }
        },
    }
}

} // verus!

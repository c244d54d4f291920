//! One inbound HTTP request path, consumed one `/`-delimited segment at a
//! time.

use vstd::prelude::*;

use crate::error::MediaError;
use crate::percent::{percent_decode, percent_decoded};
use crate::strutil::{bytes_to_string, char_pos, find_char_from, lemma_char_pos};

verus! {

/// The first `/`-delimited segment of a path remainder.
pub open spec fn first_segment(s: Seq<char>) -> Seq<char> {
    s.take(char_pos(s, '/'))
}

/// What remains of a path after its first segment and the slash that ends
/// it; empty when the remainder holds no slash.
pub open spec fn seg_rest(s: Seq<char>) -> Seq<char> {
    if char_pos(s, '/') < s.len() {
        s.skip(char_pos(s, '/') + 1)
    } else {
        Seq::empty()
    }
}

/// The percent-decoding of a path remainder, as bytes.
pub open spec fn decoded_bytes(rem: Seq<char>) -> Seq<u8> {
    percent_decoded(vstd::utf8::encode_utf8(rem))
}

/// The percent-decoded path remainder, when its bytes are valid UTF-8.
pub open spec fn decoded_path_spec(rem: Seq<char>) -> Option<Seq<char>> {
    if vstd::utf8::valid_utf8(decoded_bytes(rem)) {
        Some(vstd::utf8::decode_utf8(decoded_bytes(rem)))
    } else {
        None
    }
}

/// A request path with an offset marking how much has been consumed.
pub struct Request {
    path: String,
    offset: usize,
}

impl Request {
    /// The whole path the request arrived with.
    pub closed spec fn full_path(&self) -> Seq<char> {
        self.path@
    }

    pub closed spec fn offset_spec(&self) -> int {
        self.offset as int
    }

    /// The consumption offset never runs past the end of the path.
    pub open spec fn wf(&self) -> bool {
        0 <= self.offset_spec() <= self.full_path().len()
    }

    /// The unconsumed part of the path.
    pub open spec fn remaining(&self) -> Seq<char> {
        self.full_path().skip(self.offset_spec())
    }

    /// Wrap a raw request path; one leading slash is consumed up front.
    pub fn new(path: String) -> (r: Request)
        ensures
            r.wf(),
            r.remaining() == if path@.len() > 0 && path@[0] == '/' {
                path@.skip(1)
            } else {
                path@
            },
    {
        let len = path.as_str().unicode_len();
        let offset: usize = if len > 0 && path.as_str().get_char(0) == '/' {
            1
        } else {
            0
        };
        proof {
            if !(path@.len() > 0 && path@[0] == '/') {
                assert(path@.skip(0) =~= path@);
            }
        }
        Request { path, offset }
    }

    /// The unconsumed remainder of the path.
    pub fn path(&self) -> (r: &str)
        requires
            self.wf(),
        ensures
            r@ == self.remaining(),
    {
        let len = self.path.as_str().unicode_len();
        let r = self.path.as_str().substring_char(self.offset, len);
        proof {
            assert(r@ =~= self.remaining());
        }
        r
    }

    /// Consume and return the next `/`-delimited segment. When no slash is
    /// left the whole remainder is returned and the request is exhausted.
    pub fn pop(&mut self) -> (r: String)
        requires
            old(self).wf(),
        ensures
            final(self).wf(),
            final(self).full_path() == old(self).full_path(),
            r@ == first_segment(old(self).remaining()),
            final(self).remaining() == seg_rest(old(self).remaining()),
    {
        let len = self.path.as_str().unicode_len();
        let j = find_char_from(self.path.as_str(), self.offset, '/');
        let seg = self.path.as_str().substring_char(self.offset, j).to_owned();
        let ghost rem = old(self).remaining();
        proof {
            lemma_char_pos(rem, '/');
            assert(seg@ =~= first_segment(rem));
        }
        if j < len {
            self.offset = j + 1;
            proof {
                assert(self.remaining() =~= seg_rest(rem));
            }
        } else {
            self.offset = len;
            proof {
                assert(self.remaining() =~= Seq::<char>::empty());
                assert(self.remaining() =~= seg_rest(rem));
            }
        }
        seg
    }

    /// Percent-decode the unconsumed remainder of the path; bytes that do
    /// not form valid UTF-8 after decoding are a decode error, never a
    /// truncated success.
    pub fn decoded_path(&self) -> (r: Result<String, MediaError>)
        requires
            self.wf(),
        ensures
            r is Ok <==> decoded_path_spec(self.remaining()) is Some,
            r is Ok ==> r.unwrap()@ == decoded_path_spec(self.remaining()).unwrap(),
            r is Err ==> (r matches Err(MediaError::Message(m)) && m@
                == "Error percent-decoding path to utf8."@),
    {
        let len = self.path.as_str().unicode_len();
        let rem = self.path.as_str().substring_char(self.offset, len);
        proof {
            assert(rem@ =~= self.remaining());
        }
        let bytes = rem.as_bytes_vec();
        let dec = percent_decode(&bytes);
        match bytes_to_string(dec) {
            Some(s) => Ok(s),
            None => Err(MediaError::Message("Error percent-decoding path to utf8.".to_owned())),
        }
    }
}

/// The bytes of a chunked request body, in arrival order.
pub open spec fn flat_bytes(chunks: Seq<Vec<u8>>) -> Seq<u8>
    decreases chunks.len(),
{
    if chunks.len() == 0 {
        Seq::empty()
    } else {
        chunks[0]@ + flat_bytes(chunks.skip(1))
    }
}

/// Accumulate the chunks of a request body into one byte vector.
pub fn body_vec(chunks: &Vec<Vec<u8>>) -> (r: Vec<u8>)
    ensures
        r@ == flat_bytes(chunks@),
{
    let mut out: Vec<u8> = Vec::new();
    let mut i: usize = 0;
    proof {
        assert(chunks@.skip(0) =~= chunks@);
    }
    while i < chunks.len()
        invariant
            i <= chunks@.len(),
            flat_bytes(chunks@) == out@ + flat_bytes(chunks@.skip(i as int)),
        decreases chunks@.len() - i,
    {
        let ghost before = out@;
        proof {
            assert(chunks@.skip(i as int)[0] == chunks@[i as int]);
            assert(chunks@.skip(i as int).skip(1) =~= chunks@.skip(i as int + 1));
        }
        out.extend_from_slice(chunks[i].as_slice());
        proof {
            assert(before + (chunks@[i as int]@ + flat_bytes(chunks@.skip(i as int + 1))) =~= out@
                + flat_bytes(chunks@.skip(i as int + 1)));
        }
        i = i + 1;
    }
    proof {
        assert(flat_bytes(chunks@.skip(i as int)) =~= Seq::<u8>::empty());
        assert(out@ + flat_bytes(chunks@.skip(i as int)) =~= out@);
    }
    out
}

/// Path decoding is the exact inverse of percent-encoding: whenever a
/// request path carries the percent-encoding of some UTF-8 text, decoding
/// it yields exactly that text, never a truncation.
pub proof fn lemma_decoded_path_round_trip(p: Seq<char>, s: Seq<char>)
    requires
        vstd::utf8::encode_utf8(p) == crate::percent::percent_encoded(vstd::utf8::encode_utf8(s)),
    ensures
        decoded_path_spec(p) == Some(s),
{
    crate::percent::lemma_percent_round_trip(vstd::utf8::encode_utf8(s));
    assert(decoded_bytes(p) == vstd::utf8::encode_utf8(s));
    vstd::utf8::encode_utf8_valid_utf8(s);
    vstd::utf8::encode_utf8_decode_utf8(s);
}

/// Popping consumes exactly one `/`-delimited unit per call: when the
/// remainder holds a slash, the popped segment, that one slash and the new
/// remainder reassemble it exactly; otherwise the whole (possibly empty)
/// remainder is yielded and nothing is left, so no pop reads past the end.
pub proof fn lemma_pop_consumes_one_unit(s: Seq<char>)
    ensures
        char_pos(s, '/') < s.len() ==> first_segment(s) + seq!['/'] + seg_rest(s) == s,
        char_pos(s, '/') == s.len() ==> first_segment(s) == s && seg_rest(s) == Seq::<
            char,
        >::empty(),
        first_segment(s).len() + seg_rest(s).len() <= s.len(),
{
    lemma_char_pos(s, '/');
    if char_pos(s, '/') < s.len() {
        assert(first_segment(s) + seq!['/'] + seg_rest(s) =~= s);
    } else {
        assert(first_segment(s) =~= s);
    }
}

} // verus!

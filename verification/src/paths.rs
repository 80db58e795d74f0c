//! Path codec: canonical ids are slash-delimited strings such as
//! `"/Dossier/Item 1"`. Decoding splits on `'/'` and drops empty segments;
//! encoding appends one segment to a parent id.

use vstd::prelude::*;
use vstd::string::{StrSliceExecFns, StringExecFns};

verus! {

/// Index of the first `'/'` in `s`, or `s.len()` when there is none.
pub open spec fn slash_pos(s: Seq<char>) -> nat
    decreases s.len(),
{
    if s.len() == 0 {
        0
    } else if s[0] == '/' {
        0
    } else {
        1 + slash_pos(s.drop_first())
    }
}

pub proof fn lemma_slash_pos(s: Seq<char>)
    ensures
        slash_pos(s) <= s.len(),
        forall|j: int| 0 <= j < slash_pos(s) ==> s[j] != '/',
        slash_pos(s) < s.len() ==> s[slash_pos(s) as int] == '/',
    decreases s.len(),
{
    if s.len() == 0 {
    } else if s[0] == '/' {
    } else {
        lemma_slash_pos(s.drop_first());
        assert forall|j: int| 0 <= j < slash_pos(s) implies s[j] != '/' by {
            if j > 0 {
                assert(s.drop_first()[j - 1] == s[j]);
            }
        }
        if slash_pos(s) < s.len() {
            assert(s.drop_first()[slash_pos(s) - 1] == s[slash_pos(s) as int]);
        }
    }
}

/// `slash_pos` is the unique position with nothing but non-slashes before it
/// and a slash (or the end of the string) at it.
pub proof fn lemma_slash_pos_is(s: Seq<char>, p: int)
    requires
        0 <= p <= s.len(),
        forall|j: int| 0 <= j < p ==> s[j] != '/',
        p < s.len() ==> s[p] == '/',
    ensures
        slash_pos(s) == p,
    decreases s.len(),
{
    if s.len() == 0 {
    } else if s[0] == '/' {
        assert(p == 0);
    } else {
        assert(p >= 1);
        assert forall|j: int| 0 <= j < p - 1 implies s.drop_first()[j] != '/' by {
            assert(s.drop_first()[j] == s[j + 1]);
        }
        if p - 1 < s.drop_first().len() {
            assert(s.drop_first()[p - 1] == s[p]);
        }
        lemma_slash_pos_is(s.drop_first(), p - 1);
    }
}

/// The decoded form of an id string: the sequence of its non-empty
/// slash-separated segments.
pub open spec fn decode_spec(s: Seq<char>) -> Seq<Seq<char>>
    decreases s.len(),
{
    let p = slash_pos(s);
    if p >= s.len() {
        if s.len() == 0 {
            Seq::empty()
        } else {
            seq![s]
        }
    } else {
        let rest = s.subrange(p as int + 1, s.len() as int);
        if p == 0 {
            decode_spec(rest)
        } else {
            seq![s.subrange(0, p as int)] + decode_spec(rest)
        }
    }
}

/// A string without any `'/'` decodes to the single segment it spells.
pub proof fn lemma_decode_no_slash(t: Seq<char>)
    requires
        t.len() > 0,
        forall|i: int| 0 <= i < t.len() ==> t[i] != '/',
    ensures
        decode_spec(t) == seq![t],
{
    lemma_slash_pos_is(t, t.len() as int);
}

/// Appending one slash-free segment to a parent id: canonical encoding.
pub open spec fn encode_spec(parent_id: Seq<char>, segment_name: Seq<char>) -> Seq<char> {
    parent_id + seq!['/'] + segment_name
}

/// Decoding an encoded id always ends with the segment that was appended,
/// for any non-empty segment without an embedded `'/'`.
pub proof fn lemma_decode_encode_last(parent_id: Seq<char>, segment: Seq<char>)
    requires
        segment.len() > 0,
        forall|i: int| 0 <= i < segment.len() ==> segment[i] != '/',
    ensures
        decode_spec(encode_spec(parent_id, segment)).len() > 0,
        decode_spec(encode_spec(parent_id, segment)).last() == segment,
    decreases parent_id.len(),
{
    let s = encode_spec(parent_id, segment);
    let n = parent_id.len() as int;
    assert(s[n] == '/');
    let p = slash_pos(s);
    lemma_slash_pos(s);
    assert(p <= n);
    let rest = s.subrange(p as int + 1, s.len() as int);
    if p == n {
        assert(rest =~= segment);
        lemma_decode_no_slash(segment);
    } else {
        // The slash sits inside `parent_id`; the tail is itself an encoding
        // of a shorter parent.
        let shorter = parent_id.subrange(p as int + 1, n);
        assert(rest =~= encode_spec(shorter, segment));
        lemma_decode_encode_last(shorter, segment);
        if p == 0 {
            assert(decode_spec(s) == decode_spec(rest));
        } else {
            assert(decode_spec(s) == seq![s.subrange(0, p as int)] + decode_spec(rest));
            assert(decode_spec(s).last() == decode_spec(rest).last());
        }
    }
}

/// Splits an id on `'/'`, dropping empty segments. Total: an all-empty input
/// yields an empty path.
pub fn id_to_path(id: &str) -> (path: Vec<String>)
    ensures
        path.deep_view() == decode_spec(id@),
    decreases id@.len(),
{
    let len = id.unicode_len();
    let mut p: usize = 0;
    while p < len && id.get_char(p) != '/'
        invariant
            p <= len,
            len == id@.len(),
            forall|j: int| 0 <= j < p ==> id@[j] != '/',
        decreases len - p,
    {
        p += 1;
    }
    proof {
        lemma_slash_pos_is(id@, p as int);
    }
    if p == len {
        let mut path: Vec<String> = Vec::new();
        if len > 0 {
            path.push(id.to_owned());
        }
        proof {
            if len > 0 {
                assert(path.deep_view() =~= seq![id@]);
            } else {
                assert(path.deep_view() =~= Seq::<Seq<char>>::empty());
            }
        }
        path
    } else {
        let rest = id.substring_char(p + 1, len);
        let mut path = id_to_path(rest);
        assert(rest@ == id@.subrange(p + 1, len as int));
        if p > 0 {
            let seg = id.substring_char(0, p);
            let ghost old_path = path.deep_view();
            path.insert(0, seg.to_owned());
            proof {
                assert(path.deep_view() =~= seq![id@.subrange(0, p as int)] + old_path);
            }
        }
        path
    }
}

/// Concatenates `parent_id + "/" + segment_name`.
pub fn encode(parent_id: &str, segment_name: &str) -> (r: String)
    ensures
        r@ == encode_spec(parent_id@, segment_name@),
{
    let mut s = parent_id.to_owned();
    s.append("/");
    s.append(segment_name);
    proof {
        reveal_strlit("/");
        assert(("/")@ =~= seq!['/']);
    }
    s
}

} // verus!

//! What holds of decoding across inputs.
use vstd::prelude::*;

use crate::resp::{
    Reply, decode, items_at, line_at, line_end, mismatch_text, number_line_at, remaining_text,
    reply_at,
};

verus! {

proof fn lemma_line_end_extend(s: Seq<u8>, g: Seq<u8>, p: int)
    requires
        0 <= p,
        line_end(s, p) < s.len(),
    ensures
        line_end(s + g, p) == line_end(s, p),
    decreases s.len() - p,
{
    if p < s.len() && !crate::resp::is_line_break(s[p]) {
        lemma_line_end_extend(s, g, p + 1);
    }
}

proof fn lemma_line_at_extend(s: Seq<u8>, g: Seq<u8>, p: int)
    requires
        line_at(s, p) is Some,
    ensures
        line_at(s + g, p) == line_at(s, p),
{
    lemma_line_end_extend(s, g, p);
    let q = line_end(s, p);
    assert((s + g).subrange(p, q) =~= s.subrange(p, q));
}

proof fn lemma_reply_extend(s: Seq<u8>, g: Seq<u8>, p: int)
    requires
        reply_at(s, p) matches Some((v, _)) && !(v is Malformed),
    ensures
        reply_at(s + g, p) == reply_at(s, p),
    decreases s.len() - p, 0int,
{
    let t = s + g;
    assert(t[p] == s[p]);
    if s[p] == 43 || s[p] == 45 {
        lemma_line_at_extend(s, g, p + 1);
    } else if s[p] == 58 || s[p] == 36 || s[p] == 42 {
        lemma_line_at_extend(s, g, p + 1);
        assert(number_line_at(t, p) == number_line_at(s, p));
        let (n, e) = number_line_at(s, p).unwrap();
        if s[p] == 36 && n >= 0 {
            assert(t[e + n] == s[e + n]);
            assert(t[e + n + 1] == s[e + n + 1]);
            assert(t.subrange(e, e + n) =~= s.subrange(e, e + n));
        }
        if s[p] == 42 && n >= 0 {
            assert(p < e <= s.len());
            if items_at(s, e, n, 0) is Err {
                lemma_items_err_malformed(s, e, n, 0);
            }
            lemma_items_extend(s, g, e, n, 0);
        }
    }
}

proof fn lemma_items_err_malformed(s: Seq<u8>, p: int, count: int, got: int)
    requires
        items_at(s, p, count, got) is Err,
    ensures
        items_at(s, p, count, got)->Err_0.0 is Malformed,
    decreases s.len() - p,
{
    if got < count {
        if let Some((v, q)) = reply_at(s, p) {
            if !(v is Malformed) && p < q <= s.len() {
                lemma_items_err_malformed(s, q, count, got + 1);
            }
        }
    }
}

proof fn lemma_items_extend(s: Seq<u8>, g: Seq<u8>, p: int, count: int, got: int)
    requires
        items_at(s, p, count, got) is Ok,
    ensures
        items_at(s + g, p, count, got) == items_at(s, p, count, got),
    decreases s.len() - p, 1int,
{
    if got < count {
        lemma_reply_extend(s, g, p);
        let (v, q) = reply_at(s, p).unwrap();
        lemma_items_extend(s, g, q, count, got + 1);
    }
}

/// A reply that takes up a whole buffer decodes to itself; followed by any
/// further bytes, the buffer decodes to `Malformed`, and the message names
/// those bytes.
pub proof fn lemma_trailing_bytes(r: Seq<u8>, g: Seq<u8>)
    requires
        reply_at(r, 0) matches Some((v, e)) && e == r.len() && !(v is Malformed),
        g.len() > 0,
    ensures
        decode(r) == reply_at(r, 0).unwrap().0,
        decode(r + g) == Reply::Malformed(remaining_text(g)),
{
    lemma_reply_extend(r, g, 0);
    assert((r + g).subrange(r.len() as int, (r + g).len() as int) =~= g);
}

proof fn lemma_items_short(s: Seq<u8>, p: int, k: int, n: int, got: int)
    requires
        0 <= got <= k < n,
        items_at(s, p, k, got) matches Ok((_, q)) && reply_at(s, q) is None,
    ensures
        items_at(s, p, n, got) == Err::<(Seq<Reply>, int), (Reply, int)>(
            (Reply::Malformed(mismatch_text(n, k)), items_at(s, p, k, got)->Ok_0.1),
        ),
    decreases k - got,
{
    if got < k {
        let (v, q) = reply_at(s, p).unwrap();
        lemma_items_short(s, q, k, n, got + 1);
    }
}

/// An array that declares `n` items, but after `k < n` complete ones holds
/// bytes that start no reply, decodes to `Malformed`, and the message names
/// both counts.
pub proof fn lemma_count_mismatch(s: Seq<u8>, n: int, k: int)
    requires
        s.len() > 0 && s[0] == 42,
        number_line_at(s, 0) matches Some((c, e)) && (c == n && (items_at(s, e, k, 0) matches Ok(
            (_, q),
        ) && reply_at(s, q) is None)),
        0 <= k < n,
    ensures
        decode(s) == Reply::Malformed(mismatch_text(n, k)),
{
    let (c, e) = number_line_at(s, 0).unwrap();
    lemma_items_short(s, e, k, n, 0);
}

} // verus!

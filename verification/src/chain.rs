use vstd::prelude::*;
use crate::encoding::Encoding;
use crate::encoding::parse_encoding;
use crate::encoding::spec_parse_token;
use crate::error::DecodeError;

verus! {

/// Whether `b` is whitespace around a header token: space or horizontal tab.
pub open spec fn is_ows(b: u8) -> bool {
    b == 32 || b == 9
}

/// `s` with its leading whitespace dropped.
pub open spec fn trim_front(s: Seq<u8>) -> Seq<u8>
    decreases s.len(),
{
    if s.len() > 0 && is_ows(s[0]) {
        trim_front(s.skip(1))
    } else {
        s
    }
}

/// `s` with its trailing whitespace dropped.
pub open spec fn trim_back(s: Seq<u8>) -> Seq<u8>
    decreases s.len(),
{
    if s.len() > 0 && is_ows(s[s.len() - 1]) {
        trim_back(s.take(s.len() - 1))
    } else {
        s
    }
}

/// `s` trimmed of surrounding whitespace.
pub open spec fn spec_trim(s: Seq<u8>) -> Seq<u8> {
    trim_back(trim_front(s))
}

/// The comma-separated pieces of `s`, in order, whitespace kept.  An empty
/// `s` is one empty piece, just as splitting an empty string on commas
/// gives one empty part.
pub open spec fn spec_split(s: Seq<u8>) -> Seq<Seq<u8>>
    decreases s.len(),
{
    if s.len() == 0 {
        seq![Seq::<u8>::empty()]
    } else if s[0] == 44 {
        seq![Seq::<u8>::empty()] + spec_split(s.skip(1))
    } else {
        let rest = spec_split(s.skip(1));
        seq![seq![s[0]] + rest[0]] + rest.skip(1)
    }
}

/// Splitting never yields an empty piece list.
proof fn lemma_split_len(s: Seq<u8>)
    ensures
        spec_split(s).len() >= 1,
    decreases s.len(),
{
    if s.len() == 0 {
    } else if s[0] == 44 {
        lemma_split_len(s.skip(1));
    } else {
        lemma_split_len(s.skip(1));
    }
}

/// A piece without a comma splits into itself alone.
proof fn lemma_split_no_comma(s: Seq<u8>)
    requires
        forall|i: int| 0 <= i < s.len() ==> s[i] != 44,
    ensures
        spec_split(s) == seq![s],
    decreases s.len(),
{
    if s.len() == 0 {
        assert(s =~= Seq::<u8>::empty());
        assert(spec_split(s) =~= seq![s]);
    } else {
        assert(forall|i: int| 0 <= i < s.skip(1).len() ==> s.skip(1)[i] == s[i + 1]);
        lemma_split_no_comma(s.skip(1));
        lemma_split_len(s.skip(1));
        assert(seq![s[0]] + s.skip(1) =~= s);
        assert(spec_split(s) =~= seq![s]);
    }
}

/// Splitting at the first comma: the piece before it, then the split of
/// what follows it.
proof fn lemma_split_at_comma(s: Seq<u8>, k: int)
    requires
        0 <= k < s.len(),
        s[k] == 44,
        forall|i: int| 0 <= i < k ==> s[i] != 44,
    ensures
        spec_split(s) == seq![s.take(k)] + spec_split(s.skip(k + 1)),
    decreases k,
{
    if k == 0 {
        assert(s.take(0) =~= Seq::<u8>::empty());
        assert(spec_split(s) =~= seq![s.take(k)] + spec_split(s.skip(k + 1)));
    } else {
        assert(forall|i: int| 0 <= i < s.skip(1).len() ==> s.skip(1)[i] == s[i + 1]);
        lemma_split_at_comma(s.skip(1), k - 1);
        lemma_split_len(s.skip(1));
        let rest = spec_split(s.skip(1));
        assert(s.skip(1).take(k - 1) =~= s.subrange(1, k));
        assert(s.skip(1).skip(k) =~= s.skip(k + 1));
        assert(rest == seq![s.subrange(1, k)] + spec_split(s.skip(k + 1)));
        assert(rest[0] == s.subrange(1, k));
        assert(seq![s[0]] + s.subrange(1, k) =~= s.take(k));
        assert(rest.skip(1) =~= spec_split(s.skip(k + 1)));
        assert(spec_split(s) =~= seq![s.take(k)] + spec_split(s.skip(k + 1)));
    }
}

/// The trimmed comma-separated tokens of a `Content-Encoding` value, in
/// header order.
pub open spec fn spec_tokens(v: Seq<u8>) -> Seq<Seq<u8>> {
    spec_split(v).map_values(|t: Seq<u8>| spec_trim(t))
}

/// The first token, in header order, that names no known coding.
pub open spec fn spec_first_bad(toks: Seq<Seq<u8>>) -> Seq<u8>
    decreases toks.len(),
{
    if toks.len() == 0 {
        Seq::empty()
    } else if spec_parse_token(toks[0]) is None {
        toks[0]
    } else {
        spec_first_bad(toks.skip(1))
    }
}

/// When every token before `k` parses and the one at `k` does not, the
/// token at `k` is the first bad one.
proof fn lemma_first_bad_at(toks: Seq<Seq<u8>>, k: int)
    requires
        0 <= k < toks.len(),
        forall|j: int| 0 <= j < k ==> spec_parse_token(toks[j]) is Some,
        spec_parse_token(toks[k]) is None,
    ensures
        spec_first_bad(toks) == toks[k],
    decreases k,
{
    if k == 0 {
    } else {
        assert(forall|j: int| 0 <= j < toks.skip(1).len() ==> toks.skip(1)[j] == toks[j + 1]);
        lemma_first_bad_at(toks.skip(1), k - 1);
    }
}

/// The decode chain a `Content-Encoding` value declares: every token
/// parsed, in the reverse of header order (decoding must undo the
/// last-applied coding first), or nothing when any token is unrecognized.
pub open spec fn spec_parse_chain(v: Seq<u8>) -> Option<Seq<Encoding>> {
    let toks = spec_tokens(v);
    if forall|i: int| #![auto] 0 <= i < toks.len() ==> spec_parse_token(toks[i]) is Some {
        Some(Seq::new(toks.len(), |i: int| spec_parse_token(toks[toks.len() - 1 - i])->0))
    } else {
        None
    }
}

/// The views of a vector of byte tokens.
pub open spec fn views_of(ts: Seq<Vec<u8>>) -> Seq<Seq<u8>> {
    ts.map_values(|t: Vec<u8>| t@)
}

/// A copy of `v[lo..hi]`.
fn sub_vec(v: &Vec<u8>, lo: usize, hi: usize) -> (r: Vec<u8>)
    requires
        lo <= hi <= v@.len(),
    ensures
        r@ == v@.subrange(lo as int, hi as int),
{
    let mut r: Vec<u8> = Vec::new();
    proof {
        assert(r@ =~= v@.subrange(lo as int, lo as int));
    }
    let mut i: usize = lo;
    while i < hi
        invariant
            lo <= i <= hi <= v@.len(),
            r@ == v@.subrange(lo as int, i as int),
        decreases hi - i,
    {
        r.push(v[i]);
        proof {
            assert(v@.subrange(lo as int, i as int).push(v@[i as int]) =~= v@.subrange(
                lo as int,
                i as int + 1,
            ));
        }
        i += 1;
    }
    r
}

/// A copy of `t` trimmed of surrounding whitespace.
fn trim_token(t: &Vec<u8>) -> (r: Vec<u8>)
    ensures
        r@ == spec_trim(t@),
{
    let n = t.len();
    let mut lo: usize = 0;
    proof {
        assert(t@.skip(0) =~= t@);
    }
    while lo < n && (t[lo] == 32 || t[lo] == 9)
        invariant
            lo <= n,
            n == t@.len(),
            trim_front(t@) == trim_front(t@.skip(lo as int)),
        decreases n - lo,
    {
        proof {
            assert(t@.skip(lo as int)[0] == t@[lo as int]);
            assert(t@.skip(lo as int).skip(1) =~= t@.skip(lo as int + 1));
        }
        lo += 1;
    }
    proof {
        if lo < n {
            assert(t@.skip(lo as int)[0] == t@[lo as int]);
        }
        assert(trim_front(t@) == t@.skip(lo as int));
        assert(t@.subrange(lo as int, n as int) =~= t@.skip(lo as int));
    }
    let mut hi: usize = n;
    while hi > lo && (t[hi - 1] == 32 || t[hi - 1] == 9)
        invariant
            lo <= hi <= n,
            n == t@.len(),
            trim_back(t@.skip(lo as int)) == trim_back(t@.subrange(lo as int, hi as int)),
        decreases hi,
    {
        proof {
            let sub = t@.subrange(lo as int, hi as int);
            assert(sub[sub.len() - 1] == t@[hi as int - 1]);
            assert(sub.take(sub.len() - 1) =~= t@.subrange(lo as int, hi as int - 1));
        }
        hi -= 1;
    }
    proof {
        let sub = t@.subrange(lo as int, hi as int);
        if hi > lo {
            assert(sub[sub.len() - 1] == t@[hi as int - 1]);
        }
        assert(trim_back(t@.skip(lo as int)) == t@.subrange(lo as int, hi as int));
    }
    sub_vec(t, lo, hi)
}

/// The comma-separated pieces of a header value, whitespace kept.
fn split_header(v: &Vec<u8>) -> (toks: Vec<Vec<u8>>)
    ensures
        views_of(toks@) == spec_split(v@),
{
    let n = v.len();
    let mut toks: Vec<Vec<u8>> = Vec::new();
    let mut start: usize = 0;
    let mut i: usize = 0;
    proof {
        assert(v@.skip(0) =~= v@);
        assert(views_of(toks@) =~= Seq::<Seq<u8>>::empty());
        assert(views_of(toks@) + spec_split(v@.skip(0)) =~= spec_split(v@));
    }
    while i < n
        invariant
            start <= i <= n,
            n == v@.len(),
            spec_split(v@) == views_of(toks@) + spec_split(v@.skip(start as int)),
            forall|j: int| start <= j < i ==> v@[j] != 44,
        decreases n - i,
    {
        if v[i] == 44 {
            let tok = sub_vec(v, start, i);
            let ghost old_toks = toks@;
            toks.push(tok);
            proof {
                let tail = v@.skip(start as int);
                assert(forall|j: int| 0 <= j < tail.len() ==> tail[j] == v@[start as int + j]);
                assert(tail[i as int - start as int] == 44);
                lemma_split_at_comma(tail, i as int - start as int);
                assert(tail.take(i as int - start as int) =~= v@.subrange(
                    start as int,
                    i as int,
                ));
                assert(tail.skip(i as int - start as int + 1) =~= v@.skip(i as int + 1));
                assert(views_of(toks@) =~= views_of(old_toks).push(tok@));
                assert(views_of(old_toks) + (seq![v@.subrange(start as int, i as int)]
                    + spec_split(v@.skip(i as int + 1))) =~= views_of(toks@) + spec_split(
                    v@.skip(i as int + 1),
                ));
            }
            start = i + 1;
        }
        i += 1;
    }
    let tok = sub_vec(v, start, n);
    let ghost old_toks = toks@;
    toks.push(tok);
    proof {
        let tail = v@.skip(start as int);
        assert(forall|j: int| 0 <= j < tail.len() ==> tail[j] == v@[start as int + j]);
        lemma_split_no_comma(tail);
        assert(tok@ =~= tail);
        assert(views_of(toks@) =~= views_of(old_toks).push(tok@));
        assert(views_of(old_toks) + seq![tail] =~= views_of(toks@));
        assert(views_of(toks@) =~= spec_split(v@));
    }
    toks
}

/// Parses a `Content-Encoding` value into the decode chain it declares:
/// tokens split on commas, trimmed of surrounding whitespace, each required
/// to name a known coding, and the chain given in the reverse of header
/// order.  An unrecognized token is reported, the first one in header
/// order, and no chain is produced.
pub fn parse_chain(v: &Vec<u8>) -> (r: Result<Vec<Encoding>, DecodeError>)
    ensures
        match r {
            Ok(chain) => spec_parse_chain(v@) == Some(chain@),
            Err(e) => spec_parse_chain(v@) is None && (e matches
                DecodeError::InvalidEncodingChain { offending_token } && offending_token@
                == spec_first_bad(spec_tokens(v@))),
        },
{
    let toks = split_header(v);
    let n = toks.len();
    let ghost stoks = spec_tokens(v@);
    proof {
        assert(stoks.len() == n);
    }
    let mut parsed: Vec<Encoding> = Vec::new();
    let mut k: usize = 0;
    while k < n
        invariant
            k <= n,
            n == toks@.len(),
            views_of(toks@) == spec_split(v@),
            stoks == spec_tokens(v@),
            stoks.len() == n,
            parsed@.len() == k,
            forall|j: int| 0 <= j < k ==> spec_parse_token(stoks[j]) == Some(parsed@[j]),
        decreases n - k,
    {
        let t = trim_token(&toks[k]);
        proof {
            assert(stoks[k as int] == spec_trim(views_of(toks@)[k as int]));
            assert(views_of(toks@)[k as int] == toks@[k as int]@);
        }
        match parse_encoding(&t) {
            Some(e) => {
                parsed.push(e);
            },
            None => {
                proof {
                    lemma_first_bad_at(stoks, k as int);
                    assert(!(forall|i: int| #![auto]
                        0 <= i < stoks.len() ==> spec_parse_token(stoks[i]) is Some));
                }
                return Err(DecodeError::InvalidEncodingChain { offending_token: t });
            },
        }
        k += 1;
    }
    let mut chain: Vec<Encoding> = Vec::new();
    let mut m: usize = n;
    while m > 0
        invariant
            m <= n,
            n == parsed@.len(),
            stoks == spec_tokens(v@),
            stoks.len() == n,
            forall|j: int| 0 <= j < n ==> spec_parse_token(stoks[j]) == Some(parsed@[j]),
            chain@.len() == n - m,
            forall|j: int| 0 <= j < n - m ==> chain@[j] == parsed@[n - 1 - j],
        decreases m,
    {
        m -= 1;
        chain.push(parsed[m]);
    }
    proof {
        assert(forall|i: int| #![auto]
            0 <= i < stoks.len() ==> spec_parse_token(stoks[i]) is Some);
        assert(chain@ =~= Seq::new(
            stoks.len(),
            |i: int| spec_parse_token(stoks[stoks.len() - 1 - i])->0,
        ));
    }
    Ok(chain)
}

} // verus!

use vstd::prelude::*;
use crate::Compression;
use crate::chain::parse_chain;
use crate::chain::spec_first_bad;
use crate::chain::spec_parse_chain;
use crate::chain::spec_tokens;
use crate::codec::decode_step;
use crate::codec::spec_decoded;
use crate::encoding::Encoding;
use crate::encoding::spec_parse_token;
use crate::error::DecodeError;
use crate::headers::Headers;
use crate::headers::accept_encoding_bytes;
use crate::headers::accept_encoding_name;
use crate::headers::content_encoding_bytes;
use crate::headers::content_encoding_name;
use crate::headers::copy_bytes;
use crate::headers::lemma_remove_removes;
use crate::headers::spec_lookup;
use crate::headers::spec_remove;
use crate::headers::supported_encodings;
use crate::headers::supported_encodings_bytes;

verus! {

/// An outgoing request, as much of it as encoding negotiation touches.
pub struct Request {
    pub headers: Headers,
}

/// An incoming response: its headers and its body, fully materialized.
pub struct Response {
    pub headers: Headers,
    pub body: Vec<u8>,
}

/// The bytes left after applying every coding of `chain`, in order, to `b`:
/// each layer feeds the next, and the whole chain fails as soon as one
/// coding rejects its input.
pub open spec fn apply_chain(chain: Seq<Encoding>, b: Seq<u8>) -> Option<Seq<u8>>
    decreases chain.len(),
{
    if chain.len() == 0 {
        Some(b)
    } else {
        match spec_decoded(chain[0], b) {
            Some(next) => apply_chain(chain.skip(1), next),
            None => None,
        }
    }
}

/// Applying a chain is applying a prefix of it, then the rest of it to
/// whatever the prefix produced.
pub proof fn lemma_apply_chain_split(chain: Seq<Encoding>, b: Seq<u8>, i: int)
    requires
        0 <= i <= chain.len(),
    ensures
        apply_chain(chain, b) == (match apply_chain(chain.take(i), b) {
            Some(mid) => apply_chain(chain.skip(i), mid),
            None => None,
        }),
    decreases i,
{
    if i == 0 {
        assert(chain.take(0) =~= Seq::<Encoding>::empty());
        assert(chain.skip(0) =~= chain);
    } else {
        let pre = chain.take(i);
        assert(pre[0] == chain[0]);
        match spec_decoded(chain[0], b) {
            Some(next) => {
                lemma_apply_chain_split(chain.skip(1), next, i - 1);
                assert(chain.skip(1).take(i - 1) =~= pre.skip(1));
                assert(chain.skip(1).skip(i - 1) =~= chain.skip(i));
            },
            None => {},
        }
    }
}

/// Law: a one-layer chain decodes exactly as its single coding does, and
/// fails exactly when that coding fails.
pub proof fn lemma_single_layer(enc: Encoding, b: Seq<u8>)
    ensures
        apply_chain(seq![enc], b) == spec_decoded(enc, b),
{
    assert(seq![enc][0] == enc);
    match spec_decoded(enc, b) {
        Some(next) => {
            assert(seq![enc].skip(1) =~= Seq::<Encoding>::empty());
            assert(apply_chain(seq![enc].skip(1), next) == Some(next));
        },
        None => {},
    }
}

/// Law: under a one-coding chain, a body that the coding decodes to
/// `plain` decodes wholly to `plain` — and once the `content-encoding`
/// header is stripped, looking it up in any header sequence finds nothing.
pub proof fn lemma_single_layer_round_trip(
    enc: Encoding,
    b: Seq<u8>,
    plain: Seq<u8>,
    hs: Seq<(Seq<u8>, Seq<u8>)>,
)
    requires
        spec_decoded(enc, b) == Some(plain),
    ensures
        apply_chain(seq![enc], b) == Some(plain),
        spec_lookup(spec_remove(hs, content_encoding_name()), content_encoding_name()) is None,
{
    lemma_single_layer(enc, b);
    lemma_remove_removes(hs, content_encoding_name());
}

/// Law: a two-layer chain applies its first coding to the body, then its
/// second to what the first produced — layers are undone in chain order.
pub proof fn lemma_two_layer(e1: Encoding, e2: Encoding, b: Seq<u8>)
    ensures
        apply_chain(seq![e1, e2], b) == (match spec_decoded(e1, b) {
            Some(mid) => spec_decoded(e2, mid),
            None => None,
        }),
{
    match spec_decoded(e1, b) {
        Some(mid) => {
            assert(seq![e1, e2].skip(1) =~= seq![e2]);
            lemma_single_layer(e2, mid);
        },
        None => {},
    }
}

/// Law: the parsed chain is the tokens of the header value in reverse: the
/// coding listed last — the outermost, last-applied layer — is undone
/// first.
pub proof fn lemma_parse_reverses(v: Seq<u8>)
    ensures
        spec_parse_chain(v) matches Some(chain) ==> {
            &&& chain.len() == spec_tokens(v).len()
            &&& forall|i: int| #![auto]
                0 <= i < chain.len() ==> Some(chain[i]) == spec_parse_token(
                    spec_tokens(v)[chain.len() - 1 - i],
                )
        },
{
}

/// Law: `identity` anywhere in a chain is a pure no-op — a chain with it
/// decodes every body exactly as the chain without it does.
pub proof fn lemma_identity_noop(pre: Seq<Encoding>, post: Seq<Encoding>, b: Seq<u8>)
    ensures
        apply_chain(pre + seq![Encoding::Identity] + post, b) == apply_chain(pre + post, b),
    decreases pre.len(),
{
    if pre.len() == 0 {
        assert(pre + seq![Encoding::Identity] + post =~= seq![Encoding::Identity] + post);
        assert(pre + post =~= post);
        assert((seq![Encoding::Identity] + post)[0] == Encoding::Identity);
        assert((seq![Encoding::Identity] + post).skip(1) =~= post);
    } else {
        let with_id = pre + seq![Encoding::Identity] + post;
        let without = pre + post;
        assert(with_id[0] == pre[0]);
        assert(without[0] == pre[0]);
        match spec_decoded(pre[0], b) {
            Some(next) => {
                lemma_identity_noop(pre.skip(1), post, next);
                assert(with_id.skip(1) =~= pre.skip(1) + seq![Encoding::Identity] + post);
                assert(without.skip(1) =~= pre.skip(1) + post);
            },
            None => {},
        }
    }
}

/// Whether a response came through a call untouched: same headers, same
/// body.
pub open spec fn unchanged(pre: Response, post: Response) -> bool {
    post.headers@ == pre.headers@ && post.body@ == pre.body@
}

impl Compression {
    /// Inserts the fixed capability header `accept-encoding: gzip, br,
    /// deflate, zstd` into the outgoing request, overwriting any prior
    /// value for that name.  It never fails.
    pub fn advertise(&self, req: &mut Request)
        ensures
            final(req).headers@ == spec_remove(old(req).headers@, accept_encoding_name()).push(
                (accept_encoding_name(), supported_encodings()),
            ),
    {
        let name = accept_encoding_bytes();
        let value = supported_encodings_bytes();
        req.headers.insert(name, value);
    }

    /// Decodes a compressed response body in place, as the
    /// `Content-Encoding` header directs.
    ///
    /// With no such header the response passes through untouched.  With
    /// one, its tokens are parsed into a chain of codings, the chain is
    /// applied to the body layer by layer, and once every layer has been
    /// undone the now-untrue `Content-Encoding` header is removed.  On any
    /// failure — an unrecognized token, or data a codec rejects — a typed
    /// error says exactly what failed and where, and the response is left
    /// exactly as it arrived.
    pub fn decode(&self, resp: &mut Response) -> (r: Result<(), DecodeError>)
        ensures
            spec_lookup(old(resp).headers@, content_encoding_name()) is None
                ==> r is Ok && unchanged(*old(resp), *final(resp)),
            spec_lookup(old(resp).headers@, content_encoding_name()) matches Some(hv)
                ==> spec_parse_chain(hv) is None
                ==> (r matches Err(DecodeError::InvalidEncodingChain { offending_token })
                    && offending_token@ == spec_first_bad(spec_tokens(hv))
                    && unchanged(*old(resp), *final(resp))),
            spec_lookup(old(resp).headers@, content_encoding_name()) matches Some(hv)
                ==> spec_parse_chain(hv) matches Some(chain)
                ==> apply_chain(chain, old(resp).body@) matches Some(plain)
                ==> r is Ok
                    && final(resp).body@ == plain
                    && final(resp).headers@ == spec_remove(old(resp).headers@, content_encoding_name()),
            spec_lookup(old(resp).headers@, content_encoding_name()) matches Some(hv)
                ==> spec_parse_chain(hv) matches Some(chain)
                ==> apply_chain(chain, old(resp).body@) is None
                ==> (r matches Err(DecodeError::DecodeFailed { encoding, chain_position, .. })
                    && chain_position < chain.len()
                    && encoding == chain[chain_position as int]
                    && apply_chain(chain.take(chain_position as int), old(resp).body@) is Some
                    && spec_decoded(encoding, apply_chain(chain.take(chain_position as int), old(resp).body@)->0) is None
                    && unchanged(*old(resp), *final(resp))),
    {
        let ce = content_encoding_bytes();
        let chain_found = match resp.headers.get(&ce) {
            None => None,
            Some(value) => Some(parse_chain(value)),
        };
        let chain = match chain_found {
            None => {
                return Ok(());
            },
            Some(Ok(c)) => c,
            Some(Err(e)) => {
                return Err(e);
            },
        };
        let ghost hv0 = spec_lookup(old(resp).headers@, content_encoding_name())->0;
        let ghost chain0 = chain@;
        let mut cur = copy_bytes(&resp.body);
        let mut i: usize = 0;
        proof {
            assert(chain0.take(0) =~= Seq::<Encoding>::empty());
        }
        while i < chain.len()
            invariant
                i <= chain@.len(),
                chain@ == chain0,
                spec_lookup(old(resp).headers@, content_encoding_name()) == Some(hv0),
                spec_parse_chain(hv0) == Some(chain0),
                resp.headers@ == old(resp).headers@,
                resp.body@ == old(resp).body@,
                apply_chain(chain0.take(i as int), old(resp).body@) == Some(cur@),
            decreases chain@.len() - i,
        {
            match decode_step(chain[i], &cur) {
                Ok(next) => {
                    proof {
                        lemma_apply_chain_split(
                            chain0.take(i as int + 1),
                            old(resp).body@,
                            i as int,
                        );
                        assert(chain0.take(i as int + 1).take(i as int) =~= chain0.take(i as int));
                        assert(chain0.take(i as int + 1).skip(i as int) =~= seq![
                            chain0[i as int],
                        ]);
                        lemma_single_layer(chain0[i as int], cur@);
                    }
                    cur = next;
                },
                Err(cause) => {
                    proof {
                        lemma_apply_chain_split(chain0, old(resp).body@, i as int);
                        assert(chain0.skip(i as int)[0] == chain0[i as int]);
                    }
                    return Err(
                        DecodeError::DecodeFailed {
                            encoding: chain[i],
                            chain_position: i,
                            cause,
                        },
                    );
                },
            }
            i += 1;
        }
        proof {
            assert(chain0.take(chain0.len() as int) =~= chain0);
        }
        resp.body = cur;
        resp.headers.remove(&ce);
        Ok(())
    }
}

} // verus!

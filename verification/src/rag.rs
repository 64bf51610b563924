//! The retrieval-augmented chat schema: the embedding request wrapper, the
//! retrieval response shapes and the chunking pass-through shapes, each with
//! its JSON wire form.
use vstd::prelude::*;
use crate::chat::{
    copy_messages, copy_opt_bias, copy_opt_format, copy_opt_number, copy_opt_string,
    copy_opt_strings, copy_opt_tools, view_bias, view_messages, view_opt_number, view_opt_string,
    view_tools, ChatCompletionRequest, ChatCompletionRequestMessage, ChatCompletionRequestMessageV,
    ChatCompletionRequestSampling, ChatCompletionRequestV, ChatResponseFormat, ChatResponseFormatV,
    StreamOptions, StreamOptionsV, Tool, ToolChoice, ToolV,
};
use crate::defaults::{
    dummy_chat_model, dummy_embedding_model, float_format, spec_dummy_chat_model,
    spec_dummy_embedding_model, spec_float_format,
};
use crate::embeddings::{
    enc_embedding, enc_embedding_exec, p_embedding, p_embedding_exec, lemma_p_embedding,
    EmbeddingRequest, EmbeddingRequestV, InputText, InputTextV,
};
use crate::json::{
    dec_digits, enc_key, enc_str_array, enc_string, is_digit_char, is_number_char, number_token_wf,
    p_key, p_number, p_sep_key, p_str_array, p_string, p_usize, lemma_p_key, lemma_p_number,
    lemma_p_sep_end, lemma_p_sep_key, lemma_p_str_array, lemma_p_string, lemma_p_usize,
    chars_eq_str, enc_key_exec, enc_str_array_exec, enc_string_exec, enc_u64_exec, p_key_exec,
    p_number_exec, p_sep_key_exec, p_str_array_exec, p_string_exec, p_usize_exec,
    string_from_chars, lemma_skip_drop,
};
use crate::number::NumberText;

verus! {

// ===========================================================================
// the embedding request wrapper
// ===========================================================================

/// An embedding request coupled with the vector store it is destined for.
#[derive(Debug, Clone, PartialEq)]
pub struct RagEmbeddingRequest {
    /// The embedding request itself; serialized under the key `embeddings`.
    pub embedding_request: EmbeddingRequest,
    /// The URL of the vector-store server; serialized under the key `url`.
    pub qdrant_url: String,
    /// The target collection; serialized under the key `collection_name`.
    pub qdrant_collection_name: String,
}

pub struct RagEmbeddingRequestV {
    pub embedding_request: EmbeddingRequestV,
    pub qdrant_url: Seq<char>,
    pub qdrant_collection_name: Seq<char>,
}

impl View for RagEmbeddingRequest {
    type V = RagEmbeddingRequestV;

    open spec fn view(&self) -> RagEmbeddingRequestV {
        RagEmbeddingRequestV {
            embedding_request: self.embedding_request@,
            qdrant_url: self.qdrant_url@,
            qdrant_collection_name: self.qdrant_collection_name@,
        }
    }
}

impl RagEmbeddingRequest {
    /// Wraps the given input texts verbatim under the placeholder embedding
    /// model, with no encoding format and no user id, aimed at the given
    /// store and collection. An empty input list is accepted and forwarded.
    pub fn new(input: &[String], qdrant_url: &str, qdrant_collection_name: &str) -> (r:
        RagEmbeddingRequest)
        ensures
            r@.embedding_request.model == spec_dummy_embedding_model(),
            r@.embedding_request.input == InputTextV::Multiple(
                input@.map_values(|s: String| s@),
            ),
            r@.embedding_request.encoding_format is None,
            r@.embedding_request.user is None,
            r@.qdrant_url == qdrant_url@,
            r@.qdrant_collection_name == qdrant_collection_name@,
    {
        let mut texts: Vec<String> = Vec::new();
        let mut k: usize = 0;
        while k < input.len()
            invariant
                0 <= k <= input@.len(),
                texts@.len() == k,
                forall|m: int| 0 <= m < k ==> texts@[m]@ == input@[m]@,
            decreases input@.len() - k,
        {
            texts.push(String::from_str(input[k].as_str()));
            k = k + 1;
        }
        assert(texts.deep_view() =~= input@.map_values(|s: String| s@));
        RagEmbeddingRequest {
            embedding_request: EmbeddingRequest {
                model: String::from_str(dummy_embedding_model()),
                input: InputText::Multiple(texts),
                encoding_format: None,
                user: None,
            },
            qdrant_url: String::from_str(qdrant_url),
            qdrant_collection_name: String::from_str(qdrant_collection_name),
        }
    }

    /// Wraps a caller-supplied embedding request unchanged, attaching the
    /// store target.
    pub fn from_embedding_request(
        embedding_request: EmbeddingRequest,
        qdrant_url: &str,
        qdrant_collection_name: &str,
    ) -> (r: RagEmbeddingRequest)
        ensures
            r@.embedding_request == embedding_request@,
            r@.qdrant_url == qdrant_url@,
            r@.qdrant_collection_name == qdrant_collection_name@,
    {
        RagEmbeddingRequest {
            embedding_request,
            qdrant_url: String::from_str(qdrant_url),
            qdrant_collection_name: String::from_str(qdrant_collection_name),
        }
    }

    /// Encodes to the wire form `{"embeddings":…,"url":…,"collection_name":…}`.
    pub fn to_json(&self) -> (r: String)
        ensures
            r@ == enc_rag_embedding(self@),
    {
        let mut out: Vec<char> = Vec::new();
        out.push('{');
        enc_key_exec(&mut out, "embeddings");
        enc_embedding_exec(&mut out, &self.embedding_request);
        out.push(',');
        enc_key_exec(&mut out, "url");
        enc_string_exec(&mut out, self.qdrant_url.as_str());
        out.push(',');
        enc_key_exec(&mut out, "collection_name");
        enc_string_exec(&mut out, self.qdrant_collection_name.as_str());
        out.push('}');
        assert(out@ =~= enc_rag_embedding(self@));
        string_from_chars(&out)
    }

    /// Decodes the wire form; `None` exactly on text that is not a canonical
    /// encoding of some wrapper.
    pub fn from_json(s: &str) -> (r: Option<RagEmbeddingRequest>)
        ensures
            r is Some <==> spec_decode_rag_embedding(s@) is Some,
            r is Some ==> r.unwrap()@ == spec_decode_rag_embedding(s@).unwrap(),
    {
        let len = s.unicode_len();
        if len == 0 {
            return None;
        }
        if s.get_char(0) != '{' {
            assert(s@.skip(0)[0] != '{');
            assert(s@.skip(0) =~= s@);
            return None;
        }
        assert(s@.skip(0) =~= s@);
        proof {
            lemma_skip_drop(s@, 0);
        }
        let k1 = match p_key_exec(s, 1) {
            Some(p) => p,
            None => {
                return None;
            },
        };
        if !chars_eq_str(&k1.0, "embeddings") {
            return None;
        }
        let (emb, j1) = match p_embedding_exec(s, k1.1) {
            Some(p) => p,
            None => {
                return None;
            },
        };
        let (k2, j2) = match p_sep_key_exec(s, j1) {
            Some((Some(k), j)) => (k, j),
            _ => {
                return None;
            },
        };
        if !chars_eq_str(&k2, "url") {
            return None;
        }
        let (url_cs, j3) = match p_string_exec(s, j2) {
            Some(p) => p,
            None => {
                return None;
            },
        };
        let (k4, j4) = match p_sep_key_exec(s, j3) {
            Some((Some(k), j)) => (k, j),
            _ => {
                return None;
            },
        };
        if !chars_eq_str(&k4, "collection_name") {
            return None;
        }
        let (coll_cs, j5) = match p_string_exec(s, j4) {
            Some(p) => p,
            None => {
                return None;
            },
        };
        let j6 = match p_sep_key_exec(s, j5) {
            Some((None, j)) => j,
            _ => {
                return None;
            },
        };
        if j6 != len {
            return None;
        }
        Some(
            RagEmbeddingRequest {
                embedding_request: emb,
                qdrant_url: string_from_chars(&url_cs),
                qdrant_collection_name: string_from_chars(&coll_cs),
            },
        )
    }
}

/// The wire form of the embedding request wrapper.
pub open spec fn enc_rag_embedding(m: RagEmbeddingRequestV) -> Seq<char> {
    seq!['{'] + enc_key("embeddings"@) + enc_embedding(m.embedding_request) + seq![',']
        + enc_key("url"@) + enc_string(m.qdrant_url) + seq![','] + enc_key("collection_name"@)
        + enc_string(m.qdrant_collection_name) + seq!['}']
}

pub open spec fn p_rag_embedding(t: Seq<char>) -> Option<(RagEmbeddingRequestV, Seq<char>)> {
    if t.len() > 0 && t[0] == '{' {
        match p_key(t.drop_first()) {
            Some((k1, t1)) => if k1 == "embeddings"@ {
                match p_embedding(t1) {
                    Some((emb, t2)) => match p_sep_key(t2) {
                        Some((Some(k2), t3)) => if k2 == "url"@ {
                            match p_string(t3) {
                                Some((url, t4)) => match p_sep_key(t4) {
                                    Some((Some(k5), t5)) => if k5 == "collection_name"@ {
                                        match p_string(t5) {
                                            Some((coll, t6)) => match p_sep_key(t6) {
                                                Some((None, t7)) => Some(
                                                    (
                                                        RagEmbeddingRequestV {
                                                            embedding_request: emb,
                                                            qdrant_url: url,
                                                            qdrant_collection_name: coll,
                                                        },
                                                        t7,
                                                    ),
                                                ),
                                                _ => None,
                                            },
                                            None => None,
                                        }
                                    } else {
                                        None
                                    },
                                    _ => None,
                                },
                                None => None,
                            }
                        } else {
                            None
                        },
                        _ => None,
                    },
                    None => None,
                }
            } else {
                None
            },
            None => None,
        }
    } else {
        None
    }
}

pub open spec fn spec_decode_rag_embedding(t: Seq<char>) -> Option<RagEmbeddingRequestV> {
    match p_rag_embedding(t) {
        Some((m, rest)) => if rest.len() == 0 {
            Some(m)
        } else {
            None
        },
        None => None,
    }
}

#[verifier::rlimit(100)]
proof fn lemma_p_rag_embedding(m: RagEmbeddingRequestV, r: Seq<char>)
    ensures
        p_rag_embedding(enc_rag_embedding(m) + r) == Some((m, r)),
{
    reveal_strlit("embeddings");
    reveal_strlit("url");
    reveal_strlit("collection_name");
    let t = enc_rag_embedding(m) + r;
    let e_emb = enc_embedding(m.embedding_request);
    let e_url = enc_string(m.qdrant_url);
    let e_coll = enc_string(m.qdrant_collection_name);
    let rest3 = (seq![','] + enc_key("collection_name"@) + e_coll) + (seq!['}'] + r);
    let rest2 = (seq![','] + enc_key("url"@) + e_url) + rest3;
    let rest1 = e_emb + rest2;
    assert(t[0] == '{');
    assert(t.drop_first() =~= enc_key("embeddings"@) + rest1);
    lemma_p_key("embeddings"@, rest1);
    lemma_p_embedding(m.embedding_request, rest2);
    lemma_p_sep_key("url"@, e_url, rest3);
    lemma_p_string(m.qdrant_url, rest3);
    lemma_p_sep_key("collection_name"@, e_coll, seq!['}'] + r);
    lemma_p_string(m.qdrant_collection_name, seq!['}'] + r);
    lemma_p_sep_end(r);
}

/// Encoding an embedding request wrapper and decoding the text yields the
/// same value.
pub proof fn lemma_rag_embedding_round_trip(m: RagEmbeddingRequestV)
    ensures
        spec_decode_rag_embedding(enc_rag_embedding(m)) == Some(m),
{
    lemma_p_rag_embedding(m, Seq::empty());
    assert(enc_rag_embedding(m) + Seq::<char>::empty() =~= enc_rag_embedding(m));
}

// ===========================================================================
// retrieval response shapes
// ===========================================================================

/// One retrieved source with its similarity score.
#[derive(Debug, Clone, PartialEq)]
pub struct RagScoredPoint {
    /// Source of the context.
    pub source: String,
    /// The point's similarity to the query vector.
    pub score: NumberText,
}

pub struct RagScoredPointV {
    pub source: Seq<char>,
    pub score: Seq<char>,
}

impl View for RagScoredPoint {
    type V = RagScoredPointV;

    open spec fn view(&self) -> RagScoredPointV {
        RagScoredPointV { source: self.source@, score: self.score@ }
    }
}

impl RagScoredPointV {
    pub open spec fn wf(self) -> bool {
        number_token_wf(self.score)
    }
}

pub open spec fn enc_scored_point(m: RagScoredPointV) -> Seq<char> {
    seq!['{'] + enc_key("source"@) + enc_string(m.source) + seq![','] + enc_key("score"@) + m.score
        + seq!['}']
}

pub open spec fn p_scored_point(t: Seq<char>) -> Option<(RagScoredPointV, Seq<char>)> {
    if t.len() > 0 && t[0] == '{' {
        match p_key(t.drop_first()) {
            Some((k1, t1)) => if k1 == "source"@ {
                match p_string(t1) {
                    Some((source, t2)) => match p_sep_key(t2) {
                        Some((Some(k2), t3)) => if k2 == "score"@ {
                            match p_number(t3) {
                                Some((score, t4)) => match p_sep_key(t4) {
                                    Some((None, t5)) => Some(
                                        (RagScoredPointV { source, score }, t5),
                                    ),
                                    _ => None,
                                },
                                None => None,
                            }
                        } else {
                            None
                        },
                        _ => None,
                    },
                    None => None,
                }
            } else {
                None
            },
            None => None,
        }
    } else {
        None
    }
}

proof fn lemma_p_scored_point(m: RagScoredPointV, r: Seq<char>)
    requires
        m.wf(),
    ensures
        p_scored_point(enc_scored_point(m) + r) == Some((m, r)),
{
    reveal_strlit("source");
    reveal_strlit("score");
    let t = enc_scored_point(m) + r;
    let rest2 = m.score + (seq!['}'] + r);
    let rest1 = enc_string(m.source) + ((seq![','] + enc_key("score"@) + m.score) + (seq!['}']
        + r));
    assert(t[0] == '{');
    assert(t.drop_first() =~= enc_key("source"@) + rest1);
    lemma_p_key("source"@, rest1);
    lemma_p_string(m.source, (seq![','] + enc_key("score"@) + m.score) + (seq!['}'] + r));
    lemma_p_sep_key("score"@, m.score, seq!['}'] + r);
    assert((seq!['}'] + r)[0] == '}');
    lemma_p_number(m.score, seq!['}'] + r);
    lemma_p_sep_end(r);
}

fn enc_scored_point_exec(out: &mut Vec<char>, m: &RagScoredPoint)
    ensures
        final(out)@ == old(out)@ + enc_scored_point(m@),
{
    out.push('{');
    enc_key_exec(out, "source");
    enc_string_exec(out, m.source.as_str());
    out.push(',');
    enc_key_exec(out, "score");
    let n = m.score.text.unicode_len();
    let mut k: usize = 0;
    let ghost mid = out@;
    while k < n
        invariant
            0 <= k <= n,
            n == m.score.text@.len(),
            out@ == mid + m.score.text@.take(k as int),
        decreases n - k,
    {
        out.push(m.score.text.as_str().get_char(k));
        assert(out@ =~= mid + m.score.text@.take(k + 1));
        k = k + 1;
    }
    assert(m.score.text@.take(n as int) =~= m.score.text@);
    out.push('}');
    assert(out@ =~= old(out)@ + enc_scored_point(m@));
}

fn p_scored_point_exec(t: &str, i: usize) -> (r: Option<(RagScoredPoint, usize)>)
    requires
        i <= t@.len(),
    ensures
        match r {
            Some((v, j)) => i < j <= t@.len() && p_scored_point(t@.skip(i as int)) == Some(
                (v@, t@.skip(j as int)),
            ),
            None => p_scored_point(t@.skip(i as int)) is None,
        },
{
    let len = t.unicode_len();
    if i >= len {
        return None;
    }
    if t.get_char(i) != '{' {
        assert(t@.skip(i as int)[0] != '{');
        return None;
    }
    assert(t@.skip(i as int)[0] == '{');
    proof {
        lemma_skip_drop(t@, i as int);
    }
    let (k1, j1) = match p_key_exec(t, i + 1) {
        Some(p) => p,
        None => {
            return None;
        },
    };
    if !chars_eq_str(&k1, "source") {
        return None;
    }
    let (src_cs, j2) = match p_string_exec(t, j1) {
        Some(p) => p,
        None => {
            return None;
        },
    };
    let (k3, j3) = match p_sep_key_exec(t, j2) {
        Some((Some(k), j)) => (k, j),
        _ => {
            return None;
        },
    };
    if !chars_eq_str(&k3, "score") {
        return None;
    }
    let (num_cs, j4) = match p_number_exec(t, j3) {
        Some(p) => p,
        None => {
            return None;
        },
    };
    let j5 = match p_sep_key_exec(t, j4) {
        Some((None, j)) => j,
        _ => {
            return None;
        },
    };
    Some(
        (
            RagScoredPoint {
                source: string_from_chars(&src_cs),
                score: NumberText { text: string_from_chars(&num_cs) },
            },
            j5,
        ),
    )
}

// ---------------------------------------------------------------------------
// arrays of scored points
// ---------------------------------------------------------------------------

pub open spec fn points_wf(l: Seq<RagScoredPointV>) -> bool {
    forall|i: int| 0 <= i < l.len() ==> (#[trigger] l[i]).wf()
}

pub open spec fn enc_point_items(l: Seq<RagScoredPointV>) -> Seq<char>
    decreases l.len(),
{
    if l.len() == 0 {
        Seq::empty()
    } else if l.len() == 1 {
        enc_scored_point(l[0])
    } else {
        enc_scored_point(l[0]) + seq![','] + enc_point_items(l.drop_first())
    }
}

pub open spec fn enc_point_array(l: Seq<RagScoredPointV>) -> Seq<char> {
    seq!['['] + enc_point_items(l) + seq![']']
}

pub open spec fn p_point_items(t: Seq<char>) -> Option<(Seq<RagScoredPointV>, Seq<char>)>
    decreases t.len(),
{
    match p_scored_point(t) {
        Some((p, r)) => {
            if r.len() == 0 {
                None
            } else if r[0] == ']' {
                Some((seq![p], r.drop_first()))
            } else if r[0] == ',' && r.len() < t.len() {
                match p_point_items(r.drop_first()) {
                    Some((l, r2)) => Some((seq![p] + l, r2)),
                    None => None,
                }
            } else {
                None
            }
        },
        None => None,
    }
}

pub open spec fn p_point_array(t: Seq<char>) -> Option<(Seq<RagScoredPointV>, Seq<char>)> {
    if t.len() > 0 && t[0] == '[' {
        let t1 = t.drop_first();
        if t1.len() > 0 && t1[0] == ']' {
            Some((Seq::empty(), t1.drop_first()))
        } else {
            p_point_items(t1)
        }
    } else {
        None
    }
}

proof fn lemma_p_point_items(l: Seq<RagScoredPointV>, r: Seq<char>)
    requires
        l.len() >= 1,
        points_wf(l),
    ensures
        p_point_items(enc_point_items(l) + (seq![']'] + r)) == Some((l, r)),
    decreases l.len(),
{
    if l.len() == 1 {
        let t = enc_point_items(l) + (seq![']'] + r);
        assert(t =~= enc_scored_point(l[0]) + (seq![']'] + r));
        lemma_p_scored_point(l[0], seq![']'] + r);
        assert((seq![']'] + r)[0] == ']');
        assert((seq![']'] + r).drop_first() =~= r);
        assert(seq![l[0]] =~= l);
    } else {
        let t = enc_point_items(l) + (seq![']'] + r);
        let tail = enc_point_items(l.drop_first()) + (seq![']'] + r);
        assert(t =~= enc_scored_point(l[0]) + (seq![','] + tail));
        lemma_p_scored_point(l[0], seq![','] + tail);
        let r1 = seq![','] + tail;
        assert(r1[0] == ',');
        assert(r1.drop_first() =~= tail);
        assert(points_wf(l.drop_first()));
        lemma_p_point_items(l.drop_first(), r);
        assert(seq![l[0]] + l.drop_first() =~= l);
    }
}

proof fn lemma_p_point_array(l: Seq<RagScoredPointV>, r: Seq<char>)
    requires
        points_wf(l),
    ensures
        p_point_array(enc_point_array(l) + r) == Some((l, r)),
{
    let t = enc_point_array(l) + r;
    assert(t[0] == '[');
    if l.len() == 0 {
        assert(t.drop_first() =~= seq![']'] + r);
        assert((seq![']'] + r)[0] == ']');
        assert((seq![']'] + r).drop_first() =~= r);
        assert(Seq::<RagScoredPointV>::empty() =~= l);
    } else {
        assert(t.drop_first() =~= enc_point_items(l) + (seq![']'] + r));
        lemma_p_point_items(l, r);
        if l.len() == 1 {
            assert(enc_point_items(l) == enc_scored_point(l[0]));
        }
        assert(enc_point_items(l)[0] == '{');
        assert(t.drop_first()[0] == '{');
    }
}

proof fn lemma_enc_point_items_snoc(l: Seq<RagScoredPointV>, k: int)
    requires
        1 <= k < l.len(),
    ensures
        enc_point_items(l.take(k + 1)) == enc_point_items(l.take(k)) + seq![',']
            + enc_scored_point(l[k]),
    decreases k,
{
    if k == 1 {
        let a = l.take(2);
        assert(a.len() == 2);
        assert(a.drop_first() =~= seq![l[1]]);
        assert(enc_point_items(seq![l[1]]) == enc_scored_point(l[1]));
        assert(l.take(1) =~= seq![l[0]]);
        assert(enc_point_items(l.take(1)) == enc_scored_point(l[0]));
        assert(a[0] == l[0]);
        assert(enc_point_items(a) == enc_scored_point(l[0]) + seq![','] + enc_scored_point(l[1]));
    } else {
        let a = l.take(k + 1);
        assert(a.len() == k + 1 >= 3);
        assert(a.drop_first() =~= l.drop_first().take(k));
        lemma_enc_point_items_snoc(l.drop_first(), k - 1);
        assert(l.drop_first()[k - 1] == l[k]);
        assert(l.drop_first().take(k - 1) =~= l.take(k).drop_first());
        assert(enc_point_items(a) == enc_scored_point(a[0]) + seq![','] + enc_point_items(
            a.drop_first(),
        ));
        assert(enc_point_items(l.take(k)) == enc_scored_point(l[0]) + seq![','] + enc_point_items(
            l.take(k).drop_first(),
        ));
        assert(enc_scored_point(l[0]) + seq![','] + (enc_point_items(l.take(k).drop_first())
            + seq![','] + enc_scored_point(l[k])) =~= (enc_scored_point(l[0]) + seq![',']
            + enc_point_items(l.take(k).drop_first())) + seq![','] + enc_scored_point(l[k]));
    }
}

pub open spec fn view_points(l: Seq<RagScoredPoint>) -> Seq<RagScoredPointV> {
    l.map_values(|p: RagScoredPoint| p@)
}

fn enc_point_array_exec(out: &mut Vec<char>, l: &Vec<RagScoredPoint>)
    ensures
        final(out)@ == old(out)@ + enc_point_array(view_points(l@)),
{
    out.push('[');
    let n = l.len();
    let mut k: usize = 0;
    while k < n
        invariant
            0 <= k <= n,
            l@.len() == n,
            out@ == old(out)@ + seq!['['] + enc_point_items(view_points(l@).take(k as int)),
        decreases n - k,
    {
        let ghost dv = view_points(l@);
        if k == 0 {
            enc_scored_point_exec(out, &l[0]);
            proof {
                assert(dv.take(0int) =~= Seq::<RagScoredPointV>::empty());
                assert(enc_point_items(dv.take(0int)) == Seq::<char>::empty());
                assert(dv.take(1int) =~= seq![dv[0int]]);
                assert(enc_point_items(dv.take(1int)) == enc_scored_point(dv[0int]));
                assert(dv[0int] == l@[0int]@);
                assert(out@ =~= old(out)@ + seq!['['] + enc_point_items(dv.take(1int)));
            }
        } else {
            out.push(',');
            enc_scored_point_exec(out, &l[k]);
            proof {
                lemma_enc_point_items_snoc(dv, k as int);
                assert(dv[k as int] == l@[k as int]@);
                assert(out@ =~= old(out)@ + seq!['['] + enc_point_items(dv.take(k + 1)));
            }
        }
        k = k + 1;
    }
    out.push(']');
    proof {
        assert(view_points(l@).take(n as int) =~= view_points(l@));
        assert(out@ =~= old(out)@ + enc_point_array(view_points(l@)));
    }
}

fn p_point_array_exec(t: &str, i: usize) -> (r: Option<(Vec<RagScoredPoint>, usize)>)
    requires
        i <= t@.len(),
    ensures
        match r {
            Some((v, j)) => i < j <= t@.len() && p_point_array(t@.skip(i as int)) == Some(
                (view_points(v@), t@.skip(j as int)),
            ),
            None => p_point_array(t@.skip(i as int)) is None,
        },
{
    let len = t.unicode_len();
    if i >= len {
        return None;
    }
    if t.get_char(i) != '[' {
        assert(t@.skip(i as int)[0] != '[');
        return None;
    }
    assert(t@.skip(i as int)[0] == '[');
    proof {
        lemma_skip_drop(t@, i as int);
    }
    if i + 1 < len && t.get_char(i + 1) == ']' {
        proof {
            lemma_skip_drop(t@, i + 1);
        }
        let out: Vec<RagScoredPoint> = Vec::new();
        assert(view_points(out@) =~= Seq::<RagScoredPointV>::empty());
        return Some((out, i + 2));
    }
    assert(t@.skip(i + 1).len() > 0 ==> t@.skip(i + 1)[0] != ']');
    let mut acc: Vec<RagScoredPoint> = Vec::new();
    let mut j: usize = i + 1;
    assert(view_points(acc@) =~= Seq::<RagScoredPointV>::empty());
    loop
        invariant
            i + 1 <= j <= len,
            len == t@.len(),
            match p_point_items(t@.skip(j as int)) {
                Some((l, rest)) => p_point_array(t@.skip(i as int)) == Some(
                    (view_points(acc@) + l, rest),
                ),
                None => p_point_array(t@.skip(i as int)) is None,
            },
        decreases len - j,
    {
        let ghost tj = t@.skip(j as int);
        match p_scored_point_exec(t, j) {
            None => {
                return None;
            },
            Some((p, j2)) => {
                if j2 >= len {
                    return None;
                }
                let c = t.get_char(j2);
                assert(t@.skip(j2 as int)[0] == c);
                let ghost pv = p@;
                if c == ']' {
                    let ghost olddv = view_points(acc@);
                    acc.push(p);
                    proof {
                        lemma_skip_drop(t@, j2 as int);
                        assert(p_point_items(tj) == Some((seq![pv], t@.skip(j2 + 1))));
                        assert(view_points(acc@) =~= olddv + seq![pv]);
                    }
                    return Some((acc, j2 + 1));
                } else if c == ',' {
                    let ghost olddv = view_points(acc@);
                    acc.push(p);
                    proof {
                        lemma_skip_drop(t@, j2 as int);
                        assert(t@.skip(j2 as int).len() < tj.len());
                        match p_point_items(t@.skip(j2 + 1)) {
                            Some((l, rest)) => {
                                assert(p_point_items(tj) == Some((seq![pv] + l, rest)));
                                assert(view_points(acc@) =~= olddv + seq![pv]);
                                assert((olddv + seq![pv]) + l =~= olddv + (seq![pv] + l));
                            },
                            None => {},
                        }
                    }
                    j = j2 + 1;
                } else {
                    return None;
                }
            },
        }
    }
}

// ===========================================================================
// the retrieval result
// ===========================================================================

/// The result of the retrieval step: the scored points found, if a search
/// ran, echoing the requested limit and score threshold.
#[derive(Debug, Clone, PartialEq)]
pub struct RetrieveObject {
    /// The retrieved sources; the key is omitted entirely when absent.
    pub points: Option<Vec<RagScoredPoint>>,
    /// The number of similar points that were asked for.
    pub limit: usize,
    /// The score threshold.
    pub score_threshold: NumberText,
}

pub struct RetrieveObjectV {
    pub points: Option<Seq<RagScoredPointV>>,
    pub limit: usize,
    pub score_threshold: Seq<char>,
}

impl View for RetrieveObject {
    type V = RetrieveObjectV;

    open spec fn view(&self) -> RetrieveObjectV {
        RetrieveObjectV {
            points: match self.points {
                Some(l) => Some(view_points(l@)),
                None => None,
            },
            limit: self.limit,
            score_threshold: self.score_threshold@,
        }
    }
}

impl RetrieveObjectV {
    pub open spec fn wf(self) -> bool {
        &&& number_token_wf(self.score_threshold)
        &&& match self.points {
            Some(l) => points_wf(l),
            None => true,
        }
    }
}

/// The leading `points` member, present only when a search ran.
pub open spec fn opt_points_field(v: Option<Seq<RagScoredPointV>>) -> Seq<char> {
    match v {
        Some(l) => enc_key("points"@) + enc_point_array(l) + seq![','],
        None => Seq::empty(),
    }
}

pub open spec fn enc_retrieve(m: RetrieveObjectV) -> Seq<char> {
    seq!['{'] + opt_points_field(m.points) + enc_key("limit"@) + dec_digits(m.limit as nat)
        + seq![','] + enc_key("score_threshold"@) + m.score_threshold + seq!['}']
}

pub open spec fn p_retrieve_tail(points: Option<Seq<RagScoredPointV>>, t: Seq<char>) -> Option<
    (RetrieveObjectV, Seq<char>),
> {
    match p_usize(t) {
        Some((limit, t1)) => match p_sep_key(t1) {
            Some((Some(k), t2)) => if k == "score_threshold"@ {
                match p_number(t2) {
                    Some((st, t3)) => match p_sep_key(t3) {
                        Some((None, t4)) => Some(
                            (RetrieveObjectV { points, limit, score_threshold: st }, t4),
                        ),
                        _ => None,
                    },
                    None => None,
                }
            } else {
                None
            },
            _ => None,
        },
        None => None,
    }
}

pub open spec fn p_retrieve(t: Seq<char>) -> Option<(RetrieveObjectV, Seq<char>)> {
    if t.len() > 0 && t[0] == '{' {
        match p_key(t.drop_first()) {
            Some((k, t1)) => if k == "points"@ {
                match p_point_array(t1) {
                    Some((l, t2)) => match p_sep_key(t2) {
                        Some((Some(k2), t3)) => if k2 == "limit"@ {
                            p_retrieve_tail(Some(l), t3)
                        } else {
                            None
                        },
                        _ => None,
                    },
                    None => None,
                }
            } else if k == "limit"@ {
                p_retrieve_tail(None, t1)
            } else {
                None
            },
            None => None,
        }
    } else {
        None
    }
}

pub open spec fn spec_decode_retrieve(t: Seq<char>) -> Option<RetrieveObjectV> {
    match p_retrieve(t) {
        Some((m, rest)) => if rest.len() == 0 {
            Some(m)
        } else {
            None
        },
        None => None,
    }
}

#[verifier::rlimit(100)]
proof fn lemma_p_retrieve(m: RetrieveObjectV, r: Seq<char>)
    requires
        m.wf(),
    ensures
        p_retrieve(enc_retrieve(m) + r) == Some((m, r)),
{
    reveal_strlit("points");
    reveal_strlit("limit");
    reveal_strlit("score_threshold");
    let t = enc_retrieve(m) + r;
    let e_limit = dec_digits(m.limit as nat);
    let rest2 = (seq![','] + enc_key("score_threshold"@) + m.score_threshold) + (seq!['}'] + r);
    let rest1 = e_limit + rest2;
    assert(t[0] == '{');
    crate::json::lemma_dec_digits_shape(m.limit as nat);
    match m.points {
        Some(l) => {
            let after_arr = (seq![','] + enc_key("limit"@) + e_limit) + rest2;
            assert(t.drop_first() =~= enc_key("points"@) + (enc_point_array(l) + after_arr));
            lemma_p_key("points"@, enc_point_array(l) + after_arr);
            lemma_p_point_array(l, after_arr);
            lemma_p_sep_key("limit"@, e_limit, rest2);
            assert("points"@ != "limit"@);
            lemma_p_usize(m.limit, rest2);
            assert(rest2[0] == ',');
            lemma_p_sep_key("score_threshold"@, m.score_threshold, seq!['}'] + r);
            lemma_p_number(m.score_threshold, seq!['}'] + r);
            assert((seq!['}'] + r)[0] == '}');
            lemma_p_sep_end(r);
        },
        None => {
            assert(t.drop_first() =~= enc_key("limit"@) + rest1);
            lemma_p_key("limit"@, rest1);
            assert("limit"@ != "points"@);
            lemma_p_usize(m.limit, rest2);
            assert(rest2[0] == ',');
            lemma_p_sep_key("score_threshold"@, m.score_threshold, seq!['}'] + r);
            lemma_p_number(m.score_threshold, seq!['}'] + r);
            assert((seq!['}'] + r)[0] == '}');
            lemma_p_sep_end(r);
        },
    }
}

/// Encoding a retrieval result and decoding the text yields the same value.
pub proof fn lemma_retrieve_round_trip(m: RetrieveObjectV)
    requires
        m.wf(),
    ensures
        spec_decode_retrieve(enc_retrieve(m)) == Some(m),
{
    lemma_p_retrieve(m, Seq::empty());
    assert(enc_retrieve(m) + Seq::<char>::empty() =~= enc_retrieve(m));
}

/// When no search ran, the `points` key does not appear: the wire form is
/// exactly the object holding `limit` and `score_threshold` alone.
pub proof fn lemma_points_key_omitted(m: RetrieveObjectV)
    requires
        m.points is None,
    ensures
        enc_retrieve(m) == seq!['{'] + enc_key("limit"@) + dec_digits(m.limit as nat) + seq![',']
            + enc_key("score_threshold"@) + m.score_threshold + seq!['}'],
{
    assert(enc_retrieve(m) =~= seq!['{'] + enc_key("limit"@) + dec_digits(m.limit as nat)
        + seq![','] + enc_key("score_threshold"@) + m.score_threshold + seq!['}']);
}

impl RetrieveObject {
    /// Encodes to the wire form, omitting `points` when it is absent.
    pub fn to_json(&self) -> (r: String)
        ensures
            r@ == enc_retrieve(self@),
    {
        let mut out: Vec<char> = Vec::new();
        out.push('{');
        match &self.points {
            Some(l) => {
                enc_key_exec(&mut out, "points");
                enc_point_array_exec(&mut out, l);
                out.push(',');
            },
            None => {},
        }
        enc_key_exec(&mut out, "limit");
        enc_u64_exec(&mut out, self.limit as u64);
        out.push(',');
        enc_key_exec(&mut out, "score_threshold");
        let st = &self.score_threshold.text;
        let n = st.unicode_len();
        let mut k: usize = 0;
        let ghost mid = out@;
        while k < n
            invariant
                0 <= k <= n,
                n == st@.len(),
                out@ == mid + st@.take(k as int),
            decreases n - k,
        {
            out.push(st.as_str().get_char(k));
            assert(out@ =~= mid + st@.take(k + 1));
            k = k + 1;
        }
        assert(st@.take(n as int) =~= st@);
        out.push('}');
        assert(out@ =~= enc_retrieve(self@));
        string_from_chars(&out)
    }

    /// Decodes the wire form; `None` exactly on text that is not a canonical
    /// encoding of some retrieval result. In particular a negative or
    /// oversized `limit` is rejected, not clamped.
    pub fn from_json(s: &str) -> (r: Option<RetrieveObject>)
        ensures
            r is Some <==> spec_decode_retrieve(s@) is Some,
            r is Some ==> r.unwrap()@ == spec_decode_retrieve(s@).unwrap(),
    {
        let len = s.unicode_len();
        if len == 0 {
            return None;
        }
        if s.get_char(0) != '{' {
            assert(s@.skip(0)[0] != '{');
            assert(s@.skip(0) =~= s@);
            return None;
        }
        assert(s@.skip(0) =~= s@);
        proof {
            lemma_skip_drop(s@, 0);
        }
        let (k1, j1) = match p_key_exec(s, 1) {
            Some(p) => p,
            None => {
                return None;
            },
        };
        let (points, j2) = if chars_eq_str(&k1, "points") {
            let (l, ja) = match p_point_array_exec(s, j1) {
                Some(p) => p,
                None => {
                    return None;
                },
            };
            let (k2, jb) = match p_sep_key_exec(s, ja) {
                Some((Some(k), j)) => (k, j),
                _ => {
                    return None;
                },
            };
            if !chars_eq_str(&k2, "limit") {
                return None;
            }
            (Some(l), jb)
        } else if chars_eq_str(&k1, "limit") {
            (None, j1)
        } else {
            return None;
        };
        let (limit, j3) = match p_usize_exec(s, j2) {
            Some(p) => p,
            None => {
                return None;
            },
        };
        let (k4, j4) = match p_sep_key_exec(s, j3) {
            Some((Some(k), j)) => (k, j),
            _ => {
                return None;
            },
        };
        if !chars_eq_str(&k4, "score_threshold") {
            return None;
        }
        let (st_cs, j5) = match p_number_exec(s, j4) {
            Some(p) => p,
            None => {
                return None;
            },
        };
        let j6 = match p_sep_key_exec(s, j5) {
            Some((None, j)) => j,
            _ => {
                return None;
            },
        };
        if j6 != len {
            return None;
        }
        Some(
            RetrieveObject {
                points,
                limit,
                score_threshold: NumberText { text: string_from_chars(&st_cs) },
            },
        )
    }
}

// ===========================================================================
// the composite chat request
// ===========================================================================

/// A chat-completion request extended with retrieval parameters: which model
/// embeds the query, which vector store and collection to search, and how
/// many points to retrieve.
#[derive(Debug, Clone, PartialEq)]
pub struct RagChatCompletionsRequest {
    /// The model generating the completion.
    pub chat_model: Option<String>,
    /// The conversation so far.
    pub messages: Vec<ChatCompletionRequestMessage>,
    /// ID of the embedding model.
    pub embedding_model: String,
    /// The format the embeddings come back in.
    pub encoding_format: Option<String>,
    /// The URL of the vector-store server.
    pub qdrant_url: String,
    /// The target collection.
    pub qdrant_collection_name: String,
    /// Max number of retrieved results.
    pub limit: u64,
    /// Randomness of the generated text.
    pub temperature: Option<NumberText>,
    /// Nucleus-sampling threshold.
    pub top_p: Option<NumberText>,
    /// How many completion choices to generate.
    pub n_choice: Option<u64>,
    /// Whether to stream the results.
    pub stream: Option<bool>,
    /// Options for a streamed response.
    pub stream_options: Option<StreamOptions>,
    /// Sequences at which generation stops.
    pub stop: Option<Vec<String>>,
    /// The most tokens to generate.
    pub max_tokens: Option<u64>,
    /// Penalty on tokens already present.
    pub presence_penalty: Option<NumberText>,
    /// Penalty on frequent tokens.
    pub frequency_penalty: Option<NumberText>,
    /// Per-token bias values.
    pub logit_bias: Option<Vec<(String, NumberText)>>,
    /// A unique identifier for the end user.
    pub user: Option<String>,
    /// Format that the model must output.
    pub response_format: Option<ChatResponseFormat>,
    /// Tools the model may call.
    pub tools: Option<Vec<Tool>>,
    /// Which tools the model is told to call.
    pub tool_choice: Option<ToolChoice>,
    /// How many trailing user messages form the retrieval query.
    pub context_window: Option<u64>,
}

pub struct RagChatCompletionsRequestV {
    pub chat_model: Option<Seq<char>>,
    pub messages: Seq<ChatCompletionRequestMessageV>,
    pub embedding_model: Seq<char>,
    pub encoding_format: Option<Seq<char>>,
    pub qdrant_url: Seq<char>,
    pub qdrant_collection_name: Seq<char>,
    pub limit: u64,
    pub temperature: Option<Seq<char>>,
    pub top_p: Option<Seq<char>>,
    pub n_choice: Option<u64>,
    pub stream: Option<bool>,
    pub stream_options: Option<StreamOptionsV>,
    pub stop: Option<Seq<Seq<char>>>,
    pub max_tokens: Option<u64>,
    pub presence_penalty: Option<Seq<char>>,
    pub frequency_penalty: Option<Seq<char>>,
    pub logit_bias: Option<Seq<(Seq<char>, Seq<char>)>>,
    pub user: Option<Seq<char>>,
    pub response_format: Option<ChatResponseFormatV>,
    pub tools: Option<Seq<ToolV>>,
    pub tool_choice: Option<ToolChoice>,
    pub context_window: Option<u64>,
}

impl View for RagChatCompletionsRequest {
    type V = RagChatCompletionsRequestV;

    open spec fn view(&self) -> RagChatCompletionsRequestV {
        RagChatCompletionsRequestV {
            chat_model: view_opt_string(self.chat_model),
            messages: view_messages(self.messages@),
            embedding_model: self.embedding_model@,
            encoding_format: view_opt_string(self.encoding_format),
            qdrant_url: self.qdrant_url@,
            qdrant_collection_name: self.qdrant_collection_name@,
            limit: self.limit,
            temperature: view_opt_number(self.temperature),
            top_p: view_opt_number(self.top_p),
            n_choice: self.n_choice,
            stream: self.stream,
            stream_options: match self.stream_options {
                Some(s) => Some(s@),
                None => None,
            },
            stop: match self.stop {
                Some(l) => Some(l.deep_view()),
                None => None,
            },
            max_tokens: self.max_tokens,
            presence_penalty: view_opt_number(self.presence_penalty),
            frequency_penalty: view_opt_number(self.frequency_penalty),
            logit_bias: view_bias(self.logit_bias),
            user: view_opt_string(self.user),
            response_format: match self.response_format {
                Some(f) => Some(f@),
                None => None,
            },
            tools: view_tools(self.tools),
            tool_choice: self.tool_choice,
            context_window: self.context_window,
        }
    }
}

/// What the projection to a plain chat request keeps: every chat and sampling
/// field crosses unchanged, the legacy function-call fields are absent, and
/// the retrieval fields are dropped.
pub open spec fn to_plain_model(r: RagChatCompletionsRequestV) -> ChatCompletionRequestV {
    ChatCompletionRequestV {
        model: r.chat_model,
        messages: r.messages,
        temperature: r.temperature,
        top_p: r.top_p,
        n_choice: r.n_choice,
        stream: r.stream,
        stream_options: r.stream_options,
        stop: r.stop,
        max_tokens: r.max_tokens,
        presence_penalty: r.presence_penalty,
        frequency_penalty: r.frequency_penalty,
        logit_bias: r.logit_bias,
        user: r.user,
        functions: None,
        function_call: None,
        response_format: r.response_format,
        tool_choice: r.tool_choice,
        tools: r.tools,
        context_window: r.context_window,
    }
}

/// What the lift from a plain chat request produces: every chat and sampling
/// field crosses unchanged, the embedding model is the placeholder, the
/// encoding format is absent, and the given retrieval target is attached.
/// Any function-call data on the plain request is discarded.
pub open spec fn from_plain_model(
    c: ChatCompletionRequestV,
    qdrant_url: Seq<char>,
    qdrant_collection_name: Seq<char>,
    limit: u64,
) -> RagChatCompletionsRequestV {
    RagChatCompletionsRequestV {
        chat_model: c.model,
        messages: c.messages,
        embedding_model: spec_dummy_embedding_model(),
        encoding_format: None,
        qdrant_url,
        qdrant_collection_name,
        limit,
        temperature: c.temperature,
        top_p: c.top_p,
        n_choice: c.n_choice,
        stream: c.stream,
        stream_options: c.stream_options,
        stop: c.stop,
        max_tokens: c.max_tokens,
        presence_penalty: c.presence_penalty,
        frequency_penalty: c.frequency_penalty,
        logit_bias: c.logit_bias,
        user: c.user,
        response_format: c.response_format,
        tools: c.tools,
        tool_choice: c.tool_choice,
        context_window: c.context_window,
    }
}

impl RagChatCompletionsRequest {
    /// Projects this request onto a plain chat-completion request, copying
    /// every chat and sampling field across unchanged and leaving the legacy
    /// function-call fields absent.
    pub fn as_chat_completions_request(&self) -> (r: ChatCompletionRequest)
        ensures
            r@ == to_plain_model(self@),
    {
        ChatCompletionRequest {
            model: copy_opt_string(&self.chat_model),
            messages: copy_messages(&self.messages),
            temperature: copy_opt_number(&self.temperature),
            top_p: copy_opt_number(&self.top_p),
            n_choice: self.n_choice,
            stream: self.stream,
            stream_options: self.stream_options,
            stop: copy_opt_strings(&self.stop),
            max_tokens: self.max_tokens,
            presence_penalty: copy_opt_number(&self.presence_penalty),
            frequency_penalty: copy_opt_number(&self.frequency_penalty),
            logit_bias: copy_opt_bias(&self.logit_bias),
            user: copy_opt_string(&self.user),
            functions: None,
            function_call: None,
            response_format: copy_opt_format(&self.response_format),
            tool_choice: self.tool_choice,
            tools: copy_opt_tools(&self.tools),
            context_window: self.context_window,
        }
    }

    /// Lifts a plain chat-completion request into a retrieval-augmented one,
    /// attaching the given store target and limit; the embedding model is
    /// the placeholder and the encoding format is left absent. Function-call
    /// data on the plain request is discarded.
    pub fn from_chat_completions_request(
        chat_completions_request: ChatCompletionRequest,
        qdrant_url: &str,
        qdrant_collection_name: &str,
        limit: u64,
    ) -> (r: RagChatCompletionsRequest)
        ensures
            r@ == from_plain_model(
                chat_completions_request@,
                qdrant_url@,
                qdrant_collection_name@,
                limit,
            ),
    {
        RagChatCompletionsRequest {
            chat_model: chat_completions_request.model,
            messages: chat_completions_request.messages,
            embedding_model: String::from_str(dummy_embedding_model()),
            encoding_format: None,
            qdrant_url: String::from_str(qdrant_url),
            qdrant_collection_name: String::from_str(qdrant_collection_name),
            limit,
            temperature: chat_completions_request.temperature,
            top_p: chat_completions_request.top_p,
            n_choice: chat_completions_request.n_choice,
            stream: chat_completions_request.stream,
            stream_options: chat_completions_request.stream_options,
            stop: chat_completions_request.stop,
            max_tokens: chat_completions_request.max_tokens,
            presence_penalty: chat_completions_request.presence_penalty,
            frequency_penalty: chat_completions_request.frequency_penalty,
            logit_bias: chat_completions_request.logit_bias,
            user: chat_completions_request.user,
            response_format: chat_completions_request.response_format,
            tools: chat_completions_request.tools,
            tool_choice: chat_completions_request.tool_choice,
            context_window: chat_completions_request.context_window,
        }
    }
}

/// Projecting a request onto a plain chat request and lifting it back with
/// its own store target and limit restores every chat and sampling field and
/// the context window; only the embedding model is reset to the placeholder
/// and the encoding format to absent.
pub proof fn lemma_conversion_round_trip(r: RagChatCompletionsRequestV)
    ensures
        from_plain_model(to_plain_model(r), r.qdrant_url, r.qdrant_collection_name, r.limit) == (
        RagChatCompletionsRequestV {
            embedding_model: spec_dummy_embedding_model(),
            encoding_format: None,
            ..r
        }),
{
}

// ===========================================================================
// the builder
// ===========================================================================

/// Builds a [`RagChatCompletionsRequest`] incrementally, starting from fixed
/// placeholder defaults; each setter consumes the builder and returns it.
pub struct RagChatCompletionRequestBuilder {
    pub req: RagChatCompletionsRequest,
}

impl RagChatCompletionRequestBuilder {
    /// Starts from the mandatory inputs and the fixed defaults: placeholder
    /// model ids, `float` encoding, neutral sampling, one choice, no
    /// streaming, 1024 tokens, zero penalties and a context window of one.
    pub fn new(
        messages: Vec<ChatCompletionRequestMessage>,
        qdrant_url: &str,
        qdrant_collection_name: &str,
        limit: u64,
    ) -> (r: RagChatCompletionRequestBuilder)
        ensures
            r.req@ == (RagChatCompletionsRequestV {
                chat_model: Some(spec_dummy_chat_model()),
                messages: view_messages(messages@),
                embedding_model: spec_dummy_embedding_model(),
                encoding_format: Some(spec_float_format()),
                qdrant_url: qdrant_url@,
                qdrant_collection_name: qdrant_collection_name@,
                limit,
                temperature: Some("1.0"@),
                top_p: Some("1.0"@),
                n_choice: Some(1u64),
                stream: Some(false),
                stream_options: None,
                stop: None,
                max_tokens: Some(1024u64),
                presence_penalty: Some("0.0"@),
                frequency_penalty: Some("0.0"@),
                logit_bias: None,
                user: None,
                response_format: None,
                tools: None,
                tool_choice: None,
                context_window: Some(1u64),
            }),
    {
        RagChatCompletionRequestBuilder {
            req: RagChatCompletionsRequest {
                chat_model: Some(String::from_str(dummy_chat_model())),
                messages,
                embedding_model: String::from_str(dummy_embedding_model()),
                encoding_format: Some(String::from_str(float_format())),
                qdrant_url: String::from_str(qdrant_url),
                qdrant_collection_name: String::from_str(qdrant_collection_name),
                limit,
                temperature: Some(NumberText::one()),
                top_p: Some(NumberText::one()),
                n_choice: Some(1),
                stream: Some(false),
                stream_options: None,
                stop: None,
                max_tokens: Some(1024),
                presence_penalty: Some(NumberText::zero()),
                frequency_penalty: Some(NumberText::zero()),
                logit_bias: None,
                user: None,
                response_format: None,
                tools: None,
                tool_choice: None,
                context_window: Some(1),
            },
        }
    }

    /// Selects one sampling strategy and neutralizes the other: choosing a
    /// temperature forces `top_p` to exactly `1.0`, and choosing a top-p
    /// forces `temperature` to exactly `1.0`.
    pub fn with_sampling(self, sampling: ChatCompletionRequestSampling) -> (r: Self)
        ensures
            r.req.temperature is Some && r.req.top_p is Some,
            match sampling {
                ChatCompletionRequestSampling::Temperature(t) => r.req.temperature.unwrap()@ == t@
                    && r.req.top_p.unwrap()@ == "1.0"@,
                ChatCompletionRequestSampling::TopP(p) => r.req.temperature.unwrap()@ == "1.0"@
                    && r.req.top_p.unwrap()@ == p@,
            },
            r.req == (RagChatCompletionsRequest {
                temperature: r.req.temperature,
                top_p: r.req.top_p,
                ..self.req
            }),
    {
        let (temperature, top_p) = match sampling {
            ChatCompletionRequestSampling::Temperature(t) => (t, NumberText::one()),
            ChatCompletionRequestSampling::TopP(p) => (NumberText::one(), p),
        };
        RagChatCompletionRequestBuilder {
            req: RagChatCompletionsRequest {
                temperature: Some(temperature),
                top_p: Some(top_p),
                ..self.req
            },
        }
    }

    /// Sets how many completion choices to generate; a count below one is
    /// silently raised to one, never stored as zero.
    pub fn with_n_choices(self, n: u64) -> (r: Self)
        ensures
            r.req == (RagChatCompletionsRequest {
                n_choice: Some(if n < 1 { 1u64 } else { n }),
                ..self.req
            }),
    {
        let n_choice = if n < 1 { 1 } else { n };
        RagChatCompletionRequestBuilder {
            req: RagChatCompletionsRequest { n_choice: Some(n_choice), ..self.req },
        }
    }

    /// Sets whether to stream the results.
    pub fn with_stream(self, flag: bool) -> (r: Self)
        ensures
            r.req == (RagChatCompletionsRequest { stream: Some(flag), ..self.req }),
    {
        RagChatCompletionRequestBuilder {
            req: RagChatCompletionsRequest { stream: Some(flag), ..self.req },
        }
    }

    /// Sets the stop sequences.
    pub fn with_stop(self, stop: Vec<String>) -> (r: Self)
        ensures
            r.req == (RagChatCompletionsRequest { stop: Some(stop), ..self.req }),
    {
        RagChatCompletionRequestBuilder {
            req: RagChatCompletionsRequest { stop: Some(stop), ..self.req },
        }
    }

    /// Sets the most tokens to generate; a count below one is silently raised
    /// to sixteen.
    pub fn with_max_tokens(self, max_tokens: u64) -> (r: Self)
        ensures
            r.req == (RagChatCompletionsRequest {
                max_tokens: Some(if max_tokens < 1 { 16u64 } else { max_tokens }),
                ..self.req
            }),
    {
        let max_tokens = if max_tokens < 1 { 16 } else { max_tokens };
        RagChatCompletionRequestBuilder {
            req: RagChatCompletionsRequest { max_tokens: Some(max_tokens), ..self.req },
        }
    }

    /// Sets the presence penalty.
    pub fn with_presence_penalty(self, penalty: NumberText) -> (r: Self)
        ensures
            r.req == (RagChatCompletionsRequest { presence_penalty: Some(penalty), ..self.req }),
    {
        RagChatCompletionRequestBuilder {
            req: RagChatCompletionsRequest { presence_penalty: Some(penalty), ..self.req },
        }
    }

    /// Sets the frequency penalty.
    pub fn with_frequency_penalty(self, penalty: NumberText) -> (r: Self)
        ensures
            r.req == (RagChatCompletionsRequest { frequency_penalty: Some(penalty), ..self.req }),
    {
        RagChatCompletionRequestBuilder {
            req: RagChatCompletionsRequest { frequency_penalty: Some(penalty), ..self.req },
        }
    }

    /// Sets the per-token bias values.
    pub fn with_logits_bias(self, map: Vec<(String, NumberText)>) -> (r: Self)
        ensures
            r.req == (RagChatCompletionsRequest { logit_bias: Some(map), ..self.req }),
    {
        RagChatCompletionRequestBuilder {
            req: RagChatCompletionsRequest { logit_bias: Some(map), ..self.req },
        }
    }

    /// Sets the end-user identifier.
    pub fn with_user(self, user: &str) -> (r: Self)
        ensures
            r.req.user is Some && r.req.user.unwrap()@ == user@,
            r.req == (RagChatCompletionsRequest { user: r.req.user, ..self.req }),
    {
        RagChatCompletionRequestBuilder {
            req: RagChatCompletionsRequest { user: Some(String::from_str(user)), ..self.req },
        }
    }

    /// Sets how many trailing user messages form the retrieval query.
    pub fn with_context_window(self, context_window: u64) -> (r: Self)
        ensures
            r.req == (RagChatCompletionsRequest {
                context_window: Some(context_window),
                ..self.req
            }),
    {
        RagChatCompletionRequestBuilder {
            req: RagChatCompletionsRequest { context_window: Some(context_window), ..self.req },
        }
    }

    /// Yields the finished request; no further checks are performed.
    pub fn build(self) -> (r: RagChatCompletionsRequest)
        ensures
            r == self.req,
    {
        self.req
    }
}

// ===========================================================================
// chunking pass-through shapes
// ===========================================================================

/// A request to split a stored document into chunks.
#[derive(Debug, Clone, PartialEq)]
pub struct ChunksRequest {
    pub id: String,
    pub filename: String,
    pub chunk_capacity: usize,
}

pub struct ChunksRequestV {
    pub id: Seq<char>,
    pub filename: Seq<char>,
    pub chunk_capacity: usize,
}

impl View for ChunksRequest {
    type V = ChunksRequestV;

    open spec fn view(&self) -> ChunksRequestV {
        ChunksRequestV {
            id: self.id@,
            filename: self.filename@,
            chunk_capacity: self.chunk_capacity,
        }
    }
}

pub open spec fn enc_chunks_request(m: ChunksRequestV) -> Seq<char> {
    seq!['{'] + enc_key("id"@) + enc_string(m.id) + seq![','] + enc_key("filename"@) + enc_string(
        m.filename,
    ) + seq![','] + enc_key("chunk_capacity"@) + dec_digits(m.chunk_capacity as nat) + seq!['}']
}

pub open spec fn p_chunks_request(t: Seq<char>) -> Option<(ChunksRequestV, Seq<char>)> {
    if t.len() > 0 && t[0] == '{' {
        match p_key(t.drop_first()) {
            Some((k1, t1)) => if k1 == "id"@ {
                match p_string(t1) {
                    Some((id, t2)) => match p_sep_key(t2) {
                        Some((Some(k2), t3)) => if k2 == "filename"@ {
                            match p_string(t3) {
                                Some((filename, t4)) => match p_sep_key(t4) {
                                    Some((Some(k5), t5)) => if k5 == "chunk_capacity"@ {
                                        match p_usize(t5) {
                                            Some((cap, t6)) => match p_sep_key(t6) {
                                                Some((None, t7)) => Some(
                                                    (
                                                        ChunksRequestV {
                                                            id,
                                                            filename,
                                                            chunk_capacity: cap,
                                                        },
                                                        t7,
                                                    ),
                                                ),
                                                _ => None,
                                            },
                                            None => None,
                                        }
                                    } else {
                                        None
                                    },
                                    _ => None,
                                },
                                None => None,
                            }
                        } else {
                            None
                        },
                        _ => None,
                    },
                    None => None,
                }
            } else {
                None
            },
            None => None,
        }
    } else {
        None
    }
}

pub open spec fn spec_decode_chunks_request(t: Seq<char>) -> Option<ChunksRequestV> {
    match p_chunks_request(t) {
        Some((m, rest)) => if rest.len() == 0 {
            Some(m)
        } else {
            None
        },
        None => None,
    }
}

#[verifier::rlimit(100)]
proof fn lemma_p_chunks_request(m: ChunksRequestV, r: Seq<char>)
    ensures
        p_chunks_request(enc_chunks_request(m) + r) == Some((m, r)),
{
    reveal_strlit("id");
    reveal_strlit("filename");
    reveal_strlit("chunk_capacity");
    let t = enc_chunks_request(m) + r;
    let e_cap = dec_digits(m.chunk_capacity as nat);
    let rest3 = (seq![','] + enc_key("chunk_capacity"@) + e_cap) + (seq!['}'] + r);
    let rest2 = (seq![','] + enc_key("filename"@) + enc_string(m.filename)) + rest3;
    let rest1 = enc_string(m.id) + rest2;
    assert(t[0] == '{');
    assert(t.drop_first() =~= enc_key("id"@) + rest1);
    lemma_p_key("id"@, rest1);
    lemma_p_string(m.id, rest2);
    lemma_p_sep_key("filename"@, enc_string(m.filename), rest3);
    lemma_p_string(m.filename, rest3);
    lemma_p_sep_key("chunk_capacity"@, e_cap, seq!['}'] + r);
    assert((seq!['}'] + r)[0] == '}');
    lemma_p_usize(m.chunk_capacity, seq!['}'] + r);
    lemma_p_sep_end(r);
}

/// Encoding a chunks request and decoding the text yields the same value.
pub proof fn lemma_chunks_request_round_trip(m: ChunksRequestV)
    ensures
        spec_decode_chunks_request(enc_chunks_request(m)) == Some(m),
{
    lemma_p_chunks_request(m, Seq::empty());
    assert(enc_chunks_request(m) + Seq::<char>::empty() =~= enc_chunks_request(m));
}

impl ChunksRequest {
    /// Encodes to the wire form `{"id":…,"filename":…,"chunk_capacity":…}`.
    pub fn to_json(&self) -> (r: String)
        ensures
            r@ == enc_chunks_request(self@),
    {
        let mut out: Vec<char> = Vec::new();
        out.push('{');
        enc_key_exec(&mut out, "id");
        enc_string_exec(&mut out, self.id.as_str());
        out.push(',');
        enc_key_exec(&mut out, "filename");
        enc_string_exec(&mut out, self.filename.as_str());
        out.push(',');
        enc_key_exec(&mut out, "chunk_capacity");
        enc_u64_exec(&mut out, self.chunk_capacity as u64);
        out.push('}');
        assert(out@ =~= enc_chunks_request(self@));
        string_from_chars(&out)
    }

    /// Decodes the wire form; `None` exactly on text that is not a canonical
    /// encoding of some chunks request.
    pub fn from_json(s: &str) -> (r: Option<ChunksRequest>)
        ensures
            r is Some <==> spec_decode_chunks_request(s@) is Some,
            r is Some ==> r.unwrap()@ == spec_decode_chunks_request(s@).unwrap(),
    {
        let len = s.unicode_len();
        if len == 0 {
            return None;
        }
        if s.get_char(0) != '{' {
            assert(s@.skip(0)[0] != '{');
            assert(s@.skip(0) =~= s@);
            return None;
        }
        assert(s@.skip(0) =~= s@);
        proof {
            lemma_skip_drop(s@, 0);
        }
        let (k1, j1) = match p_key_exec(s, 1) {
            Some(p) => p,
            None => {
                return None;
            },
        };
        if !chars_eq_str(&k1, "id") {
            return None;
        }
        let (id_cs, j2) = match p_string_exec(s, j1) {
            Some(p) => p,
            None => {
                return None;
            },
        };
        let (k3, j3) = match p_sep_key_exec(s, j2) {
            Some((Some(k), j)) => (k, j),
            _ => {
                return None;
            },
        };
        if !chars_eq_str(&k3, "filename") {
            return None;
        }
        let (fn_cs, j4) = match p_string_exec(s, j3) {
            Some(p) => p,
            None => {
                return None;
            },
        };
        let (k5, j5) = match p_sep_key_exec(s, j4) {
            Some((Some(k), j)) => (k, j),
            _ => {
                return None;
            },
        };
        if !chars_eq_str(&k5, "chunk_capacity") {
            return None;
        }
        let (cap, j6) = match p_usize_exec(s, j5) {
            Some(p) => p,
            None => {
                return None;
            },
        };
        let j7 = match p_sep_key_exec(s, j6) {
            Some((None, j)) => j,
            _ => {
                return None;
            },
        };
        if j7 != len {
            return None;
        }
        Some(
            ChunksRequest {
                id: string_from_chars(&id_cs),
                filename: string_from_chars(&fn_cs),
                chunk_capacity: cap,
            },
        )
    }
}

/// The chunks produced for a document.
#[derive(Debug, Clone, PartialEq)]
pub struct ChunksResponse {
    pub id: String,
    pub filename: String,
    pub chunks: Vec<String>,
}

pub struct ChunksResponseV {
    pub id: Seq<char>,
    pub filename: Seq<char>,
    pub chunks: Seq<Seq<char>>,
}

impl View for ChunksResponse {
    type V = ChunksResponseV;

    open spec fn view(&self) -> ChunksResponseV {
        ChunksResponseV {
            id: self.id@,
            filename: self.filename@,
            chunks: self.chunks.deep_view(),
        }
    }
}

pub open spec fn enc_chunks_response(m: ChunksResponseV) -> Seq<char> {
    seq!['{'] + enc_key("id"@) + enc_string(m.id) + seq![','] + enc_key("filename"@) + enc_string(
        m.filename,
    ) + seq![','] + enc_key("chunks"@) + enc_str_array(m.chunks) + seq!['}']
}

pub open spec fn p_chunks_response(t: Seq<char>) -> Option<(ChunksResponseV, Seq<char>)> {
    if t.len() > 0 && t[0] == '{' {
        match p_key(t.drop_first()) {
            Some((k1, t1)) => if k1 == "id"@ {
                match p_string(t1) {
                    Some((id, t2)) => match p_sep_key(t2) {
                        Some((Some(k2), t3)) => if k2 == "filename"@ {
                            match p_string(t3) {
                                Some((filename, t4)) => match p_sep_key(t4) {
                                    Some((Some(k5), t5)) => if k5 == "chunks"@ {
                                        match p_str_array(t5) {
                                            Some((chunks, t6)) => match p_sep_key(t6) {
                                                Some((None, t7)) => Some(
                                                    (ChunksResponseV { id, filename, chunks }, t7),
                                                ),
                                                _ => None,
                                            },
                                            None => None,
                                        }
                                    } else {
                                        None
                                    },
                                    _ => None,
                                },
                                None => None,
                            }
                        } else {
                            None
                        },
                        _ => None,
                    },
                    None => None,
                }
            } else {
                None
            },
            None => None,
        }
    } else {
        None
    }
}

pub open spec fn spec_decode_chunks_response(t: Seq<char>) -> Option<ChunksResponseV> {
    match p_chunks_response(t) {
        Some((m, rest)) => if rest.len() == 0 {
            Some(m)
        } else {
            None
        },
        None => None,
    }
}

#[verifier::rlimit(100)]
proof fn lemma_p_chunks_response(m: ChunksResponseV, r: Seq<char>)
    ensures
        p_chunks_response(enc_chunks_response(m) + r) == Some((m, r)),
{
    reveal_strlit("id");
    reveal_strlit("filename");
    reveal_strlit("chunks");
    let t = enc_chunks_response(m) + r;
    let rest3 = (seq![','] + enc_key("chunks"@) + enc_str_array(m.chunks)) + (seq!['}'] + r);
    let rest2 = (seq![','] + enc_key("filename"@) + enc_string(m.filename)) + rest3;
    let rest1 = enc_string(m.id) + rest2;
    assert(t[0] == '{');
    assert(t.drop_first() =~= enc_key("id"@) + rest1);
    lemma_p_key("id"@, rest1);
    lemma_p_string(m.id, rest2);
    lemma_p_sep_key("filename"@, enc_string(m.filename), rest3);
    lemma_p_string(m.filename, rest3);
    lemma_p_sep_key("chunks"@, enc_str_array(m.chunks), seq!['}'] + r);
    lemma_p_str_array(m.chunks, seq!['}'] + r);
    lemma_p_sep_end(r);
}

/// Encoding a chunks response and decoding the text yields the same value.
pub proof fn lemma_chunks_response_round_trip(m: ChunksResponseV)
    ensures
        spec_decode_chunks_response(enc_chunks_response(m)) == Some(m),
{
    lemma_p_chunks_response(m, Seq::empty());
    assert(enc_chunks_response(m) + Seq::<char>::empty() =~= enc_chunks_response(m));
}

impl ChunksResponse {
    /// Encodes to the wire form `{"id":…,"filename":…,"chunks":[…]}`.
    pub fn to_json(&self) -> (r: String)
        ensures
            r@ == enc_chunks_response(self@),
    {
        let mut out: Vec<char> = Vec::new();
        out.push('{');
        enc_key_exec(&mut out, "id");
        enc_string_exec(&mut out, self.id.as_str());
        out.push(',');
        enc_key_exec(&mut out, "filename");
        enc_string_exec(&mut out, self.filename.as_str());
        out.push(',');
        enc_key_exec(&mut out, "chunks");
        enc_str_array_exec(&mut out, &self.chunks);
        out.push('}');
        assert(out@ =~= enc_chunks_response(self@));
        string_from_chars(&out)
    }

    /// Decodes the wire form; `None` exactly on text that is not a canonical
    /// encoding of some chunks response.
    pub fn from_json(s: &str) -> (r: Option<ChunksResponse>)
        ensures
            r is Some <==> spec_decode_chunks_response(s@) is Some,
            r is Some ==> r.unwrap()@ == spec_decode_chunks_response(s@).unwrap(),
    {
        let len = s.unicode_len();
        if len == 0 {
            return None;
        }
        if s.get_char(0) != '{' {
            assert(s@.skip(0)[0] != '{');
            assert(s@.skip(0) =~= s@);
            return None;
        }
        assert(s@.skip(0) =~= s@);
        proof {
            lemma_skip_drop(s@, 0);
        }
        let (k1, j1) = match p_key_exec(s, 1) {
            Some(p) => p,
            None => {
                return None;
            },
        };
        if !chars_eq_str(&k1, "id") {
            return None;
        }
        let (id_cs, j2) = match p_string_exec(s, j1) {
            Some(p) => p,
            None => {
                return None;
            },
        };
        let (k3, j3) = match p_sep_key_exec(s, j2) {
            Some((Some(k), j)) => (k, j),
            _ => {
                return None;
            },
        };
        if !chars_eq_str(&k3, "filename") {
            return None;
        }
        let (fn_cs, j4) = match p_string_exec(s, j3) {
            Some(p) => p,
            None => {
                return None;
            },
        };
        let (k5, j5) = match p_sep_key_exec(s, j4) {
            Some((Some(k), j)) => (k, j),
            _ => {
                return None;
            },
        };
        if !chars_eq_str(&k5, "chunks") {
            return None;
        }
        let (chunks, j6) = match p_str_array_exec(s, j5) {
            Some(p) => p,
            None => {
                return None;
            },
        };
        let j7 = match p_sep_key_exec(s, j6) {
            Some((None, j)) => j,
            _ => {
                return None;
            },
        };
        if j7 != len {
            return None;
        }
        Some(
            ChunksResponse {
                id: string_from_chars(&id_cs),
                filename: string_from_chars(&fn_cs),
                chunks,
            },
        )
    }
}

} // verus!

//! The embedding request consumed by the embedding service: a model id, the
//! input text or texts, and optional encoding format and user id, together
//! with its JSON wire form.
use vstd::prelude::*;
use crate::json::{
    enc_key, enc_str_array, enc_string, opt_str_field, p_key, p_sep_key, p_str_array, p_string,
    lemma_p_key, lemma_p_sep_key, lemma_p_sep_end, lemma_p_str_array, lemma_p_string,
    enc_key_exec, enc_str_array_exec, enc_string_exec, chars_eq_str, p_key_exec, p_sep_key_exec,
    p_str_array_exec, p_string_exec, string_from_chars,
};

verus! {

/// The text or texts to embed.
#[derive(Debug, Clone, PartialEq)]
pub enum InputText {
    Single(String),
    Multiple(Vec<String>),
}

pub enum InputTextV {
    Single(Seq<char>),
    Multiple(Seq<Seq<char>>),
}

impl View for InputText {
    type V = InputTextV;

    open spec fn view(&self) -> InputTextV {
        match self {
            InputText::Single(s) => InputTextV::Single(s@),
            InputText::Multiple(l) => InputTextV::Multiple(l.deep_view()),
        }
    }
}

/// A request to the embedding service.
#[derive(Debug, Clone, PartialEq)]
pub struct EmbeddingRequest {
    /// ID of the embedding model.
    pub model: String,
    /// The input to embed.
    pub input: InputText,
    /// The format the embeddings come back in; the service defaults it when
    /// absent.
    pub encoding_format: Option<String>,
    /// A unique identifier for the end user.
    pub user: Option<String>,
}

pub struct EmbeddingRequestV {
    pub model: Seq<char>,
    pub input: InputTextV,
    pub encoding_format: Option<Seq<char>>,
    pub user: Option<Seq<char>>,
}

impl View for EmbeddingRequest {
    type V = EmbeddingRequestV;

    open spec fn view(&self) -> EmbeddingRequestV {
        EmbeddingRequestV {
            model: self.model@,
            input: self.input@,
            encoding_format: match self.encoding_format {
                Some(s) => Some(s@),
                None => None,
            },
            user: match self.user {
                Some(s) => Some(s@),
                None => None,
            },
        }
    }
}

// ---------------------------------------------------------------------------
// wire form
// ---------------------------------------------------------------------------

pub open spec fn enc_input(v: InputTextV) -> Seq<char> {
    match v {
        InputTextV::Single(s) => enc_string(s),
        InputTextV::Multiple(l) => enc_str_array(l),
    }
}

/// The wire form of an embedding request: `model` and `input` always, then
/// `encoding_format` and `user` only when set.
pub open spec fn enc_embedding(m: EmbeddingRequestV) -> Seq<char> {
    seq!['{'] + enc_key("model"@) + enc_string(m.model) + seq![','] + enc_key("input"@)
        + enc_input(m.input) + opt_str_field("encoding_format"@, m.encoding_format)
        + opt_str_field("user"@, m.user) + seq!['}']
}

pub open spec fn p_input(t: Seq<char>) -> Option<(InputTextV, Seq<char>)> {
    if t.len() > 0 && t[0] == '"' {
        match p_string(t) {
            Some((s, r)) => Some((InputTextV::Single(s), r)),
            None => None,
        }
    } else if t.len() > 0 && t[0] == '[' {
        match p_str_array(t) {
            Some((l, r)) => Some((InputTextV::Multiple(l), r)),
            None => None,
        }
    } else {
        None
    }
}

pub open spec fn p_embedding_user(
    model: Seq<char>,
    input: InputTextV,
    ef: Option<Seq<char>>,
    k: Option<Seq<char>>,
    t: Seq<char>,
) -> Option<(EmbeddingRequestV, Seq<char>)> {
    match k {
        None => Some((EmbeddingRequestV { model, input, encoding_format: ef, user: None }, t)),
        Some(kk) => if kk == "user"@ {
            match p_string(t) {
                Some((u, t1)) => match p_sep_key(t1) {
                    Some((None, t2)) => Some(
                        (EmbeddingRequestV { model, input, encoding_format: ef, user: Some(u) }, t2),
                    ),
                    _ => None,
                },
                None => None,
            }
        } else {
            None
        },
    }
}

pub open spec fn p_embedding_tail(
    model: Seq<char>,
    input: InputTextV,
    k: Option<Seq<char>>,
    t: Seq<char>,
) -> Option<(EmbeddingRequestV, Seq<char>)> {
    match k {
        None => Some((EmbeddingRequestV { model, input, encoding_format: None, user: None }, t)),
        Some(kk) => if kk == "encoding_format"@ {
            match p_string(t) {
                Some((ef, t1)) => match p_sep_key(t1) {
                    Some((k2, t2)) => p_embedding_user(model, input, Some(ef), k2, t2),
                    None => None,
                },
                None => None,
            }
        } else {
            p_embedding_user(model, input, None, Some(kk), t)
        },
    }
}

pub open spec fn p_embedding(t: Seq<char>) -> Option<(EmbeddingRequestV, Seq<char>)> {
    if t.len() > 0 && t[0] == '{' {
        match p_key(t.drop_first()) {
            Some((k1, t1)) => if k1 == "model"@ {
                match p_string(t1) {
                    Some((model, t2)) => match p_sep_key(t2) {
                        Some((Some(k2), t3)) => if k2 == "input"@ {
                            match p_input(t3) {
                                Some((input, t4)) => match p_sep_key(t4) {
                                    Some((k5, t5)) => p_embedding_tail(model, input, k5, t5),
                                    None => None,
                                },
                                None => None,
                            }
                        } else {
                            None
                        },
                        _ => None,
                    },
                    None => None,
                }
            } else {
                None
            },
            None => None,
        }
    } else {
        None
    }
}

// ---------------------------------------------------------------------------
// the encoding parses back to the same value
// ---------------------------------------------------------------------------

proof fn lemma_p_input(v: InputTextV, r: Seq<char>)
    ensures
        p_input(enc_input(v) + r) == Some((v, r)),
{
    match v {
        InputTextV::Single(s) => {
            assert((enc_input(v) + r)[0] == '"');
            lemma_p_string(s, r);
        },
        InputTextV::Multiple(l) => {
            assert((enc_input(v) + r)[0] == '[');
            lemma_p_str_array(l, r);
        },
    }
}

#[verifier::rlimit(100)]
pub proof fn lemma_p_embedding(m: EmbeddingRequestV, r: Seq<char>)
    ensures
        p_embedding(enc_embedding(m) + r) == Some((m, r)),
{
    reveal_strlit("model");
    reveal_strlit("input");
    reveal_strlit("encoding_format");
    reveal_strlit("user");
    let t = enc_embedding(m) + r;
    let f_ef = opt_str_field("encoding_format"@, m.encoding_format);
    let f_user = opt_str_field("user"@, m.user);
    let rest3 = f_ef + (f_user + (seq!['}'] + r));
    let rest2 = enc_input(m.input) + rest3;
    let rest1 = enc_string(m.model) + ((seq![','] + enc_key("input"@) + enc_input(m.input))
        + rest3);
    assert(t[0] == '{');
    assert(t.drop_first() =~= enc_key("model"@) + rest1);
    lemma_p_key("model"@, rest1);
    lemma_p_string(m.model, (seq![','] + enc_key("input"@) + enc_input(m.input)) + rest3);
    lemma_p_sep_key("input"@, enc_input(m.input), rest3);
    assert(enc_input(m.input) + rest3 == rest2);
    lemma_p_input(m.input, rest3);
    match m.encoding_format {
        Some(ef) => {
            assert(rest3 =~= (seq![','] + enc_key("encoding_format"@) + enc_string(ef)) + (f_user
                + (seq!['}'] + r)));
            lemma_p_sep_key("encoding_format"@, enc_string(ef), f_user + (seq!['}'] + r));
            lemma_p_string(ef, f_user + (seq!['}'] + r));
            match m.user {
                Some(u) => {
                    assert(f_user + (seq!['}'] + r) =~= (seq![','] + enc_key("user"@)
                        + enc_string(u)) + (seq!['}'] + r));
                    lemma_p_sep_key("user"@, enc_string(u), seq!['}'] + r);
                    lemma_p_string(u, seq!['}'] + r);
                    lemma_p_sep_end(r);
                },
                None => {
                    assert(f_user + (seq!['}'] + r) =~= seq!['}'] + r);
                    lemma_p_sep_end(r);
                },
            }
        },
        None => {
            match m.user {
                Some(u) => {
                    assert(rest3 =~= (seq![','] + enc_key("user"@) + enc_string(u)) + (seq!['}']
                        + r));
                    lemma_p_sep_key("user"@, enc_string(u), seq!['}'] + r);
                    assert("user"@ != "encoding_format"@);
                    lemma_p_string(u, seq!['}'] + r);
                    lemma_p_sep_end(r);
                },
                None => {
                    assert(rest3 =~= seq!['}'] + r);
                    lemma_p_sep_end(r);
                },
            }
        },
    }
}

// ---------------------------------------------------------------------------
// executable encoder and parser
// ---------------------------------------------------------------------------

/// Appends the wire form of an embedding request.
#[verifier::rlimit(100)]
pub fn enc_embedding_exec(out: &mut Vec<char>, m: &EmbeddingRequest)
    ensures
        final(out)@ == old(out)@ + enc_embedding(m@),
{
    out.push('{');
    enc_key_exec(out, "model");
    enc_string_exec(out, m.model.as_str());
    out.push(',');
    enc_key_exec(out, "input");
    match &m.input {
        InputText::Single(s) => {
            enc_string_exec(out, s.as_str());
        },
        InputText::Multiple(l) => {
            enc_str_array_exec(out, l);
        },
    }
    match &m.encoding_format {
        Some(ef) => {
            out.push(',');
            enc_key_exec(out, "encoding_format");
            enc_string_exec(out, ef.as_str());
        },
        None => {},
    }
    match &m.user {
        Some(u) => {
            out.push(',');
            enc_key_exec(out, "user");
            enc_string_exec(out, u.as_str());
        },
        None => {},
    }
    out.push('}');
    assert(out@ =~= old(out)@ + enc_embedding(m@));
}

/// Parses an embedding request object at position `i`.
pub fn p_embedding_exec(t: &str, i: usize) -> (r: Option<(EmbeddingRequest, usize)>)
    requires
        i <= t@.len(),
    ensures
        match r {
            Some((v, j)) => i < j <= t@.len() && p_embedding(t@.skip(i as int)) == Some(
                (v@, t@.skip(j as int)),
            ),
            None => p_embedding(t@.skip(i as int)) is None,
        },
{
    let len = t.unicode_len();
    if i >= len {
        return None;
    }
    if t.get_char(i) != '{' {
        assert(t@.skip(i as int)[0] != '{');
        return None;
    }
    assert(t@.skip(i as int)[0] == '{');
    proof {
        crate::json::lemma_skip_drop(t@, i as int);
    }
    let k1 = match p_key_exec(t, i + 1) {
        Some(p) => p,
        None => {
            return None;
        },
    };
    if !chars_eq_str(&k1.0, "model") {
        return None;
    }
    let (model_cs, j1) = match p_string_exec(t, k1.1) {
        Some(p) => p,
        None => {
            return None;
        },
    };
    let model = string_from_chars(&model_cs);
    let s2 = match p_sep_key_exec(t, j1) {
        Some(p) => p,
        None => {
            return None;
        },
    };
    let (k2, j2) = match s2 {
        (Some(k), j) => (k, j),
        (None, _) => {
            return None;
        },
    };
    if !chars_eq_str(&k2, "input") {
        return None;
    }
    // the input is either one string or an array of strings
    if j2 >= len {
        return None;
    }
    let c = t.get_char(j2);
    assert(t@.skip(j2 as int)[0] == c);
    let (input, j3) = if c == '"' {
        match p_string_exec(t, j2) {
            Some((s, j)) => (InputText::Single(string_from_chars(&s)), j),
            None => {
                return None;
            },
        }
    } else if c == '[' {
        match p_str_array_exec(t, j2) {
            Some((l, j)) => (InputText::Multiple(l), j),
            None => {
                return None;
            },
        }
    } else {
        return None;
    };
    let s4 = match p_sep_key_exec(t, j3) {
        Some(p) => p,
        None => {
            return None;
        },
    };
    // optional encoding_format, then optional user
    let ghost model_v = model@;
    let ghost input_v = input@;
    match s4 {
        (None, j4) => Some(
            (EmbeddingRequest { model, input, encoding_format: None, user: None }, j4),
        ),
        (Some(k5), j5) => {
            if chars_eq_str(&k5, "encoding_format") {
                let (ef_cs, j6) = match p_string_exec(t, j5) {
                    Some(p) => p,
                    None => {
                        return None;
                    },
                };
                let ef = string_from_chars(&ef_cs);
                let s7 = match p_sep_key_exec(t, j6) {
                    Some(p) => p,
                    None => {
                        return None;
                    },
                };
                match s7 {
                    (None, j7) => Some(
                        (
                            EmbeddingRequest { model, input, encoding_format: Some(ef), user: None },
                            j7,
                        ),
                    ),
                    (Some(k8), j8) => parse_user_tail(t, model, input, Some(ef), k8, j8),
                }
            } else {
                parse_user_tail(t, model, input, None, k5, j5)
            }
        },
    }
}

/// Parses the optional trailing `user` member once its key has been read.
fn parse_user_tail(
    t: &str,
    model: String,
    input: InputText,
    ef: Option<String>,
    k: Vec<char>,
    i: usize,
) -> (r: Option<(EmbeddingRequest, usize)>)
    requires
        i <= t@.len(),
    ensures
        match r {
            Some((v, j)) => i <= j <= t@.len() && p_embedding_user(
                model@,
                input@,
                match ef {
                    Some(s) => Some(s@),
                    None => None,
                },
                Some(k@),
                t@.skip(i as int),
            ) == Some((v@, t@.skip(j as int))),
            None => p_embedding_user(
                model@,
                input@,
                match ef {
                    Some(s) => Some(s@),
                    None => None,
                },
                Some(k@),
                t@.skip(i as int),
            ) is None,
        },
{
    if !chars_eq_str(&k, "user") {
        return None;
    }
    let (u_cs, j1) = match p_string_exec(t, i) {
        Some(p) => p,
        None => {
            return None;
        },
    };
    let u = string_from_chars(&u_cs);
    match p_sep_key_exec(t, j1) {
        Some((None, j2)) => Some(
            (EmbeddingRequest { model, input, encoding_format: ef, user: Some(u) }, j2),
        ),
        Some((Some(_), _)) => None,
        None => None,
    }
}

} // verus!

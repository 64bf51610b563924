//! The JSON wire form of the composite chat request.
//!
//! The object's members appear in a fixed order; optional members are omitted
//! entirely when absent, while `tools` and `tool_choice` are always present,
//! as `null` when unset. The parser reads exactly the canonical form the
//! encoder produces, and the round-trip law at the end ties the two.
use vstd::prelude::*;
use crate::rag::RagChatCompletionsRequestV;
use crate::chat::{
    ChatCompletionRequestMessage, ChatCompletionRequestMessageV, ChatResponseFormat,
    ChatResponseFormatV, StreamOptions, StreamOptionsV, Tool, ToolChoice, ToolV,
};
use crate::json::{
    dec_digits, enc_bool, enc_key, enc_u64, enc_string, null_text, number_token_wf, opt_str_field, p_bool,
    p_key, p_lit, p_number, p_u64,
    p_sep_key, p_string, lemma_p_bool, lemma_p_key, lemma_p_lit, lemma_p_number, lemma_p_sep_end,
    lemma_p_u64, lemma_p_str_array, lemma_p_usize,
    lemma_p_sep_key, lemma_p_string, chars_eq_str, enc_bool_exec, enc_key_exec, enc_null_exec,
    enc_string_exec, p_bool_exec, p_key_exec, p_lit_exec, p_number_exec, p_sep_key_exec,
    p_string_exec, string_from_chars, lemma_skip_drop,
};
use crate::number::NumberText;

verus! {

// ---------------------------------------------------------------------------
// one message
// ---------------------------------------------------------------------------

pub open spec fn enc_message(m: ChatCompletionRequestMessageV) -> Seq<char> {
    seq!['{'] + enc_key("role"@) + enc_string(m.role) + seq![','] + enc_key("content"@)
        + enc_string(m.content) + seq!['}']
}

pub open spec fn p_message(t: Seq<char>) -> Option<(ChatCompletionRequestMessageV, Seq<char>)> {
    if t.len() > 0 && t[0] == '{' {
        match p_key(t.drop_first()) {
            Some((k1, t1)) => if k1 == "role"@ {
                match p_string(t1) {
                    Some((role, t2)) => match p_sep_key(t2) {
                        Some((Some(k2), t3)) => if k2 == "content"@ {
                            match p_string(t3) {
                                Some((content, t4)) => match p_sep_key(t4) {
                                    Some((None, t5)) => Some(
                                        (ChatCompletionRequestMessageV { role, content }, t5),
                                    ),
                                    _ => None,
                                },
                                None => None,
                            }
                        } else {
                            None
                        },
                        _ => None,
                    },
                    None => None,
                }
            } else {
                None
            },
            None => None,
        }
    } else {
        None
    }
}

proof fn lemma_p_message(m: ChatCompletionRequestMessageV, r: Seq<char>)
    ensures
        p_message(enc_message(m) + r) == Some((m, r)),
{
    reveal_strlit("role");
    reveal_strlit("content");
    let t = enc_message(m) + r;
    let rest2 = (seq![','] + enc_key("content"@) + enc_string(m.content)) + (seq!['}'] + r);
    let rest1 = enc_string(m.role) + rest2;
    assert(t[0] == '{');
    assert(t.drop_first() =~= enc_key("role"@) + rest1);
    lemma_p_key("role"@, rest1);
    lemma_p_string(m.role, rest2);
    lemma_p_sep_key("content"@, enc_string(m.content), seq!['}'] + r);
    lemma_p_string(m.content, seq!['}'] + r);
    lemma_p_sep_end(r);
}

fn enc_message_exec(out: &mut Vec<char>, m: &ChatCompletionRequestMessage)
    ensures
        final(out)@ == old(out)@ + enc_message(m@),
{
    out.push('{');
    enc_key_exec(out, "role");
    enc_string_exec(out, m.role.as_str());
    out.push(',');
    enc_key_exec(out, "content");
    enc_string_exec(out, m.content.as_str());
    out.push('}');
    assert(out@ =~= old(out)@ + enc_message(m@));
}

fn p_message_exec(t: &str, i: usize) -> (r: Option<(ChatCompletionRequestMessage, usize)>)
    requires
        i <= t@.len(),
    ensures
        match r {
            Some((v, j)) => i < j <= t@.len() && p_message(t@.skip(i as int)) == Some(
                (v@, t@.skip(j as int)),
            ),
            None => p_message(t@.skip(i as int)) is None,
        },
{
    let len = t.unicode_len();
    if i >= len {
        return None;
    }
    if t.get_char(i) != '{' {
        assert(t@.skip(i as int)[0] != '{');
        return None;
    }
    assert(t@.skip(i as int)[0] == '{');
    proof {
        lemma_skip_drop(t@, i as int);
    }
    let (k1, j1) = match p_key_exec(t, i + 1) {
        Some(p) => p,
        None => {
            return None;
        },
    };
    if !chars_eq_str(&k1, "role") {
        return None;
    }
    let (role_cs, j2) = match p_string_exec(t, j1) {
        Some(p) => p,
        None => {
            return None;
        },
    };
    let (k3, j3) = match p_sep_key_exec(t, j2) {
        Some((Some(k), j)) => (k, j),
        _ => {
            return None;
        },
    };
    if !chars_eq_str(&k3, "content") {
        return None;
    }
    let (content_cs, j4) = match p_string_exec(t, j3) {
        Some(p) => p,
        None => {
            return None;
        },
    };
    let j5 = match p_sep_key_exec(t, j4) {
        Some((None, j)) => j,
        _ => {
            return None;
        },
    };
    Some(
        (
            ChatCompletionRequestMessage {
                role: string_from_chars(&role_cs),
                content: string_from_chars(&content_cs),
            },
            j5,
        ),
    )
}

// ---------------------------------------------------------------------------
// the message list
// ---------------------------------------------------------------------------

pub open spec fn view_message_list(l: Seq<ChatCompletionRequestMessage>) -> Seq<
    ChatCompletionRequestMessageV,
> {
    l.map_values(|m: ChatCompletionRequestMessage| m@)
}

pub open spec fn enc_message_items(l: Seq<ChatCompletionRequestMessageV>) -> Seq<char>
    decreases l.len(),
{
    if l.len() == 0 {
        Seq::empty()
    } else if l.len() == 1 {
        enc_message(l[0])
    } else {
        enc_message(l[0]) + seq![','] + enc_message_items(l.drop_first())
    }
}

pub open spec fn enc_message_array(l: Seq<ChatCompletionRequestMessageV>) -> Seq<char> {
    seq!['['] + enc_message_items(l) + seq![']']
}

pub open spec fn p_message_items(t: Seq<char>) -> Option<
    (Seq<ChatCompletionRequestMessageV>, Seq<char>),
>
    decreases t.len(),
{
    match p_message(t) {
        Some((p, r)) => {
            if r.len() == 0 {
                None
            } else if r[0] == ']' {
                Some((seq![p], r.drop_first()))
            } else if r[0] == ',' && r.len() < t.len() {
                match p_message_items(r.drop_first()) {
                    Some((l, r2)) => Some((seq![p] + l, r2)),
                    None => None,
                }
            } else {
                None
            }
        },
        None => None,
    }
}

pub open spec fn p_message_array(t: Seq<char>) -> Option<
    (Seq<ChatCompletionRequestMessageV>, Seq<char>),
> {
    if t.len() > 0 && t[0] == '[' {
        let t1 = t.drop_first();
        if t1.len() > 0 && t1[0] == ']' {
            Some((Seq::empty(), t1.drop_first()))
        } else {
            p_message_items(t1)
        }
    } else {
        None
    }
}

proof fn lemma_p_message_items(l: Seq<ChatCompletionRequestMessageV>, r: Seq<char>)
    requires
        l.len() >= 1,
    ensures
        p_message_items(enc_message_items(l) + (seq![']'] + r)) == Some((l, r)),
    decreases l.len(),
{
    if l.len() == 1 {
        let t = enc_message_items(l) + (seq![']'] + r);
        assert(t =~= enc_message(l[0]) + (seq![']'] + r));
        lemma_p_message(l[0], seq![']'] + r);
        assert((seq![']'] + r)[0] == ']');
        assert((seq![']'] + r).drop_first() =~= r);
        assert(seq![l[0]] =~= l);
    } else {
        let t = enc_message_items(l) + (seq![']'] + r);
        let tail = enc_message_items(l.drop_first()) + (seq![']'] + r);
        assert(t =~= enc_message(l[0]) + (seq![','] + tail));
        lemma_p_message(l[0], seq![','] + tail);
        let r1 = seq![','] + tail;
        assert(r1[0] == ',');
        assert(r1.drop_first() =~= tail);
        lemma_p_message_items(l.drop_first(), r);
        assert(seq![l[0]] + l.drop_first() =~= l);
    }
}

proof fn lemma_p_message_array(l: Seq<ChatCompletionRequestMessageV>, r: Seq<char>)
    ensures
        p_message_array(enc_message_array(l) + r) == Some((l, r)),
{
    let t = enc_message_array(l) + r;
    assert(t[0] == '[');
    if l.len() == 0 {
        assert(t.drop_first() =~= seq![']'] + r);
        assert((seq![']'] + r)[0] == ']');
        assert((seq![']'] + r).drop_first() =~= r);
        assert(Seq::<ChatCompletionRequestMessageV>::empty() =~= l);
    } else {
        assert(t.drop_first() =~= enc_message_items(l) + (seq![']'] + r));
        lemma_p_message_items(l, r);
        if l.len() == 1 {
            assert(enc_message_items(l) == enc_message(l[0]));
        }
        assert(enc_message_items(l)[0] == '{');
        assert(t.drop_first()[0] == '{');
    }
}

proof fn lemma_enc_message_items_snoc(l: Seq<ChatCompletionRequestMessageV>, k: int)
    requires
        1 <= k < l.len(),
    ensures
        enc_message_items(l.take(k + 1)) == enc_message_items(l.take(k)) + seq![','] + enc_message(
            l[k],
        ),
    decreases k,
{
    if k == 1 {
        let a = l.take(2);
        assert(a.len() == 2);
        assert(a.drop_first() =~= seq![l[1]]);
        assert(enc_message_items(seq![l[1]]) == enc_message(l[1]));
        assert(l.take(1) =~= seq![l[0]]);
        assert(enc_message_items(l.take(1)) == enc_message(l[0]));
        assert(a[0] == l[0]);
        assert(enc_message_items(a) == enc_message(l[0]) + seq![','] + enc_message(l[1]));
    } else {
        let a = l.take(k + 1);
        assert(a.len() == k + 1 >= 3);
        assert(a.drop_first() =~= l.drop_first().take(k));
        lemma_enc_message_items_snoc(l.drop_first(), k - 1);
        assert(l.drop_first()[k - 1] == l[k]);
        assert(l.drop_first().take(k - 1) =~= l.take(k).drop_first());
        assert(enc_message_items(a) == enc_message(a[0]) + seq![','] + enc_message_items(
            a.drop_first(),
        ));
        assert(enc_message_items(l.take(k)) == enc_message(l[0]) + seq![','] + enc_message_items(
            l.take(k).drop_first(),
        ));
        assert(enc_message(l[0]) + seq![','] + (enc_message_items(l.take(k).drop_first())
            + seq![','] + enc_message(l[k])) =~= (enc_message(l[0]) + seq![','] + enc_message_items(
            l.take(k).drop_first(),
        )) + seq![','] + enc_message(l[k]));
    }
}

fn enc_message_array_exec(out: &mut Vec<char>, l: &Vec<ChatCompletionRequestMessage>)
    ensures
        final(out)@ == old(out)@ + enc_message_array(view_message_list(l@)),
{
    out.push('[');
    let n = l.len();
    let mut k: usize = 0;
    while k < n
        invariant
            0 <= k <= n,
            l@.len() == n,
            out@ == old(out)@ + seq!['['] + enc_message_items(view_message_list(l@).take(k as int)),
        decreases n - k,
    {
        let ghost dv = view_message_list(l@);
        if k == 0 {
            enc_message_exec(out, &l[0]);
            proof {
                assert(dv.take(0int) =~= Seq::<ChatCompletionRequestMessageV>::empty());
                assert(enc_message_items(dv.take(0int)) == Seq::<char>::empty());
                assert(dv.take(1int) =~= seq![dv[0int]]);
                assert(enc_message_items(dv.take(1int)) == enc_message(dv[0int]));
                assert(dv[0int] == l@[0int]@);
                assert(out@ =~= old(out)@ + seq!['['] + enc_message_items(dv.take(1int)));
            }
        } else {
            out.push(',');
            enc_message_exec(out, &l[k]);
            proof {
                lemma_enc_message_items_snoc(dv, k as int);
                assert(dv[k as int] == l@[k as int]@);
                assert(out@ =~= old(out)@ + seq!['['] + enc_message_items(dv.take(k + 1)));
            }
        }
        k = k + 1;
    }
    out.push(']');
    proof {
        assert(view_message_list(l@).take(n as int) =~= view_message_list(l@));
        assert(out@ =~= old(out)@ + enc_message_array(view_message_list(l@)));
    }
}

fn p_message_array_exec(t: &str, i: usize) -> (r: Option<(Vec<ChatCompletionRequestMessage>, usize)>)
    requires
        i <= t@.len(),
    ensures
        match r {
            Some((v, j)) => i < j <= t@.len() && p_message_array(t@.skip(i as int)) == Some(
                (view_message_list(v@), t@.skip(j as int)),
            ),
            None => p_message_array(t@.skip(i as int)) is None,
        },
{
    let len = t.unicode_len();
    if i >= len {
        return None;
    }
    if t.get_char(i) != '[' {
        assert(t@.skip(i as int)[0] != '[');
        return None;
    }
    assert(t@.skip(i as int)[0] == '[');
    proof {
        lemma_skip_drop(t@, i as int);
    }
    if i + 1 < len && t.get_char(i + 1) == ']' {
        proof {
            lemma_skip_drop(t@, i + 1);
        }
        let out: Vec<ChatCompletionRequestMessage> = Vec::new();
        assert(view_message_list(out@) =~= Seq::<ChatCompletionRequestMessageV>::empty());
        return Some((out, i + 2));
    }
    assert(t@.skip(i + 1).len() > 0 ==> t@.skip(i + 1)[0] != ']');
    let mut acc: Vec<ChatCompletionRequestMessage> = Vec::new();
    let mut j: usize = i + 1;
    assert(view_message_list(acc@) =~= Seq::<ChatCompletionRequestMessageV>::empty());
    loop
        invariant
            i + 1 <= j <= len,
            len == t@.len(),
            match p_message_items(t@.skip(j as int)) {
                Some((l, rest)) => p_message_array(t@.skip(i as int)) == Some(
                    (view_message_list(acc@) + l, rest),
                ),
                None => p_message_array(t@.skip(i as int)) is None,
            },
        decreases len - j,
    {
        let ghost tj = t@.skip(j as int);
        match p_message_exec(t, j) {
            None => {
                return None;
            },
            Some((p, j2)) => {
                if j2 >= len {
                    return None;
                }
                let c = t.get_char(j2);
                assert(t@.skip(j2 as int)[0] == c);
                let ghost pv = p@;
                if c == ']' {
                    let ghost olddv = view_message_list(acc@);
                    acc.push(p);
                    proof {
                        lemma_skip_drop(t@, j2 as int);
                        assert(p_message_items(tj) == Some((seq![pv], t@.skip(j2 + 1))));
                        assert(view_message_list(acc@) =~= olddv + seq![pv]);
                    }
                    return Some((acc, j2 + 1));
                } else if c == ',' {
                    let ghost olddv = view_message_list(acc@);
                    acc.push(p);
                    proof {
                        lemma_skip_drop(t@, j2 as int);
                        assert(t@.skip(j2 as int).len() < tj.len());
                        match p_message_items(t@.skip(j2 + 1)) {
                            Some((l, rest)) => {
                                assert(p_message_items(tj) == Some((seq![pv] + l, rest)));
                                assert(view_message_list(acc@) =~= olddv + seq![pv]);
                                assert((olddv + seq![pv]) + l =~= olddv + (seq![pv] + l));
                            },
                            None => {},
                        }
                    }
                    j = j2 + 1;
                } else {
                    return None;
                }
            },
        }
    }
}

// ---------------------------------------------------------------------------
// stream options and response format
// ---------------------------------------------------------------------------

pub open spec fn enc_stream_options(s: StreamOptionsV) -> Seq<char> {
    seq!['{'] + (match s.include_usage {
        Some(b) => enc_key("include_usage"@) + enc_bool(b),
        None => Seq::empty(),
    }) + seq!['}']
}

pub open spec fn p_stream_options(t: Seq<char>) -> Option<(StreamOptionsV, Seq<char>)> {
    if t.len() > 0 && t[0] == '{' {
        let t1 = t.drop_first();
        if t1.len() > 0 && t1[0] == '}' {
            Some((StreamOptionsV { include_usage: None }, t1.drop_first()))
        } else {
            match p_key(t1) {
                Some((k, t2)) => if k == "include_usage"@ {
                    match p_bool(t2) {
                        Some((b, t3)) => match p_sep_key(t3) {
                            Some((None, t4)) => Some(
                                (StreamOptionsV { include_usage: Some(b) }, t4),
                            ),
                            _ => None,
                        },
                        None => None,
                    }
                } else {
                    None
                },
                None => None,
            }
        }
    } else {
        None
    }
}

proof fn lemma_p_stream_options(s: StreamOptionsV, r: Seq<char>)
    ensures
        p_stream_options(enc_stream_options(s) + r) == Some((s, r)),
{
    reveal_strlit("include_usage");
    let t = enc_stream_options(s) + r;
    assert(t[0] == '{');
    match s.include_usage {
        Some(b) => {
            assert(t.drop_first() =~= enc_key("include_usage"@) + (enc_bool(b) + (seq!['}'] + r)));
            assert(t.drop_first()[0] == '"');
            lemma_p_key("include_usage"@, enc_bool(b) + (seq!['}'] + r));
            lemma_p_bool(b, seq!['}'] + r);
            lemma_p_sep_end(r);
        },
        None => {
            assert(t.drop_first() =~= seq!['}'] + r);
            assert(t.drop_first()[0] == '}');
            assert((seq!['}'] + r).drop_first() =~= r);
        },
    }
}

fn enc_stream_options_exec(out: &mut Vec<char>, s: &StreamOptions)
    ensures
        final(out)@ == old(out)@ + enc_stream_options(s@),
{
    out.push('{');
    match s.include_usage {
        Some(b) => {
            enc_key_exec(out, "include_usage");
            enc_bool_exec(out, b);
        },
        None => {},
    }
    out.push('}');
    assert(out@ =~= old(out)@ + enc_stream_options(s@));
}

fn p_stream_options_exec(t: &str, i: usize) -> (r: Option<(StreamOptions, usize)>)
    requires
        i <= t@.len(),
    ensures
        match r {
            Some((v, j)) => i < j <= t@.len() && p_stream_options(t@.skip(i as int)) == Some(
                (v@, t@.skip(j as int)),
            ),
            None => p_stream_options(t@.skip(i as int)) is None,
        },
{
    let len = t.unicode_len();
    if i >= len {
        return None;
    }
    if t.get_char(i) != '{' {
        assert(t@.skip(i as int)[0] != '{');
        return None;
    }
    assert(t@.skip(i as int)[0] == '{');
    proof {
        lemma_skip_drop(t@, i as int);
    }
    if i + 1 < len && t.get_char(i + 1) == '}' {
        proof {
            lemma_skip_drop(t@, i + 1);
        }
        return Some((StreamOptions { include_usage: None }, i + 2));
    }
    assert(t@.skip(i + 1).len() > 0 ==> t@.skip(i + 1)[0] != '}');
    let (k, j1) = match p_key_exec(t, i + 1) {
        Some(p) => p,
        None => {
            return None;
        },
    };
    if !chars_eq_str(&k, "include_usage") {
        return None;
    }
    let (b, j2) = match p_bool_exec(t, j1) {
        Some(p) => p,
        None => {
            return None;
        },
    };
    let j3 = match p_sep_key_exec(t, j2) {
        Some((None, j)) => j,
        _ => {
            return None;
        },
    };
    Some((StreamOptions { include_usage: Some(b) }, j3))
}

pub open spec fn enc_response_format(f: ChatResponseFormatV) -> Seq<char> {
    seq!['{'] + enc_key("type"@) + enc_string(f.response_type) + seq!['}']
}

pub open spec fn p_response_format(t: Seq<char>) -> Option<(ChatResponseFormatV, Seq<char>)> {
    if t.len() > 0 && t[0] == '{' {
        match p_key(t.drop_first()) {
            Some((k, t1)) => if k == "type"@ {
                match p_string(t1) {
                    Some((v, t2)) => match p_sep_key(t2) {
                        Some((None, t3)) => Some((ChatResponseFormatV { response_type: v }, t3)),
                        _ => None,
                    },
                    None => None,
                }
            } else {
                None
            },
            None => None,
        }
    } else {
        None
    }
}

proof fn lemma_p_response_format(f: ChatResponseFormatV, r: Seq<char>)
    ensures
        p_response_format(enc_response_format(f) + r) == Some((f, r)),
{
    reveal_strlit("type");
    let t = enc_response_format(f) + r;
    assert(t[0] == '{');
    assert(t.drop_first() =~= enc_key("type"@) + (enc_string(f.response_type) + (seq!['}'] + r)));
    lemma_p_key("type"@, enc_string(f.response_type) + (seq!['}'] + r));
    lemma_p_string(f.response_type, seq!['}'] + r);
    lemma_p_sep_end(r);
}

fn enc_response_format_exec(out: &mut Vec<char>, f: &ChatResponseFormat)
    ensures
        final(out)@ == old(out)@ + enc_response_format(f@),
{
    out.push('{');
    enc_key_exec(out, "type");
    enc_string_exec(out, f.response_type.as_str());
    out.push('}');
    assert(out@ =~= old(out)@ + enc_response_format(f@));
}

fn p_response_format_exec(t: &str, i: usize) -> (r: Option<(ChatResponseFormat, usize)>)
    requires
        i <= t@.len(),
    ensures
        match r {
            Some((v, j)) => i < j <= t@.len() && p_response_format(t@.skip(i as int)) == Some(
                (v@, t@.skip(j as int)),
            ),
            None => p_response_format(t@.skip(i as int)) is None,
        },
{
    let len = t.unicode_len();
    if i >= len {
        return None;
    }
    if t.get_char(i) != '{' {
        assert(t@.skip(i as int)[0] != '{');
        return None;
    }
    assert(t@.skip(i as int)[0] == '{');
    proof {
        lemma_skip_drop(t@, i as int);
    }
    let (k, j1) = match p_key_exec(t, i + 1) {
        Some(p) => p,
        None => {
            return None;
        },
    };
    if !chars_eq_str(&k, "type") {
        return None;
    }
    let (v_cs, j2) = match p_string_exec(t, j1) {
        Some(p) => p,
        None => {
            return None;
        },
    };
    let j3 = match p_sep_key_exec(t, j2) {
        Some((None, j)) => j,
        _ => {
            return None;
        },
    };
    Some((ChatResponseFormat { response_type: string_from_chars(&v_cs) }, j3))
}

// ---------------------------------------------------------------------------
// tools and the tool choice, each always present, `null` when unset
// ---------------------------------------------------------------------------

pub open spec fn enc_tool(v: ToolV) -> Seq<char> {
    seq!['{'] + enc_key("type"@) + enc_string(v.tool_type) + seq![','] + enc_key("name"@)
        + enc_string(v.name) + seq!['}']
}

pub open spec fn p_tool(t: Seq<char>) -> Option<(ToolV, Seq<char>)> {
    if t.len() > 0 && t[0] == '{' {
        match p_key(t.drop_first()) {
            Some((k1, t1)) => if k1 == "type"@ {
                match p_string(t1) {
                    Some((ty, t2)) => match p_sep_key(t2) {
                        Some((Some(k2), t3)) => if k2 == "name"@ {
                            match p_string(t3) {
                                Some((name, t4)) => match p_sep_key(t4) {
                                    Some((None, t5)) => Some(
                                        (ToolV { tool_type: ty, name }, t5),
                                    ),
                                    _ => None,
                                },
                                None => None,
                            }
                        } else {
                            None
                        },
                        _ => None,
                    },
                    None => None,
                }
            } else {
                None
            },
            None => None,
        }
    } else {
        None
    }
}

proof fn lemma_p_tool(v: ToolV, r: Seq<char>)
    ensures
        p_tool(enc_tool(v) + r) == Some((v, r)),
{
    reveal_strlit("type");
    reveal_strlit("name");
    let t = enc_tool(v) + r;
    let rest2 = (seq![','] + enc_key("name"@) + enc_string(v.name)) + (seq!['}'] + r);
    let rest1 = enc_string(v.tool_type) + rest2;
    assert(t[0] == '{');
    assert(t.drop_first() =~= enc_key("type"@) + rest1);
    lemma_p_key("type"@, rest1);
    lemma_p_string(v.tool_type, rest2);
    lemma_p_sep_key("name"@, enc_string(v.name), seq!['}'] + r);
    lemma_p_string(v.name, seq!['}'] + r);
    lemma_p_sep_end(r);
}

fn enc_tool_exec(out: &mut Vec<char>, v: &Tool)
    ensures
        final(out)@ == old(out)@ + enc_tool(v@),
{
    out.push('{');
    enc_key_exec(out, "type");
    enc_string_exec(out, v.tool_type.as_str());
    out.push(',');
    enc_key_exec(out, "name");
    enc_string_exec(out, v.name.as_str());
    out.push('}');
    assert(out@ =~= old(out)@ + enc_tool(v@));
}

fn p_tool_exec(t: &str, i: usize) -> (r: Option<(Tool, usize)>)
    requires
        i <= t@.len(),
    ensures
        match r {
            Some((v, j)) => i < j <= t@.len() && p_tool(t@.skip(i as int)) == Some(
                (v@, t@.skip(j as int)),
            ),
            None => p_tool(t@.skip(i as int)) is None,
        },
{
    let len = t.unicode_len();
    if i >= len {
        return None;
    }
    if t.get_char(i) != '{' {
        assert(t@.skip(i as int)[0] != '{');
        return None;
    }
    assert(t@.skip(i as int)[0] == '{');
    proof {
        lemma_skip_drop(t@, i as int);
    }
    let (k1, j1) = match p_key_exec(t, i + 1) {
        Some(p) => p,
        None => {
            return None;
        },
    };
    if !chars_eq_str(&k1, "type") {
        return None;
    }
    let (ty_cs, j2) = match p_string_exec(t, j1) {
        Some(p) => p,
        None => {
            return None;
        },
    };
    let (k3, j3) = match p_sep_key_exec(t, j2) {
        Some((Some(k), j)) => (k, j),
        _ => {
            return None;
        },
    };
    if !chars_eq_str(&k3, "name") {
        return None;
    }
    let (name_cs, j4) = match p_string_exec(t, j3) {
        Some(p) => p,
        None => {
            return None;
        },
    };
    let j5 = match p_sep_key_exec(t, j4) {
        Some((None, j)) => j,
        _ => {
            return None;
        },
    };
    Some(
        (
            Tool { tool_type: string_from_chars(&ty_cs), name: string_from_chars(&name_cs) },
            j5,
        ),
    )
}

pub open spec fn view_tool_list(l: Seq<Tool>) -> Seq<ToolV> {
    l.map_values(|x: Tool| x@)
}

pub open spec fn enc_tool_items(l: Seq<ToolV>) -> Seq<char>
    decreases l.len(),
{
    if l.len() == 0 {
        Seq::empty()
    } else if l.len() == 1 {
        enc_tool(l[0])
    } else {
        enc_tool(l[0]) + seq![','] + enc_tool_items(l.drop_first())
    }
}

pub open spec fn enc_tool_array(l: Seq<ToolV>) -> Seq<char> {
    seq!['['] + enc_tool_items(l) + seq![']']
}

pub open spec fn p_tool_items(t: Seq<char>) -> Option<(Seq<ToolV>, Seq<char>)>
    decreases t.len(),
{
    match p_tool(t) {
        Some((p, r)) => {
            if r.len() == 0 {
                None
            } else if r[0] == ']' {
                Some((seq![p], r.drop_first()))
            } else if r[0] == ',' && r.len() < t.len() {
                match p_tool_items(r.drop_first()) {
                    Some((l, r2)) => Some((seq![p] + l, r2)),
                    None => None,
                }
            } else {
                None
            }
        },
        None => None,
    }
}

pub open spec fn p_tool_array(t: Seq<char>) -> Option<(Seq<ToolV>, Seq<char>)> {
    if t.len() > 0 && t[0] == '[' {
        let t1 = t.drop_first();
        if t1.len() > 0 && t1[0] == ']' {
            Some((Seq::empty(), t1.drop_first()))
        } else {
            p_tool_items(t1)
        }
    } else {
        None
    }
}

/// The `tools` member's value: an array when set, `null` when not.
pub open spec fn enc_tools_field(v: Option<Seq<ToolV>>) -> Seq<char> {
    match v {
        Some(l) => enc_tool_array(l),
        None => null_text(),
    }
}

pub open spec fn p_tools_field(t: Seq<char>) -> Option<(Option<Seq<ToolV>>, Seq<char>)> {
    if t.len() > 0 && t[0] == 'n' {
        match p_lit(t, null_text()) {
            Some(rest) => Some((None, rest)),
            None => None,
        }
    } else {
        match p_tool_array(t) {
            Some((l, r)) => Some((Some(l), r)),
            None => None,
        }
    }
}

proof fn lemma_p_tool_items(l: Seq<ToolV>, r: Seq<char>)
    requires
        l.len() >= 1,
    ensures
        p_tool_items(enc_tool_items(l) + (seq![']'] + r)) == Some((l, r)),
    decreases l.len(),
{
    if l.len() == 1 {
        let t = enc_tool_items(l) + (seq![']'] + r);
        assert(t =~= enc_tool(l[0]) + (seq![']'] + r));
        lemma_p_tool(l[0], seq![']'] + r);
        assert((seq![']'] + r)[0] == ']');
        assert((seq![']'] + r).drop_first() =~= r);
        assert(seq![l[0]] =~= l);
    } else {
        let t = enc_tool_items(l) + (seq![']'] + r);
        let tail = enc_tool_items(l.drop_first()) + (seq![']'] + r);
        assert(t =~= enc_tool(l[0]) + (seq![','] + tail));
        lemma_p_tool(l[0], seq![','] + tail);
        let r1 = seq![','] + tail;
        assert(r1[0] == ',');
        assert(r1.drop_first() =~= tail);
        lemma_p_tool_items(l.drop_first(), r);
        assert(seq![l[0]] + l.drop_first() =~= l);
    }
}

proof fn lemma_p_tools_field(v: Option<Seq<ToolV>>, r: Seq<char>)
    ensures
        p_tools_field(enc_tools_field(v) + r) == Some((v, r)),
{
    let t = enc_tools_field(v) + r;
    match v {
        None => {
            assert(t[0] == 'n');
            assert(t =~= null_text() + r);
            lemma_p_lit(null_text(), r);
        },
        Some(l) => {
            assert(t[0] == '[');
            assert(t =~= enc_tool_array(l) + r);
            if l.len() == 0 {
                assert(t.drop_first() =~= seq![']'] + r);
                assert((seq![']'] + r)[0] == ']');
                assert((seq![']'] + r).drop_first() =~= r);
                assert(Seq::<ToolV>::empty() =~= l);
            } else {
                assert(t.drop_first() =~= enc_tool_items(l) + (seq![']'] + r));
                lemma_p_tool_items(l, r);
                if l.len() == 1 {
                    assert(enc_tool_items(l) == enc_tool(l[0]));
                }
                assert(enc_tool_items(l)[0] == '{');
                assert(t.drop_first()[0] == '{');
            }
        },
    }
}

proof fn lemma_enc_tool_items_snoc(l: Seq<ToolV>, k: int)
    requires
        1 <= k < l.len(),
    ensures
        enc_tool_items(l.take(k + 1)) == enc_tool_items(l.take(k)) + seq![','] + enc_tool(l[k]),
    decreases k,
{
    if k == 1 {
        let a = l.take(2);
        assert(a.len() == 2);
        assert(a.drop_first() =~= seq![l[1]]);
        assert(enc_tool_items(seq![l[1]]) == enc_tool(l[1]));
        assert(l.take(1) =~= seq![l[0]]);
        assert(enc_tool_items(l.take(1)) == enc_tool(l[0]));
        assert(a[0] == l[0]);
        assert(enc_tool_items(a) == enc_tool(l[0]) + seq![','] + enc_tool(l[1]));
    } else {
        let a = l.take(k + 1);
        assert(a.len() == k + 1 >= 3);
        assert(a.drop_first() =~= l.drop_first().take(k));
        lemma_enc_tool_items_snoc(l.drop_first(), k - 1);
        assert(l.drop_first()[k - 1] == l[k]);
        assert(l.drop_first().take(k - 1) =~= l.take(k).drop_first());
        assert(enc_tool_items(a) == enc_tool(a[0]) + seq![','] + enc_tool_items(a.drop_first()));
        assert(enc_tool_items(l.take(k)) == enc_tool(l[0]) + seq![','] + enc_tool_items(
            l.take(k).drop_first(),
        ));
        assert(enc_tool(l[0]) + seq![','] + (enc_tool_items(l.take(k).drop_first()) + seq![',']
            + enc_tool(l[k])) =~= (enc_tool(l[0]) + seq![','] + enc_tool_items(
            l.take(k).drop_first(),
        )) + seq![','] + enc_tool(l[k]));
    }
}

fn enc_tools_field_exec(out: &mut Vec<char>, v: &Option<Vec<Tool>>)
    ensures
        final(out)@ == old(out)@ + enc_tools_field(crate::chat::view_tools(*v)),
{
    match v {
        None => {
            enc_null_exec(out);
        },
        Some(l) => {
            out.push('[');
            let n = l.len();
            let mut k: usize = 0;
            while k < n
                invariant
                    0 <= k <= n,
                    l@.len() == n,
                    out@ == old(out)@ + seq!['['] + enc_tool_items(
                        view_tool_list(l@).take(k as int),
                    ),
                decreases n - k,
            {
                let ghost dv = view_tool_list(l@);
                if k == 0 {
                    enc_tool_exec(out, &l[0]);
                    proof {
                        assert(dv.take(0int) =~= Seq::<ToolV>::empty());
                        assert(enc_tool_items(dv.take(0int)) == Seq::<char>::empty());
                        assert(dv.take(1int) =~= seq![dv[0int]]);
                        assert(enc_tool_items(dv.take(1int)) == enc_tool(dv[0int]));
                        assert(dv[0int] == l@[0int]@);
                        assert(out@ =~= old(out)@ + seq!['['] + enc_tool_items(dv.take(1int)));
                    }
                } else {
                    out.push(',');
                    enc_tool_exec(out, &l[k]);
                    proof {
                        lemma_enc_tool_items_snoc(dv, k as int);
                        assert(dv[k as int] == l@[k as int]@);
                        assert(out@ =~= old(out)@ + seq!['['] + enc_tool_items(dv.take(k + 1)));
                    }
                }
                k = k + 1;
            }
            out.push(']');
            proof {
                assert(view_tool_list(l@).take(n as int) =~= view_tool_list(l@));
                assert(out@ =~= old(out)@ + enc_tools_field(crate::chat::view_tools(*v)));
            }
        },
    }
}

fn p_tools_field_exec(t: &str, i: usize) -> (r: Option<(Option<Vec<Tool>>, usize)>)
    requires
        i <= t@.len(),
    ensures
        match r {
            Some((v, j)) => i < j <= t@.len() && p_tools_field(t@.skip(i as int)) == Some(
                (crate::chat::view_tools(v), t@.skip(j as int)),
            ),
            None => p_tools_field(t@.skip(i as int)) is None,
        },
{
    let len = t.unicode_len();
    if i >= len {
        return None;
    }
    let c = t.get_char(i);
    assert(t@.skip(i as int)[0] == c);
    if c == 'n' {
        proof {
            reveal_strlit("null");
            assert("null"@ =~= null_text());
        }
        match p_lit_exec(t, i, "null") {
            Some(j) => {
                return Some((None, j));
            },
            None => {
                return None;
            },
        }
    }
    if c != '[' {
        return None;
    }
    proof {
        lemma_skip_drop(t@, i as int);
    }
    if i + 1 < len && t.get_char(i + 1) == ']' {
        proof {
            lemma_skip_drop(t@, i + 1);
        }
        let out: Vec<Tool> = Vec::new();
        assert(view_tool_list(out@) =~= Seq::<ToolV>::empty());
        return Some((Some(out), i + 2));
    }
    assert(t@.skip(i + 1).len() > 0 ==> t@.skip(i + 1)[0] != ']');
    let mut acc: Vec<Tool> = Vec::new();
    let mut j: usize = i + 1;
    assert(view_tool_list(acc@) =~= Seq::<ToolV>::empty());
    loop
        invariant
            i + 1 <= j <= len,
            len == t@.len(),
            t@.skip(i as int)[0] == '[',
            !(t@.skip(i as int).drop_first().len() > 0 && t@.skip(i as int).drop_first()[0]
                == ']'),
            t@.skip(i as int).drop_first() == t@.skip(i + 1),
            match p_tool_items(t@.skip(j as int)) {
                Some((l, rest)) => p_tool_array(t@.skip(i as int)) == Some(
                    (view_tool_list(acc@) + l, rest),
                ),
                None => p_tool_array(t@.skip(i as int)) is None,
            },
        decreases len - j,
    {
        let ghost tj = t@.skip(j as int);
        match p_tool_exec(t, j) {
            None => {
                return None;
            },
            Some((p, j2)) => {
                if j2 >= len {
                    return None;
                }
                let c2 = t.get_char(j2);
                assert(t@.skip(j2 as int)[0] == c2);
                let ghost pv = p@;
                if c2 == ']' {
                    let ghost olddv = view_tool_list(acc@);
                    acc.push(p);
                    proof {
                        lemma_skip_drop(t@, j2 as int);
                        assert(p_tool_items(tj) == Some((seq![pv], t@.skip(j2 + 1))));
                        assert(view_tool_list(acc@) =~= olddv + seq![pv]);
                    }
                    return Some((Some(acc), j2 + 1));
                } else if c2 == ',' {
                    let ghost olddv = view_tool_list(acc@);
                    acc.push(p);
                    proof {
                        lemma_skip_drop(t@, j2 as int);
                        assert(t@.skip(j2 as int).len() < tj.len());
                        match p_tool_items(t@.skip(j2 + 1)) {
                            Some((l, rest)) => {
                                assert(p_tool_items(tj) == Some((seq![pv] + l, rest)));
                                assert(view_tool_list(acc@) =~= olddv + seq![pv]);
                                assert((olddv + seq![pv]) + l =~= olddv + (seq![pv] + l));
                            },
                            None => {},
                        }
                    }
                    j = j2 + 1;
                } else {
                    return None;
                }
            },
        }
    }
}

/// The wire text of a tool choice: `none`, `auto` or `required`.
pub open spec fn tool_choice_text(tc: ToolChoice) -> Seq<char> {
    match tc {
        ToolChoice::Disabled => "none"@,
        ToolChoice::Auto => "auto"@,
        ToolChoice::Required => "required"@,
    }
}

pub open spec fn enc_tool_choice_field(v: Option<ToolChoice>) -> Seq<char> {
    match v {
        Some(tc) => enc_string(tool_choice_text(tc)),
        None => null_text(),
    }
}

pub open spec fn p_tool_choice_field(t: Seq<char>) -> Option<(Option<ToolChoice>, Seq<char>)> {
    if t.len() > 0 && t[0] == 'n' {
        match p_lit(t, null_text()) {
            Some(rest) => Some((None, rest)),
            None => None,
        }
    } else {
        match p_string(t) {
            Some((s, r)) => if s == "none"@ {
                Some((Some(ToolChoice::Disabled), r))
            } else if s == "auto"@ {
                Some((Some(ToolChoice::Auto), r))
            } else if s == "required"@ {
                Some((Some(ToolChoice::Required), r))
            } else {
                None
            },
            None => None,
        }
    }
}

proof fn lemma_p_tool_choice_field(v: Option<ToolChoice>, r: Seq<char>)
    ensures
        p_tool_choice_field(enc_tool_choice_field(v) + r) == Some((v, r)),
{
    reveal_strlit("none");
    reveal_strlit("auto");
    reveal_strlit("required");
    let t = enc_tool_choice_field(v) + r;
    match v {
        None => {
            assert(t[0] == 'n');
            assert(t =~= null_text() + r);
            lemma_p_lit(null_text(), r);
        },
        Some(tc) => {
            assert(t[0] == '"');
            lemma_p_string(tool_choice_text(tc), r);
            assert("none"@[0] == 'n' && "auto"@[0] == 'a');
            assert("none"@ != "auto"@);
            assert("none"@ != "required"@);
            assert("auto"@ != "required"@);
        },
    }
}

fn enc_tool_choice_field_exec(out: &mut Vec<char>, v: &Option<ToolChoice>)
    ensures
        final(out)@ == old(out)@ + enc_tool_choice_field(*v),
{
    proof {
        reveal_strlit("none");
        reveal_strlit("auto");
        reveal_strlit("required");
    }
    match v {
        None => {
            enc_null_exec(out);
        },
        Some(tc) => {
            match tc {
                ToolChoice::Disabled => enc_string_exec(out, "none"),
                ToolChoice::Auto => enc_string_exec(out, "auto"),
                ToolChoice::Required => enc_string_exec(out, "required"),
            }
        },
    }
}

fn p_tool_choice_field_exec(t: &str, i: usize) -> (r: Option<(Option<ToolChoice>, usize)>)
    requires
        i <= t@.len(),
    ensures
        match r {
            Some((v, j)) => i < j <= t@.len() && p_tool_choice_field(t@.skip(i as int)) == Some(
                (v, t@.skip(j as int)),
            ),
            None => p_tool_choice_field(t@.skip(i as int)) is None,
        },
{
    let len = t.unicode_len();
    if i >= len {
        return None;
    }
    let c = t.get_char(i);
    assert(t@.skip(i as int)[0] == c);
    if c == 'n' {
        proof {
            reveal_strlit("null");
            assert("null"@ =~= null_text());
        }
        match p_lit_exec(t, i, "null") {
            Some(j) => {
                return Some((None, j));
            },
            None => {
                return None;
            },
        }
    }
    match p_string_exec(t, i) {
        Some((s, j)) => {
            if chars_eq_str(&s, "none") {
                Some((Some(ToolChoice::Disabled), j))
            } else if chars_eq_str(&s, "auto") {
                Some((Some(ToolChoice::Auto), j))
            } else if chars_eq_str(&s, "required") {
                Some((Some(ToolChoice::Required), j))
            } else {
                None
            }
        },
        None => None,
    }
}

// ---------------------------------------------------------------------------
// the logit-bias map, an object of number members
// ---------------------------------------------------------------------------

pub open spec fn bias_wf(l: Seq<(Seq<char>, Seq<char>)>) -> bool {
    forall|i: int| 0 <= i < l.len() ==> number_token_wf((#[trigger] l[i]).1)
}

pub open spec fn enc_bias_entries(l: Seq<(Seq<char>, Seq<char>)>) -> Seq<char>
    decreases l.len(),
{
    if l.len() == 0 {
        Seq::empty()
    } else if l.len() == 1 {
        enc_key(l[0].0) + l[0].1
    } else {
        enc_key(l[0].0) + l[0].1 + seq![','] + enc_bias_entries(l.drop_first())
    }
}

pub open spec fn enc_bias_obj(l: Seq<(Seq<char>, Seq<char>)>) -> Seq<char> {
    seq!['{'] + enc_bias_entries(l) + seq!['}']
}

pub open spec fn p_bias_entries(k: Seq<char>, t: Seq<char>) -> Option<
    (Seq<(Seq<char>, Seq<char>)>, Seq<char>),
>
    decreases t.len(),
{
    match p_number(t) {
        Some((v, t1)) => match p_sep_key(t1) {
            Some((None, t2)) => Some((seq![(k, v)], t2)),
            Some((Some(k2), t2)) => if t2.len() < t.len() {
                match p_bias_entries(k2, t2) {
                    Some((l, t3)) => Some((seq![(k, v)] + l, t3)),
                    None => None,
                }
            } else {
                None
            },
            None => None,
        },
        None => None,
    }
}

pub open spec fn p_bias_obj(t: Seq<char>) -> Option<(Seq<(Seq<char>, Seq<char>)>, Seq<char>)> {
    if t.len() > 0 && t[0] == '{' {
        let t1 = t.drop_first();
        if t1.len() > 0 && t1[0] == '}' {
            Some((Seq::empty(), t1.drop_first()))
        } else {
            match p_key(t1) {
                Some((k, t2)) => p_bias_entries(k, t2),
                None => None,
            }
        }
    } else {
        None
    }
}

proof fn lemma_p_bias_entries(l: Seq<(Seq<char>, Seq<char>)>, r: Seq<char>)
    requires
        l.len() >= 1,
        bias_wf(l),
    ensures
        p_key(enc_bias_entries(l) + (seq!['}'] + r)) == Some(
            (l[0].0, l[0].1 + tail_after_bias_value(l, r)),
        ),
        p_bias_entries(l[0].0, l[0].1 + tail_after_bias_value(l, r)) == Some((l, r)),
    decreases l.len(),
{
    if l.len() == 1 {
        let tail = seq!['}'] + r;
        assert(enc_bias_entries(l) + tail =~= enc_key(l[0].0) + (l[0].1 + tail));
        lemma_p_key(l[0].0, l[0].1 + tail);
        assert(tail_after_bias_value(l, r) == tail);
        assert(number_token_wf(l[0].1));
        assert(tail[0] == '}');
        lemma_p_number(l[0].1, tail);
        lemma_p_sep_end(r);
        assert(seq![(l[0].0, l[0].1)] =~= l);
    } else {
        let d = l.drop_first();
        assert(d.len() >= 1 && bias_wf(d));
        lemma_p_bias_entries(d, r);
        let inner = enc_bias_entries(d) + (seq!['}'] + r);
        let x = seq![','] + inner;
        assert(enc_bias_entries(l) + (seq!['}'] + r) =~= enc_key(l[0].0) + (l[0].1 + x));
        lemma_p_key(l[0].0, l[0].1 + x);
        assert(tail_after_bias_value(l, r) == x);
        assert(number_token_wf(l[0].1));
        assert(x[0] == ',');
        lemma_p_number(l[0].1, x);
        assert(x.drop_first() =~= inner);
        // the separator hands over the next entry's key
        assert(p_sep_key(x) == Some((Some(d[0].0), d[0].1 + tail_after_bias_value(d, r))));
        // the recursion guard: what remains is shorter than what we parsed from
        assert(inner =~= enc_key(d[0].0) + (d[0].1 + tail_after_bias_value(d, r)));
        assert((d[0].1 + tail_after_bias_value(d, r)).len() < (l[0].1 + x).len());
        assert(seq![(l[0].0, l[0].1)] + d =~= l);
    }
}

/// What follows the first bias value: the closing brace for the last entry, a
/// comma and the rest otherwise.
pub open spec fn tail_after_bias_value(l: Seq<(Seq<char>, Seq<char>)>, r: Seq<char>) -> Seq<char> {
    if l.len() == 1 {
        seq!['}'] + r
    } else {
        seq![','] + (enc_bias_entries(l.drop_first()) + (seq!['}'] + r))
    }
}

// ---------------------------------------------------------------------------
// the composite request object, member by member
//
// Encoding walks the members in their fixed order; each stage contributes its
// member when present. Parsing mirrors the stages, each one holding the key
// read by its predecessor and passing the next key on.
// ---------------------------------------------------------------------------

pub open spec fn opt_num_wf(v: Option<Seq<char>>) -> bool {
    match v {
        Some(s) => number_token_wf(s),
        None => true,
    }
}

/// The number-valued members hold well-shaped number tokens.
pub open spec fn rc_wf(m: RagChatCompletionsRequestV) -> bool {
    &&& opt_num_wf(m.temperature)
    &&& opt_num_wf(m.top_p)
    &&& opt_num_wf(m.presence_penalty)
    &&& opt_num_wf(m.frequency_penalty)
    &&& match m.logit_bias {
        Some(l) => bias_wf(l),
        None => true,
    }
}

pub open spec fn opt_num_field(k: Seq<char>, v: Option<Seq<char>>) -> Seq<char> {
    match v {
        Some(s) => seq![','] + enc_key(k) + s,
        None => Seq::empty(),
    }
}

pub open spec fn opt_u64_field(k: Seq<char>, v: Option<u64>) -> Seq<char> {
    match v {
        Some(n) => seq![','] + enc_key(k) + dec_digits(n as nat),
        None => Seq::empty(),
    }
}

pub open spec fn opt_bool_field(k: Seq<char>, v: Option<bool>) -> Seq<char> {
    match v {
        Some(b) => seq![','] + enc_key(k) + enc_bool(b),
        None => Seq::empty(),
    }
}

pub open spec fn rc_empty() -> RagChatCompletionsRequestV {
    RagChatCompletionsRequestV {
        chat_model: None,
        messages: Seq::empty(),
        embedding_model: Seq::empty(),
        encoding_format: None,
        qdrant_url: Seq::empty(),
        qdrant_collection_name: Seq::empty(),
        limit: 0,
        temperature: None,
        top_p: None,
        n_choice: None,
        stream: None,
        stream_options: None,
        stop: None,
        max_tokens: None,
        presence_penalty: None,
        frequency_penalty: None,
        logit_bias: None,
        user: None,
        response_format: None,
        tools: None,
        tool_choice: None,
        context_window: None,
    }
}

// stage encoders, from each member to the closing brace

#[verifier::opaque]
pub open spec fn enc_rc_from_context_window(m: RagChatCompletionsRequestV) -> Seq<char> {
    opt_u64_field("context_window"@, m.context_window) + seq!['}']
}

#[verifier::opaque]
pub open spec fn enc_rc_from_tool_choice(m: RagChatCompletionsRequestV) -> Seq<char> {
    (seq![','] + enc_key("tool_choice"@) + enc_tool_choice_field(m.tool_choice))
        + enc_rc_from_context_window(m)
}

#[verifier::opaque]
pub open spec fn enc_rc_from_tools(m: RagChatCompletionsRequestV) -> Seq<char> {
    (seq![','] + enc_key("tools"@) + enc_tools_field(m.tools)) + enc_rc_from_tool_choice(m)
}

#[verifier::opaque]
pub open spec fn enc_rc_from_response_format(m: RagChatCompletionsRequestV) -> Seq<char> {
    (match m.response_format {
        Some(f) => seq![','] + enc_key("response_format"@) + enc_response_format(f),
        None => Seq::empty(),
    }) + enc_rc_from_tools(m)
}

#[verifier::opaque]
pub open spec fn enc_rc_from_user(m: RagChatCompletionsRequestV) -> Seq<char> {
    opt_str_field("user"@, m.user) + enc_rc_from_response_format(m)
}

#[verifier::opaque]
pub open spec fn enc_rc_from_logit_bias(m: RagChatCompletionsRequestV) -> Seq<char> {
    (match m.logit_bias {
        Some(l) => seq![','] + enc_key("logit_bias"@) + enc_bias_obj(l),
        None => Seq::empty(),
    }) + enc_rc_from_user(m)
}

#[verifier::opaque]
pub open spec fn enc_rc_from_frequency_penalty(m: RagChatCompletionsRequestV) -> Seq<char> {
    opt_num_field("frequency_penalty"@, m.frequency_penalty) + enc_rc_from_logit_bias(m)
}

#[verifier::opaque]
pub open spec fn enc_rc_from_presence_penalty(m: RagChatCompletionsRequestV) -> Seq<char> {
    opt_num_field("presence_penalty"@, m.presence_penalty) + enc_rc_from_frequency_penalty(m)
}

#[verifier::opaque]
pub open spec fn enc_rc_from_max_tokens(m: RagChatCompletionsRequestV) -> Seq<char> {
    opt_u64_field("max_tokens"@, m.max_tokens) + enc_rc_from_presence_penalty(m)
}

#[verifier::opaque]
pub open spec fn enc_rc_from_stop(m: RagChatCompletionsRequestV) -> Seq<char> {
    (match m.stop {
        Some(l) => seq![','] + enc_key("stop"@) + crate::json::enc_str_array(l),
        None => Seq::empty(),
    }) + enc_rc_from_max_tokens(m)
}

#[verifier::opaque]
pub open spec fn enc_rc_from_stream_options(m: RagChatCompletionsRequestV) -> Seq<char> {
    (match m.stream_options {
        Some(s) => seq![','] + enc_key("stream_options"@) + enc_stream_options(s),
        None => Seq::empty(),
    }) + enc_rc_from_stop(m)
}

#[verifier::opaque]
pub open spec fn enc_rc_from_stream(m: RagChatCompletionsRequestV) -> Seq<char> {
    opt_bool_field("stream"@, m.stream) + enc_rc_from_stream_options(m)
}

#[verifier::opaque]
pub open spec fn enc_rc_from_n_choice(m: RagChatCompletionsRequestV) -> Seq<char> {
    opt_u64_field("n_choice"@, m.n_choice) + enc_rc_from_stream(m)
}

#[verifier::opaque]
pub open spec fn enc_rc_from_top_p(m: RagChatCompletionsRequestV) -> Seq<char> {
    opt_num_field("top_p"@, m.top_p) + enc_rc_from_n_choice(m)
}

#[verifier::opaque]
pub open spec fn enc_rc_from_temperature(m: RagChatCompletionsRequestV) -> Seq<char> {
    opt_num_field("temperature"@, m.temperature) + enc_rc_from_top_p(m)
}

#[verifier::opaque]
pub open spec fn enc_rc_from_limit(m: RagChatCompletionsRequestV) -> Seq<char> {
    (seq![','] + enc_key("limit"@) + dec_digits(m.limit as nat)) + enc_rc_from_temperature(m)
}

#[verifier::opaque]
pub open spec fn enc_rc_from_qdrant_collection_name(m: RagChatCompletionsRequestV) -> Seq<char> {
    (seq![','] + enc_key("qdrant_collection_name"@) + enc_string(m.qdrant_collection_name))
        + enc_rc_from_limit(m)
}

#[verifier::opaque]
pub open spec fn enc_rc_from_qdrant_url(m: RagChatCompletionsRequestV) -> Seq<char> {
    (seq![','] + enc_key("qdrant_url"@) + enc_string(m.qdrant_url))
        + enc_rc_from_qdrant_collection_name(m)
}

#[verifier::opaque]
pub open spec fn enc_rc_from_encoding_format(m: RagChatCompletionsRequestV) -> Seq<char> {
    opt_str_field("encoding_format"@, m.encoding_format) + enc_rc_from_qdrant_url(m)
}

#[verifier::opaque]
pub open spec fn enc_rc_from_embedding_model(m: RagChatCompletionsRequestV) -> Seq<char> {
    (seq![','] + enc_key("embedding_model"@) + enc_string(m.embedding_model))
        + enc_rc_from_encoding_format(m)
}

/// The whole wire form: `chat_model` first when present, then `messages`,
/// then the remaining members in order.
pub open spec fn enc_rag_chat(m: RagChatCompletionsRequestV) -> Seq<char> {
    seq!['{'] + (match m.chat_model {
        Some(s) => enc_key("chat_model"@) + enc_string(s) + seq![','],
        None => Seq::empty(),
    }) + enc_key("messages"@) + enc_message_array(m.messages) + enc_rc_from_embedding_model(m)
}

// truncated models: what each parsing stage contributes

#[verifier::opaque]
pub open spec fn rc_model_from_context_window(m: RagChatCompletionsRequestV)
    -> RagChatCompletionsRequestV {
    RagChatCompletionsRequestV { context_window: m.context_window, ..rc_empty() }
}

#[verifier::opaque]
pub open spec fn rc_model_from_tool_choice(m: RagChatCompletionsRequestV)
    -> RagChatCompletionsRequestV {
    RagChatCompletionsRequestV { tool_choice: m.tool_choice, ..rc_model_from_context_window(m) }
}

#[verifier::opaque]
pub open spec fn rc_model_from_tools(m: RagChatCompletionsRequestV) -> RagChatCompletionsRequestV {
    RagChatCompletionsRequestV { tools: m.tools, ..rc_model_from_tool_choice(m) }
}

#[verifier::opaque]
pub open spec fn rc_model_from_response_format(m: RagChatCompletionsRequestV)
    -> RagChatCompletionsRequestV {
    RagChatCompletionsRequestV { response_format: m.response_format, ..rc_model_from_tools(m) }
}

#[verifier::opaque]
pub open spec fn rc_model_from_user(m: RagChatCompletionsRequestV) -> RagChatCompletionsRequestV {
    RagChatCompletionsRequestV { user: m.user, ..rc_model_from_response_format(m) }
}

#[verifier::opaque]
pub open spec fn rc_model_from_logit_bias(m: RagChatCompletionsRequestV)
    -> RagChatCompletionsRequestV {
    RagChatCompletionsRequestV { logit_bias: m.logit_bias, ..rc_model_from_user(m) }
}

#[verifier::opaque]
pub open spec fn rc_model_from_frequency_penalty(m: RagChatCompletionsRequestV)
    -> RagChatCompletionsRequestV {
    RagChatCompletionsRequestV {
        frequency_penalty: m.frequency_penalty,
        ..rc_model_from_logit_bias(m)
    }
}

#[verifier::opaque]
pub open spec fn rc_model_from_presence_penalty(m: RagChatCompletionsRequestV)
    -> RagChatCompletionsRequestV {
    RagChatCompletionsRequestV {
        presence_penalty: m.presence_penalty,
        ..rc_model_from_frequency_penalty(m)
    }
}

#[verifier::opaque]
pub open spec fn rc_model_from_max_tokens(m: RagChatCompletionsRequestV)
    -> RagChatCompletionsRequestV {
    RagChatCompletionsRequestV { max_tokens: m.max_tokens, ..rc_model_from_presence_penalty(m) }
}

#[verifier::opaque]
pub open spec fn rc_model_from_stop(m: RagChatCompletionsRequestV) -> RagChatCompletionsRequestV {
    RagChatCompletionsRequestV { stop: m.stop, ..rc_model_from_max_tokens(m) }
}

#[verifier::opaque]
pub open spec fn rc_model_from_stream_options(m: RagChatCompletionsRequestV)
    -> RagChatCompletionsRequestV {
    RagChatCompletionsRequestV { stream_options: m.stream_options, ..rc_model_from_stop(m) }
}

#[verifier::opaque]
pub open spec fn rc_model_from_stream(m: RagChatCompletionsRequestV)
    -> RagChatCompletionsRequestV {
    RagChatCompletionsRequestV { stream: m.stream, ..rc_model_from_stream_options(m) }
}

#[verifier::opaque]
pub open spec fn rc_model_from_n_choice(m: RagChatCompletionsRequestV)
    -> RagChatCompletionsRequestV {
    RagChatCompletionsRequestV { n_choice: m.n_choice, ..rc_model_from_stream(m) }
}

#[verifier::opaque]
pub open spec fn rc_model_from_top_p(m: RagChatCompletionsRequestV) -> RagChatCompletionsRequestV {
    RagChatCompletionsRequestV { top_p: m.top_p, ..rc_model_from_n_choice(m) }
}

#[verifier::opaque]
pub open spec fn rc_model_from_temperature(m: RagChatCompletionsRequestV)
    -> RagChatCompletionsRequestV {
    RagChatCompletionsRequestV { temperature: m.temperature, ..rc_model_from_top_p(m) }
}

#[verifier::opaque]
pub open spec fn rc_model_from_limit(m: RagChatCompletionsRequestV) -> RagChatCompletionsRequestV {
    RagChatCompletionsRequestV { limit: m.limit, ..rc_model_from_temperature(m) }
}

#[verifier::opaque]
pub open spec fn rc_model_from_qdrant_collection_name(m: RagChatCompletionsRequestV)
    -> RagChatCompletionsRequestV {
    RagChatCompletionsRequestV {
        qdrant_collection_name: m.qdrant_collection_name,
        ..rc_model_from_limit(m)
    }
}

#[verifier::opaque]
pub open spec fn rc_model_from_qdrant_url(m: RagChatCompletionsRequestV)
    -> RagChatCompletionsRequestV {
    RagChatCompletionsRequestV {
        qdrant_url: m.qdrant_url,
        ..rc_model_from_qdrant_collection_name(m)
    }
}

#[verifier::opaque]
pub open spec fn rc_model_from_encoding_format(m: RagChatCompletionsRequestV)
    -> RagChatCompletionsRequestV {
    RagChatCompletionsRequestV {
        encoding_format: m.encoding_format,
        ..rc_model_from_qdrant_url(m)
    }
}

#[verifier::opaque]
pub open spec fn rc_model_from_embedding_model(m: RagChatCompletionsRequestV)
    -> RagChatCompletionsRequestV {
    RagChatCompletionsRequestV {
        embedding_model: m.embedding_model,
        ..rc_model_from_encoding_format(m)
    }
}

#[verifier::opaque]
pub open spec fn rc_model_from_messages(m: RagChatCompletionsRequestV)
    -> RagChatCompletionsRequestV {
    RagChatCompletionsRequestV { messages: m.messages, ..rc_model_from_embedding_model(m) }
}

// parsing stages

#[verifier::opaque]
pub open spec fn p_rc_context_window(k: Option<Seq<char>>, t: Seq<char>) -> Option<
    (RagChatCompletionsRequestV, Seq<char>),
> {
    if k == Some("context_window"@) {
        match p_u64(t) {
            Some((v, t1)) => match p_sep_key(t1) {
                Some((None, t2)) => Some(
                    (
                        RagChatCompletionsRequestV { context_window: Some(v), ..rc_empty() },
                        t2,
                    ),
                ),
                _ => None,
            },
            None => None,
        }
    } else if k is None {
        Some((rc_empty(), t))
    } else {
        None
    }
}

#[verifier::opaque]
pub open spec fn p_rc_tool_choice(k: Option<Seq<char>>, t: Seq<char>) -> Option<
    (RagChatCompletionsRequestV, Seq<char>),
> {
    if k == Some("tool_choice"@) {
        match p_tool_choice_field(t) {
            Some((v, t1)) => match p_sep_key(t1) {
                Some((k2, t2)) => match p_rc_context_window(k2, t2) {
                    Some((m, r)) => Some(
                        (RagChatCompletionsRequestV { tool_choice: v, ..m }, r),
                    ),
                    None => None,
                },
                None => None,
            },
            None => None,
        }
    } else {
        None
    }
}

#[verifier::opaque]
pub open spec fn p_rc_tools(k: Option<Seq<char>>, t: Seq<char>) -> Option<
    (RagChatCompletionsRequestV, Seq<char>),
> {
    if k == Some("tools"@) {
        match p_tools_field(t) {
            Some((v, t1)) => match p_sep_key(t1) {
                Some((k2, t2)) => match p_rc_tool_choice(k2, t2) {
                    Some((m, r)) => Some((RagChatCompletionsRequestV { tools: v, ..m }, r)),
                    None => None,
                },
                None => None,
            },
            None => None,
        }
    } else {
        None
    }
}

#[verifier::opaque]
pub open spec fn p_rc_response_format(k: Option<Seq<char>>, t: Seq<char>) -> Option<
    (RagChatCompletionsRequestV, Seq<char>),
> {
    if k == Some("response_format"@) {
        match p_response_format(t) {
            Some((v, t1)) => match p_sep_key(t1) {
                Some((k2, t2)) => match p_rc_tools(k2, t2) {
                    Some((m, r)) => Some(
                        (RagChatCompletionsRequestV { response_format: Some(v), ..m }, r),
                    ),
                    None => None,
                },
                None => None,
            },
            None => None,
        }
    } else {
        match p_rc_tools(k, t) {
            Some((m, r)) => Some((RagChatCompletionsRequestV { response_format: None, ..m }, r)),
            None => None,
        }
    }
}

#[verifier::opaque]
pub open spec fn p_rc_user(k: Option<Seq<char>>, t: Seq<char>) -> Option<
    (RagChatCompletionsRequestV, Seq<char>),
> {
    if k == Some("user"@) {
        match p_string(t) {
            Some((v, t1)) => match p_sep_key(t1) {
                Some((k2, t2)) => match p_rc_response_format(k2, t2) {
                    Some((m, r)) => Some(
                        (RagChatCompletionsRequestV { user: Some(v), ..m }, r),
                    ),
                    None => None,
                },
                None => None,
            },
            None => None,
        }
    } else {
        match p_rc_response_format(k, t) {
            Some((m, r)) => Some((RagChatCompletionsRequestV { user: None, ..m }, r)),
            None => None,
        }
    }
}

#[verifier::opaque]
pub open spec fn p_rc_logit_bias(k: Option<Seq<char>>, t: Seq<char>) -> Option<
    (RagChatCompletionsRequestV, Seq<char>),
> {
    if k == Some("logit_bias"@) {
        match p_bias_obj(t) {
            Some((v, t1)) => match p_sep_key(t1) {
                Some((k2, t2)) => match p_rc_user(k2, t2) {
                    Some((m, r)) => Some(
                        (RagChatCompletionsRequestV { logit_bias: Some(v), ..m }, r),
                    ),
                    None => None,
                },
                None => None,
            },
            None => None,
        }
    } else {
        match p_rc_user(k, t) {
            Some((m, r)) => Some((RagChatCompletionsRequestV { logit_bias: None, ..m }, r)),
            None => None,
        }
    }
}

#[verifier::opaque]
pub open spec fn p_rc_frequency_penalty(k: Option<Seq<char>>, t: Seq<char>) -> Option<
    (RagChatCompletionsRequestV, Seq<char>),
> {
    if k == Some("frequency_penalty"@) {
        match p_number(t) {
            Some((v, t1)) => match p_sep_key(t1) {
                Some((k2, t2)) => match p_rc_logit_bias(k2, t2) {
                    Some((m, r)) => Some(
                        (RagChatCompletionsRequestV { frequency_penalty: Some(v), ..m }, r),
                    ),
                    None => None,
                },
                None => None,
            },
            None => None,
        }
    } else {
        match p_rc_logit_bias(k, t) {
            Some((m, r)) => Some(
                (RagChatCompletionsRequestV { frequency_penalty: None, ..m }, r),
            ),
            None => None,
        }
    }
}

#[verifier::opaque]
pub open spec fn p_rc_presence_penalty(k: Option<Seq<char>>, t: Seq<char>) -> Option<
    (RagChatCompletionsRequestV, Seq<char>),
> {
    if k == Some("presence_penalty"@) {
        match p_number(t) {
            Some((v, t1)) => match p_sep_key(t1) {
                Some((k2, t2)) => match p_rc_frequency_penalty(k2, t2) {
                    Some((m, r)) => Some(
                        (RagChatCompletionsRequestV { presence_penalty: Some(v), ..m }, r),
                    ),
                    None => None,
                },
                None => None,
            },
            None => None,
        }
    } else {
        match p_rc_frequency_penalty(k, t) {
            Some((m, r)) => Some(
                (RagChatCompletionsRequestV { presence_penalty: None, ..m }, r),
            ),
            None => None,
        }
    }
}

#[verifier::opaque]
pub open spec fn p_rc_max_tokens(k: Option<Seq<char>>, t: Seq<char>) -> Option<
    (RagChatCompletionsRequestV, Seq<char>),
> {
    if k == Some("max_tokens"@) {
        match p_u64(t) {
            Some((v, t1)) => match p_sep_key(t1) {
                Some((k2, t2)) => match p_rc_presence_penalty(k2, t2) {
                    Some((m, r)) => Some(
                        (RagChatCompletionsRequestV { max_tokens: Some(v), ..m }, r),
                    ),
                    None => None,
                },
                None => None,
            },
            None => None,
        }
    } else {
        match p_rc_presence_penalty(k, t) {
            Some((m, r)) => Some((RagChatCompletionsRequestV { max_tokens: None, ..m }, r)),
            None => None,
        }
    }
}

#[verifier::opaque]
pub open spec fn p_rc_stop(k: Option<Seq<char>>, t: Seq<char>) -> Option<
    (RagChatCompletionsRequestV, Seq<char>),
> {
    if k == Some("stop"@) {
        match crate::json::p_str_array(t) {
            Some((v, t1)) => match p_sep_key(t1) {
                Some((k2, t2)) => match p_rc_max_tokens(k2, t2) {
                    Some((m, r)) => Some(
                        (RagChatCompletionsRequestV { stop: Some(v), ..m }, r),
                    ),
                    None => None,
                },
                None => None,
            },
            None => None,
        }
    } else {
        match p_rc_max_tokens(k, t) {
            Some((m, r)) => Some((RagChatCompletionsRequestV { stop: None, ..m }, r)),
            None => None,
        }
    }
}

#[verifier::opaque]
pub open spec fn p_rc_stream_options(k: Option<Seq<char>>, t: Seq<char>) -> Option<
    (RagChatCompletionsRequestV, Seq<char>),
> {
    if k == Some("stream_options"@) {
        match p_stream_options(t) {
            Some((v, t1)) => match p_sep_key(t1) {
                Some((k2, t2)) => match p_rc_stop(k2, t2) {
                    Some((m, r)) => Some(
                        (RagChatCompletionsRequestV { stream_options: Some(v), ..m }, r),
                    ),
                    None => None,
                },
                None => None,
            },
            None => None,
        }
    } else {
        match p_rc_stop(k, t) {
            Some((m, r)) => Some((RagChatCompletionsRequestV { stream_options: None, ..m }, r)),
            None => None,
        }
    }
}

#[verifier::opaque]
pub open spec fn p_rc_stream(k: Option<Seq<char>>, t: Seq<char>) -> Option<
    (RagChatCompletionsRequestV, Seq<char>),
> {
    if k == Some("stream"@) {
        match p_bool(t) {
            Some((v, t1)) => match p_sep_key(t1) {
                Some((k2, t2)) => match p_rc_stream_options(k2, t2) {
                    Some((m, r)) => Some(
                        (RagChatCompletionsRequestV { stream: Some(v), ..m }, r),
                    ),
                    None => None,
                },
                None => None,
            },
            None => None,
        }
    } else {
        match p_rc_stream_options(k, t) {
            Some((m, r)) => Some((RagChatCompletionsRequestV { stream: None, ..m }, r)),
            None => None,
        }
    }
}

#[verifier::opaque]
pub open spec fn p_rc_n_choice(k: Option<Seq<char>>, t: Seq<char>) -> Option<
    (RagChatCompletionsRequestV, Seq<char>),
> {
    if k == Some("n_choice"@) {
        match p_u64(t) {
            Some((v, t1)) => match p_sep_key(t1) {
                Some((k2, t2)) => match p_rc_stream(k2, t2) {
                    Some((m, r)) => Some(
                        (RagChatCompletionsRequestV { n_choice: Some(v), ..m }, r),
                    ),
                    None => None,
                },
                None => None,
            },
            None => None,
        }
    } else {
        match p_rc_stream(k, t) {
            Some((m, r)) => Some((RagChatCompletionsRequestV { n_choice: None, ..m }, r)),
            None => None,
        }
    }
}

#[verifier::opaque]
pub open spec fn p_rc_top_p(k: Option<Seq<char>>, t: Seq<char>) -> Option<
    (RagChatCompletionsRequestV, Seq<char>),
> {
    if k == Some("top_p"@) {
        match p_number(t) {
            Some((v, t1)) => match p_sep_key(t1) {
                Some((k2, t2)) => match p_rc_n_choice(k2, t2) {
                    Some((m, r)) => Some(
                        (RagChatCompletionsRequestV { top_p: Some(v), ..m }, r),
                    ),
                    None => None,
                },
                None => None,
            },
            None => None,
        }
    } else {
        match p_rc_n_choice(k, t) {
            Some((m, r)) => Some((RagChatCompletionsRequestV { top_p: None, ..m }, r)),
            None => None,
        }
    }
}

#[verifier::opaque]
pub open spec fn p_rc_temperature(k: Option<Seq<char>>, t: Seq<char>) -> Option<
    (RagChatCompletionsRequestV, Seq<char>),
> {
    if k == Some("temperature"@) {
        match p_number(t) {
            Some((v, t1)) => match p_sep_key(t1) {
                Some((k2, t2)) => match p_rc_top_p(k2, t2) {
                    Some((m, r)) => Some(
                        (RagChatCompletionsRequestV { temperature: Some(v), ..m }, r),
                    ),
                    None => None,
                },
                None => None,
            },
            None => None,
        }
    } else {
        match p_rc_top_p(k, t) {
            Some((m, r)) => Some((RagChatCompletionsRequestV { temperature: None, ..m }, r)),
            None => None,
        }
    }
}

#[verifier::opaque]
pub open spec fn p_rc_limit(k: Option<Seq<char>>, t: Seq<char>) -> Option<
    (RagChatCompletionsRequestV, Seq<char>),
> {
    if k == Some("limit"@) {
        match p_u64(t) {
            Some((v, t1)) => match p_sep_key(t1) {
                Some((k2, t2)) => match p_rc_temperature(k2, t2) {
                    Some((m, r)) => Some((RagChatCompletionsRequestV { limit: v, ..m }, r)),
                    None => None,
                },
                None => None,
            },
            None => None,
        }
    } else {
        None
    }
}

#[verifier::opaque]
pub open spec fn p_rc_qdrant_collection_name(k: Option<Seq<char>>, t: Seq<char>) -> Option<
    (RagChatCompletionsRequestV, Seq<char>),
> {
    if k == Some("qdrant_collection_name"@) {
        match p_string(t) {
            Some((v, t1)) => match p_sep_key(t1) {
                Some((k2, t2)) => match p_rc_limit(k2, t2) {
                    Some((m, r)) => Some(
                        (RagChatCompletionsRequestV { qdrant_collection_name: v, ..m }, r),
                    ),
                    None => None,
                },
                None => None,
            },
            None => None,
        }
    } else {
        None
    }
}

#[verifier::opaque]
pub open spec fn p_rc_qdrant_url(k: Option<Seq<char>>, t: Seq<char>) -> Option<
    (RagChatCompletionsRequestV, Seq<char>),
> {
    if k == Some("qdrant_url"@) {
        match p_string(t) {
            Some((v, t1)) => match p_sep_key(t1) {
                Some((k2, t2)) => match p_rc_qdrant_collection_name(k2, t2) {
                    Some((m, r)) => Some(
                        (RagChatCompletionsRequestV { qdrant_url: v, ..m }, r),
                    ),
                    None => None,
                },
                None => None,
            },
            None => None,
        }
    } else {
        None
    }
}

#[verifier::opaque]
pub open spec fn p_rc_encoding_format(k: Option<Seq<char>>, t: Seq<char>) -> Option<
    (RagChatCompletionsRequestV, Seq<char>),
> {
    if k == Some("encoding_format"@) {
        match p_string(t) {
            Some((v, t1)) => match p_sep_key(t1) {
                Some((k2, t2)) => match p_rc_qdrant_url(k2, t2) {
                    Some((m, r)) => Some(
                        (RagChatCompletionsRequestV { encoding_format: Some(v), ..m }, r),
                    ),
                    None => None,
                },
                None => None,
            },
            None => None,
        }
    } else {
        match p_rc_qdrant_url(k, t) {
            Some((m, r)) => Some((RagChatCompletionsRequestV { encoding_format: None, ..m }, r)),
            None => None,
        }
    }
}

#[verifier::opaque]
pub open spec fn p_rc_embedding_model(k: Option<Seq<char>>, t: Seq<char>) -> Option<
    (RagChatCompletionsRequestV, Seq<char>),
> {
    if k == Some("embedding_model"@) {
        match p_string(t) {
            Some((v, t1)) => match p_sep_key(t1) {
                Some((k2, t2)) => match p_rc_encoding_format(k2, t2) {
                    Some((m, r)) => Some(
                        (RagChatCompletionsRequestV { embedding_model: v, ..m }, r),
                    ),
                    None => None,
                },
                None => None,
            },
            None => None,
        }
    } else {
        None
    }
}

#[verifier::opaque]
pub open spec fn p_rc_messages(k: Option<Seq<char>>, t: Seq<char>) -> Option<
    (RagChatCompletionsRequestV, Seq<char>),
> {
    if k == Some("messages"@) {
        match p_message_array(t) {
            Some((v, t1)) => match p_sep_key(t1) {
                Some((k2, t2)) => match p_rc_embedding_model(k2, t2) {
                    Some((m, r)) => Some(
                        (RagChatCompletionsRequestV { messages: v, ..m }, r),
                    ),
                    None => None,
                },
                None => None,
            },
            None => None,
        }
    } else {
        None
    }
}

pub open spec fn p_rag_chat(t: Seq<char>) -> Option<(RagChatCompletionsRequestV, Seq<char>)> {
    if t.len() > 0 && t[0] == '{' {
        match p_key(t.drop_first()) {
            Some((k1, t1)) => if k1 == "chat_model"@ {
                match p_string(t1) {
                    Some((v, t2)) => match p_sep_key(t2) {
                        Some((k2, t3)) => match p_rc_messages(k2, t3) {
                            Some((m, r)) => Some(
                                (RagChatCompletionsRequestV { chat_model: Some(v), ..m }, r),
                            ),
                            None => None,
                        },
                        None => None,
                    },
                    None => None,
                }
            } else {
                match p_rc_messages(Some(k1), t1) {
                    Some((m, r)) => Some(
                        (RagChatCompletionsRequestV { chat_model: None, ..m }, r),
                    ),
                    None => None,
                }
            },
            None => None,
        }
    } else {
        None
    }
}

pub open spec fn spec_decode_rag_chat(t: Seq<char>) -> Option<RagChatCompletionsRequestV> {
    match p_rag_chat(t) {
        Some((m, rest)) => if rest.len() == 0 {
            Some(m)
        } else {
            None
        },
        None => None,
    }
}

proof fn lemma_p_bias_obj(l: Seq<(Seq<char>, Seq<char>)>, r: Seq<char>)
    requires
        bias_wf(l),
    ensures
        p_bias_obj(enc_bias_obj(l) + r) == Some((l, r)),
{
    let t = enc_bias_obj(l) + r;
    assert(t[0] == '{');
    if l.len() == 0 {
        assert(t.drop_first() =~= seq!['}'] + r);
        assert((seq!['}'] + r)[0] == '}');
        assert((seq!['}'] + r).drop_first() =~= r);
        assert(Seq::<(Seq<char>, Seq<char>)>::empty() =~= l);
    } else {
        assert(t.drop_first() =~= enc_bias_entries(l) + (seq!['}'] + r));
        lemma_p_bias_entries(l, r);
        if l.len() == 1 {
            assert(enc_bias_entries(l) == enc_key(l[0].0) + l[0].1);
        }
        assert(enc_bias_entries(l)[0] == '"');
        assert(t.drop_first()[0] == '"');
    }
}

// the keys a stage may still meet, used to rule a key out when skipping

pub open spec fn is_key_from_context_window(k: Seq<char>) -> bool {
    k == "context_window"@
}

pub open spec fn is_key_from_tool_choice(k: Seq<char>) -> bool {
    k == "tool_choice"@
}

pub open spec fn is_key_from_tools(k: Seq<char>) -> bool {
    k == "tools"@
}

pub open spec fn is_key_from_response_format(k: Seq<char>) -> bool {
    k == "response_format"@ || is_key_from_tools(k)
}

pub open spec fn is_key_from_user(k: Seq<char>) -> bool {
    k == "user"@ || is_key_from_response_format(k)
}

pub open spec fn is_key_from_logit_bias(k: Seq<char>) -> bool {
    k == "logit_bias"@ || is_key_from_user(k)
}

pub open spec fn is_key_from_frequency_penalty(k: Seq<char>) -> bool {
    k == "frequency_penalty"@ || is_key_from_logit_bias(k)
}

pub open spec fn is_key_from_presence_penalty(k: Seq<char>) -> bool {
    k == "presence_penalty"@ || is_key_from_frequency_penalty(k)
}

pub open spec fn is_key_from_max_tokens(k: Seq<char>) -> bool {
    k == "max_tokens"@ || is_key_from_presence_penalty(k)
}

pub open spec fn is_key_from_stop(k: Seq<char>) -> bool {
    k == "stop"@ || is_key_from_max_tokens(k)
}

pub open spec fn is_key_from_stream_options(k: Seq<char>) -> bool {
    k == "stream_options"@ || is_key_from_stop(k)
}

pub open spec fn is_key_from_stream(k: Seq<char>) -> bool {
    k == "stream"@ || is_key_from_stream_options(k)
}

pub open spec fn is_key_from_n_choice(k: Seq<char>) -> bool {
    k == "n_choice"@ || is_key_from_stream(k)
}

pub open spec fn is_key_from_top_p(k: Seq<char>) -> bool {
    k == "top_p"@ || is_key_from_n_choice(k)
}

pub open spec fn is_key_from_temperature(k: Seq<char>) -> bool {
    k == "temperature"@ || is_key_from_top_p(k)
}

proof fn lemma_rc_keys()
    ensures
        "chat_model"@.len() == 10,
        "messages"@.len() == 8,
        "embedding_model"@.len() == 15,
        "encoding_format"@.len() == 15,
        "qdrant_url"@.len() == 10,
        "qdrant_collection_name"@.len() == 22,
        "limit"@.len() == 5,
        "temperature"@.len() == 11,
        "top_p"@.len() == 5,
        "n_choice"@.len() == 8,
        "stream"@.len() == 6,
        "stream_options"@.len() == 14,
        "stop"@.len() == 4,
        "max_tokens"@.len() == 10,
        "presence_penalty"@.len() == 16,
        "frequency_penalty"@.len() == 17,
        "logit_bias"@.len() == 10,
        "user"@.len() == 4,
        "response_format"@.len() == 15,
        "tools"@.len() == 5,
        "tool_choice"@.len() == 11,
        "context_window"@.len() == 14,
        "top_p"@ != "tools"@,
        "stop"@ != "user"@,
        "max_tokens"@ != "logit_bias"@,
{
    reveal_strlit("chat_model");
    reveal_strlit("messages");
    reveal_strlit("embedding_model");
    reveal_strlit("encoding_format");
    reveal_strlit("qdrant_url");
    reveal_strlit("qdrant_collection_name");
    reveal_strlit("limit");
    reveal_strlit("temperature");
    reveal_strlit("top_p");
    reveal_strlit("n_choice");
    reveal_strlit("stream");
    reveal_strlit("stream_options");
    reveal_strlit("stop");
    reveal_strlit("max_tokens");
    reveal_strlit("presence_penalty");
    reveal_strlit("frequency_penalty");
    reveal_strlit("logit_bias");
    reveal_strlit("user");
    reveal_strlit("response_format");
    reveal_strlit("tools");
    reveal_strlit("tool_choice");
    reveal_strlit("context_window");
    assert("top_p"@[2] == 'p' && "tools"@[2] == 'o');
    assert("stop"@[0] == 's' && "user"@[0] == 'u');
    assert("max_tokens"@[0] == 'm' && "logit_bias"@[0] == 'l');
}

#[verifier::rlimit(100)]
proof fn lemma_rc_from_context_window(m: RagChatCompletionsRequestV, r: Seq<char>)
    ensures
        enc_rc_from_context_window(m).len() > 0,
        enc_rc_from_context_window(m)[0] == ',' || enc_rc_from_context_window(m)[0] == '}',
        match p_sep_key(enc_rc_from_context_window(m) + r) {
            Some((k, t)) => (k is None || is_key_from_context_window(k.unwrap())) && p_rc_context_window(
                k,
                t,
            ) == Some((rc_model_from_context_window(m), r)),
            None => false,
        },
{
    reveal(enc_rc_from_context_window);
    reveal(p_rc_context_window);
    reveal(rc_model_from_context_window);
    lemma_rc_keys();
    match m.context_window {
        Some(v) => {
            assert(enc_rc_from_context_window(m) + r =~= (seq![','] + enc_key("context_window"@)
                + dec_digits(v as nat)) + (seq!['}'] + r));
            lemma_p_sep_key("context_window"@, dec_digits(v as nat), seq!['}'] + r);
            assert((seq!['}'] + r)[0] == '}');
            lemma_p_u64(v, seq!['}'] + r);
            assert(enc_u64(v) == dec_digits(v as nat));
            lemma_p_sep_end(r);
        },
        None => {
            assert(enc_rc_from_context_window(m) + r =~= seq!['}'] + r);
            lemma_p_sep_end(r);
            assert(enc_rc_from_context_window(m) =~= seq!['}']);
        },
    }
}

#[verifier::rlimit(100)]
proof fn lemma_rc_from_tool_choice(m: RagChatCompletionsRequestV, r: Seq<char>)
    ensures
        enc_rc_from_tool_choice(m).len() > 0,
        enc_rc_from_tool_choice(m)[0] == ',' || enc_rc_from_tool_choice(m)[0] == '}',
        match p_sep_key(enc_rc_from_tool_choice(m) + r) {
            Some((k, t)) => (k is None || is_key_from_tool_choice(k.unwrap())) && p_rc_tool_choice(
                k,
                t,
            ) == Some((rc_model_from_tool_choice(m), r)),
            None => false,
        },
{
    reveal(enc_rc_from_tool_choice);
    reveal(p_rc_tool_choice);
    reveal(rc_model_from_tool_choice);
    lemma_rc_keys();
    lemma_rc_from_context_window(m, r);
    let next = enc_rc_from_context_window(m) + r;
    assert(enc_rc_from_tool_choice(m) + r =~= (seq![','] + enc_key("tool_choice"@)
        + enc_tool_choice_field(m.tool_choice)) + next);
    lemma_p_sep_key("tool_choice"@, enc_tool_choice_field(m.tool_choice), next);
    lemma_p_tool_choice_field(m.tool_choice, next);
}

#[verifier::rlimit(100)]
proof fn lemma_rc_from_tools(m: RagChatCompletionsRequestV, r: Seq<char>)
    ensures
        enc_rc_from_tools(m).len() > 0,
        enc_rc_from_tools(m)[0] == ',' || enc_rc_from_tools(m)[0] == '}',
        match p_sep_key(enc_rc_from_tools(m) + r) {
            Some((k, t)) => (k is None || is_key_from_tools(k.unwrap())) && p_rc_tools(k, t)
                == Some((rc_model_from_tools(m), r)),
            None => false,
        },
{
    reveal(enc_rc_from_tools);
    reveal(p_rc_tools);
    reveal(rc_model_from_tools);
    lemma_rc_keys();
    lemma_rc_from_tool_choice(m, r);
    let next = enc_rc_from_tool_choice(m) + r;
    assert(enc_rc_from_tools(m) + r =~= (seq![','] + enc_key("tools"@) + enc_tools_field(m.tools))
        + next);
    lemma_p_sep_key("tools"@, enc_tools_field(m.tools), next);
    lemma_p_tools_field(m.tools, next);
}

#[verifier::rlimit(100)]
proof fn lemma_rc_from_response_format(m: RagChatCompletionsRequestV, r: Seq<char>)
    ensures
        enc_rc_from_response_format(m).len() > 0,
        enc_rc_from_response_format(m)[0] == ',' || enc_rc_from_response_format(m)[0] == '}',
        match p_sep_key(enc_rc_from_response_format(m) + r) {
            Some((k, t)) => (k is None || is_key_from_response_format(k.unwrap()))
                && p_rc_response_format(k, t) == Some((rc_model_from_response_format(m), r)),
            None => false,
        },
{
    reveal(enc_rc_from_response_format);
    reveal(p_rc_response_format);
    reveal(rc_model_from_response_format);
    lemma_rc_keys();
    lemma_rc_from_tools(m, r);
    let next = enc_rc_from_tools(m) + r;
    match m.response_format {
        Some(f) => {
            assert(enc_rc_from_response_format(m) + r =~= (seq![','] + enc_key("response_format"@)
                + enc_response_format(f)) + next);
            lemma_p_sep_key("response_format"@, enc_response_format(f), next);
            lemma_p_response_format(f, next);
        },
        None => {
            assert(enc_rc_from_response_format(m) + r =~= next);
            assert(enc_rc_from_response_format(m) =~= enc_rc_from_tools(m));
        },
    }
}

#[verifier::rlimit(100)]
proof fn lemma_rc_from_user(m: RagChatCompletionsRequestV, r: Seq<char>)
    ensures
        enc_rc_from_user(m).len() > 0,
        enc_rc_from_user(m)[0] == ',' || enc_rc_from_user(m)[0] == '}',
        match p_sep_key(enc_rc_from_user(m) + r) {
            Some((k, t)) => (k is None || is_key_from_user(k.unwrap())) && p_rc_user(k, t) == Some(
                (rc_model_from_user(m), r),
            ),
            None => false,
        },
{
    reveal(enc_rc_from_user);
    reveal(p_rc_user);
    reveal(rc_model_from_user);
    lemma_rc_keys();
    lemma_rc_from_response_format(m, r);
    let next = enc_rc_from_response_format(m) + r;
    match m.user {
        Some(v) => {
            assert(enc_rc_from_user(m) + r =~= (seq![','] + enc_key("user"@) + enc_string(v))
                + next);
            lemma_p_sep_key("user"@, enc_string(v), next);
            lemma_p_string(v, next);
        },
        None => {
            assert(enc_rc_from_user(m) + r =~= next);
            assert(enc_rc_from_user(m) =~= enc_rc_from_response_format(m));
        },
    }
}

#[verifier::rlimit(100)]
proof fn lemma_rc_from_logit_bias(m: RagChatCompletionsRequestV, r: Seq<char>)
    requires
        rc_wf(m),
    ensures
        enc_rc_from_logit_bias(m).len() > 0,
        enc_rc_from_logit_bias(m)[0] == ',' || enc_rc_from_logit_bias(m)[0] == '}',
        match p_sep_key(enc_rc_from_logit_bias(m) + r) {
            Some((k, t)) => (k is None || is_key_from_logit_bias(k.unwrap())) && p_rc_logit_bias(
                k,
                t,
            ) == Some((rc_model_from_logit_bias(m), r)),
            None => false,
        },
{
    reveal(enc_rc_from_logit_bias);
    reveal(p_rc_logit_bias);
    reveal(rc_model_from_logit_bias);
    lemma_rc_keys();
    lemma_rc_from_user(m, r);
    let next = enc_rc_from_user(m) + r;
    match m.logit_bias {
        Some(l) => {
            assert(enc_rc_from_logit_bias(m) + r =~= (seq![','] + enc_key("logit_bias"@)
                + enc_bias_obj(l)) + next);
            lemma_p_sep_key("logit_bias"@, enc_bias_obj(l), next);
            lemma_p_bias_obj(l, next);
        },
        None => {
            assert(enc_rc_from_logit_bias(m) + r =~= next);
            assert(enc_rc_from_logit_bias(m) =~= enc_rc_from_user(m));
        },
    }
}

#[verifier::rlimit(100)]
proof fn lemma_rc_from_frequency_penalty(m: RagChatCompletionsRequestV, r: Seq<char>)
    requires
        rc_wf(m),
    ensures
        enc_rc_from_frequency_penalty(m).len() > 0,
        enc_rc_from_frequency_penalty(m)[0] == ',' || enc_rc_from_frequency_penalty(m)[0] == '}',
        match p_sep_key(enc_rc_from_frequency_penalty(m) + r) {
            Some((k, t)) => (k is None || is_key_from_frequency_penalty(k.unwrap()))
                && p_rc_frequency_penalty(k, t) == Some((rc_model_from_frequency_penalty(m), r)),
            None => false,
        },
{
    reveal(enc_rc_from_frequency_penalty);
    reveal(p_rc_frequency_penalty);
    reveal(rc_model_from_frequency_penalty);
    lemma_rc_keys();
    lemma_rc_from_logit_bias(m, r);
    let next = enc_rc_from_logit_bias(m) + r;
    match m.frequency_penalty {
        Some(v) => {
            assert(enc_rc_from_frequency_penalty(m) + r =~= (seq![','] + enc_key(
                "frequency_penalty"@,
            ) + v) + next);
            lemma_p_sep_key("frequency_penalty"@, v, next);
            assert(next[0] == enc_rc_from_logit_bias(m)[0]);
            lemma_p_number(v, next);
        },
        None => {
            assert(enc_rc_from_frequency_penalty(m) + r =~= next);
            assert(enc_rc_from_frequency_penalty(m) =~= enc_rc_from_logit_bias(m));
        },
    }
}

#[verifier::rlimit(100)]
proof fn lemma_rc_from_presence_penalty(m: RagChatCompletionsRequestV, r: Seq<char>)
    requires
        rc_wf(m),
    ensures
        enc_rc_from_presence_penalty(m).len() > 0,
        enc_rc_from_presence_penalty(m)[0] == ',' || enc_rc_from_presence_penalty(m)[0] == '}',
        match p_sep_key(enc_rc_from_presence_penalty(m) + r) {
            Some((k, t)) => (k is None || is_key_from_presence_penalty(k.unwrap()))
                && p_rc_presence_penalty(k, t) == Some((rc_model_from_presence_penalty(m), r)),
            None => false,
        },
{
    reveal(enc_rc_from_presence_penalty);
    reveal(p_rc_presence_penalty);
    reveal(rc_model_from_presence_penalty);
    lemma_rc_keys();
    lemma_rc_from_frequency_penalty(m, r);
    let next = enc_rc_from_frequency_penalty(m) + r;
    match m.presence_penalty {
        Some(v) => {
            assert(enc_rc_from_presence_penalty(m) + r =~= (seq![','] + enc_key(
                "presence_penalty"@,
            ) + v) + next);
            lemma_p_sep_key("presence_penalty"@, v, next);
            assert(next[0] == enc_rc_from_frequency_penalty(m)[0]);
            lemma_p_number(v, next);
        },
        None => {
            assert(enc_rc_from_presence_penalty(m) + r =~= next);
            assert(enc_rc_from_presence_penalty(m) =~= enc_rc_from_frequency_penalty(m));
        },
    }
}

#[verifier::rlimit(100)]
proof fn lemma_rc_from_max_tokens(m: RagChatCompletionsRequestV, r: Seq<char>)
    requires
        rc_wf(m),
    ensures
        enc_rc_from_max_tokens(m).len() > 0,
        enc_rc_from_max_tokens(m)[0] == ',' || enc_rc_from_max_tokens(m)[0] == '}',
        match p_sep_key(enc_rc_from_max_tokens(m) + r) {
            Some((k, t)) => (k is None || is_key_from_max_tokens(k.unwrap())) && p_rc_max_tokens(
                k,
                t,
            ) == Some((rc_model_from_max_tokens(m), r)),
            None => false,
        },
{
    reveal(enc_rc_from_max_tokens);
    reveal(p_rc_max_tokens);
    reveal(rc_model_from_max_tokens);
    lemma_rc_keys();
    lemma_rc_from_presence_penalty(m, r);
    let next = enc_rc_from_presence_penalty(m) + r;
    match m.max_tokens {
        Some(v) => {
            assert(enc_rc_from_max_tokens(m) + r =~= (seq![','] + enc_key("max_tokens"@)
                + dec_digits(v as nat)) + next);
            lemma_p_sep_key("max_tokens"@, dec_digits(v as nat), next);
            assert(next[0] == enc_rc_from_presence_penalty(m)[0]);
            lemma_p_u64(v, next);
            assert(enc_u64(v) == dec_digits(v as nat));
        },
        None => {
            assert(enc_rc_from_max_tokens(m) + r =~= next);
            assert(enc_rc_from_max_tokens(m) =~= enc_rc_from_presence_penalty(m));
        },
    }
}

#[verifier::rlimit(100)]
proof fn lemma_rc_from_stop(m: RagChatCompletionsRequestV, r: Seq<char>)
    requires
        rc_wf(m),
    ensures
        enc_rc_from_stop(m).len() > 0,
        enc_rc_from_stop(m)[0] == ',' || enc_rc_from_stop(m)[0] == '}',
        match p_sep_key(enc_rc_from_stop(m) + r) {
            Some((k, t)) => (k is None || is_key_from_stop(k.unwrap())) && p_rc_stop(k, t) == Some(
                (rc_model_from_stop(m), r),
            ),
            None => false,
        },
{
    reveal(enc_rc_from_stop);
    reveal(p_rc_stop);
    reveal(rc_model_from_stop);
    lemma_rc_keys();
    lemma_rc_from_max_tokens(m, r);
    let next = enc_rc_from_max_tokens(m) + r;
    match m.stop {
        Some(l) => {
            assert(enc_rc_from_stop(m) + r =~= (seq![','] + enc_key("stop"@)
                + crate::json::enc_str_array(l)) + next);
            lemma_p_sep_key("stop"@, crate::json::enc_str_array(l), next);
            lemma_p_str_array(l, next);
        },
        None => {
            assert(enc_rc_from_stop(m) + r =~= next);
            assert(enc_rc_from_stop(m) =~= enc_rc_from_max_tokens(m));
        },
    }
}

#[verifier::rlimit(100)]
proof fn lemma_rc_from_stream_options(m: RagChatCompletionsRequestV, r: Seq<char>)
    requires
        rc_wf(m),
    ensures
        enc_rc_from_stream_options(m).len() > 0,
        enc_rc_from_stream_options(m)[0] == ',' || enc_rc_from_stream_options(m)[0] == '}',
        match p_sep_key(enc_rc_from_stream_options(m) + r) {
            Some((k, t)) => (k is None || is_key_from_stream_options(k.unwrap()))
                && p_rc_stream_options(k, t) == Some((rc_model_from_stream_options(m), r)),
            None => false,
        },
{
    reveal(enc_rc_from_stream_options);
    reveal(p_rc_stream_options);
    reveal(rc_model_from_stream_options);
    lemma_rc_keys();
    lemma_rc_from_stop(m, r);
    let next = enc_rc_from_stop(m) + r;
    match m.stream_options {
        Some(s) => {
            assert(enc_rc_from_stream_options(m) + r =~= (seq![','] + enc_key("stream_options"@)
                + enc_stream_options(s)) + next);
            lemma_p_sep_key("stream_options"@, enc_stream_options(s), next);
            lemma_p_stream_options(s, next);
        },
        None => {
            assert(enc_rc_from_stream_options(m) + r =~= next);
            assert(enc_rc_from_stream_options(m) =~= enc_rc_from_stop(m));
        },
    }
}

#[verifier::rlimit(100)]
proof fn lemma_rc_from_stream(m: RagChatCompletionsRequestV, r: Seq<char>)
    requires
        rc_wf(m),
    ensures
        enc_rc_from_stream(m).len() > 0,
        enc_rc_from_stream(m)[0] == ',' || enc_rc_from_stream(m)[0] == '}',
        match p_sep_key(enc_rc_from_stream(m) + r) {
            Some((k, t)) => (k is None || is_key_from_stream(k.unwrap())) && p_rc_stream(k, t)
                == Some((rc_model_from_stream(m), r)),
            None => false,
        },
{
    reveal(enc_rc_from_stream);
    reveal(p_rc_stream);
    reveal(rc_model_from_stream);
    lemma_rc_keys();
    lemma_rc_from_stream_options(m, r);
    let next = enc_rc_from_stream_options(m) + r;
    match m.stream {
        Some(b) => {
            assert(enc_rc_from_stream(m) + r =~= (seq![','] + enc_key("stream"@) + enc_bool(b))
                + next);
            lemma_p_sep_key("stream"@, enc_bool(b), next);
            lemma_p_bool(b, next);
        },
        None => {
            assert(enc_rc_from_stream(m) + r =~= next);
            assert(enc_rc_from_stream(m) =~= enc_rc_from_stream_options(m));
        },
    }
}

#[verifier::rlimit(100)]
proof fn lemma_rc_from_n_choice(m: RagChatCompletionsRequestV, r: Seq<char>)
    requires
        rc_wf(m),
    ensures
        enc_rc_from_n_choice(m).len() > 0,
        enc_rc_from_n_choice(m)[0] == ',' || enc_rc_from_n_choice(m)[0] == '}',
        match p_sep_key(enc_rc_from_n_choice(m) + r) {
            Some((k, t)) => (k is None || is_key_from_n_choice(k.unwrap())) && p_rc_n_choice(k, t)
                == Some((rc_model_from_n_choice(m), r)),
            None => false,
        },
{
    reveal(enc_rc_from_n_choice);
    reveal(p_rc_n_choice);
    reveal(rc_model_from_n_choice);
    lemma_rc_keys();
    lemma_rc_from_stream(m, r);
    let next = enc_rc_from_stream(m) + r;
    match m.n_choice {
        Some(v) => {
            assert(enc_rc_from_n_choice(m) + r =~= (seq![','] + enc_key("n_choice"@) + dec_digits(
                v as nat,
            )) + next);
            lemma_p_sep_key("n_choice"@, dec_digits(v as nat), next);
            assert(next[0] == enc_rc_from_stream(m)[0]);
            lemma_p_u64(v, next);
            assert(enc_u64(v) == dec_digits(v as nat));
        },
        None => {
            assert(enc_rc_from_n_choice(m) + r =~= next);
            assert(enc_rc_from_n_choice(m) =~= enc_rc_from_stream(m));
        },
    }
}

#[verifier::rlimit(100)]
proof fn lemma_rc_from_top_p(m: RagChatCompletionsRequestV, r: Seq<char>)
    requires
        rc_wf(m),
    ensures
        enc_rc_from_top_p(m).len() > 0,
        enc_rc_from_top_p(m)[0] == ',' || enc_rc_from_top_p(m)[0] == '}',
        match p_sep_key(enc_rc_from_top_p(m) + r) {
            Some((k, t)) => (k is None || is_key_from_top_p(k.unwrap())) && p_rc_top_p(k, t)
                == Some((rc_model_from_top_p(m), r)),
            None => false,
        },
{
    reveal(enc_rc_from_top_p);
    reveal(p_rc_top_p);
    reveal(rc_model_from_top_p);
    lemma_rc_keys();
    lemma_rc_from_n_choice(m, r);
    let next = enc_rc_from_n_choice(m) + r;
    match m.top_p {
        Some(v) => {
            assert(enc_rc_from_top_p(m) + r =~= (seq![','] + enc_key("top_p"@) + v) + next);
            lemma_p_sep_key("top_p"@, v, next);
            assert(next[0] == enc_rc_from_n_choice(m)[0]);
            lemma_p_number(v, next);
        },
        None => {
            assert(enc_rc_from_top_p(m) + r =~= next);
            assert(enc_rc_from_top_p(m) =~= enc_rc_from_n_choice(m));
        },
    }
}

#[verifier::rlimit(100)]
proof fn lemma_rc_from_temperature(m: RagChatCompletionsRequestV, r: Seq<char>)
    requires
        rc_wf(m),
    ensures
        enc_rc_from_temperature(m).len() > 0,
        enc_rc_from_temperature(m)[0] == ',' || enc_rc_from_temperature(m)[0] == '}',
        match p_sep_key(enc_rc_from_temperature(m) + r) {
            Some((k, t)) => (k is None || is_key_from_temperature(k.unwrap())) && p_rc_temperature(
                k,
                t,
            ) == Some((rc_model_from_temperature(m), r)),
            None => false,
        },
{
    reveal(enc_rc_from_temperature);
    reveal(p_rc_temperature);
    reveal(rc_model_from_temperature);
    lemma_rc_keys();
    lemma_rc_from_top_p(m, r);
    let next = enc_rc_from_top_p(m) + r;
    match m.temperature {
        Some(v) => {
            assert(enc_rc_from_temperature(m) + r =~= (seq![','] + enc_key("temperature"@) + v)
                + next);
            lemma_p_sep_key("temperature"@, v, next);
            assert(next[0] == enc_rc_from_top_p(m)[0]);
            lemma_p_number(v, next);
        },
        None => {
            assert(enc_rc_from_temperature(m) + r =~= next);
            assert(enc_rc_from_temperature(m) =~= enc_rc_from_top_p(m));
        },
    }
}

#[verifier::rlimit(100)]
proof fn lemma_rc_from_limit(m: RagChatCompletionsRequestV, r: Seq<char>)
    requires
        rc_wf(m),
    ensures
        enc_rc_from_limit(m).len() > 0,
        enc_rc_from_limit(m)[0] == ',',
        match p_sep_key(enc_rc_from_limit(m) + r) {
            Some((k, t)) => k == Some("limit"@) && p_rc_limit(k, t) == Some(
                (rc_model_from_limit(m), r),
            ),
            None => false,
        },
{
    reveal(enc_rc_from_limit);
    reveal(p_rc_limit);
    reveal(rc_model_from_limit);
    lemma_rc_keys();
    lemma_rc_from_temperature(m, r);
    let next = enc_rc_from_temperature(m) + r;
    assert(enc_rc_from_limit(m) + r =~= (seq![','] + enc_key("limit"@) + dec_digits(
        m.limit as nat,
    )) + next);
    lemma_p_sep_key("limit"@, dec_digits(m.limit as nat), next);
    assert(next[0] == enc_rc_from_temperature(m)[0]);
    lemma_p_u64(m.limit, next);
    assert(enc_u64(m.limit) == dec_digits(m.limit as nat));
}

#[verifier::rlimit(100)]
proof fn lemma_rc_from_qdrant_collection_name(m: RagChatCompletionsRequestV, r: Seq<char>)
    requires
        rc_wf(m),
    ensures
        enc_rc_from_qdrant_collection_name(m).len() > 0,
        enc_rc_from_qdrant_collection_name(m)[0] == ',',
        match p_sep_key(enc_rc_from_qdrant_collection_name(m) + r) {
            Some((k, t)) => k == Some("qdrant_collection_name"@) && p_rc_qdrant_collection_name(
                k,
                t,
            ) == Some((rc_model_from_qdrant_collection_name(m), r)),
            None => false,
        },
{
    reveal(enc_rc_from_qdrant_collection_name);
    reveal(p_rc_qdrant_collection_name);
    reveal(rc_model_from_qdrant_collection_name);
    lemma_rc_keys();
    lemma_rc_from_limit(m, r);
    let next = enc_rc_from_limit(m) + r;
    assert(enc_rc_from_qdrant_collection_name(m) + r =~= (seq![','] + enc_key(
        "qdrant_collection_name"@,
    ) + enc_string(m.qdrant_collection_name)) + next);
    lemma_p_sep_key("qdrant_collection_name"@, enc_string(m.qdrant_collection_name), next);
    lemma_p_string(m.qdrant_collection_name, next);
}

#[verifier::rlimit(100)]
proof fn lemma_rc_from_qdrant_url(m: RagChatCompletionsRequestV, r: Seq<char>)
    requires
        rc_wf(m),
    ensures
        enc_rc_from_qdrant_url(m).len() > 0,
        enc_rc_from_qdrant_url(m)[0] == ',',
        match p_sep_key(enc_rc_from_qdrant_url(m) + r) {
            Some((k, t)) => k == Some("qdrant_url"@) && p_rc_qdrant_url(k, t) == Some(
                (rc_model_from_qdrant_url(m), r),
            ),
            None => false,
        },
{
    reveal(enc_rc_from_qdrant_url);
    reveal(p_rc_qdrant_url);
    reveal(rc_model_from_qdrant_url);
    lemma_rc_keys();
    lemma_rc_from_qdrant_collection_name(m, r);
    let next = enc_rc_from_qdrant_collection_name(m) + r;
    assert(enc_rc_from_qdrant_url(m) + r =~= (seq![','] + enc_key("qdrant_url"@) + enc_string(
        m.qdrant_url,
    )) + next);
    lemma_p_sep_key("qdrant_url"@, enc_string(m.qdrant_url), next);
    lemma_p_string(m.qdrant_url, next);
}

#[verifier::rlimit(100)]
proof fn lemma_rc_from_encoding_format(m: RagChatCompletionsRequestV, r: Seq<char>)
    requires
        rc_wf(m),
    ensures
        enc_rc_from_encoding_format(m).len() > 0,
        enc_rc_from_encoding_format(m)[0] == ',',
        match p_sep_key(enc_rc_from_encoding_format(m) + r) {
            Some((k, t)) => (k == Some("encoding_format"@) || k == Some("qdrant_url"@))
                && p_rc_encoding_format(k, t) == Some((rc_model_from_encoding_format(m), r)),
            None => false,
        },
{
    reveal(enc_rc_from_encoding_format);
    reveal(p_rc_encoding_format);
    reveal(rc_model_from_encoding_format);
    lemma_rc_keys();
    lemma_rc_from_qdrant_url(m, r);
    let next = enc_rc_from_qdrant_url(m) + r;
    match m.encoding_format {
        Some(v) => {
            assert(enc_rc_from_encoding_format(m) + r =~= (seq![','] + enc_key("encoding_format"@)
                + enc_string(v)) + next);
            lemma_p_sep_key("encoding_format"@, enc_string(v), next);
            lemma_p_string(v, next);
        },
        None => {
            assert(enc_rc_from_encoding_format(m) + r =~= next);
            assert(enc_rc_from_encoding_format(m) =~= enc_rc_from_qdrant_url(m));
        },
    }
}

#[verifier::rlimit(100)]
proof fn lemma_rc_from_embedding_model(m: RagChatCompletionsRequestV, r: Seq<char>)
    requires
        rc_wf(m),
    ensures
        enc_rc_from_embedding_model(m).len() > 0,
        enc_rc_from_embedding_model(m)[0] == ',',
        match p_sep_key(enc_rc_from_embedding_model(m) + r) {
            Some((k, t)) => k == Some("embedding_model"@) && p_rc_embedding_model(k, t) == Some(
                (rc_model_from_embedding_model(m), r),
            ),
            None => false,
        },
{
    reveal(enc_rc_from_embedding_model);
    reveal(p_rc_embedding_model);
    reveal(rc_model_from_embedding_model);
    lemma_rc_keys();
    lemma_rc_from_encoding_format(m, r);
    let next = enc_rc_from_encoding_format(m) + r;
    assert(enc_rc_from_embedding_model(m) + r =~= (seq![','] + enc_key("embedding_model"@)
        + enc_string(m.embedding_model)) + next);
    lemma_p_sep_key("embedding_model"@, enc_string(m.embedding_model), next);
    lemma_p_string(m.embedding_model, next);
}

#[verifier::rlimit(100)]
proof fn lemma_p_rag_chat(m: RagChatCompletionsRequestV, r: Seq<char>)
    requires
        rc_wf(m),
    ensures
        p_rag_chat(enc_rag_chat(m) + r) == Some((m, r)),
{
    reveal(p_rc_messages);
    reveal(rc_model_from_messages);
    reveal(rc_model_from_context_window);
    reveal(rc_model_from_tool_choice);
    reveal(rc_model_from_tools);
    reveal(rc_model_from_response_format);
    reveal(rc_model_from_user);
    reveal(rc_model_from_logit_bias);
    reveal(rc_model_from_frequency_penalty);
    reveal(rc_model_from_presence_penalty);
    reveal(rc_model_from_max_tokens);
    reveal(rc_model_from_stop);
    reveal(rc_model_from_stream_options);
    reveal(rc_model_from_stream);
    reveal(rc_model_from_n_choice);
    reveal(rc_model_from_top_p);
    reveal(rc_model_from_temperature);
    reveal(rc_model_from_limit);
    reveal(rc_model_from_qdrant_collection_name);
    reveal(rc_model_from_qdrant_url);
    reveal(rc_model_from_encoding_format);
    reveal(rc_model_from_embedding_model);
    lemma_rc_keys();
    let t = enc_rag_chat(m) + r;
    assert(t[0] == '{');
    lemma_rc_from_embedding_model(m, r);
    let after_arr = enc_rc_from_embedding_model(m) + r;
    let msgs_part = enc_message_array(m.messages);
    match m.chat_model {
        Some(s) => {
            let rest1 = enc_string(s) + ((seq![','] + enc_key("messages"@) + msgs_part)
                + after_arr);
            assert(t.drop_first() =~= enc_key("chat_model"@) + rest1);
            lemma_p_key("chat_model"@, rest1);
            lemma_p_string(s, (seq![','] + enc_key("messages"@) + msgs_part) + after_arr);
            lemma_p_sep_key("messages"@, msgs_part, after_arr);
            lemma_p_message_array(m.messages, after_arr);
            assert(p_rag_chat(t) == Some((m, r)));
        },
        None => {
            let rest1 = msgs_part + after_arr;
            assert(t.drop_first() =~= enc_key("messages"@) + rest1);
            lemma_p_key("messages"@, rest1);
            assert("messages"@ != "chat_model"@);
            lemma_p_message_array(m.messages, after_arr);
            assert(p_rag_chat(t) == Some((m, r)));
        },
    }
}

/// Encoding a composite chat request and decoding the text yields the same
/// value.
pub proof fn lemma_rag_chat_round_trip(m: RagChatCompletionsRequestV)
    requires
        rc_wf(m),
    ensures
        spec_decode_rag_chat(enc_rag_chat(m)) == Some(m),
{
    lemma_p_rag_chat(m, Seq::empty());
    assert(enc_rag_chat(m) + Seq::<char>::empty() =~= enc_rag_chat(m));
}

/// When the chat model is unset, its key does not appear: the wire form opens
/// directly with the `messages` member.
pub proof fn lemma_chat_model_key_omitted(m: RagChatCompletionsRequestV)
    requires
        m.chat_model is None,
    ensures
        enc_rag_chat(m) == seq!['{'] + enc_key("messages"@) + enc_message_array(m.messages)
            + enc_rc_from_embedding_model(m),
{
    assert(enc_rag_chat(m) =~= seq!['{'] + enc_key("messages"@) + enc_message_array(m.messages)
        + enc_rc_from_embedding_model(m));
}

/// When the encoding format is unset, its key does not appear: that part of
/// the wire form runs directly from the embedding model to the store URL.
pub proof fn lemma_encoding_format_key_omitted(m: RagChatCompletionsRequestV)
    requires
        m.encoding_format is None,
    ensures
        enc_rc_from_embedding_model(m) == (seq![','] + enc_key("embedding_model"@) + enc_string(
            m.embedding_model,
        )) + enc_rc_from_qdrant_url(m),
{
    reveal(enc_rc_from_embedding_model);
    reveal(enc_rc_from_encoding_format);
    assert(enc_rc_from_encoding_format(m) =~= enc_rc_from_qdrant_url(m));
}

} // verus!

//! The chat-completion side of the schema: messages, sampling parameters and
//! the plain chat-completion request that the inference engine consumes.
use vstd::prelude::*;
use crate::number::NumberText;

verus! {

/// One message of the conversation so far.
#[derive(Debug, Clone, PartialEq)]
pub struct ChatCompletionRequestMessage {
    pub role: String,
    pub content: String,
}

pub struct ChatCompletionRequestMessageV {
    pub role: Seq<char>,
    pub content: Seq<char>,
}

impl View for ChatCompletionRequestMessage {
    type V = ChatCompletionRequestMessageV;

    open spec fn view(&self) -> ChatCompletionRequestMessageV {
        ChatCompletionRequestMessageV { role: self.role@, content: self.content@ }
    }
}

/// Options for a streamed response.
#[derive(Debug, Clone, Copy, PartialEq)]
pub struct StreamOptions {
    pub include_usage: Option<bool>,
}

pub struct StreamOptionsV {
    pub include_usage: Option<bool>,
}

impl View for StreamOptions {
    type V = StreamOptionsV;

    open spec fn view(&self) -> StreamOptionsV {
        StreamOptionsV { include_usage: self.include_usage }
    }
}

/// The format the model must answer in.
#[derive(Debug, Clone, PartialEq)]
pub struct ChatResponseFormat {
    pub response_type: String,
}

pub struct ChatResponseFormatV {
    pub response_type: Seq<char>,
}

impl View for ChatResponseFormat {
    type V = ChatResponseFormatV;

    open spec fn view(&self) -> ChatResponseFormatV {
        ChatResponseFormatV { response_type: self.response_type@ }
    }
}

/// A tool the model may call.
#[derive(Debug, Clone, PartialEq)]
pub struct Tool {
    pub tool_type: String,
    pub name: String,
}

pub struct ToolV {
    pub tool_type: Seq<char>,
    pub name: Seq<char>,
}

impl View for Tool {
    type V = ToolV;

    open spec fn view(&self) -> ToolV {
        ToolV { tool_type: self.tool_type@, name: self.name@ }
    }
}

/// Which tools, if any, the model is told to call.
#[derive(Debug, Clone, Copy, PartialEq)]
pub enum ToolChoice {
    Disabled,
    Auto,
    Required,
}

/// The tagged choice between the two sampling strategies; selecting one
/// neutralizes the other.
#[derive(Debug, Clone, PartialEq)]
pub enum ChatCompletionRequestSampling {
    Temperature(NumberText),
    TopP(NumberText),
}

/// A plain chat-completion request, as the inference engine consumes it.
#[derive(Debug, Clone, PartialEq)]
pub struct ChatCompletionRequest {
    pub model: Option<String>,
    pub messages: Vec<ChatCompletionRequestMessage>,
    pub temperature: Option<NumberText>,
    pub top_p: Option<NumberText>,
    pub n_choice: Option<u64>,
    pub stream: Option<bool>,
    pub stream_options: Option<StreamOptions>,
    pub stop: Option<Vec<String>>,
    pub max_tokens: Option<u64>,
    pub presence_penalty: Option<NumberText>,
    pub frequency_penalty: Option<NumberText>,
    pub logit_bias: Option<Vec<(String, NumberText)>>,
    pub user: Option<String>,
    pub functions: Option<Vec<Tool>>,
    pub function_call: Option<String>,
    pub response_format: Option<ChatResponseFormat>,
    pub tool_choice: Option<ToolChoice>,
    pub tools: Option<Vec<Tool>>,
    pub context_window: Option<u64>,
}

pub struct ChatCompletionRequestV {
    pub model: Option<Seq<char>>,
    pub messages: Seq<ChatCompletionRequestMessageV>,
    pub temperature: Option<Seq<char>>,
    pub top_p: Option<Seq<char>>,
    pub n_choice: Option<u64>,
    pub stream: Option<bool>,
    pub stream_options: Option<StreamOptionsV>,
    pub stop: Option<Seq<Seq<char>>>,
    pub max_tokens: Option<u64>,
    pub presence_penalty: Option<Seq<char>>,
    pub frequency_penalty: Option<Seq<char>>,
    pub logit_bias: Option<Seq<(Seq<char>, Seq<char>)>>,
    pub user: Option<Seq<char>>,
    pub functions: Option<Seq<ToolV>>,
    pub function_call: Option<Seq<char>>,
    pub response_format: Option<ChatResponseFormatV>,
    pub tool_choice: Option<ToolChoice>,
    pub tools: Option<Seq<ToolV>>,
    pub context_window: Option<u64>,
}

pub open spec fn view_opt_string(v: Option<String>) -> Option<Seq<char>> {
    match v {
        Some(s) => Some(s@),
        None => None,
    }
}

pub open spec fn view_opt_number(v: Option<NumberText>) -> Option<Seq<char>> {
    match v {
        Some(s) => Some(s@),
        None => None,
    }
}

pub open spec fn view_messages(v: Seq<ChatCompletionRequestMessage>) -> Seq<
    ChatCompletionRequestMessageV,
> {
    v.map_values(|m: ChatCompletionRequestMessage| m@)
}

pub open spec fn view_tools(v: Option<Vec<Tool>>) -> Option<Seq<ToolV>> {
    match v {
        Some(l) => Some(l@.map_values(|x: Tool| x@)),
        None => None,
    }
}

pub open spec fn view_bias(v: Option<Vec<(String, NumberText)>>) -> Option<
    Seq<(Seq<char>, Seq<char>)>,
> {
    match v {
        Some(l) => Some(l@.map_values(|p: (String, NumberText)| (p.0@, p.1@))),
        None => None,
    }
}

// ---------------------------------------------------------------------------
// copies whose contracts carry the value across
// ---------------------------------------------------------------------------

pub fn copy_string(s: &String) -> (r: String)
    ensures
        r@ == s@,
{
    String::from_str(s.as_str())
}

pub fn copy_opt_string(s: &Option<String>) -> (r: Option<String>)
    ensures
        view_opt_string(r) == view_opt_string(*s),
{
    match s {
        Some(v) => Some(copy_string(v)),
        None => None,
    }
}

pub fn copy_number(s: &NumberText) -> (r: NumberText)
    ensures
        r@ == s@,
{
    NumberText { text: copy_string(&s.text) }
}

pub fn copy_opt_number(s: &Option<NumberText>) -> (r: Option<NumberText>)
    ensures
        view_opt_number(r) == view_opt_number(*s),
{
    match s {
        Some(v) => Some(copy_number(v)),
        None => None,
    }
}

pub fn copy_messages(v: &Vec<ChatCompletionRequestMessage>) -> (r: Vec<
    ChatCompletionRequestMessage,
>)
    ensures
        view_messages(r@) == view_messages(v@),
{
    let mut out: Vec<ChatCompletionRequestMessage> = Vec::new();
    let mut k: usize = 0;
    while k < v.len()
        invariant
            0 <= k <= v@.len(),
            out@.len() == k,
            forall|m: int| 0 <= m < k ==> #[trigger] out@[m]@ == v@[m]@,
        decreases v@.len() - k,
    {
        let msg = ChatCompletionRequestMessage {
            role: copy_string(&v[k].role),
            content: copy_string(&v[k].content),
        };
        out.push(msg);
        k = k + 1;
    }
    assert(view_messages(out@) =~= view_messages(v@));
    out
}

pub fn copy_strings(v: &Vec<String>) -> (r: Vec<String>)
    ensures
        r.deep_view() == v.deep_view(),
{
    let mut out: Vec<String> = Vec::new();
    let mut k: usize = 0;
    while k < v.len()
        invariant
            0 <= k <= v@.len(),
            out@.len() == k,
            forall|m: int| 0 <= m < k ==> #[trigger] out@[m]@ == v@[m]@,
        decreases v@.len() - k,
    {
        out.push(copy_string(&v[k]));
        k = k + 1;
    }
    assert(out.deep_view() =~= v.deep_view());
    out
}

pub fn copy_opt_strings(v: &Option<Vec<String>>) -> (r: Option<Vec<String>>)
    ensures
        match (r, *v) {
            (Some(a), Some(b)) => a.deep_view() == b.deep_view(),
            (None, None) => true,
            _ => false,
        },
{
    match v {
        Some(l) => Some(copy_strings(l)),
        None => None,
    }
}

pub fn copy_tools(v: &Vec<Tool>) -> (r: Vec<Tool>)
    ensures
        r@.map_values(|x: Tool| x@) == v@.map_values(|x: Tool| x@),
{
    let mut out: Vec<Tool> = Vec::new();
    let mut k: usize = 0;
    while k < v.len()
        invariant
            0 <= k <= v@.len(),
            out@.len() == k,
            forall|m: int| 0 <= m < k ==> #[trigger] out@[m]@ == v@[m]@,
        decreases v@.len() - k,
    {
        let tool = Tool { tool_type: copy_string(&v[k].tool_type), name: copy_string(&v[k].name) };
        out.push(tool);
        k = k + 1;
    }
    assert(out@.map_values(|x: Tool| x@) =~= v@.map_values(|x: Tool| x@));
    out
}

pub fn copy_opt_tools(v: &Option<Vec<Tool>>) -> (r: Option<Vec<Tool>>)
    ensures
        view_tools(r) == view_tools(*v),
{
    match v {
        Some(l) => {
            let out = Some(copy_tools(l));
            assert(view_tools(out) == view_tools(*v));
            out
        },
        None => None,
    }
}

pub fn copy_opt_bias(v: &Option<Vec<(String, NumberText)>>) -> (r: Option<
    Vec<(String, NumberText)>,
>)
    ensures
        view_bias(r) == view_bias(*v),
{
    match v {
        Some(l) => {
            let mut out: Vec<(String, NumberText)> = Vec::new();
            let mut k: usize = 0;
            while k < l.len()
                invariant
                    0 <= k <= l@.len(),
                    out@.len() == k,
                    forall|m: int| 0 <= m < k ==> #[trigger] out@[m].0@ == l@[m].0@
                        && out@[m].1@ == l@[m].1@,
                decreases l@.len() - k,
            {
                let entry = (copy_string(&l[k].0), copy_number(&l[k].1));
                out.push(entry);
                k = k + 1;
            }
            let res = Some(out);
            assert(view_bias(res).unwrap() =~= view_bias(*v).unwrap());
            res
        },
        None => None,
    }
}

pub fn copy_opt_format(v: &Option<ChatResponseFormat>) -> (r: Option<ChatResponseFormat>)
    ensures
        match (r, *v) {
            (Some(a), Some(b)) => a@ == b@,
            (None, None) => true,
            _ => false,
        },
{
    match v {
        Some(f) => Some(ChatResponseFormat { response_type: copy_string(&f.response_type) }),
        None => None,
    }
}

impl View for ChatCompletionRequest {
    type V = ChatCompletionRequestV;

    open spec fn view(&self) -> ChatCompletionRequestV {
        ChatCompletionRequestV {
            model: view_opt_string(self.model),
            messages: view_messages(self.messages@),
            temperature: view_opt_number(self.temperature),
            top_p: view_opt_number(self.top_p),
            n_choice: self.n_choice,
            stream: self.stream,
            stream_options: match self.stream_options {
                Some(s) => Some(s@),
                None => None,
            },
            stop: match self.stop {
                Some(l) => Some(l.deep_view()),
                None => None,
            },
            max_tokens: self.max_tokens,
            presence_penalty: view_opt_number(self.presence_penalty),
            frequency_penalty: view_opt_number(self.frequency_penalty),
            logit_bias: view_bias(self.logit_bias),
            user: view_opt_string(self.user),
            functions: view_tools(self.functions),
            function_call: view_opt_string(self.function_call),
            response_format: match self.response_format {
                Some(f) => Some(f@),
                None => None,
            },
            tool_choice: self.tool_choice,
            tools: view_tools(self.tools),
            context_window: self.context_window,
        }
    }
}

} // verus!

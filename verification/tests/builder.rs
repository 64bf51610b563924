use endpoints::chat::{
    ChatCompletionRequestMessage, ChatCompletionRequestSampling, ToolChoice,
};
use endpoints::number::NumberText;
use endpoints::rag::{RagChatCompletionRequestBuilder, RagChatCompletionsRequest};

fn messages() -> Vec<ChatCompletionRequestMessage> {
    vec![ChatCompletionRequestMessage {
        role: "user".to_string(),
        content: "What is retrieval?".to_string(),
    }]
}

#[test]
fn builder_starts_from_the_documented_defaults() {
    let req = RagChatCompletionRequestBuilder::new(messages(), "http://localhost:6333", "docs", 3)
        .build();
    assert_eq!(req.chat_model.as_deref(), Some("dummy-chat-model"));
    assert_eq!(req.embedding_model, "dummy-embedding-model");
    assert_eq!(req.encoding_format.as_deref(), Some("float"));
    assert_eq!(req.qdrant_url, "http://localhost:6333");
    assert_eq!(req.qdrant_collection_name, "docs");
    assert_eq!(req.limit, 3);
    assert_eq!(req.temperature.as_ref().unwrap().text, "1.0");
    assert_eq!(req.top_p.as_ref().unwrap().text, "1.0");
    assert_eq!(req.n_choice, Some(1));
    assert_eq!(req.stream, Some(false));
    assert_eq!(req.max_tokens, Some(1024));
    assert_eq!(req.presence_penalty.as_ref().unwrap().text, "0.0");
    assert_eq!(req.frequency_penalty.as_ref().unwrap().text, "0.0");
    assert_eq!(req.context_window, Some(1));
    assert!(req.stream_options.is_none());
    assert!(req.stop.is_none());
    assert!(req.logit_bias.is_none());
    assert!(req.user.is_none());
    assert!(req.response_format.is_none());
    assert!(req.tools.is_none());
    assert!(req.tool_choice.is_none());
}

#[test]
fn n_choices_below_one_is_raised_to_one() {
    let b = RagChatCompletionRequestBuilder::new(messages(), "u", "c", 1);
    let req = b.with_n_choices(0).build();
    assert_eq!(req.n_choice, Some(1));
    let req = RagChatCompletionRequestBuilder::new(messages(), "u", "c", 1)
        .with_n_choices(5)
        .build();
    assert_eq!(req.n_choice, Some(5));
}

#[test]
fn max_tokens_below_one_is_raised_to_sixteen() {
    let req = RagChatCompletionRequestBuilder::new(messages(), "u", "c", 1)
        .with_max_tokens(0)
        .build();
    assert_eq!(req.max_tokens, Some(16));
    let req = RagChatCompletionRequestBuilder::new(messages(), "u", "c", 1)
        .with_max_tokens(2048)
        .build();
    assert_eq!(req.max_tokens, Some(2048));
}

#[test]
fn choosing_a_temperature_neutralizes_top_p() {
    let req = RagChatCompletionRequestBuilder::new(messages(), "u", "c", 1)
        .with_sampling(ChatCompletionRequestSampling::Temperature(
            NumberText::new("0.8").unwrap(),
        ))
        .build();
    assert_eq!(req.temperature.as_ref().unwrap().text, "0.8");
    assert_eq!(req.top_p.as_ref().unwrap().text, "1.0");
}

#[test]
fn choosing_top_p_neutralizes_the_temperature() {
    let req = RagChatCompletionRequestBuilder::new(messages(), "u", "c", 1)
        .with_sampling(ChatCompletionRequestSampling::TopP(
            NumberText::new("0.9").unwrap(),
        ))
        .build();
    assert_eq!(req.temperature.as_ref().unwrap().text, "1.0");
    assert_eq!(req.top_p.as_ref().unwrap().text, "0.9");
}

#[test]
fn unconditional_setters_store_their_values() {
    let req = RagChatCompletionRequestBuilder::new(messages(), "u", "c", 1)
        .with_stream(true)
        .with_stop(vec!["<end>".to_string()])
        .with_presence_penalty(NumberText::new("0.5").unwrap())
        .with_frequency_penalty(NumberText::new("-0.5").unwrap())
        .with_logits_bias(vec![("50256".to_string(), NumberText::new("-100").unwrap())])
        .with_user("user-7")
        .with_context_window(4)
        .build();
    assert_eq!(req.stream, Some(true));
    assert_eq!(req.stop, Some(vec!["<end>".to_string()]));
    assert_eq!(req.presence_penalty.as_ref().unwrap().text, "0.5");
    assert_eq!(req.frequency_penalty.as_ref().unwrap().text, "-0.5");
    assert_eq!(req.logit_bias.as_ref().unwrap()[0].0, "50256");
    assert_eq!(req.logit_bias.as_ref().unwrap()[0].1.text, "-100");
    assert_eq!(req.user.as_deref(), Some("user-7"));
    assert_eq!(req.context_window, Some(4));
}

#[test]
fn conversion_round_trip_restores_chat_fields_but_not_encoding_format() {
    let original = RagChatCompletionRequestBuilder::new(messages(), "http://localhost:6333", "docs", 2)
        .with_sampling(ChatCompletionRequestSampling::Temperature(
            NumberText::new("0.7").unwrap(),
        ))
        .with_stream(true)
        .with_user("end-user")
        .with_context_window(2)
        .build();
    assert_eq!(original.encoding_format.as_deref(), Some("float"));

    let plain = original.as_chat_completions_request();
    assert_eq!(plain.model, original.chat_model);
    assert_eq!(plain.messages, original.messages);
    assert!(plain.functions.is_none());
    assert!(plain.function_call.is_none());

    let back = RagChatCompletionsRequest::from_chat_completions_request(
        plain,
        &original.qdrant_url,
        &original.qdrant_collection_name,
        original.limit,
    );
    assert_eq!(back.chat_model, original.chat_model);
    assert_eq!(back.messages, original.messages);
    assert_eq!(back.temperature, original.temperature);
    assert_eq!(back.top_p, original.top_p);
    assert_eq!(back.n_choice, original.n_choice);
    assert_eq!(back.stream, original.stream);
    assert_eq!(back.stream_options, original.stream_options);
    assert_eq!(back.stop, original.stop);
    assert_eq!(back.max_tokens, original.max_tokens);
    assert_eq!(back.presence_penalty, original.presence_penalty);
    assert_eq!(back.frequency_penalty, original.frequency_penalty);
    assert_eq!(back.logit_bias, original.logit_bias);
    assert_eq!(back.user, original.user);
    assert_eq!(back.response_format, original.response_format);
    assert_eq!(back.tools, original.tools);
    assert_eq!(back.tool_choice, original.tool_choice);
    assert_eq!(back.context_window, original.context_window);
    assert_eq!(back.qdrant_url, original.qdrant_url);
    assert_eq!(back.qdrant_collection_name, original.qdrant_collection_name);
    assert_eq!(back.limit, original.limit);
    // the designed asymmetry: the encoding format is reset to absent
    assert!(back.encoding_format.is_none());
    assert_eq!(back.embedding_model, "dummy-embedding-model");
}

#[test]
fn conversion_discards_function_call_data() {
    let mut plain = RagChatCompletionRequestBuilder::new(messages(), "u", "c", 1)
        .build()
        .as_chat_completions_request();
    plain.function_call = Some("auto".to_string());
    plain.tool_choice = Some(ToolChoice::Auto);
    let lifted = RagChatCompletionsRequest::from_chat_completions_request(plain, "u", "c", 1);
    // tool data crosses, legacy function-call data has no slot and is gone
    assert_eq!(lifted.tool_choice, Some(ToolChoice::Auto));
    let plain_again = lifted.as_chat_completions_request();
    assert!(plain_again.function_call.is_none());
}

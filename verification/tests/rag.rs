use endpoints::embeddings::{EmbeddingRequest, InputText};
use endpoints::number::NumberText;
use endpoints::rag::{
    ChunksRequest, ChunksResponse, RagEmbeddingRequest, RagScoredPoint, RetrieveObject,
};

#[test]
fn test_rag_serialize_embedding_request() {
    let embedding_request = EmbeddingRequest {
        model: "model".to_string(),
        input: InputText::Single("Hello, world!".to_string()),
        encoding_format: None,
        user: None,
    };
    let qdrant_url = "http://localhost:6333".to_string();
    let qdrant_collection_name = "qdrant_collection_name".to_string();
    let rag_embedding_request = RagEmbeddingRequest {
        embedding_request,
        qdrant_url,
        qdrant_collection_name,
    };
    let json = rag_embedding_request.to_json();
    assert_eq!(
        json,
        r#"{"embeddings":{"model":"model","input":"Hello, world!"},"url":"http://localhost:6333","collection_name":"qdrant_collection_name"}"#
    );
}

#[test]
fn test_rag_deserialize_embedding_request() {
    let json = r#"{"embeddings":{"model":"model","input":["Hello, world!"]},"url":"http://localhost:6333","collection_name":"qdrant_collection_name"}"#;
    let rag_embedding_request = RagEmbeddingRequest::from_json(json).unwrap();
    assert_eq!(rag_embedding_request.qdrant_url, "http://localhost:6333");
    assert_eq!(
        rag_embedding_request.qdrant_collection_name,
        "qdrant_collection_name"
    );
    assert_eq!(rag_embedding_request.embedding_request.model, "model");
    assert_eq!(
        rag_embedding_request.embedding_request.input,
        InputText::Multiple(vec!["Hello, world!".to_string()])
    );
}

#[test]
fn test_rag_serialize_retrieve_object() {
    {
        let ro = RetrieveObject {
            points: Some(vec![RagScoredPoint {
                source: "source".to_string(),
                score: NumberText::new("0.5").unwrap(),
            }]),
            limit: 1,
            score_threshold: NumberText::new("0.5").unwrap(),
        };
        let json = ro.to_json();
        assert_eq!(
            json,
            r#"{"points":[{"source":"source","score":0.5}],"limit":1,"score_threshold":0.5}"#
        );
    }

    {
        let ro = RetrieveObject {
            points: None,
            limit: 1,
            score_threshold: NumberText::new("0.5").unwrap(),
        };
        let json = ro.to_json();
        assert_eq!(json, r#"{"limit":1,"score_threshold":0.5}"#);
    }
}

#[test]
fn test_rag_deserialize_retrieve_object() {
    {
        let json =
            r#"{"points":[{"source":"source","score":0.5}],"limit":1,"score_threshold":0.5}"#;
        let ro = RetrieveObject::from_json(json).unwrap();
        assert_eq!(ro.limit, 1);
        assert_eq!(ro.score_threshold.text, "0.5");
        assert!(ro.points.is_some());
        let points = ro.points.unwrap();
        assert_eq!(points.len(), 1);
        assert_eq!(points[0].source, "source");
        assert_eq!(points[0].score.text, "0.5");
    }

    {
        let json = r#"{"limit":1,"score_threshold":0.5}"#;
        let ro = RetrieveObject::from_json(json).unwrap();
        assert_eq!(ro.limit, 1);
        assert_eq!(ro.score_threshold.text, "0.5");
        assert!(ro.points.is_none());
    }
}

// The first literal scenario: a fresh wrapper around one input text uses the
// placeholder model, an array input, and omits the optional members.
#[test]
fn embedding_request_new_serializes_with_placeholder_model() {
    let req = RagEmbeddingRequest::new(
        &["Hello, world!".to_string()],
        "http://localhost:6333",
        "docs",
    );
    assert_eq!(
        req.to_json(),
        r#"{"embeddings":{"model":"dummy-embedding-model","input":["Hello, world!"]},"url":"http://localhost:6333","collection_name":"docs"}"#
    );
}

#[test]
fn embedding_request_new_accepts_empty_input() {
    let req = RagEmbeddingRequest::new(&[], "http://localhost:6333", "docs");
    assert_eq!(
        req.to_json(),
        r#"{"embeddings":{"model":"dummy-embedding-model","input":[]},"url":"http://localhost:6333","collection_name":"docs"}"#
    );
}

#[test]
fn from_embedding_request_keeps_the_request_unchanged() {
    let embedding_request = EmbeddingRequest {
        model: "m".to_string(),
        input: InputText::Multiple(vec!["a".to_string(), "b".to_string()]),
        encoding_format: Some("float".to_string()),
        user: Some("u".to_string()),
    };
    let req = RagEmbeddingRequest::from_embedding_request(
        embedding_request.clone(),
        "http://localhost:6333",
        "docs",
    );
    assert_eq!(req.embedding_request, embedding_request);
    assert_eq!(req.qdrant_url, "http://localhost:6333");
    assert_eq!(req.qdrant_collection_name, "docs");
    assert_eq!(
        req.to_json(),
        r#"{"embeddings":{"model":"m","input":["a","b"],"encoding_format":"float","user":"u"},"url":"http://localhost:6333","collection_name":"docs"}"#
    );
}

#[test]
fn rag_embedding_request_round_trips() {
    let req = RagEmbeddingRequest::new(
        &["one".to_string(), "two".to_string()],
        "http://localhost:6333",
        "docs",
    );
    let back = RagEmbeddingRequest::from_json(&req.to_json()).unwrap();
    assert_eq!(back, req);
}

#[test]
fn retrieve_object_round_trips_with_escaped_source() {
    let ro = RetrieveObject {
        points: Some(vec![
            RagScoredPoint {
                source: "a \"quoted\" source\nwith\tescapes \\ and \u{1} control".to_string(),
                score: NumberText::new("0.25").unwrap(),
            },
            RagScoredPoint {
                source: "plain".to_string(),
                score: NumberText::new("1").unwrap(),
            },
        ]),
        limit: 7,
        score_threshold: NumberText::new("-1.5e3").unwrap(),
    };
    let back = RetrieveObject::from_json(&ro.to_json()).unwrap();
    assert_eq!(back, ro);
}

#[test]
fn retrieve_object_omits_absent_points_key() {
    let ro = RetrieveObject {
        points: None,
        limit: 3,
        score_threshold: NumberText::new("0.9").unwrap(),
    };
    assert!(!ro.to_json().contains("points"));
}

#[test]
fn retrieve_object_rejects_negative_limit() {
    assert!(RetrieveObject::from_json(r#"{"limit":-1,"score_threshold":0.5}"#).is_none());
}

#[test]
fn retrieve_object_rejects_wrong_types_and_missing_fields() {
    assert!(RetrieveObject::from_json(r#"{"limit":"one","score_threshold":0.5}"#).is_none());
    assert!(RetrieveObject::from_json(r#"{"limit":1}"#).is_none());
    assert!(RetrieveObject::from_json(r#"{"score_threshold":0.5}"#).is_none());
    assert!(RetrieveObject::from_json("").is_none());
    assert!(RetrieveObject::from_json(r#"{"limit":1,"score_threshold":0.5}x"#).is_none());
}

#[test]
fn chunks_request_round_trips() {
    let cr = ChunksRequest {
        id: "doc-1".to_string(),
        filename: "notes.txt".to_string(),
        chunk_capacity: 512,
    };
    let json = cr.to_json();
    assert_eq!(
        json,
        r#"{"id":"doc-1","filename":"notes.txt","chunk_capacity":512}"#
    );
    assert_eq!(ChunksRequest::from_json(&json).unwrap(), cr);
}

#[test]
fn chunks_response_round_trips() {
    let cr = ChunksResponse {
        id: "doc-1".to_string(),
        filename: "notes.txt".to_string(),
        chunks: vec!["first".to_string(), "second".to_string()],
    };
    let json = cr.to_json();
    assert_eq!(
        json,
        r#"{"id":"doc-1","filename":"notes.txt","chunks":["first","second"]}"#
    );
    assert_eq!(ChunksResponse::from_json(&json).unwrap(), cr);
}

#[test]
fn number_text_validates_its_shape() {
    assert!(NumberText::new("0.5").is_some());
    assert!(NumberText::new("-1.5e3").is_some());
    assert!(NumberText::new("18446744073709551615").is_some());
    assert!(NumberText::new("").is_none());
    assert!(NumberText::new("abc").is_none());
    assert!(NumberText::new("+1").is_none());
    assert!(NumberText::new("1x").is_none());
}

use maestro_model_router::bench::{answers, Answers};
use maestro_model_router::bench::rate::{body_of, completion, embeddings, passages, reranking};
use maestro_model_router::stub::parse;

fn parsed(arguments: &[&str]) -> maestro_model_router::stub::Options {
    parse(&arguments.iter().map(|argument| (*argument).to_owned()).collect()).expect("parses")
}

fn flags(pairs: &[(&str, &str)]) -> Vec<(String, String)> {
    pairs.iter().map(|(key, value)| ((*key).to_owned(), (*value).to_owned())).collect()
}

#[test]
fn every_flag_the_stub_knows_sets_what_it_names() {
    let options = parsed(&[
        "--host",
        "0.0.0.0",
        "--port",
        "8123",
        "--exit-after",
        "250",
        "--never-bind-marker",
        "/tmp/a-marker",
    ]);

    assert_eq!(options.host, "0.0.0.0");
    assert_eq!(options.port, 8123);
    assert_eq!(options.exit_after_ms, Some(250));
    assert_eq!(options.never_bind_marker, Some("/tmp/a-marker".to_owned()));
}

#[test]
fn an_entry_is_addressed_at_the_endpoint_its_flags_imply() {
    assert!(matches!(answers(&flags(&[])), Answers::Completions), "an entry that asks for neither mode generates");
    assert!(
        matches!(answers(&flags(&[("embeddings", "true")])), Answers::Embeddings),
        "a server told to embed will refuse a completion"
    );
    assert!(matches!(answers(&flags(&[("reranking", "true")])), Answers::Reranking), "and one told to rerank refuses both");
    assert!(
        matches!(answers(&flags(&[("embeddings", "false")])), Answers::Completions),
        "read as the flags are elsewhere: an explicit false is not the mode"
    );
}

#[test]
fn a_measurement_sends_the_fixed_batch_in_the_body_its_mode_reads() {
    let batch = passages();
    assert_eq!(batch.len(), 32);
    assert!(batch[31].starts_with("Passage 31. "), "{}", batch[31]);
    assert!(embeddings("e\"1").starts_with("{\"model\":\"e\\\"1\",\"input\":[\"Passage 0. "));
    assert!(reranking("r").starts_with("{\"model\":\"r\",\"query\":\"what is a memory budget\",\"documents\":[\"Passage 0. "));
    assert_eq!(
        completion("c"),
        "{\"model\":\"c\",\"messages\":[{\"role\":\"user\",\"content\":\"Write a short paragraph explaining what a memory \
         budget is and why a program might need one.\"}],\"max_tokens\":128,\"stream\":false,\"temperature\":0.0}"
    );
}

#[test]
fn the_body_is_whatever_follows_the_blank_line() {
    assert_eq!(body_of("HTTP/1.1 200 OK\r\nA: b\r\n\r\n{\"x\":1}"), Some("{\"x\":1}".to_owned()));
    assert_eq!(body_of("HTTP/1.1 200 OK\r\n"), None);
}

//! How fast an entry answers, and in which unit: which endpoint answers for
//! an entry, and the fixed work every run of the measurement asks for, so two
//! runs are comparable.

use vstd::prelude::*;

use crate::flags::{is_on, is_set};
use crate::json::{json_array, json_quoted, json_string, push_json_array};
use crate::text::{chars_of, decimal, push_decimal, push_str};

verus! {

/// Which endpoint answers for an entry, and so how it can be timed.
#[derive(Debug, Clone, Copy, PartialEq, Eq, Structural)]
pub enum Answers {
    /// It generates: asked for a completion, rated by what the server reports.
    Completions,
    /// It embeds: asked for embeddings, timed from here.
    Embeddings,
    /// It reranks: asked to rerank, timed from here.
    Reranking,
}

/// The endpoint an entry's flags imply. An entry started with `embeddings`
/// refuses a completion, and one started with `reranking` refuses both.
pub open spec fn answers_for(flags: Seq<(String, String)>) -> Answers {
    if is_set(flags, "reranking"@) || is_set(flags, "rerank"@) {
        Answers::Reranking
    } else if is_set(flags, "embeddings"@) || is_set(flags, "embedding"@) {
        Answers::Embeddings
    } else {
        Answers::Completions
    }
}

/// Which endpoint answers for an entry with these flags.
pub fn answers(flags: &Vec<(String, String)>) -> (endpoint: Answers)
    ensures
        endpoint == answers_for(flags@),
{
    if is_on(flags, "reranking") || is_on(flags, "rerank") {
        Answers::Reranking
    } else if is_on(flags, "embeddings") || is_on(flags, "embedding") {
        Answers::Embeddings
    } else {
        Answers::Completions
    }
}

/// How many passages an embedding or reranking entry is measured over.
pub const PASSAGES: u32 = 32;

/// How many tokens a generative entry is asked for.
pub const TOKENS: u32 = 128;

/// The prompt every generative entry is measured on.
pub open spec fn prompt() -> Seq<char> {
    "Write a short paragraph explaining what a memory budget is and why a program might need one."@
}

/// The passage numbered `i`.
pub open spec fn passage(i: nat) -> Seq<char> {
    "Passage "@ + decimal(i) + ". "@ + prompt()
}

/// The fixed batch, so that two runs measure the same work: thirty-two
/// passages, each numbered and each carrying the prompt.
pub fn passages() -> (batch: Vec<String>)
    ensures
        batch@.len() == PASSAGES,
        forall|i: int| 0 <= i < PASSAGES ==> #[trigger] batch@[i]@ == passage(i as nat),
{
    let mut batch: Vec<String> = Vec::new();
    let mut i: u32 = 0;
    while i < PASSAGES
        invariant
            i <= PASSAGES,
            batch@.len() == i,
            forall|k: int| 0 <= k < i ==> #[trigger] batch@[k]@ == passage(k as nat),
        decreases PASSAGES - i,
    {
        let mut one = String::new();
        push_str(&mut one, "Passage ");
        push_decimal(&mut one, i as u128);
        push_str(&mut one, ". ");
        push_str(&mut one, "Write a short paragraph explaining what a memory budget is and why a program might need one.");
        batch.push(one);
        i = i + 1;
    }
    batch
}

/// The passages as the batch gives them.
pub open spec fn batch() -> Seq<Seq<char>> {
    Seq::new(32, |i: int| passage(i as nat))
}

/// What an embedding entry is sent: the batch, and its own name.
pub open spec fn embeddings_text(id: Seq<char>) -> Seq<char> {
    "{\"model\":"@ + json_string(id) + ",\"input\":"@ + json_array(batch()) + "}"@
}

/// What a reranking entry is sent: the batch as the documents, its own name,
/// and a query about it.
pub open spec fn reranking_text(id: Seq<char>) -> Seq<char> {
    "{\"model\":"@ + json_string(id) + ",\"query\":\"what is a memory budget\",\"documents\":"@
        + json_array(batch()) + "}"@
}

/// What a generative entry is sent: a fixed prompt, a fixed length, no
/// stream, and a temperature of zero so the work does not vary.
pub open spec fn completion_text(id: Seq<char>) -> Seq<char> {
    "{\"model\":"@ + json_string(id) + ",\"messages\":[{\"role\":\"user\",\"content\":"@
        + json_string(prompt()) + "}],\"max_tokens\":128,\"stream\":false,\"temperature\":0.0}"@
}

proof fn lemma_batch(b: Seq<String>)
    requires
        b.len() == PASSAGES,
        forall|i: int| 0 <= i < PASSAGES ==> #[trigger] b[i]@ == passage(i as nat),
    ensures
        b.map_values(|s: String| s@) == batch(),
{
    assert(b.map_values(|s: String| s@) =~= batch());
}

/// The body an embedding entry is measured with.
pub fn embeddings(id: &str) -> (body: String)
    ensures
        body@ == embeddings_text(id@),
{
    let batch = passages();
    proof {
        lemma_batch(batch@);
    }
    let mut out = String::new();
    push_str(&mut out, "{\"model\":");
    let q = json_quoted(id);
    push_str(&mut out, q.as_str());
    push_str(&mut out, ",\"input\":");
    push_json_array(&mut out, &batch);
    push_str(&mut out, "}");
    assert(out@ =~= embeddings_text(id@));
    out
}

/// The body a reranking entry is measured with.
pub fn reranking(id: &str) -> (body: String)
    ensures
        body@ == reranking_text(id@),
{
    let batch = passages();
    proof {
        lemma_batch(batch@);
    }
    let mut out = String::new();
    push_str(&mut out, "{\"model\":");
    let q = json_quoted(id);
    push_str(&mut out, q.as_str());
    push_str(&mut out, ",\"query\":\"what is a memory budget\",\"documents\":");
    push_json_array(&mut out, &batch);
    push_str(&mut out, "}");
    assert(out@ =~= reranking_text(id@));
    out
}

/// The body a generative entry is measured with.
pub fn completion(id: &str) -> (body: String)
    ensures
        body@ == completion_text(id@),
{
    let mut out = String::new();
    push_str(&mut out, "{\"model\":");
    let q = json_quoted(id);
    push_str(&mut out, q.as_str());
    push_str(&mut out, ",\"messages\":[{\"role\":\"user\",\"content\":");
    let p = json_quoted("Write a short paragraph explaining what a memory budget is and why a program might need one.");
    push_str(&mut out, p.as_str());
    push_str(&mut out, "}],\"max_tokens\":128,\"stream\":false,\"temperature\":0.0}");
    assert(out@ =~= completion_text(id@));
    out
}

/// Where the blank line that ends a reply's head first stands, if anywhere.
pub open spec fn blank_line_at(reply: Seq<char>, k: int) -> bool {
    0 <= k && k + 4 <= reply.len() && reply[k] == '\r' && reply[k + 1] == '\n' && reply[k + 2] == '\r'
        && reply[k + 3] == '\n'
}

/// Whatever followed the first blank line of a reply, if it has one.
pub open spec fn body_text(reply: Seq<char>) -> Option<Seq<char>> {
    if exists|k: int| blank_line_at(reply, k) {
        let k = choose|k: int| blank_line_at(reply, k) && forall|j: int| 0 <= j < k ==> !blank_line_at(reply, j);
        Some(reply.skip(k + 4))
    } else {
        None
    }
}

/// Whatever followed the blank line.
pub fn body_of(reply: &str) -> (body: Option<String>)
    ensures
        match body_text(reply@) {
            Some(b) => body is Some && body->Some_0@ == b,
            None => body is None,
        },
{
    let chars = chars_of(reply);
    let n = chars.len();
    let mut k: usize = 0;
    while n >= 4 && k <= n - 4
        invariant
            chars@ == reply@,
            n == chars@.len(),
            k <= n,
            forall|j: int| 0 <= j < k ==> !blank_line_at(reply@, j),
        decreases n - k,
    {
        if chars[k] == '\r' && chars[k + 1] == '\n' && chars[k + 2] == '\r' && chars[k + 3] == '\n' {
            let out = string_after(&chars, k + 4);
            proof {
                assert(blank_line_at(reply@, k as int));
                let c = choose|c: int| blank_line_at(reply@, c) && forall|j: int| 0 <= j < c ==> !blank_line_at(reply@, j);
                assert(c == k) by {
                    if c > k {
                        assert(blank_line_at(reply@, k as int));
                    }
                }
            }
            return Some(out);
        }
        k = k + 1;
    }
    proof {
        assert forall|j: int| !blank_line_at(reply@, j) by {
            if 0 <= j < k {
            }
        }
    }
    None
}

/// The characters from `start` on, as a string.
fn string_after(chars: &Vec<char>, start: usize) -> (out: String)
    requires
        start <= chars@.len(),
    ensures
        out@ == chars@.skip(start as int),
{
    let mut out = String::new();
    let mut i = start;
    while i < chars.len()
        invariant
            start <= i <= chars@.len(),
            out@ == chars@.subrange(start as int, i as int),
        decreases chars@.len() - i,
    {
        crate::text::push_char(&mut out, chars[i]);
        assert(chars@.subrange(start as int, i + 1) =~= chars@.subrange(start as int, i as int).push(chars@[i as int]));
        i = i + 1;
    }
    assert(chars@.subrange(start as int, chars@.len() as int) =~= chars@.skip(start as int));
    out
}

} // verus!

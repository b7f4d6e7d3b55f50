//! What the router holds, in the text format Prometheus scrapes.
//!
//! Gauges only: each is read from the state the router already keeps for its
//! own decisions, so a scrape costs a snapshot and can never drift from what
//! admission sees. Writing the text is here; sending it is the binary's.

use vstd::prelude::*;

use crate::catalog::{Catalog, Entry};
use crate::text::{chars_of, decimal, push_char, push_decimal, push_str, views};

verus! {

/// How the exposition format writes one character of a label value.
pub open spec fn label_char(c: char) -> Seq<char> {
    if c == '\\' {
        seq!['\\', '\\']
    } else if c == '"' {
        seq!['\\', '"']
    } else if c == '\n' {
        seq!['\\', 'n']
    } else {
        seq![c]
    }
}

/// A label value as the format quotes it: the reverse solidus, the quote and
/// the line feed escaped, everything else as it is.
pub open spec fn label_text(s: Seq<char>) -> Seq<char>
    decreases s.len(),
{
    if s.len() == 0 {
        Seq::empty()
    } else {
        label_text(s.drop_last()) + label_char(s.last())
    }
}

/// A label value as the format quotes it. A catalog key may quote any
/// character, so an entry's name can carry the three the format escapes.
pub fn label(value: &str) -> (text: String)
    ensures
        text@ == label_text(value@),
{
    let chars = chars_of(value);
    let mut out = String::new();
    let mut i: usize = 0;
    while i < chars.len()
        invariant
            chars@ == value@,
            i <= chars@.len(),
            out@ == label_text(chars@.take(i as int)),
        decreases chars@.len() - i,
    {
        let c = chars[i];
        assert(chars@.take(i + 1).drop_last() =~= chars@.take(i as int));
        if c == '\\' {
            push_char(&mut out, '\\');
            push_char(&mut out, '\\');
        } else if c == '"' {
            push_char(&mut out, '\\');
            push_char(&mut out, '"');
        } else if c == '\n' {
            push_char(&mut out, '\\');
            push_char(&mut out, 'n');
        } else {
            push_char(&mut out, c);
        }
        assert(out@ =~= label_text(chars@.take(i + 1)));
        i = i + 1;
    }
    assert(chars@.take(chars@.len() as int) =~= chars@);
    out
}

/// One sample line: bare when it has no labels.
pub open spec fn sample_text(name: Seq<char>, labels: Seq<char>, value: u64) -> Seq<char> {
    if labels.len() == 0 {
        name + " "@ + decimal(value as nat) + "\n"@
    } else {
        name + "{"@ + labels + "} "@ + decimal(value as nat) + "\n"@
    }
}

/// The sample lines, one per label set.
pub open spec fn samples_text(name: Seq<char>, samples: Seq<(Seq<char>, u64)>) -> Seq<char>
    decreases samples.len(),
{
    if samples.len() == 0 {
        Seq::empty()
    } else {
        samples_text(name, samples.drop_last()) + sample_text(name, samples.last().0, samples.last().1)
    }
}

/// The text of the samples.
pub open spec fn sample_views(samples: Seq<(String, u64)>) -> Seq<(Seq<char>, u64)> {
    samples.map_values(|s: (String, u64)| (s.0@, s.1))
}

/// One gauge: what it means, that it is a gauge, and one sample per label
/// set -- none when there are none.
pub open spec fn gauge_text(name: Seq<char>, help: Seq<char>, samples: Seq<(Seq<char>, u64)>) -> Seq<char> {
    "# HELP "@ + name + " "@ + help + "\n# TYPE "@ + name + " gauge\n"@ + samples_text(name, samples)
}

/// Writes one gauge.
pub fn gauge(out: &mut String, name: &str, help: &str, samples: &[(String, u64)])
    ensures
        final(out)@ == old(out)@ + gauge_text(name@, help@, sample_views(samples@)),
{
    let ghost start = out@;
    let ghost views = sample_views(samples@);
    push_str(out, "# HELP ");
    push_str(out, name);
    push_str(out, " ");
    push_str(out, help);
    push_str(out, "\n# TYPE ");
    push_str(out, name);
    push_str(out, " gauge\n");
    let ghost head = out@;
    let mut i: usize = 0;
    while i < samples.len()
        invariant
            i <= samples@.len(),
            views == sample_views(samples@),
            out@ == head + samples_text(name@, views.take(i as int)),
        decreases samples@.len() - i,
    {
        assert(views.take(i + 1).drop_last() =~= views.take(i as int));
        push_str(out, name);
        if samples[i].0.as_str().is_empty() {
            push_str(out, " ");
        } else {
            push_str(out, "{");
            push_str(out, samples[i].0.as_str());
            push_str(out, "} ");
        }
        push_decimal(out, samples[i].1 as u128);
        push_str(out, "\n");
        assert(out@ =~= head + samples_text(name@, views.take(i + 1)));
        i = i + 1;
    }
    assert(views.take(views.len() as int) =~= views);
    assert(out@ =~= start + gauge_text(name@, help@, views));
}

/// The label set naming one entry.
pub open spec fn model_labels(id: Seq<char>) -> Seq<char> {
    "model=\""@ + label_text(id) + "\""@
}

fn model_labels_of(id: &str) -> (labels: String)
    ensures
        labels@ == model_labels(id@),
{
    let mut out = String::new();
    push_str(&mut out, "model=\"");
    let escaped = label(id);
    push_str(&mut out, escaped.as_str());
    push_str(&mut out, "\"");
    out
}

/// What a loaded entry was measured holding, as the last reading for it
/// says, or nothing.
pub open spec fn held_value(held: Seq<(String, Option<u64>)>, id: Seq<char>) -> Option<u64>
    decreases held.len(),
{
    if held.len() == 0 {
        None
    } else if held.last().0@ == id {
        held.last().1
    } else {
        held_value(held.drop_last(), id)
    }
}

/// One sample per entry: whether a child holds it.
pub open spec fn loaded_samples(entries: Seq<Entry>, loaded: Seq<Seq<char>>) -> Seq<(Seq<char>, u64)> {
    entries.map_values(|e: Entry| (model_labels(e.id@), if loaded.contains(e.id@) { 1u64 } else { 0u64 }))
}

/// The entries measured holding something, with what they hold.
pub open spec fn held_samples(entries: Seq<Entry>, held: Seq<(String, Option<u64>)>) -> Seq<(Seq<char>, u64)>
    decreases entries.len(),
{
    if entries.len() == 0 {
        Seq::empty()
    } else {
        let rest = held_samples(entries.drop_last(), held);
        match held_value(held, entries.last().id@) {
            Some(mib) => rest.push((model_labels(entries.last().id@), mib)),
            None => rest,
        }
    }
}

/// What a loaded entry was measured holding, by the last reading for it.
pub fn held_lookup(held: &Vec<(String, Option<u64>)>, id: &str) -> (value: Option<u64>)
    ensures
        value == held_value(held@, id@),
{
    let mut i: usize = held.len();
    assert(held@.take(held@.len() as int) =~= held@);
    while i > 0
        invariant
            i <= held@.len(),
            held_value(held@, id@) == held_value(held@.take(i as int), id@),
        decreases i,
    {
        assert(held@.take(i as int).drop_last() =~= held@.take(i - 1));
        if crate::text::same_text(held[i - 1].0.as_str(), id) {
            return held[i - 1].1;
        }
        i = i - 1;
    }
    None
}

/// The build answering, as the labels of one sample.
pub open spec fn build_labels(version: Seq<char>, commit: Seq<char>) -> Seq<char> {
    "version=\""@ + label_text(version) + "\",commit=\""@ + label_text(commit) + "\""@
}

/// What the catalog estimates each entry holds, one sample per entry.
pub open spec fn declared_samples(entries: Seq<Entry>) -> Seq<(Seq<char>, u64)> {
    entries.map_values(|e: Entry| (model_labels(e.id@), e.memory_estimate_mib as u64))
}

/// What one scrape answers: the build, each entry's state, the line for
/// room, and the budget when there is one -- left out rather than reported
/// as zero when there is none, since zero would read as a ceiling nothing
/// fits under.
pub open spec fn exposition_text(
    entries: Seq<Entry>,
    loaded: Seq<Seq<char>>,
    held: Seq<(String, Option<u64>)>,
    waiting: usize,
    budget_mib: Option<u32>,
    version: Seq<char>,
    commit: Seq<char>,
) -> Seq<char> {
    gauge_text("model_router_build_info"@, "The release and commit answering, as labels."@, seq![(build_labels(version, commit), 1u64)])
        + gauge_text("model_router_model_loaded"@, "Whether a child is holding the entry."@, loaded_samples(entries, loaded))
        + gauge_text("model_router_model_declared_mib"@, "What the catalog estimates the entry holds, in MiB."@, declared_samples(entries))
        + gauge_text("model_router_model_held_mib"@, "What a loaded entry was measured holding, in MiB."@, held_samples(entries, held))
        + gauge_text("model_router_requests_waiting"@, "Requests in line for room."@, seq![(Seq::<char>::empty(), waiting as u64)])
        + match budget_mib {
            Some(b) => gauge_text(
                "model_router_memory_budget_mib"@,
                "The ceiling models are unloaded to stay under, in MiB."@,
                seq![(Seq::<char>::empty(), b as u64)],
            ),
            None => Seq::empty(),
        }
}

/// The text one scrape is answered with, from what the router holds: the
/// catalog, the entries loaded, what each was measured holding, how many
/// wait for room, the budget, and the build answering.
pub fn exposition(
    catalog: &Catalog,
    loaded: &Vec<String>,
    held: &Vec<(String, Option<u64>)>,
    waiting: usize,
    budget_mib: Option<u32>,
    version: &str,
    commit: &str,
) -> (text: String)
    ensures
        text@ == exposition_text(catalog.entries@, views(loaded@), held@, waiting, budget_mib, version@, commit@),
{
    let entries = &catalog.entries;
    let mut out = String::new();

    let mut info = String::new();
    push_str(&mut info, "version=\"");
    let v = label(version);
    push_str(&mut info, v.as_str());
    push_str(&mut info, "\",commit=\"");
    let c = label(commit);
    push_str(&mut info, c.as_str());
    push_str(&mut info, "\"");
    let mut build: Vec<(String, u64)> = Vec::new();
    build.push((info, 1));
    assert(sample_views(build@) =~= seq![(build_labels(version@, commit@), 1u64)]);
    gauge(&mut out, "model_router_build_info", "The release and commit answering, as labels.", &build);

    let mut loaded_s: Vec<(String, u64)> = Vec::new();
    let mut declared_s: Vec<(String, u64)> = Vec::new();
    let mut held_s: Vec<(String, u64)> = Vec::new();
    let mut i: usize = 0;
    while i < entries.len()
        invariant
            i <= entries@.len(),
            sample_views(loaded_s@) == loaded_samples(entries@.take(i as int), views(loaded@)),
            sample_views(declared_s@) == declared_samples(entries@.take(i as int)),
            sample_views(held_s@) == held_samples(entries@.take(i as int), held@),
        decreases entries@.len() - i,
    {
        let id = entries[i].id.as_str();
        assert(entries@.take(i + 1).drop_last() =~= entries@.take(i as int));
        let is_loaded = crate::catalog::listing::contains_text(loaded, id);
        let labels = model_labels_of(id);
        let ghost lv = sample_views(loaded_s@);
        let ghost e = entries@[i as int];
        assert(e.id@ == id@);
        let first = labels.clone();
        let flag: u64 = if is_loaded { 1 } else { 0 };
        loaded_s.push((first, flag));
        assert(sample_views(loaded_s@) =~= lv.push((model_labels(id@), flag)));
        assert(entries@.take(i + 1) =~= entries@.take(i as int).push(e));
        assert(loaded_samples(entries@.take(i + 1), views(loaded@)) =~= loaded_samples(entries@.take(i as int), views(loaded@)).push((model_labels(id@), flag)));
        let ghost dv = sample_views(declared_s@);
        let second = labels.clone();
        declared_s.push((second, entries[i].memory_estimate_mib as u64));
        assert(sample_views(declared_s@) =~= dv.push((model_labels(id@), e.memory_estimate_mib as u64)));
        assert(declared_samples(entries@.take(i + 1)) =~= declared_samples(entries@.take(i as int)).push((model_labels(id@), e.memory_estimate_mib as u64)));
        let ghost hv = sample_views(held_s@);
        match held_lookup(held, id) {
            Some(mib) => {
                held_s.push((labels, mib));
                assert(sample_views(held_s@) =~= hv.push((model_labels(id@), mib)));
            },
            None => {},
        }
        i = i + 1;
    }
    assert(entries@.take(entries@.len() as int) =~= entries@);
    gauge(&mut out, "model_router_model_loaded", "Whether a child is holding the entry.", &loaded_s);
    gauge(&mut out, "model_router_model_declared_mib", "What the catalog estimates the entry holds, in MiB.", &declared_s);
    gauge(&mut out, "model_router_model_held_mib", "What a loaded entry was measured holding, in MiB.", &held_s);
    let mut waiting_s: Vec<(String, u64)> = Vec::new();
    waiting_s.push((String::new(), waiting as u64));
    assert(sample_views(waiting_s@) =~= seq![(Seq::<char>::empty(), waiting as u64)]);
    gauge(&mut out, "model_router_requests_waiting", "Requests in line for room.", &waiting_s);
    let ghost before_budget = out@;
    if let Some(b) = budget_mib {
        let mut budget_s: Vec<(String, u64)> = Vec::new();
        budget_s.push((String::new(), b as u64));
        assert(sample_views(budget_s@) =~= seq![(Seq::<char>::empty(), b as u64)]);
        gauge(&mut out, "model_router_memory_budget_mib", "The ceiling models are unloaded to stay under, in MiB.", &budget_s);
    } else {
        assert(out@ =~= before_budget + Seq::<char>::empty());
    }
    assert(out@ =~= exposition_text(catalog.entries@, views(loaded@), held@, waiting, budget_mib, version@, commit@));
    out
}

/// Whether `piece` stands somewhere in `text`, whole.
pub open spec fn holds(text: Seq<char>, piece: Seq<char>) -> bool {
    exists|i: int| 0 <= i && i + piece.len() <= text.len() && #[trigger] text.subrange(i, i + piece.len()) == piece
}

proof fn lemma_holds_itself(piece: Seq<char>)
    ensures
        holds(piece, piece),
{
    let i: int = 0;
    assert(piece.subrange(i, i + piece.len()) =~= piece);
}

proof fn lemma_holds_within(a: Seq<char>, b: Seq<char>, c: Seq<char>, piece: Seq<char>)
    requires
        holds(b, piece),
    ensures
        holds(a + b + c, piece),
{
    let i = choose|i: int| 0 <= i && i + piece.len() <= b.len() && #[trigger] b.subrange(i, i + piece.len()) == piece;
    let t = a + b + c;
    assert(t.subrange(a.len() + i, a.len() + i + piece.len()) =~= b.subrange(i, i + piece.len()));
}

proof fn lemma_sample_holds(name: Seq<char>, samples: Seq<(Seq<char>, u64)>, k: int)
    requires
        0 <= k < samples.len(),
    ensures
        holds(samples_text(name, samples), sample_text(name, samples[k].0, samples[k].1)),
    decreases samples.len(),
{
    let piece = sample_text(name, samples[k].0, samples[k].1);
    let before = samples_text(name, samples.drop_last());
    if k == samples.len() - 1 {
        lemma_holds_itself(piece);
        lemma_holds_within(before, piece, Seq::empty(), piece);
        assert(before + piece + Seq::<char>::empty() =~= samples_text(name, samples));
    } else {
        lemma_sample_holds(name, samples.drop_last(), k);
        let last = sample_text(name, samples.last().0, samples.last().1);
        lemma_holds_within(Seq::empty(), before, last, piece);
        assert(Seq::<char>::empty() + before + last =~= samples_text(name, samples));
    }
}

proof fn lemma_gauge_holds(name: Seq<char>, help: Seq<char>, samples: Seq<(Seq<char>, u64)>, k: int)
    requires
        0 <= k < samples.len(),
    ensures
        holds(gauge_text(name, help, samples), sample_text(name, samples[k].0, samples[k].1)),
{
    lemma_sample_holds(name, samples, k);
    let head = "# HELP "@ + name + " "@ + help + "\n# TYPE "@ + name + " gauge\n"@;
    lemma_holds_within(head, samples_text(name, samples), Seq::empty(), sample_text(name, samples[k].0, samples[k].1));
    assert(head + samples_text(name, samples) + Seq::<char>::empty() =~= gauge_text(name, help, samples));
}

proof fn lemma_held_sample(entries: Seq<Entry>, held: Seq<(String, Option<u64>)>, k: int, mib: u64)
    requires
        0 <= k < entries.len(),
        held_value(held, entries[k].id@) == Some(mib),
    ensures
        exists|j: int|
            0 <= j < held_samples(entries, held).len() && #[trigger] held_samples(entries, held)[j] == (
                model_labels(entries[k].id@),
                mib,
            ),
    decreases entries.len(),
{
    let rest = held_samples(entries.drop_last(), held);
    if k == entries.len() - 1 {
        assert(held_samples(entries, held)[rest.len() as int] == (model_labels(entries[k].id@), mib));
    } else {
        lemma_held_sample(entries.drop_last(), held, k, mib);
        let j = choose|j: int| 0 <= j < rest.len() && #[trigger] rest[j] == (model_labels(entries[k].id@), mib);
        assert(held_samples(entries, held)[j] == rest[j]);
    }
}

/// Every entry of the catalog has its line in a scrape saying whether a
/// child holds it: 1 when one does, 0 when none does. An entry measured
/// holding memory has its line saying how much, and a budget, when there is
/// one, has its line.
pub proof fn law_every_entry_is_reported_loaded_or_not(
    entries: Seq<Entry>,
    loaded: Seq<Seq<char>>,
    held: Seq<(String, Option<u64>)>,
    waiting: usize,
    budget_mib: Option<u32>,
    version: Seq<char>,
    commit: Seq<char>,
    k: int,
)
    requires
        0 <= k < entries.len(),
    ensures
        holds(
            exposition_text(entries, loaded, held, waiting, budget_mib, version, commit),
            sample_text(
                "model_router_model_loaded"@,
                model_labels(entries[k].id@),
                if loaded.contains(entries[k].id@) { 1u64 } else { 0u64 },
            ),
        ),
        held_value(held, entries[k].id@) matches Some(mib) ==> holds(
            exposition_text(entries, loaded, held, waiting, budget_mib, version, commit),
            sample_text("model_router_model_held_mib"@, model_labels(entries[k].id@), mib),
        ),
        budget_mib matches Some(b) ==> holds(
            exposition_text(entries, loaded, held, waiting, budget_mib, version, commit),
            sample_text("model_router_memory_budget_mib"@, Seq::empty(), b as u64),
        ),
{
    let g1 = gauge_text("model_router_build_info"@, "The release and commit answering, as labels."@, seq![(build_labels(version, commit), 1u64)]);
    let g2 = gauge_text("model_router_model_loaded"@, "Whether a child is holding the entry."@, loaded_samples(entries, loaded));
    let g3 = gauge_text("model_router_model_declared_mib"@, "What the catalog estimates the entry holds, in MiB."@, declared_samples(entries));
    let g4 = gauge_text("model_router_model_held_mib"@, "What a loaded entry was measured holding, in MiB."@, held_samples(entries, held));
    let g5 = gauge_text("model_router_requests_waiting"@, "Requests in line for room."@, seq![(Seq::<char>::empty(), waiting as u64)]);
    let g6 = match budget_mib {
        Some(b) => gauge_text(
            "model_router_memory_budget_mib"@,
            "The ceiling models are unloaded to stay under, in MiB."@,
            seq![(Seq::<char>::empty(), b as u64)],
        ),
        None => Seq::empty(),
    };
    let text = exposition_text(entries, loaded, held, waiting, budget_mib, version, commit);
    assert(text == g1 + g2 + g3 + g4 + g5 + g6);

    lemma_gauge_holds("model_router_model_loaded"@, "Whether a child is holding the entry."@, loaded_samples(entries, loaded), k);
    lemma_holds_within(g1, g2, g3 + g4 + g5 + g6, sample_text(
        "model_router_model_loaded"@,
        model_labels(entries[k].id@),
        if loaded.contains(entries[k].id@) { 1u64 } else { 0u64 },
    ));
    assert(g1 + g2 + (g3 + g4 + g5 + g6) =~= text);

    if let Some(mib) = held_value(held, entries[k].id@) {
        lemma_held_sample(entries, held, k, mib);
        let samples = held_samples(entries, held);
        let j = choose|j: int| 0 <= j < samples.len() && #[trigger] samples[j] == (model_labels(entries[k].id@), mib);
        lemma_gauge_holds("model_router_model_held_mib"@, "What a loaded entry was measured holding, in MiB."@, samples, j);
        lemma_holds_within(g1 + g2 + g3, g4, g5 + g6, sample_text("model_router_model_held_mib"@, model_labels(entries[k].id@), mib));
        assert(g1 + g2 + g3 + g4 + (g5 + g6) =~= text);
    }
    if let Some(b) = budget_mib {
        lemma_gauge_holds(
            "model_router_memory_budget_mib"@,
            "The ceiling models are unloaded to stay under, in MiB."@,
            seq![(Seq::<char>::empty(), b as u64)],
            0,
        );
        lemma_holds_within(g1 + g2 + g3 + g4 + g5, g6, Seq::empty(), sample_text("model_router_memory_budget_mib"@, Seq::empty(), b as u64));
        assert(g1 + g2 + g3 + g4 + g5 + g6 + Seq::<char>::empty() =~= text);
    }
}

/// Every line of the held gauge is for an entry of the catalog measured
/// holding memory, and says what the last reading for it says: an entry
/// with no reading has no line, never one that says zero.
pub proof fn law_a_held_line_is_only_for_a_measured_entry(
    entries: Seq<Entry>,
    held: Seq<(String, Option<u64>)>,
    j: int,
)
    requires
        0 <= j < held_samples(entries, held).len(),
    ensures
        exists|k: int|
            0 <= k < entries.len() && #[trigger] held_value(held, entries[k].id@) == Some(held_samples(entries, held)[j].1)
                && held_samples(entries, held)[j].0 == model_labels(entries[k].id@),
    decreases entries.len(),
{
    let rest = held_samples(entries.drop_last(), held);
    if j < rest.len() {
        law_a_held_line_is_only_for_a_measured_entry(entries.drop_last(), held, j);
        let k = choose|k: int|
            0 <= k < entries.drop_last().len() && #[trigger] held_value(held, entries.drop_last()[k].id@) == Some(rest[j].1)
                && rest[j].0 == model_labels(entries.drop_last()[k].id@);
        assert(entries.drop_last()[k] == entries[k]);
        assert(held_samples(entries, held)[j] == rest[j]);
    } else {
        let k = entries.len() - 1;
        assert(entries.last() == entries[k]);
        assert(held_value(held, entries[k].id@) == Some(held_samples(entries, held)[j].1));
    }
}

/// Every entry of the catalog has its line in a scrape saying what the
/// catalog estimates it holds, in MiB: its declared estimate, whatever else
/// it declares. The line for room has its line too, with how many wait.
pub proof fn law_every_entry_is_reported_at_its_declared_estimate(
    entries: Seq<Entry>,
    loaded: Seq<Seq<char>>,
    held: Seq<(String, Option<u64>)>,
    waiting: usize,
    budget_mib: Option<u32>,
    version: Seq<char>,
    commit: Seq<char>,
    k: int,
)
    requires
        0 <= k < entries.len(),
    ensures
        holds(
            exposition_text(entries, loaded, held, waiting, budget_mib, version, commit),
            sample_text(
                "model_router_model_declared_mib"@,
                model_labels(entries[k].id@),
                entries[k].memory_estimate_mib as u64,
            ),
        ),
        holds(
            exposition_text(entries, loaded, held, waiting, budget_mib, version, commit),
            sample_text("model_router_requests_waiting"@, Seq::empty(), waiting as u64),
        ),
{
    let g1 = gauge_text("model_router_build_info"@, "The release and commit answering, as labels."@, seq![(build_labels(version, commit), 1u64)]);
    let g2 = gauge_text("model_router_model_loaded"@, "Whether a child is holding the entry."@, loaded_samples(entries, loaded));
    let g3 = gauge_text("model_router_model_declared_mib"@, "What the catalog estimates the entry holds, in MiB."@, declared_samples(entries));
    let g4 = gauge_text("model_router_model_held_mib"@, "What a loaded entry was measured holding, in MiB."@, held_samples(entries, held));
    let g5 = gauge_text("model_router_requests_waiting"@, "Requests in line for room."@, seq![(Seq::<char>::empty(), waiting as u64)]);
    let g6 = match budget_mib {
        Some(b) => gauge_text(
            "model_router_memory_budget_mib"@,
            "The ceiling models are unloaded to stay under, in MiB."@,
            seq![(Seq::<char>::empty(), b as u64)],
        ),
        None => Seq::empty(),
    };
    let text = exposition_text(entries, loaded, held, waiting, budget_mib, version, commit);
    assert(text == g1 + g2 + g3 + g4 + g5 + g6);
    lemma_gauge_holds(
        "model_router_model_declared_mib"@,
        "What the catalog estimates the entry holds, in MiB."@,
        declared_samples(entries),
        k,
    );
    lemma_holds_within(g1 + g2, g3, g4 + g5 + g6, sample_text(
        "model_router_model_declared_mib"@,
        model_labels(entries[k].id@),
        entries[k].memory_estimate_mib as u64,
    ));
    assert(g1 + g2 + g3 + (g4 + g5 + g6) =~= text);
    lemma_gauge_holds("model_router_requests_waiting"@, "Requests in line for room."@, seq![(Seq::<char>::empty(), waiting as u64)], 0);
    lemma_holds_within(g1 + g2 + g3 + g4, g5, g6, sample_text("model_router_requests_waiting"@, Seq::empty(), waiting as u64));
    assert(g1 + g2 + g3 + g4 + g5 + g6 =~= text);
}

/// Whether text reads, front to back, as characters the format takes bare
/// -- anything but the reverse solidus, the quote and the line feed -- and
/// escapes of those three: nothing in it can end a label or a line.
pub open spec fn well_escaped(t: Seq<char>) -> bool
    decreases t.len(),
{
    if t.len() == 0 {
        true
    } else if t[0] == '\\' {
        t.len() >= 2 && (t[1] == '\\' || t[1] == '"' || t[1] == 'n') && well_escaped(t.skip(2))
    } else {
        t[0] != '"' && t[0] != '\n' && well_escaped(t.skip(1))
    }
}

/// What escaped text says, each escape read back as the character it
/// stands for.
pub open spec fn unescaped(t: Seq<char>) -> Seq<char>
    decreases t.len(),
{
    if t.len() == 0 {
        Seq::empty()
    } else if t[0] == '\\' && t.len() >= 2 {
        seq![if t[1] == 'n' { '\n' } else { t[1] }] + unescaped(t.skip(2))
    } else {
        seq![t[0]] + unescaped(t.skip(1))
    }
}

proof fn lemma_escaped_joined(a: Seq<char>, b: Seq<char>)
    requires
        well_escaped(a),
        well_escaped(b),
    ensures
        well_escaped(a + b),
        unescaped(a + b) == unescaped(a) + unescaped(b),
    decreases a.len(),
{
    if a.len() > 0 {
        if a[0] == '\\' {
            lemma_escaped_joined(a.skip(2), b);
            assert((a + b).skip(2) =~= a.skip(2) + b);
            assert((a + b)[0] == a[0] && (a + b)[1] == a[1]);
        } else {
            lemma_escaped_joined(a.skip(1), b);
            assert((a + b).skip(1) =~= a.skip(1) + b);
            assert((a + b)[0] == a[0]);
        }
        assert(unescaped(a + b) =~= unescaped(a) + unescaped(b));
    } else {
        assert(a + b =~= b);
    }
}

proof fn lemma_one_escaped(c: char)
    ensures
        well_escaped(label_char(c)),
        unescaped(label_char(c)) == seq![c],
{
    reveal_with_fuel(well_escaped, 3);
    reveal_with_fuel(unescaped, 3);
    let t = label_char(c);
    if t.len() == 2 {
        assert(t.skip(2) =~= Seq::<char>::empty());
    } else {
        assert(t.skip(1) =~= Seq::<char>::empty());
    }
    assert(unescaped(t) =~= seq![c]);
}

/// A label value as the format writes it can neither end the label nor the
/// line early -- every quote, reverse solidus and line feed in it is
/// escaped -- and reading the escapes back gives the value: no two values
/// are written alike.
pub proof fn law_a_label_reads_back_as_its_value(s: Seq<char>)
    ensures
        well_escaped(label_text(s)),
        unescaped(label_text(s)) == s,
    decreases s.len(),
{
    if s.len() > 0 {
        law_a_label_reads_back_as_its_value(s.drop_last());
        lemma_one_escaped(s.last());
        lemma_escaped_joined(label_text(s.drop_last()), label_char(s.last()));
        assert(s.drop_last() + seq![s.last()] =~= s);
    }
}

} // verus!

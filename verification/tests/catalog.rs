use maestro_model_router::catalog::defaults::Defaults;
use maestro_model_router::catalog::discover::name::{is_model, name_identifier};
use maestro_model_router::catalog::discover::walk::{context_for, discovered, identifier, relative, under, Found};
use maestro_model_router::catalog::estimate::{derive_estimate, other_shards, shard_of, shards_to_count, Basis, CacheShape, Files};
use maestro_model_router::catalog::{Catalog, Entry, EstimateSource, RelativePath, Residency, Sources};
use maestro_model_router::gguf::metadata::Metadata;

fn entry(id: &str, flags: &[(&str, &str)]) -> Entry {
    Entry {
        id: id.to_owned(),
        path: RelativePath::new("models/model.gguf").expect("relative"),
        draft_path: None,
        projector_path: None,
        context_size: 4096,
        residency: Residency::OnDemand,
        memory_estimate_mib: 512,
        reasoning_format: None,
        reasoning_effort: None,
        startup_timeout_seconds: 300,
        runtime: None,
        flags: flags.iter().map(|(name, value)| ((*name).to_owned(), (*value).to_owned())).collect(),
    }
}

fn four_gibibytes(shape: Option<CacheShape>) -> Files {
    Files {
        model_bytes: 4 * 1024 * 1024 * 1024,
        metadata_read: shape.is_some(),
        shard_bytes: Vec::new(),
        model_shape: shape,
        draft_bytes: 0,
        draft_shape: None,
        projector_bytes: 0,
    }
}

fn shape() -> CacheShape {
    CacheShape { layers: 32, kv_heads: 8, key_length: 128, value_length: 128 }
}

#[test]
fn a_shard_suffix_is_read_and_its_siblings_named() {
    let shard = shard_of("Big-Model-00002-of-00004.gguf").expect("a shard");
    assert_eq!(shard.stem, "Big-Model");
    assert_eq!(shard.index, 2);
    assert_eq!(shard.sibling("x/Big-Model-00002-of-00004.gguf", 4), "x/Big-Model-00004-of-00004.gguf");
    assert_eq!(shard_of("model.gguf"), None, "no suffix");
    assert_eq!(shard_of("model-1-of-x.gguf"), None, "not digits");
    assert_eq!(shard_of("model-1-of-04.gguf"), None, "widths differ");
}

#[test]
fn every_other_shard_of_a_split_model_is_named_beside_it() {
    assert_eq!(
        other_shards("dir/M-00001-of-00003.gguf", 3),
        vec!["dir/M-00002-of-00003.gguf".to_owned(), "dir/M-00003-of-00003.gguf".to_owned()]
    );
    assert!(other_shards("dir/model.gguf", 3).is_empty(), "a name without a suffix has no siblings");
}

#[test]
fn the_estimate_sums_weights_cache_fragmentation_and_overhead() {
    let derived = derive_estimate(&entry("a", &[]), &four_gibibytes(Some(shape())));
    assert_eq!(derived.mib, 5837);
    assert_eq!(derived.basis, Basis::Metadata);
}

#[test]
fn quantised_cache_types_shrink_the_cache() {
    let derived = derive_estimate(&entry("a", &[("ctk", "q8_0"), ("ctv", "q4_0")]), &four_gibibytes(Some(shape())));
    assert_eq!(derived.mib, 5533);
}

#[test]
fn a_file_whose_metadata_cannot_be_read_is_estimated_from_its_size() {
    let derived = derive_estimate(&entry("a", &[]), &four_gibibytes(None));
    assert_eq!(derived.mib, 6144);
    assert_eq!(derived.basis, Basis::Size);
}

#[test]
fn an_entry_on_the_processor_is_charged_the_overhead_alone() {
    let derived = derive_estimate(&entry("a", &[("n-gpu-layers", "0")]), &four_gibibytes(Some(shape())));
    assert_eq!(derived.mib, 1024);
    assert_eq!(derived.basis, Basis::Metadata);
}

#[test]
fn an_embedding_entry_keeps_no_cache_of_its_own() {
    let derived = derive_estimate(&entry("a", &[("embeddings", "true")]), &four_gibibytes(Some(shape())));
    assert_eq!(derived.mib, 5325, "weights, five percent and the overhead, with no cache");
}

#[test]
fn a_missing_key_length_is_the_width_over_the_heads() {
    let shape = CacheShape::from_metadata(Some(32), Some(4096), Some(32), Some(8), None, None).expect("a shape");
    assert_eq!(shape, CacheShape { layers: 32, kv_heads: 8, key_length: 128, value_length: 128 });
    assert_eq!(CacheShape::from_metadata(None, Some(4096), Some(32), None, None, None), None, "no layers");
}

#[test]
fn only_a_model_file_is_found() {
    assert!(is_model("Qwen3-8B-Q4_K_M.gguf"));
    assert!(is_model("Loud.GGUF"), "the extension in any case");
    assert!(!is_model("mmproj-F16.gguf"), "a projector");
    assert!(!is_model("Qwen3-MTP.gguf"), "a draft");
    assert!(!is_model("FastMTP.gguf"), "a draft whose segment starts at a capital");
    assert!(is_model("smtp-notes.gguf"), "mtp inside a word is no segment");
    assert!(!is_model("model.bin"));
    assert!(!is_model("Big-00002-of-00004.gguf"), "a later shard is weights");
    assert!(is_model("Big-00001-of-00004.gguf"), "the first shard names the entry");
}

#[test]
fn an_identifier_is_the_stem_lowercased_with_runs_collapsed() {
    assert_eq!(name_identifier("Qwen3-8B-Q4_K_M.gguf"), "qwen3-8b-q4-k-m");
    assert_eq!(name_identifier("Big-Model-00001-of-00004.gguf"), "big-model");
    assert_eq!(name_identifier("__odd  name__.gguf"), "odd-name");
}

#[test]
fn a_taken_name_takes_its_directory_in_front() {
    let mut taken = vec!["qwen3".to_owned()];
    let mut notes = Vec::new();
    let id = identifier("/m/unsloth/Qwen3.gguf", &mut taken, &mut notes);
    assert_eq!(id.as_deref(), Some("unsloth-qwen3"));
    assert_eq!(taken, ["qwen3", "unsloth-qwen3"]);
    assert_eq!(notes, ["'qwen3' is taken, so '/m/unsloth/Qwen3.gguf' is named 'unsloth-qwen3'"]);

    let again = identifier("/m/unsloth/Qwen3.gguf", &mut taken, &mut notes);
    assert_eq!(again, None, "both names are taken now");
    assert_eq!(notes.len(), 2);
}

#[test]
fn a_location_is_written_relative_to_the_root() {
    let location = relative("/models", "/models/a/./b.gguf").expect("under the root");
    assert_eq!(location.as_str(), "a/b.gguf");
    assert!(relative("/models", "/other/b.gguf").is_none(), "not under the root");
    assert!(relative("/models", "/modelsx/b.gguf").is_none(), "a longer name is not the root");
}

#[test]
fn a_discovered_entry_is_started_no_wider_than_it_was_trained() {
    assert_eq!(context_for(None, Some(8192)), 8192);
    assert_eq!(context_for(Some(32768), Some(8192)), 8192);
    assert_eq!(context_for(Some(2048), Some(8192)), 2048);
    assert_eq!(context_for(None, None), 4096);
    assert_eq!(context_for(None, Some(0)), 4096, "a context of zero says nothing");
}

#[test]
fn a_discovered_entry_takes_the_defaults_and_says_what_it_cost() {
    let location = RelativePath::new("a/b.gguf").expect("relative");
    let (made, note) = discovered("b".to_owned(), location, &Defaults::none(), None, &Ok(four_gibibytes(None)));
    let made = made.expect("an entry");
    assert_eq!(made.memory_estimate_mib, 6144);
    assert_eq!(made.residency, Residency::OnDemand);
    assert_eq!(made.startup_timeout_seconds, 300);
    assert_eq!(note, "discovered 'b' at a/b.gguf: 6144 MiB estimated at 4096 tokens of context, from file size alone");

    let location = RelativePath::new("a/c.gguf").expect("relative");
    let (made, note) = discovered("c".to_owned(), location, &Defaults::none(), None, &Err("no model file".to_owned()));
    assert!(made.is_none());
    assert_eq!(note, "skipped 'a/c.gguf': no model file");
}

#[test]
fn a_discovered_entry_never_takes_a_name_already_in_use() {
    let entries = vec![entry("qwen3", &[])];
    let found = vec![
        Found { path: "/m/models/model.gguf".to_owned(), trained_for: None, files: Ok(four_gibibytes(None)) },
        Found { path: "/m/a/Qwen3.gguf".to_owned(), trained_for: None, files: Ok(four_gibibytes(None)) },
        Found { path: "/m/b/load.gguf".to_owned(), trained_for: None, files: Ok(four_gibibytes(None)) },
    ];
    let mut notes = Vec::new();
    let made = under("/m", &entries, &Defaults::none(), &found, &mut notes);
    let ids: Vec<&str> = made.iter().map(|e| e.id.as_str()).collect();
    assert_eq!(ids, ["a-qwen3", "b-load"], "the catalog's file is not found again: {notes:?}");
}

#[test]
fn the_reservation_sums_the_residents() {
    let mut resident = entry("r", &[]);
    resident.residency = Residency::Resident;
    resident.memory_estimate_mib = 4096;
    let catalog = Catalog { version: 1, entries: vec![resident, entry("o", &[])], sources: Sources::none() };
    assert_eq!(catalog.resident_reservation_mib(), 4096);
}

fn problems(text: &str) -> Vec<String> {
    Catalog::parse(text).expect_err("a report").problems().to_vec()
}

#[test]
fn every_problem_is_named_by_its_entry_and_field() {
    let text = "version = 1\n\
                [models.alpha]\n\
                colour = \"red\"\n\
                context_size = 0\n\
                memory_estimate_mib = 512\n\
                [models.beta]\n\
                path = \"b.gguf\"\n\
                context_size = 4096\n\
                residency = \"sometimes\"\n\
                memory_estimate_mib = 512\n";
    assert_eq!(
        problems(text),
        [
            "entry 'alpha': field 'colour' is not recognised",
            "entry 'alpha': field 'path' is required",
            "entry 'alpha': field 'context_size' must be greater than zero, but is 0",
            "entry 'beta': field 'residency' must be one of resident or on-demand, but is 'sometimes'",
        ]
    );
}

#[test]
fn an_entry_takes_what_the_defaults_table_supplies() {
    let text = "version = 1\n\n[defaults]\ncontext_size = 4096\nresidency = \"on-demand\"\n\
                memory_estimate_mib = 512\nstartup_timeout_seconds = 30\n\n[models.gemma3]\npath = \"unused\"\n";
    let catalog = Catalog::parse(text).expect("a usable catalog");
    assert_eq!(catalog.version, 1);
    assert_eq!(catalog.entries.len(), 1);
    let gemma = catalog.entry("gemma3").expect("the entry");
    assert_eq!(gemma.context_size, 4096);
    assert_eq!(gemma.memory_estimate_mib, 512);
    assert_eq!(gemma.startup_timeout_seconds, 30);
    assert_eq!(gemma.residency, Residency::OnDemand);
    assert_eq!(gemma.path.as_str(), "unused");
}

#[test]
fn entries_come_back_ordered_by_identifier() {
    let text = "[defaults]\ncontext_size = 2048\nmemory_estimate_mib = 100\n\
                [models.zeta]\npath = 'z.gguf' # a comment\n\
                [models.alpha]\npath = \"a.gguf\"\nresidency = \"resident\"\n";
    let catalog = Catalog::parse(text).expect("a usable catalog");
    let ids: Vec<&str> = catalog.entries.iter().map(|e| e.id.as_str()).collect();
    assert_eq!(ids, ["alpha", "zeta"]);
    assert_eq!(catalog.entries[0].residency, Residency::Resident);
    assert_eq!(catalog.entries[1].startup_timeout_seconds, 300, "the default when nothing says");
    assert_eq!(catalog.resident_reservation_mib(), 100);
}

#[test]
fn an_entrys_flags_replace_the_defaults_and_come_in_order_of_name() {
    let text = "[defaults]\ncontext_size = 2048\nmemory_estimate_mib = 100\n[defaults.flags]\nngl = 99\n\
                [models.a]\npath = \"a.gguf\"\n[models.a.flags]\nngl = 0\nctk = \"q8_0\"\nembeddings = true\n";
    let catalog = Catalog::parse(text).expect("a usable catalog");
    let flags: Vec<(&str, &str)> = catalog.entries[0].flags.iter().map(|(k, v)| (k.as_str(), v.as_str())).collect();
    assert_eq!(flags, [("ctk", "q8_0"), ("embeddings", "true"), ("ngl", "0")]);
}

#[test]
fn text_that_is_not_toml_stops_at_its_line() {
    assert_eq!(problems("version = 1\n[models.alpha\n"), ["line 2: this is not a table, a setting or a comment"]);
    assert_eq!(problems("[models.a]\npath = \"a\"\npath = \"b\"\n"), ["line 3: 'path' is set twice"]);
    assert_eq!(problems("[models.a]\n[models.a]\n"), ["line 2: '[models.a]' is opened twice"]);
    assert_eq!(problems("name = \"unterminated\n"), ["line 1: this is not a table, a setting or a comment"]);
}

#[test]
fn text_alone_cannot_derive_an_estimate() {
    assert_eq!(
        problems("[models.a]\npath = \"a.gguf\"\ncontext_size = 4096\n"),
        ["entry 'a': field 'memory_estimate_mib' is required, and no default supplies it"]
    );
}

#[test]
fn a_location_outside_the_root_and_a_runtime_with_a_path_are_refused() {
    assert_eq!(
        problems("[models.a]\npath = \"/abs.gguf\"\ncontext_size = 1\nmemory_estimate_mib = 1\nruntime = \"x/y\"\n"),
        [
            "entry 'a': field 'path' must be a location inside the models root, relative to it, but is '/abs.gguf'",
            "entry 'a': field 'runtime' must be a name, not a path, but is 'x/y'",
        ]
    );
    assert_eq!(
        problems("colour = 1\n[models.a]\npath = \"a\"\ncontext_size = \"big\"\nmemory_estimate_mib = -5\n[other]\n"),
        [
            "catalog: field 'colour' is not recognised",
            "catalog: table '[other]' is not recognised",
            "entry 'a': field 'context_size' must be a whole number, but is 'big'",
            "entry 'a': field 'memory_estimate_mib' must not be negative, but is -5",
        ]
    );
}

#[test]
fn an_estimate_says_where_it_came_from() {
    let catalog = Catalog::parse("[models.declared]\npath = \"d.gguf\"\ncontext_size = 1\nmemory_estimate_mib = 1\n")
        .expect("a usable catalog");
    assert_eq!(catalog.estimate_source("declared"), Some(EstimateSource::Declared));
    assert_eq!(catalog.estimate_source("absent"), None);
    assert!(!catalog.is_discovered("declared"));
}

#[test]
fn a_usable_catalog_carries_every_model_it_names() {
    let text = "[defaults]\ncontext_size = 2048\nmemory_estimate_mib = 100\n\
                [models.c]\npath = \"c.gguf\"\n[models.b]\npath = \"b.gguf\"\n[models.a]\npath = \"a.gguf\"\n\
                [models.b.flags]\nngl = 1\n";
    let catalog = Catalog::parse(text).expect("a usable catalog");
    let ids: Vec<&str> = catalog.entries.iter().map(|e| e.id.as_str()).collect();
    assert_eq!(ids, ["a", "b", "c"]);
    assert_eq!(catalog.version, 0, "no version written reads as zero");
}

#[test]
fn a_default_that_holds_what_it_may_not_is_named_once_not_per_entry() {
    assert_eq!(
        problems("[defaults]\ncontext_size = 0\nmemory_estimate_mib = 1\n[models.a]\npath = \"a\"\n[models.b]\npath = \"b\"\n"),
        ["defaults: field 'context_size' must be greater than zero, but is 0"]
    );
}

#[test]
fn an_estimate_nothing_declares_is_named_after_every_other_problem() {
    assert_eq!(
        problems("[models.a]\npath = \"a\"\ncontext_size = 1\n[models.b]\npath = \"b\"\ncontext_size = 0\nmemory_estimate_mib = 1\n"),
        [
            "entry 'b': field 'context_size' must be greater than zero, but is 0",
            "entry 'a': field 'memory_estimate_mib' is required, and no default supplies it",
        ]
    );
}

#[test]
fn only_model_files_are_discovered_and_each_once() {
    let found = vec![
        Found { path: "/m/notes.txt".to_owned(), trained_for: None, files: Ok(four_gibibytes(None)) },
        Found { path: "/m/a/qwen3-mmproj.gguf".to_owned(), trained_for: None, files: Ok(four_gibibytes(None)) },
        Found { path: "/m/a/Gemma.GGUF".to_owned(), trained_for: None, files: Ok(four_gibibytes(None)) },
        Found { path: "/m/a//Gemma.GGUF".to_owned(), trained_for: None, files: Ok(four_gibibytes(None)) },
        Found { path: "/m/notes.txt".to_owned(), trained_for: None, files: Ok(four_gibibytes(None)) },
    ];
    let mut notes = Vec::new();
    let made = under("/m", &Vec::new(), &Defaults::none(), &found, &mut notes);
    let places: Vec<&str> = made.iter().map(|e| e.path.as_str()).collect();
    assert_eq!(places, ["a/Gemma.GGUF"], "{notes:?}");
    assert_eq!(made[0].residency, Residency::OnDemand);
}

#[test]
fn the_shard_sizes_handed_in_are_counted_whether_or_not_the_metadata_was_read() {
    let mut files = four_gibibytes(None);
    files.shard_bytes = vec![4 * 1024 * 1024 * 1024];
    let read = derive_estimate(&entry("m", &[]), &files);
    assert_eq!(read.basis, Basis::Size);
    assert_eq!(read.mib, 8192 + 2048 + 1024);
}

#[test]
fn an_unreadable_later_shard_counts_the_first_beside_it_and_a_readable_one_every_other() {
    let unreadable = Metadata::read(b"not a model");
    assert_eq!(shards_to_count("x/Big-Model-00002-of-00004.gguf", &unreadable), ["x/Big-Model-00001-of-00004.gguf"]);
    assert!(shards_to_count("x/Big-Model-00001-of-00004.gguf", &unreadable).is_empty(), "the first shard has no first beside it");
    assert!(shards_to_count("x/model.gguf", &unreadable).is_empty(), "a name without a suffix has no shards");

    let mut head = b"GGUF".to_vec();
    head.extend_from_slice(&3u32.to_le_bytes());
    head.extend_from_slice(&0u64.to_le_bytes());
    head.extend_from_slice(&1u64.to_le_bytes());
    head.extend_from_slice(&11u64.to_le_bytes());
    head.extend_from_slice(b"split.count");
    head.extend_from_slice(&4u32.to_le_bytes());
    head.extend_from_slice(&4u32.to_le_bytes());
    let read = Metadata::read(&head);
    assert_eq!(
        shards_to_count("x/Big-Model-00002-of-00004.gguf", &read),
        ["x/Big-Model-00001-of-00004.gguf", "x/Big-Model-00003-of-00004.gguf", "x/Big-Model-00004-of-00004.gguf"]
    );
}

#[test]
fn what_an_estimate_reads_of_the_files_follows_their_metadata() {
    let mut head = b"GGUF".to_vec();
    head.extend_from_slice(&3u32.to_le_bytes());
    head.extend_from_slice(&0u64.to_le_bytes());
    head.extend_from_slice(&2u64.to_le_bytes());
    for (key, value) in [("llama.block_count", 32u32), ("split.count", 2)] {
        head.extend_from_slice(&(key.len() as u64).to_le_bytes());
        head.extend_from_slice(key.as_bytes());
        head.extend_from_slice(&4u32.to_le_bytes());
        head.extend_from_slice(&value.to_le_bytes());
    }
    let read = Metadata::read(&head);
    assert!(read.is_ok());
    let unreadable = Metadata::read(b"not a model");
    let four = 4 * 1024 * 1024 * 1024;

    let files = Files::of(four, &read, vec![four], 7, &unreadable, 9);
    assert!(files.metadata_read);
    assert_eq!(files.model_shape, None, "no architecture, so no shape");
    assert_eq!((files.model_bytes, files.draft_bytes, files.projector_bytes), (four, 7, 9));
    assert_eq!(files.shard_bytes, [four]);
    assert_eq!(files.draft_shape, None);

    let unread = Files::of(four, &unreadable, vec![four], 0, &unreadable, 0);
    assert!(!unread.metadata_read);
    let derived = derive_estimate(&entry("m", &[]), &unread);
    assert_eq!(derived.basis, Basis::Size);
    assert_eq!(derived.mib, 8192 + 2048 + 1024, "the other shard found beside it is counted");
}

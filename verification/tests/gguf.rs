use maestro_model_router::gguf::metadata::Metadata;

fn head(version: u32, pairs: u64) -> Vec<u8> {
    let mut b = b"GGUF".to_vec();
    b.extend_from_slice(&version.to_le_bytes());
    b.extend_from_slice(&0u64.to_le_bytes());
    b.extend_from_slice(&pairs.to_le_bytes());
    b
}

fn key(b: &mut Vec<u8>, k: &str, kind: u32) {
    b.extend_from_slice(&(k.len() as u64).to_le_bytes());
    b.extend_from_slice(k.as_bytes());
    b.extend_from_slice(&kind.to_le_bytes());
}

fn text(b: &mut Vec<u8>, k: &str, v: &str) {
    key(b, k, 8);
    b.extend_from_slice(&(v.len() as u64).to_le_bytes());
    b.extend_from_slice(v.as_bytes());
}

fn llama() -> Vec<u8> {
    let mut b = head(3, 7);
    text(&mut b, "general.architecture", "llama");
    key(&mut b, "llama.context_length", 4);
    b.extend_from_slice(&8192u32.to_le_bytes());
    key(&mut b, "llama.block_count", 10);
    b.extend_from_slice(&32u64.to_le_bytes());
    key(&mut b, "llama.embedding_length", 4);
    b.extend_from_slice(&4096u32.to_le_bytes());
    key(&mut b, "llama.attention.head_count", 4);
    b.extend_from_slice(&32u32.to_le_bytes());
    key(&mut b, "llama.attention.head_count_kv", 9);
    b.extend_from_slice(&4u32.to_le_bytes());
    b.extend_from_slice(&3u64.to_le_bytes());
    for v in [8u32, 16, 4] {
        b.extend_from_slice(&v.to_le_bytes());
    }
    key(&mut b, "llama.rope.shift", 5);
    b.extend_from_slice(&(-3i32).to_le_bytes());
    b
}

#[test]
fn the_metadata_of_a_model_file_is_read_by_key() {
    let m = Metadata::read(&llama()).expect("metadata");
    assert_eq!(m.trained_for(), Some(8192));
    assert_eq!(m.of_model("block_count"), Some(32));
    assert_eq!(m.number(b"llama.embedding_length"), Some(4096));
}

#[test]
fn a_per_layer_setting_reads_as_its_largest_value() {
    let m = Metadata::read(&llama()).expect("metadata");
    assert_eq!(m.of_model("attention.head_count_kv"), Some(16));
}

#[test]
fn a_key_the_file_does_not_carry_is_absent_and_so_is_a_negative_number() {
    let m = Metadata::read(&llama()).expect("metadata");
    assert_eq!(m.of_model("attention.key_length"), None);
    assert_eq!(m.of_model("rope.shift"), None);
    assert_eq!(m.split_count(), None);
}

#[test]
fn the_cache_shape_follows_from_the_model_keys() {
    let m = Metadata::read(&llama()).expect("metadata");
    let shape = m.cache_shape().expect("shape");
    assert_eq!(shape.layers, 32);
    assert_eq!(shape.kv_heads, 16);
    assert_eq!(shape.key_length, 128);
    assert_eq!(shape.value_length, 128);
}

#[test]
fn a_file_that_names_no_architecture_gives_no_model_keys() {
    let mut b = head(2, 1);
    key(&mut b, "split.count", 4);
    b.extend_from_slice(&4u32.to_le_bytes());
    let m = Metadata::read(&b).expect("metadata");
    assert_eq!(m.split_count(), Some(4));
    assert_eq!(m.trained_for(), None);
}

#[test]
fn a_file_that_is_not_gguf_is_refused() {
    let mut b = llama();
    b[0] = b'X';
    assert_eq!(Metadata::read(&b).err().expect("fault").message(), "not a GGUF file");
    assert_eq!(Metadata::read(b"GGUF").err().expect("fault").message(), "not a GGUF file");
}

#[test]
fn a_version_other_than_two_or_three_is_refused() {
    let mut b = head(1, 0);
    b.extend_from_slice(&[0u8; 8]);
    assert_eq!(
        Metadata::read(&b).err().expect("fault").message(),
        "a GGUF version other than 2 or 3"
    );
}

#[test]
fn a_length_past_the_end_of_the_bytes_is_a_fault_not_a_reading() {
    let mut b = head(3, 1);
    key(&mut b, "general.name", 8);
    b.extend_from_slice(&u64::MAX.to_le_bytes());
    b.extend_from_slice(b"short");
    assert_eq!(
        Metadata::read(&b).err().expect("fault").message(),
        "GGUF metadata that ends before its last pair, or holds a type that cannot be read"
    );
    let whole = llama();
    assert!(Metadata::read(&whole[..whole.len() - 2]).is_err());
}

use aivyx_kvcache::slot_name::{fnv1a, slot_filename};
use aivyx_kvcache::{CacheHandle, CacheKey};

fn named(backend_id: &str, model_id: &str, build_hash: &str, prefix_hash: &str) -> CacheKey {
    CacheKey {
        backend_id: backend_id.into(),
        model_id: model_id.into(),
        build_hash: build_hash.into(),
        prefix_hash: prefix_hash.into(),
    }
}

#[test]
fn slot_filename_normalizes_path_traversal_attempts() {
    let key = CacheKey {
        backend_id: "../../etc".into(),
        model_id: "../../etc".into(),
        build_hash: "b1".into(),
        prefix_hash: "p1".into(),
    };
    let filename = slot_filename(&key);
    assert!(!filename.contains('/'));
    assert!(!filename.contains(".."));
    let path = std::path::Path::new(&filename);
    assert_eq!(path.components().count(), 1);
}

#[test]
fn slot_filename_differs_for_keys_that_differ_only_in_model_id() {
    let a = CacheKey {
        backend_id: "llama-server".into(),
        model_id: "model-a".into(),
        build_hash: "b1".into(),
        prefix_hash: "p1".into(),
    };
    let b = CacheKey { model_id: "model-b".into(), ..a.clone() };
    assert_ne!(slot_filename(&a), slot_filename(&b));
}

#[test]
fn slot_filename_differs_even_when_normalization_would_otherwise_collide() {
    let a = CacheKey {
        backend_id: "llama-server".into(),
        model_id: "qwen3.5".into(),
        build_hash: "b1".into(),
        prefix_hash: "p1".into(),
    };
    let b = CacheKey { model_id: "qwen3_5".into(), ..a.clone() };
    let (filename_a, filename_b) = (slot_filename(&a), slot_filename(&b));
    let normalized_prefix = |f: &str| f.rsplit_once('-').unwrap().0.to_string();
    assert_eq!(
        normalized_prefix(&filename_a),
        normalized_prefix(&filename_b),
        "these two raw model ids must normalize to identical text"
    );
    assert_ne!(filename_a, filename_b);
}

#[test]
fn fnv1a_gives_the_published_hashes() {
    assert_eq!(fnv1a(b""), 0xcbf2_9ce4_8422_2325);
    assert_eq!(fnv1a(b"a"), 0xaf63_dc4c_8601_ec8c);
    assert_eq!(fnv1a(b"foobar"), 0x8594_4171_f739_67e8);
}

#[test]
fn slot_filenames_are_spelled_out_in_full() {
    assert_eq!(
        slot_filename(&named("llama-server", "qwen3.5", "b1", "p1")),
        "llama_server-qwen3_5-b1-p1-16071d95146a4b6f.slot"
    );
    assert_eq!(
        slot_filename(&named("llama-server", "qwen3_5", "b1", "p1")),
        "llama_server-qwen3_5-b1-p1-9cb0e23931ca1c5a.slot"
    );
    assert_eq!(
        slot_filename(&named("../../etc", "../../etc", "b1", "p1")),
        "______etc-______etc-b1-p1-af23d63ed89e8d57.slot"
    );
    assert_eq!(slot_filename(&named("", "", "", "")), "----d94d12186c0f2fb7.slot");
}

#[test]
fn hashes_keep_their_leading_zeros() {
    assert_eq!(
        slot_filename(&named("llama-server", "qwen3.5", "b1", "p21470")),
        "llama_server-qwen3_5-b1-p21470-00fe8bedf69b9c40.slot"
    );
}

#[test]
fn letters_beyond_ascii_are_normalized_one_for_one_and_hashed_as_utf8() {
    assert_eq!(
        slot_filename(&named("höst", "日本", "b1", "p1")),
        "h_st-__-b1-p1-9ab99e5a4fde60bb.slot"
    );
}

#[test]
fn the_delimiter_cannot_move_between_fields() {
    assert_eq!(
        slot_filename(&named("llama", "server-qwen", "b1", "p1")),
        "llama-server_qwen-b1-p1-907e5604ebbd4947.slot"
    );
    assert_eq!(
        slot_filename(&named("llama-server", "qwen", "b1", "p1")),
        "llama_server-qwen-b1-p1-7cc2407ced99128d.slot"
    );
}

#[test]
fn slot_filenames_are_safe_and_depend_on_the_key_alone() {
    let key = named("..", "/", "\\", "a\0b");
    let filename = slot_filename(&key);
    assert!(CacheHandle::new(filename.clone()).is_safe_filename());
    assert_eq!(filename, slot_filename(&key.clone()));
}

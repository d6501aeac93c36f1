use rozum::json::parse_json;
use rozum::models::{
    apply_tree, apply_tree_text, dir_size, fetch_hf_info, format_size, hf_info_from, hf_info_url, hf_tree_url,
    huggingface_hub_dir, huggingface_spec, lmstudio_models_dir, needs_tree, ollama_manifest_dir,
    ollama_models_dir, ollama_spec, recommended_models, recommended_remote, scan_all_installed,
    scan_huggingface, scan_lmstudio, scan_ollama, spec_to_hf_id, EntryKind, InstalledModel,
    ModelSource, OllamaModel, RemoteModel,
};
use rozum::modelscope::{
    bearer, ensure_snapshot, file_url, is_cached, list_files, list_url, model_cache_dir, progress,
    split_repo, RepoFile,
};
use rozum::rounding::{gib_tenths, three_quarters};

#[test]
fn spec_to_hf_id_variants() {
    assert_eq!(spec_to_hf_id("hf:Qwen/Qwen3-4B").as_deref(), Some("Qwen/Qwen3-4B"));
    assert_eq!(
        spec_to_hf_id("mlx-community:Qwen3.6-35B-A3B-4bit").as_deref(),
        Some("mlx-community/Qwen3.6-35B-A3B-4bit")
    );
    assert_eq!(spec_to_hf_id("Qwen/Qwen3-4B").as_deref(), Some("Qwen/Qwen3-4B"));
    assert_eq!(spec_to_hf_id("/abs/path").as_deref(), None);
    assert_eq!(spec_to_hf_id("ollama-bare-tag").as_deref(), None);
}

#[test]
fn format_size_units() {
    assert_eq!(format_size(500), "500 B");
    assert_eq!(format_size(50_000), "50 KB");
    assert_eq!(format_size(5_000_000), "5.0 MB");
    assert_eq!(format_size(17_000_000_000), "17.00 GB");
}

/// The same in floating point.
fn float_size(bytes: u64) -> String {
    const KB: f64 = 1_000.0;
    const MB: f64 = 1_000_000.0;
    const GB: f64 = 1_000_000_000.0;
    let b = bytes as f64;
    if b >= GB {
        format!("{:.2} GB", b / GB)
    } else if b >= MB {
        format!("{:.1} MB", b / MB)
    } else if b >= KB {
        format!("{:.0} KB", b / KB)
    } else {
        format!("{bytes} B")
    }
}

/// Numbers of all sizes, with the ties among them.
fn samples() -> Vec<u64> {
    let mut v: Vec<u64> = vec![0, 1, 999, 1000, 1499, 1500, 1501, 2500, 999_499, 999_500, 999_999];
    v.extend([1_000_000, 1_049_999, 1_050_000, 1_150_000, 1_250_000, 999_949_999, 999_950_000]);
    v.extend([1_000_000_000, 1_004_999_999, 1_005_000_000, 1_015_000_000, 12_345_678_901]);
    v.extend([1 << 53, (1 << 53) + 1, u64::MAX, u64::MAX - 1024]);
    let mut x: u64 = 88172645463325252;
    for i in 0..4000 {
        x ^= x << 13;
        x ^= x >> 7;
        x ^= x << 17;
        v.push(x >> (i % 60));
    }
    v
}

#[test]
fn sizes_print_as_floating_point_prints_them() {
    for n in samples() {
        assert_eq!(format_size(n), float_size(n), "{n}");
    }
}

#[test]
fn budgets_round_as_floating_point_rounds_them() {
    for n in samples() {
        assert_eq!(three_quarters(n), (n as f64 * 0.75) as u64, "{n}");
        let t = gib_tenths(n);
        let printed = format!("{:.1}", n as f64 / (1024.0 * 1024.0 * 1024.0));
        assert_eq!(format!("{}.{}", t / 10, t % 10), printed, "{n}");
    }
}

#[test]
fn directories_of_the_hubs() {
    assert_eq!(huggingface_hub_dir(Some("/c"), None, Some("/h")), "/c");
    assert_eq!(huggingface_hub_dir(None, Some("/hf"), Some("/h")), "/hf/hub");
    assert_eq!(huggingface_hub_dir(None, None, Some("/h")), "/h/.cache/huggingface/hub");
    assert!(ollama_models_dir(None, Some("/h")).starts_with("/h/.ollama"));
    assert!(ollama_manifest_dir("/m").starts_with("/m/manifests"));
    assert!(lmstudio_models_dir(None, Some("/h")).starts_with("/h/"));
}

#[test]
fn installed_models_are_found_and_sorted() {
    assert_eq!(huggingface_spec("models--Qwen--Qwen3-4B").as_deref(), Some("hf:Qwen/Qwen3-4B"));
    assert_eq!(huggingface_spec("datasets--a--b"), None);
    let hf = scan_huggingface("models--b--m", "/hub/models--b--m", 5).unwrap();
    assert_eq!(hf.source, ModelSource::HuggingFace);
    assert_eq!(hf.size_bytes, 5);
    assert!(scan_huggingface("datasets--b--m", "/hub/datasets--b--m", 5).is_none());
    let lm = scan_lmstudio("x.gguf", "a/repo", "/lm/a/repo/x.gguf", 7);
    assert!(lm.is_some());
    assert!(scan_lmstudio("readme.md", "a/repo", "/lm/a/repo/readme.md", 7).is_none());
    assert_eq!(ollama_spec("llama3", "8b"), "ollama:llama3:8b");
    let o = InstalledModel {
        source: ModelSource::Ollama,
        spec: "ollama:a:b".to_string(),
        path: "/o".to_string(),
        size_bytes: 1,
    };
    let all = scan_all_installed(vec![hf], vec![o], lm.into_iter().collect());
    assert_eq!(all.len(), 3);
    let specs: Vec<&str> = all.iter().map(|m| m.spec.as_str()).collect();
    let mut sorted = specs.clone();
    sorted.sort();
    assert_eq!(specs, sorted);
    assert_eq!(ModelSource::Ollama.label().is_empty(), false);
}

#[test]
fn sizes_of_directories_and_manifests() {
    let d = vec![
        EntryKind::Directory(10),
        EntryKind::File(5),
        EntryKind::Link(Some(3)),
        EntryKind::Link(None),
        EntryKind::Other,
    ];
    assert_eq!(dir_size(&d), 18);
    let blob = scan_ollama(
        "{\"layers\":[{\"mediaType\":\"application/vnd.ollama.image.model\",\"digest\":\"sha256:ab\",\"size\":3}]}",
    );
    assert!(matches!(blob, OllamaModel::Blob(d) if d.contains("ab")));
    assert!(matches!(scan_ollama("no json"), OllamaModel::Nothing));
}

#[test]
fn recommendations() {
    assert!(recommended_models().iter().any(|m| m.spec == "mlx-community:Qwen3-4B-4bit"));
    let mine = RemoteModel { spec: "mine", provider: "Me", display_name: "Mine" };
    let r = recommended_remote(vec![mine]);
    assert_eq!(r[0].spec, "mine");
    assert!(r.iter().any(|m| m.spec == "gpt-4o"));
}

#[test]
fn facts_of_a_repository() {
    assert!(hf_info_url("a/b").contains("a/b"));
    assert!(hf_tree_url("a/b").contains("a/b"));
    let text = "{\"id\":\"a/b\",\"author\":\"a\",\"downloads\":7,\"likes\":2,\"tags\":[\"license:mit\",\"x\"],\"siblings\":[{\"rfilename\":\"w.safetensors\"}]}";
    let v = parse_json(text).unwrap();
    let mut info = hf_info_from(&v, "a/b").unwrap();
    assert_eq!(info.id, "a/b");
    assert_eq!(info.downloads, Some(7));
    assert!(needs_tree(&info));
    let mut same = hf_info_from(&v, "a/b").unwrap();
    assert!(apply_tree_text(&mut same, "no json"));
    assert_eq!(same.total_bytes, 0);
    assert!(apply_tree_text(&mut same, "[{\"type\":\"file\",\"path\":\"v.safetensors\",\"size\":12}]"));
    assert_eq!(same.total_bytes, 12);
    assert_eq!(same.files[0].name, "v.safetensors");
    let tree = parse_json("[{\"type\":\"file\",\"path\":\"w.safetensors\",\"size\":11}]").unwrap();
    assert!(apply_tree(&mut info, &tree));
    assert_eq!(info.total_bytes, 11);
    match fetch_hf_info(text, "a/b") {
        Ok(Some(i)) => assert_eq!(i.likes, Some(2)),
        _ => panic!("the facts are there"),
    }
    assert!(fetch_hf_info("<html>", "a/b").is_err());
}

#[test]
fn cache_dir_under_modelscope_root() {
    let d = model_cache_dir(Some("/tmp/ms_test_root"), None, "Qwen", "Qwen2.5-0.5B-Instruct").unwrap();
    assert_eq!(d, "/tmp/ms_test_root/hub/Qwen/Qwen2.5-0.5B-Instruct");
    assert_eq!(model_cache_dir(None, None, "a", "b"), None);
    assert_eq!(
        model_cache_dir(None, Some("/h"), "a", "b").as_deref(),
        Some("/h/.cache/modelscope/hub/a/b")
    );
}

fn file(path: &str) -> RepoFile {
    RepoFile { path: path.to_string(), size: 1 }
}

#[test]
fn the_configuration_is_fetched_first() {
    let rest = ensure_snapshot("a/b", &vec![file("w.safetensors"), file("config.json")])
        .unwrap_or_else(|e| panic!("{e}"));
    assert!(rest.iter().all(|f| f.path != "config.json"));
    assert!(ensure_snapshot("a/b", &vec![file("w.safetensors")]).is_err());
    assert!(split_repo("no-slash").is_err());
    assert_eq!(split_repo("a/b").unwrap(), ("a".to_string(), "b".to_string()));
    assert_eq!(bearer("t"), "Bearer t");
    assert!(list_url("a/b").contains("a/b"));
    assert!(file_url("a/b", "config.json").contains("config.json"));
    assert!(is_cached(3, Some(3)));
    assert!(!is_cached(3, None));
    assert!(progress(0, 2).contains('2'));
    let listed = list_files("{\"Data\":{\"Files\":[{\"Path\":\"config.json\",\"Size\":2,\"Type\":\"blob\"},{\"Path\":\"d\",\"Type\":\"tree\"}]}}").unwrap();
    assert_eq!(listed.len(), 1);
    assert_eq!(listed[0].path, "config.json");
    assert!(list_files("nope").is_none());
}

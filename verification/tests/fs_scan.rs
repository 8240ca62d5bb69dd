use null_or_die::fs_scan::{
    baseline_rel_for_md5, collect_simfile_paths, discover_simfiles, md5_hex, pick_by_directory,
    RootKind, WalkEntry,
};
use null_or_die::paths::{
    is_ogg_path, is_simfile_path, rel_path, same_path, simfile_ext, PartKind, PathPart, SimPath,
};
use std::path::{Component, Path};

fn sim_path(path: &Path) -> SimPath {
    let mut rest = path.components();
    let mut tails = vec![rest.as_path().display().to_string()];
    let mut parts = Vec::new();
    while let Some(c) = rest.next() {
        let (kind, bytes) = match c {
            Component::Prefix(p) => (PartKind::Prefix, p.as_os_str().as_encoded_bytes().to_vec()),
            Component::RootDir => (PartKind::Root, Vec::new()),
            Component::CurDir => (PartKind::Current, Vec::new()),
            Component::ParentDir => (PartKind::Parent, Vec::new()),
            Component::Normal(n) => (PartKind::Name, n.as_encoded_bytes().to_vec()),
        };
        parts.push(PathPart { kind, bytes });
        tails.push(rest.as_path().display().to_string());
    }
    SimPath {
        text: path.display().to_string(),
        ext: path
            .extension()
            .and_then(|e| e.to_str())
            .map(|e| e.to_string()),
        parts,
        tails,
    }
}

fn at(text: &str) -> SimPath {
    sim_path(Path::new(text))
}

fn files(texts: &[&str]) -> Vec<WalkEntry> {
    texts
        .iter()
        .map(|t| WalkEntry {
            path: at(t),
            is_file: true,
        })
        .collect()
}

fn texts(paths: &[SimPath]) -> Vec<&str> {
    paths.iter().map(|p| p.text.as_str()).collect()
}

#[test]
fn baseline_md5_shard_path_is_stable() {
    let rel = baseline_rel_for_md5("abcdef0123456789abcdef0123456789");
    assert_eq!(rel, "ab/abcdef0123456789abcdef0123456789.json");
}

#[test]
fn odd_digests_fall_into_shards_too() {
    assert_eq!(baseline_rel_for_md5(""), "00/.json");
    assert_eq!(baseline_rel_for_md5("a"), "00/a.json");
    assert_eq!(baseline_rel_for_md5("\u{e9}x"), "\u{e9}/\u{e9}x.json");
    assert_eq!(baseline_rel_for_md5("a\u{e9}"), "00/a\u{e9}.json");
    assert_eq!(baseline_rel_for_md5("\u{20ac}x"), "00/\u{20ac}x.json");
    for text in ["", "a", "ab", "\u{e9}x", "a\u{e9}", "\u{20ac}", "\u{7ff}", "\u{800}a"] {
        let prefix = text.get(0..2).unwrap_or("00");
        assert_eq!(baseline_rel_for_md5(text), format!("{prefix}/{text}.json"));
    }
}

#[test]
fn digests_are_those_of_md5() {
    assert_eq!(md5_hex(b""), "d41d8cd98f00b204e9800998ecf8427e");
    assert_eq!(md5_hex(b"abc"), "900150983cd24fb0d6963f7d28e17f72");
    assert_eq!(
        md5_hex(b"The quick brown fox jumps over the lazy dog"),
        format!("{:x}", md5::compute(b"The quick brown fox jumps over the lazy dog"))
    );
}

#[test]
fn extensions_are_read_in_either_case() {
    assert!(is_simfile_path(&at("a/b.SM")));
    assert!(is_simfile_path(&at("b.ssc")));
    assert!(!is_simfile_path(&at("b.ogg")));
    assert!(!is_simfile_path(&at(".sm")));
    assert!(is_ogg_path(&at("x/y.OgG")));
    assert_eq!(simfile_ext(&at("x/y.SsC")), "ssc");
    assert_eq!(simfile_ext(&at("x/y")), "");
}

#[test]
fn relative_paths_like_strip_prefix() {
    for root in ["/songs", "/songs/", "songs", ".", "/songs/a", "/other", "", "/"] {
        for path in ["/songs/a/b.sm", "songs/a/../b.sm", "./b.sm", "/songs", "b.sm", "/songs/./a//c.ssc"] {
            let expected = Path::new(path)
                .strip_prefix(Path::new(root))
                .ok()
                .map_or_else(|| path.to_string(), |p| p.display().to_string());
            assert_eq!(rel_path(&at(root), &at(path)), expected, "{root} {path}");
        }
    }
}

#[test]
fn paths_compare_by_their_parts() {
    assert!(same_path(&at("a//b"), &at("a/b")));
    assert!(!same_path(&at("a/b"), &at("/a/b")));
}

#[test]
fn one_simfile_for_each_directory() {
    let entries = files(&[
        "r/b/two.sm",
        "r/b/one.sm",
        "r/a/song.sm",
        "r/a/song.ssc",
        "r/a/other.ssc",
        "r/a/sub/deep.ssc",
        "r/a/sub/deeper.sm",
        "r/c/readme.txt",
        "r/top.sm",
    ]);
    let found = discover_simfiles(&at("r"), RootKind::Directory, &entries).expect("a directory");
    assert_eq!(
        texts(&found),
        vec!["r/top.sm", "r/a/other.ssc", "r/a/sub/deep.ssc", "r/b/one.sm"]
    );
}

#[test]
fn order_and_picks_like_the_standard_collections() {
    let names = [
        "r/z/x.sm", "r/z.d/x.sm", "r/z-d/y.ssc", "r/A/b.sm", "r/A/a.sm", "r/A/c.ssc", "r/A/d.ssc",
        "r/ab/s.sm", "r/a/b/s.sm", "r/a/t.ssc", "r/a/s.sm", "../q/s.sm", "./q/s.sm", "/q/s.sm",
    ];
    let mut sorted: Vec<std::path::PathBuf> =
        names.iter().map(|n| Path::new(n).to_path_buf()).collect();
    sorted.sort();
    let mut picks: std::collections::BTreeMap<std::path::PathBuf, std::path::PathBuf> =
        std::collections::BTreeMap::new();
    for path in sorted {
        let dir = path.parent().expect("a parent").to_path_buf();
        let ext = |p: &Path, e: &str| p.extension().and_then(|s| s.to_str()) == Some(e);
        let entry = picks.entry(dir).or_insert_with(|| path.clone());
        if ext(entry, "sm") && ext(&path, "ssc") {
            *entry = path;
        }
    }
    let expected: Vec<String> = picks.into_values().map(|p| p.display().to_string()).collect();
    let found =
        discover_simfiles(&at("r"), RootKind::Directory, &files(&names)).expect("a directory");
    assert_eq!(texts(&found), expected);
}

#[test]
fn directories_and_other_files_are_no_simfiles() {
    let mut entries = files(&["r/a.sm", "r/b.txt"]);
    entries.push(WalkEntry {
        path: at("r/dir.sm"),
        is_file: false,
    });
    assert_eq!(texts(&collect_simfile_paths(&entries)), vec!["r/a.sm"]);
}

#[test]
fn a_root_can_be_a_simfile() {
    let found = discover_simfiles(&at("x/y.sm"), RootKind::File, &Vec::new()).expect("a simfile");
    assert_eq!(texts(&found), vec!["x/y.sm"]);
    assert_eq!(
        discover_simfiles(&at("x/y.txt"), RootKind::File, &Vec::new()).err(),
        Some("not a simfile: x/y.txt".to_string())
    );
    assert_eq!(
        discover_simfiles(&at("x/y"), RootKind::Neither, &Vec::new()).err(),
        Some("root path does not exist: x/y".to_string())
    );
}

#[test]
fn paths_without_a_directory_are_passed_over() {
    let mut odd = at("a.sm");
    odd.parts = vec![PathPart {
        kind: PartKind::Root,
        bytes: Vec::new(),
    }];
    assert_eq!(texts(&pick_by_directory(vec![odd, at("d/b.sm")])), vec!["d/b.sm"]);
}

#[test]
fn picking_twice_changes_nothing() {
    let list = ["b/x.sm", "a/y.sm", "a/y.ssc", "c/z.ssc", "b/w.ssc"];
    let once = pick_by_directory(list.iter().map(|t| at(t)).collect());
    let twice = pick_by_directory(once.clone());
    assert_eq!(texts(&once), vec!["a/y.ssc", "b/w.ssc", "c/z.ssc"]);
    assert_eq!(texts(&twice), texts(&once));
}

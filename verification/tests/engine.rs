use powerlight::Category;
use powerlight::Index;
use powerlight::RawFile;
use powerlight::SearchResult;
use powerlight::SourceRoot;
use powerlight::build_entries;
use powerlight::debug_search;
use powerlight::get_file_kind;
use powerlight::get_index_info;
use powerlight::search_apps;
use powerlight::should_index_file;

fn entry(name: &str, path: &str, kind: Category) -> SearchResult {
    SearchResult { name: name.to_string(), path: path.to_string(), kind }
}

fn index_of(entries: Vec<SearchResult>) -> Index {
    let mut ix = Index::new();
    ix.install(entries);
    ix
}

#[test]
fn classification_by_extension() {
    assert_eq!(get_file_kind("txt"), Category::Document);
    assert_eq!(get_file_kind("PDF"), Category::Document);
    assert_eq!(get_file_kind("jpeg"), Category::Image);
    assert_eq!(get_file_kind("Mp4"), Category::Video);
    assert_eq!(get_file_kind("flac"), Category::Audio);
    assert_eq!(get_file_kind("rs"), Category::Code);
    assert_eq!(get_file_kind("TOML"), Category::Code);
    assert_eq!(get_file_kind("7z"), Category::Archive);
    assert_eq!(get_file_kind("xyz"), Category::GenericFile);
    assert_eq!(get_file_kind(""), Category::GenericFile);
}

#[test]
fn classification_deterministic() {
    for ext in ["txt", "JPG", "xyz", "lnk"] {
        assert_eq!(get_file_kind(ext), get_file_kind(ext));
        assert_eq!(should_index_file(ext), should_index_file(ext));
    }
}

#[test]
fn indexable_extensions() {
    assert!(should_index_file("docx"));
    assert!(should_index_file("WEBP"));
    assert!(should_index_file("ogg"));
    assert!(should_index_file("gz"));
    assert!(!should_index_file("xyz"));
    assert!(!should_index_file("lnk"));
    assert!(!should_index_file("exe"));
    assert!(!should_index_file(""));
}

#[test]
fn category_labels() {
    assert_eq!(Category::Application.label(), "app");
    assert_eq!(Category::Document.label(), "document");
    assert_eq!(Category::Image.label(), "image");
    assert_eq!(Category::Video.label(), "video");
    assert_eq!(Category::Audio.label(), "audio");
    assert_eq!(Category::Code.label(), "code");
    assert_eq!(Category::Archive.label(), "archive");
    assert_eq!(Category::GenericFile.label(), "file");
}

fn raw(stem: &str, path: &str, ext: &str, root: SourceRoot) -> RawFile {
    RawFile { stem: stem.to_string(), path: path.to_string(), ext: ext.to_string(), root }
}

fn sample_listing() -> Vec<RawFile> {
    vec![
        raw("Visual Studio Code", "C:\\Menu\\Code.lnk", "lnk", SourceRoot::StartMenu),
        raw("tool", "C:\\Menu\\tool.exe", "exe", SourceRoot::StartMenu),
        raw("readme", "C:\\Menu\\readme.txt", "txt", SourceRoot::StartMenu),
        raw("notes", "C:\\Users\\me\\Documents\\notes.txt", "txt", SourceRoot::UserDir),
        raw("holiday", "C:\\Users\\me\\Pictures\\holiday.JPG", "JPG", SourceRoot::UserDir),
        raw("weird", "C:\\Users\\me\\Documents\\weird.xyz", "xyz", SourceRoot::UserDir),
        raw("", "C:\\Users\\me\\Documents\\.txt", "txt", SourceRoot::UserDir),
        raw("setup", "C:\\Users\\me\\Downloads\\setup.exe", "exe", SourceRoot::UserDir),
    ]
}

#[test]
fn build_keeps_recognized_files_only() {
    let built = build_entries(&sample_listing());
    let triples: Vec<(String, String, String)> = built
        .iter()
        .map(|e| (e.name.clone(), e.path.clone(), e.kind.label()))
        .collect();
    assert_eq!(
        triples,
        vec![
            ("Visual Studio Code".to_string(), "C:\\Menu\\Code.lnk".to_string(), "app".to_string()),
            ("tool".to_string(), "C:\\Menu\\tool.exe".to_string(), "app".to_string()),
            ("notes".to_string(), "C:\\Users\\me\\Documents\\notes.txt".to_string(), "document".to_string()),
            ("holiday".to_string(), "C:\\Users\\me\\Pictures\\holiday.JPG".to_string(), "image".to_string()),
        ]
    );
}

#[test]
fn build_is_idempotent() {
    let a = build_entries(&sample_listing());
    let b = build_entries(&sample_listing());
    assert_eq!(a.len(), b.len());
    for (x, y) in a.iter().zip(b.iter()) {
        assert_eq!(x.name, y.name);
        assert_eq!(x.path, y.path);
        assert_eq!(x.kind, y.kind);
    }
}

#[test]
fn build_skips_unrecognized_extension_under_user_dir() {
    let built = build_entries(&vec![raw(
        "strange",
        "C:\\Users\\me\\Documents\\strange.xyz",
        "xyz",
        SourceRoot::UserDir,
    )]);
    assert!(built.is_empty());
    let ix = index_of(built);
    assert!(search_apps(&ix, "strange").is_empty());
}

#[test]
fn empty_query_yields_empty_result() {
    let ix = index_of(vec![
        entry("alpha", "C:\\a.txt", Category::Document),
        entry("beta", "C:\\b.txt", Category::Document),
    ]);
    assert!(search_apps(&ix, "").is_empty());
}

#[test]
fn empty_index_yields_empty_results_and_zero_counts() {
    let ix = Index::new();
    assert!(search_apps(&ix, "anything").is_empty());
    let info = get_index_info(&ix);
    assert_eq!(info.total, 0);
    assert_eq!(info.apps, 0);
    assert_eq!(info.files, 0);
}

#[test]
fn vscode_scenario() {
    let ix = index_of(vec![entry(
        "Visual Studio Code",
        "C:\\Menu\\Code.lnk",
        Category::Application,
    )]);

    let fuzzy = search_apps(&ix, "vscode");
    assert_eq!(fuzzy.len(), 1);
    assert_eq!(fuzzy[0].name, "Visual Studio Code");

    let exact = search_apps(&ix, "Visual Studio Code");
    assert_eq!(exact.len(), 1);
    assert_eq!(exact[0].name, "Visual Studio Code");
    assert_eq!(exact[0].path, "C:\\Menu\\Code.lnk");
    assert_eq!(exact[0].kind, Category::Application);

    let folded = search_apps(&ix, "visual studio code");
    assert_eq!(folded.len(), 1);
    assert_eq!(folded[0].name, "Visual Studio Code");
}

#[test]
fn normalized_substring_match() {
    let ix = index_of(vec![entry(
        "budget_report",
        "C:\\Users\\me\\Documents\\budget_report.txt",
        Category::Document,
    )]);
    let hit = search_apps(&ix, "budget-report");
    assert_eq!(hit.len(), 1);
    assert_eq!(hit[0].name, "budget_report");
}

#[test]
fn search_caps_results_at_eight() {
    let mut entries = Vec::new();
    for i in 0..12 {
        entries.push(entry("duplicate", &format!("C:\\d{}.txt", i), Category::Document));
    }
    let ix = index_of(entries);
    let hits = search_apps(&ix, "duplicate");
    assert_eq!(hits.len(), 8);
}

#[test]
fn ties_keep_index_order() {
    let ix = index_of(vec![
        entry("twin", "C:\\first.txt", Category::Document),
        entry("twin", "C:\\second.txt", Category::Document),
        entry("twin", "C:\\third.txt", Category::Document),
    ]);
    let hits = search_apps(&ix, "twin");
    assert_eq!(hits.len(), 3);
    assert_eq!(hits[0].path, "C:\\first.txt");
    assert_eq!(hits[1].path, "C:\\second.txt");
    assert_eq!(hits[2].path, "C:\\third.txt");
}

#[test]
fn substring_tier_beats_fuzzy_tier() {
    let ix = index_of(vec![
        entry("vscode tips", "C:\\tips.txt", Category::Document),
        entry("Visual Studio Code", "C:\\Menu\\Code.lnk", Category::Application),
    ]);
    let hits = search_apps(&ix, "vscode");
    assert!(hits.len() >= 2);
    assert_eq!(hits[0].name, "vscode tips");
    assert_eq!(hits[1].name, "Visual Studio Code");
}

#[test]
fn non_matching_entry_is_excluded() {
    let ix = index_of(vec![
        entry("alpha", "C:\\alpha.txt", Category::Document),
        entry("zzz", "C:\\zzz.txt", Category::Document),
    ]);
    let hits = search_apps(&ix, "alpha");
    assert_eq!(hits.len(), 1);
    assert_eq!(hits[0].name, "alpha");
}

#[test]
fn index_info_counts_apps_and_files() {
    let ix = index_of(vec![
        entry("a", "C:\\a.lnk", Category::Application),
        entry("b", "C:\\b.exe", Category::Application),
        entry("c", "C:\\c.txt", Category::Document),
        entry("d", "C:\\d.png", Category::Image),
        entry("e", "C:\\e.zip", Category::Archive),
    ]);
    let info = get_index_info(&ix);
    assert_eq!(info.total, 5);
    assert_eq!(info.apps, 2);
    assert_eq!(info.files, 3);
}

#[test]
fn debug_search_matches_name_and_path() {
    let ix = index_of(vec![
        entry("alpha", "C:\\Folder\\alpha.txt", Category::Document),
        entry("beta", "C:\\Alpha\\beta.txt", Category::Document),
        entry("gamma", "C:\\Other\\gamma.txt", Category::Document),
    ]);
    let hits = debug_search(&ix, "ALPHA");
    assert_eq!(hits.len(), 2);
    assert_eq!(hits[0].name, "alpha");
    assert_eq!(hits[1].name, "beta");
}

#[test]
fn debug_search_caps_results_at_twenty() {
    let mut entries = Vec::new();
    for i in 0..25 {
        entries.push(entry("match", &format!("C:\\m{}.txt", i), Category::Document));
    }
    let ix = index_of(entries);
    let hits = debug_search(&ix, "match");
    assert_eq!(hits.len(), 20);
    for (i, h) in hits.iter().enumerate() {
        assert_eq!(h.path, format!("C:\\m{}.txt", i));
    }
}

#[test]
fn install_replaces_snapshot_wholesale() {
    let mut ix = Index::new();
    ix.install(vec![entry("old", "C:\\old.txt", Category::Document)]);
    ix.install(vec![
        entry("new1", "C:\\new1.txt", Category::Document),
        entry("new2", "C:\\new2.txt", Category::Document),
    ]);
    assert!(search_apps(&ix, "old").is_empty());
    assert_eq!(get_index_info(&ix).total, 2);
    assert_eq!(search_apps(&ix, "new1").len(), 1);
}

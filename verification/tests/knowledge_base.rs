use heliosdb_codekb_mcp::calendar::{epoch_to_ymdhms, iso_text, DateTime};
use heliosdb_codekb_mcp::checkpoint;
use heliosdb_codekb_mcp::config::{not_configured_error, Config, KbTable, StoredKb};
use heliosdb_codekb_mcp::kb::{gitignore_update, join_path, slugify, KbMode, KbSpec};
use heliosdb_codekb_mcp::quality;

#[test]
fn parse_round_trip() {
    for v in ["co-located", "global", "hybrid"] {
        let m = KbMode::parse(v).unwrap();
        assert_eq!(m.as_str(), v);
    }
}

#[test]
fn parse_unknown() {
    assert!(KbMode::parse("nope").is_err());
}

#[test]
fn unknown_mode_is_named() {
    assert_eq!(
        KbMode::parse("nope").unwrap_err(),
        "unknown KB mode `nope`. Expected co-located, global, or hybrid."
    );
}

#[test]
fn co_located_path() {
    let spec = KbSpec::resolve("/work/repo", KbMode::CoLocated, None, None).unwrap();
    assert_eq!(spec.kb_dir, "/work/repo/.helios-kb");
}

#[test]
fn co_located_rejects_kb_override() {
    assert!(KbSpec::resolve("/work/repo", KbMode::CoLocated, Some("/x"), None).is_err());
}

#[test]
fn hybrid_requires_kb() {
    assert!(KbSpec::resolve("/work/repo", KbMode::Hybrid, None, None).is_err());
    let spec = KbSpec::resolve("/work/repo", KbMode::Hybrid, Some("/shared"), None).unwrap();
    assert_eq!(spec.kb_dir, "/shared");
}

#[test]
fn slugify_strips_leading_slash() {
    assert_eq!(slugify("/home/me/proj"), "home-me-proj");
}

#[test]
fn slugs_hold_no_separator() {
    assert_eq!(slugify("//a b/c\\d"), "a_b-c-d");
    assert_eq!(slugify(""), "");
}

#[test]
fn global_bases_share_a_root() {
    let spec =
        KbSpec::resolve("/home/me/proj", KbMode::Global, None, Some("/data/kbs")).unwrap();
    assert_eq!(spec.kb_dir, "/data/kbs/home-me-proj");
    assert_eq!(spec.mode, KbMode::Global);
    let given = KbSpec::resolve("/home/me/proj", KbMode::Global, Some("/mine"), None).unwrap();
    assert_eq!(given.kb_dir, "/mine");
    assert_eq!(
        KbSpec::resolve("/home/me/proj", KbMode::Global, None, None).unwrap_err(),
        "could not resolve XDG data dir"
    );
    assert!(KbSpec::needs_data_root(KbMode::Global, None));
    assert!(!KbSpec::needs_data_root(KbMode::Global, Some("/mine")));
    assert!(!KbSpec::needs_data_root(KbMode::Hybrid, None));
}

#[test]
fn paths_are_joined_with_one_separator() {
    assert_eq!(join_path("/a", "b"), "/a/b");
    assert_eq!(join_path("/a/", "b"), "/a/b");
    assert_eq!(join_path("/", "b"), "/b");
}

#[test]
fn ignore_file_names_the_directory_once() {
    assert_eq!(gitignore_update("", ".helios-kb/").unwrap(), ".helios-kb/\n");
    assert_eq!(
        gitignore_update("target", ".helios-kb/").unwrap(),
        "target\n.helios-kb/\n"
    );
    assert_eq!(
        gitignore_update("target\n", ".helios-kb/").unwrap(),
        "target\n.helios-kb/\n"
    );
    assert!(gitignore_update("target\n  .helios-kb \n", ".helios-kb/").is_none());
    assert!(gitignore_update("target\n.helios-kb/\n", ".helios-kb/").is_none());
    assert!(gitignore_update("x.helios-kb/\n", ".helios-kb/").is_some());
    let once = gitignore_update("a\r\nb", ".helios-kb/").unwrap();
    assert_eq!(once, "a\r\nb\n.helios-kb/\n");
    assert!(gitignore_update(&once, ".helios-kb/").is_none());
}

#[test]
fn upsert_and_lookup() {
    let mut cfg = Config::default();
    cfg.upsert_kb(
        "/tmp/example-repo",
        KbSpec {
            mode: KbMode::CoLocated,
            kb_dir: "/tmp/example-repo/.helios-kb".to_string(),
        },
        0,
    );
    assert_eq!(cfg.kbs.len(), 1);
    assert!(cfg.kbs.contains_key("/tmp/example-repo"));
}

#[test]
fn longest_prefix_lookup_for_hybrid() {
    let parent = "/tmp/work/Helios";
    let child = "/tmp/work/Helios/Nano";
    let mut cfg = Config::default();
    cfg.upsert_kb(
        parent,
        KbSpec {
            mode: KbMode::Hybrid,
            kb_dir: join_path(parent, ".helios-kb"),
        },
        1_700_000_000,
    );
    cfg.upsert_kb(
        child,
        KbSpec {
            mode: KbMode::CoLocated,
            kb_dir: join_path(child, ".helios-kb"),
        },
        1_700_000_000,
    );

    let inside_child = join_path(child, "src");
    let resolved = cfg
        .lookup_for_source(&inside_child)
        .expect("expected child KB to win");
    assert_eq!(
        resolved.kb_dir,
        join_path(child, ".helios-kb"),
        "longest-prefix match should pick the child KB"
    );

    let other_child = join_path(parent, "Lite");
    let resolved = cfg
        .lookup_for_source(&other_child)
        .expect("expected parent KB to handle non-child path");
    assert_eq!(resolved.mode, KbMode::Hybrid);
}

#[test]
fn sources_are_found_by_whole_names() {
    let mut cfg = Config::default();
    cfg.upsert_kb(
        "/tmp/work",
        KbSpec {
            mode: KbMode::Global,
            kb_dir: "/kbs/work".to_string(),
        },
        0,
    );
    assert_eq!(cfg.lookup_for_source("/tmp/work").unwrap().kb_dir, "/kbs/work");
    assert!(cfg.lookup_for_source("/tmp/workshop").is_none());
    assert!(cfg.lookup_for_source("/tmp").is_none());
}

#[test]
fn sources_that_end_in_a_slash_are_found() {
    let mut cfg = Config::default();
    cfg.upsert_kb(
        "/",
        KbSpec {
            mode: KbMode::Global,
            kb_dir: "/kb".to_string(),
        },
        0,
    );
    assert_eq!(cfg.lookup_for_source("/tmp").unwrap().kb_dir, "/kb");
    assert_eq!(cfg.lookup_for_source("/").unwrap().kb_dir, "/kb");
    assert!(cfg.lookup_for_source("tmp").is_none());
    cfg.upsert_kb(
        "/tmp",
        KbSpec {
            mode: KbMode::Global,
            kb_dir: "/kb/tmp".to_string(),
        },
        0,
    );
    assert_eq!(cfg.lookup_for_source("/tmp/work").unwrap().kb_dir, "/kb/tmp");
    assert_eq!(cfg.lookup_for_source("/tmpx").unwrap().kb_dir, "/kb");
}

#[test]
fn registering_again_replaces() {
    let mut cfg = Config::default();
    for (dir, now) in [("/one", 0u64), ("/two", 951_782_399)] {
        cfg.upsert_kb(
            "/src",
            KbSpec {
                mode: KbMode::Hybrid,
                kb_dir: dir.to_string(),
            },
            now,
        );
    }
    assert_eq!(cfg.kbs.len(), 1);
    let stored = cfg.kbs.get("/src").unwrap();
    assert_eq!(stored.kb_dir, "/two");
    assert_eq!(stored.created, "2000-02-28T23:59:59Z");
    assert_eq!(cfg.default_mode, KbMode::Global);
    assert!(cfg.serve.profile.is_none());
}

#[test]
fn table_keeps_paths_in_order() {
    let mut table = KbTable::new();
    for path in ["/b", "/a/z", "/a"] {
        table.insert(
            path,
            StoredKb {
                mode: KbMode::Global,
                kb_dir: format!("{path}/kb"),
                created: String::new(),
            },
        );
    }
    let listed: Vec<&str> = (0..table.len()).map(|i| table.path_at(i)).collect();
    assert_eq!(listed, vec!["/a", "/a/z", "/b"]);
    assert_eq!(table.kb_at(1).kb_dir, "/a/z/kb");
    assert!(table.get("/c").is_none());
}

#[test]
fn missing_base_is_explained() {
    assert_eq!(
        not_configured_error("/src"),
        "no KB configured for source `/src`. Run `heliosdb-codekb-mcp init --source /src --mode <co-located|global|hybrid>` first."
    );
}

#[test]
fn seconds_name_dates() {
    assert_eq!(iso_text(0), "1970-01-01T00:00:00Z");
    assert_eq!(iso_text(951_782_400), "2000-02-29T00:00:00Z");
    assert_eq!(iso_text(1_709_251_199), "2024-02-29T23:59:59Z");
    assert_eq!(iso_text(1_700_000_000), "2023-11-14T22:13:20Z");
    assert_eq!(
        epoch_to_ymdhms(4_107_542_399),
        DateTime {
            year: 2100,
            month: 2,
            day: 28,
            hour: 23,
            minute: 59,
            second: 59,
        }
    );
}

#[test]
fn checkpoints_keep_their_start() {
    let first = checkpoint::begin("/src", checkpoint::Phase::Walk, 100);
    assert_eq!(first.started_at_secs, 100);
    let next = checkpoint::advance(&Some(first), "/src", checkpoint::Phase::CodeIndex, 250);
    assert_eq!(next.started_at_secs, 100);
    assert_eq!(next.phase, checkpoint::Phase::CodeIndex);
    let lost = checkpoint::advance(&None, "/src", checkpoint::Phase::GraphRag, 250);
    assert_eq!(lost.started_at_secs, 250);
    assert_eq!(checkpoint::checkpoint_path("/kb"), "/kb/.ingest-state.json");
    assert_eq!(
        checkpoint::resume_line(&next, 100 + 3 * 60 + 5),
        "ingest resume : interrupted at phase = CodeIndex (3 m 5 s ago) — re-run `ingest` to continue"
    );
}

#[test]
fn phases_come_in_order() {
    let all = [
        checkpoint::Phase::Walk,
        checkpoint::Phase::CodeIndex,
        checkpoint::Phase::GraphRag,
    ];
    for (i, a) in all.iter().enumerate() {
        for (j, b) in all.iter().enumerate() {
            assert_eq!(a.at_or_past(*b), i >= j);
        }
    }
}

#[test]
fn durations_are_worded() {
    assert_eq!(quality::fmt_duration_secs(0), "0 s");
    assert_eq!(quality::fmt_duration_secs(59), "59 s");
    assert_eq!(quality::fmt_duration_secs(60), "1 m 0 s");
    assert_eq!(quality::fmt_duration_secs(3_599), "59 m 59 s");
    assert_eq!(quality::fmt_duration_secs(3_600), "1 h 0 m");
    assert_eq!(quality::fmt_duration_secs(100_000), "27 h 46 m");
}

#[test]
fn background_phase_is_reported() {
    assert!(quality::status_lines(&quality::classify(None, false), 9).is_empty());

    let p = quality::started(42, 1_000, "/kb/quality.log", "/src");
    let running = quality::classify(Some(p), true);
    assert_eq!(
        quality::status_lines(&running, 1_090),
        vec![
            "quality phase : running — pid 42 (1 m 30 s elapsed)".to_string(),
            "              : log → /kb/quality.log".to_string(),
        ]
    );

    let p = quality::started(42, 1_000, "/kb/quality.log", "/src");
    let stale = quality::classify(Some(p), false);
    assert_eq!(
        quality::status_lines(&stale, 1_090),
        vec![
            "quality phase : stale — pid 42 not running and no completion recorded".to_string(),
            "              : tail /kb/quality.log or re-run `ingest --background-quality`"
                .to_string(),
            "              : log → /kb/quality.log".to_string(),
        ]
    );

    let p = quality::finalize(
        quality::started(42, 1_000, "/kb/quality.log", "/src"),
        1_075,
    );
    let complete = quality::classify(Some(p), true);
    assert!(matches!(complete, quality::Phase::Complete { .. }));
    assert_eq!(
        quality::status_lines(&complete, 1_080),
        vec!["quality phase : complete — took 1 m 15 s, finished 5 s ago".to_string()]
    );
    assert_eq!(quality::progress_path("/kb"), "/kb/quality-progress.json");
    assert_eq!(quality::log_path("/kb"), "/kb/quality.log");
}

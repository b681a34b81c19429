use std::collections::HashMap;

use cfgbeast::cvar::DEFAULT_MAP_SETTINGS;
use cfgbeast::locator::{after_scan, after_working_dir, init, is_marker_name, is_pruned, LocatorAction};
use cfgbeast::store::{appdata_base, config_path, join_path, temp_path, Config};
use cfgbeast::writer::{outcome, remove_cvars, Cfg, CreateError, FileOp, WriteType};

fn strings(v: &[&str]) -> Vec<String> {
    v.iter().map(|s| s.to_string()).collect()
}

fn request(cvars: &str, writetype: WriteType, skill: bool, whitelist: &[&str]) -> Cfg {
    Cfg {
        cvars: cvars.to_string(),
        writetype,
        is_skillcfg: skill,
        bspdir: String::new(),
        bspwhitelist: strings(whitelist),
    }
}

/// Runs a request against an in-memory directory, as the program does on disk.
fn run(cfg: &Cfg, files: &mut HashMap<String, String>) -> i64 {
    let listing: Vec<String> = files.keys().cloned().collect();
    let planned = cfg.targets(&listing);
    let mut done = Vec::new();
    if let Ok(targets) = &planned {
        for t in targets {
            let exists = files.contains_key(t);
            let op = cfg.file_op(exists, files.get(t).cloned());
            match op {
                FileOp::Write(text) => {
                    files.insert(t.clone(), text);
                    done.push(true);
                }
                FileOp::Append(text) => {
                    files.entry(t.clone()).or_default().push_str(&text);
                    done.push(true);
                }
                FileOp::Delete => {
                    done.push(files.remove(t).is_some());
                }
                FileOp::Skip => {}
            }
        }
    }
    outcome(&planned, &done)
}

fn maps(names: &[&str]) -> HashMap<String, String> {
    names.iter().map(|n| (n.to_string(), String::from("BSP"))).collect()
}

#[test]
fn empty_cvars_refused_for_writing_operations() {
    for wt in [WriteType::OVERWRITE, WriteType::APPEND, WriteType::REMOVE] {
        let cfg = request("", wt, false, &[]);
        assert_eq!(cfg.targets(&strings(&["a.bsp"])), Err(CreateError::NoCvars));
        assert_eq!(cfg.targets(&Vec::new()), Err(CreateError::NoCvars));
        let mut files = maps(&["a.bsp", "b.bsp"]);
        let before = files.clone();
        assert_eq!(run(&cfg, &mut files), -1);
        assert_eq!(files, before);
    }
}

#[test]
fn delete_needs_no_cvars() {
    let cfg = request("", WriteType::DELETE, false, &[]);
    assert_eq!(cfg.targets(&strings(&["a.bsp"])), Ok(strings(&["a.cfg"])));
}

#[test]
fn no_bsps_and_no_match_are_distinct() {
    let cfg = request("x", WriteType::OVERWRITE, false, &[]);
    assert_eq!(cfg.targets(&strings(&["a.txt"])), Err(CreateError::NoBsps));
    let cfg = request("x", WriteType::OVERWRITE, false, &["other"]);
    assert_eq!(cfg.targets(&strings(&["a.bsp"])), Err(CreateError::NoWhitelistMatch));
    assert_eq!(cfg.targets(&strings(&["a.txt"])), Err(CreateError::NoBsps));
}

#[test]
fn targets_follow_listing_and_skill_flag() {
    let cfg = request("x", WriteType::APPEND, true, &["B", "c.bsp"]);
    let listing = strings(&["c.bsp", "a.bsp", "readme.txt", "b.BSP"]);
    assert_eq!(cfg.targets(&listing), Ok(strings(&["c_skl.cfg", "b_skl.cfg"])));
}

#[test]
fn overwrite_round_trip() {
    let mut files = maps(&["a.bsp", "b.bsp"]);
    files.insert("a.cfg".to_string(), "old stuff\n".to_string());
    let cfg = request("sv_gravity 800\nmp_flashlight 1", WriteType::OVERWRITE, false, &[]);
    assert_eq!(run(&cfg, &mut files), 2);
    for name in ["a.cfg", "b.cfg"] {
        let text = &files[name];
        assert_eq!(text, "sv_gravity 800\nmp_flashlight 1\n");
        assert_eq!(text.strip_suffix('\n').unwrap(), cfg.cvars);
    }
}

#[test]
fn appends_concatenate() {
    let mut one = maps(&["m.bsp"]);
    run(&request("a 1", WriteType::APPEND, false, &[]), &mut one);
    run(&request("b 2", WriteType::APPEND, false, &[]), &mut one);
    let mut joined = maps(&["m.bsp"]);
    run(&request("a 1\nb 2", WriteType::APPEND, false, &[]), &mut joined);
    assert_eq!(one["m.cfg"], "a 1\nb 2\n");
    assert_eq!(one, joined);
}

#[test]
fn remove_after_overwrite_leaves_no_line() {
    let mut files = maps(&["m.bsp"]);
    let x = "sv_gravity 800\nmp_flashlight 1\nweapon_rpg";
    run(&request(x, WriteType::OVERWRITE, false, &[]), &mut files);
    assert_eq!(run(&request(x, WriteType::REMOVE, false, &[]), &mut files), 1);
    let text = &files["m.cfg"];
    assert_eq!(text, "\n\n\n");
    for line in x.lines() {
        assert!(!text.contains(line));
    }
}

#[test]
fn remove_after_overwrite_with_carriage_returns() {
    let mut files = maps(&["m.bsp"]);
    let x = "c\r\r\nzc\r";
    run(&request(x, WriteType::OVERWRITE, false, &[]), &mut files);
    assert_eq!(files["m.cfg"], "c\r\r\nzc\r\n");
    run(&request(x, WriteType::REMOVE, false, &[]), &mut files);
    let text = &files["m.cfg"];
    assert_eq!(text, "\r\nz\n");
    assert!(!text.contains("c\r") && !text.contains("zc"));
}

#[test]
fn remove_after_overwrite_can_leave_a_line_when_lines_nest() {
    let mut files = maps(&["m.bsp"]);
    let x = "ac\nb\nabzc\nz";
    run(&request(x, WriteType::OVERWRITE, false, &[]), &mut files);
    run(&request(x, WriteType::REMOVE, false, &[]), &mut files);
    assert_eq!(files["m.cfg"], "\n\nac\n\n");
}

#[test]
fn remove_is_substring_removal() {
    let r = remove_cvars("mp_timeleft 1\nmp_timeleft_empty 1\nfoo\n", "mp_timeleft");
    assert_eq!(r, " 1\n_empty 1\nfoo\n");
    assert_eq!(remove_cvars("a\r\nb\n", "a\r\n\r\nb"), "\r\n\n");
    assert_eq!(remove_cvars("keep\n", ""), "keep\n");
}

#[test]
fn remove_skips_absent_file() {
    let mut files = maps(&["m.bsp"]);
    assert_eq!(run(&request("x", WriteType::REMOVE, false, &[]), &mut files), 0);
    assert!(!files.contains_key("m.cfg"));
    let cfg = request("x", WriteType::REMOVE, false, &[]);
    assert!(matches!(cfg.file_op(true, None), FileOp::Skip));
}

#[test]
fn delete_is_idempotent() {
    let mut files = maps(&["m.bsp"]);
    files.insert("m.cfg".to_string(), "x\n".to_string());
    let cfg = request("", WriteType::DELETE, false, &[]);
    assert_eq!(run(&cfg, &mut files), 1);
    assert!(!files.contains_key("m.cfg"));
    assert_eq!(run(&cfg, &mut files), 0);
    assert!(!files.contains_key("m.cfg"));
    assert!(matches!(cfg.file_op(false, None), FileOp::Skip));
    assert!(matches!(cfg.file_op(true, None), FileOp::Delete));
}

#[test]
fn file_ops_carry_text() {
    let cfg = request("a\nb", WriteType::OVERWRITE, false, &[]);
    assert!(matches!(cfg.file_op(false, None), FileOp::Write(t) if t == "a\nb\n"));
    let cfg = request("a", WriteType::APPEND, false, &[]);
    assert!(matches!(cfg.file_op(true, Some("z".to_string())), FileOp::Append(t) if t == "a\n"));
    let cfg = request("a", WriteType::REMOVE, false, &[]);
    assert!(matches!(cfg.file_op(true, Some("xay\n".to_string())), FileOp::Write(t) if t == "xy\n"));
}

#[test]
fn outcome_counts() {
    let ok: Result<Vec<String>, CreateError> = Ok(strings(&["a.cfg", "b.cfg", "c.cfg"]));
    assert_eq!(outcome(&ok, &vec![true, false, true]), 2);
    assert_eq!(outcome(&ok, &vec![false]), 0);
    assert_eq!(outcome(&ok, &Vec::new()), 0);
    let err: Result<Vec<String>, CreateError> = Err(CreateError::NoBsps);
    assert_eq!(outcome(&err, &Vec::new()), -1);
}

#[test]
fn locator_not_found_without_any_marker() {
    assert!(matches!(init(&Config::default()), LocatorAction::CheckWorkingDir));
    assert!(matches!(after_working_dir("/tmp/x".to_string(), false), LocatorAction::ScanRoots));
    assert!(matches!(after_scan(None), LocatorAction::NotFound));
}

#[test]
fn locator_uses_record_then_working_dir_then_scan() {
    let stored = Config::for_dir("C:/svencoop".to_string());
    assert!(matches!(init(&stored), LocatorAction::Resolved(d) if d == "C:/svencoop"));
    assert!(matches!(after_working_dir("/w".to_string(), true), LocatorAction::Persist(d) if d == "/w"));
    assert!(matches!(after_scan(Some("D:/sc".to_string())), LocatorAction::Persist(d) if d == "D:/sc"));
}

#[test]
fn scan_name_checks() {
    assert!(is_marker_name("DEFAULT_MAP_SETTINGS.CFG"));
    assert!(is_marker_name(DEFAULT_MAP_SETTINGS));
    assert!(!is_marker_name("skill.cfg"));
    assert!(is_pruned("$RECYCLE.BIN"));
    assert!(!is_pruned("maps"));
}

#[test]
fn store_paths() {
    assert_eq!(join_path("a", "b"), "a/b");
    assert_eq!(join_path("a/", "b"), "a/b");
    assert_eq!(join_path("", "b"), "b");
    assert_eq!(appdata_base(Some("L".to_string()), Some("R".to_string()), "W"), "L/CFGBeast");
    assert_eq!(appdata_base(None, Some("R".to_string()), "W"), "R/CFGBeast");
    assert_eq!(appdata_base(None, None, "W"), "W/CFGBeast");
    assert_eq!(config_path("L/CFGBeast"), "L/CFGBeast/CFGBeast.toml");
    assert_eq!(temp_path("L/CFGBeast"), "L/CFGBeast/CFGBeast.toml.tmp");
    assert!(Config::default().svencoopdir.is_none());
}

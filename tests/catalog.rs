use cfgbeast::bsp::{
    bsp_dir, cfg_file_name, current_bsp_whitelist, dir_contains_type, filter_whitelist, is_bsp_name,
    load_bsps, motd_file_name, BspEntry,
};
use cfgbeast::cvar::{
    default_marker_path, get_default_cvars, get_skill_cvars, other_cvars, parse_cfg,
    skill_marker_path, trim_str,
};

fn strings(v: &[&str]) -> Vec<String> {
    v.iter().map(|s| s.to_string()).collect()
}

#[test]
fn trim_removes_surrounding_white_space() {
    assert_eq!(trim_str("  sv_gravity 800 \t\r\n"), "sv_gravity 800");
    assert_eq!(trim_str("   "), "");
    assert_eq!(trim_str("\u{3000}x\u{a0}"), "x");
}

#[test]
fn parse_cfg_drops_blanks_and_comments_and_sorts() {
    let text = "weapon_rpg\r\n  # note\n// c\n\n  ammo_9mm 2  \nmp_timeleft\n";
    assert_eq!(parse_cfg(text), strings(&["ammo_9mm 2", "mp_timeleft", "weapon_rpg"]));
}

#[test]
fn parse_cfg_keeps_duplicates() {
    assert_eq!(parse_cfg("b\na\nb"), strings(&["a", "b", "b"]));
}

#[test]
fn parse_cfg_of_empty_text_is_empty() {
    assert!(parse_cfg("").is_empty());
}

#[test]
fn default_cvars_from_marker_text() {
    let r = get_default_cvars(Ok("map_script\n// c\n\nweapon_357\n".to_string()));
    let other = other_cvars();
    assert_eq!(other.len(), 49);
    assert_eq!(r.len(), 2 + other.len());
    assert!(r.contains(&"map_script".to_string()));
    assert!(r.contains(&"weapon_357".to_string()));
    for c in &other {
        assert!(r.contains(c));
    }
    for l in &r {
        assert!(!l.is_empty() && !l.starts_with("//") && !l.starts_with('#'));
    }
    let mut sorted = r.clone();
    sorted.sort();
    assert_eq!(r, sorted);
    assert_eq!(r.iter().filter(|l| l.as_str() == "map_script").count(), 2);
}

#[test]
fn default_cvars_failure_catalog() {
    let r = get_default_cvars(Err("file not found".to_string()));
    assert_eq!(r, strings(&["! Failed to load cvars.", "Reason: file not found"]));
}

#[test]
fn skill_cvars_have_no_supplement() {
    let r = get_skill_cvars(Ok("skill 3\n// x\nsk_plr_crowbar 10\n".to_string()));
    assert_eq!(r, strings(&["sk_plr_crowbar 10", "skill 3"]));
    let e = get_skill_cvars(Err("denied".to_string()));
    assert_eq!(e, strings(&["! Failed to load cvars.", "Reason: denied"]));
}

#[test]
fn marker_paths() {
    assert_eq!(default_marker_path(" C:/Games/svencoop \n"), "C:/Games/svencoop/default_map_settings.cfg");
    assert_eq!(default_marker_path("C:\\svencoop\\"), "C:\\svencoop\\default_map_settings.cfg");
    assert_eq!(
        skill_marker_path("C:/svencoop/default_map_settings.cfg "),
        "C:/svencoop/skill.cfg"
    );
    assert_eq!(skill_marker_path("/no/marker/here"), "/no/marker/here");
}

#[test]
fn load_bsps_keeps_map_files() {
    let names = strings(&["a.bsp", "B.BSP", "c.cfg", ".bsp", "d.bsp.txt", "e", "f.Bsp"]);
    assert_eq!(load_bsps(&names), strings(&["a.bsp", "B.BSP", "f.Bsp"]));
    assert!(load_bsps(&Vec::new()).is_empty());
}

#[test]
fn is_bsp_name_cases() {
    assert!(is_bsp_name("stadium4.bsp"));
    assert!(is_bsp_name("x.y.BsP"));
    assert!(!is_bsp_name("bsp"));
    assert!(!is_bsp_name(".bsp"));
    assert!(!is_bsp_name("stadium4.bsp.bak"));
}

#[test]
fn whitelist_empty_keeps_all() {
    let s = strings(&["a.bsp", "b.bsp"]);
    assert_eq!(filter_whitelist(&s, &Vec::new()), s);
}

#[test]
fn whitelist_ignores_case_and_extension() {
    let s = strings(&["de_dust.bsp", "Hl_c01.bsp", "x.bsp"]);
    let w = strings(&["HL_C01.txt", "nothere"]);
    assert_eq!(filter_whitelist(&s, &w), strings(&["Hl_c01.bsp"]));
    let w2 = strings(&["x", "DE_DUST.BSP"]);
    assert_eq!(filter_whitelist(&s, &w2), strings(&["de_dust.bsp", "x.bsp"]));
}

#[test]
fn whitelist_result_is_subset() {
    let s = strings(&["m1.bsp", "m2.bsp", "m3.bsp"]);
    let w = strings(&["M2", "m4", "m1.cfg"]);
    let r = filter_whitelist(&s, &w);
    assert_eq!(r, strings(&["m1.bsp", "m2.bsp"]));
    for x in &r {
        assert!(s.contains(x));
    }
    assert!(filter_whitelist(&s, &strings(&["zzz"])).is_empty());
}

#[test]
fn cfg_names() {
    assert_eq!(cfg_file_name("stadium4.bsp", false), "stadium4.cfg");
    assert_eq!(cfg_file_name("stadium4.bsp", true), "stadium4_skl.cfg");
    assert_eq!(cfg_file_name("a.b.BSP", false), "a.b.cfg");
}

#[test]
fn contains_type() {
    let names = strings(&["readme", "x.TXT", "map.bsp"]);
    assert!(dir_contains_type(&names, "bsp"));
    assert!(dir_contains_type(&names, "txt"));
    assert!(!dir_contains_type(&names, "cfg"));
    assert!(!dir_contains_type(&Vec::new(), "bsp"));
}

#[test]
fn motd_names() {
    assert_eq!(motd_file_name("hl_c01.bsp"), Some("hl_c01_motd.txt".to_string()));
    assert_eq!(motd_file_name("hl_c01.BSP"), None);
    assert_eq!(motd_file_name("notes.txt"), None);
}

#[test]
fn selection_makes_whitelist() {
    let mut entries = vec![BspEntry::new("a.bsp".to_string()), BspEntry::new("b.bsp".to_string())];
    assert!(entries[0].selected && entries[1].selected);
    assert_eq!(current_bsp_whitelist(&entries), strings(&["a.bsp", "b.bsp"]));
    entries[0].toggle();
    assert!(!entries[0].selected);
    assert_eq!(current_bsp_whitelist(&entries), strings(&["b.bsp"]));
    entries[0].toggle();
    assert!(entries[0].selected);
}

#[test]
fn missing_directory_falls_back_to_working_directory() {
    assert_eq!(bsp_dir("maps".to_string(), true, "/cwd".to_string()), "maps");
    assert_eq!(bsp_dir("gone".to_string(), false, "/cwd".to_string()), "/cwd");
}

use resona::library::deletion::{
    cue_children_query, dedup_strings, deletion_statements, plan_orphan_removal, plan_track_deletion,
    sql_placeholders,
};
use resona::library::favorites::FavoriteChange;
use resona::library::folders::{
    escape_like, folder_like_pattern, is_in_folder, normalize_folder_path, removal_filter, scan_filter,
};
use resona::library::genres::{genre_id, track_genre_links, Genre};
use resona::library::lyrics::LyricRow;
use resona::library::scan::{cue_track_id, is_audio_extension, missing_track_ids, scan_result, KnownTrack};

fn strings(v: &[&str]) -> Vec<String> {
    v.iter().map(|s| s.to_string()).collect()
}

#[test]
fn placeholders_number_each_parameter() {
    assert_eq!(sql_placeholders(0), "");
    assert_eq!(sql_placeholders(1), "?1");
    assert_eq!(sql_placeholders(3), "?1,?2,?3");
    assert_eq!(sql_placeholders(11), "?1,?2,?3,?4,?5,?6,?7,?8,?9,?10,?11");
}

#[test]
fn cue_children_query_binds_every_parent() {
    assert_eq!(
        cue_children_query(2),
        "SELECT id FROM tracks WHERE cue_parent_id IN (?1,?2)"
    );
}

#[test]
fn deletion_statements_in_order() {
    let stmts = deletion_statements(2);
    assert_eq!(
        stmts,
        vec![
            "DELETE FROM play_history WHERE track_id IN (?1,?2)".to_string(),
            "DELETE FROM favorites WHERE track_id IN (?1,?2)".to_string(),
            "DELETE FROM playlist_tracks WHERE track_id IN (?1,?2)".to_string(),
            "DELETE FROM tracks WHERE id IN (?1,?2)".to_string(),
        ]
    );
}

#[test]
fn deletion_includes_cue_children_and_drops_adjacent_repeats() {
    let plan = plan_track_deletion(&strings(&["a", "b"]), &strings(&["b", "a-cue-01"]));
    assert_eq!(plan.ids, strings(&["a", "b", "a-cue-01"]));
    assert_eq!(plan.statements[3], "DELETE FROM tracks WHERE id IN (?1,?2,?3)");
}

#[test]
fn deletion_keeps_repeats_that_are_not_adjacent() {
    let plan = plan_track_deletion(&strings(&["a", "b"]), &strings(&["a"]));
    assert_eq!(plan.ids, strings(&["a", "b", "a"]));
}

#[test]
fn dedup_strings_like_vec_dedup() {
    let v = strings(&["x", "x", "y", "x", "x", "x"]);
    let mut expected = v.clone();
    expected.dedup();
    assert_eq!(dedup_strings(&v), expected);
    assert_eq!(dedup_strings(&Vec::new()), Vec::<String>::new());
}

#[test]
fn folder_path_loses_trailing_separators() {
    assert_eq!(normalize_folder_path("C:\\Music\\\\"), "C:\\Music");
    assert_eq!(normalize_folder_path("/music/"), "/music");
    assert_eq!(normalize_folder_path("/music/a b"), "/music/a b");
    assert_eq!(normalize_folder_path("///"), "");
}

#[test]
fn like_wildcards_are_escaped() {
    assert_eq!(escape_like("50%_off"), "50^%^_off");
    assert_eq!(escape_like("plain"), "plain");
    assert_eq!(folder_like_pattern("/m_x", '/'), "/m^_x/%");
    assert_eq!(escape_like("a^b"), "a^^b");
}

#[test]
fn folder_membership_is_the_folder_or_a_separated_prefix() {
    assert!(is_in_folder("/music", "/music", '/'));
    assert!(is_in_folder("/music/a.mp3", "/music", '/'));
    assert!(is_in_folder("/music/sub/b.flac", "/music", '/'));
    assert!(!is_in_folder("/MUSIC/a.mp3", "/music", '/'));
    assert!(!is_in_folder("/musicx/a.mp3", "/music", '/'));
    assert!(!is_in_folder("/mus", "/music", '/'));
    assert!(is_in_folder("/a^b/x", "/a^b", '/'));
}

#[test]
fn removal_filter_uses_trimmed_folder() {
    let f = removal_filter("/music//", '/');
    assert_eq!(f.exact, "/music");
    assert_eq!(f.like_pattern, "/music/%");
}

#[test]
fn scan_filter_uses_folder_as_given() {
    let f = scan_filter("D:\\Songs_1", '\\');
    assert_eq!(f.exact, "D:\\Songs_1");
    assert_eq!(f.like_pattern, "D:\\Songs^_1\\%");
}

#[test]
fn toggle_removes_an_existing_favorite() {
    let c = FavoriteChange::for_existing_rows(1);
    assert!(c == FavoriteChange::Remove);
    assert!(!c.now_favorite());
}

#[test]
fn toggle_adds_a_missing_favorite() {
    let c = FavoriteChange::for_existing_rows(0);
    assert!(c == FavoriteChange::Add);
    assert!(c.now_favorite());
}

#[test]
fn genre_ids_carry_the_key() {
    assert_eq!(genre_id("rock"), "genre-rock");
    let g = Genre::named("Hip Hop", "hip-hop");
    assert_eq!(g.id, "genre-hip-hop");
    assert_eq!(g.name, "Hip Hop");
    assert_eq!(g.normalization_key, "hip-hop");
    assert_eq!(g.track_count, 0);
}

#[test]
fn genre_links_are_numbered_from_zero() {
    let links = track_genre_links("t1", &strings(&["genre-a", "genre-b"]));
    assert_eq!(links.len(), 2);
    assert_eq!(links[0].track_id, "t1");
    assert_eq!(links[0].genre_id, "genre-a");
    assert_eq!(links[0].position, 0);
    assert_eq!(links[1].genre_id, "genre-b");
    assert_eq!(links[1].position, 1);
}

#[test]
fn lyrics_from_tags_leave_fetched_fields_empty() {
    let r = LyricRow::from_file_tags("t1", "la la", "ID3");
    assert_eq!(r.track_id, "t1");
    assert_eq!(r.content, "");
    assert_eq!(r.source, "");
    assert_eq!(r.meta_content, "la la");
    assert_eq!(r.meta_source, "ID3");
}

#[test]
fn audio_extensions_ignore_case() {
    assert!(is_audio_extension("mp3"));
    assert!(is_audio_extension("MP3"));
    assert!(is_audio_extension("Flac"));
    assert!(is_audio_extension("opus"));
    assert!(!is_audio_extension("txt"));
    assert!(!is_audio_extension("cue"));
    assert!(!is_audio_extension(""));
}

#[test]
fn cue_ids_are_zero_padded() {
    assert_eq!(cue_track_id("abc", 3), "abc-cue-03");
    assert_eq!(cue_track_id("abc", 0), "abc-cue-00");
    assert_eq!(cue_track_id("abc", 12), "abc-cue-12");
    assert_eq!(cue_track_id("abc", 100), "abc-cue-100");
    assert_ne!(cue_track_id("abc", 1), cue_track_id("abc", 10));
}

#[test]
fn missing_tracks_are_those_without_a_file() {
    let known = vec![
        KnownTrack { id: "a".to_string(), file_exists: true },
        KnownTrack { id: "b".to_string(), file_exists: false },
        KnownTrack { id: "c".to_string(), file_exists: false },
    ];
    assert_eq!(missing_track_ids(&known), strings(&["b", "c"]));
    assert_eq!(missing_track_ids(&[]), Vec::<String>::new());
}

#[test]
fn scan_counts_files_and_cue_tracks() {
    let r = scan_result(&[0, 2, 0], 5);
    assert_eq!(r.added, 5);
    assert_eq!(r.updated, 0);
    assert_eq!(r.removed, 5);
    assert_eq!(scan_result(&[], 0).added, 0);
}

#[test]
fn orphan_removal_keeps_every_id_found() {
    let plan = plan_orphan_removal(&strings(&["p"]), &strings(&["p-cue-01", "p-cue-01"]));
    assert_eq!(plan.ids, strings(&["p", "p-cue-01", "p-cue-01"]));
    assert_eq!(plan.statements[0], "DELETE FROM play_history WHERE track_id IN (?1,?2,?3)");
}

use resona::library::folders::{removal_filter, scan_filter, tracks_in_folder, FolderFilter, TrackPath};
use sqlx::sqlite::SqlitePoolOptions;

/// The track paths that the folder filter's query returns from SQLite.
fn query_folder(folder_filter: &FolderFilter, paths: &[&str]) -> Vec<String> {
    let rt = tokio::runtime::Runtime::new().unwrap();
    rt.block_on(async {
        let pool = SqlitePoolOptions::new()
            .max_connections(1)
            .connect("sqlite::memory:")
            .await
            .unwrap();
        sqlx::query("CREATE TABLE tracks (id TEXT PRIMARY KEY, file_path TEXT NOT NULL UNIQUE)")
            .execute(&pool)
            .await
            .unwrap();
        for p in paths {
            sqlx::query("INSERT INTO tracks (id, file_path) VALUES (?, ?)")
                .bind(p)
                .bind(p)
                .execute(&pool)
                .await
                .unwrap();
        }
        let mut found: Vec<String> = sqlx::query_scalar(
            "SELECT file_path FROM tracks WHERE file_path = ? OR file_path LIKE ? ESCAPE '^'",
        )
        .bind(&folder_filter.exact)
        .bind(&folder_filter.like_pattern)
        .fetch_all(&pool)
        .await
        .unwrap();
        found.sort();
        found
    })
}

/// The paths of the folder's tracks: the query's rows, then the exact test.
fn select_under(folder_filter: FolderFilter, paths: &[&str]) -> Vec<String> {
    let rows: Vec<TrackPath> = query_folder(&folder_filter, paths)
        .into_iter()
        .map(|p| TrackPath { id: p.clone(), file_path: p })
        .collect();
    let mut found = tracks_in_folder(&rows, &folder_filter.exact, '/');
    found.sort();
    found
}

#[test]
fn removal_selects_the_folder_and_what_lies_under_it() {
    let found = select_under(
        removal_filter("/music/", '/'),
        &["/music", "/music/a.mp3", "/music/sub/b.flac", "/MUSIC/c.mp3", "/musicx/d.mp3", "/mus/e.mp3"],
    );
    assert_eq!(found, vec!["/music", "/music/a.mp3", "/music/sub/b.flac"]);
}

#[test]
fn the_query_lets_other_letter_cases_through_and_the_exact_test_drops_them() {
    let returned = query_folder(&removal_filter("/music", '/'), &["/MUSIC/c.mp3", "/music/a.mp3"]);
    assert_eq!(returned, vec!["/MUSIC/c.mp3", "/music/a.mp3"]);
    let found = select_under(removal_filter("/music", '/'), &["/MUSIC/c.mp3", "/music/a.mp3"]);
    assert_eq!(found, vec!["/music/a.mp3"]);
}

#[test]
fn a_caret_in_the_folder_name_matches_only_itself() {
    let filter = removal_filter("/a^b/", '/');
    assert_eq!(filter.like_pattern, "/a^^b/%");
    let found = select_under(filter, &["/a^b", "/a^b/x.mp3", "/ab/y.mp3", "/a^bc/z.mp3"]);
    assert_eq!(found, vec!["/a^b", "/a^b/x.mp3"]);
}

#[test]
fn wildcards_in_folder_names_match_only_themselves() {
    let found = select_under(
        scan_filter("/my_music%", '/'),
        &["/my_music%/a.mp3", "/myXmusic%/b.mp3", "/my_musicABC/c.mp3", "/my_music%"],
    );
    assert_eq!(found, vec!["/my_music%", "/my_music%/a.mp3"]);
}
